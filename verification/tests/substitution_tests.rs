use chi_core::{substitute, Branch, Constructor, Expr, Variable};

#[test]
fn subst_rec() {
    let x = Variable("x".into());
    let rec = Expr::Rec(x.clone(), Box::new(Expr::Var(x.clone())));
    let result = substitute(&x, &Expr::Const(Constructor("Z".into()), vec![]), rec.clone());
    assert_eq!(result, rec);
}

#[test]
fn subst_lambda() {
    let x = Variable("x".into());
    let y = Variable("y".into());
    let lambda = Expr::Lambda(
        x.clone(),
        Box::new(Expr::Apply(
            Box::new(Expr::Var(x.clone())),
            Box::new(Expr::Var(y.clone())),
        )),
    );
    let result = substitute(
        &y,
        &Expr::Lambda(x.clone(), Box::new(Expr::Var(x.clone()))),
        lambda.clone(),
    );
    assert_eq!(
        result,
        Expr::Lambda(
            x.clone(),
            Box::new(Expr::Apply(
                Box::new(Expr::Var(x.clone())),
                Box::new(Expr::Lambda(x.clone(), Box::new(Expr::Var(x.clone()))))
            ))
        )
    );
}

#[test]
fn subst_lambda_shadowed() {
    // A lambda that re-binds the substituted name is left untouched,
    // whatever the replacement.
    let x = Variable("x".into());
    let lambda = Expr::Lambda(x.clone(), Box::new(Expr::Var(x.clone())));
    let replacement = Expr::Const(Constructor("Z".into()), vec![]);
    assert_eq!(substitute(&x, &replacement, lambda.clone()), lambda);
}

#[test]
fn subst_case() {
    let z = Variable("z".into());
    let c = Constructor("C".into());
    let case = Expr::Case(
        Box::new(Expr::Var(z.clone())),
        vec![Branch(c.clone(), vec![z.clone()], Expr::Var(z.clone()))],
    );

    let result = substitute(
        &z,
        &Expr::Const(
            c.clone(),
            vec![Expr::Lambda(z.clone(), Box::new(Expr::Var(z.clone())))],
        ),
        case,
    );

    assert_eq!(
        result,
        Expr::Case(
            Box::new(Expr::Const(
                c.clone(),
                vec![Expr::Lambda(z.clone(), Box::new(Expr::Var(z.clone())))]
            )),
            vec![Branch(c.clone(), vec![z.clone()], Expr::Var(z.clone()))]
        )
    );
}
