use chi_core::{
    eval, eval_with_limit, replace_coded_literals, Branch, Constructor, Error, ErrorKind, Expr,
    MetaExpr, Program, StandardCoder, Variable,
};

fn v(name: &str) -> Variable {
    Variable(name.to_string())
}

fn c(name: &str) -> Constructor {
    Constructor(name.to_string())
}

fn mvar(name: &str) -> MetaExpr {
    MetaExpr::Var(v(name))
}

fn mconst(name: &str, args: Vec<MetaExpr>) -> MetaExpr {
    MetaExpr::Const(c(name), args)
}

fn mlambda(x: &str, body: MetaExpr) -> MetaExpr {
    MetaExpr::Lambda(v(x), Box::new(body))
}

fn mapply(f: MetaExpr, a: MetaExpr) -> MetaExpr {
    MetaExpr::Apply(Box::new(f), Box::new(a))
}

fn mrec(x: &str, body: MetaExpr) -> MetaExpr {
    MetaExpr::Rec(v(x), Box::new(body))
}

fn mcase(scrutinee: MetaExpr, branches: Vec<(&str, Vec<&str>, MetaExpr)>) -> MetaExpr {
    let bs = branches
        .into_iter()
        .map(|(name, vars, body)| Branch(c(name), vars.into_iter().map(v).collect(), body))
        .collect();
    MetaExpr::Case(Box::new(scrutinee), bs)
}

fn run(expr: MetaExpr) -> Result<Expr, Error> {
    let program = Program::Expr(expr);
    let program = replace_coded_literals(program, &mut StandardCoder::default()).unwrap();
    eval(program)
}

// The following programs should fail to terminate or to reduce:

#[test]
fn application_error() {
    // C() C()
    let expr = mapply(mconst("C", vec![]), mconst("C", vec![]));
    assert!(run(expr).is_err());
}

#[test]
fn non_terminating() {
    // rec x = x
    let expr = mrec("x", mvar("x"));
    assert!(run(expr).is_err());
}

#[test]
fn case_no_constructor_error() {
    // case \x. x of {}
    let expr = mcase(mlambda("x", mvar("x")), vec![]);
    assert!(run(expr).is_err());
}

#[test]
fn case_arity_to_many_error() {
    // case C() of { C(x) -> C() }
    let expr = mcase(mconst("C", vec![]), vec![("C", vec!["x"], mconst("C", vec![]))]);
    assert!(run(expr).is_err());
}

#[test]
fn case_arity_to_few_error() {
    // case C(C()) of { C() -> C(); C(x) -> x }
    let expr = mcase(
        mconst("C", vec![mconst("C", vec![])]),
        vec![("C", vec![], mconst("C", vec![])), ("C", vec!["x"], mvar("x"))],
    );
    assert!(run(expr).is_err());
}

#[test]
fn case_lookup_error() {
    // case C() of { D() -> D() }
    let expr = mcase(mconst("C", vec![]), vec![("D", vec![], mconst("D", vec![]))]);
    assert!(run(expr).is_err());
}

// The following programs should terminate with specific results:

#[test]
fn case_subst_order() {
    // case C(D(),E()) of { C(x, x) -> x }
    let expr = mcase(
        mconst("C", vec![mconst("D", vec![]), mconst("E", vec![])]),
        vec![("C", vec!["x", "x"], mvar("x"))],
    );
    assert_eq!(run(expr).unwrap(), Expr::Const(Constructor("E".into()), vec![]));
}

#[test]
fn case_and_application() {
    // case C(\x.x, Zero()) of { C(f, x) -> f x }
    let expr = mcase(
        mconst("C", vec![mlambda("x", mvar("x")), mconst("Zero", vec![])]),
        vec![("C", vec!["f", "x"], mapply(mvar("f"), mvar("x")))],
    );
    assert_eq!(run(expr).unwrap(), Expr::Const(Constructor("Zero".into()), vec![]));
}

#[test]
fn case_and_application2() {
    // case (\x.x) C() of { C() -> C() }
    let expr = mcase(
        mapply(mlambda("x", mvar("x")), mconst("C", vec![])),
        vec![("C", vec![], mconst("C", vec![]))],
    );
    assert_eq!(run(expr).unwrap(), Expr::Const(Constructor("C".into()), vec![]));
}

#[test]
fn application() {
    // ((\x.x)(\x.x))(\x.x)
    let id = || mlambda("x", mvar("x"));
    let expr = mapply(mapply(id(), id()), id());
    let x = Variable("x".into());
    assert_eq!(
        run(expr).unwrap(),
        Expr::Lambda(x.clone(), Box::new(Expr::Var(x)))
    );
}

#[test]
fn application_left_assoc() {
    // (\_. \x. x) Foo() Bar()
    let expr = mapply(
        mapply(
            mlambda("_", mlambda("x", mvar("x"))),
            mconst("Foo", vec![]),
        ),
        mconst("Bar", vec![]),
    );
    assert_eq!(run(expr).unwrap(), Expr::Const(Constructor("Bar".into()), vec![]));
}

#[test]
fn sample_program_equiv() {
    // let foo = rec foo = \m. \n. case m of
    // { Zero() -> case n of
    //   { Zero() -> True()
    //   ; Suc(n) -> False()
    //   }
    // ; Suc(m) -> case n of
    //   { Zero() -> False()
    //   ; Suc(n) -> foo m n
    //   }
    // };
    //
    // foo Suc(Zero()) Suc(Suc(Zero()))
    let zero_arm = mcase(
        mvar("n"),
        vec![
            ("Zero", vec![], mconst("True", vec![])),
            ("Suc", vec!["n"], mconst("False", vec![])),
        ],
    );
    let suc_arm = mcase(
        mvar("n"),
        vec![
            ("Zero", vec![], mconst("False", vec![])),
            (
                "Suc",
                vec!["n"],
                mapply(mapply(mvar("foo"), mvar("m")), mvar("n")),
            ),
        ],
    );
    let body = mcase(
        mvar("m"),
        vec![("Zero", vec![], zero_arm), ("Suc", vec!["m"], suc_arm)],
    );
    let rhs = mrec("foo", mlambda("m", mlambda("n", body)));
    let one = mconst("Suc", vec![mconst("Zero", vec![])]);
    let two = mconst("Suc", vec![mconst("Suc", vec![mconst("Zero", vec![])])]);
    let main = mapply(mapply(mvar("foo"), one), two);
    let program = Program::Let(v("foo"), rhs, Box::new(Program::Expr(main)));
    let program = replace_coded_literals(program, &mut StandardCoder::default()).unwrap();
    let expr = eval(program).unwrap();
    assert_eq!(expr, Expr::Const(Constructor("False".into()), vec![]));
}

// Each evaluation error comes with its own kind:

#[test]
fn not_a_function_kind() {
    let expr = mapply(mconst("C", vec![]), mconst("C", vec![]));
    assert_eq!(run(expr).unwrap_err().kind, ErrorKind::NotAFunction);
}

#[test]
fn not_a_constructor_kind() {
    let expr = mcase(mlambda("x", mvar("x")), vec![]);
    assert_eq!(run(expr).unwrap_err().kind, ErrorKind::NotAConstructor);
}

#[test]
fn no_matching_branch_kind() {
    let expr = mcase(mconst("C", vec![]), vec![("D", vec![], mconst("D", vec![]))]);
    assert_eq!(run(expr).unwrap_err().kind, ErrorKind::NoMatchingBranch);
}

#[test]
fn arity_mismatch_kind_too_few() {
    let expr = mcase(mconst("C", vec![]), vec![("C", vec!["x"], mconst("C", vec![]))]);
    assert_eq!(run(expr).unwrap_err().kind, ErrorKind::ArityMismatch);
}

#[test]
fn arity_mismatch_kind_too_many() {
    let expr = mcase(
        mconst("C", vec![mconst("C", vec![])]),
        vec![("C", vec![], mconst("C", vec![])), ("C", vec!["x"], mvar("x"))],
    );
    assert_eq!(run(expr).unwrap_err().kind, ErrorKind::ArityMismatch);
}

#[test]
fn depth_exceeded_kind() {
    let expr = mrec("x", mvar("x"));
    assert_eq!(run(expr).unwrap_err().kind, ErrorKind::DepthExceeded);
}

#[test]
fn unbound_variable_kind() {
    // y
    let expr = mvar("y");
    assert_eq!(
        run(expr).unwrap_err().kind,
        ErrorKind::UnboundVariable(Variable("y".into()))
    );
}

#[test]
fn strict_constructor_arguments() {
    // C(rec x = x): a divergent term inside a constructor argument is still
    // forced, even though nothing inspects it.
    let expr = mconst("C", vec![mrec("x", mvar("x"))]);
    assert_eq!(run(expr).unwrap_err().kind, ErrorKind::DepthExceeded);
}

#[test]
fn eval_with_limit_small_budget() {
    // (\x. x) Foo() needs more than one step; a budget of one fails, the
    // default succeeds.
    let make = || mapply(mlambda("x", mvar("x")), mconst("Foo", vec![]));
    let program = replace_coded_literals(Program::Expr(make()), &mut StandardCoder::default())
        .unwrap();
    assert_eq!(eval_with_limit(program, 1).unwrap_err().kind, ErrorKind::DepthExceeded);
    let program = replace_coded_literals(Program::Expr(make()), &mut StandardCoder::default())
        .unwrap();
    assert_eq!(
        eval_with_limit(program, 250).unwrap(),
        Expr::Const(Constructor("Foo".into()), vec![])
    );
}

#[test]
fn default_budget_is_two_hundred_fifty() {
    assert_eq!(chi_core::MAX_DEPTH, 250);
}

#[test]
fn zero_budget_exceeds_depth() {
    let program = replace_coded_literals(
        Program::Expr(mconst("C", vec![])),
        &mut StandardCoder::default(),
    )
    .unwrap();
    assert_eq!(eval_with_limit(program, 0).unwrap_err().kind, ErrorKind::DepthExceeded);
}

#[test]
fn duplicate_branches_first_wins() {
    // case C() of { C() -> D(); C() -> E() }: branches repeating a
    // constructor are legal, and only the first is ever reached.
    let expr = mcase(
        mconst("C", vec![]),
        vec![
            ("C", vec![], mconst("D", vec![])),
            ("C", vec![], mconst("E", vec![])),
        ],
    );
    assert_eq!(run(expr).unwrap(), Expr::Const(Constructor("D".into()), vec![]));
}

#[test]
fn eval_ok_is_a_normal_form() {
    // C(D(), (\x. x) E()) reduces to the fully evaluated C(D(), E()): every
    // successful evaluation ends in a lambda or a constructor tree of
    // values.
    let expr = mconst(
        "C",
        vec![
            mconst("D", vec![]),
            mapply(mlambda("x", mvar("x")), mconst("E", vec![])),
        ],
    );
    assert_eq!(
        run(expr).unwrap(),
        Expr::Const(
            Constructor("C".into()),
            vec![
                Expr::Const(Constructor("D".into()), vec![]),
                Expr::Const(Constructor("E".into()), vec![]),
            ]
        )
    );
}

#[test]
fn error_messages_are_rendered() {
    let err = run(mvar("y")).unwrap_err();
    assert_eq!(
        err.message(),
        "Not a closed expression, variable 'y' is not bound."
    );
    let err = run(mrec("x", mvar("x"))).unwrap_err();
    assert_eq!(
        err.message(),
        "Exceeded max depth, expression is assumed to not terminate"
    );
}

#[test]
fn let_chain_is_inlined() {
    // let id = \x. x; let k = id; k Foo()
    let program = Program::Let(
        v("id"),
        mlambda("x", mvar("x")),
        Box::new(Program::Let(
            v("k"),
            mvar("id"),
            Box::new(Program::Expr(mapply(mvar("k"), mconst("Foo", vec![])))),
        )),
    );
    let program = replace_coded_literals(program, &mut StandardCoder::default()).unwrap();
    assert_eq!(eval(program).unwrap(), Expr::Const(Constructor("Foo".into()), vec![]));
}
