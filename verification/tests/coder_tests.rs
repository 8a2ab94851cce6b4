use chi_core::{
    eval, replace_coded_literals, Branch, CodedLiteral, Constructor, ErrorKind, Expr, MetaExpr,
    Program, StandardCoder, Variable,
};

fn qv(name: &str) -> MetaExpr {
    MetaExpr::Var(Variable(name.to_string()))
}

fn qconst(name: &str, args: Vec<MetaExpr>) -> MetaExpr {
    MetaExpr::Const(Constructor(name.to_string()), args)
}

fn quote(expr: MetaExpr) -> MetaExpr {
    MetaExpr::Coded(Box::new(CodedLiteral::Expr(expr)))
}

fn econst(name: &str, args: Vec<Expr>) -> Expr {
    Expr::Const(Constructor(name.to_string()), args)
}

fn num(n: usize) -> Expr {
    if n == 0 {
        econst("Zero", vec![])
    } else {
        econst("Suc", vec![num(n - 1)])
    }
}

fn cons_list(items: Vec<Expr>) -> Expr {
    let mut out = econst("Nil", vec![]);
    for item in items.into_iter().rev() {
        out = econst("Cons", vec![item, out]);
    }
    out
}

fn rewrite(expr: MetaExpr) -> Expr {
    let program = replace_coded_literals(Program::Expr(expr), &mut StandardCoder::default())
        .unwrap();
    match program {
        Program::Expr(e) => e,
        Program::Let(..) => panic!("a single expression stays a single expression"),
    }
}

#[test]
fn first_symbol_encodes_to_zero() {
    let coded = rewrite(quote(qv("x")));
    assert_eq!(coded, econst("Var", vec![num(0)]));
}

#[test]
fn same_symbol_twice_yields_identical_numerals() {
    // The quoted fragment `x x` mentions one name twice: both occurrences
    // must encode to the very same numeral.
    let coded = rewrite(quote(MetaExpr::Apply(Box::new(qv("x")), Box::new(qv("x")))));
    assert_eq!(
        coded,
        econst(
            "Apply",
            vec![econst("Var", vec![num(0)]), econst("Var", vec![num(0)])]
        )
    );
}

#[test]
fn second_symbol_gets_the_next_index() {
    // Quoting `\x. y`: the binder is interned first, the body's name next.
    let coded = rewrite(quote(MetaExpr::Lambda(
        Variable("x".to_string()),
        Box::new(qv("y")),
    )));
    assert_eq!(
        coded,
        econst("Lambda", vec![num(0), econst("Var", vec![num(1)])])
    );
}

#[test]
fn constructors_and_variables_share_one_table() {
    let mut coder = StandardCoder::new();
    let as_constructor = coder.code_constructor(Constructor("same".to_string()));
    let as_variable = coder.code_variable(Variable("same".to_string()));
    assert_eq!(as_constructor, as_variable);
    assert_eq!(as_constructor, num(0));
}

#[test]
fn nested_quotation_is_rejected() {
    let nested = quote(quote(qv("x")));
    let err = replace_coded_literals(Program::Expr(nested), &mut StandardCoder::default())
        .unwrap_err();
    assert_eq!(err.kind, ErrorKind::NestedQuotation);
}

#[test]
fn one_table_spans_the_whole_program() {
    // let a = "x"; "x"  —  the same name quoted in two places of one
    // program encodes identically in both.
    let program = Program::Let(
        Variable("a".to_string()),
        quote(qv("x")),
        Box::new(Program::Expr(quote(qv("x")))),
    );
    let program = replace_coded_literals(program, &mut StandardCoder::default()).unwrap();
    match program {
        Program::Let(_, rhs, rest) => {
            assert_eq!(rhs, econst("Var", vec![num(0)]));
            match *rest {
                Program::Expr(e) => assert_eq!(e, econst("Var", vec![num(0)])),
                Program::Let(..) => panic!("the chain ends after one binding"),
            }
        }
        Program::Expr(_) => panic!("the binding survives the rewrite"),
    }
}

#[test]
fn quoted_constructor_interns_in_preorder() {
    // Quoting `C(x)`: the constructor name is interned before the argument.
    let coded = rewrite(quote(qconst("C", vec![qv("x")])));
    assert_eq!(
        coded,
        econst(
            "Const",
            vec![num(0), cons_list(vec![econst("Var", vec![num(1)])])]
        )
    );
}

#[test]
fn quoted_case_has_branch_cells() {
    // Quoting `case x of { C(y) -> y }`: scrutinee first, then per branch
    // its constructor, its bound variables and its body.
    let branch = Branch(
        Constructor("C".to_string()),
        vec![Variable("y".to_string())],
        qv("y"),
    );
    let coded = rewrite(quote(MetaExpr::Case(Box::new(qv("x")), vec![branch])));
    let expected_branch = econst(
        "Branch",
        vec![num(1), cons_list(vec![num(2)]), econst("Var", vec![num(2)])],
    );
    assert_eq!(
        coded,
        econst(
            "Case",
            vec![econst("Var", vec![num(0)]), cons_list(vec![expected_branch])]
        )
    );
}

#[test]
fn quoted_rec_encodes_binder_and_body() {
    let coded = rewrite(quote(MetaExpr::Rec(
        Variable("x".to_string()),
        Box::new(qv("x")),
    )));
    assert_eq!(coded, econst("Rec", vec![num(0), econst("Var", vec![num(0)])]));
}

#[test]
fn unquoted_nodes_pass_through() {
    let expr = MetaExpr::Apply(
        Box::new(MetaExpr::Lambda(Variable("x".to_string()), Box::new(qv("x")))),
        Box::new(qconst("Foo", vec![])),
    );
    let rewritten = rewrite(expr);
    assert_eq!(
        rewritten,
        Expr::Apply(
            Box::new(Expr::Lambda(
                Variable("x".to_string()),
                Box::new(Expr::Var(Variable("x".to_string())))
            )),
            Box::new(econst("Foo", vec![]))
        )
    );
}

#[test]
fn code_natural_builds_unary_numerals() {
    let mut coder = StandardCoder::new();
    assert_eq!(coder.code_natural(0), num(0));
    assert_eq!(coder.code_natural(3), num(3));
}

#[test]
fn code_list_builds_cons_cells() {
    let mut coder = StandardCoder::new();
    let r = coder.code_list(vec![num(0), num(1)]);
    assert_eq!(r, cons_list(vec![num(0), num(1)]));
}

#[test]
fn defined_symbols_lists_the_legend() {
    let mut coder = StandardCoder::default();
    let program = Program::Expr(quote(MetaExpr::Lambda(
        Variable("x".to_string()),
        Box::new(qv("y")),
    )));
    replace_coded_literals(program, &mut coder).unwrap();
    let legend = coder.defined_symbols();
    assert_eq!(legend.len(), 2);
    assert_eq!(legend[0].0, "x");
    assert_eq!(legend[0].1, num(0));
    assert_eq!(legend[1].0, "y");
    assert_eq!(legend[1].1, num(1));
}

#[test]
fn quoted_data_feeds_evaluation() {
    // case "y" of { Var(n) -> n }  —  the quoted fragment becomes plain
    // data that the evaluator can dissect.
    let scrutinee = quote(qv("y"));
    let branch = Branch(
        Constructor("Var".to_string()),
        vec![Variable("n".to_string())],
        qv("n"),
    );
    let expr = MetaExpr::Case(Box::new(scrutinee), vec![branch]);
    let program = replace_coded_literals(Program::Expr(expr), &mut StandardCoder::default())
        .unwrap();
    assert_eq!(eval(program).unwrap(), num(0));
}
