use chi_core::pretty::{abstr, abstr_list, concrete};
use chi_core::{Branch, Constructor, Expr, Printer, Variable};

fn pv(name: &str) -> Expr {
    Expr::Var(Variable(name.to_string()))
}

fn pconst(name: &str, args: Vec<Expr>) -> Expr {
    Expr::Const(Constructor(name.to_string()), args)
}

fn plambda(x: &str, body: Expr) -> Expr {
    Expr::Lambda(Variable(x.to_string()), Box::new(body))
}

fn papply(f: Expr, a: Expr) -> Expr {
    Expr::Apply(Box::new(f), Box::new(a))
}

#[test]
fn abstr_list_empty_is_nil() {
    assert_eq!(abstr_list(&[]), "nil");
}

#[test]
fn abstr_list_cons_cells() {
    let xs = vec!["a".to_string(), "b".to_string()];
    assert_eq!(abstr_list(&xs), "(cons (a) (cons (b) nil))");
}

#[test]
fn abstr_lambda() {
    let e = plambda("x", pv("y"));
    assert_eq!(abstr(&e), "lambda <u>x</u> (var <u>y</u>)");
}

#[test]
fn abstr_apply() {
    let e = papply(pv("f"), pv("x"));
    assert_eq!(abstr(&e), "apply (var <u>f</u>) (var <u>x</u>)");
}

#[test]
fn abstr_const_with_args() {
    let e = pconst("C", vec![pv("x")]);
    assert_eq!(abstr(&e), "const <u>C</u> (cons (var <u>x</u>) nil)");
}

#[test]
fn abstr_rec() {
    let e = Expr::Rec(Variable("x".to_string()), Box::new(pv("x")));
    assert_eq!(abstr(&e), "rec <u>x</u> (var <u>x</u>)");
}

#[test]
fn abstr_case_with_branch() {
    let e = Expr::Case(
        Box::new(pv("x")),
        vec![Branch(
            Constructor("Foo".to_string()),
            vec![Variable("a".to_string())],
            pv("a"),
        )],
    );
    assert_eq!(
        abstr(&e),
        "case (var <u>x</u>) ((cons (branch <u>Foo</u> (cons (<u>a</u>) nil) (var <u>a</u>)) nil))"
    );
}

#[test]
fn concrete_nullary_constructor() {
    assert_eq!(concrete(&pconst("Zero", vec![])), "Zero()");
}

#[test]
fn concrete_nested_constructor() {
    let e = pconst("Suc", vec![pconst("Zero", vec![])]);
    assert_eq!(concrete(&e), "Suc(Zero())");
}

#[test]
fn concrete_constructor_args_comma_joined() {
    let e = pconst("Cons", vec![pconst("Zero", vec![]), pconst("Nil", vec![])]);
    assert_eq!(concrete(&e), "Cons(Zero(),Nil())");
}

#[test]
fn concrete_lambda() {
    assert_eq!(concrete(&plambda("x", pv("x"))), "\\x. x");
}

#[test]
fn concrete_application_parenthesizes_lambda() {
    let e = papply(plambda("x", pv("x")), pconst("Foo", vec![]));
    assert_eq!(concrete(&e), "(\\x. x) Foo()");
}

#[test]
fn concrete_application_groups_right_argument() {
    let e = papply(pv("f"), papply(pv("g"), pv("h")));
    assert_eq!(concrete(&e), "f (g h)");
}

#[test]
fn concrete_rec() {
    let e = Expr::Rec(Variable("x".to_string()), Box::new(pv("x")));
    assert_eq!(concrete(&e), "rec x = x");
}

#[test]
fn concrete_case_is_indented() {
    let e = Expr::Case(
        Box::new(pv("x")),
        vec![
            Branch(Constructor("Foo".to_string()), vec![], pv("y")),
            Branch(
                Constructor("Bar".to_string()),
                vec![Variable("a".to_string()), Variable("b".to_string())],
                pv("a"),
            ),
        ],
    );
    assert_eq!(
        concrete(&e),
        "case x of {\n  Foo() -> y;\n  Bar(a,b) -> a\n}"
    );
}

#[test]
fn printer_from_name_accepts_the_three_modes() {
    assert_eq!(Printer::from_name("concrete"), Some(Printer::Concrete));
    assert_eq!(Printer::from_name("abstract"), Some(Printer::Abstract));
    assert_eq!(Printer::from_name("debug"), Some(Printer::Debug));
}

#[test]
fn printer_from_name_rejects_anything_else() {
    assert_eq!(Printer::from_name(""), None);
    assert_eq!(Printer::from_name("Concrete"), None);
    assert_eq!(Printer::from_name("plain"), None);
}
