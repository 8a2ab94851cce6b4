//! Renderings of a finished value: the concrete syntax of the calculus and
//! an abstract-syntax form, as used in the course material.  Both walk a
//! fully reduced expression and build one string.
use vstd::prelude::*;
use vstd::slice::{slice_index_get, slice_subrange};
use vstd::string::StringExecFns;
use crate::term::{
    branch_view, branches_view, expr_view, exprs_view, vars_view, Branch, Expr, SpecBranch,
    SpecExpr, Variable,
};

verus! {

/// The abstract rendering of a list of already-rendered items: `nil` for
/// the empty list, else `(cons (head) tail)` cells.
pub open spec fn abstr_list_spec(xs: Seq<Seq<char>>) -> Seq<char>
    decreases xs,
{
    if xs.len() == 0 {
        "nil"@
    } else {
        "(cons ("@ + xs[0] + ") "@ + abstr_list_spec(xs.drop_first()) + ")"@
    }
}

/// The abstract rendering of an expression: every node is spelled out with
/// its kind, names are underlined, children are parenthesized.
pub open spec fn abstr_expr_spec(e: SpecExpr) -> Seq<char>
    decreases e,
{
    match e {
        SpecExpr::Apply(f, a) => "apply ("@ + abstr_expr_spec(*f) + ") ("@ + abstr_expr_spec(*a)
            + ")"@,
        SpecExpr::Lambda(x, b) => "lambda <u>"@ + x + "</u> ("@ + abstr_expr_spec(*b) + ")"@,
        SpecExpr::Case(s, bs) => "case ("@ + abstr_expr_spec(*s) + ") ("@ + abstr_list_spec(
            abstr_branches_spec(bs),
        ) + ")"@,
        SpecExpr::Rec(x, b) => "rec <u>"@ + x + "</u> ("@ + abstr_expr_spec(*b) + ")"@,
        SpecExpr::Var(x) => "var <u>"@ + x + "</u>"@,
        SpecExpr::Const(c, es) => "const <u>"@ + c + "</u> "@ + abstr_list_spec(
            abstr_args_spec(es),
        ),
    }
}

/// The abstract renderings of a list of expressions, in order.
pub open spec fn abstr_args_spec(es: Seq<SpecExpr>) -> Seq<Seq<char>>
    decreases es,
{
    if es.len() == 0 {
        Seq::empty()
    } else {
        seq![abstr_expr_spec(es[0])] + abstr_args_spec(es.drop_first())
    }
}

/// The abstract renderings of a list of branches, in order.
pub open spec fn abstr_branches_spec(bs: Seq<SpecBranch<SpecExpr>>) -> Seq<Seq<char>>
    decreases bs,
{
    if bs.len() == 0 {
        Seq::empty()
    } else {
        seq![abstr_branch_spec(bs[0])] + abstr_branches_spec(bs.drop_first())
    }
}

/// A name underlined for the abstract rendering.
pub open spec fn underline_spec(x: Seq<char>) -> Seq<char> {
    "<u>"@ + x + "</u>"@
}

/// The abstract rendering of one branch.
pub open spec fn abstr_branch_spec(b: SpecBranch<SpecExpr>) -> Seq<char>
    decreases b,
{
    "branch <u>"@ + b.ctor + "</u> "@ + abstr_list_spec(b.vars.map_values(|x: Seq<char>| underline_spec(x)))
        + " ("@ + abstr_expr_spec(b.body) + ")"@
}

/// Render a list of already-rendered items as `(cons (x) ...)` cells
/// ending in `nil`.
pub fn abstr_list(xs: &[String]) -> (r: String)
    ensures
        r@ == abstr_list_spec(xs@.map_values(|s: String| s@)),
    decreases xs@.len(),
{
    let ghost views = xs@.map_values(|s: String| s@);
    if xs.len() == 0 {
        let r = String::from_str("nil");
        proof {
            assert(views.len() == 0);
        }
        r
    } else {
        let rest = abstr_list(slice_subrange(xs, 1, xs.len()));
        let mut s = String::from_str("(cons (");
        s.append(slice_index_get(xs, 0).as_str());
        s.append(") ");
        s.append(rest.as_str());
        s.append(")");
        proof {
            assert(views[0] == xs@[0]@);
            assert(views.drop_first() =~= xs@.subrange(1, xs@.len() as int).map_values(
                |s: String| s@,
            ));
        }
        s
    }
}

/// Render a finished value in the abstract syntax.
pub fn abstr(expr: &Expr) -> (r: String)
    ensures
        r@ == abstr_expr_spec(expr@),
{
    abstr_expr(expr)
}

/// The abstract rendering of one expression.
fn abstr_expr(expr: &Expr) -> (r: String)
    ensures
        r@ == abstr_expr_spec(expr@),
    decreases expr,
{
    match expr {
        Expr::Apply(e1, e2) => {
            let mut s = String::from_str("apply (");
            let r1 = abstr_expr(e1);
            s.append(r1.as_str());
            s.append(") (");
            let r2 = abstr_expr(e2);
            s.append(r2.as_str());
            s.append(")");
            s
        }
        Expr::Lambda(x, e) => {
            let mut s = String::from_str("lambda <u>");
            s.append(x.0.as_str());
            s.append("</u> (");
            let r1 = abstr_expr(e);
            s.append(r1.as_str());
            s.append(")");
            s
        }
        Expr::Case(e, branches) => {
            let mut s = String::from_str("case (");
            let r1 = abstr_expr(e);
            s.append(r1.as_str());
            s.append(") (");
            let rendered = abstr_branch_list(branches);
            let lst = abstr_list(rendered.as_slice());
            s.append(lst.as_str());
            s.append(")");
            s
        }
        Expr::Rec(x, e) => {
            let mut s = String::from_str("rec <u>");
            s.append(x.0.as_str());
            s.append("</u> (");
            let r1 = abstr_expr(e);
            s.append(r1.as_str());
            s.append(")");
            s
        }
        Expr::Var(x) => {
            let mut s = String::from_str("var <u>");
            s.append(x.0.as_str());
            s.append("</u>");
            s
        }
        Expr::Const(c, es) => {
            let mut s = String::from_str("const <u>");
            s.append(c.0.as_str());
            s.append("</u> ");
            let rendered = abstr_args_list(es);
            let lst = abstr_list(rendered.as_slice());
            s.append(lst.as_str());
            s
        }
    }
}

/// The abstract renderings of a list of expressions.
fn abstr_args_list(es: &Vec<Expr>) -> (r: Vec<String>)
    ensures
        r@.map_values(|s: String| s@) == abstr_args_spec(exprs_view(es@)),
    decreases es@,
{
    let mut out: Vec<String> = Vec::new();
    let mut i: usize = 0;
    proof {
        crate::term::lemma_exprs_view_index(es@);
    }
    while i < es.len()
        invariant
            i <= es@.len(),
            out@.len() == i,
            exprs_view(es@).len() == es@.len(),
            forall|j: int| 0 <= j < es@.len() ==> exprs_view(es@)[j] == expr_view(
                #[trigger] es@[j],
            ),
            forall|j: int| 0 <= j < i ==> out@[j]@ == abstr_expr_spec(exprs_view(es@)[j]),
        decreases es@.len() - i,
    {
        let r = abstr_expr(slice_index_get(es.as_slice(), i));
        out.push(r);
        i = i + 1;
    }
    proof {
        lemma_abstr_args_pointwise(exprs_view(es@), out@.map_values(|s: String| s@));
    }
    out
}

/// The abstract renderings of a list of branches.
fn abstr_branch_list(bs: &Vec<Branch<Expr>>) -> (r: Vec<String>)
    ensures
        r@.map_values(|s: String| s@) == abstr_branches_spec(branches_view(bs@)),
    decreases bs@,
{
    let mut out: Vec<String> = Vec::new();
    let mut i: usize = 0;
    proof {
        crate::term::lemma_branches_view_index(bs@);
    }
    while i < bs.len()
        invariant
            i <= bs@.len(),
            out@.len() == i,
            branches_view(bs@).len() == bs@.len(),
            forall|j: int| 0 <= j < bs@.len() ==> branches_view(bs@)[j] == branch_view(
                #[trigger] bs@[j],
            ),
            forall|j: int| 0 <= j < i ==> out@[j]@ == abstr_branch_spec(branches_view(bs@)[j]),
        decreases bs@.len() - i,
    {
        let r = abstr_branch(slice_index_get(bs.as_slice(), i));
        out.push(r);
        i = i + 1;
    }
    proof {
        lemma_abstr_branches_pointwise(branches_view(bs@), out@.map_values(|s: String| s@));
    }
    out
}

/// The abstract rendering of one branch.
fn abstr_branch(b: &Branch<Expr>) -> (r: String)
    ensures
        r@ == abstr_branch_spec(branch_view(*b)),
    decreases b,
{
    let Branch(c, vars, e) = b;
    let mut s = String::from_str("branch <u>");
    s.append(c.0.as_str());
    s.append("</u> ");
    let decorated = underline_vars(vars);
    let lst = abstr_list(decorated.as_slice());
    s.append(lst.as_str());
    s.append(" (");
    let r1 = abstr_expr(e);
    s.append(r1.as_str());
    s.append(")");
    s
}

/// Each variable name underlined, in order.
fn underline_vars(vars: &Vec<Variable>) -> (r: Vec<String>)
    ensures
        r@.map_values(|s: String| s@) =~= vars_view(vars@).map_values(
            |x: Seq<char>| underline_spec(x),
        ),
{
    let mut out: Vec<String> = Vec::new();
    let mut i: usize = 0;
    while i < vars.len()
        invariant
            i <= vars@.len(),
            out@.len() == i,
            forall|j: int| 0 <= j < i ==> out@[j]@ == underline_spec(#[trigger] vars@[j]@),
        decreases vars@.len() - i,
    {
        let mut s = String::from_str("<u>");
        s.append(slice_index_get(vars.as_slice(), i).0.as_str());
        s.append("</u>");
        out.push(s);
        i = i + 1;
    }
    out
}

/// Two pointwise-equal rendering lists give the same `abstr_args_spec`
/// sequence.
proof fn lemma_abstr_args_pointwise(es: Seq<SpecExpr>, rs: Seq<Seq<char>>)
    requires
        rs.len() == es.len(),
        forall|j: int| 0 <= j < es.len() ==> rs[j] == abstr_expr_spec(#[trigger] es[j]),
    ensures
        rs == abstr_args_spec(es),
    decreases es,
{
    if es.len() == 0 {
        assert(rs =~= abstr_args_spec(es));
    } else {
        lemma_abstr_args_pointwise(es.drop_first(), rs.drop_first());
        assert(rs =~= seq![abstr_expr_spec(es[0])] + abstr_args_spec(es.drop_first()));
    }
}

/// Two pointwise-equal rendering lists give the same `abstr_branches_spec`
/// sequence.
proof fn lemma_abstr_branches_pointwise(bs: Seq<SpecBranch<SpecExpr>>, rs: Seq<Seq<char>>)
    requires
        rs.len() == bs.len(),
        forall|j: int| 0 <= j < bs.len() ==> rs[j] == abstr_branch_spec(#[trigger] bs[j]),
    ensures
        rs == abstr_branches_spec(bs),
    decreases bs,
{
    if bs.len() == 0 {
        assert(rs =~= abstr_branches_spec(bs));
    } else {
        lemma_abstr_branches_pointwise(bs.drop_first(), rs.drop_first());
        assert(rs =~= seq![abstr_branch_spec(bs[0])] + abstr_branches_spec(bs.drop_first()));
    }
}

/// The precedence of a node in the concrete syntax: binders bind loosest,
/// application sits in the middle, atoms bind tightest.
pub open spec fn prec_spec(e: SpecExpr) -> int {
    match e {
        SpecExpr::Apply(..) => 1,
        SpecExpr::Lambda(..) => 0,
        SpecExpr::Case(..) => 1,
        SpecExpr::Rec(..) => 0,
        SpecExpr::Var(..) => 2,
        SpecExpr::Const(..) => 2,
    }
}

/// The concrete rendering of an expression under an indentation prefix,
/// parenthesized whenever its own precedence is below the context's.
pub open spec fn concrete_expr_spec(e: SpecExpr, ind: Seq<char>, lvl: int) -> Seq<char>
    decreases e,
{
    let body = match e {
        SpecExpr::Apply(f, a) => concrete_expr_spec(*f, ind, 1) + " "@ + concrete_expr_spec(
            *a,
            ind,
            2,
        ),
        SpecExpr::Lambda(x, b) => "\\"@ + x + ". "@ + concrete_expr_spec(*b, ind, 0),
        SpecExpr::Case(s, bs) => "case "@ + concrete_expr_spec(*s, ind, 0) + " of {\n"@
            + concrete_branches_spec(bs, ind + "  "@) + "\n"@ + ind + "}"@,
        SpecExpr::Rec(x, b) => "rec "@ + x + " = "@ + concrete_expr_spec(*b, ind, 0),
        SpecExpr::Var(x) => x,
        SpecExpr::Const(c, es) => c + "("@ + concrete_args_spec(es, ind) + ")"@,
    };
    if prec_spec(e) < lvl {
        "("@ + body + ")"@
    } else {
        body
    }
}

/// Constructor arguments rendered in order, separated by commas.
pub open spec fn concrete_args_spec(es: Seq<SpecExpr>, ind: Seq<char>) -> Seq<char>
    decreases es,
{
    if es.len() == 0 {
        Seq::empty()
    } else if es.len() == 1 {
        concrete_expr_spec(es[0], ind, 0)
    } else {
        concrete_expr_spec(es[0], ind, 0) + ","@ + concrete_args_spec(es.drop_first(), ind)
    }
}

/// Branches rendered in order, one per line, separated by semicolons.
pub open spec fn concrete_branches_spec(bs: Seq<SpecBranch<SpecExpr>>, ind: Seq<char>) -> Seq<char>
    decreases bs,
{
    if bs.len() == 0 {
        Seq::empty()
    } else if bs.len() == 1 {
        concrete_branch_spec(bs[0], ind)
    } else {
        concrete_branch_spec(bs[0], ind) + ";\n"@ + concrete_branches_spec(bs.drop_first(), ind)
    }
}

/// One branch line: indentation, constructor, bound variables, arrow, body.
pub open spec fn concrete_branch_spec(b: SpecBranch<SpecExpr>, ind: Seq<char>) -> Seq<char>
    decreases b,
{
    ind + b.ctor + "("@ + concrete_names_spec(b.vars) + ") -> "@ + concrete_expr_spec(
        b.body,
        ind,
        0,
    )
}

/// Variable names in order, separated by commas.
pub open spec fn concrete_names_spec(names: Seq<Seq<char>>) -> Seq<char>
    decreases names,
{
    if names.len() == 0 {
        Seq::empty()
    } else if names.len() == 1 {
        names[0]
    } else {
        names[0] + ","@ + concrete_names_spec(names.drop_first())
    }
}

/// Render a finished value in the concrete syntax of the calculus.
pub fn concrete(expr: &Expr) -> (r: String)
    ensures
        r@ == concrete_expr_spec(expr@, Seq::<char>::empty(), 0),
{
    let ind = String::new();
    concrete_expr(expr, &ind, 0)
}

/// The precedence of a node.
fn precedence(expr: &Expr) -> (r: u8)
    ensures
        r as int == prec_spec(expr@),
{
    match expr {
        Expr::Apply(..) => 1,
        Expr::Lambda(..) => 0,
        Expr::Case(..) => 1,
        Expr::Rec(..) => 0,
        Expr::Var(..) => 2,
        Expr::Const(..) => 2,
    }
}

/// The concrete rendering of one expression under an indentation prefix.
fn concrete_expr(expr: &Expr, ind: &String, lvl: u8) -> (r: String)
    ensures
        r@ == concrete_expr_spec(expr@, ind@, lvl as int),
    decreases expr,
{
    let p = precedence(expr);
    let body: String = match expr {
        Expr::Apply(e1, e2) => {
            let mut s = concrete_expr(e1, ind, 1);
            s.append(" ");
            let r2 = concrete_expr(e2, ind, 2);
            s.append(r2.as_str());
            s
        }
        Expr::Lambda(x, e) => {
            let mut s = String::from_str("\\");
            s.append(x.0.as_str());
            s.append(". ");
            let r1 = concrete_expr(e, ind, 0);
            s.append(r1.as_str());
            s
        }
        Expr::Case(e, branches) => {
            let mut s = String::from_str("case ");
            let r1 = concrete_expr(e, ind, 0);
            s.append(r1.as_str());
            s.append(" of {\n");
            let mut deeper = ind.clone();
            deeper.append("  ");
            let rb = concrete_branches(branches.as_slice(), &deeper);
            s.append(rb.as_str());
            s.append("\n");
            s.append(ind.as_str());
            s.append("}");
            s
        }
        Expr::Rec(x, e) => {
            let mut s = String::from_str("rec ");
            s.append(x.0.as_str());
            s.append(" = ");
            let r1 = concrete_expr(e, ind, 0);
            s.append(r1.as_str());
            s
        }
        Expr::Var(x) => x.0.clone(),
        Expr::Const(c, es) => {
            let mut s = c.0.clone();
            s.append("(");
            let ra = concrete_args(es.as_slice(), ind);
            s.append(ra.as_str());
            s.append(")");
            s
        }
    };
    if p < lvl {
        let mut s = String::from_str("(");
        s.append(body.as_str());
        s.append(")");
        s
    } else {
        body
    }
}

/// Constructor arguments rendered and comma-joined.
fn concrete_args(es: &[Expr], ind: &String) -> (r: String)
    ensures
        r@ == concrete_args_spec(exprs_view(es@), ind@),
    decreases es@,
{
    proof {
        crate::term::lemma_exprs_view_index(es@);
    }
    if es.len() == 0 {
        String::new()
    } else if es.len() == 1 {
        concrete_expr(slice_index_get(es, 0), ind, 0)
    } else {
        let mut s = concrete_expr(slice_index_get(es, 0), ind, 0);
        s.append(",");
        let rest = concrete_args(slice_subrange(es, 1, es.len()), ind);
        s.append(rest.as_str());
        proof {
            assert(exprs_view(es@).drop_first() =~= exprs_view(es@.drop_first()));
            assert(es@.subrange(1, es@.len() as int) =~= es@.drop_first());
        }
        s
    }
}

/// Branches rendered and semicolon-joined.
fn concrete_branches(bs: &[Branch<Expr>], ind: &String) -> (r: String)
    ensures
        r@ == concrete_branches_spec(branches_view(bs@), ind@),
    decreases bs@,
{
    proof {
        crate::term::lemma_branches_view_index(bs@);
    }
    if bs.len() == 0 {
        String::new()
    } else if bs.len() == 1 {
        concrete_branch(slice_index_get(bs, 0), ind)
    } else {
        let mut s = concrete_branch(slice_index_get(bs, 0), ind);
        s.append(";\n");
        let rest = concrete_branches(slice_subrange(bs, 1, bs.len()), ind);
        s.append(rest.as_str());
        proof {
            assert(branches_view(bs@).drop_first() =~= branches_view(bs@.drop_first()));
            assert(bs@.subrange(1, bs@.len() as int) =~= bs@.drop_first());
        }
        s
    }
}

/// One branch line.
fn concrete_branch(b: &Branch<Expr>, ind: &String) -> (r: String)
    ensures
        r@ == concrete_branch_spec(branch_view(*b), ind@),
    decreases b,
{
    let Branch(c, vars, e) = b;
    let mut s = ind.clone();
    s.append(c.0.as_str());
    s.append("(");
    let names = concrete_names(vars.as_slice());
    s.append(names.as_str());
    s.append(") -> ");
    let r1 = concrete_expr(e, ind, 0);
    s.append(r1.as_str());
    s
}

/// Variable names comma-joined.
fn concrete_names(names: &[Variable]) -> (r: String)
    ensures
        r@ == concrete_names_spec(vars_view(names@)),
    decreases names@,
{
    if names.len() == 0 {
        String::new()
    } else if names.len() == 1 {
        slice_index_get(names, 0).0.clone()
    } else {
        let mut s = slice_index_get(names, 0).0.clone();
        s.append(",");
        let rest = concrete_names(slice_subrange(names, 1, names.len()));
        s.append(rest.as_str());
        proof {
            assert(vars_view(names@).drop_first() =~= vars_view(
                names@.subrange(1, names@.len() as int),
            ));
        }
        s
    }
}

} // verus!
