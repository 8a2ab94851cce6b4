//! Capture-sensitive substitution and depth-bounded reduction of Chi
//! expressions to normal form.
//!
//! Substitution is shadow-aware but performs no alpha-renaming: descending
//! past a binder that reuses a name in the replacement captures that name.
//! This mirrors the reference calculus and is deliberate.
use vstd::prelude::*;
use crate::error::{Error, ErrorKind, SpecError};
use crate::term::{
    branch_view, branches_view, expr_view, exprs_view, vars_view, Branch, Constructor, Expr,
    Program, SpecBranch, SpecExpr, SpecProgram, Variable,
};

verus! {

/// What `substitute` returns: replace free occurrences of `v` by `r` in `e`,
/// stopping at any binder that re-binds `v`.
pub open spec fn subst(v: Seq<char>, r: SpecExpr, e: SpecExpr) -> SpecExpr
    decreases e,
{
    match e {
        SpecExpr::Apply(f, a) => SpecExpr::Apply(
            Box::new(subst(v, r, *f)),
            Box::new(subst(v, r, *a)),
        ),
        SpecExpr::Lambda(x, b) => if x == v {
            SpecExpr::Lambda(x, b)
        } else {
            SpecExpr::Lambda(x, Box::new(subst(v, r, *b)))
        },
        SpecExpr::Case(s, bs) => SpecExpr::Case(
            Box::new(subst(v, r, *s)),
            subst_branches(v, r, bs),
        ),
        SpecExpr::Rec(x, b) => if x == v {
            SpecExpr::Rec(x, b)
        } else {
            SpecExpr::Rec(x, Box::new(subst(v, r, *b)))
        },
        SpecExpr::Var(x) => if x == v {
            r
        } else {
            SpecExpr::Var(x)
        },
        SpecExpr::Const(c, es) => SpecExpr::Const(c, subst_all(v, r, es)),
    }
}

/// Substitution applied to every expression of a list independently.
pub open spec fn subst_all(v: Seq<char>, r: SpecExpr, es: Seq<SpecExpr>) -> Seq<SpecExpr>
    decreases es,
{
    if es.len() == 0 {
        Seq::empty()
    } else {
        seq![subst(v, r, es[0])] + subst_all(v, r, es.drop_first())
    }
}

/// Substitution applied to every branch of a list independently.
pub open spec fn subst_branches(
    v: Seq<char>,
    r: SpecExpr,
    bs: Seq<SpecBranch<SpecExpr>>,
) -> Seq<SpecBranch<SpecExpr>>
    decreases bs,
{
    if bs.len() == 0 {
        Seq::empty()
    } else {
        seq![subst_branch(v, r, bs[0])] + subst_branches(v, r, bs.drop_first())
    }
}

/// Substitution into one branch: a branch whose pattern binds `v` shadows it
/// and is left untouched.
pub open spec fn subst_branch(
    v: Seq<char>,
    r: SpecExpr,
    b: SpecBranch<SpecExpr>,
) -> SpecBranch<SpecExpr>
    decreases b,
{
    if b.vars.contains(v) {
        b
    } else {
        SpecBranch { ctor: b.ctor, vars: b.vars, body: subst(v, r, b.body) }
    }
}

/// Whether a variable list contains the given name.
fn contains_var(xs: &Vec<Variable>, v: &Variable) -> (r: bool)
    ensures
        r == vars_view(xs@).contains(v@),
{
    let mut i: usize = 0;
    while i < xs.len()
        invariant
            i <= xs@.len(),
            forall|j: int| 0 <= j < i ==> vars_view(xs@)[j] != v@,
        decreases xs@.len() - i,
    {
        if xs[i] == *v {
            proof {
                assert(vars_view(xs@)[i as int] == v@);
            }
            return true;
        }
        i = i + 1;
    }
    proof {
        assert(forall|j: int| 0 <= j < xs@.len() ==> vars_view(xs@)[j] != v@);
    }
    false
}

/// Replace free occurrences of `var` by `replacement` in `expr`, returning a
/// fresh tree.  Binders that re-bind the same name shadow it and stop the
/// recursion; no renaming is ever performed, so free names of `replacement`
/// can be captured by inner binders of `expr`.
pub fn substitute(var: &Variable, replacement: &Expr, expr: Expr) -> (r: Expr)
    ensures
        r@ == subst(var@, replacement@, expr@),
    decreases expr,
{
    match expr {
        Expr::Apply(e1, e2) => Expr::Apply(
            Box::new(substitute(var, replacement, *e1)),
            Box::new(substitute(var, replacement, *e2)),
        ),
        Expr::Lambda(x, e) => {
            if x == *var {
                // The name `var` is bound here, so substitution stops.
                Expr::Lambda(x, e)
            } else {
                Expr::Lambda(x, Box::new(substitute(var, replacement, *e)))
            }
        }
        Expr::Case(e, branches) => Expr::Case(
            Box::new(substitute(var, replacement, *e)),
            substitute_branches(var, replacement, branches),
        ),
        Expr::Rec(x, e) => {
            if x == *var {
                // The name `var` is bound here, so substitution stops.
                Expr::Rec(x, e)
            } else {
                Expr::Rec(x, Box::new(substitute(var, replacement, *e)))
            }
        }
        Expr::Var(x) => {
            if x == *var {
                replacement.clone()
            } else {
                Expr::Var(x)
            }
        }
        Expr::Const(c, es) => Expr::Const(c, substitute_all(var, replacement, es)),
    }
}

/// `substitute` applied to every expression of a list.
fn substitute_all(var: &Variable, replacement: &Expr, es: Vec<Expr>) -> (r: Vec<Expr>)
    ensures
        exprs_view(r@) == subst_all(var@, replacement@, exprs_view(es@)),
    decreases es@,
{
    let mut rest = es;
    if rest.len() == 0 {
        rest
    } else {
        let ghost all = rest@;
        let e = rest.remove(0);
        proof {
            assert(rest@ == all.drop_first());
        }
        let first = substitute(var, replacement, e);
        let mut tail = substitute_all(var, replacement, rest);
        let ghost tailv = tail@;
        let mut out: Vec<Expr> = Vec::new();
        out.push(first);
        out.append(&mut tail);
        proof {
            assert(out@[0] == first);
            assert(out@.drop_first() =~= tailv);
            let s = exprs_view(all);
            assert(s[0] == expr_view(e));
            assert(s.drop_first() =~= exprs_view(all.drop_first()));
        }
        out
    }
}

/// `substitute` applied to every branch of a list.
fn substitute_branches(
    var: &Variable,
    replacement: &Expr,
    bs: Vec<Branch<Expr>>,
) -> (r: Vec<Branch<Expr>>)
    ensures
        branches_view(r@) == subst_branches(var@, replacement@, branches_view(bs@)),
    decreases bs@,
{
    let mut rest = bs;
    if rest.len() == 0 {
        rest
    } else {
        let ghost all = rest@;
        let b = rest.remove(0);
        proof {
            assert(rest@ == all.drop_first());
        }
        let first = substitute_branch(var, replacement, b);
        let mut tail = substitute_branches(var, replacement, rest);
        let ghost tailv = tail@;
        let mut out: Vec<Branch<Expr>> = Vec::new();
        out.push(first);
        out.append(&mut tail);
        proof {
            assert(out@[0] == first);
            assert(out@.drop_first() =~= tailv);
            let s = branches_view(all);
            assert(s[0] == branch_view(b));
            assert(s.drop_first() =~= branches_view(all.drop_first()));
        }
        out
    }
}

/// `substitute` into one branch, unless its pattern re-binds the name.
fn substitute_branch(var: &Variable, replacement: &Expr, b: Branch<Expr>) -> (r: Branch<Expr>)
    ensures
        branch_view(r) == subst_branch(var@, replacement@, branch_view(b)),
    decreases b,
{
    let Branch(c, xs, e) = b;
    if contains_var(&xs, var) {
        Branch(c, xs, e)
    } else {
        Branch(c, xs, substitute(var, replacement, e))
    }
}

/// The default step budget of `eval`.
pub const MAX_DEPTH: u32 = 250;

/// The first branch whose constructor equals `name`, if any.
pub open spec fn lookup_branch(
    name: Seq<char>,
    bs: Seq<SpecBranch<SpecExpr>>,
) -> Option<SpecBranch<SpecExpr>>
    decreases bs,
{
    if bs.len() == 0 {
        None
    } else if bs[0].ctor == name {
        Some(bs[0])
    } else {
        lookup_branch(name, bs.drop_first())
    }
}

/// The substitution a matched branch performs: variable/argument pairs are
/// processed from last to first, each applied to the progressively built
/// body.  When the pattern repeats a name, the right-most occurrence wins:
/// its substitution runs first, and later substitutions of the same name
/// find nothing left to replace.
pub open spec fn subst_pairs(vars: Seq<Seq<char>>, vals: Seq<SpecExpr>, body: SpecExpr) -> SpecExpr
    decreases vars,
{
    if vars.len() == 0 || vals.len() == 0 {
        body
    } else {
        subst(vars[0], vals[0], subst_pairs(vars.drop_first(), vals.drop_first(), body))
    }
}

/// One reduction run with the given fuel.  Each recursive evaluation step
/// consumes one unit; running out yields `DepthExceeded`.  The rules:
/// the function position of an application must reduce to a lambda and the
/// argument is evaluated before being substituted into its body; a `case`
/// scrutinee must reduce to a constructor value, whose first matching branch
/// of equal arity receives the arguments; a `rec` unfolds one copy of
/// itself; a free variable is an error; constructor arguments are evaluated
/// eagerly.
pub open spec fn eval_spec(e: SpecExpr, fuel: nat) -> Result<SpecExpr, SpecError>
    decreases fuel, 0int,
{
    if fuel == 0 {
        Err(SpecError::DepthExceeded)
    } else {
        let sub = (fuel - 1) as nat;
        match e {
            SpecExpr::Apply(f, a) => match eval_spec(*f, sub) {
                Err(err) => Err(err),
                Ok(fv) => match fv {
                    SpecExpr::Lambda(x, body) => match eval_spec(*a, sub) {
                        Err(err) => Err(err),
                        Ok(av) => eval_spec(subst(x, av, *body), sub),
                    },
                    _ => Err(SpecError::NotAFunction),
                },
            },
            SpecExpr::Lambda(x, b) => Ok(SpecExpr::Lambda(x, b)),
            SpecExpr::Case(s, bs) => match eval_spec(*s, sub) {
                Err(err) => Err(err),
                Ok(sv) => match sv {
                    SpecExpr::Const(name, args) => match lookup_branch(name, bs) {
                        None => Err(SpecError::NoMatchingBranch),
                        Some(b) => if b.vars.len() != args.len() {
                            Err(SpecError::ArityMismatch)
                        } else {
                            eval_spec(subst_pairs(b.vars, args, b.body), sub)
                        },
                    },
                    _ => Err(SpecError::NotAConstructor),
                },
            },
            SpecExpr::Rec(x, b) => eval_spec(subst(x, SpecExpr::Rec(x, b), *b), sub),
            SpecExpr::Var(x) => Err(SpecError::UnboundVariable(x)),
            SpecExpr::Const(c, es) => match eval_args(es, sub) {
                Err(err) => Err(err),
                Ok(vs) => Ok(SpecExpr::Const(c, vs)),
            },
        }
    }
}

/// Constructor arguments evaluated left to right, stopping at the first
/// error.
pub open spec fn eval_args(es: Seq<SpecExpr>, fuel: nat) -> Result<Seq<SpecExpr>, SpecError>
    decreases fuel, es.len() + 1,
{
    if es.len() == 0 {
        Ok(Seq::empty())
    } else {
        match eval_spec(es[0], fuel) {
            Err(err) => Err(err),
            Ok(v) => match eval_args(es.drop_first(), fuel) {
                Err(err) => Err(err),
                Ok(vs) => Ok(seq![v] + vs),
            },
        }
    }
}

/// An expression and its model have the same outermost constructor kind.
pub proof fn lemma_view_shape(e: Expr)
    ensures
        (e is Lambda) <==> (expr_view(e) is Lambda),
        (e is Const) <==> (expr_view(e) is Const),
{
    match e {
        Expr::Apply(..) => {},
        Expr::Lambda(..) => {},
        Expr::Case(..) => {},
        Expr::Rec(..) => {},
        Expr::Var(..) => {},
        Expr::Const(..) => {},
    }
}

/// The model of a `Result` of evaluation.
pub open spec fn result_view(r: Result<Expr, Error>) -> Result<SpecExpr, SpecError> {
    match r {
        Ok(e) => Ok(e@),
        Err(err) => Err(err@),
    }
}

/// The index of the first branch whose constructor equals `name`.
fn lookup(name: &Constructor, branches: &Vec<Branch<Expr>>) -> (r: Option<usize>)
    ensures
        match r {
            Some(i) => i < branches@.len() && lookup_branch(name@, branches_view(branches@))
                == Some(branch_view(branches@[i as int])),
            None => lookup_branch(name@, branches_view(branches@))
                == None::<SpecBranch<SpecExpr>>,
        },
{
    let ghost bsv = branches_view(branches@);
    proof {
        crate::term::lemma_branches_view_index(branches@);
        assert(bsv.skip(0) =~= bsv);
    }
    let mut i: usize = 0;
    while i < branches.len()
        invariant
            i <= branches@.len(),
            bsv == branches_view(branches@),
            bsv.len() == branches@.len(),
            forall|j: int| 0 <= j < branches@.len()
                ==> bsv[j] == branch_view(#[trigger] branches@[j]),
            lookup_branch(name@, bsv) == lookup_branch(name@, bsv.skip(i as int)),
        decreases branches@.len() - i,
    {
        let Branch(c, _, _) = &branches[i];
        proof {
            assert(bsv.skip(i as int)[0] == bsv[i as int]);
        }
        if *c == *name {
            return Some(i);
        }
        proof {
            assert(bsv.skip(i as int).drop_first() =~= bsv.skip(i as int + 1));
        }
        i = i + 1;
    }
    proof {
        assert(bsv.skip(branches@.len() as int) =~= Seq::<SpecBranch<SpecExpr>>::empty());
    }
    None
}

/// The branch substitution of `subst_pairs`, executed: pairs are processed
/// from last to first by recursing before substituting.
fn substitute_case_args(xs: Vec<Variable>, args: Vec<Expr>, body: Expr) -> (r: Expr)
    ensures
        r@ == subst_pairs(vars_view(xs@), exprs_view(args@), body@),
    decreases xs@,
{
    let mut xs = xs;
    let mut args = args;
    if xs.len() == 0 || args.len() == 0 {
        body
    } else {
        let ghost xsv = xs@;
        let ghost argsv = args@;
        let x = xs.remove(0);
        let a = args.remove(0);
        let inner = substitute_case_args(xs, args, body);
        proof {
            assert(vars_view(xsv)[0] == x@);
            assert(vars_view(xsv).drop_first() =~= vars_view(xsv.drop_first()));
            assert(exprs_view(argsv)[0] == expr_view(a));
            assert(exprs_view(argsv).drop_first() =~= exprs_view(argsv.drop_first()));
        }
        substitute(&x, &a, inner)
    }
}

/// One evaluation step chain with the given remaining fuel.
fn eval_expr(expr: Expr, fuel: u32) -> (r: Result<Expr, Error>)
    ensures
        result_view(r) == eval_spec(expr@, fuel as nat),
    decreases fuel, 0int,
{
    if fuel == 0 {
        return Err(Error { kind: ErrorKind::DepthExceeded });
    }
    let sub = fuel - 1;
    match expr {
        Expr::Apply(e1, e2) => {
            let fv = match eval_expr(*e1, sub) {
                Ok(v) => v,
                Err(err) => {
                    return Err(err);
                }
            };
            match fv {
                Expr::Lambda(x, body) => {
                    let av = match eval_expr(*e2, sub) {
                        Ok(v) => v,
                        Err(err) => {
                            return Err(err);
                        }
                    };
                    eval_expr(substitute(&x, &av, *body), sub)
                }
                _ => {
                    proof {
                        lemma_view_shape(fv);
                    }
                    Err(Error { kind: ErrorKind::NotAFunction })
                }
            }
        }
        Expr::Lambda(x, e) => Ok(Expr::Lambda(x, e)),
        Expr::Case(e, branches) => {
            let sv = match eval_expr(*e, sub) {
                Ok(v) => v,
                Err(err) => {
                    return Err(err);
                }
            };
            match sv {
                Expr::Const(name, args) => {
                    match lookup(&name, &branches) {
                        None => Err(Error { kind: ErrorKind::NoMatchingBranch }),
                        Some(idx) => {
                            let mut branches = branches;
                            let Branch(_, xs, body) = branches.remove(idx);
                            proof {
                                crate::term::lemma_exprs_view_index(args@);
                            }
                            if xs.len() != args.len() {
                                Err(Error { kind: ErrorKind::ArityMismatch })
                            } else {
                                eval_expr(substitute_case_args(xs, args, body), sub)
                            }
                        }
                    }
                }
                _ => {
                    proof {
                        lemma_view_shape(sv);
                    }
                    Err(Error { kind: ErrorKind::NotAConstructor })
                }
            }
        }
        Expr::Rec(x, e) => {
            let var = x.clone();
            let body = (*e).clone();
            let rec = Expr::Rec(x, e);
            eval_expr(substitute(&var, &rec, body), sub)
        }
        Expr::Var(x) => Err(Error { kind: ErrorKind::UnboundVariable(x) }),
        Expr::Const(c, es) => {
            match eval_args_exec(es, sub) {
                Ok(vs) => Ok(Expr::Const(c, vs)),
                Err(err) => Err(err),
            }
        }
    }
}

/// Constructor arguments evaluated left to right, executed.
fn eval_args_exec(es: Vec<Expr>, fuel: u32) -> (r: Result<Vec<Expr>, Error>)
    ensures
        match r {
            Ok(vs) => eval_args(exprs_view(es@), fuel as nat) == Ok::<_, SpecError>(
                exprs_view(vs@),
            ),
            Err(err) => eval_args(exprs_view(es@), fuel as nat) == Err::<Seq<SpecExpr>, _>(err@),
        },
    decreases fuel, es@.len() + 1,
{
    let mut rest = es;
    if rest.len() == 0 {
        Ok(rest)
    } else {
        let ghost all = rest@;
        let e = rest.remove(0);
        proof {
            assert(rest@ == all.drop_first());
            assert(exprs_view(all)[0] == expr_view(e));
            assert(exprs_view(all).drop_first() =~= exprs_view(all.drop_first()));
        }
        let first = match eval_expr(e, fuel) {
            Ok(v) => v,
            Err(err) => {
                return Err(err);
            }
        };
        let mut tail = match eval_args_exec(rest, fuel) {
            Ok(vs) => vs,
            Err(err) => {
                return Err(err);
            }
        };
        let ghost tailv = tail@;
        let mut out: Vec<Expr> = Vec::new();
        out.push(first);
        out.append(&mut tail);
        proof {
            assert(out@[0] == first);
            assert(out@.drop_first() =~= tailv);
        }
        Ok(out)
    }
}

/// How many `let` bindings a program chain holds.
pub open spec fn lets_count(p: SpecProgram<SpecExpr>) -> nat
    decreases p,
{
    match p {
        SpecProgram::Let(_, _, rest) => 1 + lets_count(*rest),
        SpecProgram::Expr(_) => 0,
    }
}

/// Substitution through a whole program chain.
pub open spec fn subst_program(
    v: Seq<char>,
    r: SpecExpr,
    p: SpecProgram<SpecExpr>,
) -> SpecProgram<SpecExpr>
    decreases p,
{
    match p {
        SpecProgram::Let(x, rhs, rest) => SpecProgram::Let(
            x,
            subst(v, r, rhs),
            Box::new(subst_program(v, r, *rest)),
        ),
        SpecProgram::Expr(e) => SpecProgram::Expr(subst(v, r, e)),
    }
}

/// Substituting through a program keeps its number of bindings.
pub proof fn lemma_subst_program_lets(v: Seq<char>, r: SpecExpr, p: SpecProgram<SpecExpr>)
    ensures
        lets_count(subst_program(v, r, p)) == lets_count(p),
    decreases p,
{
    match p {
        SpecProgram::Let(x, rhs, rest) => {
            lemma_subst_program_lets(v, r, *rest);
        }
        SpecProgram::Expr(_) => {}
    }
}

#[via_fn]
proof fn desugar_decreases(p: SpecProgram<SpecExpr>) {
    match p {
        SpecProgram::Let(x, rhs, rest) => {
            lemma_subst_program_lets(x, rhs, *rest);
        }
        SpecProgram::Expr(_) => {}
    }
}

/// What desugaring a `let` chain yields: each binding is inlined textually
/// into the remainder of the program, outermost first.
pub open spec fn desugar(p: SpecProgram<SpecExpr>) -> SpecExpr
    decreases lets_count(p),
        via desugar_decreases
{
    match p {
        SpecProgram::Let(x, rhs, rest) => desugar(subst_program(x, rhs, *rest)),
        SpecProgram::Expr(e) => e,
    }
}

/// Substitution through a whole program chain, executed.
fn substitute_program(var: &Variable, replacement: &Expr, program: Program<Expr>) -> (r: Program<
    Expr,
>)
    ensures
        r@ == subst_program(var@, replacement@, program@),
    decreases program,
{
    match program {
        Program::Let(x, rhs, rest) => Program::Let(
            x,
            substitute(var, replacement, rhs),
            Box::new(substitute_program(var, replacement, *rest)),
        ),
        Program::Expr(e) => Program::Expr(substitute(var, replacement, e)),
    }
}

/// Collapse a `let` chain into a single expression by textual inlining.
/// A binding referenced many times is duplicated that many times.
fn program_to_expr(program: Program<Expr>) -> (r: Expr)
    ensures
        r@ == desugar(program@),
    decreases lets_count(program@),
{
    match program {
        Program::Let(var, rhs, rest) => {
            let rest2 = substitute_program(&var, &rhs, *rest);
            proof {
                lemma_subst_program_lets(var@, rhs@, rest@);
            }
            program_to_expr(rest2)
        }
        Program::Expr(e) => e,
    }
}

/// The model of a whole evaluation run: desugar the chain, then reduce with
/// the given fuel.
pub open spec fn eval_program(p: SpecProgram<SpecExpr>, fuel: nat) -> Result<SpecExpr, SpecError> {
    eval_spec(desugar(p), fuel)
}

/// Evaluate a program with the default step budget `MAX_DEPTH`.
pub fn eval(program: Program<Expr>) -> (r: Result<Expr, Error>)
    ensures
        result_view(r) == eval_program(program@, MAX_DEPTH as nat),
{
    eval_with_limit(program, MAX_DEPTH)
}

/// Evaluate a program with a caller-chosen step budget.
pub fn eval_with_limit(program: Program<Expr>, limit: u32) -> (r: Result<Expr, Error>)
    ensures
        result_view(r) == eval_program(program@, limit as nat),
{
    let expr = program_to_expr(program);
    eval_expr(expr, limit)
}

/// Substituting for a name into a lambda that binds that very name leaves
/// the lambda untouched, whatever the replacement: the binder shadows the
/// name and stops the recursion.
pub proof fn lemma_subst_shadowed_lambda(v: Seq<char>, r: SpecExpr, body: SpecExpr)
    ensures
        subst(v, r, SpecExpr::Lambda(v, Box::new(body))) == SpecExpr::Lambda(v, Box::new(body)),
{
}

/// The same shadowing holds of `rec`: a self-reference binder that re-binds
/// the substituted name stops the recursion.
pub proof fn lemma_subst_shadowed_rec(v: Seq<char>, r: SpecExpr, body: SpecExpr)
    ensures
        subst(v, r, SpecExpr::Rec(v, Box::new(body))) == SpecExpr::Rec(v, Box::new(body)),
{
}

/// Substituting into a `case` skips any branch whose pattern binds the same
/// variable name: that branch comes back untouched.
pub proof fn lemma_subst_shadowed_branch(v: Seq<char>, r: SpecExpr, b: SpecBranch<SpecExpr>)
    requires
        b.vars.contains(v),
    ensures
        subst_branch(v, r, b) == b,
{
}

/// A normal form: a lambda, or a constructor value whose arguments are all
/// normal forms themselves.
pub open spec fn is_value(e: SpecExpr) -> bool
    decreases e,
{
    match e {
        SpecExpr::Lambda(..) => true,
        SpecExpr::Const(_, es) => all_values(es),
        _ => false,
    }
}

/// Whether every expression of a list is a normal form.
pub open spec fn all_values(es: Seq<SpecExpr>) -> bool
    decreases es,
{
    if es.len() == 0 {
        true
    } else {
        is_value(es[0]) && all_values(es.drop_first())
    }
}

/// Evaluation is total on this grammar: it always returns, and whenever it
/// returns successfully the result is a normal form.  (That it returns at
/// most one error kind is the shape of the `Result` itself.)
pub proof fn lemma_eval_ok_is_value(e: SpecExpr, fuel: nat)
    ensures
        eval_spec(e, fuel) matches Ok(v) ==> is_value(v),
    decreases fuel, 0int,
{
    if fuel > 0 {
        let sub = (fuel - 1) as nat;
        match e {
            SpecExpr::Apply(f, a) => {
                match eval_spec(*f, sub) {
                    Ok(fv) => match fv {
                        SpecExpr::Lambda(x, body) => {
                            match eval_spec(*a, sub) {
                                Ok(av) => {
                                    lemma_eval_ok_is_value(subst(x, av, *body), sub);
                                }
                                Err(_) => {}
                            }
                        }
                        _ => {}
                    },
                    Err(_) => {}
                }
            }
            SpecExpr::Lambda(..) => {}
            SpecExpr::Case(s, bs) => {
                match eval_spec(*s, sub) {
                    Ok(sv) => match sv {
                        SpecExpr::Const(name, args) => match lookup_branch(name, bs) {
                            Some(b) => {
                                if b.vars.len() == args.len() {
                                    lemma_eval_ok_is_value(subst_pairs(b.vars, args, b.body), sub);
                                }
                            }
                            None => {}
                        },
                        _ => {}
                    },
                    Err(_) => {}
                }
            }
            SpecExpr::Rec(x, b) => {
                lemma_eval_ok_is_value(subst(x, SpecExpr::Rec(x, b), *b), sub);
            }
            SpecExpr::Var(_) => {}
            SpecExpr::Const(c, es) => {
                lemma_eval_args_all_values(es, sub);
            }
        }
    }
}

/// Whenever a whole argument list evaluates successfully, every result is a
/// normal form.
proof fn lemma_eval_args_all_values(es: Seq<SpecExpr>, fuel: nat)
    ensures
        eval_args(es, fuel) matches Ok(vs) ==> all_values(vs),
    decreases fuel, es.len() + 1,
{
    if es.len() > 0 {
        lemma_eval_ok_is_value(es[0], fuel);
        lemma_eval_args_all_values(es.drop_first(), fuel);
        match eval_spec(es[0], fuel) {
            Ok(v) => match eval_args(es.drop_first(), fuel) {
                Ok(vs) => {
                    assert((seq![v] + vs)[0] == v);
                    assert((seq![v] + vs).drop_first() =~= vs);
                }
                Err(_) => {}
            },
            Err(_) => {}
        }
    }
}

/// The free variable names of an expression: what `Var` leaves mention
/// outside any binder of the same name.
pub open spec fn free_vars(e: SpecExpr) -> Set<Seq<char>>
    decreases e,
{
    match e {
        SpecExpr::Apply(f, a) => free_vars(*f) + free_vars(*a),
        SpecExpr::Lambda(x, b) => free_vars(*b).remove(x),
        SpecExpr::Case(s, bs) => free_vars(*s) + free_vars_branches(bs),
        SpecExpr::Rec(x, b) => free_vars(*b).remove(x),
        SpecExpr::Var(x) => set![x],
        SpecExpr::Const(_, es) => free_vars_all(es),
    }
}

/// The free variable names of a list of expressions.
pub open spec fn free_vars_all(es: Seq<SpecExpr>) -> Set<Seq<char>>
    decreases es,
{
    if es.len() == 0 {
        Set::empty()
    } else {
        free_vars(es[0]) + free_vars_all(es.drop_first())
    }
}

/// The free variable names of a list of branches.
pub open spec fn free_vars_branches(bs: Seq<SpecBranch<SpecExpr>>) -> Set<Seq<char>>
    decreases bs,
{
    if bs.len() == 0 {
        Set::empty()
    } else {
        free_vars_branch(bs[0]) + free_vars_branches(bs.drop_first())
    }
}

/// The free variable names of one branch: its body's, less the names its
/// pattern binds.
pub open spec fn free_vars_branch(b: SpecBranch<SpecExpr>) -> Set<Seq<char>>
    decreases b,
{
    free_vars(b.body) - names_set(b.vars)
}

/// The names of a variable list, as a set.
pub open spec fn names_set(vs: Seq<Seq<char>>) -> Set<Seq<char>>
    decreases vs,
{
    if vs.len() == 0 {
        Set::empty()
    } else {
        names_set(vs.drop_first()).insert(vs[0])
    }
}

/// A closed expression mentions no free variable.
pub open spec fn is_closed(e: SpecExpr) -> bool {
    forall|x: Seq<char>| !free_vars(e).contains(x)
}

/// A name is in a variable list's set exactly when the list holds it.
proof fn lemma_names_set_contains(vs: Seq<Seq<char>>, x: Seq<char>)
    ensures
        names_set(vs).contains(x) <==> vs.contains(x),
    decreases vs,
{
    if vs.len() > 0 {
        lemma_names_set_contains(vs.drop_first(), x);
        if vs.contains(x) && vs[0] != x {
            let i = choose|i: int| 0 <= i < vs.len() && vs[i] == x;
            assert(vs.drop_first()[i - 1] == x);
        }
    }
}

/// Substitution only removes the substituted name and adds free names of
/// the replacement: every free name of the result was free in the original
/// (and is not the substituted one) or is free in the replacement.
pub proof fn lemma_subst_free_vars(v: Seq<char>, r: SpecExpr, e: SpecExpr)
    ensures
        free_vars(subst(v, r, e)).subset_of((free_vars(e) - set![v]) + free_vars(r)),
    decreases e,
{
    let goal = (free_vars(e) - set![v]) + free_vars(r);
    match e {
        SpecExpr::Apply(f, a) => {
            lemma_subst_free_vars(v, r, *f);
            lemma_subst_free_vars(v, r, *a);
        }
        SpecExpr::Lambda(x, b) => {
            if x != v {
                lemma_subst_free_vars(v, r, *b);
                assert forall|y: Seq<char>|
                    free_vars(subst(v, r, e)).contains(y) implies goal.contains(y) by {
                    assert(free_vars(subst(v, r, *b)).contains(y) && y != x);
                }
            }
        }
        SpecExpr::Case(s, bs) => {
            lemma_subst_free_vars(v, r, *s);
            lemma_subst_branches_free_vars(v, r, bs);
        }
        SpecExpr::Rec(x, b) => {
            if x != v {
                lemma_subst_free_vars(v, r, *b);
                assert forall|y: Seq<char>|
                    free_vars(subst(v, r, e)).contains(y) implies goal.contains(y) by {
                    assert(free_vars(subst(v, r, *b)).contains(y) && y != x);
                }
            }
        }
        SpecExpr::Var(x) => {}
        SpecExpr::Const(c, es) => {
            lemma_subst_all_free_vars(v, r, es);
        }
    }
}

/// As `lemma_subst_free_vars`, for a list of expressions.
proof fn lemma_subst_all_free_vars(v: Seq<char>, r: SpecExpr, es: Seq<SpecExpr>)
    ensures
        free_vars_all(subst_all(v, r, es)).subset_of(
            (free_vars_all(es) - set![v]) + free_vars(r),
        ),
    decreases es,
{
    if es.len() > 0 {
        lemma_subst_free_vars(v, r, es[0]);
        lemma_subst_all_free_vars(v, r, es.drop_first());
        let ss = subst_all(v, r, es);
        assert(ss[0] == subst(v, r, es[0]));
        assert(ss.drop_first() =~= subst_all(v, r, es.drop_first()));
    }
}

/// As `lemma_subst_free_vars`, for a list of branches.
proof fn lemma_subst_branches_free_vars(v: Seq<char>, r: SpecExpr, bs: Seq<SpecBranch<SpecExpr>>)
    ensures
        free_vars_branches(subst_branches(v, r, bs)).subset_of(
            (free_vars_branches(bs) - set![v]) + free_vars(r),
        ),
    decreases bs,
{
    if bs.len() > 0 {
        lemma_subst_branch_free_vars(v, r, bs[0]);
        lemma_subst_branches_free_vars(v, r, bs.drop_first());
        let ss = subst_branches(v, r, bs);
        assert(ss[0] == subst_branch(v, r, bs[0]));
        assert(ss.drop_first() =~= subst_branches(v, r, bs.drop_first()));
    }
}

/// As `lemma_subst_free_vars`, for one branch.
proof fn lemma_subst_branch_free_vars(v: Seq<char>, r: SpecExpr, b: SpecBranch<SpecExpr>)
    ensures
        free_vars_branch(subst_branch(v, r, b)).subset_of(
            (free_vars_branch(b) - set![v]) + free_vars(r),
        ),
    decreases b,
{
    if b.vars.contains(v) {
        lemma_names_set_contains(b.vars, v);
        assert forall|y: Seq<char>|
            free_vars_branch(b).contains(y) implies ((free_vars_branch(b) - set![v])
            + free_vars(r)).contains(y) by {
            assert(y != v);
        }
    } else {
        lemma_subst_free_vars(v, r, b.body);
    }
}

/// The branch substitution stays within the pattern's names and the
/// arguments' free names: whatever `subst_pairs` leaves free was free in
/// the body outside the pattern, or free in one of the substituted values.
proof fn lemma_subst_pairs_free_vars(vars: Seq<Seq<char>>, vals: Seq<SpecExpr>, body: SpecExpr)
    requires
        vars.len() == vals.len(),
    ensures
        free_vars(subst_pairs(vars, vals, body)).subset_of(
            (free_vars(body) - names_set(vars)) + free_vars_all(vals),
        ),
    decreases vars,
{
    if vars.len() > 0 {
        lemma_subst_pairs_free_vars(vars.drop_first(), vals.drop_first(), body);
        let inner = subst_pairs(vars.drop_first(), vals.drop_first(), body);
        lemma_subst_free_vars(vars[0], vals[0], inner);
        let goal = (free_vars(body) - names_set(vars)) + free_vars_all(vals);
        assert forall|y: Seq<char>|
            free_vars(subst_pairs(vars, vals, body)).contains(y) implies goal.contains(y) by {
            assert(free_vars_all(vals) == free_vars(vals[0]) + free_vars_all(vals.drop_first()));
            assert(names_set(vars) == names_set(vars.drop_first()).insert(vars[0]));
            if !free_vars(vals[0]).contains(y) {
                assert(free_vars(inner).contains(y) && y != vars[0]);
            }
        }
    }
}

/// The branch that `lookup_branch` finds is one of the list: its free
/// names are among the list's.
proof fn lemma_lookup_branch_free_vars(name: Seq<char>, bs: Seq<SpecBranch<SpecExpr>>)
    ensures
        lookup_branch(name, bs) matches Some(b) ==> free_vars_branch(b).subset_of(
            free_vars_branches(bs),
        ),
    decreases bs,
{
    if bs.len() > 0 && bs[0].ctor != name {
        lemma_lookup_branch_free_vars(name, bs.drop_first());
    }
}

/// On closed terms, evaluation never reports an unbound variable, and every
/// value it produces is closed again.  Together with
/// `lemma_eval_ok_is_value` this is the totality property: a closed term
/// either reduces to a closed normal form or raises exactly one of the
/// remaining error kinds within the step budget.
pub proof fn lemma_eval_closed(e: SpecExpr, fuel: nat)
    requires
        is_closed(e),
    ensures
        !(eval_spec(e, fuel) matches Err(SpecError::UnboundVariable(_))),
        eval_spec(e, fuel) matches Ok(v) ==> is_closed(v),
    decreases fuel, 0int,
{
    if fuel > 0 {
        let sub = (fuel - 1) as nat;
        match e {
            SpecExpr::Apply(f, a) => {
                assert forall|y: Seq<char>| !free_vars(*f).contains(y) by {
                    assert(!free_vars(e).contains(y));
                }
                assert forall|y: Seq<char>| !free_vars(*a).contains(y) by {
                    assert(!free_vars(e).contains(y));
                }
                lemma_eval_closed(*f, sub);
                match eval_spec(*f, sub) {
                    Ok(fv) => match fv {
                        SpecExpr::Lambda(x, body) => {
                            lemma_eval_closed(*a, sub);
                            match eval_spec(*a, sub) {
                                Ok(av) => {
                                    lemma_subst_free_vars(x, av, *body);
                                    assert forall|y: Seq<char>|
                                        !free_vars(subst(x, av, *body)).contains(y) by {
                                        assert(!free_vars(fv).contains(y));
                                        assert(!free_vars(av).contains(y));
                                    }
                                    lemma_eval_closed(subst(x, av, *body), sub);
                                }
                                Err(_) => {}
                            }
                        }
                        _ => {}
                    },
                    Err(_) => {}
                }
            }
            SpecExpr::Lambda(..) => {}
            SpecExpr::Case(s, bs) => {
                assert forall|y: Seq<char>| !free_vars(*s).contains(y) by {
                    assert(!free_vars(e).contains(y));
                }
                lemma_eval_closed(*s, sub);
                match eval_spec(*s, sub) {
                    Ok(sv) => match sv {
                        SpecExpr::Const(name, args) => {
                            lemma_lookup_branch_free_vars(name, bs);
                            match lookup_branch(name, bs) {
                                Some(b) => {
                                    if b.vars.len() == args.len() {
                                        lemma_subst_pairs_free_vars(b.vars, args, b.body);
                                        let started = subst_pairs(b.vars, args, b.body);
                                        assert forall|y: Seq<char>|
                                            !free_vars(started).contains(y) by {
                                            assert(!free_vars(e).contains(y));
                                            assert(!free_vars(sv).contains(y));
                                        }
                                        lemma_eval_closed(started, sub);
                                    }
                                }
                                None => {}
                            }
                        }
                        _ => {}
                    },
                    Err(_) => {}
                }
            }
            SpecExpr::Rec(x, b) => {
                lemma_subst_free_vars(x, e, *b);
                assert forall|y: Seq<char>| !free_vars(subst(x, e, *b)).contains(y) by {
                    assert(!free_vars(e).contains(y));
                }
                lemma_eval_closed(subst(x, e, *b), sub);
            }
            SpecExpr::Var(x) => {
                assert(free_vars(e).contains(x));
            }
            SpecExpr::Const(c, es) => {
                assert forall|y: Seq<char>| !free_vars_all(es).contains(y) by {
                    assert(!free_vars(e).contains(y));
                }
                lemma_eval_args_closed(es, sub);
                match eval_args(es, sub) {
                    Ok(vs) => {
                        assert forall|y: Seq<char>|
                            !free_vars(SpecExpr::Const(c, vs)).contains(y) by {
                            assert(!free_vars_all(vs).contains(y));
                        }
                    }
                    Err(_) => {}
                }
            }
        }
    }
}

/// As `lemma_eval_closed`, for a whole argument list.
proof fn lemma_eval_args_closed(es: Seq<SpecExpr>, fuel: nat)
    requires
        forall|y: Seq<char>| !free_vars_all(es).contains(y),
    ensures
        !(eval_args(es, fuel) matches Err(SpecError::UnboundVariable(_))),
        eval_args(es, fuel) matches Ok(vs) ==> forall|y: Seq<char>|
            !free_vars_all(vs).contains(y),
    decreases fuel, es.len() + 1,
{
    if es.len() > 0 {
        assert forall|y: Seq<char>| !free_vars(es[0]).contains(y) by {
            assert(!free_vars_all(es).contains(y));
        }
        assert forall|y: Seq<char>| !free_vars_all(es.drop_first()).contains(y) by {
            assert(!free_vars_all(es).contains(y));
        }
        lemma_eval_closed(es[0], fuel);
        lemma_eval_args_closed(es.drop_first(), fuel);
        match eval_spec(es[0], fuel) {
            Ok(v) => match eval_args(es.drop_first(), fuel) {
                Ok(vs) => {
                    let full = seq![v] + vs;
                    assert(full[0] == v);
                    assert(full.drop_first() =~= vs);
                    assert forall|y: Seq<char>| !free_vars_all(full).contains(y) by {
                        assert(!free_vars(v).contains(y));
                        assert(!free_vars_all(vs).contains(y));
                        assert(free_vars_all(full) == free_vars(full[0]) + free_vars_all(
                            full.drop_first(),
                        ));
                    }
                }
                Err(_) => {}
            },
            Err(_) => {}
        }
    }
}

/// The unguarded self-reference `rec x = x` exhausts any step budget: each
/// unfold reproduces the same term, so evaluation always reports
/// `DepthExceeded`.
pub proof fn lemma_rec_self_diverges(x: Seq<char>, fuel: nat)
    ensures
        eval_spec(SpecExpr::Rec(x, Box::new(SpecExpr::Var(x))), fuel) == Err::<SpecExpr, SpecError>(
            SpecError::DepthExceeded,
        ),
    decreases fuel,
{
    if fuel > 0 {
        let rec = SpecExpr::Rec(x, Box::new(SpecExpr::Var(x)));
        assert(subst(x, rec, SpecExpr::Var(x)) == rec);
        lemma_rec_self_diverges(x, (fuel - 1) as nat);
    }
}

} // verus!
