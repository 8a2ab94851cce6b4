//! The term model of the Chi calculus: variables, constructors, expressions,
//! case branches, meta-expressions with quotation, and `let`-chain programs,
//! together with their mathematical models (`SpecExpr` and friends).
use vstd::prelude::*;

verus! {

/// A variable name, compared by exact string equality.  No alpha-renaming and
/// no uniqueness across scopes is implied.
#[derive(Debug)]
pub struct Variable(pub String);

/// A constructor name, compared by exact string equality.
#[derive(Debug)]
pub struct Constructor(pub String);

/// One `constructor(vars) -> body` arm of a `case` expression.
#[derive(Debug, PartialEq)]
pub struct Branch<T>(pub Constructor, pub Vec<Variable>, pub T);

/// A closed-language Chi expression.  Each node exclusively owns its
/// children; trees are finite.  A `Rec` node stands for self-reference
/// symbolically and is re-materialized on each unfold.
#[derive(Debug, PartialEq)]
pub enum Expr {
    Apply(Box<Expr>, Box<Expr>),
    Lambda(Variable, Box<Expr>),
    Case(Box<Expr>, Vec<Branch<Expr>>),
    Rec(Variable, Box<Expr>),
    Var(Variable),
    Const(Constructor, Vec<Expr>),
}

/// A quoted program fragment, to be compiled into a constructor tree.
#[derive(Debug, PartialEq)]
pub enum CodedLiteral {
    Expr(MetaExpr),
}

/// The meta language: Chi expressions extended with `Coded` quotation nodes.
#[derive(Debug, PartialEq)]
pub enum MetaExpr {
    Apply(Box<MetaExpr>, Box<MetaExpr>),
    Lambda(Variable, Box<MetaExpr>),
    Case(Box<MetaExpr>, Vec<Branch<MetaExpr>>),
    Rec(Variable, Box<MetaExpr>),
    Var(Variable),
    Const(Constructor, Vec<MetaExpr>),
    Coded(Box<CodedLiteral>),
}

/// A finite chain of top-level `let` bindings ending in one final expression.
#[derive(Debug, PartialEq)]
pub enum Program<T> {
    Let(Variable, T, Box<Program<T>>),
    Expr(T),
}

/// The mathematical model of a branch: constructor name, bound variable
/// names, and the body's model.
pub struct SpecBranch<V> {
    pub ctor: Seq<char>,
    pub vars: Seq<Seq<char>>,
    pub body: V,
}

/// The mathematical model of an expression: names are character sequences,
/// child lists are sequences.
pub enum SpecExpr {
    Apply(Box<SpecExpr>, Box<SpecExpr>),
    Lambda(Seq<char>, Box<SpecExpr>),
    Case(Box<SpecExpr>, Seq<SpecBranch<SpecExpr>>),
    Rec(Seq<char>, Box<SpecExpr>),
    Var(Seq<char>),
    Const(Seq<char>, Seq<SpecExpr>),
}

/// The mathematical model of a meta expression.
pub enum SpecMetaExpr {
    Apply(Box<SpecMetaExpr>, Box<SpecMetaExpr>),
    Lambda(Seq<char>, Box<SpecMetaExpr>),
    Case(Box<SpecMetaExpr>, Seq<SpecBranch<SpecMetaExpr>>),
    Rec(Seq<char>, Box<SpecMetaExpr>),
    Var(Seq<char>),
    Const(Seq<char>, Seq<SpecMetaExpr>),
    Coded(Box<SpecMetaExpr>),
}

/// The mathematical model of a program chain.
pub enum SpecProgram<V> {
    Let(Seq<char>, V, Box<SpecProgram<V>>),
    Expr(V),
}

impl View for Variable {
    type V = Seq<char>;

    open spec fn view(&self) -> Seq<char> {
        self.0@
    }
}

impl View for Constructor {
    type V = Seq<char>;

    open spec fn view(&self) -> Seq<char> {
        self.0@
    }
}

impl PartialEq for Variable {
    fn eq(&self, other: &Variable) -> bool {
        self.0 == other.0
    }
}

impl vstd::std_specs::cmp::PartialEqSpecImpl for Variable {
    open spec fn obeys_eq_spec() -> bool {
        true
    }

    open spec fn eq_spec(&self, other: &Variable) -> bool {
        self@ == other@
    }
}

impl PartialEq for Constructor {
    fn eq(&self, other: &Constructor) -> bool {
        self.0 == other.0
    }
}

impl vstd::std_specs::cmp::PartialEqSpecImpl for Constructor {
    open spec fn obeys_eq_spec() -> bool {
        true
    }

    open spec fn eq_spec(&self, other: &Constructor) -> bool {
        self@ == other@
    }
}

impl Clone for Variable {
    fn clone(&self) -> (r: Variable)
        ensures
            r@ == self@,
    {
        Variable(self.0.clone())
    }
}

impl Clone for Constructor {
    fn clone(&self) -> (r: Constructor)
        ensures
            r@ == self@,
    {
        Constructor(self.0.clone())
    }
}

/// The model of a variable list: the sequence of its names.
pub open spec fn vars_view(vs: Seq<Variable>) -> Seq<Seq<char>> {
    vs.map_values(|v: Variable| v@)
}

/// The model of an expression.
pub open spec fn expr_view(e: Expr) -> SpecExpr
    decreases e,
{
    match e {
        Expr::Apply(f, a) => SpecExpr::Apply(Box::new(expr_view(*f)), Box::new(expr_view(*a))),
        Expr::Lambda(x, b) => SpecExpr::Lambda(x@, Box::new(expr_view(*b))),
        Expr::Case(s, bs) => SpecExpr::Case(Box::new(expr_view(*s)), branches_view(bs@)),
        Expr::Rec(x, b) => SpecExpr::Rec(x@, Box::new(expr_view(*b))),
        Expr::Var(x) => SpecExpr::Var(x@),
        Expr::Const(c, es) => SpecExpr::Const(c@, exprs_view(es@)),
    }
}

/// The model of a list of expressions.
pub open spec fn exprs_view(es: Seq<Expr>) -> Seq<SpecExpr>
    decreases es,
{
    if es.len() == 0 {
        Seq::empty()
    } else {
        seq![expr_view(es[0])] + exprs_view(es.drop_first())
    }
}

/// The model of a list of branches.
pub open spec fn branches_view(bs: Seq<Branch<Expr>>) -> Seq<SpecBranch<SpecExpr>>
    decreases bs,
{
    if bs.len() == 0 {
        Seq::empty()
    } else {
        seq![branch_view(bs[0])] + branches_view(bs.drop_first())
    }
}

/// The model of one branch.
pub open spec fn branch_view(b: Branch<Expr>) -> SpecBranch<SpecExpr>
    decreases b,
{
    SpecBranch { ctor: b.0@, vars: vars_view(b.1@), body: expr_view(b.2) }
}

impl View for Expr {
    type V = SpecExpr;

    open spec fn view(&self) -> SpecExpr {
        expr_view(*self)
    }
}

impl View for Branch<Expr> {
    type V = SpecBranch<SpecExpr>;

    open spec fn view(&self) -> SpecBranch<SpecExpr> {
        branch_view(*self)
    }
}

/// The model of a meta expression.
pub open spec fn meta_view(e: MetaExpr) -> SpecMetaExpr
    decreases e,
{
    match e {
        MetaExpr::Apply(f, a) => SpecMetaExpr::Apply(
            Box::new(meta_view(*f)),
            Box::new(meta_view(*a)),
        ),
        MetaExpr::Lambda(x, b) => SpecMetaExpr::Lambda(x@, Box::new(meta_view(*b))),
        MetaExpr::Case(s, bs) => SpecMetaExpr::Case(
            Box::new(meta_view(*s)),
            meta_branches_view(bs@),
        ),
        MetaExpr::Rec(x, b) => SpecMetaExpr::Rec(x@, Box::new(meta_view(*b))),
        MetaExpr::Var(x) => SpecMetaExpr::Var(x@),
        MetaExpr::Const(c, es) => SpecMetaExpr::Const(c@, metas_view(es@)),
        MetaExpr::Coded(l) => SpecMetaExpr::Coded(Box::new(coded_literal_view(*l))),
    }
}

/// The model of a list of meta expressions.
pub open spec fn metas_view(es: Seq<MetaExpr>) -> Seq<SpecMetaExpr>
    decreases es,
{
    if es.len() == 0 {
        Seq::empty()
    } else {
        seq![meta_view(es[0])] + metas_view(es.drop_first())
    }
}

/// The model of a list of meta branches.
pub open spec fn meta_branches_view(bs: Seq<Branch<MetaExpr>>) -> Seq<SpecBranch<SpecMetaExpr>>
    decreases bs,
{
    if bs.len() == 0 {
        Seq::empty()
    } else {
        seq![meta_branch_view(bs[0])] + meta_branches_view(bs.drop_first())
    }
}

/// The model of one meta branch.
pub open spec fn meta_branch_view(b: Branch<MetaExpr>) -> SpecBranch<SpecMetaExpr>
    decreases b,
{
    SpecBranch { ctor: b.0@, vars: vars_view(b.1@), body: meta_view(b.2) }
}

/// The model of a quoted literal: the model of its payload.
pub open spec fn coded_literal_view(l: CodedLiteral) -> SpecMetaExpr
    decreases l,
{
    match l {
        CodedLiteral::Expr(e) => meta_view(e),
    }
}

impl View for MetaExpr {
    type V = SpecMetaExpr;

    open spec fn view(&self) -> SpecMetaExpr {
        meta_view(*self)
    }
}

impl View for CodedLiteral {
    type V = SpecMetaExpr;

    open spec fn view(&self) -> SpecMetaExpr {
        coded_literal_view(*self)
    }
}

/// The model of a program chain.
pub open spec fn program_view<T: View>(p: Program<T>) -> SpecProgram<T::V>
    decreases p,
{
    match p {
        Program::Let(x, t, rest) => SpecProgram::Let(x@, t@, Box::new(program_view(*rest))),
        Program::Expr(t) => SpecProgram::Expr(t@),
    }
}

impl<T: View> View for Program<T> {
    type V = SpecProgram<T::V>;

    open spec fn view(&self) -> SpecProgram<T::V> {
        program_view(*self)
    }
}

impl Clone for Expr {
    /// A structural deep copy: the copy has the same model as the original.
    fn clone(&self) -> (r: Expr)
        ensures
            r@ == self@,
        decreases self,
    {
        match self {
            Expr::Apply(f, a) => Expr::Apply(Box::new((**f).clone()), Box::new((**a).clone())),
            Expr::Lambda(x, b) => Expr::Lambda(x.clone(), Box::new((**b).clone())),
            Expr::Case(s, bs) => Expr::Case(Box::new((**s).clone()), clone_branches(bs)),
            Expr::Rec(x, b) => Expr::Rec(x.clone(), Box::new((**b).clone())),
            Expr::Var(x) => Expr::Var(x.clone()),
            Expr::Const(c, es) => Expr::Const(c.clone(), clone_exprs(es)),
        }
    }
}

/// A deep copy of a list of expressions, preserving the model.
fn clone_exprs(es: &Vec<Expr>) -> (r: Vec<Expr>)
    ensures
        exprs_view(r@) == exprs_view(es@),
    decreases es@,
{
    let mut out: Vec<Expr> = Vec::new();
    let mut i: usize = 0;
    while i < es.len()
        invariant
            i <= es@.len(),
            out@.len() == i,
            exprs_view(out@) == exprs_view(es@.take(i as int)),
        decreases es@.len() - i,
    {
        let ghost prev = out@;
        let r = es[i].clone();
        let ghost rr = r;
        out.push(r);
        proof {
            assert(out@ =~= prev.push(rr));
            lemma_exprs_view_push(prev, rr);
            lemma_exprs_view_push(es@.take(i as int), es@[i as int]);
            assert(es@.take(i as int + 1) =~= es@.take(i as int).push(es@[i as int]));
            assert(expr_view(rr) == expr_view(es@[i as int]));
        }
        i = i + 1;
    }
    proof {
        assert(es@.take(es@.len() as int) =~= es@);
    }
    out
}

/// A deep copy of a list of branches, preserving the model.
fn clone_branches(bs: &Vec<Branch<Expr>>) -> (r: Vec<Branch<Expr>>)
    ensures
        branches_view(r@) == branches_view(bs@),
    decreases bs@,
{
    let mut out: Vec<Branch<Expr>> = Vec::new();
    let mut i: usize = 0;
    while i < bs.len()
        invariant
            i <= bs@.len(),
            out@.len() == i,
            branches_view(out@) == branches_view(bs@.take(i as int)),
        decreases bs@.len() - i,
    {
        let ghost prev = out@;
        let Branch(c, vs, body) = &bs[i];
        let b = Branch(c.clone(), clone_vars(vs), body.clone());
        let ghost bb = b;
        proof {
            assert(branch_view(bb) == branch_view(bs@[i as int]));
        }
        out.push(b);
        proof {
            assert(out@ =~= prev.push(bb));
            lemma_branches_view_push(prev, bb);
            lemma_branches_view_push(bs@.take(i as int), bs@[i as int]);
            assert(bs@.take(i as int + 1) =~= bs@.take(i as int).push(bs@[i as int]));
        }
        i = i + 1;
    }
    proof {
        assert(bs@.take(bs@.len() as int) =~= bs@);
    }
    out
}

/// A copy of a list of variables, preserving the list of names.
pub fn clone_vars(vs: &Vec<Variable>) -> (r: Vec<Variable>)
    ensures
        vars_view(r@) == vars_view(vs@),
{
    let mut out: Vec<Variable> = Vec::new();
    let mut i: usize = 0;
    while i < vs.len()
        invariant
            i <= vs@.len(),
            out@.len() == i,
            forall|j: int| 0 <= j < i ==> out@[j]@ == vs@[j]@,
        decreases vs@.len() - i,
    {
        out.push(vs[i].clone());
        i = i + 1;
    }
    proof {
        assert(vars_view(out@) =~= vars_view(vs@));
    }
    out
}

/// Appending an expression to a list appends its model.
pub proof fn lemma_exprs_view_push(es: Seq<Expr>, e: Expr)
    ensures
        exprs_view(es.push(e)) == exprs_view(es).push(expr_view(e)),
    decreases es,
{
    let full = es.push(e);
    if es.len() == 0 {
        assert(full.drop_first() =~= Seq::<Expr>::empty());
        assert(full[0] == e);
        assert(exprs_view(full) == seq![expr_view(e)] + exprs_view(Seq::<Expr>::empty()));
        assert(exprs_view(Seq::<Expr>::empty()) == Seq::<SpecExpr>::empty());
        assert(exprs_view(es) == Seq::<SpecExpr>::empty());
        assert(seq![expr_view(e)] + Seq::<SpecExpr>::empty() =~= Seq::<SpecExpr>::empty().push(
            expr_view(e),
        ));
        assert(exprs_view(full) == exprs_view(es).push(expr_view(e)));
    } else {
        assert(full.drop_first() =~= es.drop_first().push(e));
        lemma_exprs_view_push(es.drop_first(), e);
        assert(full[0] == es[0]);
        assert(exprs_view(full) == seq![expr_view(full[0])] + exprs_view(full.drop_first()));
        assert(exprs_view(es) == seq![expr_view(es[0])] + exprs_view(es.drop_first()));
        assert(exprs_view(full.drop_first()) == exprs_view(es.drop_first()).push(expr_view(e)));
        let a = expr_view(es[0]);
        let x = exprs_view(es.drop_first());
        let v = expr_view(e);
        assert(seq![a] + x.push(v) =~= (seq![a] + x).push(v));
        assert(expr_view(full[0]) == a);
        assert(exprs_view(full) == seq![a] + x.push(v));
        assert(exprs_view(es).push(expr_view(e)) == (seq![a] + x).push(v));
        assert(exprs_view(full) == exprs_view(es).push(expr_view(e)));
    }
}

/// Appending a branch to a list appends its model.
pub proof fn lemma_branches_view_push(bs: Seq<Branch<Expr>>, b: Branch<Expr>)
    ensures
        branches_view(bs.push(b)) == branches_view(bs).push(branch_view(b)),
    decreases bs,
{
    let full = bs.push(b);
    if bs.len() == 0 {
        assert(full.drop_first() =~= Seq::<Branch<Expr>>::empty());
        assert(full[0] == b);
        assert(branches_view(full) == seq![branch_view(b)] + branches_view(
            Seq::<Branch<Expr>>::empty(),
        ));
        assert(branches_view(Seq::<Branch<Expr>>::empty()) == Seq::<SpecBranch<SpecExpr>>::empty());
        assert(branches_view(bs) == Seq::<SpecBranch<SpecExpr>>::empty());
        assert(seq![branch_view(b)] + Seq::<SpecBranch<SpecExpr>>::empty()
            =~= Seq::<SpecBranch<SpecExpr>>::empty().push(branch_view(b)));
        assert(branches_view(full) == branches_view(bs).push(branch_view(b)));
    } else {
        assert(full.drop_first() =~= bs.drop_first().push(b));
        lemma_branches_view_push(bs.drop_first(), b);
        assert(full[0] == bs[0]);
        assert(branches_view(full) == seq![branch_view(full[0])] + branches_view(full.drop_first()));
        assert(branches_view(bs) == seq![branch_view(bs[0])] + branches_view(bs.drop_first()));
        assert(branches_view(full.drop_first()) == branches_view(bs.drop_first()).push(branch_view(b)));
        let a = branch_view(bs[0]);
        let x = branches_view(bs.drop_first());
        let v = branch_view(b);
        assert(seq![a] + x.push(v) =~= (seq![a] + x).push(v));
        assert(branches_view(full) =~= branches_view(bs).push(branch_view(b)));
    }
}

/// The model of an expression list has the same length, and the elements'
/// models, at each position.
pub proof fn lemma_exprs_view_index(es: Seq<Expr>)
    ensures
        exprs_view(es).len() == es.len(),
        forall|i: int| 0 <= i < es.len() ==> exprs_view(es)[i] == expr_view(#[trigger] es[i]),
    decreases es,
{
    if es.len() > 0 {
        lemma_exprs_view_index(es.drop_first());
        assert forall|i: int| 0 <= i < es.len() implies exprs_view(es)[i] == expr_view(#[trigger] es[i]) by {
            if i > 0 {
                assert(es.drop_first()[i - 1] == es[i]);
                assert(exprs_view(es)[i] == exprs_view(es.drop_first())[i - 1]);
            }
        }
    }
}

/// The model of a branch list has the same length, and the branches'
/// models, at each position.
pub proof fn lemma_branches_view_index(bs: Seq<Branch<Expr>>)
    ensures
        branches_view(bs).len() == bs.len(),
        forall|i: int| 0 <= i < bs.len() ==> branches_view(bs)[i] == branch_view(#[trigger] bs[i]),
    decreases bs,
{
    if bs.len() > 0 {
        lemma_branches_view_index(bs.drop_first());
        assert forall|i: int| 0 <= i < bs.len() implies branches_view(bs)[i] == branch_view(#[trigger] bs[i]) by {
            if i > 0 {
                assert(bs.drop_first()[i - 1] == bs[i]);
                assert(branches_view(bs)[i] == branches_view(bs.drop_first())[i - 1]);
            }
        }
    }
}

} // verus!
