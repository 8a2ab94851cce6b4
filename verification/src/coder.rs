//! The quotation compiler: eliminates every `Coded` node of a program by
//! compiling the quoted fragment into a constructor tree that represents its
//! syntax as first-class data.
//!
//! Symbol interning shares one table and one counter across the entire
//! program rewrite, and across constructor and variable names alike: a
//! constructor and a variable with the same textual name receive the same
//! numeric code.  Each name seen for the first time, walking the program in
//! pre-order, left to right and outside in, receives the next unused index;
//! later occurrences reuse it.  An index is encoded in unary: `Zero()` for
//! zero, and one `Suc(...)` wrapper per unit otherwise.
use vstd::prelude::*;
use vstd::string::StringExecFns;
use crate::error::{Error, ErrorKind, SpecError};
use crate::term::{
    branch_view, exprs_view, expr_view, meta_branch_view, meta_branches_view, meta_view,
    metas_view, vars_view, Branch, CodedLiteral, Constructor, Expr, MetaExpr, Program, SpecBranch,
    SpecExpr, SpecMetaExpr, SpecProgram, Variable,
};

verus! {

/// The code an interning table assigns to a name: the index of its first
/// occurrence, or the table's length if the name is new.
pub open spec fn intern_index(table: Seq<Seq<char>>, name: Seq<char>) -> int
    decreases table,
{
    if table.len() == 0 {
        0
    } else if table[0] == name {
        0
    } else {
        1 + intern_index(table.drop_first(), name)
    }
}

/// The table after interning a name: unchanged if the name is known,
/// extended at the end otherwise.
pub open spec fn intern_table(table: Seq<Seq<char>>, name: Seq<char>) -> Seq<Seq<char>> {
    if table.contains(name) {
        table
    } else {
        table.push(name)
    }
}

/// Index `n` in unary: `Zero()` for 0, else `n` nested `Suc` wrappers.
pub open spec fn numeral(n: nat) -> SpecExpr
    decreases n,
{
    if n == 0 {
        SpecExpr::Const("Zero"@, Seq::empty())
    } else {
        SpecExpr::Const("Suc"@, seq![numeral((n - 1) as nat)])
    }
}

/// A finite sequence of already-encoded terms, right-folded into
/// `Cons(head, tail)` cells ending in `Nil()`.
pub open spec fn code_list_spec(es: Seq<SpecExpr>) -> SpecExpr
    decreases es,
{
    if es.len() == 0 {
        SpecExpr::Const("Nil"@, Seq::empty())
    } else {
        SpecExpr::Const("Cons"@, seq![es[0], code_list_spec(es.drop_first())])
    }
}

/// Intern a list of names left to right, returning the final table and the
/// numeral of each name.
pub open spec fn intern_syms(table: Seq<Seq<char>>, names: Seq<Seq<char>>) -> (Seq<Seq<char>>, Seq<
    SpecExpr,
>)
    decreases names,
{
    if names.len() == 0 {
        (table, Seq::empty())
    } else {
        let t1 = intern_table(table, names[0]);
        let c1 = numeral(intern_index(table, names[0]) as nat);
        let (t2, cs) = intern_syms(t1, names.drop_first());
        (t2, seq![c1] + cs)
    }
}

/// What compiling one quoted fragment yields: the final table and the
/// constructor tree, or nothing if the fragment itself holds a quotation.
/// Each node becomes a `Const` whose name tags the node kind and whose
/// arguments are the interned name numerals and recursively encoded
/// children, interned in pre-order, left to right.
pub open spec fn encode(table: Seq<Seq<char>>, m: SpecMetaExpr) -> Option<(Seq<Seq<char>>, SpecExpr)>
    decreases m,
{
    match m {
        SpecMetaExpr::Apply(e1, e2) => match encode(table, *e1) {
            None => None,
            Some((t1, c1)) => match encode(t1, *e2) {
                None => None,
                Some((t2, c2)) => Some((t2, SpecExpr::Const("Apply"@, seq![c1, c2]))),
            },
        },
        SpecMetaExpr::Lambda(x, e) => {
            let cx = numeral(intern_index(table, x) as nat);
            match encode(intern_table(table, x), *e) {
                None => None,
                Some((t2, c2)) => Some((t2, SpecExpr::Const("Lambda"@, seq![cx, c2]))),
            }
        },
        SpecMetaExpr::Case(s, bs) => match encode(table, *s) {
            None => None,
            Some((t1, c1)) => match encode_branches(t1, bs) {
                None => None,
                Some((t2, cs)) => Some(
                    (t2, SpecExpr::Const("Case"@, seq![c1, code_list_spec(cs)])),
                ),
            },
        },
        SpecMetaExpr::Rec(x, e) => {
            let cx = numeral(intern_index(table, x) as nat);
            match encode(intern_table(table, x), *e) {
                None => None,
                Some((t2, c2)) => Some((t2, SpecExpr::Const("Rec"@, seq![cx, c2]))),
            }
        },
        SpecMetaExpr::Var(x) => Some(
            (
                intern_table(table, x),
                SpecExpr::Const("Var"@, seq![numeral(intern_index(table, x) as nat)]),
            ),
        ),
        SpecMetaExpr::Const(c, es) => {
            let cc = numeral(intern_index(table, c) as nat);
            match encode_list(intern_table(table, c), es) {
                None => None,
                Some((t2, cs)) => Some(
                    (t2, SpecExpr::Const("Const"@, seq![cc, code_list_spec(cs)])),
                ),
            }
        },
        SpecMetaExpr::Coded(_) => None,
    }
}

/// Encode a list of fragments left to right, threading the table.
pub open spec fn encode_list(table: Seq<Seq<char>>, es: Seq<SpecMetaExpr>) -> Option<(Seq<Seq<char>>, Seq<SpecExpr>)>
    decreases es,
{
    if es.len() == 0 {
        Some((table, Seq::empty()))
    } else {
        match encode(table, es[0]) {
            None => None,
            Some((t1, c1)) => match encode_list(t1, es.drop_first()) {
                None => None,
                Some((t2, cs)) => Some((t2, seq![c1] + cs)),
            },
        }
    }
}

/// Encode one quoted branch: its constructor's numeral, the list of its
/// bound variables' numerals, and its encoded body.
pub open spec fn encode_branch(table: Seq<Seq<char>>, b: SpecBranch<SpecMetaExpr>) -> Option<(Seq<Seq<char>>, SpecExpr)>
    decreases b,
{
    let cc = numeral(intern_index(table, b.ctor) as nat);
    let (t2, cvs) = intern_syms(intern_table(table, b.ctor), b.vars);
    match encode(t2, b.body) {
        None => None,
        Some((t3, cb)) => Some(
            (t3, SpecExpr::Const("Branch"@, seq![cc, code_list_spec(cvs), cb])),
        ),
    }
}

/// Encode a list of quoted branches left to right, threading the table.
pub open spec fn encode_branches(table: Seq<Seq<char>>, bs: Seq<SpecBranch<SpecMetaExpr>>) -> Option<(Seq<Seq<char>>, Seq<SpecExpr>)>
    decreases bs,
{
    if bs.len() == 0 {
        Some((table, Seq::empty()))
    } else {
        match encode_branch(table, bs[0]) {
            None => None,
            Some((t1, c1)) => match encode_branches(t1, bs.drop_first()) {
                None => None,
                Some((t2, cs)) => Some((t2, seq![c1] + cs)),
            },
        }
    }
}

/// What rewriting one meta expression yields: every `Coded` node compiled
/// away, all other nodes kept, the table threaded through in textual order.
pub open spec fn to_expr_spec(table: Seq<Seq<char>>, m: SpecMetaExpr) -> Option<(Seq<Seq<char>>, SpecExpr)>
    decreases m,
{
    match m {
        SpecMetaExpr::Apply(e1, e2) => match to_expr_spec(table, *e1) {
            None => None,
            Some((t1, c1)) => match to_expr_spec(t1, *e2) {
                None => None,
                Some((t2, c2)) => Some((t2, SpecExpr::Apply(Box::new(c1), Box::new(c2)))),
            },
        },
        SpecMetaExpr::Lambda(x, e) => match to_expr_spec(table, *e) {
            None => None,
            Some((t1, c1)) => Some((t1, SpecExpr::Lambda(x, Box::new(c1)))),
        },
        SpecMetaExpr::Case(s, bs) => match to_expr_spec(table, *s) {
            None => None,
            Some((t1, c1)) => match to_branches_spec(t1, bs) {
                None => None,
                Some((t2, cs)) => Some((t2, SpecExpr::Case(Box::new(c1), cs))),
            },
        },
        SpecMetaExpr::Rec(x, e) => match to_expr_spec(table, *e) {
            None => None,
            Some((t1, c1)) => Some((t1, SpecExpr::Rec(x, Box::new(c1)))),
        },
        SpecMetaExpr::Var(x) => Some((table, SpecExpr::Var(x))),
        SpecMetaExpr::Const(c, es) => match to_exprs_spec(table, es) {
            None => None,
            Some((t1, cs)) => Some((t1, SpecExpr::Const(c, cs))),
        },
        SpecMetaExpr::Coded(p) => encode(table, *p),
    }
}

/// Rewrite a list of meta expressions left to right, threading the table.
pub open spec fn to_exprs_spec(table: Seq<Seq<char>>, es: Seq<SpecMetaExpr>) -> Option<(Seq<Seq<char>>, Seq<SpecExpr>)>
    decreases es,
{
    if es.len() == 0 {
        Some((table, Seq::empty()))
    } else {
        match to_expr_spec(table, es[0]) {
            None => None,
            Some((t1, c1)) => match to_exprs_spec(t1, es.drop_first()) {
                None => None,
                Some((t2, cs)) => Some((t2, seq![c1] + cs)),
            },
        }
    }
}

/// Rewrite a list of branches left to right, threading the table.
pub open spec fn to_branches_spec(table: Seq<Seq<char>>, bs: Seq<SpecBranch<SpecMetaExpr>>) -> Option<(Seq<Seq<char>>, Seq<SpecBranch<SpecExpr>>)>
    decreases bs,
{
    if bs.len() == 0 {
        Some((table, Seq::empty()))
    } else {
        match to_branch_spec(table, bs[0]) {
            None => None,
            Some((t1, c1)) => match to_branches_spec(t1, bs.drop_first()) {
                None => None,
                Some((t2, cs)) => Some((t2, seq![c1] + cs)),
            },
        }
    }
}

/// Rewrite one branch: its body is rewritten, its names are kept.
pub open spec fn to_branch_spec(table: Seq<Seq<char>>, b: SpecBranch<SpecMetaExpr>) -> Option<(Seq<Seq<char>>, SpecBranch<SpecExpr>)>
    decreases b,
{
    match to_expr_spec(table, b.body) {
        None => None,
        Some((t1, c1)) => Some((t1, SpecBranch { ctor: b.ctor, vars: b.vars, body: c1 })),
    }
}

/// What rewriting a whole program yields: one table threaded through every
/// binding and the final expression, so identical names anywhere in the
/// program map to identical codes.
pub open spec fn replace_spec(table: Seq<Seq<char>>, p: SpecProgram<SpecMetaExpr>) -> Option<(Seq<Seq<char>>, SpecProgram<SpecExpr>)>
    decreases p,
{
    match p {
        SpecProgram::Let(x, rhs, rest) => match to_expr_spec(table, rhs) {
            None => None,
            Some((t1, c1)) => match replace_spec(t1, *rest) {
                None => None,
                Some((t2, cs)) => Some((t2, SpecProgram::Let(x, c1, Box::new(cs)))),
            },
        },
        SpecProgram::Expr(e) => match to_expr_spec(table, e) {
            None => None,
            Some((t1, c1)) => Some((t1, SpecProgram::Expr(c1))),
        },
    }
}

/// The symbol-interning coder: one monotone counter and one name-to-index
/// table, shared across a whole program rewrite.  The table is the list of
/// names in order of first appearance; a name's code is its position.
pub struct StandardCoder {
    symbols: Vec<String>,
}

impl StandardCoder {
    /// The interning table this coder has discovered so far.
    pub closed spec fn table(&self) -> Seq<Seq<char>> {
        self.symbols@.map_values(|s: String| s@)
    }

    /// A fresh coder with an empty table.
    pub fn new() -> (r: StandardCoder)
        ensures
            r.table() == Seq::<Seq<char>>::empty(),
    {
        let r = StandardCoder { symbols: Vec::new() };
        proof {
            assert(r.table() =~= Seq::<Seq<char>>::empty());
        }
        r
    }

    /// The code of `name`: its known index, or the next unused one, under
    /// which it is then recorded.
    fn intern(&mut self, name: String) -> (idx: usize)
        ensures
            final(self).table() == intern_table(old(self).table(), name@),
            idx == intern_index(old(self).table(), name@),
    {
        let ghost t = self.table();
        let mut i: usize = 0;
        while i < self.symbols.len()
            invariant
                i <= self.symbols@.len(),
                t == self.table(),
                t.len() == self.symbols@.len(),
                forall|j: int| 0 <= j < self.symbols@.len() ==> t[j] == #[trigger] self.symbols@[j]@,
                forall|j: int| 0 <= j < i ==> t[j] != name@,
            decreases self.symbols@.len() - i,
        {
            if self.symbols[i] == name {
                proof {
                    assert(t.contains(name@)) by {
                        assert(t[i as int] == name@);
                    }
                    lemma_intern_index_first(t, name@, i as int);
                }
                return i;
            }
            i = i + 1;
        }
        proof {
            assert(forall|j: int| 0 <= j < t.len() ==> t[j] != name@);
            assert(!t.contains(name@));
            lemma_intern_index_absent(t, name@);
        }
        let idx = self.symbols.len();
        self.symbols.push(name);
        proof {
            assert(self.table() =~= t.push(name@));
        }
        idx
    }

    /// Index `n` as a unary numeral term.
    pub fn code_natural(&mut self, n: usize) -> (r: Expr)
        ensures
            final(self).table() == old(self).table(),
            r@ == numeral(n as nat),
    {
        numeral_expr(n)
    }

    /// A list of already-encoded terms as `Cons`/`Nil` cells.
    pub fn code_list(&mut self, es: Vec<Expr>) -> (r: Expr)
        ensures
            final(self).table() == old(self).table(),
            r@ == code_list_spec(exprs_view(es@)),
        decreases es@,
    {
        let mut rest = es;
        if rest.len() == 0 {
            proof {
                assert(exprs_view(Seq::<Expr>::empty()) =~= Seq::<SpecExpr>::empty());
            }
            Expr::Const(Constructor(String::from_str("Nil")), Vec::new())
        } else {
            let ghost all = rest@;
            let e0 = rest.remove(0);
            proof {
                assert(rest@ == all.drop_first());
                assert(exprs_view(all)[0] == expr_view(e0));
                assert(exprs_view(all).drop_first() =~= exprs_view(all.drop_first()));
            }
            let tail = self.code_list(rest);
            let ghost e0v = e0@;
            let ghost tailv = tail@;
            let mut args: Vec<Expr> = Vec::new();
            args.push(e0);
            args.push(tail);
            proof {
                assert(exprs_view(args@) =~= seq![e0v, tailv]) by {
                    reveal_with_fuel(exprs_view, 4);
                    assert(args@.drop_first() =~= seq![args@[1]]);
                    assert(args@.drop_first().drop_first() =~= Seq::<Expr>::empty());
                }
            }
            Expr::Const(Constructor(String::from_str("Cons")), args)
        }
    }

    /// The numeral of a constructor name, interning it if new.
    pub fn code_constructor(&mut self, c: Constructor) -> (r: Expr)
        ensures
            final(self).table() == intern_table(old(self).table(), c@),
            r@ == numeral(intern_index(old(self).table(), c@) as nat),
    {
        let Constructor(name) = c;
        let idx = self.intern(name);
        self.code_natural(idx)
    }

    /// The numeral of a variable name, interning it if new.  Variables and
    /// constructors share one table: equal text means equal code.
    pub fn code_variable(&mut self, v: Variable) -> (r: Expr)
        ensures
            final(self).table() == intern_table(old(self).table(), v@),
            r@ == numeral(intern_index(old(self).table(), v@) as nat),
    {
        let Variable(name) = v;
        let idx = self.intern(name);
        self.code_natural(idx)
    }

    /// Compile one quoted fragment into a constructor tree; a quotation
    /// nested inside the fragment is rejected.
    pub fn code_literal(&mut self, literal: CodedLiteral) -> (r: Result<Expr, Error>)
        ensures
            match r {
                Ok(e) => encode(old(self).table(), literal@) == Some(
                    (final(self).table(), e@),
                ),
                Err(err) => {
                    &&& err@ == SpecError::NestedQuotation
                    &&& encode(old(self).table(), literal@) == None::<(Seq<Seq<char>>, SpecExpr)>
                },
            },
    {
        match literal {
            CodedLiteral::Expr(e) => self.code_meta(e),
        }
    }

    /// Compile one quoted meta expression.
    fn code_meta(&mut self, expr: MetaExpr) -> (r: Result<Expr, Error>)
        ensures
            match r {
                Ok(e) => encode(old(self).table(), expr@) == Some((final(self).table(), e@)),
                Err(err) => {
                    &&& err@ == SpecError::NestedQuotation
                    &&& encode(old(self).table(), expr@) == None::<(Seq<Seq<char>>, SpecExpr)>
                },
            },
        decreases expr,
    {
        match expr {
            MetaExpr::Apply(e1, e2) => {
                let c1 = match self.code_meta(*e1) {
                    Ok(c) => c,
                    Err(err) => {
                        return Err(err);
                    }
                };
                let c2 = match self.code_meta(*e2) {
                    Ok(c) => c,
                    Err(err) => {
                        return Err(err);
                    }
                };
                Ok(tag_pair("Apply", c1, c2))
            }
            MetaExpr::Lambda(x, e) => {
                let cx = self.code_variable(x);
                let c2 = match self.code_meta(*e) {
                    Ok(c) => c,
                    Err(err) => {
                        return Err(err);
                    }
                };
                Ok(tag_pair("Lambda", cx, c2))
            }
            MetaExpr::Case(s, branches) => {
                let c1 = match self.code_meta(*s) {
                    Ok(c) => c,
                    Err(err) => {
                        return Err(err);
                    }
                };
                let cbs = match self.code_meta_branches(branches) {
                    Ok(cs) => cs,
                    Err(err) => {
                        return Err(err);
                    }
                };
                let lst = self.code_list(cbs);
                Ok(tag_pair("Case", c1, lst))
            }
            MetaExpr::Rec(x, e) => {
                let cx = self.code_variable(x);
                let c2 = match self.code_meta(*e) {
                    Ok(c) => c,
                    Err(err) => {
                        return Err(err);
                    }
                };
                Ok(tag_pair("Rec", cx, c2))
            }
            MetaExpr::Var(x) => {
                let cx = self.code_variable(x);
                let ghost cxv = cx@;
                let mut args: Vec<Expr> = Vec::new();
                args.push(cx);
                proof {
                    reveal_with_fuel(exprs_view, 3);
                    assert(args@.drop_first() =~= Seq::<Expr>::empty());
                    assert(exprs_view(args@) =~= seq![cxv]);
                }
                Ok(Expr::Const(Constructor(String::from_str("Var")), args))
            }
            MetaExpr::Const(c, es) => {
                let cc = self.code_constructor(c);
                let ces = match self.code_meta_list(es) {
                    Ok(cs) => cs,
                    Err(err) => {
                        return Err(err);
                    }
                };
                let lst = self.code_list(ces);
                Ok(tag_pair("Const", cc, lst))
            }
            MetaExpr::Coded(_) => Err(Error { kind: ErrorKind::NestedQuotation }),
        }
    }

    /// Compile a list of quoted fragments left to right.
    fn code_meta_list(&mut self, es: Vec<MetaExpr>) -> (r: Result<Vec<Expr>, Error>)
        ensures
            match r {
                Ok(vs) => encode_list(old(self).table(), metas_view(es@)) == Some(
                    (final(self).table(), exprs_view(vs@)),
                ),
                Err(err) => {
                    &&& err@ == SpecError::NestedQuotation
                    &&& encode_list(old(self).table(), metas_view(es@)) == None::<(Seq<Seq<char>>, Seq<SpecExpr>)>
                },
            },
        decreases es@,
    {
        let mut rest = es;
        if rest.len() == 0 {
            Ok(Vec::new())
        } else {
            let ghost all = rest@;
            let e0 = rest.remove(0);
            proof {
                assert(rest@ == all.drop_first());
                assert(metas_view(all)[0] == meta_view(e0));
                assert(metas_view(all).drop_first() =~= metas_view(all.drop_first()));
            }
            let first = match self.code_meta(e0) {
                Ok(c) => c,
                Err(err) => {
                    return Err(err);
                }
            };
            let mut tail = match self.code_meta_list(rest) {
                Ok(cs) => cs,
                Err(err) => {
                    return Err(err);
                }
            };
            let ghost tailv = tail@;
            let mut out: Vec<Expr> = Vec::new();
            out.push(first);
            out.append(&mut tail);
            proof {
                assert(out@[0] == first);
                assert(out@.drop_first() =~= tailv);
            }
            Ok(out)
        }
    }

    /// Compile a list of quoted branches left to right.
    fn code_meta_branches(&mut self, bs: Vec<Branch<MetaExpr>>) -> (r: Result<Vec<Expr>, Error>)
        ensures
            match r {
                Ok(vs) => encode_branches(old(self).table(), meta_branches_view(bs@)) == Some(
                    (final(self).table(), exprs_view(vs@)),
                ),
                Err(err) => {
                    &&& err@ == SpecError::NestedQuotation
                    &&& encode_branches(old(self).table(), meta_branches_view(bs@)) == None::<(Seq<Seq<char>>, Seq<SpecExpr>)>
                },
            },
        decreases bs@,
    {
        let mut rest = bs;
        if rest.len() == 0 {
            Ok(Vec::new())
        } else {
            let ghost all = rest@;
            let b0 = rest.remove(0);
            proof {
                assert(rest@ == all.drop_first());
                assert(meta_branches_view(all)[0] == meta_branch_view(b0));
                assert(meta_branches_view(all).drop_first() =~= meta_branches_view(
                    all.drop_first(),
                ));
            }
            let first = match self.code_meta_branch(b0) {
                Ok(c) => c,
                Err(err) => {
                    return Err(err);
                }
            };
            let mut tail = match self.code_meta_branches(rest) {
                Ok(cs) => cs,
                Err(err) => {
                    return Err(err);
                }
            };
            let ghost tailv = tail@;
            let mut out: Vec<Expr> = Vec::new();
            out.push(first);
            out.append(&mut tail);
            proof {
                assert(out@[0] == first);
                assert(out@.drop_first() =~= tailv);
            }
            Ok(out)
        }
    }

    /// Compile one quoted branch: constructor numeral, bound-variable
    /// numeral list, encoded body.
    fn code_meta_branch(&mut self, b: Branch<MetaExpr>) -> (r: Result<Expr, Error>)
        ensures
            match r {
                Ok(e) => encode_branch(old(self).table(), meta_branch_view(b)) == Some(
                    (final(self).table(), e@),
                ),
                Err(err) => {
                    &&& err@ == SpecError::NestedQuotation
                    &&& encode_branch(old(self).table(), meta_branch_view(b)) == None::<(Seq<Seq<char>>, SpecExpr)>
                },
            },
        decreases b,
    {
        let Branch(c, vars, body) = b;
        let cc = self.code_constructor(c);
        let cvs = self.code_vars(vars);
        let lst = self.code_list(cvs);
        let cb = match self.code_meta(body) {
            Ok(e) => e,
            Err(err) => {
                return Err(err);
            }
        };
        let ghost ccv = cc@;
        let ghost lstv = lst@;
        let ghost cbv = cb@;
        let mut args: Vec<Expr> = Vec::new();
        args.push(cc);
        args.push(lst);
        args.push(cb);
        proof {
            assert(exprs_view(args@) =~= seq![ccv, lstv, cbv]) by {
                reveal_with_fuel(exprs_view, 5);
                assert(args@.drop_first() =~= seq![args@[1], args@[2]]);
                assert(args@.drop_first().drop_first() =~= seq![args@[2]]);
                assert(args@.drop_first().drop_first().drop_first() =~= Seq::<Expr>::empty());
            }
        }
        Ok(Expr::Const(Constructor(String::from_str("Branch")), args))
    }

    /// Intern a list of variables left to right, yielding their numerals.
    fn code_vars(&mut self, vars: Vec<Variable>) -> (r: Vec<Expr>)
        ensures
            intern_syms(old(self).table(), vars_view(vars@)) == (
                final(self).table(),
                exprs_view(r@),
            ),
        decreases vars@,
    {
        let mut rest = vars;
        if rest.len() == 0 {
            let r: Vec<Expr> = Vec::new();
            proof {
                assert(vars_view(Seq::<Variable>::empty()) =~= Seq::<Seq<char>>::empty());
                assert(exprs_view(r@) =~= Seq::<SpecExpr>::empty());
            }
            r
        } else {
            let ghost all = rest@;
            let v0 = rest.remove(0);
            proof {
                assert(rest@ == all.drop_first());
                assert(vars_view(all)[0] == v0@);
                assert(vars_view(all).drop_first() =~= vars_view(all.drop_first()));
            }
            let first = self.code_variable(v0);
            let mut tail = self.code_vars(rest);
            let ghost tailv = tail@;
            let mut out: Vec<Expr> = Vec::new();
            out.push(first);
            out.append(&mut tail);
            proof {
                assert(out@[0] == first);
                assert(out@.drop_first() =~= tailv);
            }
            out
        }
    }

    /// The discovered symbol legend: each interned name, in order of first
    /// appearance, paired with the numeral it encodes to.
    pub fn defined_symbols(&self) -> (r: Vec<(String, Expr)>)
        ensures
            r@.len() == self.table().len(),
            forall|i: int| 0 <= i < r@.len()
                ==> (#[trigger] r@[i]).0@ == self.table()[i] && r@[i].1@ == numeral(i as nat),
    {
        let mut out: Vec<(String, Expr)> = Vec::new();
        let mut i: usize = 0;
        while i < self.symbols.len()
            invariant
                i <= self.symbols@.len(),
                out@.len() == i,
                self.table().len() == self.symbols@.len(),
                forall|j: int| 0 <= j < self.symbols@.len()
                    ==> self.table()[j] == #[trigger] self.symbols@[j]@,
                forall|j: int| 0 <= j < i
                    ==> (#[trigger] out@[j]).0@ == self.table()[j] && out@[j].1@ == numeral(
                        j as nat,
                    ),
            decreases self.symbols@.len() - i,
        {
            let name = self.symbols[i].clone();
            let num = numeral_expr(i);
            out.push((name, num));
            i = i + 1;
        }
        out
    }
}

impl Default for StandardCoder {
    /// A fresh coder with an empty table.
    fn default() -> (r: StandardCoder)
        ensures
            r.table() == Seq::<Seq<char>>::empty(),
    {
        StandardCoder::new()
    }
}

/// Index `n` as a unary numeral term.
fn numeral_expr(n: usize) -> (r: Expr)
    ensures
        r@ == numeral(n as nat),
    decreases n,
{
    if n == 0 {
        proof {
            assert(exprs_view(Seq::<Expr>::empty()) =~= Seq::<SpecExpr>::empty());
        }
        Expr::Const(Constructor(String::from_str("Zero")), Vec::new())
    } else {
        let inner = numeral_expr(n - 1);
        let ghost innerv = inner@;
        let mut args: Vec<Expr> = Vec::new();
        args.push(inner);
        proof {
            reveal_with_fuel(exprs_view, 3);
            assert(args@.drop_first() =~= Seq::<Expr>::empty());
            assert(exprs_view(args@) =~= seq![innerv]);
        }
        Expr::Const(Constructor(String::from_str("Suc")), args)
    }
}

/// A two-argument tagged constructor cell.
fn tag_pair(tag: &str, a: Expr, b: Expr) -> (r: Expr)
    ensures
        r@ == SpecExpr::Const(tag@, seq![a@, b@]),
{
    let ghost av = a@;
    let ghost bv = b@;
    let mut args: Vec<Expr> = Vec::new();
    args.push(a);
    args.push(b);
    proof {
        assert(exprs_view(args@) =~= seq![av, bv]) by {
            reveal_with_fuel(exprs_view, 4);
            assert(args@.drop_first() =~= seq![args@[1]]);
            assert(args@.drop_first().drop_first() =~= Seq::<Expr>::empty());
        }
    }
    Expr::Const(Constructor(String::from_str(tag)), args)
}

/// In a table whose entries before `i` all differ from `name` and whose
/// entry at `i` equals it, the code of `name` is `i`.
proof fn lemma_intern_index_first(table: Seq<Seq<char>>, name: Seq<char>, i: int)
    requires
        0 <= i < table.len(),
        table[i] == name,
        forall|j: int| 0 <= j < i ==> table[j] != name,
    ensures
        intern_index(table, name) == i,
    decreases table,
{
    if i > 0 {
        lemma_intern_index_first(table.drop_first(), name, i - 1);
    }
}

/// In a table with no entry equal to `name`, the code of `name` is the
/// table's length.
proof fn lemma_intern_index_absent(table: Seq<Seq<char>>, name: Seq<char>)
    requires
        forall|j: int| 0 <= j < table.len() ==> table[j] != name,
    ensures
        intern_index(table, name) == table.len(),
    decreases table,
{
    if table.len() > 0 {
        lemma_intern_index_absent(table.drop_first(), name);
    }
}

/// Rewrite one meta expression, compiling quoted fragments through the
/// coder and keeping every other node.
fn to_expr(expr: MetaExpr, coder: &mut StandardCoder) -> (r: Result<Expr, Error>)
    ensures
        match r {
            Ok(e) => to_expr_spec(old(coder).table(), expr@) == Some((final(coder).table(), e@)),
            Err(err) => {
                &&& err@ == SpecError::NestedQuotation
                &&& to_expr_spec(old(coder).table(), expr@) == None::<(Seq<Seq<char>>, SpecExpr)>
            },
        },
    decreases expr,
{
    match expr {
        MetaExpr::Apply(e1, e2) => {
            let c1 = match to_expr(*e1, coder) {
                Ok(c) => c,
                Err(err) => {
                    return Err(err);
                }
            };
            let c2 = match to_expr(*e2, coder) {
                Ok(c) => c,
                Err(err) => {
                    return Err(err);
                }
            };
            Ok(Expr::Apply(Box::new(c1), Box::new(c2)))
        }
        MetaExpr::Lambda(x, e) => {
            let c1 = match to_expr(*e, coder) {
                Ok(c) => c,
                Err(err) => {
                    return Err(err);
                }
            };
            Ok(Expr::Lambda(x, Box::new(c1)))
        }
        MetaExpr::Case(s, branches) => {
            let c1 = match to_expr(*s, coder) {
                Ok(c) => c,
                Err(err) => {
                    return Err(err);
                }
            };
            let cs = match to_branches(branches, coder) {
                Ok(cs) => cs,
                Err(err) => {
                    return Err(err);
                }
            };
            Ok(Expr::Case(Box::new(c1), cs))
        }
        MetaExpr::Rec(x, e) => {
            let c1 = match to_expr(*e, coder) {
                Ok(c) => c,
                Err(err) => {
                    return Err(err);
                }
            };
            Ok(Expr::Rec(x, Box::new(c1)))
        }
        MetaExpr::Var(x) => Ok(Expr::Var(x)),
        MetaExpr::Const(c, es) => {
            let cs = match to_exprs(es, coder) {
                Ok(cs) => cs,
                Err(err) => {
                    return Err(err);
                }
            };
            Ok(Expr::Const(c, cs))
        }
        MetaExpr::Coded(literal) => coder.code_literal(*literal),
    }
}

/// Rewrite a list of meta expressions left to right.
fn to_exprs(es: Vec<MetaExpr>, coder: &mut StandardCoder) -> (r: Result<Vec<Expr>, Error>)
    ensures
        match r {
            Ok(vs) => to_exprs_spec(old(coder).table(), metas_view(es@)) == Some(
                (final(coder).table(), exprs_view(vs@)),
            ),
            Err(err) => {
                &&& err@ == SpecError::NestedQuotation
                &&& to_exprs_spec(old(coder).table(), metas_view(es@)) == None::<(Seq<Seq<char>>, Seq<SpecExpr>)>
            },
        },
    decreases es@,
{
    let mut rest = es;
    if rest.len() == 0 {
        Ok(Vec::new())
    } else {
        let ghost all = rest@;
        let e0 = rest.remove(0);
        proof {
            assert(rest@ == all.drop_first());
            assert(metas_view(all)[0] == meta_view(e0));
            assert(metas_view(all).drop_first() =~= metas_view(all.drop_first()));
        }
        let first = match to_expr(e0, coder) {
            Ok(c) => c,
            Err(err) => {
                return Err(err);
            }
        };
        let mut tail = match to_exprs(rest, coder) {
            Ok(cs) => cs,
            Err(err) => {
                return Err(err);
            }
        };
        let ghost tailv = tail@;
        let mut out: Vec<Expr> = Vec::new();
        out.push(first);
        out.append(&mut tail);
        proof {
            assert(out@[0] == first);
            assert(out@.drop_first() =~= tailv);
        }
        Ok(out)
    }
}

/// Rewrite a list of branches left to right.
fn to_branches(bs: Vec<Branch<MetaExpr>>, coder: &mut StandardCoder) -> (r: Result<
    Vec<Branch<Expr>>,
    Error,
>)
    ensures
        match r {
            Ok(vs) => to_branches_spec(old(coder).table(), meta_branches_view(bs@)) == Some(
                (final(coder).table(), crate::term::branches_view(vs@)),
            ),
            Err(err) => {
                &&& err@ == SpecError::NestedQuotation
                &&& to_branches_spec(old(coder).table(), meta_branches_view(bs@)) == None::<(Seq<Seq<char>>, Seq<SpecBranch<SpecExpr>>)>
            },
        },
    decreases bs@,
{
    let mut rest = bs;
    if rest.len() == 0 {
        Ok(Vec::new())
    } else {
        let ghost all = rest@;
        let b0 = rest.remove(0);
        proof {
            assert(rest@ == all.drop_first());
            assert(meta_branches_view(all)[0] == meta_branch_view(b0));
            assert(meta_branches_view(all).drop_first() =~= meta_branches_view(all.drop_first()));
        }
        let first = match to_branch(b0, coder) {
            Ok(b) => b,
            Err(err) => {
                return Err(err);
            }
        };
        let mut tail = match to_branches(rest, coder) {
            Ok(cs) => cs,
            Err(err) => {
                return Err(err);
            }
        };
        let ghost tailv = tail@;
        let mut out: Vec<Branch<Expr>> = Vec::new();
        out.push(first);
        out.append(&mut tail);
        proof {
            assert(out@[0] == first);
            assert(out@.drop_first() =~= tailv);
        }
        Ok(out)
    }
}

/// Rewrite one branch: its body is rewritten, its names are kept.
fn to_branch(b: Branch<MetaExpr>, coder: &mut StandardCoder) -> (r: Result<Branch<Expr>, Error>)
    ensures
        match r {
            Ok(rb) => to_branch_spec(old(coder).table(), meta_branch_view(b)) == Some(
                (final(coder).table(), branch_view(rb)),
            ),
            Err(err) => {
                &&& err@ == SpecError::NestedQuotation
                &&& to_branch_spec(old(coder).table(), meta_branch_view(b)) == None::<(Seq<Seq<char>>, SpecBranch<SpecExpr>)>
            },
        },
    decreases b,
{
    let Branch(c, vars, body) = b;
    let cb = match to_expr(body, coder) {
        Ok(e) => e,
        Err(err) => {
            return Err(err);
        }
    };
    Ok(Branch(c, vars, cb))
}

/// Convert a whole program of meta expressions into one of plain Chi
/// expressions by compiling every quoted fragment into a constructor tree.
/// Names anywhere in the program are interned into the one table the given
/// coder carries, so identical names map to identical codes.
pub fn replace_coded_literals(program: Program<MetaExpr>, coder: &mut StandardCoder) -> (r: Result<
    Program<Expr>,
    Error,
>)
    ensures
        match r {
            Ok(p) => replace_spec(old(coder).table(), program@) == Some(
                (final(coder).table(), p@),
            ),
            Err(err) => {
                &&& err@ == SpecError::NestedQuotation
                &&& replace_spec(old(coder).table(), program@) == None::<(Seq<Seq<char>>, SpecProgram<SpecExpr>)>
            },
        },
    decreases program,
{
    match program {
        Program::Let(x, e, rest) => {
            let c1 = match to_expr(e, coder) {
                Ok(c) => c,
                Err(err) => {
                    return Err(err);
                }
            };
            let cs = match replace_coded_literals(*rest, coder) {
                Ok(p) => p,
                Err(err) => {
                    return Err(err);
                }
            };
            Ok(Program::Let(x, c1, Box::new(cs)))
        }
        Program::Expr(e) => {
            match to_expr(e, coder) {
                Ok(c) => Ok(Program::Expr(c)),
                Err(err) => Err(err),
            }
        }
    }
}

/// Into an empty table, any name interns at index zero: the first symbol a
/// program rewrite meets is always encoded as `Zero()`.
pub proof fn lemma_first_symbol_code_zero(name: Seq<char>)
    ensures
        intern_index(Seq::<Seq<char>>::empty(), name) == 0,
        numeral(intern_index(Seq::<Seq<char>>::empty(), name) as nat) == SpecExpr::Const(
            "Zero"@,
            Seq::<SpecExpr>::empty(),
        ),
{
}

/// A known name interns to its existing code and leaves the table exactly
/// as it is.
pub proof fn lemma_intern_known_name(table: Seq<Seq<char>>, name: Seq<char>)
    requires
        table.contains(name),
    ensures
        intern_table(table, name) == table,
{
}

/// Appending entries to a table never changes the code of a name that is
/// already in it.
pub proof fn lemma_intern_index_stable(t1: Seq<Seq<char>>, t2: Seq<Seq<char>>, name: Seq<char>)
    requires
        t1.contains(name),
        t1.is_prefix_of(t2),
    ensures
        t2.contains(name),
        intern_index(t2, name) == intern_index(t1, name),
    decreases t1,
{
    let i = choose|i: int| 0 <= i < t1.len() && t1[i] == name;
    assert(t2[i] == t1[i]);
    assert(t2.contains(name));
    if t1[0] == name {
        assert(t2[0] == name);
    } else {
        assert(t1.drop_first()[i - 1] == name);
        assert(t1.drop_first().contains(name));
        assert(t1.drop_first().is_prefix_of(t2.drop_first())) by {
            assert(t1.drop_first() =~= t2.drop_first().subrange(0, t1.drop_first().len() as int));
        }
        lemma_intern_index_stable(t1.drop_first(), t2.drop_first(), name);
        assert(t2[0] == t1[0]);
    }
}

/// Coder determinism: once a symbol has been interned, every later
/// interning in the same rewrite — the table only ever grows, see
/// `lemma_encode_extends` — yields the identical numeral.
pub proof fn lemma_coder_deterministic(t1: Seq<Seq<char>>, t2: Seq<Seq<char>>, name: Seq<char>)
    requires
        t1.contains(name),
        t1.is_prefix_of(t2),
    ensures
        intern_table(t2, name) == t2,
        numeral(intern_index(t2, name) as nat) == numeral(intern_index(t1, name) as nat),
{
    lemma_intern_index_stable(t1, t2, name);
}

/// Interning a name only ever appends to the table.
proof fn lemma_intern_table_extends(table: Seq<Seq<char>>, name: Seq<char>)
    ensures
        table.is_prefix_of(intern_table(table, name)),
{
    if !table.contains(name) {
        assert(table =~= table.push(name).subrange(0, table.len() as int));
    } else {
        assert(table =~= table.subrange(0, table.len() as int));
    }
}

/// The prefix order on tables is transitive.
proof fn lemma_prefix_transitive(a: Seq<Seq<char>>, b: Seq<Seq<char>>, c: Seq<Seq<char>>)
    requires
        a.is_prefix_of(b),
        b.is_prefix_of(c),
    ensures
        a.is_prefix_of(c),
{
    assert(a =~= c.subrange(0, a.len() as int));
}

/// A table is a prefix of itself.
proof fn lemma_prefix_reflexive(a: Seq<Seq<char>>)
    ensures
        a.is_prefix_of(a),
{
    assert(a =~= a.subrange(0, a.len() as int));
}

/// The quotation compiler only appends to the interning table: whatever it
/// encodes, the table it started from stays a prefix of the one it ends
/// with.
pub proof fn lemma_encode_extends(table: Seq<Seq<char>>, m: SpecMetaExpr)
    ensures
        encode(table, m) matches Some((t, _)) ==> table.is_prefix_of(t),
    decreases m,
{
    match m {
        SpecMetaExpr::Apply(e1, e2) => {
            lemma_encode_extends(table, *e1);
            match encode(table, *e1) {
                Some((t1, _)) => {
                    lemma_encode_extends(t1, *e2);
                    match encode(t1, *e2) {
                        Some((t2, _)) => {
                            lemma_prefix_transitive(table, t1, t2);
                        }
                        None => {}
                    }
                }
                None => {}
            }
        }
        SpecMetaExpr::Lambda(x, e) => {
            lemma_intern_table_extends(table, x);
            lemma_encode_extends(intern_table(table, x), *e);
            match encode(intern_table(table, x), *e) {
                Some((t2, _)) => {
                    lemma_prefix_transitive(table, intern_table(table, x), t2);
                }
                None => {}
            }
        }
        SpecMetaExpr::Case(s, bs) => {
            lemma_encode_extends(table, *s);
            match encode(table, *s) {
                Some((t1, _)) => {
                    lemma_encode_branches_extends(t1, bs);
                    match encode_branches(t1, bs) {
                        Some((t2, _)) => {
                            lemma_prefix_transitive(table, t1, t2);
                        }
                        None => {}
                    }
                }
                None => {}
            }
        }
        SpecMetaExpr::Rec(x, e) => {
            lemma_intern_table_extends(table, x);
            lemma_encode_extends(intern_table(table, x), *e);
            match encode(intern_table(table, x), *e) {
                Some((t2, _)) => {
                    lemma_prefix_transitive(table, intern_table(table, x), t2);
                }
                None => {}
            }
        }
        SpecMetaExpr::Var(x) => {
            lemma_intern_table_extends(table, x);
        }
        SpecMetaExpr::Const(c, es) => {
            lemma_intern_table_extends(table, c);
            lemma_encode_list_extends(intern_table(table, c), es);
            match encode_list(intern_table(table, c), es) {
                Some((t2, _)) => {
                    lemma_prefix_transitive(table, intern_table(table, c), t2);
                }
                None => {}
            }
        }
        SpecMetaExpr::Coded(_) => {}
    }
}

/// As `lemma_encode_extends`, for a list of fragments.
proof fn lemma_encode_list_extends(table: Seq<Seq<char>>, es: Seq<SpecMetaExpr>)
    ensures
        encode_list(table, es) matches Some((t, _)) ==> table.is_prefix_of(t),
    decreases es,
{
    if es.len() == 0 {
        lemma_prefix_reflexive(table);
    } else {
        lemma_encode_extends(table, es[0]);
        match encode(table, es[0]) {
            Some((t1, _)) => {
                lemma_encode_list_extends(t1, es.drop_first());
                match encode_list(t1, es.drop_first()) {
                    Some((t2, _)) => {
                        lemma_prefix_transitive(table, t1, t2);
                    }
                    None => {}
                }
            }
            None => {}
        }
    }
}

/// As `lemma_encode_extends`, for a list of branches.
proof fn lemma_encode_branches_extends(table: Seq<Seq<char>>, bs: Seq<SpecBranch<SpecMetaExpr>>)
    ensures
        encode_branches(table, bs) matches Some((t, _)) ==> table.is_prefix_of(t),
    decreases bs,
{
    if bs.len() == 0 {
        lemma_prefix_reflexive(table);
    } else {
        lemma_encode_branch_extends(table, bs[0]);
        match encode_branch(table, bs[0]) {
            Some((t1, _)) => {
                lemma_encode_branches_extends(t1, bs.drop_first());
                match encode_branches(t1, bs.drop_first()) {
                    Some((t2, _)) => {
                        lemma_prefix_transitive(table, t1, t2);
                    }
                    None => {}
                }
            }
            None => {}
        }
    }
}

/// As `lemma_encode_extends`, for one branch.
proof fn lemma_encode_branch_extends(table: Seq<Seq<char>>, b: SpecBranch<SpecMetaExpr>)
    ensures
        encode_branch(table, b) matches Some((t, _)) ==> table.is_prefix_of(t),
    decreases b,
{
    lemma_intern_table_extends(table, b.ctor);
    let t1 = intern_table(table, b.ctor);
    lemma_intern_syms_extends(t1, b.vars);
    let (t2, _) = intern_syms(t1, b.vars);
    lemma_prefix_transitive(table, t1, t2);
    lemma_encode_extends(t2, b.body);
    match encode(t2, b.body) {
        Some((t3, _)) => {
            lemma_prefix_transitive(table, t2, t3);
        }
        None => {}
    }
}

/// Interning a list of names only ever appends to the table.
proof fn lemma_intern_syms_extends(table: Seq<Seq<char>>, names: Seq<Seq<char>>)
    ensures
        table.is_prefix_of(intern_syms(table, names).0),
    decreases names,
{
    if names.len() == 0 {
        lemma_prefix_reflexive(table);
    } else {
        lemma_intern_table_extends(table, names[0]);
        let t1 = intern_table(table, names[0]);
        lemma_intern_syms_extends(t1, names.drop_first());
        lemma_prefix_transitive(table, t1, intern_syms(t1, names.drop_first()).0);
    }
}

/// The whole rewrite of one meta expression only appends to the interning
/// table.
pub proof fn lemma_to_expr_extends(table: Seq<Seq<char>>, m: SpecMetaExpr)
    ensures
        to_expr_spec(table, m) matches Some((t, _)) ==> table.is_prefix_of(t),
    decreases m,
{
    match m {
        SpecMetaExpr::Apply(e1, e2) => {
            lemma_to_expr_extends(table, *e1);
            match to_expr_spec(table, *e1) {
                Some((t1, _)) => {
                    lemma_to_expr_extends(t1, *e2);
                    match to_expr_spec(t1, *e2) {
                        Some((t2, _)) => {
                            lemma_prefix_transitive(table, t1, t2);
                        }
                        None => {}
                    }
                }
                None => {}
            }
        }
        SpecMetaExpr::Lambda(_, e) => {
            lemma_to_expr_extends(table, *e);
        }
        SpecMetaExpr::Case(s, bs) => {
            lemma_to_expr_extends(table, *s);
            match to_expr_spec(table, *s) {
                Some((t1, _)) => {
                    lemma_to_branches_extends(t1, bs);
                    match to_branches_spec(t1, bs) {
                        Some((t2, _)) => {
                            lemma_prefix_transitive(table, t1, t2);
                        }
                        None => {}
                    }
                }
                None => {}
            }
        }
        SpecMetaExpr::Rec(_, e) => {
            lemma_to_expr_extends(table, *e);
        }
        SpecMetaExpr::Var(_) => {
            lemma_prefix_reflexive(table);
        }
        SpecMetaExpr::Const(_, es) => {
            lemma_to_exprs_extends(table, es);
        }
        SpecMetaExpr::Coded(p) => {
            lemma_encode_extends(table, *p);
        }
    }
}

/// As `lemma_to_expr_extends`, for a list of meta expressions.
proof fn lemma_to_exprs_extends(table: Seq<Seq<char>>, es: Seq<SpecMetaExpr>)
    ensures
        to_exprs_spec(table, es) matches Some((t, _)) ==> table.is_prefix_of(t),
    decreases es,
{
    if es.len() == 0 {
        lemma_prefix_reflexive(table);
    } else {
        lemma_to_expr_extends(table, es[0]);
        match to_expr_spec(table, es[0]) {
            Some((t1, _)) => {
                lemma_to_exprs_extends(t1, es.drop_first());
                match to_exprs_spec(t1, es.drop_first()) {
                    Some((t2, _)) => {
                        lemma_prefix_transitive(table, t1, t2);
                    }
                    None => {}
                }
            }
            None => {}
        }
    }
}

/// As `lemma_to_expr_extends`, for a list of branches.
proof fn lemma_to_branches_extends(table: Seq<Seq<char>>, bs: Seq<SpecBranch<SpecMetaExpr>>)
    ensures
        to_branches_spec(table, bs) matches Some((t, _)) ==> table.is_prefix_of(t),
    decreases bs,
{
    if bs.len() == 0 {
        lemma_prefix_reflexive(table);
    } else {
        lemma_to_expr_extends(table, bs[0].body);
        match to_branch_spec(table, bs[0]) {
            Some((t1, _)) => {
                lemma_to_branches_extends(t1, bs.drop_first());
                match to_branches_spec(t1, bs.drop_first()) {
                    Some((t2, _)) => {
                        lemma_prefix_transitive(table, t1, t2);
                    }
                    None => {}
                }
            }
            None => {}
        }
    }
}

/// The rewrite of a whole program only appends to the interning table: the
/// table any one symbol was first interned into stays a prefix of every
/// later table of the same rewrite, so with `lemma_coder_deterministic`
/// every later occurrence of that symbol encodes to the identical numeral.
pub proof fn lemma_replace_extends(table: Seq<Seq<char>>, p: SpecProgram<SpecMetaExpr>)
    ensures
        replace_spec(table, p) matches Some((t, _)) ==> table.is_prefix_of(t),
    decreases p,
{
    match p {
        SpecProgram::Let(_, rhs, rest) => {
            lemma_to_expr_extends(table, rhs);
            match to_expr_spec(table, rhs) {
                Some((t1, _)) => {
                    lemma_replace_extends(t1, *rest);
                    match replace_spec(t1, *rest) {
                        Some((t2, _)) => {
                            lemma_prefix_transitive(table, t1, t2);
                        }
                        None => {}
                    }
                }
                None => {}
            }
        }
        SpecProgram::Expr(e) => {
            lemma_to_expr_extends(table, e);
        }
    }
}

} // verus!
