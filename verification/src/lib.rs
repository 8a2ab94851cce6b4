//! An interpreter for Chi, a minimal untyped term-rewriting calculus with
//! lambda abstraction, explicit self-reference, algebraic constructors and
//! `case` dispatch, used for teaching computability.
//!
//! The crate covers the evaluation engine: the term model, capture-sensitive
//! substitution, depth-bounded reduction to normal form, and the quotation
//! compiler that turns quoted program fragments into ordinary data terms via
//! a symbol-interning unary encoding.  Tokenizing, grammar parsing and
//! diagnostic rendering are left to embedding hosts.
use vstd::prelude::*;
use vstd::string::StringExecFns;

mod coder;
mod error;
mod eval;
pub mod pretty;
mod term;

pub use coder::{
    code_list_spec, encode, encode_branch, encode_branches, encode_list, intern_index,
    intern_syms, intern_table, lemma_coder_deterministic, lemma_encode_extends,
    lemma_first_symbol_code_zero, lemma_intern_index_stable, lemma_intern_known_name,
    lemma_replace_extends, lemma_to_expr_extends, numeral, replace_coded_literals, replace_spec,
    to_expr_spec, StandardCoder,
};
pub use error::{message_spec, Error, ErrorKind, SpecError};
pub use eval::{
    all_values, desugar, eval, eval_args, eval_program, eval_spec, eval_with_limit, free_vars,
    free_vars_all, free_vars_branch, free_vars_branches, is_closed, is_value, lemma_eval_closed,
    lemma_eval_ok_is_value, lemma_rec_self_diverges, lemma_subst_free_vars,
    lemma_subst_shadowed_branch, lemma_subst_shadowed_lambda, lemma_subst_shadowed_rec,
    lets_count, lookup_branch, names_set, result_view, subst, subst_all, subst_branch,
    subst_branches, subst_pairs, subst_program, substitute, MAX_DEPTH,
};
pub use term::{
    branch_view, branches_view, coded_literal_view, expr_view, exprs_view, meta_branch_view,
    meta_branches_view, meta_view, metas_view, program_view, vars_view, Branch, CodedLiteral,
    Constructor, Expr, MetaExpr, Program, SpecBranch, SpecExpr, SpecMetaExpr, SpecProgram,
    Variable,
};

verus! {

/// Which rendering of a finished value an embedding host asks for.
#[derive(Debug, Clone, Copy, PartialEq, Eq, Structural)]
pub enum Printer {
    Concrete,
    Abstract,
    Debug,
}

impl Printer {
    /// The printer a mode name selects: exactly `concrete`, `abstract` or
    /// `debug`; any other name selects none.
    pub fn from_name(value: &str) -> (r: Option<Printer>)
        ensures
            value@ == "concrete"@ ==> r == Some(Printer::Concrete),
            value@ == "abstract"@ ==> r == Some(Printer::Abstract),
            value@ == "debug"@ ==> r == Some(Printer::Debug),
            value@ != "concrete"@ && value@ != "abstract"@ && value@ != "debug"@ ==> r
                == None::<Printer>,
    {
        proof {
            reveal_strlit("concrete");
            reveal_strlit("abstract");
            reveal_strlit("debug");
            assert("concrete"@[0] == 'c');
            assert("abstract"@[0] == 'a');
            assert("debug"@[0] == 'd');
            assert("concrete"@ != "abstract"@);
            assert("concrete"@ != "debug"@);
            assert("abstract"@ != "debug"@);
        }
        let v = String::from_str(value);
        if v == String::from_str("concrete") {
            Some(Printer::Concrete)
        } else if v == String::from_str("abstract") {
            Some(Printer::Abstract)
        } else if v == String::from_str("debug") {
            Some(Printer::Debug)
        } else {
            None
        }
    }
}

} // verus!
