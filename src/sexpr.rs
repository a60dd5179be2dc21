//! S-expression trees, as the `sexp` crate reads them from text.
use vstd::prelude::*;

verus! {

broadcast use vstd::std_specs::vec::group_vec_axioms;

/// An S-expression: a symbol, an integer, a real number (which no form of
/// the language accepts), or a list.
#[derive(Debug)]
pub enum SExpr {
    Sym(String),
    Int(i64),
    Real,
    List(Vec<SExpr>),
}

#[verifier::external_type_specification]
#[verifier::external_body]
pub struct ExSexp(sexp::Sexp);

/// The tree that `sexp::parse` reads from a text, if it reads one.
pub uninterp spec fn sexp_reading(text: Seq<char>) -> Option<SExpr>;

/// Relies on `sexp::parse`: the tree it reads from `text`, a function of
/// the text alone, or `None` where it reports a syntax error.
#[verifier::external_body]
pub(crate) fn read_sexp(text: &str) -> (r: Option<SExpr>)
    ensures
        r == sexp_reading(text@),
{
    sexp::parse(text).ok().map(|s| from_sexp(&s))
}

/// Relies on the shape of `sexp::Sexp`: moves its tree into an `SExpr`,
/// variant for variant (a float atom becomes `Real`).
#[verifier::external_body]
fn from_sexp(s: &sexp::Sexp) -> SExpr {
    match s {
        sexp::Sexp::Atom(sexp::Atom::S(x)) => SExpr::Sym(x.clone()),
        sexp::Sexp::Atom(sexp::Atom::I(n)) => SExpr::Int(*n),
        sexp::Sexp::Atom(sexp::Atom::F(_)) => SExpr::Real,
        sexp::Sexp::List(v) => SExpr::List(v.iter().map(from_sexp).collect()),
    }
}

} // verus!
