//! From S-expressions to the abstract syntax.
use vstd::prelude::*;

use crate::ast::{Expr, Func, Op1, Op2, Prog};
use crate::sexpr::{read_sexp, sexp_reading, SExpr};
use crate::value::{in_range, str_equal, INT_MAX, INT_MIN};

verus! {

broadcast use vstd::std_specs::vec::group_vec_axioms;

#[derive(Debug, Clone, Copy, PartialEq, Eq, Structural)]
pub enum ParseError {
    InvalidLiteral,
    InvalidBlock,
    InvalidLet,
    /// A `let` binding that is not a valid identifier and one expression.
    InvalidKeyword,
    InvalidSet,
    InvalidExpression,
    InvalidDefinition,
    InvalidProgram,
    /// Text that is not a well-formed S-expression.
    InvalidSexp,
}

/// Which form a list expression has, by its head symbol and length.
#[derive(Debug, Clone, Copy, PartialEq, Eq, Structural)]
pub enum Form {
    EmptyBlock,
    Block,
    EmptyTuple,
    Tuple,
    Unary(Op1),
    Binary(Op2),
    Let,
    Assign,
    TupleGet,
    TupleSet,
    Loop,
    Break,
    If,
    Call,
    Invalid,
}

/// Whether a character is alphabetic, as Unicode's `Alphabetic` property
/// says.
pub uninterp spec fn alphabetic(c: char) -> bool;

/// Relies on `char::is_alphabetic`.
#[verifier::external_body]
fn is_alphabetic(c: char) -> (r: bool)
    ensures
        r == alphabetic(c),
{
    c.is_alphabetic()
}

pub open spec fn op1_of(s: Seq<char>) -> Option<Op1> {
    if s == "add1"@ {
        Some(Op1::Add1)
    } else if s == "sub1"@ {
        Some(Op1::Sub1)
    } else if s == "isnum"@ {
        Some(Op1::IsNum)
    } else if s == "isbool"@ {
        Some(Op1::IsBool)
    } else if s == "istuple"@ {
        Some(Op1::IsTuple)
    } else if s == "print"@ {
        Some(Op1::Print)
    } else {
        None
    }
}

pub open spec fn op2_of(s: Seq<char>) -> Option<Op2> {
    if s == "+"@ {
        Some(Op2::Plus)
    } else if s == "-"@ {
        Some(Op2::Minus)
    } else if s == "*"@ {
        Some(Op2::Times)
    } else if s == "<"@ {
        Some(Op2::Less)
    } else if s == ">"@ {
        Some(Op2::Greater)
    } else if s == "<="@ {
        Some(Op2::LessEqual)
    } else if s == ">="@ {
        Some(Op2::GreaterEqual)
    } else if s == "="@ {
        Some(Op2::StEq)
    } else if s == "=="@ {
        Some(Op2::Equal)
    } else {
        None
    }
}

pub open spec fn keyword(s: Seq<char>) -> bool {
    s == "true"@ || s == "false"@ || s == "input"@ || s == "let"@ || s == "if"@ || s == "block"@
        || s == "loop"@ || s == "break"@
}

/// A character that may follow the first of an identifier.
pub open spec fn id_char(c: char) -> bool {
    ('a' <= c <= 'z') || ('A' <= c <= 'Z') || ('0' <= c <= '9') || c == '-' || c == '_'
}

/// An identifier: alphabetic first, then ASCII letters, digits, `-` or `_`,
/// and no operator name or keyword.
pub open spec fn valid_id(s: Seq<char>) -> bool {
    &&& s.len() > 0
    &&& alphabetic(s[0])
    &&& forall|i: int| 1 <= i < s.len() ==> id_char(#[trigger] s[i])
    &&& op1_of(s) is None
    &&& op2_of(s) is None
    &&& !keyword(s)
}

pub open spec fn head(xs: Seq<SExpr>) -> Option<Seq<char>> {
    if xs.len() > 0 && xs[0] is Sym {
        Some(xs[0]->Sym_0@)
    } else {
        None
    }
}

pub open spec fn form_of(xs: Seq<SExpr>) -> Form {
    match head(xs) {
        None => Form::Invalid,
        Some(h) => {
            let n = xs.len();
            if h == "block"@ && n == 1 {
                Form::EmptyBlock
            } else if h == "block"@ {
                Form::Block
            } else if h == "tuple"@ && n == 1 {
                Form::EmptyTuple
            } else if h == "tuple"@ {
                Form::Tuple
            } else if n == 2 && op1_of(h) is Some {
                Form::Unary(op1_of(h)->Some_0)
            } else if n == 3 && op2_of(h) is Some {
                Form::Binary(op2_of(h)->Some_0)
            } else if n == 3 && h == "let"@ {
                Form::Let
            } else if n == 3 && h == "set!"@ {
                Form::Assign
            } else if n == 3 && h == "tuple-get"@ {
                Form::TupleGet
            } else if n == 4 && h == "tuple-set!"@ {
                Form::TupleSet
            } else if n == 2 && h == "loop"@ {
                Form::Loop
            } else if n == 2 && h == "break"@ {
                Form::Break
            } else if n == 4 && h == "if"@ {
                Form::If
            } else {
                Form::Call
            }
        },
    }
}

pub open spec fn first_of(a: Option<ParseError>, b: Option<ParseError>) -> Option<ParseError> {
    if a is Some {
        a
    } else {
        b
    }
}

/// The first error met when parsing `s` left to right, if any.
pub open spec fn expr_error(s: SExpr) -> Option<ParseError>
    decreases s,
{
    match s {
        SExpr::Int(n) => if in_range(n as int) {
            None
        } else {
            Some(ParseError::InvalidLiteral)
        },
        SExpr::Sym(_) => None,
        SExpr::Real => Some(ParseError::InvalidExpression),
        SExpr::List(xs) => match form_of(xs@) {
            Form::EmptyBlock => Some(ParseError::InvalidBlock),
            Form::Block => items_error(xs, 1),
            Form::EmptyTuple => None,
            Form::Tuple => items_error(xs, 1),
            Form::Call => items_error(xs, 1),
            Form::Unary(_) => expr_error(xs[1]),
            Form::Loop => expr_error(xs[1]),
            Form::Break => expr_error(xs[1]),
            Form::Binary(_) => first_of(expr_error(xs[1]), expr_error(xs[2])),
            Form::TupleGet => first_of(expr_error(xs[1]), expr_error(xs[2])),
            Form::TupleSet => first_of(
                expr_error(xs[1]),
                first_of(expr_error(xs[2]), expr_error(xs[3])),
            ),
            Form::If => first_of(
                expr_error(xs[1]),
                first_of(expr_error(xs[2]), expr_error(xs[3])),
            ),
            Form::Let => match xs[1] {
                SExpr::List(b) => if b.len() == 0 {
                    Some(ParseError::InvalidLet)
                } else {
                    first_of(binds_error(b, 0), expr_error(xs[2]))
                },
                _ => Some(ParseError::InvalidLet),
            },
            Form::Assign => match xs[1] {
                SExpr::Sym(_) => expr_error(xs[2]),
                _ => Some(ParseError::InvalidSet),
            },
            Form::Invalid => Some(ParseError::InvalidExpression),
        },
    }
}

/// The first error among the expressions of `xs` from `i` on.
pub open spec fn items_error(xs: Vec<SExpr>, i: int) -> Option<ParseError>
    decreases xs, xs.len() - i,
{
    if i < 0 || i >= xs.len() {
        None
    } else {
        first_of(expr_error(xs[i]), items_error(xs, i + 1))
    }
}

/// The error of one `let` binding, `(name expr)`.
pub open spec fn bind_error(s: SExpr) -> Option<ParseError>
    decreases s,
{
    match s {
        SExpr::List(p) => if p.len() == 2 && p[0] is Sym && valid_id(p[0]->Sym_0@) {
            expr_error(p[1])
        } else {
            Some(ParseError::InvalidKeyword)
        },
        _ => Some(ParseError::InvalidLet),
    }
}

/// The first error among the `let` bindings of `b` from `i` on.
pub open spec fn binds_error(b: Vec<SExpr>, i: int) -> Option<ParseError>
    decreases b, b.len() - i,
{
    if i < 0 || i >= b.len() {
        None
    } else {
        first_of(bind_error(b[i]), binds_error(b, i + 1))
    }
}

/// `e` is the syntax that `s` denotes (where `s` parses without error).
pub open spec fn parses(s: SExpr, e: Expr) -> bool
    decreases s,
{
    match s {
        SExpr::Int(n) => e == Expr::Number(n),
        SExpr::Sym(x) => if x@ == "false"@ {
            e == Expr::Boolean(false)
        } else if x@ == "true"@ {
            e == Expr::Boolean(true)
        } else {
            e == Expr::Id(x)
        },
        SExpr::Real => false,
        SExpr::List(xs) => match form_of(xs@) {
            Form::Block => e matches Expr::Block(es) && items_parse(xs, es),
            Form::EmptyTuple => e matches Expr::Tuple(es) && es.len() == 0,
            Form::Tuple => e matches Expr::Tuple(es) && items_parse(xs, es),
            Form::Call => e matches Expr::Call(f, es) && xs[0] == SExpr::Sym(f) && items_parse(
                xs,
                es,
            ),
            Form::Unary(o) => e matches Expr::UnOp(o2, a) && o2 == o && parses(xs[1], *a),
            Form::Loop => e matches Expr::Loop(a) && parses(xs[1], *a),
            Form::Break => e matches Expr::Break(a) && parses(xs[1], *a),
            Form::Binary(o) => e matches Expr::BinOp(o2, a, b) && o2 == o && parses(xs[1], *a)
                && parses(xs[2], *b),
            Form::TupleGet => e matches Expr::TupleGet(a, b) && parses(xs[1], *a) && parses(
                xs[2],
                *b,
            ),
            Form::TupleSet => e matches Expr::TupleSet(a, b, c) && parses(xs[1], *a) && parses(
                xs[2],
                *b,
            ) && parses(xs[3], *c),
            Form::If => e matches Expr::If(a, b, c) && parses(xs[1], *a) && parses(xs[2], *b)
                && parses(xs[3], *c),
            Form::Let => e matches Expr::Let(bs, body) && (xs[1] matches SExpr::List(b)
                && binds_parse(b, bs)) && parses(xs[2], *body),
            Form::Assign => e matches Expr::Assign(x, a) && xs[1] == SExpr::Sym(x) && parses(
                xs[2],
                *a,
            ),
            _ => false,
        },
    }
}

/// `es` are the expressions that the items of `xs` after its head denote.
pub open spec fn items_parse(xs: Vec<SExpr>, es: Vec<Expr>) -> bool
    decreases xs, 0int,
{
    es.len() + 1 == xs.len() && forall|i: int|
        0 <= i < es.len() ==> parses(xs[i + 1], #[trigger] es[i])
}

/// `bs` are the bindings that the pairs of `b` denote.
pub open spec fn binds_parse(b: Vec<SExpr>, bs: Vec<(String, Expr)>) -> bool
    decreases b, 0int,
{
    bs.len() == b.len() && forall|i: int| 0 <= i < bs.len() ==> bind_parses(b[i], #[trigger] bs[i])
}

pub open spec fn bind_parses(s: SExpr, x: (String, Expr)) -> bool
    decreases s,
{
    match s {
        SExpr::List(p) => p.len() == 2 && p[0] == SExpr::Sym(x.0) && parses(p[1], x.1),
        _ => false,
    }
}

/// What parsing `s` as an expression owes: the first error, or syntax that
/// `s` denotes.
pub open spec fn parsed(s: SExpr, r: Result<Expr, ParseError>) -> bool {
    match expr_error(s) {
        Some(err) => r == Err::<Expr, ParseError>(err),
        None => r matches Ok(e) && parses(s, e),
    }
}

/// A function definition `(fun (name params...) body)` with symbols for
/// its name and parameters, each a valid identifier.
pub open spec fn def_ok(s: SExpr) -> bool {
    &&& s is List
    &&& s->List_0.len() == 3
    &&& s->List_0[0] == SExpr::Sym(s->List_0[0]->Sym_0) && s->List_0[0]->Sym_0@ == "fun"@
    &&& s->List_0[1] is List
    &&& s->List_0[1]->List_0.len() > 0
    &&& s->List_0[1]->List_0[0] is Sym
    &&& valid_id(s->List_0[1]->List_0[0]->Sym_0@)
    &&& forall|i: int|
        1 <= i < s->List_0[1]->List_0.len() ==> (#[trigger] s->List_0[1]->List_0[i]) is Sym
            && valid_id(s->List_0[1]->List_0[i]->Sym_0@)
}

pub open spec fn func_error(s: SExpr) -> Option<ParseError> {
    if def_ok(s) {
        expr_error(s->List_0[2])
    } else {
        Some(ParseError::InvalidDefinition)
    }
}

pub open spec fn func_parses(s: SExpr, f: Func) -> bool {
    let params = s->List_0[1]->List_0;
    &&& def_ok(s)
    &&& f.name == params[0]->Sym_0
    &&& f.args.len() + 1 == params.len()
    &&& forall|i: int| 0 <= i < f.args.len() ==> params[i + 1] == SExpr::Sym(#[trigger] f.args[i])
    &&& parses(s->List_0[2], f.expr)
}

/// The first error among the definitions of `v` from `i` on (all items but
/// the last are definitions).
pub open spec fn funcs_error(v: Vec<SExpr>, i: int) -> Option<ParseError>
    decreases v.len() - i,
{
    if i < 0 || i >= v.len() - 1 {
        None
    } else {
        first_of(func_error(v[i]), funcs_error(v, i + 1))
    }
}

/// The first error in a whole program: its definitions in order, then the
/// main expression last.
pub open spec fn prog_error(s: SExpr) -> Option<ParseError> {
    match s {
        SExpr::List(v) => if v.len() == 0 {
            Some(ParseError::InvalidProgram)
        } else {
            first_of(funcs_error(v, 0), expr_error(v[v.len() - 1]))
        },
        _ => Some(ParseError::InvalidProgram),
    }
}

pub open spec fn prog_parses(s: SExpr, p: Prog) -> bool {
    s matches SExpr::List(v) && p.0.len() + 1 == v.len() && (forall|i: int|
        0 <= i < p.0.len() ==> func_parses(v[i], #[trigger] p.0[i])) && parses(
        v[v.len() - 1],
        p.1,
    )
}

fn op1_named(s: &str) -> (r: Option<Op1>)
    ensures
        r == op1_of(s@),
{
    if str_equal(s, "add1") {
        Some(Op1::Add1)
    } else if str_equal(s, "sub1") {
        Some(Op1::Sub1)
    } else if str_equal(s, "isnum") {
        Some(Op1::IsNum)
    } else if str_equal(s, "isbool") {
        Some(Op1::IsBool)
    } else if str_equal(s, "istuple") {
        Some(Op1::IsTuple)
    } else if str_equal(s, "print") {
        Some(Op1::Print)
    } else {
        None
    }
}

fn op2_named(s: &str) -> (r: Option<Op2>)
    ensures
        r == op2_of(s@),
{
    if str_equal(s, "+") {
        Some(Op2::Plus)
    } else if str_equal(s, "-") {
        Some(Op2::Minus)
    } else if str_equal(s, "*") {
        Some(Op2::Times)
    } else if str_equal(s, "<") {
        Some(Op2::Less)
    } else if str_equal(s, ">") {
        Some(Op2::Greater)
    } else if str_equal(s, "<=") {
        Some(Op2::LessEqual)
    } else if str_equal(s, ">=") {
        Some(Op2::GreaterEqual)
    } else if str_equal(s, "=") {
        Some(Op2::StEq)
    } else if str_equal(s, "==") {
        Some(Op2::Equal)
    } else {
        None
    }
}

fn is_keyword(s: &str) -> (r: bool)
    ensures
        r == keyword(s@),
{
    str_equal(s, "true") || str_equal(s, "false") || str_equal(s, "input") || str_equal(s, "let")
        || str_equal(s, "if") || str_equal(s, "block") || str_equal(s, "loop") || str_equal(
        s,
        "break",
    )
}

/// Whether `s` may name a variable.
pub fn check_id(s: &str) -> (r: bool)
    ensures
        r == valid_id(s@),
{
    let n = s.unicode_len();
    if n == 0 {
        return false;
    }
    if !is_alphabetic(s.get_char(0)) {
        return false;
    }
    let mut i: usize = 1;
    while i < n
        invariant
            n == s@.len(),
            1 <= i <= n,
            forall|j: int| 1 <= j < i ==> id_char(#[trigger] s@[j]),
        decreases n - i,
    {
        let c = s.get_char(i);
        if !(('a' <= c && c <= 'z') || ('A' <= c && c <= 'Z') || ('0' <= c && c <= '9') || c == '-'
            || c == '_') {
            return false;
        }
        i = i + 1;
    }
    op1_named(s).is_none() && op2_named(s).is_none() && !is_keyword(s)
}

/// Which form a list has.
fn classify(xs: &Vec<SExpr>) -> (r: Form)
    ensures
        r == form_of(xs@),
{
    if xs.len() == 0 {
        return Form::Invalid;
    }
    let h = match &xs[0] {
        SExpr::Sym(h) => h.as_str(),
        _ => {
            return Form::Invalid;
        },
    };
    let n = xs.len();
    if str_equal(h, "block") && n == 1 {
        Form::EmptyBlock
    } else if str_equal(h, "block") {
        Form::Block
    } else if str_equal(h, "tuple") && n == 1 {
        Form::EmptyTuple
    } else if str_equal(h, "tuple") {
        Form::Tuple
    } else if n == 2 && op1_named(h).is_some() {
        Form::Unary(op1_named(h).unwrap())
    } else if n == 3 && op2_named(h).is_some() {
        Form::Binary(op2_named(h).unwrap())
    } else if n == 3 && str_equal(h, "let") {
        Form::Let
    } else if n == 3 && str_equal(h, "set!") {
        Form::Assign
    } else if n == 3 && str_equal(h, "tuple-get") {
        Form::TupleGet
    } else if n == 4 && str_equal(h, "tuple-set!") {
        Form::TupleSet
    } else if n == 2 && str_equal(h, "loop") {
        Form::Loop
    } else if n == 2 && str_equal(h, "break") {
        Form::Break
    } else if n == 4 && str_equal(h, "if") {
        Form::If
    } else {
        Form::Call
    }
}

/// Parses an expression.
pub fn parse_expr(s: &SExpr) -> (r: Result<Expr, ParseError>)
    ensures
        parsed(*s, r),
    decreases s, 2int,
{
    match s {
        SExpr::Int(n) => {
            if *n < INT_MIN || *n > INT_MAX {
                Err(ParseError::InvalidLiteral)
            } else {
                Ok(Expr::Number(*n))
            }
        },
        SExpr::Sym(x) => {
            if str_equal(x.as_str(), "false") {
                Ok(Expr::Boolean(false))
            } else if str_equal(x.as_str(), "true") {
                Ok(Expr::Boolean(true))
            } else {
                Ok(Expr::Id(x.clone()))
            }
        },
        SExpr::Real => Err(ParseError::InvalidExpression),
        SExpr::List(xs) => {
            let form = classify(xs);
            match form {
                Form::EmptyBlock => Err(ParseError::InvalidBlock),
                Form::Invalid => Err(ParseError::InvalidExpression),
                Form::EmptyTuple => Ok(Expr::Tuple(Vec::new())),
                Form::Block => parse_list_form(s, form),
                Form::Tuple => parse_list_form(s, form),
                Form::Call => parse_list_form(s, form),
                Form::Unary(_) => parse_one_form(s, form),
                Form::Loop => parse_one_form(s, form),
                Form::Break => parse_one_form(s, form),
                Form::Binary(_) => parse_two_form(s, form),
                Form::TupleGet => parse_two_form(s, form),
                Form::TupleSet => parse_three_form(s, form),
                Form::If => parse_three_form(s, form),
                Form::Let => parse_let(s),
                Form::Assign => parse_assign(s),
            }
        },
    }
}

/// Parses a block, a non-empty tuple or a call.
fn parse_list_form(s: &SExpr, form: Form) -> (r: Result<Expr, ParseError>)
    requires
        s is List,
        form == form_of(s->List_0@),
        form == Form::Block || form == Form::Tuple || form == Form::Call,
    ensures
        parsed(*s, r),
    decreases s, 1int,
{
    match s {
        SExpr::List(xs) => {
            let es = match parse_items(xs) {
                Ok(es) => es,
                Err(x) => {
                    return Err(x);
                },
            };
            match form {
                Form::Block => Ok(Expr::Block(es)),
                Form::Tuple => Ok(Expr::Tuple(es)),
                _ => match &xs[0] {
                    SExpr::Sym(f) => Ok(Expr::Call(f.clone(), es)),
                    _ => Err(ParseError::InvalidExpression),
                },
            }
        },
        _ => Err(ParseError::InvalidExpression),
    }
}

/// Parses a unary operation, a loop or a break.
fn parse_one_form(s: &SExpr, form: Form) -> (r: Result<Expr, ParseError>)
    requires
        s is List,
        form == form_of(s->List_0@),
        form is Unary || form == Form::Loop || form == Form::Break,
    ensures
        parsed(*s, r),
    decreases s, 1int,
{
    match s {
        SExpr::List(xs) => {
            let a = match parse_expr(&xs[1]) {
                Ok(a) => a,
                Err(x) => {
                    return Err(x);
                },
            };
            match form {
                Form::Unary(o) => Ok(Expr::UnOp(o, Box::new(a))),
                Form::Loop => Ok(Expr::Loop(Box::new(a))),
                _ => Ok(Expr::Break(Box::new(a))),
            }
        },
        _ => Err(ParseError::InvalidExpression),
    }
}

/// Parses a binary operation or a `tuple-get`.
fn parse_two_form(s: &SExpr, form: Form) -> (r: Result<Expr, ParseError>)
    requires
        s is List,
        form == form_of(s->List_0@),
        form is Binary || form == Form::TupleGet,
    ensures
        parsed(*s, r),
    decreases s, 1int,
{
    match s {
        SExpr::List(xs) => {
            let a = match parse_expr(&xs[1]) {
                Ok(a) => a,
                Err(x) => {
                    return Err(x);
                },
            };
            let b = match parse_expr(&xs[2]) {
                Ok(b) => b,
                Err(x) => {
                    return Err(x);
                },
            };
            match form {
                Form::Binary(o) => Ok(Expr::BinOp(o, Box::new(a), Box::new(b))),
                _ => Ok(Expr::TupleGet(Box::new(a), Box::new(b))),
            }
        },
        _ => Err(ParseError::InvalidExpression),
    }
}

/// Parses a `tuple-set!` or an `if`.
fn parse_three_form(s: &SExpr, form: Form) -> (r: Result<Expr, ParseError>)
    requires
        s is List,
        form == form_of(s->List_0@),
        form == Form::TupleSet || form == Form::If,
    ensures
        parsed(*s, r),
    decreases s, 1int,
{
    match s {
        SExpr::List(xs) => {
            let a = match parse_expr(&xs[1]) {
                Ok(a) => a,
                Err(x) => {
                    return Err(x);
                },
            };
            let b = match parse_expr(&xs[2]) {
                Ok(b) => b,
                Err(x) => {
                    return Err(x);
                },
            };
            let c = match parse_expr(&xs[3]) {
                Ok(c) => c,
                Err(x) => {
                    return Err(x);
                },
            };
            match form {
                Form::TupleSet => Ok(Expr::TupleSet(Box::new(a), Box::new(b), Box::new(c))),
                _ => Ok(Expr::If(Box::new(a), Box::new(b), Box::new(c))),
            }
        },
        _ => Err(ParseError::InvalidExpression),
    }
}

fn parse_let(s: &SExpr) -> (r: Result<Expr, ParseError>)
    requires
        s is List,
        form_of(s->List_0@) == Form::Let,
    ensures
        parsed(*s, r),
    decreases s, 1int,
{
    match s {
        SExpr::List(xs) => match &xs[1] {
            SExpr::List(b) => {
                if b.len() == 0 {
                    return Err(ParseError::InvalidLet);
                }
                let bs = match parse_binds(b) {
                    Ok(bs) => bs,
                    Err(x) => {
                        return Err(x);
                    },
                };
                match parse_expr(&xs[2]) {
                    Ok(body) => Ok(Expr::Let(bs, Box::new(body))),
                    Err(x) => Err(x),
                }
            },
            _ => Err(ParseError::InvalidLet),
        },
        _ => Err(ParseError::InvalidExpression),
    }
}

fn parse_assign(s: &SExpr) -> (r: Result<Expr, ParseError>)
    requires
        s is List,
        form_of(s->List_0@) == Form::Assign,
    ensures
        parsed(*s, r),
    decreases s, 1int,
{
    match s {
        SExpr::List(xs) => match &xs[1] {
            SExpr::Sym(x) => match parse_expr(&xs[2]) {
                Ok(a) => Ok(Expr::Assign(x.clone(), Box::new(a))),
                Err(err) => Err(err),
            },
            _ => Err(ParseError::InvalidSet),
        },
        _ => Err(ParseError::InvalidExpression),
    }
}

/// Parses the items of a list after its head.
fn parse_items(xs: &Vec<SExpr>) -> (r: Result<Vec<Expr>, ParseError>)
    requires
        xs.len() >= 1,
    ensures
        match items_error(*xs, 1) {
            Some(err) => r == Err::<Vec<Expr>, ParseError>(err),
            None => r matches Ok(es) && items_parse(*xs, es),
        },
    decreases xs, 3int,
{
    let mut es: Vec<Expr> = Vec::new();
    let mut i: usize = 1;
    while i < xs.len()
        invariant
            1 <= i <= xs.len(),
            items_error(*xs, 1) == items_error(*xs, i as int),
            es.len() + 1 == i,
            forall|j: int| 0 <= j < es.len() ==> parses(xs[j + 1], #[trigger] es@[j]),
        decreases xs.len() - i,
    {
        match parse_expr(&xs[i]) {
            Ok(e) => {
                es.push(e);
            },
            Err(x) => {
                return Err(x);
            },
        }
        i = i + 1;
    }
    Ok(es)
}

/// Parses one `let` binding.
fn parse_bind(s: &SExpr) -> (r: Result<(String, Expr), ParseError>)
    ensures
        match bind_error(*s) {
            Some(err) => r == Err::<(String, Expr), ParseError>(err),
            None => r matches Ok(x) && bind_parses(*s, x),
        },
    decreases s, 3int,
{
    match s {
        SExpr::List(p) => {
            if p.len() != 2 {
                return Err(ParseError::InvalidKeyword);
            }
            match &p[0] {
                SExpr::Sym(id) => {
                    if !check_id(id.as_str()) {
                        return Err(ParseError::InvalidKeyword);
                    }
                    match parse_expr(&p[1]) {
                        Ok(e) => Ok((id.clone(), e)),
                        Err(x) => Err(x),
                    }
                },
                _ => Err(ParseError::InvalidKeyword),
            }
        },
        _ => Err(ParseError::InvalidLet),
    }
}

fn parse_binds(b: &Vec<SExpr>) -> (r: Result<Vec<(String, Expr)>, ParseError>)
    ensures
        match binds_error(*b, 0) {
            Some(err) => r == Err::<Vec<(String, Expr)>, ParseError>(err),
            None => r matches Ok(bs) && binds_parse(*b, bs),
        },
    decreases b, 3int,
{
    let mut bs: Vec<(String, Expr)> = Vec::new();
    let mut i: usize = 0;
    while i < b.len()
        invariant
            i <= b.len(),
            binds_error(*b, 0) == binds_error(*b, i as int),
            bs.len() == i,
            forall|j: int| 0 <= j < bs.len() ==> bind_parses(b[j], #[trigger] bs@[j]),
        decreases b.len() - i,
    {
        match parse_bind(&b[i]) {
            Ok(x) => {
                bs.push(x);
            },
            Err(x) => {
                return Err(x);
            },
        }
        i = i + 1;
    }
    Ok(bs)
}

/// Parses a function definition `(fun (name params...) body)`.
pub fn parse_func(f: &SExpr) -> (r: Result<Func, ParseError>)
    ensures
        match func_error(*f) {
            Some(err) => r == Err::<Func, ParseError>(err),
            None => r matches Ok(func) && func_parses(*f, func),
        },
{
    let v = match f {
        SExpr::List(v) => v,
        _ => {
            return Err(ParseError::InvalidDefinition);
        },
    };
    if v.len() != 3 {
        return Err(ParseError::InvalidDefinition);
    }
    match &v[0] {
        SExpr::Sym(k) => {
            if !str_equal(k.as_str(), "fun") {
                return Err(ParseError::InvalidDefinition);
            }
        },
        _ => {
            return Err(ParseError::InvalidDefinition);
        },
    }
    let b = match &v[1] {
        SExpr::List(b) => b,
        _ => {
            return Err(ParseError::InvalidDefinition);
        },
    };
    if b.len() == 0 {
        return Err(ParseError::InvalidDefinition);
    }
    let mut args: Vec<String> = Vec::new();
    let mut i: usize = 1;
    while i < b.len()
        invariant
            *f == SExpr::List(*v),
            v[1] == SExpr::List(*b),
            1 <= i <= b.len(),
            args.len() + 1 == i,
            forall|j: int| 0 <= j < args.len() ==> b[j + 1] == SExpr::Sym(#[trigger] args@[j]),
        decreases b.len() - i,
    {
        match &b[i] {
            SExpr::Sym(a) => {
                args.push(a.clone());
            },
            _ => {
                return Err(ParseError::InvalidDefinition);
            },
        }
        i = i + 1;
    }
    let name = match &b[0] {
        SExpr::Sym(n) => n.clone(),
        _ => {
            return Err(ParseError::InvalidDefinition);
        },
    };
    if !check_id(name.as_str()) {
        return Err(ParseError::InvalidDefinition);
    }
    let mut j: usize = 0;
    while j < args.len()
        invariant
            *f == SExpr::List(*v),
            v[1] == SExpr::List(*b),
            j <= args.len(),
            args.len() + 1 == b.len(),
            forall|k: int| 0 <= k < args.len() ==> b[k + 1] == SExpr::Sym(#[trigger] args@[k]),
            forall|k: int| 1 <= k < j + 1 ==> valid_id((#[trigger] b[k])->Sym_0@),
        decreases args.len() - j,
    {
        if !check_id(args[j].as_str()) {
            assert(b[j + 1] == SExpr::Sym(args@[j as int]));
            return Err(ParseError::InvalidDefinition);
        }
        assert(b[j + 1] == SExpr::Sym(args@[j as int]));
        j = j + 1;
    }
    proof {
        assert forall|k: int| 1 <= k < b.len() implies (#[trigger] b[k]) is Sym && valid_id(
            b[k]->Sym_0@,
        ) by {
            assert(b[(k - 1) + 1] == SExpr::Sym(args@[k - 1]));
        }
    }
    match parse_expr(&v[2]) {
        Ok(e) => Ok(Func { name, args, expr: e }),
        Err(x) => Err(x),
    }
}

/// Parses a program: the items of one list, definitions first and the main
/// expression last.
pub fn parse_prog(s: &SExpr) -> (r: Result<Prog, ParseError>)
    ensures
        match prog_error(*s) {
            Some(err) => r == Err::<Prog, ParseError>(err),
            None => r matches Ok(p) && prog_parses(*s, p),
        },
{
    let v = match s {
        SExpr::List(v) => v,
        _ => {
            return Err(ParseError::InvalidProgram);
        },
    };
    if v.len() == 0 {
        return Err(ParseError::InvalidProgram);
    }
    let n = v.len() - 1;
    let mut fs: Vec<Func> = Vec::new();
    let mut i: usize = 0;
    while i < n
        invariant
            *s == SExpr::List(*v),
            n + 1 == v.len(),
            i <= n,
            funcs_error(*v, 0) == funcs_error(*v, i as int),
            fs.len() == i,
            forall|j: int| 0 <= j < fs.len() ==> func_parses(v[j], #[trigger] fs@[j]),
        decreases n - i,
    {
        match parse_func(&v[i]) {
            Ok(f) => {
                fs.push(f);
            },
            Err(x) => {
                return Err(x);
            },
        }
        i = i + 1;
    }
    match parse_expr(&v[n]) {
        Ok(e) => Ok(Prog(fs, e)),
        Err(x) => Err(x),
    }
}

/// The S-expression a source file is read as: its text wrapped in one list.
pub open spec fn source_reading(text: Seq<char>) -> Option<SExpr> {
    sexp_reading("("@ + text + ")"@)
}

/// What parsing a source text owes: a syntax error where `sexp` reads no
/// tree, else the first parse error, or the program the tree denotes.
pub open spec fn source_parsed(text: Seq<char>, r: Result<Prog, ParseError>) -> bool {
    match source_reading(text) {
        None => r == Err::<Prog, ParseError>(ParseError::InvalidSexp),
        Some(s) => match prog_error(s) {
            Some(err) => r == Err::<Prog, ParseError>(err),
            None => r matches Ok(p) && prog_parses(s, p),
        },
    }
}

/// Parses the text of a source file.
pub fn parse_program(text: &str) -> (r: Result<Prog, ParseError>)
    ensures
        source_parsed(text@, r),
{
    let mut wrapped = String::from_str("(");
    wrapped.append(text);
    wrapped.append(")");
    match read_sexp(wrapped.as_str()) {
        None => Err(ParseError::InvalidSexp),
        Some(s) => parse_prog(&s),
    }
}

} // verus!
