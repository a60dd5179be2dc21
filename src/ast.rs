//! The abstract syntax of the source language, and the stack-depth
//! analysis that sizes each frame.
use vstd::prelude::*;

verus! {

broadcast use vstd::std_specs::vec::group_vec_axioms;

#[derive(Debug, Clone, Copy, PartialEq, Eq, Structural)]
pub enum Op1 {
    Add1,
    Sub1,
    IsNum,
    IsBool,
    IsTuple,
    Print,
}

#[derive(Debug, Clone, Copy, PartialEq, Eq, Structural)]
pub enum Op2 {
    Plus,
    Minus,
    Times,
    /// Bit equality of the two words (`==`).
    Equal,
    Greater,
    GreaterEqual,
    Less,
    LessEqual,
    /// Structural equality, decided by the runtime (`=`).
    StEq,
}

#[derive(Debug)]
pub enum Expr {
    Number(i64),
    Boolean(bool),
    Id(String),
    Let(Vec<(String, Expr)>, Box<Expr>),
    UnOp(Op1, Box<Expr>),
    BinOp(Op2, Box<Expr>, Box<Expr>),
    If(Box<Expr>, Box<Expr>, Box<Expr>),
    Loop(Box<Expr>),
    Break(Box<Expr>),
    /// `(set! name e)`.
    Assign(String, Box<Expr>),
    Block(Vec<Expr>),
    Call(String, Vec<Expr>),
    Tuple(Vec<Expr>),
    TupleGet(Box<Expr>, Box<Expr>),
    TupleSet(Box<Expr>, Box<Expr>, Box<Expr>),
}

#[derive(Debug)]
pub struct Func {
    pub name: String,
    pub args: Vec<String>,
    pub expr: Expr,
}

/// A program: its function definitions and its main expression.
#[derive(Debug)]
pub struct Prog(pub Vec<Func>, pub Expr);

/// The most local slots an evaluation of `e` occupies at once.
pub open spec fn depth(e: Expr) -> int
    decreases e,
{
    match e {
        Expr::Number(_) => 0,
        Expr::Boolean(_) => 0,
        Expr::Id(_) => 0,
        Expr::UnOp(_, e1) => depth(*e1),
        Expr::BinOp(_, e1, e2) => max(depth(*e2), depth(*e1) + 1),
        Expr::Let(bs, body) => max(binds_depth(bs, bs.len() as int), depth(*body) + bs.len()),
        Expr::Assign(_, e1) => depth(*e1),
        Expr::Block(es) => list_depth(es, es.len() as int),
        Expr::If(c, t, f) => max(max(depth(*c), depth(*t)), depth(*f)),
        Expr::Loop(e1) => depth(*e1),
        Expr::Break(e1) => depth(*e1),
        Expr::Call(_, es) => list_depth(es, es.len() as int),
        Expr::Tuple(es) => max(indexed_depth(es, es.len() as int), es.len() as int),
        Expr::TupleGet(e1, e2) => max(depth(*e2), depth(*e1) + 1),
        Expr::TupleSet(e1, e2, e3) => max(max(depth(*e2), depth(*e1) + 1), depth(*e3) + 1),
    }
}

pub open spec fn max(a: int, b: int) -> int {
    if a >= b {
        a
    } else {
        b
    }
}

/// The largest depth among the first `k` expressions (0 for none).
pub open spec fn list_depth(es: Vec<Expr>, k: int) -> int
    decreases es, k,
{
    if k <= 0 || k > es.len() {
        0
    } else {
        max(list_depth(es, k - 1), depth(es[k - 1]))
    }
}

/// The largest `depth(es[i]) + i` among the first `k` expressions, for
/// expressions evaluated while `i` earlier results sit in slots.
pub open spec fn indexed_depth(es: Vec<Expr>, k: int) -> int
    decreases es, k,
{
    if k <= 0 || k > es.len() {
        0
    } else {
        max(indexed_depth(es, k - 1), depth(es[k - 1]) + k - 1)
    }
}

/// As `indexed_depth`, over the right-hand sides of `let` bindings.
pub open spec fn binds_depth(bs: Vec<(String, Expr)>, k: int) -> int
    decreases bs, k,
{
    if k <= 0 || k > bs.len() {
        0
    } else {
        max(binds_depth(bs, k - 1), depth(bs[k - 1].1) + k - 1)
    }
}

/// The most slots a frame may reserve.
pub const SLOT_LIMIT: u64 = 1048576;

pub open spec fn capped(x: int) -> int {
    if x < SLOT_LIMIT {
        x
    } else {
        SLOT_LIMIT as int
    }
}

fn max_u64(a: u64, b: u64) -> (r: u64)
    ensures
        r == max(a as int, b as int),
{
    if a >= b {
        a
    } else {
        b
    }
}

fn add_capped(a: u64, k: u64) -> (r: u64)
    requires
        a <= SLOT_LIMIT,
    ensures
        r == capped(a + k),
{
    if k >= SLOT_LIMIT || a + k >= SLOT_LIMIT {
        SLOT_LIMIT
    } else {
        a + k
    }
}

/// The stack depth of `e`, capped at `SLOT_LIMIT`.
pub fn dep(e: &Expr) -> (r: u64)
    ensures
        r == capped(depth(*e)),
        depth(*e) >= 0,
    decreases e,
{
    match e {
        Expr::Number(_) => 0,
        Expr::Boolean(_) => 0,
        Expr::Id(_) => 0,
        Expr::UnOp(_, e1) => dep(e1),
        Expr::BinOp(_, e1, e2) => {
            let a = dep(e2);
            let b = dep(e1);
            max_u64(a, add_capped(b, 1))
        },
        Expr::Let(bs, body) => {
            let a = binds_dep(bs);
            let b = dep(body);
            max_u64(a, add_capped(b, bs.len() as u64))
        },
        Expr::Assign(_, e1) => dep(e1),
        Expr::Block(es) => list_dep(es),
        Expr::If(c, t, f) => {
            let a = dep(c);
            let b = dep(t);
            let d = dep(f);
            max_u64(max_u64(a, b), d)
        },
        Expr::Loop(e1) => dep(e1),
        Expr::Break(e1) => dep(e1),
        Expr::Call(_, es) => list_dep(es),
        Expr::Tuple(es) => {
            let a = indexed_dep(es);
            let n: u64 = if es.len() as u64 >= SLOT_LIMIT {
                SLOT_LIMIT
            } else {
                es.len() as u64
            };
            max_u64(a, n)
        },
        Expr::TupleGet(e1, e2) => {
            let a = dep(e2);
            let b = dep(e1);
            max_u64(a, add_capped(b, 1))
        },
        Expr::TupleSet(e1, e2, e3) => {
            let a = dep(e2);
            let b = dep(e1);
            let d = dep(e3);
            max_u64(max_u64(a, add_capped(b, 1)), add_capped(d, 1))
        },
    }
}

fn list_dep(es: &Vec<Expr>) -> (r: u64)
    ensures
        r == capped(list_depth(*es, es.len() as int)),
        list_depth(*es, es.len() as int) >= 0,
    decreases es,
{
    let mut acc: u64 = 0;
    let mut i: usize = 0;
    while i < es.len()
        invariant
            i <= es.len(),
            acc == capped(list_depth(*es, i as int)),
            list_depth(*es, i as int) >= 0,
        decreases es.len() - i,
    {
        let d = dep(&es[i]);
        acc = max_u64(acc, d);
        i = i + 1;
    }
    acc
}

fn indexed_dep(es: &Vec<Expr>) -> (r: u64)
    ensures
        r == capped(indexed_depth(*es, es.len() as int)),
        indexed_depth(*es, es.len() as int) >= 0,
    decreases es,
{
    let mut acc: u64 = 0;
    let mut i: usize = 0;
    while i < es.len()
        invariant
            i <= es.len(),
            acc == capped(indexed_depth(*es, i as int)),
            indexed_depth(*es, i as int) >= 0,
        decreases es.len() - i,
    {
        let d = dep(&es[i]);
        acc = max_u64(acc, add_capped(d, i as u64));
        i = i + 1;
    }
    acc
}

fn binds_dep(bs: &Vec<(String, Expr)>) -> (r: u64)
    ensures
        r == capped(binds_depth(*bs, bs.len() as int)),
        binds_depth(*bs, bs.len() as int) >= 0,
    decreases bs,
{
    let mut acc: u64 = 0;
    let mut i: usize = 0;
    while i < bs.len()
        invariant
            i <= bs.len(),
            acc == capped(binds_depth(*bs, i as int)),
            binds_depth(*bs, i as int) >= 0,
        decreases bs.len() - i,
    {
        let d = dep(&bs[i].1);
        acc = max_u64(acc, add_capped(d, i as u64));
        i = i + 1;
    }
    acc
}

/// The depth of an expression is never negative.
pub proof fn lemma_depth_nonneg(e: Expr)
    ensures
        depth(e) >= 0,
    decreases e,
{
    lemma_lists_nonneg(e);
    match e {
        Expr::UnOp(_, e1) => lemma_depth_nonneg(*e1),
        Expr::BinOp(_, e1, e2) => lemma_depth_nonneg(*e2),
        Expr::Assign(_, e1) => lemma_depth_nonneg(*e1),
        Expr::If(c, t, f) => lemma_depth_nonneg(*c),
        Expr::Loop(e1) => lemma_depth_nonneg(*e1),
        Expr::Break(e1) => lemma_depth_nonneg(*e1),
        Expr::TupleGet(e1, e2) => lemma_depth_nonneg(*e2),
        Expr::TupleSet(e1, e2, e3) => lemma_depth_nonneg(*e2),
        _ => {},
    }
}

proof fn lemma_lists_nonneg(e: Expr)
    ensures
        e matches Expr::Let(bs, _) ==> binds_depth(bs, bs.len() as int) >= 0,
        e matches Expr::Block(es) ==> list_depth(es, es.len() as int) >= 0,
        e matches Expr::Call(_, es) ==> list_depth(es, es.len() as int) >= 0,
        e matches Expr::Tuple(es) ==> indexed_depth(es, es.len() as int) >= 0,
{
    match e {
        Expr::Let(bs, _) => lemma_binds_nonneg(bs, bs.len() as int),
        Expr::Block(es) => lemma_list_nonneg(es, es.len() as int),
        Expr::Call(_, es) => lemma_list_nonneg(es, es.len() as int),
        Expr::Tuple(es) => lemma_indexed_nonneg(es, es.len() as int),
        _ => {},
    }
}

proof fn lemma_list_nonneg(es: Vec<Expr>, k: int)
    ensures
        list_depth(es, k) >= 0,
    decreases k,
{
    if k > 0 && k <= es.len() {
        lemma_list_nonneg(es, k - 1);
    }
}

proof fn lemma_indexed_nonneg(es: Vec<Expr>, k: int)
    ensures
        indexed_depth(es, k) >= 0,
    decreases k,
{
    if k > 0 && k <= es.len() {
        lemma_indexed_nonneg(es, k - 1);
    }
}

proof fn lemma_binds_nonneg(bs: Vec<(String, Expr)>, k: int)
    ensures
        binds_depth(bs, k) >= 0,
    decreases k,
{
    if k > 0 && k <= bs.len() {
        lemma_binds_nonneg(bs, k - 1);
    }
}

/// Each expression of a list is at most as deep as the list.
pub proof fn lemma_list_depth_ge(es: Vec<Expr>, k: int, j: int)
    requires
        0 <= j < k <= es.len(),
    ensures
        list_depth(es, k) >= depth(es[j]),
    decreases k,
{
    if j < k - 1 {
        lemma_list_depth_ge(es, k - 1, j);
    }
}

/// Each element of a tuple, with the slots of those before it, fits the
/// tuple's depth.
pub proof fn lemma_indexed_depth_ge(es: Vec<Expr>, k: int, j: int)
    requires
        0 <= j < k <= es.len(),
    ensures
        indexed_depth(es, k) >= depth(es[j]) + j,
    decreases k,
{
    if j < k - 1 {
        lemma_indexed_depth_ge(es, k - 1, j);
    }
}

/// Each right-hand side of a `let`, with the slots of those before it,
/// fits the depth of the bindings.
pub proof fn lemma_binds_depth_ge(bs: Vec<(String, Expr)>, k: int, j: int)
    requires
        0 <= j < k <= bs.len(),
    ensures
        binds_depth(bs, k) >= depth(bs[j].1) + j,
    decreases k,
{
    if j < k - 1 {
        lemma_binds_depth_ge(bs, k - 1, j);
    }
}

} // verus!
