//! A program with a call whose argument count differs from the callee's
//! parameter count is rejected.
use vstd::prelude::*;

use crate::ast::{Expr, Func};
use crate::lower::{
    arity_of, body_scope, lower, lower_args, lower_binds, lower_block, lower_elems,
    arg_scope, lower_func_body, lower_funcs, lower_prog, with_brake, with_env, with_si, Scope,
};

verus! {

broadcast use vstd::std_specs::vec::group_vec_axioms;

/// Whether `e` holds a call of a function of `fs` with the wrong number of
/// arguments.
pub open spec fn bad_call(e: Expr, fs: Seq<Func>) -> bool
    decreases e,
{
    match e {
        Expr::Call(name, args) => (arity_of(fs, name@) matches Some(n) && n != args.len())
            || exists|i: int| 0 <= i < args.len() && bad_call(#[trigger] args[i], fs),
        Expr::Let(bs, body) => (exists|i: int| 0 <= i < bs.len() && bad_call((#[trigger] bs[i]).1, fs))
            || bad_call(*body, fs),
        Expr::Block(es) => exists|i: int| 0 <= i < es.len() && bad_call(#[trigger] es[i], fs),
        Expr::Tuple(es) => exists|i: int| 0 <= i < es.len() && bad_call(#[trigger] es[i], fs),
        Expr::UnOp(_, e1) => bad_call(*e1, fs),
        Expr::Assign(_, e1) => bad_call(*e1, fs),
        Expr::Loop(e1) => bad_call(*e1, fs),
        Expr::Break(e1) => bad_call(*e1, fs),
        Expr::BinOp(_, e1, e2) => bad_call(*e1, fs) || bad_call(*e2, fs),
        Expr::TupleGet(e1, e2) => bad_call(*e1, fs) || bad_call(*e2, fs),
        Expr::TupleSet(e1, e2, e3) => bad_call(*e1, fs) || bad_call(*e2, fs) || bad_call(*e3, fs),
        Expr::If(e1, e2, e3) => bad_call(*e1, fs) || bad_call(*e2, fs) || bad_call(*e3, fs),
        _ => false,
    }
}

/// Whether a function body or the main expression of a program holds such
/// a call.
pub open spec fn prog_bad_call(fs: Seq<Func>, main: Expr) -> bool {
    (exists|i: int| 0 <= i < fs.len() && bad_call((#[trigger] fs[i]).expr, fs)) || bad_call(main, fs)
}

/// An expression holding a call with the wrong number of arguments does
/// not compile, in any scope.
pub proof fn lemma_bad_call_rejected(e: Expr, sc: Scope, fs: Seq<Func>, l: u64)
    requires
        bad_call(e, fs),
    ensures
        lower(e, sc, fs, l) is Err,
    decreases e, 1int,
{
    match e {
        Expr::Call(name, args) => {
            if !(arity_of(fs, name@) matches Some(n) && n != args.len()) {
                let j = choose|j: int| 0 <= j < args.len() && bad_call(#[trigger] args[j], fs);
                lemma_args_rejected(args, args.len() as int, args.len() % 2 == 0, sc, fs, l, j);
            }
        },
        Expr::Let(bs, body) => {
            if exists|i: int| 0 <= i < bs.len() && bad_call((#[trigger] bs[i]).1, fs) {
                let j = choose|j: int| 0 <= j < bs.len() && bad_call((#[trigger] bs[j]).1, fs);
                lemma_binds_rejected(bs, 0, sc, fs, l, j);
            } else {
                match lower_binds(bs, 0, sc, fs, l) {
                    Ok((c, l1, env)) => {
                        lemma_bad_call_rejected(
                            *body,
                            with_env(with_si(sc, sc.si + bs.len()), env),
                            fs,
                            l1,
                        );
                    },
                    Err(_) => {},
                }
            }
        },
        Expr::Block(es) => {
            let j = choose|j: int| 0 <= j < es.len() && bad_call(#[trigger] es[j], fs);
            lemma_block_rejected(es, 0, sc, fs, l, j);
        },
        Expr::Tuple(es) => {
            let j = choose|j: int| 0 <= j < es.len() && bad_call(#[trigger] es[j], fs);
            lemma_elems_rejected(es, 0, sc, fs, l, j);
        },
        Expr::UnOp(_, e1) => lemma_bad_call_rejected(*e1, sc, fs, l),
        Expr::Assign(_, e1) => lemma_bad_call_rejected(*e1, sc, fs, l),
        Expr::Loop(e1) => {
            if l as int + 2 <= u64::MAX {
                lemma_bad_call_rejected(*e1, with_brake(sc, (l + 1) as u64), fs, (l + 2) as u64);
            }
        },
        Expr::Break(e1) => lemma_bad_call_rejected(*e1, sc, fs, l),
        Expr::BinOp(_, e1, e2) => {
            if bad_call(*e2, fs) {
                lemma_bad_call_rejected(*e2, sc, fs, l);
            } else if let Ok((_, l1)) = lower(*e2, sc, fs, l) {
                lemma_bad_call_rejected(*e1, with_si(sc, sc.si + 1), fs, l1);
            }
        },
        Expr::TupleGet(e1, e2) => {
            if bad_call(*e2, fs) {
                lemma_bad_call_rejected(*e2, sc, fs, l);
            } else if let Ok((_, l1)) = lower(*e2, sc, fs, l) {
                lemma_bad_call_rejected(*e1, with_si(sc, sc.si + 1), fs, l1);
            }
        },
        Expr::TupleSet(e1, e2, e3) => {
            if bad_call(*e2, fs) {
                lemma_bad_call_rejected(*e2, sc, fs, l);
            } else if let Ok((_, l1)) = lower(*e2, sc, fs, l) {
                if bad_call(*e1, fs) {
                    lemma_bad_call_rejected(*e1, with_si(sc, sc.si + 1), fs, l1);
                } else if let Ok((_, l2)) = lower(*e1, with_si(sc, sc.si + 1), fs, l1) {
                    lemma_bad_call_rejected(*e3, with_si(sc, sc.si + 1), fs, l2);
                }
            }
        },
        Expr::If(e1, e2, e3) => {
            if l as int + 2 <= u64::MAX {
                let l0 = (l + 2) as u64;
                if bad_call(*e1, fs) {
                    lemma_bad_call_rejected(*e1, sc, fs, l0);
                } else if let Ok((_, l1)) = lower(*e1, sc, fs, l0) {
                    if bad_call(*e2, fs) {
                        lemma_bad_call_rejected(*e2, sc, fs, l1);
                    } else if let Ok((_, l2)) = lower(*e2, sc, fs, l1) {
                        lemma_bad_call_rejected(*e3, sc, fs, l2);
                    }
                }
            }
        },
        _ => {},
    }
}

proof fn lemma_args_rejected(
    args: Vec<Expr>,
    k: int,
    a: bool,
    sc: Scope,
    fs: Seq<Func>,
    l: u64,
    j: int,
)
    requires
        0 <= j < k <= args.len(),
        bad_call(args[j], fs),
    ensures
        lower_args(args, k, a, sc, fs, l) is Err,
    decreases args, k,
{
    if j == k - 1 {
        lemma_bad_call_rejected(args[k - 1], arg_scope(sc, a), fs, l);
    } else if let Ok((_, l1)) = lower(args[k - 1], arg_scope(sc, a), fs, l) {
        lemma_args_rejected(args, k - 1, !a, sc, fs, l1, j);
    }
}

proof fn lemma_binds_rejected(
    bs: Vec<(String, Expr)>,
    i: int,
    sc: Scope,
    fs: Seq<Func>,
    l: u64,
    j: int,
)
    requires
        0 <= i <= j < bs.len(),
        bad_call(bs[j].1, fs),
    ensures
        lower_binds(bs, i, sc, fs, l) is Err,
    decreases bs, bs.len() - i,
{
    if j == i {
        lemma_bad_call_rejected(bs[i].1, with_si(sc, sc.si + i), fs, l);
    } else if let Ok((_, l1)) = lower(bs[i].1, with_si(sc, sc.si + i), fs, l) {
        lemma_binds_rejected(
            bs,
            i + 1,
            with_env(sc, sc.env.insert(bs[i].0@, (-(sc.si + i)) as i32)),
            fs,
            l1,
            j,
        );
    }
}

proof fn lemma_block_rejected(es: Vec<Expr>, i: int, sc: Scope, fs: Seq<Func>, l: u64, j: int)
    requires
        0 <= i <= j < es.len(),
        bad_call(es[j], fs),
    ensures
        lower_block(es, i, sc, fs, l) is Err,
    decreases es, es.len() - i,
{
    if j == i {
        lemma_bad_call_rejected(es[i], sc, fs, l);
    } else if let Ok((_, l1)) = lower(es[i], sc, fs, l) {
        lemma_block_rejected(es, i + 1, sc, fs, l1, j);
    }
}

proof fn lemma_elems_rejected(es: Vec<Expr>, i: int, sc: Scope, fs: Seq<Func>, l: u64, j: int)
    requires
        0 <= i <= j < es.len(),
        bad_call(es[j], fs),
    ensures
        lower_elems(es, i, sc, fs, l) is Err,
    decreases es, es.len() - i,
{
    if j == i {
        lemma_bad_call_rejected(es[i], with_si(sc, sc.si + i), fs, l);
    } else if let Ok((_, l1)) = lower(es[i], with_si(sc, sc.si + i), fs, l) {
        lemma_elems_rejected(es, i + 1, sc, fs, l1, j);
    }
}

proof fn lemma_funcs_rejected(fs: Seq<Func>, i: int, l: u64, j: int)
    requires
        0 <= i <= j < fs.len(),
        bad_call(fs[j].expr, fs),
    ensures
        lower_funcs(fs, i, l) is Err,
    decreases fs.len() - i,
{
    let f = fs[i];
    let env = crate::lower::args_env(f.args@, f.args.len() as int);
    if j == i {
        lemma_bad_call_rejected(f.expr, body_scope(f.expr, env), fs, l);
    } else if let Ok((_, l1)) = lower_func_body(crate::instr::Label::Func(f.name), f.expr, env, fs, l) {
        lemma_funcs_rejected(fs, i + 1, l1, j);
    }
}

/// A program in which some call passes the wrong number of arguments is
/// rejected at compile time.
pub proof fn lemma_prog_bad_call_rejected(fs: Seq<Func>, main: Expr)
    requires
        prog_bad_call(fs, main),
    ensures
        lower_prog(fs, main) is Err,
{
    if exists|i: int| 0 <= i < fs.len() && bad_call((#[trigger] fs[i]).expr, fs) {
        let j = choose|j: int| 0 <= j < fs.len() && bad_call((#[trigger] fs[j]).expr, fs);
        lemma_funcs_rejected(fs, 0, 0, j);
    } else if let Ok((_, l)) = lower_funcs(fs, 0, 0) {
        lemma_bad_call_rejected(main, body_scope(main, crate::lower::main_env()), fs, l);
    }
}

} // verus!
