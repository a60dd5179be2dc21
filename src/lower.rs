//! What the code generator emits for each construct, stated as spec
//! functions from syntax and compile-time scope to instruction sequences.
use vstd::prelude::*;

use crate::ast::{depth, Expr, Func, Op1, Op2, SLOT_LIMIT};
use crate::instr::{instrs_text, Cond, Instr, Label, Reg, Val};
use crate::value::in_range;

verus! {

broadcast use vstd::std_specs::vec::group_vec_axioms;

/// Why a program cannot be compiled.
#[derive(Debug)]
pub enum CompileError {
    /// A name that no binding in scope introduces (also `set!` on `input`).
    UnboundVariable(String),
    /// A name bound twice by one `let`.
    DuplicateBinding(String),
    BreakOutsideLoop,
    /// A `break` inside the arguments of a call, where words the call has
    /// already pushed would stay on the stack.
    BreakInArgument,
    UndefinedFunction(String),
    /// A call whose argument count differs from the function's parameters.
    ArityMismatch(String),
    DuplicateFunction(String),
    /// A function with two parameters of one name.
    DuplicateArgument(String),
    /// A literal outside the integer range.
    LiteralOutOfRange,
    /// A frame, call or label count beyond what the generator supports.
    TooLarge,
}

/// The compile-time scope of an expression: the next free slot, the
/// environment, the label that `break` jumps to, whether `rsp` is 16-byte
/// aligned, and whether the expression is an argument of a call (outside
/// any loop of its own).
pub struct Scope {
    pub si: int,
    pub env: Map<Seq<char>, i32>,
    pub brake: Option<u64>,
    pub aligned: bool,
    pub in_args: bool,
}

pub open spec fn rax() -> Val {
    Val::Reg(Reg::RAX)
}

pub open spec fn reg(r: Reg) -> Val {
    Val::Reg(r)
}

/// The local slot `si`, at `[rbp - 8 * si]`.
pub open spec fn slot(si: int) -> Val {
    Val::RegOffset(Reg::RBP, (-8 * si) as i32)
}

/// Where a variable bound to `w` lives: the input register for the
/// sentinel, else `[rbp + 8 * w]`.
pub open spec fn id_source(w: i32) -> Val {
    if w == i32::MAX {
        Val::Reg(Reg::RDI)
    } else {
        Val::RegOffset(Reg::RBP, (8 * w) as i32)
    }
}

pub open spec fn check_num_code() -> Seq<Instr> {
    seq![
        Instr::Test(rax(), Val::Imm64(1)),
        Instr::Mov(reg(Reg::RSI), Val::Imm64(1)),
        Instr::J(Cond::Ne, Label::Error),
    ]
}

pub open spec fn check_mem_code() -> Seq<Instr> {
    seq![
        Instr::Mov(reg(Reg::RSI), rax()),
        Instr::And(reg(Reg::RSI), Val::Imm64(3)),
        Instr::Cmp(reg(Reg::RSI), Val::Imm64(1)),
        Instr::Mov(reg(Reg::RSI), Val::Imm64(1)),
        Instr::J(Cond::Ne, Label::Error),
    ]
}

pub open spec fn check_overflow_code() -> Seq<Instr> {
    seq![Instr::Mov(reg(Reg::RSI), Val::Imm64(2)), Instr::J(Cond::O, Label::Error)]
}

/// Materialises `true` or `false` in `rax` from the flags, by `cond`.
pub open spec fn flag_bool_code(c: Cond) -> Seq<Instr> {
    seq![
        Instr::Mov(reg(Reg::RAX), Val::Imm64(3)),
        Instr::Mov(reg(Reg::RBX), Val::Imm64(7)),
        Instr::Cmov(c, rax(), reg(Reg::RBX)),
    ]
}

/// A call of a runtime helper of one argument, `rdi` kept.
pub open spec fn ext_call_1(a1: Val, l: Label, aligned: bool) -> Seq<Instr> {
    (if aligned {
        seq![Instr::Sub(reg(Reg::RSP), Val::Imm32(8))]
    } else {
        Seq::empty()
    }) + seq![
        Instr::Push(reg(Reg::RDI)),
        Instr::Mov(reg(Reg::RDI), a1),
        Instr::Call(l),
        Instr::Pop(reg(Reg::RDI)),
    ] + (if aligned {
        seq![Instr::Add(reg(Reg::RSP), Val::Imm32(8))]
    } else {
        Seq::empty()
    })
}

/// A call of a runtime helper of two arguments, `rdi` and `rsi` kept.
pub open spec fn ext_call_2(a1: Val, a2: Val, l: Label, aligned: bool) -> Seq<Instr> {
    (if !aligned {
        seq![Instr::Sub(reg(Reg::RSP), Val::Imm32(8))]
    } else {
        Seq::empty()
    }) + seq![
        Instr::Push(reg(Reg::RDI)),
        Instr::Push(reg(Reg::RSI)),
        Instr::Mov(reg(Reg::RDI), a1),
        Instr::Mov(reg(Reg::RSI), a2),
        Instr::Call(l),
        Instr::Pop(reg(Reg::RSI)),
        Instr::Pop(reg(Reg::RDI)),
    ] + (if !aligned {
        seq![Instr::Add(reg(Reg::RSP), Val::Imm32(8))]
    } else {
        Seq::empty()
    })
}

/// What follows the operand's code for a unary operator.
pub open spec fn unop_code(o: Op1, aligned: bool) -> Seq<Instr> {
    match o {
        Op1::Add1 => check_num_code() + seq![Instr::Add(rax(), Val::Imm32(2))]
            + check_overflow_code(),
        Op1::Sub1 => check_num_code() + seq![Instr::Sub(rax(), Val::Imm32(2))]
            + check_overflow_code(),
        Op1::IsNum => seq![Instr::Test(rax(), Val::Imm64(1))] + flag_bool_code(Cond::E),
        Op1::IsBool => seq![
            Instr::And(rax(), Val::Imm64(3)),
            Instr::Cmp(rax(), Val::Imm64(3)),
        ] + flag_bool_code(Cond::E),
        Op1::IsTuple => seq![
            Instr::And(rax(), Val::Imm64(3)),
            Instr::Cmp(rax(), Val::Imm64(1)),
        ] + flag_bool_code(Cond::E),
        Op1::Print => ext_call_1(rax(), Label::Print, aligned),
    }
}

/// Compares `rax` with slot `si` and materialises the result by `c`.
pub open spec fn compare_code(c: Cond, si: int) -> Seq<Instr> {
    seq![
        Instr::Cmp(rax(), slot(si)),
        Instr::Mov(reg(Reg::RBX), Val::Imm32(7)),
        Instr::Mov(rax(), Val::Imm32(3)),
        Instr::Cmov(c, rax(), reg(Reg::RBX)),
    ]
}

/// The operation of a numeric binary operator on `rax` and slot `si`.
pub open spec fn arith_code(o: Op2, si: int) -> Seq<Instr> {
    match o {
        Op2::Plus => seq![Instr::Add(rax(), slot(si))] + check_overflow_code(),
        Op2::Minus => seq![Instr::Sub(rax(), slot(si))] + check_overflow_code(),
        Op2::Times => seq![Instr::Sar(rax(), Val::Imm32(1)), Instr::Imul(rax(), slot(si))]
            + check_overflow_code(),
        Op2::Less => compare_code(Cond::L, si),
        Op2::LessEqual => compare_code(Cond::Le, si),
        Op2::Greater => compare_code(Cond::G, si),
        _ => compare_code(Cond::Ge, si),
    }
}

/// A binary operation: the right operand (`c2`) first, spilled to slot
/// `si`, then the left (`c1`).
pub open spec fn binop_code(o: Op2, c2: Seq<Instr>, c1: Seq<Instr>, si: int, aligned: bool) -> Seq<
    Instr,
> {
    match o {
        Op2::Equal => c2 + seq![Instr::Mov(slot(si), rax())] + c1 + compare_code(Cond::E, si),
        Op2::StEq => c2 + seq![Instr::Mov(slot(si), rax())] + c1 + ext_call_2(
            rax(),
            slot(si),
            Label::StructEq,
            aligned,
        ),
        _ => c2 + check_num_code() + seq![Instr::Mov(slot(si), rax())] + c1 + check_num_code()
            + arith_code(o, si),
    }
}

pub open spec fn if_code(
    cc: Seq<Instr>,
    ct: Seq<Instr>,
    cf: Seq<Instr>,
    lend: u64,
    lelse: u64,
) -> Seq<Instr> {
    cc + seq![Instr::Cmp(rax(), Val::Imm32(3)), Instr::J(Cond::E, Label::IfElse(lelse))] + ct
        + seq![Instr::J(Cond::Always, Label::IfEnd(lend)), Instr::Label(Label::IfElse(lelse))]
        + cf + seq![Instr::Label(Label::IfEnd(lend))]
}

pub open spec fn loop_code(cb: Seq<Instr>, lst: u64, led: u64) -> Seq<Instr> {
    seq![Instr::Label(Label::Loop(lst))] + cb + seq![
        Instr::J(Cond::Always, Label::Loop(lst)),
        Instr::Label(Label::LoopEnd(led)),
    ]
}

/// Copies the first `k` spilled elements, from slots `si ..`, into the
/// new tuple after its header.
pub open spec fn copy_code(si: int, k: int) -> Seq<Instr>
    decreases k,
{
    if k <= 0 {
        Seq::empty()
    } else {
        copy_code(si, k - 1) + seq![
            Instr::Mov(rax(), slot(si + k - 1)),
            Instr::Mov(Val::RegOffset(Reg::R15, (8 * k) as i32), rax()),
        ]
    }
}

/// Writes a tuple of `n` spilled elements at the heap pointer, leaves the
/// tagged pointer in `rax` and bumps the heap pointer.
pub open spec fn tuple_alloc_code(si: int, n: int) -> Seq<Instr> {
    seq![
        Instr::Mov(rax(), Val::Imm64((2 * n) as i64)),
        Instr::Mov(Val::RegOffset(Reg::R15, 0), rax()),
    ] + copy_code(si, n) + seq![
        Instr::Mov(rax(), reg(Reg::R15)),
        Instr::Xor(rax(), Val::Imm32(1)),
        Instr::Add(reg(Reg::R15), Val::Imm32((8 * (n + 1)) as i32)),
    ]
}

/// Checks that `rax` is a non-empty tuple and the index in slot `si` lies
/// in `[0, length)`, leaving the index in `rbx` and the address in `rax`.
pub open spec fn bounds_code(si: int) -> Seq<Instr> {
    check_mem_code() + seq![
        Instr::Mov(reg(Reg::RSI), Val::Imm64(3)),
        Instr::Cmp(rax(), Val::Imm32(1)),
        Instr::J(Cond::E, Label::Error),
        Instr::Mov(reg(Reg::RBX), slot(si)),
        Instr::And(rax(), Val::Imm32(-8i32)),
        Instr::Cmp(reg(Reg::RBX), Val::RegOffset(Reg::RAX, 0)),
        Instr::J(Cond::Ge, Label::Error),
        Instr::Cmp(reg(Reg::RBX), Val::Imm32(0)),
        Instr::J(Cond::L, Label::Error),
        Instr::And(rax(), Val::Imm32(-8i32)),
    ]
}

pub open spec fn element() -> Val {
    Val::EffectiveAddr(Reg::RAX, Reg::RBX, 4, 8)
}

pub open spec fn index_code(ci: Seq<Instr>, ce: Seq<Instr>, si: int) -> Seq<Instr> {
    ci + check_num_code() + seq![Instr::Mov(slot(si), rax())] + ce + bounds_code(si) + seq![
        Instr::Mov(rax(), element()),
    ]
}

pub open spec fn tuple_set_code(ci: Seq<Instr>, ce: Seq<Instr>, cv: Seq<Instr>, si: int) -> Seq<
    Instr,
> {
    ci + check_num_code() + seq![Instr::Mov(slot(si), rax())] + ce + bounds_code(si) + seq![
        Instr::Lea(rax(), element()),
        Instr::Mov(slot(si), rax()),
    ] + cv + seq![
        Instr::Mov(reg(Reg::RBX), slot(si)),
        Instr::Mov(Val::RegOffset(Reg::RBX, 0), rax()),
    ]
}

/// The parameter count of the first function named `name` from `i` on.
pub open spec fn arity_from(fs: Seq<Func>, name: Seq<char>, i: int) -> Option<nat>
    decreases fs.len() - i,
{
    if i < 0 || i >= fs.len() {
        None
    } else if fs[i].name@ == name {
        Some(fs[i].args.len() as nat)
    } else {
        arity_from(fs, name, i + 1)
    }
}

pub open spec fn arity_of(fs: Seq<Func>, name: Seq<char>) -> Option<nat> {
    arity_from(fs, name, 0)
}

/// Whether the `let` binding at `i` repeats an earlier name of its list.
pub open spec fn bound_before(bs: Vec<(String, Expr)>, i: int) -> bool {
    exists|j: int| 0 <= j < i && (#[trigger] bs[j]).0@ == bs[i].0@
}

pub open spec fn with_si(sc: Scope, si: int) -> Scope {
    Scope { si, env: sc.env, brake: sc.brake, aligned: sc.aligned, in_args: sc.in_args }
}

/// The scope of a call's argument: no loop to break out of, since the words
/// already pushed for the call would stay on the stack.
pub open spec fn arg_scope(sc: Scope, a: bool) -> Scope {
    Scope { si: sc.si, env: sc.env, brake: None, aligned: a, in_args: true }
}

pub open spec fn with_env(sc: Scope, env: Map<Seq<char>, i32>) -> Scope {
    Scope { si: sc.si, env, brake: sc.brake, aligned: sc.aligned, in_args: sc.in_args }
}

pub open spec fn with_brake(sc: Scope, b: u64) -> Scope {
    Scope { si: sc.si, env: sc.env, brake: Some(b), aligned: sc.aligned, in_args: false }
}

/// The code for `e` under scope `sc`, with `l` the next free label number:
/// the instructions and the next free label number after them, or the
/// first error met.
pub open spec fn lower(e: Expr, sc: Scope, fs: Seq<Func>, l: u64) -> Result<
    (Seq<Instr>, u64),
    CompileError,
>
    decreases e, 0int,
{
    match e {
        Expr::Number(n) => if in_range(n as int) {
            Ok((seq![Instr::Mov(rax(), Val::Imm64((2 * n) as i64))], l))
        } else {
            Err(CompileError::LiteralOutOfRange)
        },
        Expr::Boolean(b) => Ok(
            (seq![Instr::Mov(rax(), Val::Imm32(if b { 7i32 } else { 3i32 }))], l),
        ),
        Expr::Id(x) => if sc.env.contains_key(x@) {
            Ok((seq![Instr::Mov(rax(), id_source(sc.env[x@]))], l))
        } else {
            Err(CompileError::UnboundVariable(x))
        },
        Expr::UnOp(o, e1) => match lower(*e1, sc, fs, l) {
            Ok((c, l1)) => Ok((c + unop_code(o, sc.aligned), l1)),
            Err(x) => Err(x),
        },
        Expr::BinOp(o, e1, e2) => match lower(*e2, sc, fs, l) {
            Ok((c2, l1)) => match lower(*e1, with_si(sc, sc.si + 1), fs, l1) {
                Ok((c1, l2)) => Ok((binop_code(o, c2, c1, sc.si, sc.aligned), l2)),
                Err(x) => Err(x),
            },
            Err(x) => Err(x),
        },
        Expr::Let(bs, body) => match lower_binds(bs, 0, sc, fs, l) {
            Ok((c, l1, env)) => match lower(
                *body,
                with_env(with_si(sc, sc.si + bs.len()), env),
                fs,
                l1,
            ) {
                Ok((cb, l2)) => Ok((c + cb, l2)),
                Err(x) => Err(x),
            },
            Err(x) => Err(x),
        },
        Expr::Assign(x, e1) => match lower(*e1, sc, fs, l) {
            Ok((c, l1)) => if sc.env.contains_key(x@) && sc.env[x@] != i32::MAX {
                Ok((c.push(Instr::Mov(id_source(sc.env[x@]), rax())), l1))
            } else {
                Err(CompileError::UnboundVariable(x))
            },
            Err(x) => Err(x),
        },
        Expr::Block(es) => lower_block(es, 0, sc, fs, l),
        Expr::If(c, t, f) => if l as int + 2 > u64::MAX {
            Err(CompileError::TooLarge)
        } else {
            match lower(*c, sc, fs, (l + 2) as u64) {
                Ok((cc, l1)) => match lower(*t, sc, fs, l1) {
                    Ok((ct, l2)) => match lower(*f, sc, fs, l2) {
                        Ok((cf, l3)) => Ok((if_code(cc, ct, cf, l, (l + 1) as u64), l3)),
                        Err(x) => Err(x),
                    },
                    Err(x) => Err(x),
                },
                Err(x) => Err(x),
            }
        },
        Expr::Loop(e1) => if l as int + 2 > u64::MAX {
            Err(CompileError::TooLarge)
        } else {
            match lower(*e1, with_brake(sc, (l + 1) as u64), fs, (l + 2) as u64) {
                Ok((cb, l1)) => Ok((loop_code(cb, l, (l + 1) as u64), l1)),
                Err(x) => Err(x),
            }
        },
        Expr::Break(e1) => match sc.brake {
            None => if sc.in_args {
                Err(CompileError::BreakInArgument)
            } else {
                Err(CompileError::BreakOutsideLoop)
            },
            Some(b) => match lower(*e1, sc, fs, l) {
                Ok((c, l1)) => Ok((c.push(Instr::J(Cond::Always, Label::LoopEnd(b))), l1)),
                Err(x) => Err(x),
            },
        },
        Expr::Call(name, args) => match arity_of(fs, name@) {
            None => Err(CompileError::UndefinedFunction(name)),
            Some(n) => if n != args.len() {
                Err(CompileError::ArityMismatch(name))
            } else if args.len() >= SLOT_LIMIT {
                Err(CompileError::TooLarge)
            } else {
                let pad = (args.len() % 2 == 1) == sc.aligned;
                match lower_args(args, args.len() as int, args.len() % 2 == 0, sc, fs, l) {
                    Ok((c, l1)) => Ok(
                        (call_code(c, name, args.len() as int, pad), l1),
                    ),
                    Err(x) => Err(x),
                }
            },
        },
        Expr::Tuple(es) => if es.len() == 0 {
            Ok((seq![Instr::Mov(rax(), Val::Imm32(1))], l))
        } else {
            match lower_elems(es, 0, sc, fs, l) {
                Ok((c, l1)) => Ok((c + tuple_alloc_code(sc.si, es.len() as int), l1)),
                Err(x) => Err(x),
            }
        },
        Expr::TupleGet(e1, i) => match lower(*i, sc, fs, l) {
            Ok((ci, l1)) => match lower(*e1, with_si(sc, sc.si + 1), fs, l1) {
                Ok((ce, l2)) => Ok((index_code(ci, ce, sc.si), l2)),
                Err(x) => Err(x),
            },
            Err(x) => Err(x),
        },
        Expr::TupleSet(e1, i, v) => match lower(*i, sc, fs, l) {
            Ok((ci, l1)) => match lower(*e1, with_si(sc, sc.si + 1), fs, l1) {
                Ok((ce, l2)) => match lower(*v, with_si(sc, sc.si + 1), fs, l2) {
                    Ok((cv, l3)) => Ok((tuple_set_code(ci, ce, cv, sc.si), l3)),
                    Err(x) => Err(x),
                },
                Err(x) => Err(x),
            },
            Err(x) => Err(x),
        },
    }
}

/// A call of a source-level function: the pad, the pushed arguments, the
/// call and the release of the pushed words.
pub open spec fn call_code(c: Seq<Instr>, name: String, n: int, pad: bool) -> Seq<Instr> {
    (if pad {
        seq![Instr::Sub(reg(Reg::RSP), Val::Imm32(8))]
    } else {
        Seq::empty()
    }) + c + seq![
        Instr::Call(Label::Func(name)),
        Instr::Add(reg(Reg::RSP), Val::Imm32((8 * (n + if pad { 1int } else { 0int })) as i32)),
    ]
}

/// The `let` bindings from `i` on, the one at `i` evaluated into slot
/// `sc.si + i` under `sc.env`: their code, the next label, and the
/// environment after them.
pub open spec fn lower_binds(
    bs: Vec<(String, Expr)>,
    i: int,
    sc: Scope,
    fs: Seq<Func>,
    l: u64,
) -> Result<(Seq<Instr>, u64, Map<Seq<char>, i32>), CompileError>
    decreases bs, bs.len() - i,
{
    if i < 0 || i >= bs.len() {
        Ok((Seq::empty(), l, sc.env))
    } else if bound_before(bs, i) {
        Err(CompileError::DuplicateBinding(bs[i].0))
    } else {
        match lower(bs[i].1, with_si(sc, sc.si + i), fs, l) {
            Ok((c, l1)) => match lower_binds(
                bs,
                i + 1,
                with_env(sc, sc.env.insert(bs[i].0@, (-(sc.si + i)) as i32)),
                fs,
                l1,
            ) {
                Ok((rest, l2, env)) => Ok(
                    (c.push(Instr::Mov(slot(sc.si + i), rax())) + rest, l2, env),
                ),
                Err(x) => Err(x),
            },
            Err(x) => Err(x),
        }
    }
}

/// The expressions of a block from `i` on, one after another.
pub open spec fn lower_block(es: Vec<Expr>, i: int, sc: Scope, fs: Seq<Func>, l: u64) -> Result<
    (Seq<Instr>, u64),
    CompileError,
>
    decreases es, es.len() - i,
{
    if i < 0 || i >= es.len() {
        Ok((Seq::empty(), l))
    } else {
        match lower(es[i], sc, fs, l) {
            Ok((c, l1)) => match lower_block(es, i + 1, sc, fs, l1) {
                Ok((rest, l2)) => Ok((c + rest, l2)),
                Err(x) => Err(x),
            },
            Err(x) => Err(x),
        }
    }
}

/// The elements of a tuple from `i` on, the one at `i` spilled to slot
/// `sc.si + i`.
pub open spec fn lower_elems(es: Vec<Expr>, i: int, sc: Scope, fs: Seq<Func>, l: u64) -> Result<
    (Seq<Instr>, u64),
    CompileError,
>
    decreases es, es.len() - i,
{
    if i < 0 || i >= es.len() {
        Ok((Seq::empty(), l))
    } else {
        match lower(es[i], with_si(sc, sc.si + i), fs, l) {
            Ok((c, l1)) => match lower_elems(es, i + 1, sc, fs, l1) {
                Ok((rest, l2)) => Ok((c.push(Instr::Mov(slot(sc.si + i), rax())) + rest, l2)),
                Err(x) => Err(x),
            },
            Err(x) => Err(x),
        }
    }
}

/// The first `k` arguments of a call, last first, each evaluated (in
/// `arg_scope`, where `break` is refused) and pushed; `a` is the alignment
/// when the one at `k - 1` is evaluated.
pub open spec fn lower_args(
    args: Vec<Expr>,
    k: int,
    a: bool,
    sc: Scope,
    fs: Seq<Func>,
    l: u64,
) -> Result<(Seq<Instr>, u64), CompileError>
    decreases args, k,
{
    if k <= 0 || k > args.len() {
        Ok((Seq::empty(), l))
    } else {
        match lower(args[k - 1], arg_scope(sc, a), fs, l) {
            Ok((c, l1)) => match lower_args(args, k - 1, !a, sc, fs, l1) {
                Ok((rest, l2)) => Ok((c.push(Instr::Push(rax())) + rest, l2)),
                Err(x) => Err(x),
            },
            Err(x) => Err(x),
        }
    }
}

/// A frame around a body of depth `d`: prologue, body, epilogue.
pub open spec fn frame_code(lbl: Label, d: int, body: Seq<Instr>) -> Seq<Instr> {
    seq![
        Instr::Label(lbl),
        Instr::Push(reg(Reg::RBP)),
        Instr::Mov(reg(Reg::RBP), reg(Reg::RSP)),
        Instr::Sub(reg(Reg::RSP), Val::Imm32((8 * d) as i32)),
    ] + body + seq![Instr::Leave, Instr::Ret]
}

/// The scope a frame's body starts in: slot 1 free, no loop, and `rsp`
/// aligned exactly when the frame holds an even number of slots (the
/// return address and saved `rbp` take 16 bytes).
pub open spec fn body_scope(e: Expr, env: Map<Seq<char>, i32>) -> Scope {
    Scope { si: 1, env, brake: None, aligned: depth(e) % 2 == 0, in_args: false }
}

pub open spec fn lower_func_body(
    lbl: Label,
    e: Expr,
    env: Map<Seq<char>, i32>,
    fs: Seq<Func>,
    l: u64,
) -> Result<(Seq<Instr>, u64), CompileError> {
    if depth(e) >= SLOT_LIMIT {
        Err(CompileError::TooLarge)
    } else {
        match lower(e, body_scope(e, env), fs, l) {
            Ok((c, l1)) => Ok((frame_code(lbl, depth(e), c), l1)),
            Err(x) => Err(x),
        }
    }
}

/// The environment of a function body: parameter `k` at `[rbp + 16 + 8k]`.
pub open spec fn args_env(args: Seq<String>, k: int) -> Map<Seq<char>, i32>
    decreases k,
{
    if k <= 0 {
        Map::empty()
    } else {
        args_env(args, k - 1).insert(args[k - 1]@, (k + 1) as i32)
    }
}

pub open spec fn has_dup_names(args: Seq<String>) -> bool {
    exists|i: int, j: int| 0 <= i < j < args.len() && (#[trigger] args[i])@ == (#[trigger] args[j])@
}

/// Whether function `i` repeats the name of an earlier one.
pub open spec fn func_defined_before(fs: Seq<Func>, i: int) -> bool {
    exists|j: int| 0 <= j < i && (#[trigger] fs[j]).name@ == fs[i].name@
}

/// The first function from `i` on whose name an earlier one has.
pub open spec fn first_dup_func(fs: Seq<Func>, i: int) -> Option<int>
    decreases fs.len() - i,
{
    if i < 0 || i >= fs.len() {
        None
    } else if func_defined_before(fs, i) {
        Some(i)
    } else {
        first_dup_func(fs, i + 1)
    }
}

/// The code of the functions from `i` on.
pub open spec fn lower_funcs(fs: Seq<Func>, i: int, l: u64) -> Result<(Seq<Instr>, u64), CompileError>
    decreases fs.len() - i,
{
    if i < 0 || i >= fs.len() {
        Ok((Seq::empty(), l))
    } else {
        let f = fs[i];
        if has_dup_names(f.args@) {
            Err(CompileError::DuplicateArgument(f.name))
        } else if f.args.len() + 2 > SLOT_LIMIT {
            Err(CompileError::TooLarge)
        } else {
            match lower_func_body(
                Label::Func(f.name),
                f.expr,
                args_env(f.args@, f.args.len() as int),
                fs,
                l,
            ) {
                Ok((c, l1)) => match lower_funcs(fs, i + 1, l1) {
                    Ok((rest, l2)) => Ok((c + rest, l2)),
                    Err(x) => Err(x),
                },
                Err(x) => Err(x),
            }
        }
    }
}

/// The shared error trampoline: realign, pass the code, report.
pub open spec fn trampoline_code() -> Seq<Instr> {
    seq![
        Instr::Label(Label::Error),
        Instr::And(reg(Reg::RSP), Val::Imm64(-16i64)),
        Instr::Mov(reg(Reg::RDI), reg(Reg::RSI)),
        Instr::Call(Label::SnekError),
    ]
}

/// The environment of the main expression: only `input`, in `rdi`.
pub open spec fn main_env() -> Map<Seq<char>, i32> {
    Map::empty().insert("input"@, i32::MAX)
}

/// The instructions of a whole program, or the first error met: duplicate
/// function names, then each function in order, then the main expression.
pub open spec fn lower_prog(fs: Seq<Func>, main: Expr) -> Result<Seq<Instr>, CompileError> {
    match first_dup_func(fs, 0) {
        Some(i) => Err(CompileError::DuplicateFunction(fs[i].name)),
        None => match lower_funcs(fs, 0, 0) {
            Ok((cf, l)) => match lower_func_body(Label::MainBody, main, main_env(), fs, l) {
                Ok((cm, _)) => Ok(
                    trampoline_code() + cf + seq![
                        Instr::Label(Label::Entry),
                        Instr::Mov(reg(Reg::R15), reg(Reg::RSI)),
                    ] + cm,
                ),
                Err(x) => Err(x),
            },
            Err(x) => Err(x),
        },
    }
}

pub open spec fn header_text() -> Seq<char> {
    "section .text\nextern snek_error\nextern snek_print\nextern snek_structural_eq_true\nglobal our_code_starts_here\n"@
}

/// The assembly text of a program's instructions.
pub open spec fn program_text(code: Seq<Instr>) -> Seq<char> {
    header_text() + instrs_text(code)
}

} // verus!
