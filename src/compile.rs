//! The code generator: lowers expressions to instructions, proved to emit
//! exactly what `lower` states.
use vstd::prelude::*;

use crate::ast::{
    dep, depth, Prog, lemma_binds_depth_ge, lemma_depth_nonneg, lemma_indexed_depth_ge, lemma_list_depth_ge,
    Expr, Func, Op1, Op2, SLOT_LIMIT,
};
use crate::env::{env_clone, env_get, env_map, env_new, env_update};
use crate::instr::{push_instrs, Cond, Instr, Label, Reg, Val};
use crate::lower::{
    arity_from, arity_of, binop_code, bound_before, bounds_code, call_code, check_mem_code,
    check_num_code, check_overflow_code, compare_code, copy_code, ext_call_1, ext_call_2,
    arg_scope, flag_bool_code, id_source, if_code, rax, index_code, loop_code, lower, lower_args, lower_binds,
    lower_block, lower_elems, slot, tuple_alloc_code, tuple_set_code, unop_code,
    with_brake, with_env, with_si, arith_code, CompileError, Scope, args_env, body_scope,
    first_dup_func, frame_code, func_defined_before, has_dup_names, header_text, lower_func_body,
    lower_funcs, lower_prog, main_env, program_text, trampoline_code,
};
use crate::value::{INT_MAX, INT_MIN};

verus! {

broadcast use vstd::std_specs::vec::group_vec_axioms;

/// The compile-time context of an expression.
pub struct Context {
    /// The next free local slot.
    pub si: i32,
    pub env: im::HashMap<String, i32>,
    /// The number of the label that `break` jumps to, inside a loop.
    pub brake: Option<u64>,
    /// Whether `rsp` is 16-byte aligned here.
    pub aligned: bool,
    /// Whether this is an argument of a call, outside any loop of its own.
    pub in_args: bool,
}

impl View for Context {
    type V = Scope;

    open spec fn view(&self) -> Scope {
        Scope {
            si: self.si as int,
            env: env_map(self.env),
            brake: self.brake,
            aligned: self.aligned,
            in_args: self.in_args,
        }
    }
}

/// Every binding is the input sentinel or a slot offset the frame can hold.
pub open spec fn env_ok(env: Map<Seq<char>, i32>) -> bool {
    forall|k: Seq<char>|
        #![trigger env[k]]
        env.contains_key(k) ==> (env[k] == i32::MAX || -SLOT_LIMIT <= env[k] <= SLOT_LIMIT)
}

/// `e` can be lowered in `sc` without running out of slots.
pub open spec fn scope_ok(sc: Scope, e: Expr) -> bool {
    1 <= sc.si && sc.si + depth(e) <= SLOT_LIMIT && env_ok(sc.env)
}

/// The instructions emitted, the label counter and the result agree with
/// what `lower` states.
pub open spec fn emitted(
    res: Result<(Seq<Instr>, u64), CompileError>,
    r: Result<(), CompileError>,
    label: u64,
    before: Seq<Instr>,
    after: Seq<Instr>,
) -> bool {
    match res {
        Ok((code, l)) => r is Ok && after == before + code && label == l,
        Err(x) => r == Err::<(), CompileError>(x),
    }
}

/// `done` followed by what `rest` emits.
pub open spec fn then_code(done: Seq<Instr>, rest: Result<(Seq<Instr>, u64), CompileError>) -> Result<
    (Seq<Instr>, u64),
    CompileError,
> {
    match rest {
        Ok((c, l)) => Ok((done + c, l)),
        Err(x) => Err(x),
    }
}

pub open spec fn then_binds(
    done: Seq<Instr>,
    rest: Result<(Seq<Instr>, u64, Map<Seq<char>, i32>), CompileError>,
) -> Result<(Seq<Instr>, u64, Map<Seq<char>, i32>), CompileError> {
    match rest {
        Ok((c, l, env)) => Ok((done + c, l, env)),
        Err(x) => Err(x),
    }
}

proof fn lemma_then_code(a: Seq<Instr>, b: Seq<Instr>, rest: Result<(Seq<Instr>, u64), CompileError>)
    ensures
        then_code(a, then_code(b, rest)) == then_code(a + b, rest),
{
    if let Ok((c, l)) = rest {
        assert(a + (b + c) =~= (a + b) + c);
    }
}

proof fn lemma_then_binds(
    a: Seq<Instr>,
    b: Seq<Instr>,
    rest: Result<(Seq<Instr>, u64, Map<Seq<char>, i32>), CompileError>,
)
    ensures
        then_binds(a, then_binds(b, rest)) == then_binds(a + b, rest),
{
    if let Ok((c, l, env)) = rest {
        assert(a + (b + c) =~= (a + b) + c);
    }
}

fn slot_val(si: i32) -> (v: Val)
    requires
        0 <= si <= SLOT_LIMIT,
    ensures
        v == slot(si as int),
{
    Val::RegOffset(Reg::RBP, -8 * si)
}

fn id_val(w: i32) -> (v: Val)
    requires
        w == i32::MAX || -SLOT_LIMIT <= w <= SLOT_LIMIT,
    ensures
        v == id_source(w),
{
    if w == i32::MAX {
        Val::Reg(Reg::RDI)
    } else {
        Val::RegOffset(Reg::RBP, 8 * w)
    }
}

fn check_num(instrs: &mut Vec<Instr>)
    ensures
        final(instrs)@ == old(instrs)@ + check_num_code(),
{
    instrs.push(Instr::Test(Val::Reg(Reg::RAX), Val::Imm64(1)));
    instrs.push(Instr::Mov(Val::Reg(Reg::RSI), Val::Imm64(1)));
    instrs.push(Instr::J(Cond::Ne, Label::Error));
    assert(instrs@ =~= old(instrs)@ + check_num_code());
}

fn check_mem(instrs: &mut Vec<Instr>)
    ensures
        final(instrs)@ == old(instrs)@ + check_mem_code(),
{
    instrs.push(Instr::Mov(Val::Reg(Reg::RSI), Val::Reg(Reg::RAX)));
    instrs.push(Instr::And(Val::Reg(Reg::RSI), Val::Imm64(3)));
    instrs.push(Instr::Cmp(Val::Reg(Reg::RSI), Val::Imm64(1)));
    instrs.push(Instr::Mov(Val::Reg(Reg::RSI), Val::Imm64(1)));
    instrs.push(Instr::J(Cond::Ne, Label::Error));
    assert(instrs@ =~= old(instrs)@ + check_mem_code());
}

fn check_overflow(instrs: &mut Vec<Instr>)
    ensures
        final(instrs)@ == old(instrs)@ + check_overflow_code(),
{
    instrs.push(Instr::Mov(Val::Reg(Reg::RSI), Val::Imm64(2)));
    instrs.push(Instr::J(Cond::O, Label::Error));
    assert(instrs@ =~= old(instrs)@ + check_overflow_code());
}

fn flag_bool(instrs: &mut Vec<Instr>, c: Cond)
    ensures
        final(instrs)@ == old(instrs)@ + flag_bool_code(c),
{
    instrs.push(Instr::Mov(Val::Reg(Reg::RAX), Val::Imm64(3)));
    instrs.push(Instr::Mov(Val::Reg(Reg::RBX), Val::Imm64(7)));
    instrs.push(Instr::Cmov(c, Val::Reg(Reg::RAX), Val::Reg(Reg::RBX)));
    assert(instrs@ =~= old(instrs)@ + flag_bool_code(c));
}

fn compare(instrs: &mut Vec<Instr>, c: Cond, si: i32)
    requires
        0 <= si <= SLOT_LIMIT,
    ensures
        final(instrs)@ == old(instrs)@ + compare_code(c, si as int),
{
    instrs.push(Instr::Cmp(Val::Reg(Reg::RAX), slot_val(si)));
    instrs.push(Instr::Mov(Val::Reg(Reg::RBX), Val::Imm32(7)));
    instrs.push(Instr::Mov(Val::Reg(Reg::RAX), Val::Imm32(3)));
    instrs.push(Instr::Cmov(c, Val::Reg(Reg::RAX), Val::Reg(Reg::RBX)));
    assert(instrs@ =~= old(instrs)@ + compare_code(c, si as int));
}

/// Calls the runtime helper `l` on `a1`, keeping `rdi` and the alignment.
fn compile_external_call_1(a1: Val, l: Label, aligned: bool, instrs: &mut Vec<Instr>)
    ensures
        final(instrs)@ == old(instrs)@ + ext_call_1(a1, l, aligned),
{
    if aligned {
        instrs.push(Instr::Sub(Val::Reg(Reg::RSP), Val::Imm32(8)));
    }
    instrs.push(Instr::Push(Val::Reg(Reg::RDI)));
    instrs.push(Instr::Mov(Val::Reg(Reg::RDI), a1));
    instrs.push(Instr::Call(l));
    instrs.push(Instr::Pop(Val::Reg(Reg::RDI)));
    if aligned {
        instrs.push(Instr::Add(Val::Reg(Reg::RSP), Val::Imm32(8)));
    }
    assert(instrs@ =~= old(instrs)@ + ext_call_1(a1, l, aligned));
}

/// Calls the runtime helper `l` on `a1` and `a2`, keeping `rdi`, `rsi` and
/// the alignment.
fn compile_external_call_2(a1: Val, a2: Val, l: Label, aligned: bool, instrs: &mut Vec<Instr>)
    ensures
        final(instrs)@ == old(instrs)@ + ext_call_2(a1, a2, l, aligned),
{
    if !aligned {
        instrs.push(Instr::Sub(Val::Reg(Reg::RSP), Val::Imm32(8)));
    }
    instrs.push(Instr::Push(Val::Reg(Reg::RDI)));
    instrs.push(Instr::Push(Val::Reg(Reg::RSI)));
    instrs.push(Instr::Mov(Val::Reg(Reg::RDI), a1));
    instrs.push(Instr::Mov(Val::Reg(Reg::RSI), a2));
    instrs.push(Instr::Call(l));
    instrs.push(Instr::Pop(Val::Reg(Reg::RSI)));
    instrs.push(Instr::Pop(Val::Reg(Reg::RDI)));
    if !aligned {
        instrs.push(Instr::Add(Val::Reg(Reg::RSP), Val::Imm32(8)));
    }
    assert(instrs@ =~= old(instrs)@ + ext_call_2(a1, a2, l, aligned));
}

fn unop_tail(o: Op1, aligned: bool, instrs: &mut Vec<Instr>)
    ensures
        final(instrs)@ == old(instrs)@ + unop_code(o, aligned),
{
    match o {
        Op1::Add1 => {
            check_num(instrs);
            instrs.push(Instr::Add(Val::Reg(Reg::RAX), Val::Imm32(2)));
            check_overflow(instrs);
        },
        Op1::Sub1 => {
            check_num(instrs);
            instrs.push(Instr::Sub(Val::Reg(Reg::RAX), Val::Imm32(2)));
            check_overflow(instrs);
        },
        Op1::IsNum => {
            instrs.push(Instr::Test(Val::Reg(Reg::RAX), Val::Imm64(1)));
            flag_bool(instrs, Cond::E);
        },
        Op1::IsBool => {
            instrs.push(Instr::And(Val::Reg(Reg::RAX), Val::Imm64(3)));
            instrs.push(Instr::Cmp(Val::Reg(Reg::RAX), Val::Imm64(3)));
            flag_bool(instrs, Cond::E);
        },
        Op1::IsTuple => {
            instrs.push(Instr::And(Val::Reg(Reg::RAX), Val::Imm64(3)));
            instrs.push(Instr::Cmp(Val::Reg(Reg::RAX), Val::Imm64(1)));
            flag_bool(instrs, Cond::E);
        },
        Op1::Print => compile_external_call_1(Val::Reg(Reg::RAX), Label::Print, aligned, instrs),
    }
    assert(instrs@ =~= old(instrs)@ + unop_code(o, aligned));
}

fn arith(o: Op2, si: i32, instrs: &mut Vec<Instr>)
    requires
        0 <= si <= SLOT_LIMIT,
    ensures
        final(instrs)@ == old(instrs)@ + arith_code(o, si as int),
{
    match o {
        Op2::Plus => {
            instrs.push(Instr::Add(Val::Reg(Reg::RAX), slot_val(si)));
            check_overflow(instrs);
        },
        Op2::Minus => {
            instrs.push(Instr::Sub(Val::Reg(Reg::RAX), slot_val(si)));
            check_overflow(instrs);
        },
        Op2::Times => {
            instrs.push(Instr::Sar(Val::Reg(Reg::RAX), Val::Imm32(1)));
            instrs.push(Instr::Imul(Val::Reg(Reg::RAX), slot_val(si)));
            check_overflow(instrs);
        },
        Op2::Less => compare(instrs, Cond::L, si),
        Op2::LessEqual => compare(instrs, Cond::Le, si),
        Op2::Greater => compare(instrs, Cond::G, si),
        _ => compare(instrs, Cond::Ge, si),
    }
    assert(instrs@ =~= old(instrs)@ + arith_code(o, si as int));
}

fn bounds(si: i32, instrs: &mut Vec<Instr>)
    requires
        0 <= si <= SLOT_LIMIT,
    ensures
        final(instrs)@ == old(instrs)@ + bounds_code(si as int),
{
    check_mem(instrs);
    instrs.push(Instr::Mov(Val::Reg(Reg::RSI), Val::Imm64(3)));
    instrs.push(Instr::Cmp(Val::Reg(Reg::RAX), Val::Imm32(1)));
    instrs.push(Instr::J(Cond::E, Label::Error));
    instrs.push(Instr::Mov(Val::Reg(Reg::RBX), slot_val(si)));
    instrs.push(Instr::And(Val::Reg(Reg::RAX), Val::Imm32(-8)));
    instrs.push(Instr::Cmp(Val::Reg(Reg::RBX), Val::RegOffset(Reg::RAX, 0)));
    instrs.push(Instr::J(Cond::Ge, Label::Error));
    instrs.push(Instr::Cmp(Val::Reg(Reg::RBX), Val::Imm32(0)));
    instrs.push(Instr::J(Cond::L, Label::Error));
    instrs.push(Instr::And(Val::Reg(Reg::RAX), Val::Imm32(-8)));
    assert(instrs@ =~= old(instrs)@ + bounds_code(si as int));
}

fn tuple_alloc(si: i32, n: usize, instrs: &mut Vec<Instr>)
    requires
        1 <= si,
        si + n <= SLOT_LIMIT + 1,
        n <= SLOT_LIMIT,
    ensures
        final(instrs)@ == old(instrs)@ + tuple_alloc_code(si as int, n as int),
{
    instrs.push(Instr::Mov(Val::Reg(Reg::RAX), Val::Imm64((n as i64) * 2)));
    instrs.push(Instr::Mov(Val::RegOffset(Reg::R15, 0), Val::Reg(Reg::RAX)));
    let ghost head = instrs@;
    let mut i: usize = 0;
    while i < n
        invariant
            1 <= si,
            si + n <= SLOT_LIMIT + 1,
            n <= SLOT_LIMIT,
            i <= n,
            instrs@ == head + copy_code(si as int, i as int),
        decreases n - i,
    {
        instrs.push(Instr::Mov(Val::Reg(Reg::RAX), slot_val(si + i as i32)));
        instrs.push(Instr::Mov(Val::RegOffset(Reg::R15, 8 * (i as i32 + 1)), Val::Reg(Reg::RAX)));
        i = i + 1;
        assert(instrs@ =~= head + copy_code(si as int, i as int));
    }
    instrs.push(Instr::Mov(Val::Reg(Reg::RAX), Val::Reg(Reg::R15)));
    instrs.push(Instr::Xor(Val::Reg(Reg::RAX), Val::Imm32(1)));
    instrs.push(Instr::Add(Val::Reg(Reg::R15), Val::Imm32(8 * (n as i32 + 1))));
    assert(instrs@ =~= old(instrs)@ + tuple_alloc_code(si as int, n as int));
}

/// Takes the next label number.
fn new_label(label: &mut u64) -> (r: u64)
    requires
        *old(label) < u64::MAX,
    ensures
        r == *old(label),
        *final(label) == *old(label) + 1,
{
    let cur = *label;
    *label = cur + 1;
    cur
}

fn sub_context(c: &Context, si: i32) -> (r: Context)
    ensures
        r@ == with_si(c@, si as int),
{
    Context { si, env: env_clone(&c.env), brake: c.brake, aligned: c.aligned, in_args: c.in_args }
}

fn arg_context(c: &Context, aligned: bool) -> (r: Context)
    ensures
        r@ == arg_scope(c@, aligned),
{
    Context { si: c.si, env: env_clone(&c.env), brake: None, aligned, in_args: true }
}

/// The parameter count of the first function named `name`.
fn find_arity(fs: &Vec<Func>, name: &String) -> (r: Option<usize>)
    ensures
        r matches Some(n) ==> arity_of(fs@, name@) == Some(n as nat),
        r is None ==> arity_of(fs@, name@) is None,
{
    let mut i: usize = 0;
    while i < fs.len()
        invariant
            i <= fs@.len(),
            arity_of(fs@, name@) == arity_from(fs@, name@, i as int),
        decreases fs@.len() - i,
    {
        if fs[i].name == *name {
            return Some(fs[i].args.len());
        }
        i = i + 1;
    }
    None
}

/// Lowers `e`, appending its code to `instrs`.
pub fn compile_expr(
    e: &Expr,
    c: &Context,
    fs: &Vec<Func>,
    label: &mut u64,
    instrs: &mut Vec<Instr>,
) -> (r: Result<(), CompileError>)
    requires
        scope_ok(c@, *e),
    ensures
        emitted(lower(*e, c@, fs@, *old(label)), r, *final(label), old(instrs)@, final(instrs)@),
    decreases e, 1int,
{
    proof {
        lemma_depth_nonneg(*e);
    }
    match e {
        Expr::Number(n) => {
            if *n < INT_MIN || *n > INT_MAX {
                return Err(CompileError::LiteralOutOfRange);
            }
            instrs.push(Instr::Mov(Val::Reg(Reg::RAX), Val::Imm64(*n * 2)));
            assert(instrs@ =~= old(instrs)@ + lower(*e, c@, fs@, *old(label))->Ok_0.0);
            Ok(())
        },
        Expr::Boolean(b) => {
            instrs.push(
                Instr::Mov(
                    Val::Reg(Reg::RAX),
                    Val::Imm32(
                        if *b {
                            7
                        } else {
                            3
                        },
                    ),
                ),
            );
            assert(instrs@ =~= old(instrs)@ + lower(*e, c@, fs@, *old(label))->Ok_0.0);
            Ok(())
        },
        Expr::Id(id) => match env_get(&c.env, id) {
            Some(w) => {
                instrs.push(Instr::Mov(Val::Reg(Reg::RAX), id_val(w)));
                assert(instrs@ =~= old(instrs)@ + lower(*e, c@, fs@, *old(label))->Ok_0.0);
                Ok(())
            },
            None => Err(CompileError::UnboundVariable(id.clone())),
        },
        Expr::UnOp(_, _) => compile_unary_op(e, c, fs, label, instrs),
        Expr::BinOp(_, _, _) => compile_binary_op(e, c, fs, label, instrs),
        Expr::Let(_, _) => compile_let(e, c, fs, label, instrs),
        Expr::Assign(id, e1) => {
            let r1 = compile_expr(e1, c, fs, label, instrs);
            if r1.is_err() {
                return r1;
            }
            match env_get(&c.env, id) {
                Some(w) => {
                    if w == i32::MAX {
                        return Err(CompileError::UnboundVariable(id.clone()));
                    }
                    instrs.push(Instr::Mov(id_val(w), Val::Reg(Reg::RAX)));
                    Ok(())
                },
                None => Err(CompileError::UnboundVariable(id.clone())),
            }
        },
        Expr::Block(es) => {
            let ghost sc = c@;
            let ghost before = old(instrs)@;
            let ghost total = lower_block(*es, 0, sc, fs@, *old(label));
            let mut i: usize = 0;
            assert(total == then_code(Seq::empty(), lower_block(*es, 0, sc, fs@, *label))) by {
                lemma_then_empty(lower_block(*es, 0, sc, fs@, *label));
            }
            assert(instrs@ =~= before + Seq::<Instr>::empty());
            while i < es.len()
                invariant
                    sc == c@,
                    scope_ok(sc, *e),
                    *e matches Expr::Block(v) && v == *es,
                    total == lower(*e, sc, fs@, *old(label)),
                    i <= es.len(),
                    exists|done: Seq<Instr>|
                        instrs@ == before + done && total == then_code(
                            done,
                            lower_block(*es, i as int, sc, fs@, *label),
                        ),
                decreases es.len() - i,
            {
                let ghost done = choose|done: Seq<Instr>|
                    instrs@ == before + done && total == then_code(
                        done,
                        lower_block(*es, i as int, sc, fs@, *label),
                    );
                let ghost l0 = *label;
                let ghost mid = instrs@;
                proof {
                    lemma_list_depth_ge(*es, es.len() as int, i as int);
                }
                let r1 = compile_expr(&es[i], c, fs, label, instrs);
                if r1.is_err() {
                    assert(lower_block(*es, i as int, sc, fs@, l0) == lower(es[i as int], sc, fs@, l0));
                    return r1;
                }
                let ghost step = lower(es[i as int], sc, fs@, l0)->Ok_0.0;
                proof {
                    lemma_then_code(done, step, lower_block(*es, i + 1, sc, fs@, *label));
                    assert(instrs@ =~= before + (done + step));
                }
                i = i + 1;
            }
            proof {
                let done = choose|done: Seq<Instr>|
                    instrs@ == before + done && total == then_code(
                        done,
                        lower_block(*es, i as int, sc, fs@, *label),
                    );
                assert(done + Seq::<Instr>::empty() =~= done);
            }
            Ok(())
        },
        Expr::If(_, _, _) => compile_if(e, c, fs, label, instrs),
        Expr::Loop(_) => compile_loop(e, c, fs, label, instrs),
        Expr::Break(e1) => match c.brake {
            None => if c.in_args {
                Err(CompileError::BreakInArgument)
            } else {
                Err(CompileError::BreakOutsideLoop)
            },
            Some(b) => {
                let r1 = compile_expr(e1, c, fs, label, instrs);
                if r1.is_err() {
                    return r1;
                }
                instrs.push(Instr::J(Cond::Always, Label::LoopEnd(b)));
                Ok(())
            },
        },
        Expr::Call(_, _) => compile_call(e, c, fs, label, instrs),
        Expr::Tuple(_) => compile_tuple(e, c, fs, label, instrs),
        Expr::TupleGet(_, _) => compile_index(e, c, fs, label, instrs),
        Expr::TupleSet(_, _, _) => compile_tuple_set(e, c, fs, label, instrs),
    }
}

proof fn lemma_then_empty(rest: Result<(Seq<Instr>, u64), CompileError>)
    ensures
        rest == then_code(Seq::empty(), rest),
{
    if let Ok((c, l)) = rest {
        assert(Seq::<Instr>::empty() + c =~= c);
    }
}

fn compile_unary_op(
    e: &Expr,
    c: &Context,
    fs: &Vec<Func>,
    label: &mut u64,
    instrs: &mut Vec<Instr>,
) -> (r: Result<(), CompileError>)
    requires
        e is UnOp,
        scope_ok(c@, *e),
    ensures
        emitted(lower(*e, c@, fs@, *old(label)), r, *final(label), old(instrs)@, final(instrs)@),
    decreases e, 0int,
{
    match e {
        Expr::UnOp(o, e1) => {
            let r1 = compile_expr(e1, c, fs, label, instrs);
            if r1.is_err() {
                return r1;
            }
            let ghost c1 = lower(**e1, c@, fs@, *old(label))->Ok_0.0;
            unop_tail(*o, c.aligned, instrs);
            assert(instrs@ =~= old(instrs)@ + (c1 + unop_code(*o, c@.aligned)));
            Ok(())
        },
        _ => Ok(()),
    }
}

fn compile_binary_op(
    e: &Expr,
    c: &Context,
    fs: &Vec<Func>,
    label: &mut u64,
    instrs: &mut Vec<Instr>,
) -> (r: Result<(), CompileError>)
    requires
        e is BinOp,
        scope_ok(c@, *e),
    ensures
        emitted(lower(*e, c@, fs@, *old(label)), r, *final(label), old(instrs)@, final(instrs)@),
    decreases e, 0int,
{
    proof {
        lemma_depth_nonneg(*e);
    }
    match e {
        Expr::BinOp(o, e1, e2) => {
            proof {
                lemma_depth_nonneg(**e1);
                lemma_depth_nonneg(**e2);
            }
            let ghost l0 = *old(label);
            let r2 = compile_expr(e2, c, fs, label, instrs);
            if r2.is_err() {
                return r2;
            }
            let ghost c2 = lower(**e2, c@, fs@, l0)->Ok_0.0;
            let ghost l1 = *label;
            let ghost a = instrs@;
            let numeric = !(*o == Op2::Equal || *o == Op2::StEq);
            if numeric {
                check_num(instrs);
            }
            instrs.push(Instr::Mov(slot_val(c.si), Val::Reg(Reg::RAX)));
            let ghost b = instrs@;
            let c1x = sub_context(c, c.si + 1);
            let r1 = compile_expr(e1, &c1x, fs, label, instrs);
            if r1.is_err() {
                return r1;
            }
            let ghost c1 = lower(**e1, with_si(c@, c@.si + 1), fs@, l1)->Ok_0.0;
            match o {
                Op2::Equal => compare(instrs, Cond::E, c.si),
                Op2::StEq => compile_external_call_2(
                    Val::Reg(Reg::RAX),
                    slot_val(c.si),
                    Label::StructEq,
                    c.aligned,
                    instrs,
                ),
                _ => {
                    check_num(instrs);
                    arith(*o, c.si, instrs);
                },
            }
            assert(instrs@ =~= old(instrs)@ + binop_code(*o, c2, c1, c@.si, c@.aligned));
            Ok(())
        },
        _ => Ok(()),
    }
}

fn compile_let(
    e: &Expr,
    c: &Context,
    fs: &Vec<Func>,
    label: &mut u64,
    instrs: &mut Vec<Instr>,
) -> (r: Result<(), CompileError>)
    requires
        e is Let,
        scope_ok(c@, *e),
    ensures
        emitted(lower(*e, c@, fs@, *old(label)), r, *final(label), old(instrs)@, final(instrs)@),
    decreases e, 0int,
{
    match e {
        Expr::Let(bs, body) => {
            let ghost sc = c@;
            let ghost before = old(instrs)@;
            let ghost total = lower_binds(*bs, 0, sc, fs@, *old(label));
            let mut t = env_clone(&c.env);
            let mut m_si: i32 = c.si;
            let mut i: usize = 0;
            proof {
                lemma_then_binds_empty(total);
                assert(instrs@ =~= before + Seq::<Instr>::empty());
                assert(with_env(sc, env_map(t)) == sc);
            }
            while i < bs.len()
                invariant
                    sc == c@,
                    scope_ok(sc, *e),
                    *e matches Expr::Let(v, bd) && v == *bs && bd == *body,
                    total is Err ==> lower(*e, sc, fs@, *old(label)) == Err::<
                        (Seq<Instr>, u64),
                        CompileError,
                    >(total->Err_0),
                    i <= bs.len(),
                    m_si == sc.si + i,
                    env_ok(env_map(t)),
                    exists|done: Seq<Instr>|
                        instrs@ == before + done && total == then_binds(
                            done,
                            lower_binds(*bs, i as int, with_env(sc, env_map(t)), fs@, *label),
                        ),
                decreases bs.len() - i,
            {
                let ghost done = choose|done: Seq<Instr>|
                    instrs@ == before + done && total == then_binds(
                        done,
                        lower_binds(*bs, i as int, with_env(sc, env_map(t)), fs@, *label),
                    );
                let ghost l0 = *label;
                let ghost sci = with_env(sc, env_map(t));
                proof {
                    lemma_binds_depth_ge(*bs, bs.len() as int, i as int);
                    lemma_depth_nonneg(bs[i as int].1);
                }
                if bound_earlier(bs, i) {
                    return Err(CompileError::DuplicateBinding(bs[i].0.clone()));
                }
                assert(!bound_before(*bs, i as int));
                let ci = Context { si: m_si, env: env_clone(&t), brake: c.brake, aligned: c.aligned, in_args: c.in_args };
                assert(ci@ == with_si(sci, sci.si + i));
                let r1 = compile_expr(&bs[i].1, &ci, fs, label, instrs);
                if r1.is_err() {
                    return r1;
                }
                let ghost step = lower(bs[i as int].1, with_si(sci, sci.si + i), fs@, l0)->Ok_0.0;
                instrs.push(Instr::Mov(slot_val(m_si), Val::Reg(Reg::RAX)));
                t = env_update(&t, bs[i].0.clone(), -m_si);
                proof {
                    let step2 = step.push(Instr::Mov(slot(sc.si + i), rax()));
                    lemma_then_binds(
                        done,
                        step2,
                        lower_binds(*bs, i + 1, with_env(sc, env_map(t)), fs@, *label),
                    );
                    assert(instrs@ =~= before + (done + step2));
                    assert(with_env(sci, sci.env.insert(bs[i as int].0@, (-(sci.si + i)) as i32))
                        == with_env(sc, env_map(t)));
                }
                m_si = m_si + 1;
                i = i + 1;
            }
            let ghost done = choose|done: Seq<Instr>|
                instrs@ == before + done && total == then_binds(
                    done,
                    lower_binds(*bs, i as int, with_env(sc, env_map(t)), fs@, *label),
                );
            proof {
                assert(done + Seq::<Instr>::empty() =~= done);
            }
            let ghost lb = *label;
            let ghost mid = instrs@;
            let cb = Context { si: m_si, env: t, brake: c.brake, aligned: c.aligned, in_args: c.in_args };
            assert(cb@ == with_env(with_si(sc, sc.si + bs.len()), env_map(t)));
            let rb = compile_expr(body, &cb, fs, label, instrs);
            if rb.is_err() {
                return rb;
            }
            proof {
                let code = lower(**body, cb@, fs@, lb)->Ok_0.0;
                assert(instrs@ =~= before + (done + code));
            }
            Ok(())
        },
        _ => Ok(()),
    }
}

/// Whether the binding at `i` repeats the name of an earlier one.
fn bound_earlier(bs: &Vec<(String, Expr)>, i: usize) -> (r: bool)
    requires
        i < bs.len(),
    ensures
        r == bound_before(*bs, i as int),
{
    let mut j: usize = 0;
    while j < i
        invariant
            j <= i < bs.len(),
            forall|k: int| 0 <= k < j ==> (#[trigger] bs[k]).0@ != bs[i as int].0@,
        decreases i - j,
    {
        if bs[j].0 == bs[i].0 {
            return true;
        }
        j = j + 1;
    }
    false
}

proof fn lemma_then_binds_empty(rest: Result<(Seq<Instr>, u64, Map<Seq<char>, i32>), CompileError>)
    ensures
        rest == then_binds(Seq::empty(), rest),
{
    if let Ok((c, l, env)) = rest {
        assert(Seq::<Instr>::empty() + c =~= c);
    }
}

fn compile_if(
    e: &Expr,
    c: &Context,
    fs: &Vec<Func>,
    label: &mut u64,
    instrs: &mut Vec<Instr>,
) -> (r: Result<(), CompileError>)
    requires
        e is If,
        scope_ok(c@, *e),
    ensures
        emitted(lower(*e, c@, fs@, *old(label)), r, *final(label), old(instrs)@, final(instrs)@),
    decreases e, 0int,
{
    match e {
        Expr::If(cond, thn, els) => {
            if *label > u64::MAX - 2 {
                return Err(CompileError::TooLarge);
            }
            let lend = new_label(label);
            let lelse = new_label(label);
            let ghost l1 = *label;
            let rc = compile_expr(cond, c, fs, label, instrs);
            if rc.is_err() {
                return rc;
            }
            let ghost cc = lower(**cond, c@, fs@, l1)->Ok_0.0;
            let ghost l2 = *label;
            instrs.push(Instr::Cmp(Val::Reg(Reg::RAX), Val::Imm32(3)));
            instrs.push(Instr::J(Cond::E, Label::IfElse(lelse)));
            let rt = compile_expr(thn, c, fs, label, instrs);
            if rt.is_err() {
                return rt;
            }
            let ghost ct = lower(**thn, c@, fs@, l2)->Ok_0.0;
            let ghost l3 = *label;
            instrs.push(Instr::J(Cond::Always, Label::IfEnd(lend)));
            instrs.push(Instr::Label(Label::IfElse(lelse)));
            let rf = compile_expr(els, c, fs, label, instrs);
            if rf.is_err() {
                return rf;
            }
            let ghost cf = lower(**els, c@, fs@, l3)->Ok_0.0;
            instrs.push(Instr::Label(Label::IfEnd(lend)));
            assert(instrs@ =~= old(instrs)@ + if_code(cc, ct, cf, lend, lelse));
            Ok(())
        },
        _ => Ok(()),
    }
}

fn compile_loop(
    e: &Expr,
    c: &Context,
    fs: &Vec<Func>,
    label: &mut u64,
    instrs: &mut Vec<Instr>,
) -> (r: Result<(), CompileError>)
    requires
        e is Loop,
        scope_ok(c@, *e),
    ensures
        emitted(lower(*e, c@, fs@, *old(label)), r, *final(label), old(instrs)@, final(instrs)@),
    decreases e, 0int,
{
    match e {
        Expr::Loop(e1) => {
            if *label > u64::MAX - 2 {
                return Err(CompileError::TooLarge);
            }
            let lst = new_label(label);
            let led = new_label(label);
            let ghost l1 = *label;
            instrs.push(Instr::Label(Label::Loop(lst)));
            let cl = Context {
                si: c.si,
                env: env_clone(&c.env),
                brake: Some(led),
                aligned: c.aligned,
                in_args: false,
            };
            assert(cl@ == with_brake(c@, led));
            let rb = compile_expr(e1, &cl, fs, label, instrs);
            if rb.is_err() {
                return rb;
            }
            let ghost cb = lower(**e1, cl@, fs@, l1)->Ok_0.0;
            instrs.push(Instr::J(Cond::Always, Label::Loop(lst)));
            instrs.push(Instr::Label(Label::LoopEnd(led)));
            assert(instrs@ =~= old(instrs)@ + loop_code(cb, lst, led));
            Ok(())
        },
        _ => Ok(()),
    }
}

fn compile_index(
    e: &Expr,
    c: &Context,
    fs: &Vec<Func>,
    label: &mut u64,
    instrs: &mut Vec<Instr>,
) -> (r: Result<(), CompileError>)
    requires
        e is TupleGet,
        scope_ok(c@, *e),
    ensures
        emitted(lower(*e, c@, fs@, *old(label)), r, *final(label), old(instrs)@, final(instrs)@),
    decreases e, 0int,
{
    match e {
        Expr::TupleGet(e1, i) => {
            proof {
                lemma_depth_nonneg(**e1);
                lemma_depth_nonneg(**i);
            }
            let ghost l0 = *old(label);
            let ri = compile_expr(i, c, fs, label, instrs);
            if ri.is_err() {
                return ri;
            }
            let ghost ci = lower(**i, c@, fs@, l0)->Ok_0.0;
            let ghost l1 = *label;
            check_num(instrs);
            instrs.push(Instr::Mov(slot_val(c.si), Val::Reg(Reg::RAX)));
            let c1x = sub_context(c, c.si + 1);
            let re = compile_expr(e1, &c1x, fs, label, instrs);
            if re.is_err() {
                return re;
            }
            let ghost ce = lower(**e1, c1x@, fs@, l1)->Ok_0.0;
            bounds(c.si, instrs);
            instrs.push(
                Instr::Mov(Val::Reg(Reg::RAX), Val::EffectiveAddr(Reg::RAX, Reg::RBX, 4, 8)),
            );
            assert(instrs@ =~= old(instrs)@ + index_code(ci, ce, c@.si));
            Ok(())
        },
        _ => Ok(()),
    }
}

fn compile_tuple_set(
    e: &Expr,
    c: &Context,
    fs: &Vec<Func>,
    label: &mut u64,
    instrs: &mut Vec<Instr>,
) -> (r: Result<(), CompileError>)
    requires
        e is TupleSet,
        scope_ok(c@, *e),
    ensures
        emitted(lower(*e, c@, fs@, *old(label)), r, *final(label), old(instrs)@, final(instrs)@),
    decreases e, 0int,
{
    match e {
        Expr::TupleSet(e1, i, v) => {
            proof {
                lemma_depth_nonneg(**e1);
                lemma_depth_nonneg(**i);
                lemma_depth_nonneg(**v);
            }
            let ghost l0 = *old(label);
            let ri = compile_expr(i, c, fs, label, instrs);
            if ri.is_err() {
                return ri;
            }
            let ghost ci = lower(**i, c@, fs@, l0)->Ok_0.0;
            let ghost l1 = *label;
            check_num(instrs);
            instrs.push(Instr::Mov(slot_val(c.si), Val::Reg(Reg::RAX)));
            let c1x = sub_context(c, c.si + 1);
            let re = compile_expr(e1, &c1x, fs, label, instrs);
            if re.is_err() {
                return re;
            }
            let ghost ce = lower(**e1, c1x@, fs@, l1)->Ok_0.0;
            let ghost l2 = *label;
            bounds(c.si, instrs);
            instrs.push(
                Instr::Lea(Val::Reg(Reg::RAX), Val::EffectiveAddr(Reg::RAX, Reg::RBX, 4, 8)),
            );
            instrs.push(Instr::Mov(slot_val(c.si), Val::Reg(Reg::RAX)));
            let rv = compile_expr(v, &c1x, fs, label, instrs);
            if rv.is_err() {
                return rv;
            }
            let ghost cv = lower(**v, c1x@, fs@, l2)->Ok_0.0;
            instrs.push(Instr::Mov(Val::Reg(Reg::RBX), slot_val(c.si)));
            instrs.push(Instr::Mov(Val::RegOffset(Reg::RBX, 0), Val::Reg(Reg::RAX)));
            assert(instrs@ =~= old(instrs)@ + tuple_set_code(ci, ce, cv, c@.si));
            Ok(())
        },
        _ => Ok(()),
    }
}

fn compile_tuple(
    e: &Expr,
    c: &Context,
    fs: &Vec<Func>,
    label: &mut u64,
    instrs: &mut Vec<Instr>,
) -> (r: Result<(), CompileError>)
    requires
        e is Tuple,
        scope_ok(c@, *e),
    ensures
        emitted(lower(*e, c@, fs@, *old(label)), r, *final(label), old(instrs)@, final(instrs)@),
    decreases e, 0int,
{
    match e {
        Expr::Tuple(es) => {
            if es.len() == 0 {
                instrs.push(Instr::Mov(Val::Reg(Reg::RAX), Val::Imm32(1)));
                assert(instrs@ =~= old(instrs)@ + lower(*e, c@, fs@, *old(label))->Ok_0.0);
                return Ok(());
            }
            let ghost sc = c@;
            let ghost before = old(instrs)@;
            let ghost total = lower_elems(*es, 0, sc, fs@, *old(label));
            let mut m_si: i32 = c.si;
            let mut i: usize = 0;
            proof {
                lemma_then_empty(total);
                assert(instrs@ =~= before + Seq::<Instr>::empty());
            }
            while i < es.len()
                invariant
                    sc == c@,
                    scope_ok(sc, *e),
                    *e matches Expr::Tuple(v) && v == *es,
                    total is Err ==> lower(*e, sc, fs@, *old(label)) == Err::<
                        (Seq<Instr>, u64),
                        CompileError,
                    >(total->Err_0),
                    i <= es.len(),
                    m_si == sc.si + i,
                    exists|done: Seq<Instr>|
                        instrs@ == before + done && total == then_code(
                            done,
                            lower_elems(*es, i as int, sc, fs@, *label),
                        ),
                decreases es.len() - i,
            {
                let ghost done = choose|done: Seq<Instr>|
                    instrs@ == before + done && total == then_code(
                        done,
                        lower_elems(*es, i as int, sc, fs@, *label),
                    );
                let ghost l0 = *label;
                proof {
                    lemma_indexed_depth_ge(*es, es.len() as int, i as int);
                    lemma_depth_nonneg(es[i as int]);
                }
                let ci = sub_context(c, m_si);
                let r1 = compile_expr(&es[i], &ci, fs, label, instrs);
                if r1.is_err() {
                    return r1;
                }
                let ghost step = lower(es[i as int], ci@, fs@, l0)->Ok_0.0;
                instrs.push(Instr::Mov(slot_val(m_si), Val::Reg(Reg::RAX)));
                proof {
                    let step2 = step.push(Instr::Mov(slot(sc.si + i), rax()));
                    lemma_then_code(done, step2, lower_elems(*es, i + 1, sc, fs@, *label));
                    assert(instrs@ =~= before + (done + step2));
                }
                m_si = m_si + 1;
                i = i + 1;
            }
            let ghost done = choose|done: Seq<Instr>|
                instrs@ == before + done && total == then_code(
                    done,
                    lower_elems(*es, i as int, sc, fs@, *label),
                );
            let ghost mid = instrs@;
            tuple_alloc(c.si, es.len(), instrs);
            proof {
                assert(done + Seq::<Instr>::empty() =~= done);
                assert(instrs@ =~= before + (done + tuple_alloc_code(sc.si, es.len() as int)));
            }
            Ok(())
        },
        _ => Ok(()),
    }
}

fn compile_call(
    e: &Expr,
    c: &Context,
    fs: &Vec<Func>,
    label: &mut u64,
    instrs: &mut Vec<Instr>,
) -> (r: Result<(), CompileError>)
    requires
        e is Call,
        scope_ok(c@, *e),
    ensures
        emitted(lower(*e, c@, fs@, *old(label)), r, *final(label), old(instrs)@, final(instrs)@),
    decreases e, 0int,
{
    match e {
        Expr::Call(name, args) => {
            match find_arity(fs, name) {
                None => {
                    return Err(CompileError::UndefinedFunction(name.clone()));
                },
                Some(n) => {
                    if n != args.len() {
                        return Err(CompileError::ArityMismatch(name.clone()));
                    }
                },
            }
            if args.len() >= SLOT_LIMIT as usize {
                return Err(CompileError::TooLarge);
            }
            let n = args.len();
            let pad = (n % 2 == 1) == c.aligned;
            if pad {
                instrs.push(Instr::Sub(Val::Reg(Reg::RSP), Val::Imm32(8)));
            }
            let ghost sc = c@;
            let ghost before = instrs@;
            let ghost total = lower_args(*args, n as int, n % 2 == 0, sc, fs@, *old(label));
            let mut a = n % 2 == 0;
            let mut k: usize = n;
            proof {
                lemma_then_empty(total);
                assert(instrs@ =~= before + Seq::<Instr>::empty());
            }
            while k > 0
                invariant
                    sc == c@,
                    scope_ok(sc, *e),
                    *e matches Expr::Call(nm, v) && v == *args,
                    total is Err ==> lower(*e, sc, fs@, *old(label)) == Err::<
                        (Seq<Instr>, u64),
                        CompileError,
                    >(total->Err_0),
                    k <= args.len(),
                    exists|done: Seq<Instr>|
                        instrs@ == before + done && total == then_code(
                            done,
                            lower_args(*args, k as int, a, sc, fs@, *label),
                        ),
                decreases k,
            {
                let ghost done = choose|done: Seq<Instr>|
                    instrs@ == before + done && total == then_code(
                        done,
                        lower_args(*args, k as int, a, sc, fs@, *label),
                    );
                let ghost l0 = *label;
                proof {
                    lemma_list_depth_ge(*args, args.len() as int, k - 1);
                }
                let ck = arg_context(c, a);
                let r1 = compile_expr(&args[k - 1], &ck, fs, label, instrs);
                if r1.is_err() {
                    return r1;
                }
                let ghost step = lower(args[k - 1], ck@, fs@, l0)->Ok_0.0;
                instrs.push(Instr::Push(Val::Reg(Reg::RAX)));
                proof {
                    let step2 = step.push(Instr::Push(rax()));
                    lemma_then_code(done, step2, lower_args(*args, k - 1, !a, sc, fs@, *label));
                    assert(instrs@ =~= before + (done + step2));
                }
                a = !a;
                k = k - 1;
            }
            let ghost done = choose|done: Seq<Instr>|
                instrs@ == before + done && total == then_code(
                    done,
                    lower_args(*args, k as int, a, sc, fs@, *label),
                );
            instrs.push(Instr::Call(Label::Func(name.clone())));
            let extra: i32 = if pad {
                1
            } else {
                0
            };
            instrs.push(Instr::Add(Val::Reg(Reg::RSP), Val::Imm32(8 * (n as i32 + extra))));
            proof {
                assert(done + Seq::<Instr>::empty() =~= done);
                assert(instrs@ =~= old(instrs)@ + call_code(done, *name, n as int, pad));
            }
            Ok(())
        },
        _ => Ok(()),
    }
}

/// Emits a frame labelled `lbl` around the code of `e`.
fn compile_func_body(
    lbl: Label,
    e: &Expr,
    env: im::HashMap<String, i32>,
    fs: &Vec<Func>,
    label: &mut u64,
    instrs: &mut Vec<Instr>,
) -> (r: Result<(), CompileError>)
    requires
        env_ok(env_map(env)),
    ensures
        emitted(
            lower_func_body(lbl, *e, env_map(env), fs@, *old(label)),
            r,
            *final(label),
            old(instrs)@,
            final(instrs)@,
        ),
{
    let d = dep(e);
    if d >= SLOT_LIMIT {
        return Err(CompileError::TooLarge);
    }
    let ghost glbl = lbl;
    instrs.push(Instr::Label(lbl));
    instrs.push(Instr::Push(Val::Reg(Reg::RBP)));
    instrs.push(Instr::Mov(Val::Reg(Reg::RBP), Val::Reg(Reg::RSP)));
    instrs.push(Instr::Sub(Val::Reg(Reg::RSP), Val::Imm32(8 * d as i32)));
    let ghost head = instrs@;
    let c = Context { si: 1, env, brake: None, aligned: d % 2 == 0, in_args: false };
    assert(c@ == body_scope(*e, env_map(env)));
    let rb = compile_expr(e, &c, fs, label, instrs);
    if rb.is_err() {
        return rb;
    }
    let ghost body = lower(*e, c@, fs@, *old(label))->Ok_0.0;
    instrs.push(Instr::Leave);
    instrs.push(Instr::Ret);
    assert(instrs@ =~= old(instrs)@ + frame_code(glbl, depth(*e), body));
    Ok(())
}

proof fn lemma_args_env_ok(args: Seq<String>, k: int)
    requires
        k + 2 <= SLOT_LIMIT,
    ensures
        env_ok(args_env(args, k)),
    decreases k,
{
    if k > 0 {
        lemma_args_env_ok(args, k - 1);
    }
}

fn has_duplicate(args: &Vec<String>) -> (r: bool)
    ensures
        r == has_dup_names(args@),
{
    let mut j: usize = 0;
    while j < args.len()
        invariant
            j <= args@.len(),
            forall|a: int, b: int| 0 <= a < b < j ==> (#[trigger] args@[a])@ != (#[trigger] args@[b])@,
        decreases args@.len() - j,
    {
        let mut i: usize = 0;
        while i < j
            invariant
                i <= j < args@.len(),
                forall|a: int| 0 <= a < i ==> (#[trigger] args@[a])@ != args@[j as int]@,
            decreases j - i,
        {
            if args[i] == args[j] {
                return true;
            }
            i = i + 1;
        }
        j = j + 1;
    }
    false
}

fn defined_before(fs: &Vec<Func>, i: usize) -> (r: bool)
    requires
        i < fs.len(),
    ensures
        r == func_defined_before(fs@, i as int),
{
    let mut j: usize = 0;
    while j < i
        invariant
            j <= i < fs.len(),
            forall|k: int| 0 <= k < j ==> (#[trigger] fs@[k]).name@ != fs@[i as int].name@,
        decreases i - j,
    {
        if fs[j].name == fs[i].name {
            return true;
        }
        j = j + 1;
    }
    false
}

fn args_environment(args: &Vec<String>) -> (r: im::HashMap<String, i32>)
    requires
        args.len() + 2 <= SLOT_LIMIT,
    ensures
        env_map(r) == args_env(args@, args.len() as int),
{
    let mut env = env_new();
    let mut k: usize = 0;
    assert(env_map(env) =~= args_env(args@, 0));
    while k < args.len()
        invariant
            k <= args.len(),
            args.len() + 2 <= SLOT_LIMIT,
            env_map(env) == args_env(args@, k as int),
        decreases args.len() - k,
    {
        env = env_update(&env, args[k].clone(), k as i32 + 2);
        k = k + 1;
    }
    env
}

/// Lowers a program to instructions: the error trampoline, each
/// function's frame, and the entry point around the main expression.
pub fn compile_to_instrs(p: &Prog) -> (r: Result<Vec<Instr>, CompileError>)
    ensures
        match lower_prog(p.0@, p.1) {
            Ok(code) => r matches Ok(v) && v@ == code,
            Err(x) => r == Err::<Vec<Instr>, CompileError>(x),
        },
{
    let fs = &p.0;
    let mut i: usize = 0;
    while i < fs.len()
        invariant
            i <= fs@.len(),
            fs@ == p.0@,
            first_dup_func(fs@, 0) == first_dup_func(fs@, i as int),
        decreases fs@.len() - i,
    {
        if defined_before(fs, i) {
            assert(first_dup_func(fs@, i as int) == Some(i as int));
            return Err(CompileError::DuplicateFunction(fs[i].name.clone()));
        }
        i = i + 1;
    }
    let mut instrs: Vec<Instr> = Vec::new();
    let mut label: u64 = 0;
    instrs.push(Instr::Label(Label::Error));
    instrs.push(Instr::And(Val::Reg(Reg::RSP), Val::Imm64(-16)));
    instrs.push(Instr::Mov(Val::Reg(Reg::RDI), Val::Reg(Reg::RSI)));
    instrs.push(Instr::Call(Label::SnekError));
    let ghost before = instrs@;
    assert(before =~= trampoline_code());
    let ghost total = lower_funcs(fs@, 0, 0);
    proof {
        lemma_then_empty(total);
        assert(instrs@ =~= before + Seq::<Instr>::empty());
    }
    let mut k: usize = 0;
    while k < fs.len()
        invariant
            k <= fs@.len(),
            fs@ == p.0@,
            first_dup_func(fs@, 0) is None,
            total == lower_funcs(fs@, 0, 0),
            exists|done: Seq<Instr>|
                instrs@ == before + done && total == then_code(
                    done,
                    lower_funcs(fs@, k as int, label),
                ),
        decreases fs@.len() - k,
    {
        let ghost done = choose|done: Seq<Instr>|
            instrs@ == before + done && total == then_code(
                done,
                lower_funcs(fs@, k as int, label),
            );
        let ghost l0 = label;
        let f = &fs[k];
        assert(lower_funcs(fs@, k as int, label) is Err ==> total is Err);
        if has_duplicate(&f.args) {
            return Err(CompileError::DuplicateArgument(f.name.clone()));
        }
        if f.args.len() > SLOT_LIMIT as usize - 2 {
            return Err(CompileError::TooLarge);
        }
        let env = args_environment(&f.args);
        proof {
            lemma_args_env_ok(f.args@, f.args.len() as int);
        }
        let rf = compile_func_body(Label::Func(f.name.clone()), &f.expr, env, fs, &mut label, &mut instrs);
        if rf.is_err() {
            return Err(rf.unwrap_err());
        }
        proof {
            let step = lower_func_body(
                Label::Func(f.name),
                f.expr,
                args_env(f.args@, f.args.len() as int),
                fs@,
                l0,
            )->Ok_0.0;
            lemma_then_code(done, step, lower_funcs(fs@, k + 1, label));
            assert(instrs@ =~= before + (done + step));
        }
        k = k + 1;
    }
    let ghost done = choose|done: Seq<Instr>|
        instrs@ == before + done && total == then_code(done, lower_funcs(fs@, k as int, label));
    let ghost lf = label;
    instrs.push(Instr::Label(Label::Entry));
    instrs.push(Instr::Mov(Val::Reg(Reg::R15), Val::Reg(Reg::RSI)));
    let ghost mid = instrs@;
    let menv = env_update(&env_new(), String::from_str("input"), i32::MAX);
    assert(env_map(menv) =~= main_env());
    let rm = compile_func_body(Label::MainBody, &p.1, menv, fs, &mut label, &mut instrs);
    if rm.is_err() {
        return Err(rm.unwrap_err());
    }
    proof {
        let cm = lower_func_body(Label::MainBody, p.1, main_env(), fs@, lf)->Ok_0.0;
        assert(done + Seq::<Instr>::empty() =~= done);
        assert(instrs@ =~= trampoline_code() + done + seq![
            Instr::Label(Label::Entry),
            Instr::Mov(Val::Reg(Reg::R15), Val::Reg(Reg::RSI)),
        ] + cm);
    }
    Ok(instrs)
}

/// Compiles a program to NASM text: the header, then the instructions.
pub fn compile(p: &Prog) -> (r: Result<String, CompileError>)
    ensures
        match lower_prog(p.0@, p.1) {
            Ok(code) => r matches Ok(s) && s@ == program_text(code),
            Err(x) => r == Err::<String, CompileError>(x),
        },
{
    let instrs = match compile_to_instrs(p) {
        Ok(v) => v,
        Err(x) => {
            return Err(x);
        },
    };
    let mut text = String::from_str(
        "section .text\nextern snek_error\nextern snek_print\nextern snek_structural_eq_true\nglobal our_code_starts_here\n",
    );
    push_instrs(&mut text, &instrs);
    Ok(text)
}

} // verus!
