//! Stack alignment of generated code: every `call` happens with `rsp` a
//! multiple of 16, counting in 8-byte words from a point of known parity.
//! The count runs along the instructions in order; `lemma_lower_levels`
//! shows that every jump to a local label is taken at that label's count,
//! so the count is the depth of `rsp` on every path. (`break` is refused
//! inside call arguments, where it would leave pushed words behind.)
use vstd::prelude::*;

use crate::ast::{Expr, Func};
use crate::ast::SLOT_LIMIT;
use crate::instr::{Cond, Instr, Label, Reg, Val};
use crate::lower::{
    binop_code, bounds_code, call_code, check_mem_code, check_num_code, check_overflow_code,
    compare_code, copy_code, ext_call_1, ext_call_2, flag_bool_code, if_code, index_code,
    loop_code, lower, lower_args, lower_binds, lower_block, lower_elems, tuple_alloc_code,
    tuple_set_code, unop_code, arith_code, with_brake, with_env, with_si, Scope,
    body_scope, frame_code, lower_func_body,
};
use crate::ast::{depth, Op1, Op2};

verus! {

broadcast use vstd::std_specs::vec::group_vec_axioms;

/// How many 8-byte words an instruction moves `rsp` down by.
pub open spec fn words_pushed(i: Instr) -> int {
    match i {
        Instr::Push(_) => 1,
        Instr::Pop(_) => -1,
        Instr::Sub(Val::Reg(Reg::RSP), Val::Imm32(n)) => n / 8,
        Instr::Add(Val::Reg(Reg::RSP), Val::Imm32(n)) => -(n / 8),
        _ => 0,
    }
}

/// The words a straight run of instructions pushes, net.
pub open spec fn words(s: Seq<Instr>) -> int
    decreases s.len(),
{
    if s.len() == 0 {
        0
    } else {
        words(s.drop_last()) + words_pushed(s.last())
    }
}

/// Every call in `s` is reached with an even number of words on the
/// stack, where `p` words stood before `s` began.
pub open spec fn calls_even(s: Seq<Instr>, p: int) -> bool {
    forall|k: int| 0 <= k < s.len() && (#[trigger] s[k]) is Call ==> (p + words(s.take(k))) % 2 == 0
}

/// `s` pushes `w` words net and makes every call aligned, after `p` words.
pub open spec fn ok(s: Seq<Instr>, p: int, w: int) -> bool {
    words(s) == w && calls_even(s, p)
}

/// The words below an aligned stack: none when aligned, one otherwise.
pub open spec fn parity(aligned: bool) -> int {
    if aligned {
        0
    } else {
        1
    }
}

/// Neither a call nor a change of `rsp`.
pub open spec fn plain(s: Seq<Instr>) -> bool {
    forall|k: int| 0 <= k < s.len() ==> !((#[trigger] s[k]) is Call) && words_pushed(s[k]) == 0
}

proof fn lemma_words_concat(a: Seq<Instr>, b: Seq<Instr>)
    ensures
        words(a + b) == words(a) + words(b),
    decreases b.len(),
{
    if b.len() == 0 {
        assert(a + b =~= a);
    } else {
        assert((a + b).drop_last() =~= a + b.drop_last());
        lemma_words_concat(a, b.drop_last());
    }
}

proof fn lemma_ok_concat(a: Seq<Instr>, b: Seq<Instr>, p: int, wa: int, wb: int)
    requires
        ok(a, p, wa),
        ok(b, p + wa, wb),
    ensures
        ok(a + b, p, wa + wb),
{
    lemma_words_concat(a, b);
    assert forall|k: int| 0 <= k < (a + b).len() && (#[trigger] (a + b)[k]) is Call implies (p
        + words((a + b).take(k))) % 2 == 0 by {
        if k < a.len() {
            assert((a + b).take(k) =~= a.take(k));
            assert((a + b)[k] == a[k]);
        } else {
            assert((a + b).take(k) =~= a + b.take(k - a.len()));
            lemma_words_concat(a, b.take(k - a.len()));
            assert((a + b)[k] == b[k - a.len()]);
        }
    }
}

proof fn lemma_ok_shift(s: Seq<Instr>, p: int, q: int, w: int)
    requires
        ok(s, p, w),
        (p - q) % 2 == 0,
    ensures
        ok(s, q, w),
{
    assert forall|k: int| 0 <= k < s.len() && (#[trigger] s[k]) is Call implies (q + words(
        s.take(k),
    )) % 2 == 0 by {
        assert((p + words(s.take(k))) % 2 == 0);
    }
}

proof fn lemma_plain(s: Seq<Instr>, p: int)
    requires
        plain(s),
    ensures
        ok(s, p, 0),
    decreases s.len(),
{
    if s.len() > 0 {
        let d = s.drop_last();
        assert(plain(d)) by {
            assert forall|k: int| 0 <= k < d.len() implies !((#[trigger] d[k]) is Call)
                && words_pushed(d[k]) == 0 by {
                assert(d[k] == s[k]);
            }
        }
        lemma_plain(d, p);
        lemma_plain_words(s);
    }
}

proof fn lemma_plain_words(s: Seq<Instr>)
    requires
        plain(s),
    ensures
        words(s) == 0,
    decreases s.len(),
{
    if s.len() > 0 {
        let d = s.drop_last();
        assert(plain(d)) by {
            assert forall|k: int| 0 <= k < d.len() implies !((#[trigger] d[k]) is Call)
                && words_pushed(d[k]) == 0 by {
                assert(d[k] == s[k]);
            }
        }
        lemma_plain_words(d);
        assert(words_pushed(s[s.len() - 1]) == 0);
    }
}

proof fn lemma_one(x: Instr, p: int)
    requires
        x is Call ==> p % 2 == 0,
    ensures
        ok(seq![x], p, words_pushed(x)),
{
    let s = seq![x];
    assert(s.drop_last() =~= Seq::<Instr>::empty());
    assert(s.take(0) =~= Seq::<Instr>::empty());
    assert(s[0] == x);
    assert(words(s) == words(s.drop_last()) + words_pushed(s.last()));
    assert(words(Seq::<Instr>::empty()) == 0);
}

proof fn lemma_empty(p: int)
    ensures
        ok(Seq::<Instr>::empty(), p, 0),
{
    lemma_plain(Seq::<Instr>::empty(), p);
}

proof fn lemma_plain_concat(a: Seq<Instr>, b: Seq<Instr>)
    requires
        plain(a),
        plain(b),
    ensures
        plain(a + b),
{
    assert forall|k: int| 0 <= k < (a + b).len() implies !((#[trigger] (a + b)[k]) is Call)
        && words_pushed((a + b)[k]) == 0 by {
        if k < a.len() {
            assert((a + b)[k] == a[k]);
        } else {
            assert((a + b)[k] == b[k - a.len()]);
        }
    }
}

proof fn lemma_copy_plain(si: int, k: int)
    ensures
        plain(copy_code(si, k)),
    decreases k,
{
    if k > 0 {
        lemma_copy_plain(si, k - 1);
        let t = seq![
            Instr::Mov(Val::Reg(Reg::RAX), crate::lower::slot(si + k - 1)),
            Instr::Mov(Val::RegOffset(Reg::R15, (8 * k) as i32), Val::Reg(Reg::RAX)),
        ];
        assert(plain(t));
        lemma_plain_concat(copy_code(si, k - 1), t);
    }
}

/// The fixed pieces of generated code that neither call nor move `rsp`.
proof fn lemma_templates_plain(si: int, c: Cond, o: Op2, n: int)
    ensures
        plain(check_num_code()),
        plain(check_mem_code()),
        plain(check_overflow_code()),
        plain(flag_bool_code(c)),
        plain(compare_code(c, si)),
        plain(arith_code(o, si)),
        plain(bounds_code(si)),
        plain(tuple_alloc_code(si, n)),
{
    assert(plain(check_num_code()));
    assert(plain(check_mem_code()));
    assert(plain(check_overflow_code()));
    assert(plain(flag_bool_code(c)));
    assert(plain(compare_code(c, si)));
    assert(plain(seq![Instr::Add(Val::Reg(Reg::RAX), crate::lower::slot(si))]));
    assert(plain(seq![Instr::Sub(Val::Reg(Reg::RAX), crate::lower::slot(si))]));
    assert(plain(
        seq![
            Instr::Sar(Val::Reg(Reg::RAX), Val::Imm32(1)),
            Instr::Imul(Val::Reg(Reg::RAX), crate::lower::slot(si)),
        ],
    ));
    lemma_plain_concat(
        seq![Instr::Add(Val::Reg(Reg::RAX), crate::lower::slot(si))],
        check_overflow_code(),
    );
    lemma_plain_concat(
        seq![Instr::Sub(Val::Reg(Reg::RAX), crate::lower::slot(si))],
        check_overflow_code(),
    );
    lemma_plain_concat(
        seq![
            Instr::Sar(Val::Reg(Reg::RAX), Val::Imm32(1)),
            Instr::Imul(Val::Reg(Reg::RAX), crate::lower::slot(si)),
        ],
        check_overflow_code(),
    );
    assert(plain(bounds_code(si)));
    lemma_copy_plain(si, n);
    let head = seq![
        Instr::Mov(Val::Reg(Reg::RAX), Val::Imm64((2 * n) as i64)),
        Instr::Mov(Val::RegOffset(Reg::R15, 0), Val::Reg(Reg::RAX)),
    ];
    let tail = seq![
        Instr::Mov(Val::Reg(Reg::RAX), Val::Reg(Reg::R15)),
        Instr::Xor(Val::Reg(Reg::RAX), Val::Imm32(1)),
        Instr::Add(Val::Reg(Reg::R15), Val::Imm32((8 * (n + 1)) as i32)),
    ];
    assert(plain(head));
    assert(plain(tail));
    lemma_plain_concat(head, copy_code(si, n));
    lemma_plain_concat(head + copy_code(si, n), tail);
}

proof fn lemma_unop(o: Op1, al: bool)
    ensures
        ok(unop_code(o, al), parity(al), 0),
{
    lemma_templates_plain(0, Cond::E, Op2::Plus, 0);
    match o {
        Op1::Add1 => {
            let m = seq![Instr::Add(Val::Reg(Reg::RAX), Val::Imm32(2))];
            assert(plain(m));
            lemma_plain_concat(check_num_code(), m);
            lemma_plain_concat(check_num_code() + m, check_overflow_code());
            lemma_plain(unop_code(o, al), parity(al));
        },
        Op1::Sub1 => {
            let m = seq![Instr::Sub(Val::Reg(Reg::RAX), Val::Imm32(2))];
            assert(plain(m));
            lemma_plain_concat(check_num_code(), m);
            lemma_plain_concat(check_num_code() + m, check_overflow_code());
            lemma_plain(unop_code(o, al), parity(al));
        },
        Op1::IsNum => {
            let m = seq![Instr::Test(Val::Reg(Reg::RAX), Val::Imm64(1))];
            assert(plain(m));
            lemma_plain_concat(m, flag_bool_code(Cond::E));
            lemma_plain(unop_code(o, al), parity(al));
        },
        Op1::IsBool => {
            let m = seq![
                Instr::And(Val::Reg(Reg::RAX), Val::Imm64(3)),
                Instr::Cmp(Val::Reg(Reg::RAX), Val::Imm64(3)),
            ];
            assert(plain(m));
            lemma_plain_concat(m, flag_bool_code(Cond::E));
            lemma_plain(unop_code(o, al), parity(al));
        },
        Op1::IsTuple => {
            let m = seq![
                Instr::And(Val::Reg(Reg::RAX), Val::Imm64(3)),
                Instr::Cmp(Val::Reg(Reg::RAX), Val::Imm64(1)),
            ];
            assert(plain(m));
            lemma_plain_concat(m, flag_bool_code(Cond::E));
            lemma_plain(unop_code(o, al), parity(al));
        },
        Op1::Print => lemma_ext_call_1(Val::Reg(Reg::RAX), Label::Print, al),
    }
}

proof fn lemma_ext_call_1(a1: Val, l: Label, al: bool)
    ensures
        ok(ext_call_1(a1, l, al), parity(al), 0),
{
    let p = parity(al);
    let sub = seq![Instr::Sub(Val::Reg(Reg::RSP), Val::Imm32(8))];
    let add = seq![Instr::Add(Val::Reg(Reg::RSP), Val::Imm32(8))];
    let pre = if al {
        sub
    } else {
        Seq::<Instr>::empty()
    };
    let post = if al {
        add
    } else {
        Seq::<Instr>::empty()
    };
    let pw: int = if al {
        1
    } else {
        0
    };
    let a = seq![Instr::Push(Val::Reg(Reg::RDI))];
    let b = seq![Instr::Mov(Val::Reg(Reg::RDI), a1)];
    let c = seq![Instr::Call(l)];
    let d = seq![Instr::Pop(Val::Reg(Reg::RDI))];
    if al {
        lemma_one(sub[0], p);
        lemma_one(add[0], p + 1);
    } else {
        lemma_empty(p);
        lemma_empty(p);
    }
    assert(sub =~= seq![sub[0]]);
    assert(add =~= seq![add[0]]);
    lemma_one(a[0], p + pw);
    lemma_one(b[0], p + pw + 1);
    lemma_one(c[0], p + pw + 1);
    lemma_one(d[0], p + pw + 1);
    assert(a =~= seq![a[0]]);
    assert(b =~= seq![b[0]]);
    assert(c =~= seq![c[0]]);
    assert(d =~= seq![d[0]]);
    lemma_ok_concat(pre, a, p, pw, 1);
    lemma_ok_concat(pre + a, b, p, pw + 1, 0);
    lemma_ok_concat(pre + a + b, c, p, pw + 1, 0);
    lemma_ok_concat(pre + a + b + c, d, p, pw + 1, -1);
    lemma_ok_concat(pre + a + b + c + d, post, p, pw, -pw);
    assert(ext_call_1(a1, l, al) =~= pre + a + b + c + d + post);
}

proof fn lemma_ext_call_2(a1: Val, a2: Val, l: Label, al: bool)
    ensures
        ok(ext_call_2(a1, a2, l, al), parity(al), 0),
{
    let p = parity(al);
    let sub = seq![Instr::Sub(Val::Reg(Reg::RSP), Val::Imm32(8))];
    let add = seq![Instr::Add(Val::Reg(Reg::RSP), Val::Imm32(8))];
    let pre = if !al {
        sub
    } else {
        Seq::<Instr>::empty()
    };
    let post = if !al {
        add
    } else {
        Seq::<Instr>::empty()
    };
    let pw: int = if !al {
        1
    } else {
        0
    };
    let a = seq![Instr::Push(Val::Reg(Reg::RDI))];
    let a2s = seq![Instr::Push(Val::Reg(Reg::RSI))];
    let b = seq![Instr::Mov(Val::Reg(Reg::RDI), a1), Instr::Mov(Val::Reg(Reg::RSI), a2)];
    let c = seq![Instr::Call(l)];
    let d = seq![Instr::Pop(Val::Reg(Reg::RSI))];
    let d2 = seq![Instr::Pop(Val::Reg(Reg::RDI))];
    if !al {
        lemma_one(sub[0], p);
        lemma_one(add[0], p + 1);
    } else {
        lemma_empty(p);
        lemma_empty(p);
    }
    assert(sub =~= seq![sub[0]]);
    assert(add =~= seq![add[0]]);
    assert(plain(b));
    lemma_plain(b, p + pw + 2);
    lemma_one(a[0], p + pw);
    lemma_one(a2s[0], p + pw + 1);
    lemma_one(c[0], p + pw + 2);
    lemma_one(d[0], p + pw + 2);
    lemma_one(d2[0], p + pw + 1);
    assert(a =~= seq![a[0]]);
    assert(a2s =~= seq![a2s[0]]);
    assert(c =~= seq![c[0]]);
    assert(d =~= seq![d[0]]);
    assert(d2 =~= seq![d2[0]]);
    lemma_ok_concat(pre, a, p, pw, 1);
    lemma_ok_concat(pre + a, a2s, p, pw + 1, 1);
    lemma_ok_concat(pre + a + a2s, b, p, pw + 2, 0);
    lemma_ok_concat(pre + a + a2s + b, c, p, pw + 2, 0);
    lemma_ok_concat(pre + a + a2s + b + c, d, p, pw + 2, -1);
    lemma_ok_concat(pre + a + a2s + b + c + d, d2, p, pw + 1, -1);
    lemma_ok_concat(pre + a + a2s + b + c + d + d2, post, p, pw, -pw);
    assert(ext_call_2(a1, a2, l, al) =~= pre + a + a2s + b + c + d + d2 + post);
}

proof fn lemma_cat(a: Seq<Instr>, b: Seq<Instr>, p: int)
    requires
        ok(a, p, 0),
        ok(b, p, 0),
    ensures
        ok(a + b, p, 0),
{
    lemma_ok_concat(a, b, p, 0, 0);
}

proof fn lemma_cat_plain(a: Seq<Instr>, b: Seq<Instr>, p: int)
    requires
        ok(a, p, 0),
        plain(b),
    ensures
        ok(a + b, p, 0),
{
    lemma_plain(b, p);
    lemma_ok_concat(a, b, p, 0, 0);
}

proof fn lemma_push_plain(a: Seq<Instr>, x: Instr, p: int)
    requires
        ok(a, p, 0),
        !(x is Call),
        words_pushed(x) == 0,
    ensures
        ok(a.push(x), p, 0),
{
    assert(plain(seq![x]));
    lemma_cat_plain(a, seq![x], p);
    assert(a.push(x) =~= a + seq![x]);
}

/// Counting along the code for any expression, it ends at the word count it
/// began at, and every call comes at an even count when the scope's
/// `aligned` flag tells the truth where the code begins. Jumps keep to the
/// count by `lemma_lower_levels`.
pub proof fn lemma_lower_aligned(e: Expr, sc: Scope, fs: Seq<Func>, l: u64)
    requires
        lower(e, sc, fs, l) is Ok,
    ensures
        ok(lower(e, sc, fs, l)->Ok_0.0, parity(sc.aligned), 0),
    decreases e, 1int,
{
    let p = parity(sc.aligned);
    let si = sc.si;
    lemma_templates_plain(si, Cond::E, Op2::Plus, 0);
    match e {
        Expr::Number(_) => lemma_push_plain(Seq::empty(), lower(e, sc, fs, l)->Ok_0.0[0], p),
        Expr::Boolean(_) => lemma_push_plain(Seq::empty(), lower(e, sc, fs, l)->Ok_0.0[0], p),
        Expr::Id(_) => lemma_push_plain(Seq::empty(), lower(e, sc, fs, l)->Ok_0.0[0], p),
        Expr::UnOp(o, e1) => {
            let c = lower(*e1, sc, fs, l)->Ok_0.0;
            lemma_lower_aligned(*e1, sc, fs, l);
            lemma_unop(o, sc.aligned);
            lemma_cat(c, unop_code(o, sc.aligned), p);
        },
        Expr::BinOp(o, e1, e2) => {
            let (c2, l1) = lower(*e2, sc, fs, l)->Ok_0;
            let sc1 = with_si(sc, si + 1);
            let c1 = lower(*e1, sc1, fs, l1)->Ok_0.0;
            lemma_lower_aligned(*e2, sc, fs, l);
            lemma_lower_aligned(*e1, sc1, fs, l1);
            let m = seq![Instr::Mov(crate::lower::slot(si), Val::Reg(Reg::RAX))];
            assert(plain(m));
            lemma_templates_plain(si, Cond::E, o, 0);
            match o {
                Op2::Equal => {
                    lemma_cat_plain(c2, m, p);
                    lemma_cat(c2 + m, c1, p);
                    lemma_cat_plain(c2 + m + c1, compare_code(Cond::E, si), p);
                },
                Op2::StEq => {
                    lemma_cat_plain(c2, m, p);
                    lemma_cat(c2 + m, c1, p);
                    lemma_ext_call_2(
                        Val::Reg(Reg::RAX),
                        crate::lower::slot(si),
                        Label::StructEq,
                        sc.aligned,
                    );
                    lemma_cat(
                        c2 + m + c1,
                        ext_call_2(
                            Val::Reg(Reg::RAX),
                            crate::lower::slot(si),
                            Label::StructEq,
                            sc.aligned,
                        ),
                        p,
                    );
                },
                _ => {
                    lemma_cat_plain(c2, check_num_code(), p);
                    lemma_cat_plain(c2 + check_num_code(), m, p);
                    lemma_cat(c2 + check_num_code() + m, c1, p);
                    lemma_cat_plain(c2 + check_num_code() + m + c1, check_num_code(), p);
                    lemma_cat_plain(
                        c2 + check_num_code() + m + c1 + check_num_code(),
                        arith_code(o, si),
                        p,
                    );
                },
            }
        },
        Expr::Let(bs, body) => {
            let (c, l1, env) = lower_binds(bs, 0, sc, fs, l)->Ok_0;
            lemma_binds_aligned(bs, 0, sc, fs, l);
            let scb = with_env(with_si(sc, si + bs.len()), env);
            lemma_lower_aligned(*body, scb, fs, l1);
            lemma_cat(c, lower(*body, scb, fs, l1)->Ok_0.0, p);
        },
        Expr::Assign(x, e1) => {
            let c = lower(*e1, sc, fs, l)->Ok_0.0;
            lemma_lower_aligned(*e1, sc, fs, l);
            lemma_push_plain(
                c,
                Instr::Mov(crate::lower::id_source(sc.env[x@]), Val::Reg(Reg::RAX)),
                p,
            );
        },
        Expr::Block(es) => lemma_block_aligned(es, 0, sc, fs, l),
        Expr::If(c, t, f) => {
            let l0 = (l + 2) as u64;
            let (cc, l1) = lower(*c, sc, fs, l0)->Ok_0;
            let (ct, l2) = lower(*t, sc, fs, l1)->Ok_0;
            let cf = lower(*f, sc, fs, l2)->Ok_0.0;
            lemma_lower_aligned(*c, sc, fs, l0);
            lemma_lower_aligned(*t, sc, fs, l1);
            lemma_lower_aligned(*f, sc, fs, l2);
            let m1 = seq![
                Instr::Cmp(Val::Reg(Reg::RAX), Val::Imm32(3)),
                Instr::J(Cond::E, Label::IfElse((l + 1) as u64)),
            ];
            let m2 = seq![
                Instr::J(Cond::Always, Label::IfEnd(l)),
                Instr::Label(Label::IfElse((l + 1) as u64)),
            ];
            let m3 = seq![Instr::Label(Label::IfEnd(l))];
            assert(plain(m1));
            assert(plain(m2));
            assert(plain(m3));
            lemma_cat_plain(cc, m1, p);
            lemma_cat(cc + m1, ct, p);
            lemma_cat_plain(cc + m1 + ct, m2, p);
            lemma_cat(cc + m1 + ct + m2, cf, p);
            lemma_cat_plain(cc + m1 + ct + m2 + cf, m3, p);
        },
        Expr::Loop(e1) => {
            let scl = with_brake(sc, (l + 1) as u64);
            let cb = lower(*e1, scl, fs, (l + 2) as u64)->Ok_0.0;
            lemma_lower_aligned(*e1, scl, fs, (l + 2) as u64);
            let m1 = seq![Instr::Label(Label::Loop(l))];
            let m2 = seq![
                Instr::J(Cond::Always, Label::Loop(l)),
                Instr::Label(Label::LoopEnd((l + 1) as u64)),
            ];
            assert(plain(m1));
            assert(plain(m2));
            lemma_plain(m1, p);
            lemma_cat(m1, cb, p);
            lemma_cat_plain(m1 + cb, m2, p);
        },
        Expr::Break(e1) => {
            let c = lower(*e1, sc, fs, l)->Ok_0.0;
            lemma_lower_aligned(*e1, sc, fs, l);
            lemma_push_plain(c, Instr::J(Cond::Always, Label::LoopEnd(sc.brake->Some_0)), p);
        },
        Expr::Call(name, args) => {
            let n = args.len() as int;
            let pad = (args.len() % 2 == 1) == sc.aligned;
            let c = lower_args(args, n, args.len() % 2 == 0, sc, fs, l)->Ok_0.0;
            lemma_args_aligned(args, n, args.len() % 2 == 0, sc, fs, l);
            lemma_call_code(c, name, n, pad, sc.aligned);
        },
        Expr::Tuple(es) => {
            if es.len() == 0 {
                lemma_push_plain(Seq::empty(), Instr::Mov(Val::Reg(Reg::RAX), Val::Imm32(1)), p);
                assert(seq![Instr::Mov(Val::Reg(Reg::RAX), Val::Imm32(1))] =~= Seq::<Instr>::empty().push(
                    Instr::Mov(Val::Reg(Reg::RAX), Val::Imm32(1)),
                ));
            } else {
                let c = lower_elems(es, 0, sc, fs, l)->Ok_0.0;
                lemma_elems_aligned(es, 0, sc, fs, l);
                lemma_templates_plain(si, Cond::E, Op2::Plus, es.len() as int);
                lemma_cat_plain(c, tuple_alloc_code(si, es.len() as int), p);
            }
        },
        Expr::TupleGet(e1, i) => {
            let (ci, l1) = lower(*i, sc, fs, l)->Ok_0;
            let sc1 = with_si(sc, si + 1);
            let ce = lower(*e1, sc1, fs, l1)->Ok_0.0;
            lemma_lower_aligned(*i, sc, fs, l);
            lemma_lower_aligned(*e1, sc1, fs, l1);
            let m = seq![Instr::Mov(crate::lower::slot(si), Val::Reg(Reg::RAX))];
            let m2 = seq![Instr::Mov(Val::Reg(Reg::RAX), crate::lower::element())];
            assert(plain(m));
            assert(plain(m2));
            lemma_cat_plain(ci, check_num_code(), p);
            lemma_cat_plain(ci + check_num_code(), m, p);
            lemma_cat(ci + check_num_code() + m, ce, p);
            lemma_cat_plain(ci + check_num_code() + m + ce, bounds_code(si), p);
            lemma_cat_plain(ci + check_num_code() + m + ce + bounds_code(si), m2, p);
        },
        Expr::TupleSet(e1, i, v) => {
            let (ci, l1) = lower(*i, sc, fs, l)->Ok_0;
            let sc1 = with_si(sc, si + 1);
            let (ce, l2) = lower(*e1, sc1, fs, l1)->Ok_0;
            let cv = lower(*v, sc1, fs, l2)->Ok_0.0;
            lemma_lower_aligned(*i, sc, fs, l);
            lemma_lower_aligned(*e1, sc1, fs, l1);
            lemma_lower_aligned(*v, sc1, fs, l2);
            let m = seq![Instr::Mov(crate::lower::slot(si), Val::Reg(Reg::RAX))];
            let m2 = seq![
                Instr::Lea(Val::Reg(Reg::RAX), crate::lower::element()),
                Instr::Mov(crate::lower::slot(si), Val::Reg(Reg::RAX)),
            ];
            let m3 = seq![
                Instr::Mov(Val::Reg(Reg::RBX), crate::lower::slot(si)),
                Instr::Mov(Val::RegOffset(Reg::RBX, 0), Val::Reg(Reg::RAX)),
            ];
            assert(plain(m));
            assert(plain(m2));
            assert(plain(m3));
            let a = ci + check_num_code() + m + ce + bounds_code(si) + m2;
            lemma_cat_plain(ci, check_num_code(), p);
            lemma_cat_plain(ci + check_num_code(), m, p);
            lemma_cat(ci + check_num_code() + m, ce, p);
            lemma_cat_plain(ci + check_num_code() + m + ce, bounds_code(si), p);
            lemma_cat_plain(ci + check_num_code() + m + ce + bounds_code(si), m2, p);
            lemma_cat(a, cv, p);
            lemma_cat_plain(a + cv, m3, p);
        },
    }
}

proof fn lemma_call_code(c: Seq<Instr>, name: String, n: int, pad: bool, al: bool)
    requires
        0 <= n < SLOT_LIMIT,
        pad == ((n % 2 == 1) == al),
        ok(c, parity(n % 2 == 0), n),
    ensures
        ok(call_code(c, name, n, pad), parity(al), 0),
{
    let p = parity(al);
    let pw: int = if pad {
        1
    } else {
        0
    };
    let sub = seq![Instr::Sub(Val::Reg(Reg::RSP), Val::Imm32(8))];
    let pre = if pad {
        sub
    } else {
        Seq::<Instr>::empty()
    };
    if pad {
        lemma_one(sub[0], p);
        assert(sub =~= seq![sub[0]]);
    } else {
        lemma_empty(p);
    }
    lemma_ok_shift(c, parity(n % 2 == 0), p + pw, n);
    lemma_ok_concat(pre, c, p, pw, n);
    let k = Instr::Call(Label::Func(name));
    let add = Instr::Add(Val::Reg(Reg::RSP), Val::Imm32((8 * (n + pw)) as i32));
    lemma_one(k, p + pw + n);
    assert(words_pushed(add) == -(n + pw));
    lemma_one(add, p + pw + n);
    lemma_ok_concat(pre + c, seq![k], p, pw + n, 0);
    lemma_ok_concat(pre + c + seq![k], seq![add], p, pw + n, -(n + pw));
    assert(call_code(c, name, n, pad) =~= pre + c + seq![k] + seq![add]);
}

proof fn lemma_binds_aligned(bs: Vec<(String, Expr)>, i: int, sc: Scope, fs: Seq<Func>, l: u64)
    requires
        lower_binds(bs, i, sc, fs, l) is Ok,
    ensures
        ok(lower_binds(bs, i, sc, fs, l)->Ok_0.0, parity(sc.aligned), 0),
    decreases bs, bs.len() - i,
{
    let p = parity(sc.aligned);
    if i < 0 || i >= bs.len() {
        lemma_empty(p);
    } else {
        let sci = with_si(sc, sc.si + i);
        let (c, l1) = lower(bs[i].1, sci, fs, l)->Ok_0;
        lemma_lower_aligned(bs[i].1, sci, fs, l);
        let sc2 = with_env(sc, sc.env.insert(bs[i].0@, (-(sc.si + i)) as i32));
        lemma_binds_aligned(bs, i + 1, sc2, fs, l1);
        let x = Instr::Mov(crate::lower::slot(sc.si + i), Val::Reg(Reg::RAX));
        lemma_push_plain(c, x, p);
        lemma_cat(c.push(x), lower_binds(bs, i + 1, sc2, fs, l1)->Ok_0.0, p);
    }
}

proof fn lemma_block_aligned(es: Vec<Expr>, i: int, sc: Scope, fs: Seq<Func>, l: u64)
    requires
        lower_block(es, i, sc, fs, l) is Ok,
    ensures
        ok(lower_block(es, i, sc, fs, l)->Ok_0.0, parity(sc.aligned), 0),
    decreases es, es.len() - i,
{
    let p = parity(sc.aligned);
    if i < 0 || i >= es.len() {
        lemma_empty(p);
    } else {
        let (c, l1) = lower(es[i], sc, fs, l)->Ok_0;
        lemma_lower_aligned(es[i], sc, fs, l);
        lemma_block_aligned(es, i + 1, sc, fs, l1);
        lemma_cat(c, lower_block(es, i + 1, sc, fs, l1)->Ok_0.0, p);
    }
}

proof fn lemma_elems_aligned(es: Vec<Expr>, i: int, sc: Scope, fs: Seq<Func>, l: u64)
    requires
        lower_elems(es, i, sc, fs, l) is Ok,
    ensures
        ok(lower_elems(es, i, sc, fs, l)->Ok_0.0, parity(sc.aligned), 0),
    decreases es, es.len() - i,
{
    let p = parity(sc.aligned);
    if i < 0 || i >= es.len() {
        lemma_empty(p);
    } else {
        let sci = with_si(sc, sc.si + i);
        let (c, l1) = lower(es[i], sci, fs, l)->Ok_0;
        lemma_lower_aligned(es[i], sci, fs, l);
        lemma_elems_aligned(es, i + 1, sc, fs, l1);
        let x = Instr::Mov(crate::lower::slot(sc.si + i), Val::Reg(Reg::RAX));
        lemma_push_plain(c, x, p);
        lemma_cat(c.push(x), lower_elems(es, i + 1, sc, fs, l1)->Ok_0.0, p);
    }
}

proof fn lemma_args_aligned(
    args: Vec<Expr>,
    k: int,
    a: bool,
    sc: Scope,
    fs: Seq<Func>,
    l: u64,
)
    requires
        0 <= k <= args.len(),
        lower_args(args, k, a, sc, fs, l) is Ok,
    ensures
        ok(lower_args(args, k, a, sc, fs, l)->Ok_0.0, parity(a), k),
    decreases args, k,
{
    let p = parity(a);
    if k <= 0 {
        lemma_empty(p);
    } else {
        let sca = crate::lower::arg_scope(sc, a);
        let (c, l1) = lower(args[k - 1], sca, fs, l)->Ok_0;
        lemma_lower_aligned(args[k - 1], sca, fs, l);
        lemma_args_aligned(args, k - 1, !a, sc, fs, l1);
        let rest = lower_args(args, k - 1, !a, sc, fs, l1)->Ok_0.0;
        let x = Instr::Push(Val::Reg(Reg::RAX));
        lemma_one(x, p);
        lemma_ok_concat(c, seq![x], p, 0, 1);
        assert(c.push(x) =~= c + seq![x]);
        lemma_ok_shift(rest, parity(!a), p + 1, k - 1);
        lemma_ok_concat(c.push(x), rest, p, 1, k - 1);
    }
}

/// A function's code, entered by a call from aligned code (so with one
/// word, the return address, below alignment), makes every call aligned;
/// and every jump in it to one of its own labels (branches, loops,
/// `break`) is taken with the stack exactly as deep as at that label, so
/// the straight-line word count is the real depth of `rsp` wherever
/// control arrives. (The checks' jumps to the error trampoline are left
/// out: it realigns `rsp` itself before calling the runtime.)
pub proof fn lemma_frame_aligned(lbl: Label, e: Expr, env: Map<Seq<char>, i32>, fs: Seq<Func>, l: u64)
    requires
        lower_func_body(lbl, e, env, fs, l) is Ok,
        local_label(lbl) is None,
    ensures
        calls_even(lower_func_body(lbl, e, env, fs, l)->Ok_0.0, 1),
        ({
            let c = lower_func_body(lbl, e, env, fs, l)->Ok_0.0;
            forall|k: int, m: int|
                0 <= k < c.len() && 0 <= m < c.len() && (#[trigger] label_use(c[k])) is Some
                    && label_use(c[k]) == #[trigger] label_use(c[m]) ==> words(c.take(k)) == words(
                    c.take(m),
                )
        }),
{
    let d = depth(e);
    let sc = body_scope(e, env);
    let body = lower(e, sc, fs, l)->Ok_0.0;
    lemma_lower_aligned(e, sc, fs, l);
    let pro = seq![
        Instr::Label(lbl),
        Instr::Push(Val::Reg(Reg::RBP)),
        Instr::Mov(Val::Reg(Reg::RBP), Val::Reg(Reg::RSP)),
        Instr::Sub(Val::Reg(Reg::RSP), Val::Imm32((8 * d) as i32)),
    ];
    let p0 = seq![pro[0]];
    let p1 = seq![pro[1]];
    let p2 = seq![pro[2]];
    let p3 = seq![pro[3]];
    lemma_one(pro[0], 1);
    lemma_one(pro[1], 1);
    lemma_one(pro[2], 2);
    crate::ast::lemma_depth_nonneg(e);
    assert(words_pushed(pro[3]) == d);
    lemma_one(pro[3], 2);
    lemma_ok_concat(p0, p1, 1, 0, 1);
    lemma_ok_concat(p0 + p1, p2, 1, 1, 0);
    lemma_ok_concat(p0 + p1 + p2, p3, 1, 1, d);
    assert(pro =~= p0 + p1 + p2 + p3);
    lemma_ok_shift(body, parity(sc.aligned), 2 + d, 0);
    lemma_ok_concat(pro, body, 1, 1 + d, 0);
    let epi = seq![Instr::Leave, Instr::Ret];
    assert(plain(epi));
    lemma_plain(epi, 2 + d);
    lemma_ok_concat(pro + body, epi, 1, 1 + d, 0);
    let l1 = lower(e, sc, fs, l)->Ok_0.1;
    lemma_lower_levels(e, sc, fs, l, 2 + d);
    let lv = choose|lv: Map<int, int>| #[trigger] placed(body, 2 + d, lv, l as int, l1 as int, None, 2 + d);
    assert(no_labels(pro));
    assert(no_labels(epi));
    lemma_levels_concat(pro, body, 1, lv);
    lemma_levels_concat(pro + body, epi, 1, lv);
    let c = lower_func_body(lbl, e, env, fs, l)->Ok_0.0;
    assert(c == pro + body + epi);
    assert forall|k: int, m: int|
        0 <= k < c.len() && 0 <= m < c.len() && (#[trigger] label_use(c[k])) is Some
            && label_use(c[k]) == #[trigger] label_use(c[m]) implies words(c.take(k)) == words(
            c.take(m),
        ) by {
        assert(1 + words(c.take(k)) == lv[label_use(c[k])->Some_0]);
        assert(1 + words(c.take(m)) == lv[label_use(c[m])->Some_0]);
    }
}

/// The number of a label that generated code places for its own control
/// flow (the branches of `if`, the two ends of `loop`).
pub open spec fn local_label(l: Label) -> Option<int> {
    match l {
        Label::IfEnd(n) => Some(n as int),
        Label::IfElse(n) => Some(n as int),
        Label::Loop(n) => Some(n as int),
        Label::LoopEnd(n) => Some(n as int),
        _ => None,
    }
}

/// The local label an instruction places or jumps to.
pub open spec fn label_use(i: Instr) -> Option<int> {
    match i {
        Instr::Label(l) => local_label(l),
        Instr::J(_, l) => local_label(l),
        _ => None,
    }
}

/// Every local label placed or jumped to in `s` is used at the word count
/// `lv` gives it, with `w0` words before `s`. So a jump reaches its label
/// with the stack as deep as straight-line code reaches it.
pub open spec fn levels(s: Seq<Instr>, w0: int, lv: Map<int, int>) -> bool {
    forall|k: int|
        0 <= k < s.len() && (#[trigger] label_use(s[k])) is Some ==> lv.contains_key(
            label_use(s[k])->Some_0,
        ) && w0 + words(s.take(k)) == lv[label_use(s[k])->Some_0]
}

/// The labels `lv` knows are numbered in `[lo, hi)`, but for the label
/// `break` leaves by (`br`), which is at word count `wb`.
pub open spec fn dom_in(lv: Map<int, int>, lo: int, hi: int, br: Option<u64>, wb: int) -> bool {
    forall|n: int|
        #[trigger] lv.contains_key(n) ==> (lo <= n < hi) || (br matches Some(b) && n == b && lv[n]
            == wb)
}

pub open spec fn placed(
    s: Seq<Instr>,
    w0: int,
    lv: Map<int, int>,
    lo: int,
    hi: int,
    br: Option<u64>,
    wb: int,
) -> bool {
    levels(s, w0, lv) && dom_in(lv, lo, hi, br, wb)
}

pub open spec fn no_labels(s: Seq<Instr>) -> bool {
    forall|k: int| 0 <= k < s.len() ==> (#[trigger] label_use(s[k])) is None
}

proof fn lemma_levels_concat(a: Seq<Instr>, b: Seq<Instr>, w0: int, lv: Map<int, int>)
    requires
        levels(a, w0, lv),
        levels(b, w0 + words(a), lv),
    ensures
        levels(a + b, w0, lv),
{
    assert forall|k: int| 0 <= k < (a + b).len() && (#[trigger] label_use((a + b)[k])) is Some implies lv.contains_key(
        label_use((a + b)[k])->Some_0,
    ) && w0 + words((a + b).take(k)) == lv[label_use((a + b)[k])->Some_0] by {
        if k < a.len() {
            assert((a + b).take(k) =~= a.take(k));
            assert((a + b)[k] == a[k]);
        } else {
            assert((a + b).take(k) =~= a + b.take(k - a.len()));
            lemma_words_concat(a, b.take(k - a.len()));
            assert((a + b)[k] == b[k - a.len()]);
        }
    }
}

proof fn lemma_levels_widen(s: Seq<Instr>, w0: int, l1: Map<int, int>, l2: Map<int, int>)
    requires
        levels(s, w0, l1),
        l1.submap_of(l2),
    ensures
        levels(s, w0, l2),
{
    assert forall|k: int| 0 <= k < s.len() && (#[trigger] label_use(s[k])) is Some implies l2.contains_key(
        label_use(s[k])->Some_0,
    ) && w0 + words(s.take(k)) == l2[label_use(s[k])->Some_0] by {
        assert(l1.contains_key(label_use(s[k])->Some_0));
    }
}

proof fn lemma_no_labels(s: Seq<Instr>, w0: int, lv: Map<int, int>)
    requires
        no_labels(s),
    ensures
        levels(s, w0, lv),
{
}

/// Places that use no label at all, with no labels known.
proof fn lemma_placed_none(s: Seq<Instr>, w0: int, lo: int, br: Option<u64>, wb: int)
    requires
        no_labels(s),
    ensures
        placed(s, w0, Map::empty(), lo, lo, br, wb),
{
}

/// Two maps of disjoint label ranges, both putting the `break` label at
/// `wb`, merge into one that extends each.
proof fn lemma_merge(
    la: Map<int, int>,
    lb: Map<int, int>,
    lo1: int,
    hi1: int,
    lo2: int,
    hi2: int,
    br: Option<u64>,
    wb: int,
)
    requires
        dom_in(la, lo1, hi1, br, wb),
        dom_in(lb, lo2, hi2, br, wb),
        hi1 <= lo2 || hi2 <= lo1,
        br matches Some(b) ==> (b < lo1 || b >= hi1) && (b < lo2 || b >= hi2),
    ensures
        la.submap_of(la.union_prefer_right(lb)),
        lb.submap_of(la.union_prefer_right(lb)),
        dom_in(
            la.union_prefer_right(lb),
            if lo1 <= lo2 {
                lo1
            } else {
                lo2
            },
            if hi1 >= hi2 {
                hi1
            } else {
                hi2
            },
            br,
            wb,
        ),
{
    let u = la.union_prefer_right(lb);
    assert forall|n: int| #[trigger] la.contains_key(n) implies u.contains_key(n) && u[n] == la[n] by {
        if lb.contains_key(n) {
            assert(lb[n] == la[n]);
        }
    }
}

/// A run of instructions that moves no `rsp` and whose local labels are all
/// used at `w` words.
proof fn lemma_plain_levels(s: Seq<Instr>, w: int, lv: Map<int, int>)
    requires
        plain(s),
        forall|k: int|
            0 <= k < s.len() && (#[trigger] label_use(s[k])) is Some ==> lv.contains_key(
                label_use(s[k])->Some_0,
            ) && lv[label_use(s[k])->Some_0] == w,
    ensures
        levels(s, w, lv),
{
    assert forall|k: int| 0 <= k < s.len() && (#[trigger] label_use(s[k])) is Some implies lv.contains_key(
        label_use(s[k])->Some_0,
    ) && w + words(s.take(k)) == lv[label_use(s[k])->Some_0] by {
        let t = s.take(k);
        assert(plain(t)) by {
            assert forall|j: int| 0 <= j < t.len() implies !((#[trigger] t[j]) is Call)
                && words_pushed(t[j]) == 0 by {
                assert(t[j] == s[j]);
            }
        }
        lemma_plain_words(t);
    }
}

proof fn lemma_join(
    a: Seq<Instr>,
    b: Seq<Instr>,
    w0: int,
    la: Map<int, int>,
    lb: Map<int, int>,
    lo: int,
    mid: int,
    hi: int,
    br: Option<u64>,
    wb: int,
)
    requires
        placed(a, w0, la, lo, mid, br, wb),
        placed(b, w0 + words(a), lb, mid, hi, br, wb),
        lo <= mid <= hi,
        br matches Some(x) ==> x < lo,
    ensures
        placed(a + b, w0, la.union_prefer_right(lb), lo, hi, br, wb),
{
    lemma_merge(la, lb, lo, mid, mid, hi, br, wb);
    let u = la.union_prefer_right(lb);
    lemma_levels_widen(a, w0, la, u);
    lemma_levels_widen(b, w0 + words(a), lb, u);
    lemma_levels_concat(a, b, w0, u);
}

/// Appends a run that uses no local label.
proof fn lemma_then_none(
    a: Seq<Instr>,
    t: Seq<Instr>,
    w0: int,
    la: Map<int, int>,
    lo: int,
    hi: int,
    br: Option<u64>,
    wb: int,
)
    requires
        placed(a, w0, la, lo, hi, br, wb),
        no_labels(t),
    ensures
        placed(a + t, w0, la, lo, hi, br, wb),
{
    lemma_levels_concat(a, t, w0, la);
}

proof fn lemma_templates_no_labels(si: int, c: Cond, o: Op2, n: int, al: bool, a1: Val, a2: Val, l: Label)
    ensures
        no_labels(check_num_code()),
        no_labels(check_mem_code()),
        no_labels(check_overflow_code()),
        no_labels(compare_code(c, si)),
        no_labels(arith_code(o, si)),
        no_labels(bounds_code(si)),
        no_labels(tuple_alloc_code(si, n)),
        no_labels(ext_call_2(a1, a2, l, al)),
        forall|op: Op1| #[trigger] no_labels(unop_code(op, al)),
{
    lemma_templates_plain(si, c, o, n);
    assert(no_labels(check_num_code()));
    assert(no_labels(check_mem_code()));
    assert(no_labels(check_overflow_code()));
    assert(no_labels(compare_code(c, si)));
    assert(no_labels(bounds_code(si)));
    assert(no_labels(ext_call_2(a1, a2, l, al)));
    assert(no_labels(ext_call_1(Val::Reg(Reg::RAX), Label::Print, al)));
    assert(no_labels(flag_bool_code(Cond::E)));
    lemma_plain_no_labels(arith_code(o, si));
    lemma_copy_no_labels(si, n);
    let head = seq![
        Instr::Mov(Val::Reg(Reg::RAX), Val::Imm64((2 * n) as i64)),
        Instr::Mov(Val::RegOffset(Reg::R15, 0), Val::Reg(Reg::RAX)),
    ];
    let tail = seq![
        Instr::Mov(Val::Reg(Reg::RAX), Val::Reg(Reg::R15)),
        Instr::Xor(Val::Reg(Reg::RAX), Val::Imm32(1)),
        Instr::Add(Val::Reg(Reg::R15), Val::Imm32((8 * (n + 1)) as i32)),
    ];
    assert(no_labels(head));
    assert(no_labels(tail));
    lemma_no_labels_concat(head, copy_code(si, n));
    lemma_no_labels_concat(head + copy_code(si, n), tail);
    assert forall|op: Op1| #[trigger] no_labels(unop_code(op, al)) by {
        lemma_unop(op, al);
        if op != Op1::Print {
            lemma_unop_plain(op, al);
            lemma_plain_no_labels(unop_code(op, al));
        }
    }
}

proof fn lemma_unop_plain(o: Op1, al: bool)
    requires
        o != Op1::Print,
    ensures
        plain(unop_code(o, al)),
{
    lemma_templates_plain(0, Cond::E, Op2::Plus, 0);
    match o {
        Op1::Add1 => {
            let m = seq![Instr::Add(Val::Reg(Reg::RAX), Val::Imm32(2))];
            assert(plain(m));
            lemma_plain_concat(check_num_code(), m);
            lemma_plain_concat(check_num_code() + m, check_overflow_code());
        },
        Op1::Sub1 => {
            let m = seq![Instr::Sub(Val::Reg(Reg::RAX), Val::Imm32(2))];
            assert(plain(m));
            lemma_plain_concat(check_num_code(), m);
            lemma_plain_concat(check_num_code() + m, check_overflow_code());
        },
        Op1::IsNum => {
            let m = seq![Instr::Test(Val::Reg(Reg::RAX), Val::Imm64(1))];
            assert(plain(m));
            lemma_plain_concat(m, flag_bool_code(Cond::E));
        },
        Op1::IsBool => {
            let m = seq![
                Instr::And(Val::Reg(Reg::RAX), Val::Imm64(3)),
                Instr::Cmp(Val::Reg(Reg::RAX), Val::Imm64(3)),
            ];
            assert(plain(m));
            lemma_plain_concat(m, flag_bool_code(Cond::E));
        },
        _ => {
            let m = seq![
                Instr::And(Val::Reg(Reg::RAX), Val::Imm64(3)),
                Instr::Cmp(Val::Reg(Reg::RAX), Val::Imm64(1)),
            ];
            assert(plain(m));
            lemma_plain_concat(m, flag_bool_code(Cond::E));
        },
    }
}

/// The fixed templates that are `plain` jump only to the error trampoline
/// and place no label: every jump and label in them is the checks' `jcc
/// my_error`, never a local label.
proof fn lemma_plain_no_labels(s: Seq<Instr>)
    requires
        plain(s),
        forall|k: int|
            0 <= k < s.len() ==> !((#[trigger] s[k]) is Label) && (s[k] is J ==> s[k]->J_1
                == Label::Error),
    ensures
        no_labels(s),
{
}

proof fn lemma_no_labels_concat(a: Seq<Instr>, b: Seq<Instr>)
    requires
        no_labels(a),
        no_labels(b),
    ensures
        no_labels(a + b),
{
    assert forall|k: int| 0 <= k < (a + b).len() implies (#[trigger] label_use((a + b)[k])) is None by {
        if k < a.len() {
            assert((a + b)[k] == a[k]);
        } else {
            assert((a + b)[k] == b[k - a.len()]);
        }
    }
}

proof fn lemma_copy_no_labels(si: int, k: int)
    ensures
        no_labels(copy_code(si, k)),
    decreases k,
{
    if k > 0 {
        lemma_copy_no_labels(si, k - 1);
        let t = seq![
            Instr::Mov(Val::Reg(Reg::RAX), crate::lower::slot(si + k - 1)),
            Instr::Mov(Val::RegOffset(Reg::R15, (8 * k) as i32), Val::Reg(Reg::RAX)),
        ];
        assert(no_labels(t));
        lemma_no_labels_concat(copy_code(si, k - 1), t);
    }
}

/// The code `c` of an expression, started at `w0` words and given label
/// numbers from `l` up to `l1`, uses its local labels consistently: some
/// level map places each of them, numbered in `[l, l1)`, and the `break`
/// label `br` (if used) at `w0`.
pub open spec fn lowered_levels(c: Seq<Instr>, w0: int, l: u64, l1: u64, br: Option<u64>) -> bool {
    l <= l1 && exists|lv: Map<int, int>| #[trigger] placed(c, w0, lv, l as int, l1 as int, br, w0)
}

proof fn lemma_seq(a: Seq<Instr>, b: Seq<Instr>, w0: int, l: u64, l1: u64, l2: u64, br: Option<u64>)
    requires
        lowered_levels(a, w0, l, l1, br),
        lowered_levels(b, w0, l1, l2, br),
        words(a) == 0,
        br matches Some(x) ==> x < l,
    ensures
        lowered_levels(a + b, w0, l, l2, br),
{
    let la = choose|lv: Map<int, int>| #[trigger] placed(a, w0, lv, l as int, l1 as int, br, w0);
    let lb = choose|lv: Map<int, int>| #[trigger] placed(b, w0, lv, l1 as int, l2 as int, br, w0);
    lemma_join(a, b, w0, la, lb, l as int, l1 as int, l2 as int, br, w0);
    assert(placed(a + b, w0, la.union_prefer_right(lb), l as int, l2 as int, br, w0));
}

proof fn lemma_seq_none(a: Seq<Instr>, t: Seq<Instr>, w0: int, l: u64, l1: u64, br: Option<u64>)
    requires
        lowered_levels(a, w0, l, l1, br),
        no_labels(t),
    ensures
        lowered_levels(a + t, w0, l, l1, br),
{
    let la = choose|lv: Map<int, int>| #[trigger] placed(a, w0, lv, l as int, l1 as int, br, w0);
    lemma_then_none(a, t, w0, la, l as int, l1 as int, br, w0);
    assert(placed(a + t, w0, la, l as int, l1 as int, br, w0));
}

proof fn lemma_none_levels(t: Seq<Instr>, w0: int, l: u64, br: Option<u64>)
    requires
        no_labels(t),
    ensures
        lowered_levels(t, w0, l, l, br),
{
    lemma_placed_none(t, w0, l as int, br, w0);
    assert(placed(t, w0, Map::empty(), l as int, l as int, br, w0));
}

/// Sequencing for code with no `break` label, where the second part may
/// start at another word count.
proof fn lemma_seq_free(a: Seq<Instr>, b: Seq<Instr>, w0: int, l: u64, l1: u64, l2: u64)
    requires
        lowered_levels(a, w0, l, l1, None),
        lowered_levels(b, w0 + words(a), l1, l2, None),
    ensures
        lowered_levels(a + b, w0, l, l2, None),
{
    let la = choose|lv: Map<int, int>| #[trigger] placed(a, w0, lv, l as int, l1 as int, None, w0);
    let lb = choose|lv: Map<int, int>| #[trigger] placed(
        b,
        w0 + words(a),
        lv,
        l1 as int,
        l2 as int,
        None,
        w0 + words(a),
    );
    assert(placed(b, w0 + words(a), lb, l1 as int, l2 as int, None, w0));
    lemma_join(a, b, w0, la, lb, l as int, l1 as int, l2 as int, None, w0);
    assert(placed(a + b, w0, la.union_prefer_right(lb), l as int, l2 as int, None, w0));
}

proof fn lemma_words0(a: Seq<Instr>, b: Seq<Instr>)
    requires
        words(a) == 0,
        words(b) == 0,
    ensures
        words(a + b) == 0,
{
    lemma_words_concat(a, b);
}

proof fn lemma_submap_trans(a: Map<int, int>, b: Map<int, int>, c: Map<int, int>)
    requires
        a.submap_of(b),
        b.submap_of(c),
    ensures
        a.submap_of(c),
{
    assert forall|n: int| #[trigger] a.contains_key(n) implies c.contains_key(n) && c[n] == a[n] by {
        assert(b.contains_key(n));
    }
}

/// Every local label in the code of an expression is placed and jumped to
/// at one word count: jumps, `break` included, reach their labels with the
/// stack exactly as deep as the straight-line count says. Together with
/// `lemma_lower_aligned` this makes that count the real depth of `rsp`.
pub proof fn lemma_lower_levels(e: Expr, sc: Scope, fs: Seq<Func>, l: u64, w0: int)
    requires
        lower(e, sc, fs, l) is Ok,
        sc.brake matches Some(b) ==> b < l,
    ensures
        lowered_levels(lower(e, sc, fs, l)->Ok_0.0, w0, l, lower(e, sc, fs, l)->Ok_0.1, sc.brake),
    decreases e, 1int,
{
    let br = sc.brake;
    let si = sc.si;
    let p = parity(sc.aligned);
    let (c, lf) = lower(e, sc, fs, l)->Ok_0;
    lemma_templates_plain(si, Cond::E, Op2::Plus, 0);
    lemma_templates_no_labels(si, Cond::E, Op2::Plus, 0, sc.aligned, Val::Reg(Reg::RAX), Val::Reg(Reg::RAX), Label::Error);
    match e {
        Expr::Number(_) => lemma_none_levels(c, w0, l, br),
        Expr::Boolean(_) => lemma_none_levels(c, w0, l, br),
        Expr::Id(_) => lemma_none_levels(c, w0, l, br),
        Expr::UnOp(o, e1) => {
            let c1 = lower(*e1, sc, fs, l)->Ok_0.0;
            lemma_lower_levels(*e1, sc, fs, l, w0);
            lemma_seq_none(c1, unop_code(o, sc.aligned), w0, l, lf, br);
        },
        Expr::BinOp(o, e1, e2) => {
            let (c2, l1) = lower(*e2, sc, fs, l)->Ok_0;
            let sc1 = with_si(sc, si + 1);
            let c1 = lower(*e1, sc1, fs, l1)->Ok_0.0;
            lemma_lower_levels(*e2, sc, fs, l, w0);
            lemma_lower_levels(*e1, sc1, fs, l1, w0);
            lemma_lower_aligned(*e2, sc, fs, l);
            let m = seq![Instr::Mov(crate::lower::slot(si), Val::Reg(Reg::RAX))];
            assert(plain(m));
            assert(no_labels(m));
            lemma_plain_words(m);
            lemma_templates_plain(si, Cond::E, o, 0);
            lemma_templates_no_labels(si, Cond::E, o, 0, sc.aligned, Val::Reg(Reg::RAX), crate::lower::slot(si), Label::StructEq);
            match o {
                Op2::Equal => {
                    lemma_seq_none(c2, m, w0, l, l1, br);
                    lemma_words0(c2, m);
                    lemma_seq(c2 + m, c1, w0, l, l1, lf, br);
                    lemma_seq_none(c2 + m + c1, compare_code(Cond::E, si), w0, l, lf, br);
                },
                Op2::StEq => {
                    lemma_seq_none(c2, m, w0, l, l1, br);
                    lemma_words0(c2, m);
                    lemma_seq(c2 + m, c1, w0, l, l1, lf, br);
                    lemma_seq_none(
                        c2 + m + c1,
                        ext_call_2(Val::Reg(Reg::RAX), crate::lower::slot(si), Label::StructEq, sc.aligned),
                        w0,
                        l,
                        lf,
                        br,
                    );
                },
                _ => {
                    lemma_plain_words(check_num_code());
                    lemma_seq_none(c2, check_num_code(), w0, l, l1, br);
                    lemma_seq_none(c2 + check_num_code(), m, w0, l, l1, br);
                    lemma_words0(c2, check_num_code());
                    lemma_words0(c2 + check_num_code(), m);
                    lemma_seq(c2 + check_num_code() + m, c1, w0, l, l1, lf, br);
                    lemma_seq_none(c2 + check_num_code() + m + c1, check_num_code(), w0, l, lf, br);
                    lemma_seq_none(
                        c2 + check_num_code() + m + c1 + check_num_code(),
                        arith_code(o, si),
                        w0,
                        l,
                        lf,
                        br,
                    );
                },
            }
        },
        Expr::Let(bs, body) => {
            let (cb, l1, env) = lower_binds(bs, 0, sc, fs, l)->Ok_0;
            lemma_binds_levels(bs, 0, sc, fs, l, w0);
            lemma_binds_aligned(bs, 0, sc, fs, l);
            let scb = with_env(with_si(sc, si + bs.len()), env);
            lemma_lower_levels(*body, scb, fs, l1, w0);
            lemma_seq(cb, lower(*body, scb, fs, l1)->Ok_0.0, w0, l, l1, lf, br);
        },
        Expr::Assign(x, e1) => {
            let c1 = lower(*e1, sc, fs, l)->Ok_0.0;
            lemma_lower_levels(*e1, sc, fs, l, w0);
            let t = seq![Instr::Mov(crate::lower::id_source(sc.env[x@]), Val::Reg(Reg::RAX))];
            assert(no_labels(t));
            lemma_seq_none(c1, t, w0, l, lf, br);
            assert(c1.push(t[0]) =~= c1 + t);
        },
        Expr::Block(es) => lemma_block_levels(es, 0, sc, fs, l, w0),
        Expr::If(cnd, thn, els) => lemma_if_levels(cnd, thn, els, sc, fs, l, w0),
        Expr::Loop(e1) => {
            let scl = with_brake(sc, (l + 1) as u64);
            let l0 = (l + 2) as u64;
            let cb = lower(*e1, scl, fs, l0)->Ok_0.0;
            lemma_lower_levels(*e1, scl, fs, l0, w0);
            lemma_lower_aligned(*e1, scl, fs, l0);
            let lb = choose|lv: Map<int, int>| #[trigger] placed(cb, w0, lv, l0 as int, lf as int, scl.brake, w0);
            let mm = Map::<int, int>::empty().insert(l as int, w0).insert(l + 1, w0);
            lemma_merge(mm, lb, l as int, l + 1, l + 2, lf as int, scl.brake, w0);
            let d = mm.union_prefer_right(lb);
            let m1 = seq![Instr::Label(Label::Loop(l))];
            let m2 = seq![
                Instr::J(Cond::Always, Label::Loop(l)),
                Instr::Label(Label::LoopEnd((l + 1) as u64)),
            ];
            assert(plain(m1));
            assert(plain(m2));
            lemma_plain_words(m1);
            lemma_plain_levels(m1, w0, d);
            lemma_levels_widen(cb, w0, lb, d);
            lemma_levels_concat(m1, cb, w0, d);
            lemma_words0(m1, cb);
            lemma_plain_levels(m2, w0, d);
            lemma_levels_concat(m1 + cb, m2, w0, d);
            assert(dom_in(d, l as int, lf as int, br, w0));
            assert(placed(c, w0, d, l as int, lf as int, br, w0));
        },
        Expr::Break(e1) => {
            let b = br->Some_0;
            let c1 = lower(*e1, sc, fs, l)->Ok_0.0;
            lemma_lower_levels(*e1, sc, fs, l, w0);
            lemma_lower_aligned(*e1, sc, fs, l);
            let l1 = lf;
            let lv1 = choose|lv: Map<int, int>| #[trigger] placed(c1, w0, lv, l as int, l1 as int, br, w0);
            let d = lv1.insert(b as int, w0);
            assert(lv1.submap_of(d));
            lemma_levels_widen(c1, w0, lv1, d);
            let t = seq![Instr::J(Cond::Always, Label::LoopEnd(b))];
            assert(plain(t));
            lemma_plain_levels(t, w0, d);
            lemma_levels_concat(c1, t, w0, d);
            assert(c1.push(t[0]) =~= c1 + t);
            assert(placed(c, w0, d, l as int, l1 as int, br, w0));
        },
        Expr::Call(name, args) => {
            let n = args.len() as int;
            let pad = (args.len() % 2 == 1) == sc.aligned;
            let ca = lower_args(args, n, args.len() % 2 == 0, sc, fs, l)->Ok_0.0;
            let sub = seq![Instr::Sub(Val::Reg(Reg::RSP), Val::Imm32(8))];
            let pre = if pad {
                sub
            } else {
                Seq::<Instr>::empty()
            };
            let padw: int = if pad {
                1
            } else {
                0
            };
            lemma_one(sub[0], 0);
            assert(sub =~= seq![sub[0]]);
            assert(words(Seq::<Instr>::empty()) == 0);
            assert(words(pre) == padw);
            lemma_args_levels(args, n, args.len() % 2 == 0, sc, fs, l, w0 + padw);
            assert(no_labels(pre));
            lemma_none_levels(pre, w0, l, None);
            lemma_seq_free(pre, ca, w0, l, l, lf);
            let post = seq![
                Instr::Call(Label::Func(name)),
                Instr::Add(Val::Reg(Reg::RSP), Val::Imm32((8 * (n + padw)) as i32)),
            ];
            assert(no_labels(post));
            lemma_seq_none(pre + ca, post, w0, l, lf, None);
            assert(c =~= pre + ca + post);
            let lv = choose|lv: Map<int, int>| #[trigger] placed(c, w0, lv, l as int, lf as int, None, w0);
            assert(placed(c, w0, lv, l as int, lf as int, br, w0));
        },
        Expr::Tuple(es) => {
            if es.len() == 0 {
                lemma_none_levels(c, w0, l, br);
            } else {
                let ce = lower_elems(es, 0, sc, fs, l)->Ok_0.0;
                lemma_elems_levels(es, 0, sc, fs, l, w0);
                lemma_templates_no_labels(si, Cond::E, Op2::Plus, es.len() as int, sc.aligned, Val::Reg(Reg::RAX), Val::Reg(Reg::RAX), Label::Error);
                lemma_seq_none(ce, tuple_alloc_code(si, es.len() as int), w0, l, lf, br);
            }
        },
        Expr::TupleGet(e1, i) => {
            let (ci, l1) = lower(*i, sc, fs, l)->Ok_0;
            let sc1 = with_si(sc, si + 1);
            let ce = lower(*e1, sc1, fs, l1)->Ok_0.0;
            lemma_lower_levels(*i, sc, fs, l, w0);
            lemma_lower_levels(*e1, sc1, fs, l1, w0);
            lemma_lower_aligned(*i, sc, fs, l);
            let m = seq![Instr::Mov(crate::lower::slot(si), Val::Reg(Reg::RAX))];
            let m2 = seq![Instr::Mov(Val::Reg(Reg::RAX), crate::lower::element())];
            assert(plain(m) && no_labels(m));
            assert(no_labels(m2));
            lemma_plain_words(m);
            lemma_plain_words(check_num_code());
            lemma_seq_none(ci, check_num_code(), w0, l, l1, br);
            lemma_seq_none(ci + check_num_code(), m, w0, l, l1, br);
            lemma_words0(ci, check_num_code());
            lemma_words0(ci + check_num_code(), m);
            lemma_seq(ci + check_num_code() + m, ce, w0, l, l1, lf, br);
            lemma_seq_none(ci + check_num_code() + m + ce, bounds_code(si), w0, l, lf, br);
            lemma_seq_none(ci + check_num_code() + m + ce + bounds_code(si), m2, w0, l, lf, br);
        },
        Expr::TupleSet(e1, i, v) => {
            let (ci, l1) = lower(*i, sc, fs, l)->Ok_0;
            let sc1 = with_si(sc, si + 1);
            let (ce, l2) = lower(*e1, sc1, fs, l1)->Ok_0;
            let cv = lower(*v, sc1, fs, l2)->Ok_0.0;
            lemma_lower_levels(*i, sc, fs, l, w0);
            lemma_lower_levels(*e1, sc1, fs, l1, w0);
            lemma_lower_levels(*v, sc1, fs, l2, w0);
            lemma_lower_aligned(*i, sc, fs, l);
            lemma_lower_aligned(*e1, sc1, fs, l1);
            let m = seq![Instr::Mov(crate::lower::slot(si), Val::Reg(Reg::RAX))];
            let m2 = seq![
                Instr::Lea(Val::Reg(Reg::RAX), crate::lower::element()),
                Instr::Mov(crate::lower::slot(si), Val::Reg(Reg::RAX)),
            ];
            let m3 = seq![
                Instr::Mov(Val::Reg(Reg::RBX), crate::lower::slot(si)),
                Instr::Mov(Val::RegOffset(Reg::RBX, 0), Val::Reg(Reg::RAX)),
            ];
            assert(plain(m) && no_labels(m));
            assert(plain(m2) && no_labels(m2));
            assert(no_labels(m3));
            lemma_plain_words(m);
            lemma_plain_words(m2);
            lemma_plain_words(check_num_code());
            lemma_plain_words(bounds_code(si));
            let a1 = ci + check_num_code() + m;
            lemma_seq_none(ci, check_num_code(), w0, l, l1, br);
            lemma_seq_none(ci + check_num_code(), m, w0, l, l1, br);
            lemma_words0(ci, check_num_code());
            lemma_words0(ci + check_num_code(), m);
            lemma_seq(a1, ce, w0, l, l1, l2, br);
            lemma_seq_none(a1 + ce, bounds_code(si), w0, l, l2, br);
            lemma_seq_none(a1 + ce + bounds_code(si), m2, w0, l, l2, br);
            let a2 = a1 + ce + bounds_code(si) + m2;
            lemma_words0(a1, ce);
            lemma_words0(a1 + ce, bounds_code(si));
            lemma_words0(a1 + ce + bounds_code(si), m2);
            lemma_seq(a2, cv, w0, l, l2, lf, br);
            lemma_seq_none(a2 + cv, m3, w0, l, lf, br);
        },
    }
}

proof fn lemma_if_levels(
    cnd: Box<Expr>,
    thn: Box<Expr>,
    els: Box<Expr>,
    sc: Scope,
    fs: Seq<Func>,
    l: u64,
    w0: int,
)
    requires
        lower(Expr::If(cnd, thn, els), sc, fs, l) is Ok,
        sc.brake matches Some(b) ==> b < l,
    ensures
        lowered_levels(
            lower(Expr::If(cnd, thn, els), sc, fs, l)->Ok_0.0,
            w0,
            l,
            lower(Expr::If(cnd, thn, els), sc, fs, l)->Ok_0.1,
            sc.brake,
        ),
    decreases Expr::If(cnd, thn, els), 0int,
{
    let br = sc.brake;
    let l0 = (l + 2) as u64;
    let (cc, l1) = lower(*cnd, sc, fs, l0)->Ok_0;
    let (ct, l2) = lower(*thn, sc, fs, l1)->Ok_0;
    let (cf, l3) = lower(*els, sc, fs, l2)->Ok_0;
    lemma_lower_levels(*cnd, sc, fs, l0, w0);
    lemma_lower_levels(*thn, sc, fs, l1, w0);
    lemma_lower_levels(*els, sc, fs, l2, w0);
    lemma_lower_aligned(*cnd, sc, fs, l0);
    lemma_lower_aligned(*thn, sc, fs, l1);
    lemma_lower_aligned(*els, sc, fs, l2);
    let lc = choose|lv: Map<int, int>| #[trigger] placed(cc, w0, lv, l0 as int, l1 as int, br, w0);
    let lt = choose|lv: Map<int, int>| #[trigger] placed(ct, w0, lv, l1 as int, l2 as int, br, w0);
    let lf = choose|lv: Map<int, int>| #[trigger] placed(cf, w0, lv, l2 as int, l3 as int, br, w0);
    lemma_merge(lc, lt, l0 as int, l1 as int, l1 as int, l2 as int, br, w0);
    let u1 = lc.union_prefer_right(lt);
    lemma_merge(u1, lf, l0 as int, l2 as int, l2 as int, l3 as int, br, w0);
    let u2 = u1.union_prefer_right(lf);
    let mm = Map::<int, int>::empty().insert(l as int, w0).insert(l + 1, w0);
    lemma_merge(mm, u2, l as int, l0 as int, l0 as int, l3 as int, br, w0);
    let d = mm.union_prefer_right(u2);
    lemma_submap_trans(lc, u1, u2);
    lemma_submap_trans(lc, u2, d);
    lemma_submap_trans(lt, u1, u2);
    lemma_submap_trans(lt, u2, d);
    lemma_submap_trans(lf, u2, d);
    lemma_levels_widen(cc, w0, lc, d);
    lemma_levels_widen(ct, w0, lt, d);
    lemma_levels_widen(cf, w0, lf, d);
    let m1 = seq![
        Instr::Cmp(Val::Reg(Reg::RAX), Val::Imm32(3)),
        Instr::J(Cond::E, Label::IfElse((l + 1) as u64)),
    ];
    let m2 = seq![
        Instr::J(Cond::Always, Label::IfEnd(l)),
        Instr::Label(Label::IfElse((l + 1) as u64)),
    ];
    let m3 = seq![Instr::Label(Label::IfEnd(l))];
    assert(plain(m1));
    assert(plain(m2));
    assert(plain(m3));
    lemma_plain_words(m1);
    lemma_plain_words(m2);
    lemma_plain_levels(m1, w0, d);
    lemma_plain_levels(m2, w0, d);
    lemma_plain_levels(m3, w0, d);
    lemma_levels_concat(cc, m1, w0, d);
    lemma_words0(cc, m1);
    lemma_levels_concat(cc + m1, ct, w0, d);
    lemma_words0(cc + m1, ct);
    lemma_levels_concat(cc + m1 + ct, m2, w0, d);
    lemma_words0(cc + m1 + ct, m2);
    lemma_levels_concat(cc + m1 + ct + m2, cf, w0, d);
    lemma_words0(cc + m1 + ct + m2, cf);
    lemma_levels_concat(cc + m1 + ct + m2 + cf, m3, w0, d);
    let c = lower(Expr::If(cnd, thn, els), sc, fs, l)->Ok_0.0;
    assert(c == cc + m1 + ct + m2 + cf + m3);
    assert(placed(c, w0, d, l as int, l3 as int, br, w0));
}

proof fn lemma_binds_levels(bs: Vec<(String, Expr)>, i: int, sc: Scope, fs: Seq<Func>, l: u64, w0: int)
    requires
        lower_binds(bs, i, sc, fs, l) is Ok,
        sc.brake matches Some(b) ==> b < l,
    ensures
        lowered_levels(
            lower_binds(bs, i, sc, fs, l)->Ok_0.0,
            w0,
            l,
            lower_binds(bs, i, sc, fs, l)->Ok_0.1,
            sc.brake,
        ),
    decreases bs, bs.len() - i,
{
    if i < 0 || i >= bs.len() {
        assert(no_labels(Seq::<Instr>::empty()));
        lemma_none_levels(Seq::empty(), w0, l, sc.brake);
    } else {
        let sci = with_si(sc, sc.si + i);
        let (c, l1) = lower(bs[i].1, sci, fs, l)->Ok_0;
        lemma_lower_levels(bs[i].1, sci, fs, l, w0);
        lemma_lower_aligned(bs[i].1, sci, fs, l);
        let sc2 = with_env(sc, sc.env.insert(bs[i].0@, (-(sc.si + i)) as i32));
        lemma_binds_levels(bs, i + 1, sc2, fs, l1, w0);
        let t = seq![Instr::Mov(crate::lower::slot(sc.si + i), Val::Reg(Reg::RAX))];
        assert(plain(t) && no_labels(t));
        lemma_plain_words(t);
        lemma_seq_none(c, t, w0, l, l1, sc.brake);
        assert(c.push(t[0]) =~= c + t);
        lemma_words0(c, t);
        let r = lower_binds(bs, i + 1, sc2, fs, l1)->Ok_0;
        lemma_seq(c + t, r.0, w0, l, l1, r.1, sc.brake);
    }
}

proof fn lemma_block_levels(es: Vec<Expr>, i: int, sc: Scope, fs: Seq<Func>, l: u64, w0: int)
    requires
        lower_block(es, i, sc, fs, l) is Ok,
        sc.brake matches Some(b) ==> b < l,
    ensures
        lowered_levels(
            lower_block(es, i, sc, fs, l)->Ok_0.0,
            w0,
            l,
            lower_block(es, i, sc, fs, l)->Ok_0.1,
            sc.brake,
        ),
    decreases es, es.len() - i,
{
    if i < 0 || i >= es.len() {
        assert(no_labels(Seq::<Instr>::empty()));
        lemma_none_levels(Seq::empty(), w0, l, sc.brake);
    } else {
        let (c, l1) = lower(es[i], sc, fs, l)->Ok_0;
        lemma_lower_levels(es[i], sc, fs, l, w0);
        lemma_lower_aligned(es[i], sc, fs, l);
        lemma_block_levels(es, i + 1, sc, fs, l1, w0);
        let r = lower_block(es, i + 1, sc, fs, l1)->Ok_0;
        lemma_seq(c, r.0, w0, l, l1, r.1, sc.brake);
    }
}

proof fn lemma_elems_levels(es: Vec<Expr>, i: int, sc: Scope, fs: Seq<Func>, l: u64, w0: int)
    requires
        lower_elems(es, i, sc, fs, l) is Ok,
        sc.brake matches Some(b) ==> b < l,
    ensures
        lowered_levels(
            lower_elems(es, i, sc, fs, l)->Ok_0.0,
            w0,
            l,
            lower_elems(es, i, sc, fs, l)->Ok_0.1,
            sc.brake,
        ),
    decreases es, es.len() - i,
{
    if i < 0 || i >= es.len() {
        assert(no_labels(Seq::<Instr>::empty()));
        lemma_none_levels(Seq::empty(), w0, l, sc.brake);
    } else {
        let sci = with_si(sc, sc.si + i);
        let (c, l1) = lower(es[i], sci, fs, l)->Ok_0;
        lemma_lower_levels(es[i], sci, fs, l, w0);
        lemma_lower_aligned(es[i], sci, fs, l);
        lemma_elems_levels(es, i + 1, sc, fs, l1, w0);
        let t = seq![Instr::Mov(crate::lower::slot(sc.si + i), Val::Reg(Reg::RAX))];
        assert(plain(t) && no_labels(t));
        lemma_plain_words(t);
        lemma_seq_none(c, t, w0, l, l1, sc.brake);
        assert(c.push(t[0]) =~= c + t);
        lemma_words0(c, t);
        let r = lower_elems(es, i + 1, sc, fs, l1)->Ok_0;
        lemma_seq(c + t, r.0, w0, l, l1, r.1, sc.brake);
    }
}

proof fn lemma_args_levels(
    args: Vec<Expr>,
    k: int,
    a: bool,
    sc: Scope,
    fs: Seq<Func>,
    l: u64,
    w0: int,
)
    requires
        0 <= k <= args.len(),
        lower_args(args, k, a, sc, fs, l) is Ok,
    ensures
        lowered_levels(
            lower_args(args, k, a, sc, fs, l)->Ok_0.0,
            w0,
            l,
            lower_args(args, k, a, sc, fs, l)->Ok_0.1,
            None,
        ),
    decreases args, k,
{
    if k <= 0 {
        assert(no_labels(Seq::<Instr>::empty()));
        lemma_none_levels(Seq::empty(), w0, l, None);
    } else {
        let sca = crate::lower::arg_scope(sc, a);
        let (c, l1) = lower(args[k - 1], sca, fs, l)->Ok_0;
        lemma_lower_levels(args[k - 1], sca, fs, l, w0);
        lemma_lower_aligned(args[k - 1], sca, fs, l);
        lemma_args_levels(args, k - 1, !a, sc, fs, l1, w0 + 1);
        let x = Instr::Push(Val::Reg(Reg::RAX));
        let t = seq![x];
        assert(no_labels(t));
        lemma_seq_none(c, t, w0, l, l1, None);
        lemma_one(x, 0);
        lemma_words_concat(c, t);
        assert(c.push(x) =~= c + t);
        let r = lower_args(args, k - 1, !a, sc, fs, l1)->Ok_0;
        lemma_seq_free(c + t, r.0, w0, l, l1, r.1);
    }
}

} // verus!
