//! Abstract x86-64 assembly and its NASM text.
use vstd::prelude::*;

use crate::text::{decimal, nat_digits, push_decimal, push_nat_digits};

verus! {

#[derive(Debug, Clone, Copy, PartialEq, Eq, Structural)]
pub enum Reg {
    RAX,
    RBX,
    RSI,
    RDI,
    RSP,
    RBP,
    R15,
}

/// An operand.
#[derive(Debug, Clone, Copy, PartialEq, Eq, Structural)]
pub enum Val {
    Reg(Reg),
    Imm32(i32),
    Imm64(i64),
    /// `[reg + disp]`.
    RegOffset(Reg, i32),
    /// `[base + index * scale + disp]`.
    EffectiveAddr(Reg, Reg, i32, i32),
}

/// A condition code; `Always` makes a jump unconditional.
#[derive(Debug, Clone, Copy, PartialEq, Eq, Structural)]
pub enum Cond {
    Always,
    E,
    Ne,
    L,
    Le,
    G,
    Ge,
    O,
}

#[derive(Debug)]
pub enum Label {
    /// The shared error trampoline.
    Error,
    /// The public entry point.
    Entry,
    /// The frame of the main expression.
    MainBody,
    /// The runtime's error reporter.
    SnekError,
    /// The runtime's printer.
    Print,
    /// The runtime's structural equality.
    StructEq,
    /// The code of a source-level function.
    Func(String),
    IfEnd(u64),
    IfElse(u64),
    Loop(u64),
    LoopEnd(u64),
}

#[derive(Debug)]
pub enum Instr {
    Mov(Val, Val),
    Add(Val, Val),
    Sub(Val, Val),
    Imul(Val, Val),
    And(Val, Val),
    Xor(Val, Val),
    Sar(Val, Val),
    Cmp(Val, Val),
    Test(Val, Val),
    Push(Val),
    Pop(Val),
    Call(Label),
    Leave,
    Ret,
    J(Cond, Label),
    Cmov(Cond, Val, Val),
    Lea(Val, Val),
    Label(Label),
}

pub open spec fn reg_text(r: Reg) -> Seq<char> {
    match r {
        Reg::RAX => "rax"@,
        Reg::RBX => "rbx"@,
        Reg::RSI => "rsi"@,
        Reg::RDI => "rdi"@,
        Reg::RSP => "rsp"@,
        Reg::RBP => "rbp"@,
        Reg::R15 => "r15"@,
    }
}

pub open spec fn val_text(v: Val) -> Seq<char> {
    match v {
        Val::Reg(r) => reg_text(r),
        Val::Imm32(n) => decimal(n as int),
        Val::Imm64(n) => decimal(n as int),
        Val::RegOffset(r, n) => if n > 0 {
            "["@ + reg_text(r) + " + "@ + decimal(n as int) + "]"@
        } else {
            "["@ + reg_text(r) + " - "@ + decimal(-n) + "]"@
        },
        Val::EffectiveAddr(b, i, s, d) => "["@ + reg_text(b) + " + "@ + reg_text(i) + " * "@
            + decimal(s as int) + " + "@ + decimal(d as int) + "]"@,
    }
}

pub open spec fn cond_text(c: Cond) -> Seq<char> {
    match c {
        Cond::Always => ""@,
        Cond::E => "e"@,
        Cond::Ne => "ne"@,
        Cond::L => "l"@,
        Cond::Le => "le"@,
        Cond::G => "g"@,
        Cond::Ge => "ge"@,
        Cond::O => "o"@,
    }
}

pub open spec fn label_text(l: Label) -> Seq<char> {
    match l {
        Label::Error => "my_error"@,
        Label::Entry => "our_code_starts_here"@,
        Label::MainBody => "__our_code_starts_here"@,
        Label::SnekError => "snek_error"@,
        Label::Print => "snek_print"@,
        Label::StructEq => "snek_structural_eq_true"@,
        Label::Func(n) => "func_"@ + n@,
        Label::IfEnd(k) => "ifend_"@ + nat_digits(k as nat),
        Label::IfElse(k) => "ifelse_"@ + nat_digits(k as nat),
        Label::Loop(k) => "loop_"@ + nat_digits(k as nat),
        Label::LoopEnd(k) => "loopend_"@ + nat_digits(k as nat),
    }
}

pub open spec fn binary_text(name: Seq<char>, u: Val, v: Val) -> Seq<char> {
    name + " "@ + val_text(u) + ", "@ + val_text(v) + "\n"@
}

/// The line of NASM text for one instruction.
pub open spec fn instr_text(i: Instr) -> Seq<char> {
    match i {
        Instr::Mov(u, v) => binary_text("mov"@, u, v),
        Instr::Add(u, v) => binary_text("add"@, u, v),
        Instr::Sub(u, v) => binary_text("sub"@, u, v),
        Instr::Imul(u, v) => binary_text("imul"@, u, v),
        Instr::And(u, v) => binary_text("and"@, u, v),
        Instr::Xor(u, v) => binary_text("xor"@, u, v),
        Instr::Sar(u, v) => binary_text("sar"@, u, v),
        Instr::Cmp(u, v) => binary_text("cmp"@, u, v),
        Instr::Test(u, v) => binary_text("test"@, u, v),
        Instr::Push(u) => "push "@ + val_text(u) + "\n"@,
        Instr::Pop(u) => "pop "@ + val_text(u) + "\n"@,
        Instr::Call(l) => "call "@ + label_text(l) + "\n"@,
        Instr::Leave => "leave\n"@,
        Instr::Ret => "ret\n"@,
        Instr::J(c, l) => if c == Cond::Always {
            "jmp "@ + label_text(l) + "\n"@
        } else {
            "j"@ + cond_text(c) + " "@ + label_text(l) + "\n"@
        },
        Instr::Cmov(c, u, v) => binary_text("cmov"@ + cond_text(c), u, v),
        Instr::Lea(u, v) => binary_text("lea"@, u, v),
        Instr::Label(l) => label_text(l) + ":\n"@,
    }
}

/// The text of a run of instructions, one line each.
pub open spec fn instrs_text(s: Seq<Instr>) -> Seq<char>
    decreases s.len(),
{
    if s.len() == 0 {
        Seq::empty()
    } else {
        instrs_text(s.drop_last()) + instr_text(s.last())
    }
}

pub fn reg_to_str(r: &Reg) -> (s: &'static str)
    ensures
        s@ == reg_text(*r),
{
    match r {
        Reg::RAX => "rax",
        Reg::RBX => "rbx",
        Reg::RSI => "rsi",
        Reg::RDI => "rdi",
        Reg::RSP => "rsp",
        Reg::RBP => "rbp",
        Reg::R15 => "r15",
    }
}

fn push_val(out: &mut String, v: &Val)
    ensures
        final(out)@ == old(out)@ + val_text(*v),
{
    match v {
        Val::Reg(r) => out.append(reg_to_str(r)),
        Val::Imm32(n) => push_decimal(out, *n as i64),
        Val::Imm64(n) => push_decimal(out, *n),
        Val::RegOffset(r, n) => {
            out.append("[");
            out.append(reg_to_str(r));
            if *n > 0 {
                out.append(" + ");
                push_decimal(out, *n as i64);
            } else {
                out.append(" - ");
                push_decimal(out, -(*n as i64));
            }
            out.append("]");
        },
        Val::EffectiveAddr(b, i, s, d) => {
            out.append("[");
            out.append(reg_to_str(b));
            out.append(" + ");
            out.append(reg_to_str(i));
            out.append(" * ");
            push_decimal(out, *s as i64);
            out.append(" + ");
            push_decimal(out, *d as i64);
            out.append("]");
        },
    }
    assert(final(out)@ =~= old(out)@ + val_text(*v));
}

/// The NASM text of an operand.
pub fn val_to_str(v: &Val) -> (r: String)
    ensures
        r@ == val_text(*v),
{
    let mut s = String::new();
    push_val(&mut s, v);
    assert(s@ =~= val_text(*v));
    s
}

fn cond_to_str(c: &Cond) -> (s: &'static str)
    ensures
        s@ == cond_text(*c),
{
    match c {
        Cond::Always => "",
        Cond::E => "e",
        Cond::Ne => "ne",
        Cond::L => "l",
        Cond::Le => "le",
        Cond::G => "g",
        Cond::Ge => "ge",
        Cond::O => "o",
    }
}

fn push_label(out: &mut String, l: &Label)
    ensures
        final(out)@ == old(out)@ + label_text(*l),
{
    match l {
        Label::Error => out.append("my_error"),
        Label::Entry => out.append("our_code_starts_here"),
        Label::MainBody => out.append("__our_code_starts_here"),
        Label::SnekError => out.append("snek_error"),
        Label::Print => out.append("snek_print"),
        Label::StructEq => out.append("snek_structural_eq_true"),
        Label::Func(n) => {
            out.append("func_");
            out.append(n.as_str());
        },
        Label::IfEnd(k) => {
            out.append("ifend_");
            push_nat_digits(out, *k);
        },
        Label::IfElse(k) => {
            out.append("ifelse_");
            push_nat_digits(out, *k);
        },
        Label::Loop(k) => {
            out.append("loop_");
            push_nat_digits(out, *k);
        },
        Label::LoopEnd(k) => {
            out.append("loopend_");
            push_nat_digits(out, *k);
        },
    }
    assert(final(out)@ =~= old(out)@ + label_text(*l));
}

fn push_binary(out: &mut String, name: &str, u: &Val, v: &Val)
    ensures
        final(out)@ == old(out)@ + binary_text(name@, *u, *v),
{
    out.append(name);
    out.append(" ");
    push_val(out, u);
    out.append(", ");
    push_val(out, v);
    out.append("\n");
    assert(final(out)@ =~= old(out)@ + binary_text(name@, *u, *v));
}

fn push_instr(out: &mut String, i: &Instr)
    ensures
        final(out)@ == old(out)@ + instr_text(*i),
{
    match i {
        Instr::Mov(u, v) => push_binary(out, "mov", u, v),
        Instr::Add(u, v) => push_binary(out, "add", u, v),
        Instr::Sub(u, v) => push_binary(out, "sub", u, v),
        Instr::Imul(u, v) => push_binary(out, "imul", u, v),
        Instr::And(u, v) => push_binary(out, "and", u, v),
        Instr::Xor(u, v) => push_binary(out, "xor", u, v),
        Instr::Sar(u, v) => push_binary(out, "sar", u, v),
        Instr::Cmp(u, v) => push_binary(out, "cmp", u, v),
        Instr::Test(u, v) => push_binary(out, "test", u, v),
        Instr::Push(u) => {
            out.append("push ");
            push_val(out, u);
            out.append("\n");
        },
        Instr::Pop(u) => {
            out.append("pop ");
            push_val(out, u);
            out.append("\n");
        },
        Instr::Call(l) => {
            out.append("call ");
            push_label(out, l);
            out.append("\n");
        },
        Instr::Leave => out.append("leave\n"),
        Instr::Ret => out.append("ret\n"),
        Instr::J(c, l) => {
            if *c == Cond::Always {
                out.append("jmp ");
            } else {
                out.append("j");
                out.append(cond_to_str(c));
                out.append(" ");
            }
            push_label(out, l);
            out.append("\n");
        },
        Instr::Cmov(c, u, v) => {
            let mut name = String::from_str("cmov");
            name.append(cond_to_str(c));
            push_binary(out, name.as_str(), u, v);
        },
        Instr::Lea(u, v) => push_binary(out, "lea", u, v),
        Instr::Label(l) => {
            push_label(out, l);
            out.append(":\n");
        },
    }
    assert(final(out)@ =~= old(out)@ + instr_text(*i));
}

/// The NASM line of one instruction.
pub fn instr_to_str(i: &Instr) -> (r: String)
    ensures
        r@ == instr_text(*i),
{
    let mut s = String::new();
    push_instr(&mut s, i);
    assert(s@ =~= instr_text(*i));
    s
}

/// Appends the text of a run of instructions.
pub fn push_instrs(out: &mut String, is: &Vec<Instr>)
    ensures
        final(out)@ == old(out)@ + instrs_text(is@),
{
    let ghost start = out@;
    let mut k: usize = 0;
    while k < is.len()
        invariant
            k <= is@.len(),
            out@ == start + instrs_text(is@.take(k as int)),
        decreases is@.len() - k,
    {
        push_instr(out, &is[k]);
        proof {
            assert(is@.take(k + 1).drop_last() =~= is@.take(k as int));
        }
        k = k + 1;
        assert(out@ =~= start + instrs_text(is@.take(k as int)));
    }
    assert(is@.take(k as int) =~= is@);
}

} // verus!
