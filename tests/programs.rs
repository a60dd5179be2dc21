use snek::compile::compile_to_instrs;
use snek::heap::{snek_structural_eq_true, value_text};
use snek::instr::{Cond, Instr, Label, Reg, Val};
use snek::parse::parse_program;
use snek::value::{error_message, input_value};

const BASE: i64 = 0x100000;
const WORDS: usize = 1 << 16;
const SENTINEL: i64 = -1;

struct Machine {
    regs: [i64; 7],
    mem: Vec<i64>,
    zf: bool,
    sf: bool,
    of: bool,
    out: Vec<String>,
}

fn reg_index(r: &Reg) -> usize {
    match r {
        Reg::RAX => 0,
        Reg::RBX => 1,
        Reg::RSI => 2,
        Reg::RDI => 3,
        Reg::RSP => 4,
        Reg::RBP => 5,
        Reg::R15 => 6,
    }
}

impl Machine {
    fn slot(&self, addr: i64) -> usize {
        assert!(addr >= BASE && (addr - BASE) % 8 == 0, "bad address {addr}");
        let i = ((addr - BASE) / 8) as usize;
        assert!(i < WORDS, "address out of memory {addr}");
        i
    }
    fn load(&self, addr: i64) -> i64 {
        self.mem[self.slot(addr)]
    }
    fn store(&mut self, addr: i64, v: i64) {
        let i = self.slot(addr);
        self.mem[i] = v;
    }
    fn addr_of(&self, v: &Val) -> i64 {
        match v {
            Val::RegOffset(r, d) => self.regs[reg_index(r)] + *d as i64,
            Val::EffectiveAddr(b, i, s, d) => {
                self.regs[reg_index(b)] + self.regs[reg_index(i)] * *s as i64 + *d as i64
            }
            _ => panic!("not a memory operand"),
        }
    }
    fn read(&self, v: &Val) -> i64 {
        match v {
            Val::Reg(r) => self.regs[reg_index(r)],
            Val::Imm32(n) => *n as i64,
            Val::Imm64(n) => *n,
            _ => self.load(self.addr_of(v)),
        }
    }
    fn write(&mut self, v: &Val, x: i64) {
        match v {
            Val::Reg(r) => self.regs[reg_index(r)] = x,
            Val::Imm32(_) | Val::Imm64(_) => panic!("write to an immediate"),
            _ => {
                let a = self.addr_of(v);
                self.store(a, x)
            }
        }
    }
    fn set_flags(&mut self, r: i64, of: bool) {
        self.zf = r == 0;
        self.sf = r < 0;
        self.of = of;
    }
    fn holds(&self, c: &Cond) -> bool {
        match c {
            Cond::Always => true,
            Cond::E => self.zf,
            Cond::Ne => !self.zf,
            Cond::L => self.sf != self.of,
            Cond::Le => self.zf || self.sf != self.of,
            Cond::G => !self.zf && self.sf == self.of,
            Cond::Ge => self.sf == self.of,
            Cond::O => self.of,
        }
    }
    fn push(&mut self, x: i64) {
        self.regs[4] -= 8;
        let sp = self.regs[4];
        self.store(sp, x);
    }
    fn pop(&mut self) -> i64 {
        let x = self.load(self.regs[4]);
        self.regs[4] += 8;
        x
    }
    fn text(&self, v: i64) -> String {
        String::from_utf8(value_text(v, &self.mem, BASE).into_bytes()).unwrap()
    }
}

fn label_key(l: &Label) -> String {
    format!("{:?}", l)
}

/// Runs a program on an input as the runtime would: what it prints, or the
/// error code it stops with.
fn run(src: &str, input: &str) -> Result<String, i64> {
    let prog = parse_program(src).expect("program should parse");
    let code = compile_to_instrs(&prog).expect("program should compile");
    let mut labels = std::collections::HashMap::new();
    for (i, ins) in code.iter().enumerate() {
        if let Instr::Label(l) = ins {
            labels.insert(label_key(l), i);
        }
    }
    let mut m = Machine {
        regs: [0; 7],
        mem: vec![0; WORDS],
        zf: false,
        sf: false,
        of: false,
        out: Vec::new(),
    };
    m.regs[reg_index(&Reg::RDI)] = input_value(input).expect("input should be valid");
    m.regs[reg_index(&Reg::RSI)] = BASE;
    m.regs[reg_index(&Reg::RSP)] = BASE + 8 * WORDS as i64;
    m.push(SENTINEL);
    let mut pc = labels[&label_key(&Label::Entry)];
    let mut steps = 0u64;
    loop {
        steps += 1;
        assert!(steps < 10_000_000, "program runs too long");
        let ins = &code[pc];
        pc += 1;
        match ins {
            Instr::Mov(d, s) => {
                let x = m.read(s);
                m.write(d, x)
            }
            Instr::Add(d, s) => {
                let (r, o) = m.read(d).overflowing_add(m.read(s));
                m.write(d, r);
                m.set_flags(r, o)
            }
            Instr::Sub(d, s) => {
                let (r, o) = m.read(d).overflowing_sub(m.read(s));
                m.write(d, r);
                m.set_flags(r, o)
            }
            Instr::Imul(d, s) => {
                let (r, o) = m.read(d).overflowing_mul(m.read(s));
                m.write(d, r);
                m.set_flags(r, o)
            }
            Instr::And(d, s) => {
                let r = m.read(d) & m.read(s);
                m.write(d, r);
                m.set_flags(r, false)
            }
            Instr::Xor(d, s) => {
                let r = m.read(d) ^ m.read(s);
                m.write(d, r);
                m.set_flags(r, false)
            }
            Instr::Sar(d, s) => {
                let r = m.read(d) >> (m.read(s) & 63);
                m.write(d, r);
                m.set_flags(r, false)
            }
            Instr::Cmp(a, b) => {
                let (r, o) = m.read(a).overflowing_sub(m.read(b));
                m.set_flags(r, o)
            }
            Instr::Test(a, b) => {
                let r = m.read(a) & m.read(b);
                m.set_flags(r, false)
            }
            Instr::Push(v) => {
                let x = m.read(v);
                m.push(x)
            }
            Instr::Pop(v) => {
                let x = m.pop();
                m.write(v, x)
            }
            Instr::Call(l) => {
                assert_eq!(m.regs[4] % 16, 0, "call with a misaligned stack");
                match l {
                    Label::Print => {
                        let v = m.regs[3];
                        let t = m.text(v);
                        m.out.push(t);
                        m.regs[0] = v;
                    }
                    Label::StructEq => {
                        m.regs[0] = snek_structural_eq_true(m.regs[3], m.regs[2], &m.mem, BASE);
                    }
                    Label::SnekError => return Err(m.regs[3]),
                    _ => {
                        m.push(pc as i64);
                        pc = labels[&label_key(l)];
                    }
                }
            }
            Instr::Leave => {
                m.regs[4] = m.regs[5];
                m.regs[5] = m.pop();
            }
            Instr::Ret => {
                let r = m.pop();
                if r == SENTINEL {
                    let v = m.regs[0];
                    let t = m.text(v);
                    m.out.push(t);
                    return Ok(m.out.join("\n"));
                }
                pc = r as usize;
            }
            Instr::J(c, l) => {
                if m.holds(c) {
                    pc = labels[&label_key(l)];
                }
            }
            Instr::Cmov(c, d, s) => {
                if m.holds(c) {
                    let x = m.read(s);
                    m.write(d, x)
                }
            }
            Instr::Lea(d, s) => {
                let a = m.addr_of(s);
                m.write(d, a)
            }
            Instr::Label(_) => {}
        }
    }
}

#[test]
fn nested_arithmetic() {
    assert_eq!(run("(+ 5 (* 3 4))", "0"), Ok("17".to_string()));
}

#[test]
fn let_sees_earlier_binding() {
    assert_eq!(run("(let ((x 10) (y (add1 x))) (* x y))", "false"), Ok("110".to_string()));
}

#[test]
fn if_on_input() {
    let src = "(if (< input 5) (* input 2) (sub1 input))";
    assert_eq!(run(src, "3"), Ok("6".to_string()));
    assert_eq!(run(src, "7"), Ok("6".to_string()));
}

#[test]
fn factorial() {
    let src = "(fun (fact n) (if (= n 0) 1 (* n (fact (sub1 n))))) (fact input)";
    assert_eq!(run(src, "10"), Ok("3628800".to_string()));
}

#[test]
fn factorial_of_boolean() {
    let src = "(fun (fact n) (if (= n 0) 1 (* n (fact (sub1 n))))) (fact input)";
    let code = run(src, "true").unwrap_err();
    assert_eq!(code, 1);
    assert!(error_message(code).contains("invalid argument"));
}

#[test]
fn tuple_set_from_get() {
    let src = "(let ((t (tuple 1 2 3))) (block (tuple-set! t 1 (tuple-get t 2)) t))";
    assert_eq!(run(src, "false"), Ok("(1 3 3)".to_string()));
}

#[test]
fn let_with_two_bodies_is_refused() {
    let src = "(let ((t (tuple 1 2 3))) (tuple-set! t 1 (tuple-get t 2)) t)";
    assert_eq!(parse_program(src).err(), Some(snek::parse::ParseError::InvalidExpression));
}

#[test]
fn cyclic_tuple_prints_elided() {
    let src = "(let ((t (tuple 1 2))) (block (tuple-set! t 0 t) t))";
    assert_eq!(run(src, "false"), Ok("((...) 2)".to_string()));
}

#[test]
fn addition_overflow() {
    let code = run("(+ 4611686018427387903 1)", "false").unwrap_err();
    assert_eq!(code, 2);
    assert!(error_message(code).contains("overflow"));
}

#[test]
fn arithmetic_is_exact_in_range() {
    assert_eq!(run("(- 7 10)", "0"), Ok("-3".to_string()));
    assert_eq!(run("(* -3 4)", "0"), Ok("-12".to_string()));
    assert_eq!(run("(+ -4611686018427387904 4611686018427387903)", "0"), Ok("-1".to_string()));
    assert_eq!(run("(* 2147483648 2147483647)", "0"), Ok("4611686016279904256".to_string()));
}

#[test]
fn arithmetic_overflow_traps() {
    assert_eq!(run("(* 4611686018427387903 2)", "0"), Err(2));
    assert_eq!(run("(- -4611686018427387904 1)", "0"), Err(2));
    assert_eq!(run("(add1 input)", "4611686018427387903"), Err(2));
    assert_eq!(run("(sub1 input)", "-4611686018427387904"), Err(2));
}

#[test]
fn arithmetic_on_boolean_is_invalid() {
    assert_eq!(run("(+ 1 true)", "0"), Err(1));
    assert_eq!(run("(< false 1)", "0"), Err(1));
    assert_eq!(run("(add1 (tuple 1))", "0"), Err(1));
}

#[test]
fn type_tests() {
    assert_eq!(run("(isnum 5)", "0"), Ok("true".to_string()));
    assert_eq!(run("(isnum true)", "0"), Ok("false".to_string()));
    assert_eq!(run("(isbool false)", "0"), Ok("true".to_string()));
    assert_eq!(run("(isbool (tuple))", "0"), Ok("false".to_string()));
    assert_eq!(run("(istuple (tuple 1 2))", "0"), Ok("true".to_string()));
    assert_eq!(run("(istuple 4)", "0"), Ok("false".to_string()));
}

#[test]
fn comparisons() {
    assert_eq!(run("(<= 3 3)", "0"), Ok("true".to_string()));
    assert_eq!(run("(> 3 3)", "0"), Ok("false".to_string()));
    assert_eq!(run("(>= -1 -2)", "0"), Ok("true".to_string()));
    assert_eq!(run("(== 4 4)", "0"), Ok("true".to_string()));
    assert_eq!(run("(== (tuple 1) (tuple 1))", "0"), Ok("false".to_string()));
    assert_eq!(run("(= (tuple 1 (tuple 2)) (tuple 1 (tuple 2)))", "0"), Ok("true".to_string()));
    assert_eq!(run("(= (tuple 1 2) (tuple 1))", "0"), Ok("false".to_string()));
}

#[test]
fn loop_break_and_set() {
    let src = "(let ((i 0) (acc 0)) (loop (if (= i input) (break acc) (block (set! acc (+ acc i)) (set! i (add1 i))))))";
    assert_eq!(run(src, "5"), Ok("10".to_string()));
}

#[test]
fn print_returns_its_argument() {
    assert_eq!(run("(+ 1 (print (tuple 1 true)))", "0"), Err(1));
    assert_eq!(run("(print (print 5))", "0"), Ok("5\n5\n5".to_string()));
}

#[test]
fn calls_stay_aligned() {
    let src = "(fun (f a b c) (print (+ a (+ b c)))) (fun (g x) (f x (print x) (f 1 2 3))) (g (print input))";
    assert_eq!(run(src, "4"), Ok("4\n6\n4\n14\n14".to_string()));
}

#[test]
fn index_errors() {
    assert_eq!(run("(tuple-get (tuple 1 2) 2)", "0"), Err(3));
    assert_eq!(run("(tuple-get (tuple 1 2) -1)", "0"), Err(3));
    assert_eq!(run("(tuple-get (tuple) 0)", "0"), Err(3));
    assert_eq!(run("(tuple-get 5 0)", "0"), Err(1));
    assert_eq!(run("(tuple-get (tuple 1 2) true)", "0"), Err(1));
}

#[test]
fn mutual_recursion() {
    let src = "(fun (even n) (if (= n 0) true (odd (sub1 n)))) (fun (odd n) (if (= n 0) false (even (sub1 n)))) (block (print input) (print (even input)) (odd (add1 input)))";
    assert_eq!(run(src, "10"), Ok("10\ntrue\ntrue".to_string()));
    assert_eq!(run(src, "9"), Ok("9\nfalse\nfalse".to_string()));
}

#[test]
fn loop_inside_argument_may_break() {
    let src = "(fun (f a) (add1 a)) (loop (break (f (loop (break 3)))))";
    assert_eq!(run(src, "0"), Ok("4".to_string()));
}

#[test]
fn break_value_with_a_call_stays_aligned() {
    let src = "(fun (f a b) (+ a b)) (let ((i 0)) (loop (if (= i 3) (break (f i (print i))) (set! i (add1 i)))))";
    assert_eq!(run(src, "0"), Ok("3\n6".to_string()));
}
