use snek::ast::{dep, Expr, Op2};
use snek::compile::{compile, compile_to_instrs};
use snek::heap::{snek_structural_eq_true, value_text};
use snek::instr::{instr_to_str, val_to_str, Cond, Instr, Label, Reg, Val};
use snek::lower::CompileError;
use snek::parse::{check_id, parse_program, ParseError};
use snek::program::{compile_source, SourceError};
use snek::text::decimal_string;
use snek::value::{error_message, error_report, input_value, parse_input};

fn compile_err(src: &str) -> CompileError {
    let p = parse_program(src).expect("program should parse");
    compile_to_instrs(&p).expect_err("program should not compile")
}

#[test]
fn input_words() {
    assert_eq!(input_value("true"), Some(7));
    assert_eq!(input_value("false"), Some(3));
    assert_eq!(input_value("10"), Some(20));
    assert_eq!(input_value("-5"), Some(-10));
    assert_eq!(input_value("+3"), Some(6));
    assert_eq!(input_value("4611686018427387903"), Some(9223372036854775806));
    assert_eq!(input_value("-4611686018427387904"), Some(i64::MIN));
    assert_eq!(parse_input("42"), 84);
}

#[test]
fn input_refused() {
    assert_eq!(input_value("4611686018427387904"), None);
    assert_eq!(input_value("-4611686018427387905"), None);
    assert_eq!(input_value("99999999999999999999999"), None);
    assert_eq!(input_value("abc"), None);
    assert_eq!(input_value(""), None);
    assert_eq!(input_value("-"), None);
    assert_eq!(input_value("1 2"), None);
}

#[test]
fn error_texts() {
    assert_eq!(error_message(1), "invalid argument");
    assert_eq!(error_message(2), "overflow");
    assert_eq!(error_message(3), "index out of range");
    assert_eq!(error_message(9), "error code 9");
    assert_eq!(error_report(3), "an error ocurred index out of range");
}

#[test]
fn decimal_texts() {
    assert_eq!(decimal_string(0), "0");
    assert_eq!(decimal_string(-42), "-42");
    assert_eq!(decimal_string(1234567890), "1234567890");
    assert_eq!(decimal_string(i64::MIN), "-9223372036854775808");
    assert_eq!(decimal_string(i64::MAX), "9223372036854775807");
}

#[test]
fn scalar_printing() {
    let heap: Vec<i64> = vec![0; 4];
    assert_eq!(value_text(34, &heap, 0), "17");
    assert_eq!(value_text(-6, &heap, 0), "-3");
    assert_eq!(value_text(7, &heap, 0), "true");
    assert_eq!(value_text(3, &heap, 0), "false");
    assert_eq!(value_text(1, &heap, 0), "()");
}

#[test]
fn printing_round_trips_for_scalars() {
    let heap: Vec<i64> = vec![0; 4];
    for v in [0i64, 2, -2, 7, 3, 9223372036854775806, i64::MIN, 246] {
        let t = value_text(v, &heap, 0);
        assert_eq!(input_value(&t), Some(v));
    }
}

#[test]
fn tuple_printing() {
    // (1 (2) true) at byte address 1000, with (2) at 1032.
    let base = 1000;
    let heap: Vec<i64> = vec![6, 2, 1033, 7, 2, 4];
    assert_eq!(value_text(1001, &heap, base), "(1 (2) true)");
    assert_eq!(value_text(1033, &heap, base), "(2)");
}

#[test]
fn cyclic_printing() {
    // A pair at byte 1000 whose first element is itself.
    let heap: Vec<i64> = vec![4, 1001, 4];
    assert_eq!(value_text(1001, &heap, 1000), "((...) 2)");
    assert_eq!(value_text(1, &heap, 1000), "()");
}

#[test]
fn pointer_outside_heap() {
    let heap: Vec<i64> = vec![4, 2];
    assert_eq!(value_text(1017, &heap, 1000), "Unknown value: 1017");
}

#[test]
fn structural_equality() {
    // (1 2) at byte 1000, (1 2) at 1024, (1) at 1048.
    let base = 1000;
    let heap: Vec<i64> = vec![4, 2, 4, 4, 2, 4, 2, 2];
    assert_eq!(snek_structural_eq_true(1001, 1025, &heap, base), 7);
    assert_eq!(snek_structural_eq_true(1025, 1001, &heap, base), 7);
    assert_eq!(snek_structural_eq_true(1001, 1001, &heap, base), 7);
    assert_eq!(snek_structural_eq_true(1001, 1049, &heap, base), 3);
    assert_eq!(snek_structural_eq_true(1049, 1001, &heap, base), 3);
    assert_eq!(snek_structural_eq_true(1001, 1, &heap, base), 3);
    assert_eq!(snek_structural_eq_true(1, 1, &heap, base), 7);
    assert_eq!(snek_structural_eq_true(4, 4, &heap, base), 7);
    assert_eq!(snek_structural_eq_true(4, 6, &heap, base), 3);
    assert_eq!(snek_structural_eq_true(7, 3, &heap, base), 3);
    assert_eq!(snek_structural_eq_true(1001, 4, &heap, base), 3);
}

#[test]
fn structural_equality_transitive_example() {
    // Three copies of (5 (6)): at 1000, 1024 and 1048; their (6) at 1072,
    // 1088 and 1104.
    let base = 1000;
    let heap: Vec<i64> = vec![4, 10, 1073, 4, 10, 1089, 4, 10, 1105, 2, 12, 2, 12, 2, 12];
    assert_eq!(snek_structural_eq_true(1001, 1025, &heap, base), 7);
    assert_eq!(snek_structural_eq_true(1025, 1049, &heap, base), 7);
    assert_eq!(snek_structural_eq_true(1001, 1049, &heap, base), 7);
}

#[test]
fn cyclic_equality_is_optimistic() {
    // Two one-element tuples at 1000 and 1016, each holding itself.
    let base = 1000;
    let heap: Vec<i64> = vec![2, 1001, 2, 1017];
    assert_eq!(snek_structural_eq_true(1001, 1017, &heap, base), 7);
}

#[test]
fn identifiers() {
    assert!(check_id("x"));
    assert!(check_id("x-y_1"));
    assert!(check_id("éte"));
    assert!(!check_id("xé"));
    assert!(!check_id("x2²"));
    assert!(!check_id("1x"));
    assert!(!check_id("_x"));
    assert!(!check_id("x!"));
    assert!(!check_id(""));
    assert!(!check_id("let"));
    assert!(!check_id("input"));
    assert!(!check_id("add1"));
}

#[test]
fn parse_errors() {
    let e = |s: &str| parse_program(s).err();
    assert_eq!(e("(block)"), Some(ParseError::InvalidBlock));
    assert_eq!(e("(let () 1)"), Some(ParseError::InvalidLet));
    assert_eq!(e("(let x 1)"), Some(ParseError::InvalidLet));
    assert_eq!(e("(let (x) 1)"), Some(ParseError::InvalidLet));
    assert_eq!(e("(let ((1 2)) 1)"), Some(ParseError::InvalidKeyword));
    assert_eq!(e("(let ((if 2)) 1)"), Some(ParseError::InvalidKeyword));
    assert_eq!(e("(set! 1 2)"), Some(ParseError::InvalidSet));
    assert_eq!(e("1.5"), Some(ParseError::InvalidExpression));
    assert_eq!(e("()"), Some(ParseError::InvalidExpression));
    assert_eq!(e("4611686018427387904"), Some(ParseError::InvalidLiteral));
    assert_eq!(e("(+ 1 -4611686018427387905)"), Some(ParseError::InvalidLiteral));
    assert_eq!(e("(fun (f 1) 1) 1"), Some(ParseError::InvalidDefinition));
    assert_eq!(e("(fun (f let) 1) 1"), Some(ParseError::InvalidDefinition));
    assert_eq!(e("(fun () 1) 1"), Some(ParseError::InvalidDefinition));
    assert_eq!(e("(fun (let x) x) 1"), Some(ParseError::InvalidDefinition));
    assert_eq!(e("(fun (9f x) x) 1"), Some(ParseError::InvalidDefinition));
    assert!(parse_program("(fun (f-1 x) x) (f-1 2)").is_ok());
    assert_eq!(e(""), Some(ParseError::InvalidProgram));
    assert_eq!(e("(+ 1"), Some(ParseError::InvalidSexp));
}

#[test]
fn parse_shapes() {
    let p = parse_program("(fun (f a b) (+ a b)) (f 1 true)").unwrap();
    assert_eq!(p.0.len(), 1);
    assert_eq!(p.0[0].name, "f");
    assert_eq!(p.0[0].args, vec!["a".to_string(), "b".to_string()]);
    match &p.1 {
        Expr::Call(f, args) => {
            assert_eq!(f, "f");
            assert!(matches!(args[0], Expr::Number(1)));
            assert!(matches!(args[1], Expr::Boolean(true)));
        }
        _ => panic!("expected a call"),
    }
    match &p.0[0].expr {
        Expr::BinOp(Op2::Plus, a, b) => {
            assert!(matches!(&**a, Expr::Id(x) if x == "a"));
            assert!(matches!(&**b, Expr::Id(x) if x == "b"));
        }
        _ => panic!("expected a sum"),
    }
}

#[test]
fn compile_errors() {
    assert!(matches!(compile_err("x"), CompileError::UnboundVariable(ref x) if x == "x"));
    assert!(matches!(compile_err("(let ((x 1) (x 2)) x)"), CompileError::DuplicateBinding(ref x) if x == "x"));
    assert!(matches!(compile_err("(break 1)"), CompileError::BreakOutsideLoop));
    assert!(matches!(
        compile_err("(fun (f a b) a) (block (loop (f (break 1) 2)) (print 5))"),
        CompileError::BreakInArgument
    ));
    assert!(matches!(compile_err("(fun (f a) a) (loop (f (if true (break 1) 2)))"), CompileError::BreakInArgument));
    assert!(matches!(compile_err("(g 1)"), CompileError::UndefinedFunction(ref f) if f == "g"));
    assert!(matches!(compile_err("(fun (f) 1) (fun (f) 2) 3"), CompileError::DuplicateFunction(ref f) if f == "f"));
    assert!(matches!(compile_err("(fun (f a a) 1) 3"), CompileError::DuplicateArgument(ref f) if f == "f"));
    assert!(matches!(compile_err("(set! input 1)"), CompileError::UnboundVariable(ref x) if x == "input"));
    assert!(matches!(compile_err("(fun (f) input) (f)"), CompileError::UnboundVariable(ref x) if x == "input"));
}

#[test]
fn arity_mismatch_rejected() {
    assert!(matches!(compile_err("(fun (f a) a) (f 1 2)"), CompileError::ArityMismatch(ref f) if f == "f"));
    assert!(matches!(compile_err("(fun (f a) (f)) 1"), CompileError::ArityMismatch(ref f) if f == "f"));
    assert!(matches!(compile_err("(fun (f a) a) (+ 1 (tuple (f)))"), CompileError::ArityMismatch(_)));
}

#[test]
fn stack_depth() {
    let p = parse_program("(+ 1 (+ 2 (+ 3 4)))").unwrap();
    assert_eq!(dep(&p.1), 1);
    let p = parse_program("(+ (+ (+ 3 4) 2) 1)").unwrap();
    assert_eq!(dep(&p.1), 3);
    let p = parse_program("(let ((a 1) (b (+ 1 2))) (tuple a b 3))").unwrap();
    assert_eq!(dep(&p.1), 5);
    let p = parse_program("(tuple-set! (tuple 1) 0 (+ 1 2))").unwrap();
    assert_eq!(dep(&p.1), 2);
}

#[test]
fn instruction_text() {
    assert_eq!(instr_to_str(&Instr::Mov(Val::Reg(Reg::RAX), Val::Imm64(-5))), "mov rax, -5\n");
    assert_eq!(val_to_str(&Val::RegOffset(Reg::RBP, -16)), "[rbp - 16]");
    assert_eq!(val_to_str(&Val::RegOffset(Reg::RBP, 24)), "[rbp + 24]");
    assert_eq!(val_to_str(&Val::EffectiveAddr(Reg::RAX, Reg::RBX, 4, 8)), "[rax + rbx * 4 + 8]");
    assert_eq!(instr_to_str(&Instr::J(Cond::Always, Label::IfEnd(12))), "jmp ifend_12\n");
    assert_eq!(instr_to_str(&Instr::J(Cond::Ge, Label::Error)), "jge my_error\n");
    assert_eq!(
        instr_to_str(&Instr::Cmov(Cond::E, Val::Reg(Reg::RAX), Val::Reg(Reg::RBX))),
        "cmove rax, rbx\n"
    );
    assert_eq!(instr_to_str(&Instr::Label(Label::Func("f".to_string()))), "func_f:\n");
    assert_eq!(instr_to_str(&Instr::Call(Label::StructEq)), "call snek_structural_eq_true\n");
    assert_eq!(instr_to_str(&Instr::Push(Val::Reg(Reg::R15))), "push r15\n");
    assert_eq!(instr_to_str(&Instr::Leave), "leave\n");
}

#[test]
fn program_text() {
    let p = parse_program("(print 1)").unwrap();
    let t = compile(&p).unwrap();
    assert!(t.starts_with(
        "section .text\nextern snek_error\nextern snek_print\nextern snek_structural_eq_true\nglobal our_code_starts_here\nmy_error:\nand rsp, -16\nmov rdi, rsi\ncall snek_error\n"
    ));
    assert!(t.contains("our_code_starts_here:\nmov r15, rsi\n__our_code_starts_here:\npush rbp\nmov rbp, rsp\nsub rsp, 0\nmov rax, 2\n"));
    assert!(t.contains("sub rsp, 8\npush rdi\nmov rdi, rax\ncall snek_print\npop rdi\nadd rsp, 8\n"));
    assert!(t.ends_with("leave\nret\n"));
}

#[test]
fn source_to_text() {
    let t = compile_source("(fun (f x) (add1 x)) (f 2)").unwrap();
    assert!(t.contains("func_f:\n"));
    assert!(t.contains("call func_f\n"));
    assert!(matches!(compile_source("(block)"), Err(SourceError::Parse(ParseError::InvalidBlock))));
    assert!(matches!(compile_source("(f 1)"), Err(SourceError::Compile(CompileError::UndefinedFunction(_)))));
}
