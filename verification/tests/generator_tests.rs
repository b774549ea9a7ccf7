use ntc::generator::{GenError, Generator};
use ntc::parser::{NodeProg, ParseError, Parser};
use ntc::tokenizer::Tokenizer;

fn parse_src(src: &str) -> Result<NodeProg, ParseError> {
    let mut tokenizer = Tokenizer::new(src.as_bytes().to_vec());
    let tokens = tokenizer.tokenize();
    let mut parser = Parser::new(tokens);
    parser.parse()
}

fn compile(src: &str) -> Result<String, GenError> {
    let mut generator = Generator::new(parse_src(src).unwrap());
    generator.generate()
}

const PROLOGUE: &str = ".global _start\n.align 2\n\n_start:\n";
const EPILOGUE: &str = "    mov X0, #0\n    mov X16, #1\n    svc #0x80\n";

#[test]
fn empty_program_emits_boilerplate_and_zero_exit() {
    let out = compile("").unwrap();
    assert_eq!(out, format!("{}{}", PROLOGUE, EPILOGUE));
}

#[test]
fn exit_with_literal_emits_that_status() {
    let out = compile("exit(10);").unwrap();
    let expected = format!(
        "{}    mov X0, #10\n    str X0, [sp, #-0x10]!\n    ldr X0, [sp]\n    mov X16, #1\n    svc #0x80\n{}",
        PROLOGUE, EPILOGUE
    );
    assert_eq!(out, expected);
}

#[test]
fn exit_with_literal_leaves_no_symbol_table_entry() {
    let mut generator = Generator::new(parse_src("exit(10);").unwrap());
    generator.generate().unwrap();
    assert!(generator.vars.is_empty());
    assert_eq!(generator.stack_size, 0);
}

#[test]
fn let_then_exit_uses_slot_zero() {
    let mut generator = Generator::new(parse_src("let x = 5; exit(x);").unwrap());
    let out = generator.generate().unwrap();
    assert_eq!(generator.vars.len(), 1);
    assert_eq!(generator.vars[0].0, "x");
    assert_eq!(generator.vars[0].1.stack_loc, 0);
    assert_eq!(generator.stack_size, 1);
    let expected = format!(
        "{}    mov X0, #5\n    str X0, [sp, #-0x10]!\n    ldr X0, [sp, #0x0]\n    str X0, [sp, #-0x10]!\n    ldr X0, [sp]\n    mov X16, #1\n    svc #0x80\n{}",
        PROLOGUE, EPILOGUE
    );
    assert_eq!(out, expected);
}

#[test]
fn each_reference_emits_exactly_one_load() {
    let out = compile("let a = 1; let b = a; exit(b);").unwrap();
    assert_eq!(out.matches("    ldr X0, [sp, #0x").count(), 2);
}

#[test]
fn reference_offset_counts_slots_above_the_slot() {
    let out = compile("let a = 1; let b = 2; exit(a);").unwrap();
    // a sits at slot 0 and the stack holds 2 slots: (2 - 0 - 1) * 16 = 0x10.
    assert!(out.contains("    ldr X0, [sp, #0x10]\n"));
}

#[test]
fn offsets_are_uppercase_hexadecimal() {
    let mut src = String::new();
    for name in ["a", "b", "c", "d", "e", "f", "g", "h", "i", "j", "k"] {
        src.push_str(&format!("let {} = 1; ", name));
    }
    src.push_str("exit(a);");
    // a sits at slot 0 and the stack holds 11 slots: (11 - 0 - 1) * 16 = 0xA0.
    let out = compile(&src).unwrap();
    assert!(out.contains("    ldr X0, [sp, #0xA0]\n"));
}

#[test]
fn redeclaration_is_a_fatal_error_naming_the_identifier() {
    let err = compile("let x = 1; let x = 2; exit(x);").unwrap_err();
    match &err {
        GenError::RedeclaredIdent(name) => assert_eq!(name, "x"),
        other => panic!("expected a redeclaration error, got {:?}", other),
    }
    assert_eq!(err.message(), "ERROR: identifier `x` already exists");
}

#[test]
fn undeclared_reference_is_a_fatal_error_naming_the_identifier() {
    let err = compile("exit(y);").unwrap_err();
    match &err {
        GenError::UndeclaredIdent(name) => assert_eq!(name, "y"),
        other => panic!("expected an undeclared-identifier error, got {:?}", other),
    }
    assert_eq!(err.message(), "Identifier `y` not found");
}

#[test]
fn undeclared_initializer_in_let_is_fatal() {
    let err = compile("let x = y;").unwrap_err();
    match &err {
        GenError::UndeclaredIdent(name) => assert_eq!(name, "y"),
        other => panic!("expected an undeclared-identifier error, got {:?}", other),
    }
}

#[test]
fn use_before_declaration_is_fatal_even_if_declared_later() {
    let err = compile("exit(x); let x = 1;").unwrap_err();
    assert!(matches!(err, GenError::UndeclaredIdent(_)));
}

#[test]
fn exit_does_not_shrink_the_symbol_stack() {
    // The statement after an exit still sees the declared slots.
    let mut generator = Generator::new(parse_src("let x = 5; exit(10); exit(x);").unwrap());
    let out = generator.generate().unwrap();
    assert_eq!(generator.stack_size, 1);
    assert!(out.contains("    ldr X0, [sp, #0x0]\n"));
}

#[test]
fn redeclaration_stops_before_the_failing_statement() {
    let mut generator = Generator::new(parse_src("let x = 1; let x = 2;").unwrap());
    assert!(generator.generate().is_err());
    // The text emitted so far holds the prologue and the first let only,
    // and no epilogue: the driver discards it.
    let expected = format!("{}    mov X0, #1\n    str X0, [sp, #-0x10]!\n", PROLOGUE);
    assert_eq!(generator.output, expected);
}
