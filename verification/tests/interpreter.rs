use loxide::chunk::{Chunk, OP_ADD, OP_CONSTANT, OP_NEGATE, OP_RETURN};
use loxide::compiler::{compile, CompileErrorKind};
use loxide::interpret;
use loxide::value::Value;
use loxide::vm::{RuntimeErrorKind, Vm};

/// Compiles a source text, runs it, and returns the value left on top of
/// the stack at the RETURN halt.
fn run_source(src: &str) -> Value {
    let chunk = compile(src.as_bytes()).expect("source should compile");
    let mut vm = Vm::new(chunk);
    vm.run().expect("chunk should run");
    assert_eq!(vm.stack_len(), 1);
    vm.top().expect("one value should remain")
}

fn number(x: f64) -> Value {
    Value::Number(x.to_bits())
}

#[test]
fn precedence_multiplication_binds_tighter() {
    assert_eq!(run_source("1 + 2 * 3"), number(7.0));
}

#[test]
fn grouping_overrides_precedence() {
    assert_eq!(run_source("(1 + 2) * 3"), number(9.0));
}

#[test]
fn addition_matches_ieee() {
    assert_eq!(run_source("1 + 2"), number(1.0 + 2.0));
    assert_eq!(run_source("0.1 + 0.2"), number(0.1 + 0.2));
}

#[test]
fn subtraction_is_left_associative() {
    assert_eq!(run_source("1 - 2 - 3"), number(-4.0));
}

#[test]
fn division_is_left_associative() {
    assert_eq!(run_source("8 / 4 / 2"), number(1.0));
}

#[test]
fn unary_minus_binds_tighter_than_binary() {
    assert_eq!(run_source("-2 - 3"), number(-5.0));
    assert_eq!(run_source("-2 * 3"), number(-6.0));
    assert_eq!(run_source("--2"), number(2.0));
}

#[test]
fn mixed_expression() {
    assert_eq!(run_source("(5 - (3 - 1)) + -1"), number(2.0));
}

#[test]
fn division_by_zero_is_infinity() {
    assert_eq!(run_source("1 / 0"), number(f64::INFINITY));
}

#[test]
fn fractions_parse_to_nearest_double() {
    assert_eq!(run_source("2.5"), number(2.5));
    assert_eq!(run_source("0.3"), number(0.3));
}

#[test]
fn comments_and_whitespace_are_skipped() {
    assert_eq!(run_source("1 +\t2 // trailing words\n + 4"), number(7.0));
}

#[test]
fn truncated_expression_is_a_compile_error() {
    let err = compile(b"1 +").expect_err("truncated source must not compile");
    assert_eq!(err.kind, CompileErrorKind::ExpectExpression);
    assert_eq!(err.line, 1);
    assert_eq!(err.message(), "expect expression");
}

#[test]
fn truncated_expression_error_names_its_line() {
    let err = compile(b"1 +\n(2 *\n3 +").expect_err("truncated source must not compile");
    assert_eq!(err.kind, CompileErrorKind::ExpectExpression);
    assert_eq!(err.line, 3);
}

#[test]
fn interpret_short_circuits_on_compile_error() {
    match interpret(b"1 +") {
        Err(loxide::InterpretError::Compile(e)) => {
            assert_eq!(e.kind, CompileErrorKind::ExpectExpression);
            assert_eq!(e.line, 1);
        }
        other => panic!("expected a compile error, got {:?}", other),
    }
}

#[test]
fn interpret_runs_well_formed_source() {
    assert!(interpret(b"(1 + 2) * 3 - 4 / 2").is_ok());
}

#[test]
fn unclosed_group_is_a_compile_error() {
    let err = compile(b"(1 + 2").expect_err("unclosed group must not compile");
    assert_eq!(err.kind, CompileErrorKind::ExpectRightParen);
    assert_eq!(err.line, 1);
}

#[test]
fn trailing_input_is_a_compile_error() {
    let err = compile(b"1 2").expect_err("trailing input must not compile");
    assert_eq!(err.kind, CompileErrorKind::ExpectEnd);
    assert_eq!(err.line, 1);
}

#[test]
fn unexpected_character_is_a_compile_error() {
    let err = compile(b"1 + #").expect_err("stray byte must not compile");
    assert_eq!(err.kind, CompileErrorKind::UnexpectedCharacter);
    assert_eq!(err.line, 1);
}

#[test]
fn identifier_is_not_an_expression_yet() {
    let err = compile(b"foo + 1").expect_err("identifiers must not compile");
    assert_eq!(err.kind, CompileErrorKind::ExpectExpression);
    assert_eq!(err.line, 1);
}

#[test]
fn comparison_operator_ends_the_expression() {
    let err = compile(b"1 == 2").expect_err("comparisons must not compile");
    assert_eq!(err.kind, CompileErrorKind::ExpectEnd);
    assert_eq!(err.line, 1);
}

#[test]
fn empty_source_is_a_compile_error() {
    let err = compile(b"").expect_err("empty source must not compile");
    assert_eq!(err.kind, CompileErrorKind::ExpectExpression);
}

#[test]
fn overfull_constant_pool_is_a_compile_error() {
    let mut src = String::from("0");
    for _ in 0..300 {
        src.push_str(" + 0");
    }
    let err = compile(src.as_bytes()).expect_err("301 literals must overflow the pool");
    assert_eq!(err.kind, CompileErrorKind::TooManyConstants);
}

#[test]
fn negating_a_boolean_is_a_type_mismatch() {
    let mut chunk = Chunk::new();
    let idx = chunk.add_constant(Value::Bool(true));
    chunk.write(OP_CONSTANT, 1);
    chunk.write(idx as u8, 1);
    chunk.write(OP_NEGATE, 2);
    chunk.write(OP_RETURN, 3);
    let mut vm = Vm::new(chunk);
    let err = vm.run().expect_err("negating a boolean must fault");
    assert_eq!(err.kind, RuntimeErrorKind::TypeMismatch);
    assert_eq!(err.line, 2);
    assert_eq!(err.message(), "operand must be a number");
}

#[test]
fn adding_nil_is_a_type_mismatch() {
    let mut chunk = Chunk::new();
    let a = chunk.add_constant(Value::Nil);
    let b = chunk.add_constant(Value::Number(1.0f64.to_bits()));
    chunk.write(OP_CONSTANT, 1);
    chunk.write(a as u8, 1);
    chunk.write(OP_CONSTANT, 1);
    chunk.write(b as u8, 1);
    chunk.write(OP_ADD, 4);
    chunk.write(OP_RETURN, 5);
    let mut vm = Vm::new(chunk);
    let err = vm.run().expect_err("adding nil must fault");
    assert_eq!(err.kind, RuntimeErrorKind::TypeMismatch);
    assert_eq!(err.line, 4);
}

#[test]
fn popping_an_empty_stack_is_an_underflow() {
    let mut chunk = Chunk::new();
    chunk.write(OP_ADD, 7);
    chunk.write(OP_RETURN, 8);
    let mut vm = Vm::new(chunk);
    let err = vm.run().expect_err("adding on an empty stack must fault");
    assert_eq!(err.kind, RuntimeErrorKind::StackUnderflow);
    assert_eq!(err.line, 7);
}

#[test]
fn unknown_opcode_is_a_fault() {
    let mut chunk = Chunk::new();
    chunk.write(99, 2);
    let mut vm = Vm::new(chunk);
    let err = vm.run().expect_err("an unknown opcode must fault");
    assert_eq!(err.kind, RuntimeErrorKind::UnknownOpcode);
    assert_eq!(err.line, 2);
}

#[test]
fn constant_index_out_of_pool_is_a_fault() {
    let mut chunk = Chunk::new();
    chunk.write(OP_CONSTANT, 3);
    chunk.write(5, 3);
    chunk.write(OP_RETURN, 4);
    let mut vm = Vm::new(chunk);
    let err = vm.run().expect_err("an unbacked pool index must fault");
    assert_eq!(err.kind, RuntimeErrorKind::InvalidConstant);
    assert_eq!(err.line, 3);
}

#[test]
fn truncated_constant_instruction_is_a_fault() {
    let mut chunk = Chunk::new();
    chunk.write(OP_CONSTANT, 6);
    let mut vm = Vm::new(chunk);
    let err = vm.run().expect_err("a truncated instruction must fault");
    assert_eq!(err.kind, RuntimeErrorKind::InvalidConstant);
    assert_eq!(err.line, 6);
}

#[test]
fn running_off_the_code_end_is_a_fault() {
    let mut chunk = Chunk::new();
    let idx = chunk.add_constant(Value::Number(1.0f64.to_bits()));
    chunk.write(OP_CONSTANT, 9);
    chunk.write(idx as u8, 9);
    let mut vm = Vm::new(chunk);
    let err = vm.run().expect_err("a chunk without RETURN must fault");
    assert_eq!(err.kind, RuntimeErrorKind::MissingReturn);
    assert_eq!(err.line, 9);
}

#[test]
fn constant_indices_count_up_and_stay_stable() {
    let mut chunk = Chunk::new();
    let i0 = chunk.add_constant(Value::Number(1.5f64.to_bits()));
    let i1 = chunk.add_constant(Value::Bool(false));
    let i2 = chunk.add_constant(Value::Nil);
    assert_eq!((i0, i1, i2), (0, 1, 2));
    let i3 = chunk.add_constant(Value::Number(2.5f64.to_bits()));
    assert_eq!(i3, 3);
    assert_eq!(chunk.constant_at(0), Value::Number(1.5f64.to_bits()));
    assert_eq!(chunk.constant_at(1), Value::Bool(false));
    assert_eq!(chunk.constant_at(2), Value::Nil);
    assert_eq!(chunk.constant_at(3), Value::Number(2.5f64.to_bits()));
    assert_eq!(chunk.constants_len(), 4);
}

#[test]
fn line_map_tracks_code_length() {
    let mut chunk = Chunk::new();
    assert_eq!(chunk.lines_len(), chunk.code_len());
    for k in 0..20u8 {
        chunk.write(k, 1 + k as usize / 3);
        assert_eq!(chunk.lines_len(), chunk.code_len());
    }
    assert_eq!(chunk.line_at(19), 7);
    assert_eq!(chunk.read(4), 4);
}

#[test]
fn compiling_twice_gives_identical_chunks_and_results() {
    let src = b"(4 - 1.5) * -2 / 5";
    let c1 = compile(src).expect("source should compile");
    let c2 = compile(src).expect("source should compile");
    assert_eq!(c1.code_len(), c2.code_len());
    for k in 0..c1.code_len() {
        assert_eq!(c1.read(k), c2.read(k));
        assert_eq!(c1.line_at(k), c2.line_at(k));
    }
    assert_eq!(c1.constants_len(), c2.constants_len());
    for k in 0..c1.constants_len() {
        assert_eq!(c1.constant_at(k), c2.constant_at(k));
    }
    let mut vm1 = Vm::new(c1);
    let mut vm2 = Vm::new(c2);
    assert_eq!(vm1.run(), vm2.run());
    assert_eq!(vm1.top(), vm2.top());
    assert_eq!(vm1.top(), Some(number((4.0 - 1.5) * -2.0 / 5.0)));
}

#[test]
fn compiled_chunk_ends_with_return() {
    let chunk = compile(b"1 + 2").expect("source should compile");
    assert!(chunk.code_len() > 0);
    assert_eq!(chunk.read(chunk.code_len() - 1), OP_RETURN);
}
