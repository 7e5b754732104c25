//! End-to-end and unit tests: scanning, compiling to exact bytecode, and
//! running with real IEEE-754 arithmetic supplied as bit-pattern functions.

use fast_frox::chunk::Chunk;
use fast_frox::compiler::{compile, Precedence};
use fast_frox::error::{CompileErrorKind, InterpreterError, RuntimeErrorKind};
use fast_frox::op_code::OpCode;
use fast_frox::scanner::{Scanner, Token, TokenType};
use fast_frox::value::{Value, ValueKind};
use fast_frox::virtual_machine::{InstructionPointer, StepOutcome, VirtualMachine};
use fast_frox::InstructionSize;

/// The machine's arithmetic, on 64-bit float bit patterns, keyed by the
/// opcode byte.
fn arith(op: u8, a: u64, b: u64) -> u64 {
    let x = f64::from_bits(a);
    let y = f64::from_bits(b);
    let r = match op {
        2 => -x,
        3 => x + y,
        4 => x - y,
        5 => x * y,
        6 => x / y,
        _ => f64::NAN,
    };
    r.to_bits()
}

/// The bits of each number literal of `source`, in order of appearance.
fn number_bits(source: &[u8]) -> Vec<u64> {
    let mut scanner = Scanner::new(source);
    let mut nums: Vec<u64> = Vec::new();
    loop {
        match scanner.scan_token() {
            Ok(t) => {
                if t.tpe == TokenType::Eof {
                    break;
                }
                if t.tpe == TokenType::Number {
                    let lexeme = std::str::from_utf8(&source[t.start..t.start + t.length]).unwrap();
                    nums.push(lexeme.parse::<f64>().unwrap().to_bits());
                }
            }
            Err(_) => break,
        }
    }
    nums
}

/// Interpret a source string with real float arithmetic.
fn run_source(source: &str) -> Result<Value, InterpreterError> {
    let bytes = source.as_bytes();
    let nums = number_bits(bytes);
    let mut vm = VirtualMachine::new(false);
    vm.interpret(bytes, nums, arith)
}

/// The printed form of a resulting value, as the command line would show it.
fn show(v: Value) -> String {
    match v {
        Value::Nil => "nil".to_string(),
        Value::Boolean(b) => format!("{}", b),
        Value::Number(bits) => format!("{}", f64::from_bits(bits)),
    }
}

// --- scanner ---

#[test]
fn should_scan_digit() {
    let mut scanner = Scanner::new("1337.42".as_bytes());
    let token = scanner.scan_token().unwrap();
    assert_eq!(token, Token::new(TokenType::Number, 0, 7, 1));
}

#[test]
fn should_scan_parenthesis() {
    let mut scanner = Scanner::new("(".as_bytes());
    let token = scanner.scan_token().unwrap();
    assert!(matches!(
        token,
        Token {
            tpe: TokenType::LeftParen,
            ..
        }
    ));
}

#[test]
fn should_ignore_comment() {
    let mut scanner = Scanner::new("//foo\n+".as_bytes());
    let token = scanner.scan_token().unwrap();
    assert!(matches!(
        token,
        Token {
            tpe: TokenType::Plus,
            ..
        }
    ));
}

#[test]
fn should_scan_keyword() {
    let mut scanner = Scanner::new("while".as_bytes());
    let token = scanner.scan_token().unwrap();
    assert!(matches!(
        token,
        Token {
            tpe: TokenType::While,
            ..
        }
    ));
}

#[test]
fn should_scan_two_char_operators() {
    let mut scanner = Scanner::new("<= == != >".as_bytes());
    assert_eq!(scanner.scan_token().unwrap().tpe, TokenType::LessEqual);
    assert_eq!(scanner.scan_token().unwrap().tpe, TokenType::EqualEqual);
    assert_eq!(scanner.scan_token().unwrap().tpe, TokenType::BangEqual);
    assert_eq!(scanner.scan_token().unwrap().tpe, TokenType::Greater);
    assert_eq!(scanner.scan_token().unwrap().tpe, TokenType::Eof);
}

#[test]
fn should_count_lines() {
    let mut scanner = Scanner::new("1\n2\n3".as_bytes());
    assert_eq!(scanner.scan_token().unwrap().line, 1);
    assert_eq!(scanner.scan_token().unwrap().line, 2);
    assert_eq!(scanner.scan_token().unwrap().line, 3);
}

#[test]
fn should_scan_string_literal() {
    let mut scanner = Scanner::new("\"hi\"".as_bytes());
    let token = scanner.scan_token().unwrap();
    assert_eq!(token, Token::new(TokenType::String, 0, 4, 1));
}

#[test]
fn should_reject_unexpected_character() {
    let mut scanner = Scanner::new("@".as_bytes());
    let err = scanner.scan_token().unwrap_err();
    assert_eq!(err.kind, CompileErrorKind::UnexpectedCharacter);
    assert_eq!(err.start, 0);
    assert_eq!(err.length, 1);
}

#[test]
fn should_not_take_trailing_dot() {
    let mut scanner = Scanner::new("12.".as_bytes());
    let token = scanner.scan_token().unwrap();
    assert_eq!(token, Token::new(TokenType::Number, 0, 2, 1));
    assert_eq!(scanner.scan_token().unwrap().tpe, TokenType::Dot);
}

// --- opcodes ---

#[test]
fn should_encode_and_decode_opcodes() {
    let ops = [
        OpCode::OpReturn,
        OpCode::OpConstant,
        OpCode::OpNegate,
        OpCode::OpAdd,
        OpCode::OpSubtract,
        OpCode::OpMultiply,
        OpCode::OpDivide,
        OpCode::OpNil,
        OpCode::OpTrue,
        OpCode::OpFalse,
    ];
    for (i, op) in ops.iter().enumerate() {
        assert_eq!(op.as_byte() as usize, i);
        assert_eq!(OpCode::from_byte(i as u8), Some(*op));
    }
    assert_eq!(OpCode::from_byte(10), None);
    assert_eq!(OpCode::OpConstant.size(), 2);
    assert_eq!(OpCode::OpAdd.size(), 1);
}

// --- chunk ---

#[test]
fn should_record_lines_run_length_encoded() {
    let mut chunk = Chunk::new();
    chunk.write_chunk(7, 1);
    chunk.write_chunk(8, 1);
    chunk.write_chunk(9, 2);
    chunk.write_chunk(0, 2);
    assert_eq!(chunk.lines.len(), 2);
    assert_eq!(chunk.get_line(0), 1);
    assert_eq!(chunk.get_line(1), 1);
    assert_eq!(chunk.get_line(2), 2);
    assert_eq!(chunk.get_line(3), 2);
    let total: usize = chunk.lines.iter().map(|l| l.length as usize).sum();
    assert_eq!(total, chunk.code.len());
}

#[test]
fn should_add_constants_in_order() {
    let mut chunk = Chunk::new();
    assert_eq!(chunk.add_constant(Value::Number(1.5f64.to_bits())), 0);
    assert_eq!(chunk.add_constant(Value::Boolean(true)), 1);
    assert_eq!(chunk.constants.len(), 2);
}

// --- instruction pointer ---

#[test]
fn should_iterate_with_instruction_pointer() {
    let data = vec![0, 1, 2, 3];
    let mut ip = InstructionPointer::new(&data);

    assert_eq!(ip.next(&data), 0);
    assert_eq!(ip.next(&data), 1);
    assert_eq!(ip.next(&data), 2);
    assert_eq!(ip.next(&data), 3);
}

// --- values ---

#[test]
fn should_classify_values() {
    let n = Value::Number(2.0f64.to_bits());
    assert!(n.is_number());
    assert_eq!(n.as_number(), Some(2.0f64.to_bits()));
    assert!(!Value::Nil.is_number());
    assert_eq!(Value::Boolean(false).as_number(), None);
    assert_eq!(Value::Nil.kind(), ValueKind::Nil);
    assert_eq!(ValueKind::Boolean.describe(), "boolean");
}

// --- precedence ladder ---

#[test]
fn should_order_precedence_levels() {
    assert!(Precedence::Lowest.value() < Precedence::Assignment.value());
    assert!(Precedence::Term.value() < Precedence::Factor.value());
    assert!(Precedence::Factor.value() < Precedence::Unary.value());
    assert_eq!(Precedence::Term.next(), Precedence::Factor);
    assert_eq!(Precedence::from_value(6), Some(Precedence::Term));
    assert_eq!(Precedence::from_value(11), None);
}

// --- compiler ---

#[test]
fn should_compile_exact_bytecode() {
    // 1 + 2 * 3 loads the three constants, multiplies, then adds.
    let src = "1 + 2 * 3".as_bytes();
    let chunk = compile(src, number_bits(src)).unwrap();
    assert_eq!(chunk.code, vec![1, 0, 1, 1, 1, 2, 5, 3, 0]);
    assert_eq!(
        chunk.constants,
        vec![
            Value::Number(1.0f64.to_bits()),
            Value::Number(2.0f64.to_bits()),
            Value::Number(3.0f64.to_bits()),
        ]
    );
    // The final RETURN is written while `previous` is the end-of-input
    // token, which carries line 0.
    assert_eq!(chunk.get_line(8), 0);
}

#[test]
fn should_compile_left_associative() {
    // 1 - 2 + 3 subtracts before adding.
    let src = "1 - 2 + 3".as_bytes();
    let chunk = compile(src, number_bits(src)).unwrap();
    assert_eq!(chunk.code, vec![1, 0, 1, 1, 4, 1, 2, 3, 0]);
}

#[test]
fn should_compile_literals_and_negate() {
    let src = "-(nil)".as_bytes();
    let chunk = compile(src, number_bits(src)).unwrap();
    assert_eq!(chunk.code, vec![7, 2, 0]);
    let src2 = "true".as_bytes();
    let chunk2 = compile(src2, number_bits(src2)).unwrap();
    assert_eq!(chunk2.code, vec![8, 0]);
    let src3 = "false".as_bytes();
    let chunk3 = compile(src3, number_bits(src3)).unwrap();
    assert_eq!(chunk3.code, vec![9, 0]);
}

#[test]
fn should_end_with_return() {
    let src = "(-1 + 2) * 3 - -4".as_bytes();
    let chunk = compile(src, number_bits(src)).unwrap();
    assert_eq!(*chunk.code.last().unwrap(), OpCode::OpReturn.as_byte());
}

#[test]
fn should_record_token_lines_in_chunk() {
    let src = "1 +\n2".as_bytes();
    let chunk = compile(src, number_bits(src)).unwrap();
    // CONSTANT 0 comes from the literal on line 1, CONSTANT 1 from the
    // literal on line 2; ADD is emitted after its right-hand side, when the
    // token last consumed is the literal on line 2.
    assert_eq!(chunk.get_line(0), 1);
    assert_eq!(chunk.get_line(1), 1);
    assert_eq!(chunk.get_line(2), 2);
    assert_eq!(chunk.get_line(3), 2);
    assert_eq!(chunk.get_line(4), 2);
}

// --- end-to-end scenarios ---

#[test]
fn should_interpret_single_literal() {
    assert_eq!(show(run_source("1").unwrap()), "1");
}

#[test]
fn should_interpret_addition() {
    assert_eq!(show(run_source("1 + 2").unwrap()), "3");
}

#[test]
fn should_interpret_grouping_and_negation() {
    assert_eq!(show(run_source("(-1 + 2) * 3 - -4").unwrap()), "7");
}

#[test]
fn should_interpret_precedence() {
    assert_eq!(show(run_source("1 + 2 * 3").unwrap()), "7");
}

#[test]
fn should_interpret_division() {
    assert_eq!(show(run_source("3.4 / 2").unwrap()), "1.7");
}

#[test]
fn should_interpret_fraction_addition() {
    assert_eq!(show(run_source("1.2 + 3.4").unwrap()), "4.6");
}

#[test]
fn should_interpret_boolean_literal() {
    assert_eq!(show(run_source("true").unwrap()), "true");
    assert_eq!(show(run_source("nil").unwrap()), "nil");
}

#[test]
fn should_divide_by_zero_as_infinity() {
    // IEEE-754: division by zero is not a failure.
    assert_eq!(show(run_source("1 / 0").unwrap()), "inf");
}

#[test]
fn should_round_trip_numeric_literals() {
    for lit in ["1337.42", "0.5", "3", "100", "0.1"] {
        let v = run_source(lit).unwrap();
        match v {
            Value::Number(bits) => {
                assert_eq!(bits, lit.parse::<f64>().unwrap().to_bits());
                assert_eq!(show(v), lit.parse::<f64>().unwrap().to_string());
            }
            _ => panic!("expected a number"),
        }
    }
}

// --- failure scenarios ---

#[test]
fn should_fail_on_missing_operand() {
    match run_source("1 +") {
        Err(InterpreterError::Compile(e)) => {
            assert_eq!(e.kind, CompileErrorKind::ExpectedExpression);
        }
        _ => panic!("expected a compile error"),
    }
}

#[test]
fn should_fail_on_unclosed_group() {
    match run_source("(1 + 2") {
        Err(InterpreterError::Compile(e)) => {
            assert_eq!(
                e.kind,
                CompileErrorKind::UnexpectedToken {
                    expected: TokenType::RightParen,
                    found: TokenType::Eof,
                }
            );
        }
        _ => panic!("expected a compile error"),
    }
}

#[test]
fn should_fail_on_unterminated_string() {
    match run_source("\"abc") {
        Err(InterpreterError::Compile(e)) => {
            assert_eq!(e.kind, CompileErrorKind::UnterminatedString);
            assert_eq!(e.start, 0);
        }
        _ => panic!("expected a compile error"),
    }
}

#[test]
fn should_fail_on_negating_boolean() {
    match run_source("-true") {
        Err(InterpreterError::Runtime(e)) => {
            assert_eq!(
                e.kind,
                RuntimeErrorKind::TypeMismatch {
                    op: OpCode::OpNegate,
                    operand: ValueKind::Boolean,
                }
            );
        }
        _ => panic!("expected a runtime error"),
    }
}

#[test]
fn should_fail_on_adding_nil() {
    match run_source("1 + nil") {
        Err(InterpreterError::Runtime(e)) => {
            assert_eq!(
                e.kind,
                RuntimeErrorKind::TypeMismatch {
                    op: OpCode::OpAdd,
                    operand: ValueKind::Nil,
                }
            );
            assert_eq!(e.line, 1);
        }
        _ => panic!("expected a runtime error"),
    }
}

#[test]
fn should_fail_on_too_many_constants() {
    // 257 distinct numeric literals in one expression overflow the pool.
    let mut source = String::new();
    for i in 0..257 {
        if i > 0 {
            source.push_str(" + ");
        }
        source.push_str(&format!("{}", i));
    }
    match run_source(&source) {
        Err(InterpreterError::Compile(e)) => {
            assert_eq!(e.kind, CompileErrorKind::TooManyConstants);
        }
        _ => panic!("expected a compile error"),
    }
}

#[test]
fn should_accept_exactly_256_constants() {
    let mut source = String::new();
    for i in 0..256 {
        if i > 0 {
            source.push_str(" + ");
        }
        source.push_str(&format!("{}", i));
    }
    let expected: f64 = (0..256).map(|i| i as f64).sum();
    assert_eq!(show(run_source(&source).unwrap()), expected.to_string());
}

#[test]
fn should_fail_on_unexpected_character_in_expression() {
    match run_source("1 @ 2") {
        Err(InterpreterError::Compile(e)) => {
            assert_eq!(e.kind, CompileErrorKind::UnexpectedCharacter);
            assert_eq!(e.start, 2);
        }
        _ => panic!("expected a compile error"),
    }
}

#[test]
fn should_report_runtime_error_line() {
    match run_source("1 +\n-false") {
        Err(InterpreterError::Runtime(e)) => {
            assert_eq!(
                e.kind,
                RuntimeErrorKind::TypeMismatch {
                    op: OpCode::OpNegate,
                    operand: ValueKind::Boolean,
                }
            );
            assert_eq!(e.line, 2);
        }
        _ => panic!("expected a runtime error"),
    }
}

#[test]
fn should_reuse_machine_across_runs() {
    // The machine resets its stack between interpret calls, a failed run
    // included.
    let mut vm = VirtualMachine::new(false);
    let src1 = "-true".as_bytes();
    assert!(vm.interpret(src1, number_bits(src1), arith).is_err());
    let src2 = "2 * 21".as_bytes();
    let v = vm.interpret(src2, number_bits(src2), arith).unwrap();
    assert_eq!(show(v), "42");
}

#[test]
fn should_fail_on_undecodable_opcode() {
    // A hand-built chunk whose second byte decodes to no instruction: the
    // machine reports exactly that byte, its offset and its line.
    let mut chunk = Chunk::new();
    chunk.write_chunk(OpCode::OpTrue.as_byte(), 1);
    chunk.write_chunk(42, 2);
    let mut vm = VirtualMachine::new(false);
    let mut ip = InstructionPointer::new(&chunk.code);
    match vm.run(&mut ip, &chunk, arith) {
        Err(e) => {
            assert_eq!(e.kind, RuntimeErrorKind::UndecodableOpcode { byte: 42 });
            assert_eq!(e.offset, 1);
            assert_eq!(e.line, 2);
        }
        Ok(_) => panic!("expected a runtime error"),
    }
}

#[test]
fn should_step_instruction_by_instruction() {
    // 1 + 2 runs in four steps: two constants, the addition, the return.
    let src = "1 + 2".as_bytes();
    let chunk = compile(src, number_bits(src)).unwrap();
    let mut vm = VirtualMachine::new(false);
    let mut ip = InstructionPointer::new(&chunk.code);
    let mut steps = 0;
    loop {
        match vm.step(&mut ip, &chunk, arith) {
            StepOutcome::Running => steps += 1,
            StepOutcome::Halted(v) => {
                assert_eq!(steps, 3);
                assert_eq!(show(v), "3");
                assert_eq!(vm.stack.len(), 0);
                break;
            }
            StepOutcome::Failed(_) => panic!("expected a clean run"),
        }
    }
}
