use rlox::chunk::{init_chunk, write_chunk_u8};
use rlox::compiler::{init_compiler, ParseRuleFn, Parser, Precedence};
use rlox::scanner::TokenKind;
use rlox::value::Value;

#[test]
fn steps_of_a_compilation_taken_one_by_one() {
    let mut compiler = init_compiler("-(3)".to_string());
    compiler.advance();
    compiler.expression();
    compiler.consume(TokenKind::Eof, "Expect end of expression.");
    compiler.end_compiler();
    assert_eq!(compiler.current_chunk().code, vec![6, 0, 1, 0]);
    assert_eq!(
        compiler.current_chunk().constants.values,
        vec![Value::Literal { start: 2, length: 1 }]
    );
}

#[test]
fn binary_compiles_the_right_operand_one_level_up() {
    let mut compiler = init_compiler("1 - 2 * 3 - 4".to_string());
    compiler.advance();
    compiler.advance();
    compiler.number();
    compiler.advance();
    compiler.binary();
    assert_eq!(compiler.current_chunk().code, vec![6, 0, 6, 1, 6, 2, 4, 3]);
}

#[test]
fn parse_at_factor_level_leaves_the_terms() {
    let mut compiler = init_compiler("2 * 3 + 4".to_string());
    compiler.advance();
    compiler.parse_precendence(Precedence::PrecFactor);
    assert_eq!(compiler.current_chunk().code, vec![6, 0, 6, 1, 4]);
}

#[test]
fn translate_runs_the_named_function() {
    let mut compiler = init_compiler("5 (6)".to_string());
    compiler.advance();
    compiler.advance();
    compiler.translate(ParseRuleFn::FnNone);
    assert!(compiler.current_chunk().code.is_empty());
    compiler.translate(ParseRuleFn::FnNumber);
    compiler.advance();
    compiler.translate(ParseRuleFn::FnGrouping);
    assert_eq!(compiler.current_chunk().code, vec![6, 0, 6, 1]);
}

#[test]
fn unary_without_minus_emits_no_negation() {
    let mut compiler = init_compiler("( 7".to_string());
    compiler.advance();
    compiler.advance();
    compiler.unary();
    assert_eq!(compiler.current_chunk().code, vec![6, 0]);
}

#[test]
fn panic_mode_suppresses_later_reports() {
    let mut compiler = init_compiler("1".to_string());
    compiler.advance();
    compiler.error("first");
    compiler.error_at_current("second");
    compiler.consume(TokenKind::RightParen, "third");
    let result = compiler.compile(init_chunk());
    assert!(!result.success);
    assert_eq!(result.diagnostics.len(), 1);
    assert_eq!(result.diagnostics[0].message, "first");
    assert_eq!(result.diagnostics[0].token.kind, TokenKind::Eof);
}

#[test]
fn emitted_bytes_take_the_line_of_the_previous_token() {
    let mut compiler = init_compiler("\n\n1".to_string());
    compiler.advance();
    compiler.emit_byte(9);
    compiler.advance();
    compiler.emit_bytes(8, 7);
    compiler.emit_return();
    assert_eq!(compiler.current_chunk().code, vec![9, 8, 7, 0]);
    assert_eq!(compiler.current_chunk().lines, vec![0, 3, 3, 3]);
}

#[test]
fn make_constant_gives_the_position() {
    let mut compiler = init_compiler("".to_string());
    assert_eq!(compiler.make_constant(Value::Zero), 0);
    assert_eq!(compiler.make_constant(Value::Zero), 1);
    compiler.emit_constant(Value::Zero);
    assert_eq!(compiler.current_chunk().code, vec![6, 2]);
}

#[test]
fn current_chunk_can_be_written_to() {
    let mut compiler = init_compiler("".to_string());
    write_chunk_u8(compiler.current_chunk(), 1, 5);
    compiler.emit_return();
    assert_eq!(compiler.current_chunk().code, vec![1, 0]);
    assert_eq!(compiler.current_chunk().lines, vec![5, 0]);
}

#[test]
fn rules_are_looked_up_by_kind() {
    let compiler = init_compiler("".to_string());
    assert_eq!(compiler.get_rule(TokenKind::Star).precendence, Precedence::PrecFactor);
    assert_eq!(compiler.get_rule(TokenKind::Star).infix, ParseRuleFn::FnBinary);
    assert_eq!(compiler.get_rule(TokenKind::Eof).prefix, ParseRuleFn::FnNone);
}

#[test]
fn compile_into_a_chunk_with_code_appends() {
    let mut chunk = init_chunk();
    write_chunk_u8(&mut chunk, 1, 9);
    let mut compiler = init_compiler("2".to_string());
    let result = compiler.compile(chunk);
    assert!(result.success);
    assert_eq!(result.chunk.code, vec![1, 6, 0, 0]);
    assert_eq!(result.chunk.lines, vec![9, 1, 1, 1]);
}

#[test]
fn window_holds_the_previous_and_the_current_token() {
    let mut compiler = init_compiler("1 + 2".to_string());
    assert_eq!(compiler.previous().kind, TokenKind::Eof);
    assert_eq!(compiler.current().kind, TokenKind::Eof);
    compiler.advance();
    compiler.advance();
    assert_eq!(compiler.previous().kind, TokenKind::Number);
    assert_eq!((compiler.previous().start, compiler.previous().length), (0, 1));
    assert_eq!(compiler.current().kind, TokenKind::Plus);
    compiler.advance();
    if compiler.previous().kind == TokenKind::Plus {
        compiler.binary();
    }
    assert_eq!(compiler.current_chunk().code, vec![6, 0, 2]);
    assert_eq!(compiler.current().kind, TokenKind::Eof);
}
