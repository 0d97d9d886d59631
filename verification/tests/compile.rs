use rlox::chunk::init_chunk;
use rlox::compiler::{init_compiler, CompilerResult, Parser};
use rlox::scanner::TokenKind;
use rlox::value::Value;

fn compile(source: &str) -> CompilerResult {
    let mut compiler = init_compiler(source.to_string());
    compiler.compile(init_chunk())
}

fn first_diagnostic(source: &str) -> String {
    let result = compile(source);
    assert!(!result.success);
    assert_eq!(result.diagnostics.len(), 1);
    String::from_utf8(result.diagnostics[0].render(source.as_bytes())).unwrap()
}

#[test]
fn single_number_compiles_to_constant_and_return() {
    let result = compile("1");
    assert!(result.success);
    assert_eq!(result.chunk.code, vec![6, 0, 0]);
    assert_eq!(result.chunk.lines, vec![1, 1, 1]);
    assert_eq!(result.chunk.constants.values, vec![Value::Literal { start: 0, length: 1 }]);
    assert!(result.diagnostics.is_empty());
}

#[test]
fn grouped_sum_times_number_is_postfix() {
    let result = compile("(1 + 2) * 3");
    assert!(result.success);
    assert_eq!(result.chunk.code, vec![6, 0, 6, 1, 2, 6, 2, 4, 0]);
    assert_eq!(
        result.chunk.constants.values,
        vec![
            Value::Literal { start: 1, length: 1 },
            Value::Literal { start: 5, length: 1 },
            Value::Literal { start: 10, length: 1 },
        ]
    );
}

#[test]
fn negation_is_emitted_after_its_operand() {
    let result = compile("-2 + 3");
    assert!(result.success);
    assert_eq!(result.chunk.code, vec![6, 0, 1, 6, 1, 2, 0]);
}

#[test]
fn product_is_emitted_before_the_sum() {
    let result = compile("1 + 2 * 3");
    assert!(result.success);
    assert_eq!(result.chunk.code, vec![6, 0, 6, 1, 6, 2, 4, 2, 0]);
}

#[test]
fn subtraction_and_division_group_to_the_left() {
    let result = compile("8 - 4 - 2 / 2 / 1");
    assert!(result.success);
    assert_eq!(result.chunk.code, vec![6, 0, 6, 1, 3, 6, 2, 6, 3, 5, 6, 4, 5, 3, 0]);
}

#[test]
fn open_group_reports_expect_expression_on_line_one() {
    let result = compile("(");
    assert!(!result.success);
    assert_eq!(result.diagnostics.len(), 1);
    assert_eq!(result.diagnostics[0].token.kind, TokenKind::Eof);
    assert_eq!(result.diagnostics[0].token.line, 1);
    assert_eq!(first_diagnostic("("), "[line 1] Error at end: Expect expression.\n");
    assert_eq!(result.chunk.code, vec![0]);
}

#[test]
fn missing_operand_reports_expect_expression_at_end() {
    assert_eq!(first_diagnostic("1 +"), "[line 1] Error at end: Expect expression.\n");
}

#[test]
fn unclosed_group_reports_missing_paren() {
    assert_eq!(first_diagnostic("(1 2"), "[line 1] Error at '2': Expect ')' after expression.\n");
}

#[test]
fn trailing_tokens_report_expect_end() {
    assert_eq!(first_diagnostic("1 2"), "[line 1] Error at '2': Expect end of expression.\n");
}

#[test]
fn error_token_reports_its_own_message_without_place() {
    assert_eq!(first_diagnostic("1 + @"), "[line 1] Error: Unexpected character.\n");
    assert_eq!(first_diagnostic("\n\"abc"), "[line 2] Error: Unterminated string.\n");
}

#[test]
fn only_the_first_error_is_reported() {
    let result = compile("@ @ ) ) +");
    assert!(!result.success);
    assert_eq!(result.diagnostics.len(), 1);
    assert_eq!(result.diagnostics[0].message, "Unexpected character.");
}

#[test]
fn failed_compile_still_ends_in_return() {
    let result = compile("1 + * 2 )");
    assert!(!result.success);
    assert_eq!(result.chunk.code.last(), Some(&0u8));
    assert_eq!(result.chunk.code.len(), result.chunk.lines.len());
}

fn sum_of_ones(count: usize) -> String {
    let mut source = String::from("1");
    for _ in 1..count {
        source.push_str("+1");
    }
    source
}

#[test]
fn two_hundred_fifty_six_constants_fit() {
    let result = compile(&sum_of_ones(256));
    assert!(result.success);
    assert_eq!(result.chunk.constants.values.len(), 256);
    let code = &result.chunk.code;
    assert_eq!(code[code.len() - 4], 6);
    assert_eq!(code[code.len() - 3], 255);
}

#[test]
fn too_many_constants_are_reported() {
    let source = sum_of_ones(257);
    let result = compile(&source);
    assert!(!result.success);
    assert_eq!(result.diagnostics.len(), 1);
    assert_eq!(result.diagnostics[0].message, "Too many constants in one chunk.");
    assert_eq!(result.diagnostics[0].token.kind, TokenKind::Number);
    assert_eq!(result.diagnostics[0].token.start, 512);
    assert_eq!(
        String::from_utf8(result.diagnostics[0].render(source.as_bytes())).unwrap(),
        "[line 1] Error at '1': Too many constants in one chunk.\n"
    );
    let code = &result.chunk.code;
    assert_eq!(code[code.len() - 4], 6);
    assert_eq!(code[code.len() - 3], 0);
    assert_eq!(result.chunk.constants.values.len(), 257);
}

#[test]
fn lines_follow_the_tokens() {
    let result = compile("1\n+\n2");
    assert!(result.success);
    assert_eq!(result.chunk.code, vec![6, 0, 6, 1, 2, 0]);
    assert_eq!(result.chunk.lines, vec![1, 1, 3, 3, 3, 3]);
}

#[test]
fn whitespace_between_tokens_leaves_the_code_alone() {
    let tight = compile("(1+2)*-3/4");
    let loose = compile("  ( 1 +\n 2 ) // note\n * - 3\t/\r\n 4  ");
    assert!(tight.success && loose.success);
    assert_eq!(tight.chunk.code, loose.chunk.code);
}

#[test]
fn a_blank_where_a_token_ends_leaves_the_code_alone() {
    let source = "-(12.5+3)*4/x";
    let expected = compile(source);
    let boundaries = [0, 1, 2, 6, 7, 8, 9, 10, 11, 12, 13];
    for boundary in boundaries {
        for blank in [" ", "\t", "\r", "\n"] {
            let mut spaced = String::from(&source[..boundary]);
            spaced.push_str(blank);
            spaced.push_str(&source[boundary..]);
            let result = compile(&spaced);
            assert_eq!(result.chunk.code, expected.chunk.code);
            assert_eq!(result.chunk.constants.values.len(), expected.chunk.constants.values.len());
            assert_eq!(result.success, expected.success);
        }
    }
}

#[test]
fn a_blank_within_a_token_changes_the_tokens() {
    assert!(compile("12").success);
    assert!(!compile("1 2").success);
}

#[test]
fn constants_are_the_spans_of_numbers() {
    let source = " 3.25 + (10 - 0.5) ";
    let result = compile(source);
    assert!(result.success);
    let lexemes: Vec<&str> = result
        .chunk
        .constants
        .values
        .iter()
        .map(|value| match value {
            Value::Literal { start, length } => &source[*start..*start + *length],
            _ => "",
        })
        .collect();
    assert_eq!(lexemes, vec!["3.25", "10", "0.5"]);
}

#[test]
fn success_is_the_absence_of_diagnostics() {
    for source in ["1", "1 +", "(", ")", "1 2", "@", "(1", "-", "1 * (2 + 3)", ""] {
        let result = compile(source);
        assert_eq!(result.success, result.diagnostics.is_empty());
        assert_eq!(result.chunk.code.len(), result.chunk.lines.len());
        assert_eq!(result.chunk.code.last(), Some(&0u8));
    }
}

#[test]
fn every_load_addresses_a_constant() {
    for source in ["1 + 2 * 3", "1 +", "((4))", "5 5 5", "- - 6 / 7"] {
        let result = compile(source);
        let code = &result.chunk.code;
        let mut offset = 0;
        while offset < code.len() {
            assert!(code[offset] <= 6);
            if code[offset] == 6 {
                assert!((code[offset + 1] as usize) < result.chunk.constants.values.len());
                offset += 2;
            } else {
                offset += 1;
            }
        }
        assert_eq!(offset, code.len());
    }
}
