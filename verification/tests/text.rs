use rlox::compiler::Diagnostic;
use rlox::scanner::{Token, TokenKind};
use rlox::text::{
    decimal_width, push_byte, push_bytes, push_decimal, push_repeat, push_signed, signed_width,
};

fn written(write: impl Fn(&mut Vec<u8>)) -> String {
    let mut out = b"x".to_vec();
    write(&mut out);
    String::from_utf8(out).unwrap()
}

fn token(kind: TokenKind, start: usize, length: usize, line: usize) -> Token {
    Token { kind, start, length, line, col: 1, message: "" }
}

#[test]
fn decimal_digits_come_most_significant_first() {
    assert_eq!(written(|out| push_decimal(out, 0)), "x0");
    assert_eq!(written(|out| push_decimal(out, 7)), "x7");
    assert_eq!(written(|out| push_decimal(out, 10)), "x10");
    assert_eq!(written(|out| push_decimal(out, 12345)), "x12345");
    assert_eq!(written(|out| push_decimal(out, u64::MAX)), "x18446744073709551615");
}

#[test]
fn negative_numbers_carry_their_sign() {
    assert_eq!(written(|out| push_signed(out, 0)), "x0");
    assert_eq!(written(|out| push_signed(out, 42)), "x42");
    assert_eq!(written(|out| push_signed(out, -5)), "x-5");
    assert_eq!(written(|out| push_signed(out, i32::MIN)), "x-2147483648");
    assert_eq!(written(|out| push_signed(out, i32::MAX)), "x2147483647");
}

#[test]
fn widths_count_the_digits_and_the_sign() {
    assert_eq!(decimal_width(0), 1);
    assert_eq!(decimal_width(9), 1);
    assert_eq!(decimal_width(10), 2);
    assert_eq!(decimal_width(u64::MAX), 20);
    assert_eq!(signed_width(-1), 2);
    assert_eq!(signed_width(i32::MIN), 11);
    assert_eq!(signed_width(100), 3);
}

#[test]
fn bytes_are_appended_in_order() {
    assert_eq!(written(|out| push_byte(out, b'a')), "xa");
    assert_eq!(written(|out| push_bytes(out, b"abc")), "xabc");
    assert_eq!(written(|out| push_bytes(out, b"")), "x");
    assert_eq!(written(|out| push_repeat(out, b'=', 3)), "x===");
    assert_eq!(written(|out| push_repeat(out, b'=', 0)), "x");
}

#[test]
fn diagnostic_names_the_lexeme() {
    let diagnostic =
        Diagnostic { token: token(TokenKind::Plus, 2, 1, 12), message: "Expect expression." };
    assert_eq!(
        String::from_utf8(diagnostic.render(b"1 + 2")).unwrap(),
        "[line 12] Error at '+': Expect expression.\n"
    );
}

#[test]
fn diagnostic_at_end_of_input_says_so() {
    let diagnostic =
        Diagnostic { token: token(TokenKind::Eof, 3, 0, 1), message: "Expect expression." };
    assert_eq!(
        String::from_utf8(diagnostic.render(b"1 +")).unwrap(),
        "[line 1] Error at end: Expect expression.\n"
    );
}

#[test]
fn diagnostic_of_an_error_token_has_no_place() {
    let diagnostic = Diagnostic {
        token: token(TokenKind::Error, 0, 21, 3),
        message: "Unexpected character.",
    };
    assert_eq!(
        String::from_utf8(diagnostic.render(b"@")).unwrap(),
        "[line 3] Error: Unexpected character.\n"
    );
}

#[test]
fn span_outside_the_source_has_an_empty_lexeme() {
    let diagnostic = Diagnostic { token: token(TokenKind::Number, 4, 9, 1), message: "m" };
    assert_eq!(String::from_utf8(diagnostic.render(b"12345")).unwrap(), "[line 1] Error at '': m\n");
    let diagnostic =
        Diagnostic { token: token(TokenKind::Number, usize::MAX, 2, 1), message: "m" };
    assert_eq!(String::from_utf8(diagnostic.render(b"12345")).unwrap(), "[line 1] Error at '': m\n");
}
