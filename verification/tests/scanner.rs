use rlox::scanner::{init_scanner, Token, TokenKind, TokenScanner};

fn scan(source: &str) -> Vec<Token> {
    let mut scanner = init_scanner(source.to_string());
    let mut tokens = Vec::new();
    loop {
        let token = scanner.next_token();
        tokens.push(token);
        if token.kind == TokenKind::Eof {
            return tokens;
        }
    }
}

fn kinds(source: &str) -> Vec<TokenKind> {
    scan(source).iter().map(|token| token.kind).collect()
}

fn spans(source: &str) -> Vec<(usize, usize)> {
    scan(source).iter().map(|token| (token.start, token.length)).collect()
}

#[test]
fn empty_source_is_end_of_input() {
    let tokens = scan("");
    assert_eq!(tokens.len(), 1);
    assert_eq!(tokens[0].kind, TokenKind::Eof);
    assert_eq!((tokens[0].start, tokens[0].length, tokens[0].line, tokens[0].col), (0, 0, 1, 1));
    assert_eq!(tokens[0].message, "");
}

#[test]
fn end_of_input_repeats() {
    let mut scanner = init_scanner("1".to_string());
    assert_eq!(scanner.next_token().kind, TokenKind::Number);
    assert_eq!(scanner.next_token().kind, TokenKind::Eof);
    assert_eq!(scanner.next_token().kind, TokenKind::Eof);
    assert!(scanner.is_at_end());
}

#[test]
fn punctuators_are_recognised() {
    assert_eq!(
        kinds("(){},.-+;/*"),
        vec![
            TokenKind::LeftParen,
            TokenKind::RightParen,
            TokenKind::LeftBrace,
            TokenKind::RightBrace,
            TokenKind::Comma,
            TokenKind::Dot,
            TokenKind::Minus,
            TokenKind::Plus,
            TokenKind::Semicolon,
            TokenKind::Slash,
            TokenKind::Star,
            TokenKind::Eof,
        ]
    );
}

#[test]
fn compound_punctuators_take_the_equals_sign() {
    assert_eq!(
        kinds("! != = == > >= < <="),
        vec![
            TokenKind::Bang,
            TokenKind::BangEqual,
            TokenKind::Equal,
            TokenKind::EqualEqual,
            TokenKind::Greater,
            TokenKind::GreaterEqual,
            TokenKind::Less,
            TokenKind::LessEqual,
            TokenKind::Eof,
        ]
    );
    assert_eq!(spans("!=="), vec![(0, 2), (2, 1), (3, 0)]);
}

#[test]
fn keywords_are_reclassified() {
    assert_eq!(
        kinds("and class else false fun for if nil or print return super this true var while"),
        vec![
            TokenKind::And,
            TokenKind::Class,
            TokenKind::Else,
            TokenKind::False,
            TokenKind::Fun,
            TokenKind::For,
            TokenKind::If,
            TokenKind::Nil,
            TokenKind::Or,
            TokenKind::Print,
            TokenKind::Return,
            TokenKind::Super,
            TokenKind::This,
            TokenKind::True,
            TokenKind::Var,
            TokenKind::While,
            TokenKind::Eof,
        ]
    );
}

#[test]
fn words_that_are_no_keywords_are_identifiers() {
    assert_eq!(
        kinds("andy _if fo whiles x1 Class"),
        vec![
            TokenKind::Identifier,
            TokenKind::Identifier,
            TokenKind::Identifier,
            TokenKind::Identifier,
            TokenKind::Identifier,
            TokenKind::Identifier,
            TokenKind::Eof,
        ]
    );
    assert_eq!(spans("andy _if"), vec![(0, 4), (5, 3), (8, 0)]);
}

#[test]
fn number_takes_a_fraction() {
    assert_eq!(kinds("12.5"), vec![TokenKind::Number, TokenKind::Eof]);
    assert_eq!(spans("12.5"), vec![(0, 4), (4, 0)]);
}

#[test]
fn trailing_dot_is_not_part_of_a_number() {
    assert_eq!(kinds("12."), vec![TokenKind::Number, TokenKind::Dot, TokenKind::Eof]);
    assert_eq!(spans("12."), vec![(0, 2), (2, 1), (3, 0)]);
    assert_eq!(
        kinds("1.2.3"),
        vec![TokenKind::Number, TokenKind::Dot, TokenKind::Number, TokenKind::Eof]
    );
    assert_eq!(kinds(".5"), vec![TokenKind::Dot, TokenKind::Number, TokenKind::Eof]);
}

#[test]
fn string_runs_to_the_closing_quote() {
    let tokens = scan("\"a b\nc\" 1");
    assert_eq!(tokens[0].kind, TokenKind::String);
    assert_eq!((tokens[0].start, tokens[0].length), (0, 7));
    assert_eq!((tokens[0].line, tokens[0].col), (2, 3));
    assert_eq!(tokens[1].kind, TokenKind::Number);
}

#[test]
fn unterminated_string_is_an_error_token() {
    let tokens = scan("\"abc");
    assert_eq!(tokens[0].kind, TokenKind::Error);
    assert_eq!(tokens[0].message, "Unterminated string.");
    assert_eq!((tokens[0].start, tokens[0].length), (0, 20));
    assert_eq!(tokens[1].kind, TokenKind::Eof);
    assert_eq!(tokens[1].start, 4);
}

#[test]
fn unexpected_character_is_an_error_token() {
    let tokens = scan("1 @ 2");
    assert_eq!(tokens[1].kind, TokenKind::Error);
    assert_eq!(tokens[1].message, "Unexpected character.");
    assert_eq!((tokens[1].start, tokens[1].length), (2, 21));
    assert_eq!(tokens[2].kind, TokenKind::Number);
    assert_eq!(tokens[2].start, 4);
}

#[test]
fn bytes_outside_ascii_are_unexpected_one_by_one() {
    assert_eq!(
        kinds("é"),
        vec![TokenKind::Error, TokenKind::Error, TokenKind::Eof]
    );
}

#[test]
fn blanks_and_comments_are_skipped() {
    assert_eq!(
        kinds(" \t\r\n// a comment + 1\n1 // another\n"),
        vec![TokenKind::Number, TokenKind::Eof]
    );
    assert_eq!(spans("// only a comment"), vec![(17, 0)]);
    assert_eq!(kinds("1 / 2"), vec![TokenKind::Number, TokenKind::Slash, TokenKind::Number, TokenKind::Eof]);
}

#[test]
fn lines_and_columns_follow_the_bytes() {
    let tokens = scan("1 +\n  22\n");
    assert_eq!((tokens[0].line, tokens[0].col), (1, 2));
    assert_eq!((tokens[1].line, tokens[1].col), (1, 4));
    assert_eq!((tokens[2].line, tokens[2].col), (2, 5));
    assert_eq!((tokens[3].line, tokens[3].col), (3, 1));
}

#[test]
fn compound_punctuator_counts_both_columns() {
    let tokens = scan("<=");
    assert_eq!((tokens[0].line, tokens[0].col), (1, 3));
}

#[test]
fn lexemes_and_gaps_rebuild_the_source() {
    let source = "(1 + 2.5) // note\n * foo \"s t\" >= -x";
    let tokens = scan(source);
    let mut rebuilt = String::new();
    let mut position = 0;
    for token in tokens.iter() {
        let gap = &source[position..token.start];
        assert!(gap.split("\n").all(|part| {
            let part = part.trim_matches(|c| c == ' ' || c == '\t' || c == '\r');
            part.is_empty() || part.starts_with("//")
        }));
        rebuilt.push_str(gap);
        rebuilt.push_str(&source[token.start..token.start + token.length]);
        position = token.start + token.length;
    }
    assert_eq!(rebuilt, source);
}

#[test]
fn single_steps_move_the_scanner() {
    let mut scanner = init_scanner("a=\n".to_string());
    assert_eq!(scanner.peek(), 'a');
    assert_eq!(scanner.peek_next(), '=');
    assert_eq!(scanner.advance(), 'a');
    assert!(!scanner.match_char('x'));
    assert!(scanner.match_char('='));
    assert!(!scanner.is_at_end());
    let token = scanner.make_token(TokenKind::Equal);
    assert_eq!((token.start, token.length, token.line, token.col), (0, 2, 1, 3));
    scanner.skip_whitespace();
    assert!(scanner.is_at_end());
    assert_eq!(scanner.peek(), '\0');
    assert_eq!(scanner.peek_next(), '\0');
    assert!(!scanner.match_char('\0'));
    let error = scanner.error_token("Unexpected character.");
    assert_eq!(error.kind, TokenKind::Error);
    assert_eq!((error.length, error.line, error.col), (21, 2, 1));
    assert!(scanner.is_digit('7') && !scanner.is_digit('a'));
    assert!(scanner.is_alpha('_') && scanner.is_alpha('Z') && !scanner.is_alpha('1'));
}
