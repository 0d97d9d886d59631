//! The scanner: source bytes to tokens, one at a time.
//!
//! The lexical rules are stated as functions from the source and a position
//! to the position where a run ends; the scanner's methods are proved to
//! move exactly that far. Lines and columns are functions of the position,
//! so a scanner is known by its source and two positions.

use vstd::prelude::*;
use vstd::string::StringSliceAdditionalSpecFns;

verus! {

/// The kinds of token.
#[derive(Debug, PartialEq, Eq, Hash, Clone, Copy, Structural)]
pub enum TokenKind {
    LeftParen,
    RightParen,
    LeftBrace,
    RightBrace,
    Comma,
    Dot,
    Minus,
    Plus,
    Semicolon,
    Slash,
    Star,
    Bang,
    BangEqual,
    Equal,
    EqualEqual,
    Greater,
    GreaterEqual,
    Less,
    LessEqual,
    Identifier,
    String,
    Number,
    And,
    Class,
    Else,
    False,
    Fun,
    For,
    If,
    Nil,
    Or,
    Print,
    Return,
    Super,
    This,
    True,
    Var,
    While,
    Error,
    Eof,
}

/// A token: its kind, the span of its lexeme in the source, and the line and
/// column that the scanner had reached when it made the token.
///
/// An `Error` token carries a diagnostic in `message`, and its `length` is the
/// length of that diagnostic, not of a span of source. Every other token has
/// an empty `message`.
#[derive(Debug, Clone, Copy)]
pub struct Token {
    pub kind: TokenKind,
    pub start: usize,
    pub length: usize,
    pub line: usize,
    pub col: usize,
    pub message: &'static str,
}

/// A scanner over a source text, held as its bytes.
pub struct Scanner {
    source: Vec<u8>,
    start: usize,
    current: usize,
    line: usize,
    col: usize,
}

/// What a scanner holds.
pub struct ScannerView {
    pub source: Seq<u8>,
    pub start: usize,
    pub current: usize,
    pub line: usize,
    pub col: usize,
}

/// The character at a position of the source, and NUL past its end.
pub open spec fn char_at(src: Seq<u8>, pos: int) -> char {
    if 0 <= pos < src.len() {
        src[pos] as char
    } else {
        '\0'
    }
}

/// A decimal digit.
pub open spec fn digit(c: char) -> bool {
    '0' <= c && c <= '9'
}

/// An ASCII letter or an underscore.
pub open spec fn alpha(c: char) -> bool {
    ('a' <= c && c <= 'z') || ('A' <= c && c <= 'Z') || c == '_'
}

/// A space, carriage return, tab or newline.
pub open spec fn blank(c: char) -> bool {
    c == ' ' || c == '\r' || c == '\t' || c == '\n'
}

/// The line of a position: one, and one more for each newline before it.
pub open spec fn line_at(src: Seq<u8>, pos: int) -> int
    decreases pos,
{
    if pos <= 0 {
        1
    } else if char_at(src, pos - 1) == '\n' {
        line_at(src, pos - 1) + 1
    } else {
        line_at(src, pos - 1)
    }
}

/// The column of a position: one at the start of a line, and one more for
/// each byte since.
pub open spec fn col_at(src: Seq<u8>, pos: int) -> int
    decreases pos,
{
    if pos <= 0 {
        1
    } else if char_at(src, pos - 1) == '\n' {
        1
    } else {
        col_at(src, pos - 1) + 1
    }
}

/// Where the run of digits that begins at `pos` ends.
pub open spec fn digits_end(src: Seq<u8>, pos: int) -> int
    decreases src.len() - pos,
{
    if 0 <= pos < src.len() && digit(char_at(src, pos)) {
        digits_end(src, pos + 1)
    } else {
        pos
    }
}

/// Where a number that has its first digits before `pos` ends: after the
/// digits at `pos`, and after a fraction if a dot and a digit follow them.
pub open spec fn number_end(src: Seq<u8>, pos: int) -> int {
    let whole = digits_end(src, pos);
    if char_at(src, whole) == '.' && digit(char_at(src, whole + 1)) {
        digits_end(src, whole + 1)
    } else {
        whole
    }
}

/// Where the run of letters, underscores and digits that begins at `pos`
/// ends.
pub open spec fn word_end(src: Seq<u8>, pos: int) -> int
    decreases src.len() - pos,
{
    if 0 <= pos < src.len() && (alpha(char_at(src, pos)) || digit(char_at(src, pos))) {
        word_end(src, pos + 1)
    } else {
        pos
    }
}

/// The position of the first double quote at or after `pos`, or the length
/// of the source if there is none.
pub open spec fn quote_position(src: Seq<u8>, pos: int) -> int
    decreases src.len() - pos,
{
    if 0 <= pos < src.len() && char_at(src, pos) != '"' {
        quote_position(src, pos + 1)
    } else {
        pos
    }
}

/// The position of the first newline at or after `pos`, or the length of
/// the source if there is none.
pub open spec fn line_end(src: Seq<u8>, pos: int) -> int
    decreases src.len() - pos,
{
    if 0 <= pos < src.len() && char_at(src, pos) != '\n' {
        line_end(src, pos + 1)
    } else {
        pos
    }
}

/// Two slashes at `pos`: the start of a comment.
pub open spec fn comment_at(src: Seq<u8>, pos: int) -> bool {
    char_at(src, pos) == '/' && char_at(src, pos + 1) == '/'
}

/// Where the blanks and comments that begin at `pos` end. A comment runs
/// up to the next newline, which is a blank.
pub open spec fn trivia_end(src: Seq<u8>, pos: int) -> int
    decreases src.len() - pos,
{
    if 0 <= pos < src.len() && blank(char_at(src, pos)) {
        trivia_end(src, pos + 1)
    } else if 0 <= pos < src.len() && comment_at(src, pos) {
        proof {
            lemma_line_end_bounds(src, pos);
        }
        trivia_end(src, line_end(src, pos))
    } else {
        pos
    }
}

/// The diagnostic for a byte that starts no token.
pub open spec fn unexpected_character() -> &'static str {
    "Unexpected character."
}

/// The diagnostic for a string with no closing quote.
pub open spec fn unterminated_string() -> &'static str {
    "Unterminated string."
}

/// The kind of a word: that of the keyword it spells, or `Identifier`.
pub open spec fn word_kind(word: Seq<u8>) -> TokenKind {
    if word == "and".spec_bytes() {
        TokenKind::And
    } else if word == "class".spec_bytes() {
        TokenKind::Class
    } else if word == "else".spec_bytes() {
        TokenKind::Else
    } else if word == "false".spec_bytes() {
        TokenKind::False
    } else if word == "fun".spec_bytes() {
        TokenKind::Fun
    } else if word == "for".spec_bytes() {
        TokenKind::For
    } else if word == "if".spec_bytes() {
        TokenKind::If
    } else if word == "nil".spec_bytes() {
        TokenKind::Nil
    } else if word == "or".spec_bytes() {
        TokenKind::Or
    } else if word == "print".spec_bytes() {
        TokenKind::Print
    } else if word == "return".spec_bytes() {
        TokenKind::Return
    } else if word == "super".spec_bytes() {
        TokenKind::Super
    } else if word == "this".spec_bytes() {
        TokenKind::This
    } else if word == "true".spec_bytes() {
        TokenKind::True
    } else if word == "var".spec_bytes() {
        TokenKind::Var
    } else if word == "while".spec_bytes() {
        TokenKind::While
    } else {
        TokenKind::Identifier
    }
}

/// The kind of the punctuator that begins with `c`, given whether an equals
/// sign follows it; `Error` for a character that begins none.
pub open spec fn punctuator_kind(c: char, equals_follows: bool) -> TokenKind {
    if c == '(' {
        TokenKind::LeftParen
    } else if c == ')' {
        TokenKind::RightParen
    } else if c == '{' {
        TokenKind::LeftBrace
    } else if c == '}' {
        TokenKind::RightBrace
    } else if c == ',' {
        TokenKind::Comma
    } else if c == '.' {
        TokenKind::Dot
    } else if c == '-' {
        TokenKind::Minus
    } else if c == '+' {
        TokenKind::Plus
    } else if c == ';' {
        TokenKind::Semicolon
    } else if c == '/' {
        TokenKind::Slash
    } else if c == '*' {
        TokenKind::Star
    } else if c == '!' {
        if equals_follows {
            TokenKind::BangEqual
        } else {
            TokenKind::Bang
        }
    } else if c == '=' {
        if equals_follows {
            TokenKind::EqualEqual
        } else {
            TokenKind::Equal
        }
    } else if c == '>' {
        if equals_follows {
            TokenKind::GreaterEqual
        } else {
            TokenKind::Greater
        }
    } else if c == '<' {
        if equals_follows {
            TokenKind::LessEqual
        } else {
            TokenKind::Less
        }
    } else {
        TokenKind::Error
    }
}

/// A punctuator of two characters: one of `!`, `=`, `>`, `<` with an equals
/// sign after it.
pub open spec fn takes_equals(c: char) -> bool {
    c == '!' || c == '=' || c == '>' || c == '<'
}

/// The kind of the token whose first byte is at `begin`, where no blank or
/// comment begins.
pub open spec fn lexeme_kind(src: Seq<u8>, begin: int) -> TokenKind {
    let c = char_at(src, begin);
    if !(0 <= begin < src.len()) {
        TokenKind::Eof
    } else if digit(c) {
        TokenKind::Number
    } else if alpha(c) {
        word_kind(src.subrange(begin, word_end(src, begin + 1)))
    } else if c == '"' {
        if quote_position(src, begin + 1) < src.len() {
            TokenKind::String
        } else {
            TokenKind::Error
        }
    } else {
        punctuator_kind(c, char_at(src, begin + 1) == '=')
    }
}

/// Where the token whose first byte is at `begin` ends: the position that
/// the scanner reaches by making it.
pub open spec fn lexeme_end(src: Seq<u8>, begin: int) -> int {
    let c = char_at(src, begin);
    if !(0 <= begin < src.len()) {
        begin
    } else if digit(c) {
        number_end(src, begin + 1)
    } else if alpha(c) {
        word_end(src, begin + 1)
    } else if c == '"' {
        if quote_position(src, begin + 1) < src.len() {
            quote_position(src, begin + 1) + 1
        } else {
            src.len() as int
        }
    } else if takes_equals(c) && char_at(src, begin + 1) == '=' {
        begin + 2
    } else {
        begin + 1
    }
}

/// The diagnostic of the token whose first byte is at `begin`: empty unless
/// the token is an `Error`.
pub open spec fn lexeme_message(src: Seq<u8>, begin: int) -> &'static str {
    if lexeme_kind(src, begin) != TokenKind::Error {
        ""
    } else if char_at(src, begin) == '"' {
        unterminated_string()
    } else {
        unexpected_character()
    }
}

/// The token that a scanner at `pos` makes next: it passes blanks and
/// comments, and the token begins where they end.
pub open spec fn token_at(src: Seq<u8>, pos: int) -> Token {
    let begin = trivia_end(src, pos);
    let end = lexeme_end(src, begin);
    let kind = lexeme_kind(src, begin);
    let message = lexeme_message(src, begin);
    Token {
        kind,
        start: begin as usize,
        length: if kind == TokenKind::Error {
            message.spec_bytes().len() as usize
        } else {
            (end - begin) as usize
        },
        line: line_at(src, end) as usize,
        col: col_at(src, end) as usize,
        message,
    }
}

/// The position of a scanner that has made the token after `pos`.
pub open spec fn token_end(src: Seq<u8>, pos: int) -> int {
    lexeme_end(src, trivia_end(src, pos))
}

/// A run to the end of a line stays within the source and does not go back;
/// it passes a byte that is no newline.
pub proof fn lemma_line_end_bounds(src: Seq<u8>, pos: int)
    requires
        0 <= pos <= src.len(),
    ensures
        pos <= line_end(src, pos) <= src.len(),
        pos < src.len() && char_at(src, pos) != '\n' ==> pos < line_end(src, pos),
    decreases src.len() - pos,
{
    if pos < src.len() && char_at(src, pos) != '\n' {
        lemma_line_end_bounds(src, pos + 1);
    }
}

/// Lines and columns start at one and grow by at most one for each byte.
pub proof fn lemma_line_col_bounds(src: Seq<u8>, pos: int)
    requires
        0 <= pos,
    ensures
        1 <= line_at(src, pos) <= pos + 1,
        1 <= col_at(src, pos) <= pos + 1,
    decreases pos,
{
    if pos > 0 {
        lemma_line_col_bounds(src, pos - 1);
    }
}

/// A source begins on line one, column one.
pub proof fn lemma_line_col_start(source: Seq<u8>)
    ensures
        line_at(source, 0) == 1,
        col_at(source, 0) == 1,
{
}

/// The runs of the lexical rules stay within the source and do not go back.
pub proof fn lemma_run_bounds(src: Seq<u8>, pos: int)
    requires
        0 <= pos <= src.len(),
    ensures
        pos <= digits_end(src, pos) <= src.len(),
        pos <= word_end(src, pos) <= src.len(),
        pos <= quote_position(src, pos) <= src.len(),
        pos <= number_end(src, pos) <= src.len(),
    decreases src.len() - pos,
{
    if pos < src.len() {
        lemma_run_bounds(src, pos + 1);
    }
    let whole = digits_end(src, pos);
    lemma_digits_end_bounds(src, pos);
    if whole + 1 <= src.len() {
        lemma_digits_end_bounds(src, whole + 1);
    }
}

/// A run of digits stays within the source and does not go back.
pub proof fn lemma_digits_end_bounds(src: Seq<u8>, pos: int)
    requires
        0 <= pos <= src.len(),
    ensures
        pos <= digits_end(src, pos) <= src.len(),
    decreases src.len() - pos,
{
    if pos < src.len() {
        lemma_digits_end_bounds(src, pos + 1);
    }
}

/// Blanks and comments end within the source, at or after where they begin.
pub proof fn lemma_trivia_end_bounds(src: Seq<u8>, pos: int)
    requires
        0 <= pos <= src.len(),
    ensures
        pos <= trivia_end(src, pos) <= src.len(),
    decreases src.len() - pos,
{
    if pos < src.len() && blank(char_at(src, pos)) {
        lemma_trivia_end_bounds(src, pos + 1);
    } else if pos < src.len() && comment_at(src, pos) {
        lemma_line_end_bounds(src, pos);
        lemma_trivia_end_bounds(src, line_end(src, pos));
    }
}

/// A token ends within the source; it ends after the place where it begins
/// unless that place is the end of the source.
pub proof fn lemma_lexeme_end_bounds(src: Seq<u8>, begin: int)
    requires
        0 <= begin <= src.len(),
    ensures
        begin <= lexeme_end(src, begin) <= src.len(),
        begin < src.len() ==> begin < lexeme_end(src, begin),
        lexeme_kind(src, begin) == TokenKind::Eof <==> begin == src.len(),
{
    if begin < src.len() {
        lemma_run_bounds(src, begin + 1);
        lemma_word_kind_not_eof(src.subrange(begin, word_end(src, begin + 1)));
    }
}

/// No word is an end of input, an error or a number.
pub proof fn lemma_word_kind_not_eof(word: Seq<u8>)
    ensures
        word_kind(word) != TokenKind::Eof,
        word_kind(word) != TokenKind::Error,
        word_kind(word) != TokenKind::Number,
{
}

/// The two scanner diagnostics have lengths 21 and 20.
pub proof fn lemma_message_lengths()
    ensures
        unexpected_character().spec_bytes().len() == 21,
        unterminated_string().spec_bytes().len() == 20,
        "".spec_bytes().len() == 0,
{
    reveal_strlit("Unexpected character.");
    reveal_strlit("Unterminated string.");
    reveal_strlit("");
    vstd::string::is_ascii_spec_bytes("Unexpected character.");
    vstd::string::is_ascii_spec_bytes("Unterminated string.");
    vstd::string::is_ascii_spec_bytes("");
}

/// The span is the lexeme of a number: a digit, the digits that follow
/// it, and a fraction if a dot and a digit follow them.
pub open spec fn is_number_lexeme(src: Seq<u8>, start: int, length: int) -> bool {
    &&& 0 <= start < src.len()
    &&& digit(char_at(src, start))
    &&& start + length == number_end(src, start + 1)
}

/// A token of the kind `Number` has the lexeme of a number for its span.
pub proof fn lemma_number_token(src: Seq<u8>, pos: int)
    requires
        0 <= pos <= src.len() <= usize::MAX,
    ensures
        token_at(src, pos).kind == TokenKind::Number ==> is_number_lexeme(
            src,
            token_at(src, pos).start as int,
            token_at(src, pos).length as int,
        ),
{
    let begin = trivia_end(src, pos);
    lemma_trivia_end_bounds(src, pos);
    lemma_lexeme_end_bounds(src, begin);
    if begin < src.len() {
        lemma_word_kind_not_eof(src.subrange(begin, word_end(src, begin + 1)));
    }
}

/// A run of digits holds digits only.
pub proof fn lemma_digits_are_digits(src: Seq<u8>, pos: int, k: int)
    requires
        0 <= pos <= k < digits_end(src, pos),
    ensures
        digit(char_at(src, k)),
    decreases k - pos,
{
    if pos < k {
        lemma_digits_are_digits(src, pos + 1, k);
    }
}

/// The lexeme of a number is decimal digits, with at most one dot among
/// them, which stands after a digit and before a digit.
pub proof fn lemma_number_lexeme_shape(src: Seq<u8>, start: int, length: int)
    requires
        is_number_lexeme(src, start, length),
    ensures
        1 <= length,
        start + length <= src.len(),
        ({
            let whole = digits_end(src, start + 1);
            &&& start < whole <= start + length
            &&& forall|k: int| start <= k < start + length && k != whole ==> digit(char_at(src, k))
            &&& whole < start + length ==> char_at(src, whole) == '.' && whole + 2 <= start
                + length
        }),
{
    let whole = digits_end(src, start + 1);
    lemma_run_bounds(src, start + 1);
    lemma_digits_end_bounds(src, start + 1);
    if whole + 1 <= src.len() {
        lemma_digits_end_bounds(src, whole + 1);
    }
    if whole + 2 <= src.len() {
        lemma_digits_end_bounds(src, whole + 2);
    }
    assert forall|k: int| start <= k < start + length && k != whole implies digit(
        char_at(src, k),
    ) by {
        if k == start {
        } else if k < whole {
            lemma_digits_are_digits(src, start + 1, k);
        } else {
            lemma_digits_are_digits(src, whole + 1, k);
        }
    }
}

/// Where the next token ends: within the source, at or after the place
/// where the blanks and comments before it end. Only the end of input
/// takes no byte, and it is met at the end of the source and nowhere else.
pub proof fn lemma_token_end_bounds(src: Seq<u8>, pos: int)
    requires
        0 <= pos <= src.len(),
    ensures
        pos <= trivia_end(src, pos) <= token_end(src, pos) <= src.len(),
        token_at(src, pos).kind != TokenKind::Eof ==> pos < token_end(src, pos),
        token_at(src, pos).kind == TokenKind::Eof <==> trivia_end(src, pos) == src.len(),
{
    lemma_trivia_end_bounds(src, pos);
    lemma_lexeme_end_bounds(src, trivia_end(src, pos));
}

/// The tokens that a scanner at `pos` makes, up to and with the first end
/// of input.
pub open spec fn tokens_from(src: Seq<u8>, pos: int) -> Seq<Token>
    decreases src.len() - pos,
    when 0 <= pos <= src.len()
{
    let token = token_at(src, pos);
    if token.kind == TokenKind::Eof {
        seq![token]
    } else {
        proof {
            lemma_token_end_bounds(src, pos);
        }
        seq![token] + tokens_from(src, token_end(src, pos))
    }
}

/// The bytes from `pos` on that belong to no blank and to no comment: the
/// bytes of each token, from where the blanks and comments before it end
/// to where the token ends.
pub open spec fn significant(src: Seq<u8>, pos: int) -> Seq<u8>
    decreases src.len() - pos,
    when 0 <= pos <= src.len()
{
    let begin = trivia_end(src, pos);
    if begin >= src.len() {
        Seq::empty()
    } else {
        proof {
            lemma_token_end_bounds(src, pos);
        }
        src.subrange(begin, token_end(src, pos)) + significant(src, token_end(src, pos))
    }
}

/// The lexemes of the tokens, one after the other: for each token the
/// bytes of the source at its span.
pub open spec fn lexemes(src: Seq<u8>, tokens: Seq<Token>) -> Seq<u8>
    decreases tokens.len(),
{
    if tokens.len() == 0 {
        Seq::empty()
    } else {
        src.subrange(tokens[0].start as int, tokens[0].start + tokens[0].length) + lexemes(
            src,
            tokens.drop_first(),
        )
    }
}

/// No token is an `Error`.
pub open spec fn error_free(tokens: Seq<Token>) -> bool {
    forall|i: int| 0 <= i < tokens.len() ==> (#[trigger] tokens[i]).kind != TokenKind::Error
}

/// Scanning from `from` reaches `to` at the end of a token, over tokens
/// of which none is an `Error`.
pub open spec fn clean_path(src: Seq<u8>, from: int, to: int) -> bool
    decreases src.len() - from,
    when 0 <= from <= src.len()
{
    if from == to {
        true
    } else if from > to || token_end(src, from) <= from {
        false
    } else {
        proof {
            lemma_token_end_bounds(src, from);
        }
        token_at(src, from).kind != TokenKind::Error && clean_path(src, token_end(src, from), to)
    }
}

/// A path without `Error` tokens from `a` to `b` and one from `b` to `c`
/// make one from `a` to `c`.
pub proof fn lemma_clean_path_transitive(src: Seq<u8>, a: int, b: int, c: int)
    requires
        0 <= a <= src.len(),
        0 <= b <= src.len(),
        clean_path(src, a, b),
        clean_path(src, b, c),
    ensures
        clean_path(src, a, c),
    decreases src.len() - a,
{
    if a != b {
        lemma_token_end_bounds(src, a);
        lemma_clean_path_bounds(src, token_end(src, a), b);
        lemma_clean_path_bounds(src, b, c);
        lemma_clean_path_transitive(src, token_end(src, a), b, c);
    }
}

/// A path does not go back.
pub proof fn lemma_clean_path_bounds(src: Seq<u8>, a: int, b: int)
    requires
        0 <= a <= src.len(),
        clean_path(src, a, b),
    ensures
        a <= b,
{
}

/// Where a path without `Error` tokens leads to a place from which on no
/// token is an `Error`, no token on the path or after it is an `Error`.
pub proof fn lemma_clean_path_joins(src: Seq<u8>, a: int, b: int)
    requires
        0 <= a <= src.len(),
        0 <= b <= src.len(),
        clean_path(src, a, b),
        error_free(tokens_from(src, b)),
    ensures
        error_free(tokens_from(src, a)),
    decreases src.len() - a,
{
    if a != b {
        lemma_token_end_bounds(src, a);
        let token = token_at(src, a);
        let tokens = tokens_from(src, a);
        if token.kind != TokenKind::Eof {
            let end = token_end(src, a);
            lemma_clean_path_joins(src, end, b);
            let after = tokens_from(src, end);
            assert(tokens =~= seq![token] + after);
            assert forall|i: int| 0 <= i < tokens.len() implies (#[trigger] tokens[i]).kind
                != TokenKind::Error by {
                if i > 0 {
                    assert(tokens[i] == after[i - 1]);
                }
            }
        }
    }
}

/// Scanning a source and putting the lexemes of its tokens together gives
/// back the bytes of the source that belong to no blank and to no comment,
/// in their order. This holds of a source that scans without an `Error`
/// token: the span of an `Error` token has the length of a diagnostic.
pub proof fn lemma_lexemes_are_significant(src: Seq<u8>, pos: int)
    requires
        0 <= pos <= src.len() <= usize::MAX,
        error_free(tokens_from(src, pos)),
    ensures
        lexemes(src, tokens_from(src, pos)) == significant(src, pos),
    decreases src.len() - pos,
{
    lemma_token_end_bounds(src, pos);
    let token = token_at(src, pos);
    let tokens = tokens_from(src, pos);
    let begin = trivia_end(src, pos);
    let end = token_end(src, pos);
    assert(tokens[0] == token);
    assert(token.kind != TokenKind::Error);
    if token.kind == TokenKind::Eof {
        assert(tokens.drop_first() =~= Seq::<Token>::empty());
        assert(lexemes(src, tokens.drop_first()) =~= Seq::<u8>::empty());
        assert(src.subrange(begin, begin) =~= Seq::<u8>::empty());
        assert(lexemes(src, tokens) =~= Seq::<u8>::empty());
    } else {
        let rest = tokens_from(src, end);
        assert(tokens.drop_first() =~= rest);
        assert forall|i: int| 0 <= i < rest.len() implies (#[trigger] rest[i]).kind
            != TokenKind::Error by {
            assert(rest[i] == tokens[i + 1]);
        }
        lemma_lexemes_are_significant(src, end);
    }
}

impl ScannerView {
    /// The positions are in order and within the source, the source is
    /// shorter than the largest `usize`, and the line and column are those
    /// of the current position.
    pub open spec fn wf(self) -> bool {
        &&& self.start <= self.current <= self.source.len() < usize::MAX
        &&& self.line == line_at(self.source, self.current as int)
        &&& self.col == col_at(self.source, self.current as int)
    }

    /// The scanner over the same source at another current position.
    pub open spec fn at(self, start: int, current: int) -> ScannerView {
        ScannerView {
            source: self.source,
            start: start as usize,
            current: current as usize,
            line: line_at(self.source, current) as usize,
            col: col_at(self.source, current) as usize,
        }
    }

    /// The token that the scanner would make of what lies between its two
    /// positions.
    pub open spec fn token(self, kind: TokenKind) -> Token {
        Token {
            kind,
            start: self.start,
            length: (self.current - self.start) as usize,
            line: self.line,
            col: self.col,
            message: "",
        }
    }

    /// The error token that the scanner would make at its positions.
    pub open spec fn error(self, message: &'static str) -> Token {
        Token {
            kind: TokenKind::Error,
            start: self.start,
            length: message.spec_bytes().len() as usize,
            line: self.line,
            col: self.col,
            message,
        }
    }
}

impl View for Scanner {
    type V = ScannerView;

    closed spec fn view(&self) -> ScannerView {
        ScannerView {
            source: self.source@,
            start: self.start,
            current: self.current,
            line: self.line,
            col: self.col,
        }
    }
}

/// What a scanner does. A scanner hands out the tokens of its source one
/// at a time; the steps that it takes on the way can be taken one by one.
pub trait TokenScanner {
    /// The scanner's invariant.
    spec fn wf(&self) -> bool;

    /// The scanner has reached the end of its source.
    spec fn at_end(&self) -> bool;

    /// Scans the next token.
    fn next_token(&mut self) -> Token
        requires
            old(self).wf(),
    ;

    /// Whether the scanner has reached the end of the source.
    fn is_at_end(&self) -> bool;

    /// The token of a kind over what lies between the scanner's two
    /// positions.
    fn make_token(&self, kind: TokenKind) -> Token
        requires
            self.wf(),
    ;

    /// An `Error` token with a diagnostic.
    fn error_token(&self, msg: &'static str) -> Token;

    /// Consumes one byte, which is there to consume, and returns it.
    fn advance(&mut self) -> char
        requires
            old(self).wf(),
            !old(self).at_end(),
    ;

    /// Consumes the next byte if it is the expected one.
    fn match_char(&mut self, expected: char) -> bool
        requires
            old(self).wf(),
    ;

    /// Passes blanks and comments.
    fn skip_whitespace(&mut self)
        requires
            old(self).wf(),
    ;

    /// The next byte.
    fn peek(&self) -> char;

    /// The byte after the next.
    fn peek_next(&self) -> char
        requires
            self.wf(),
    ;

    /// Whether a character is a decimal digit.
    fn is_digit(&self, expected: char) -> bool;

    /// Whether a character is an ASCII letter or an underscore.
    fn is_alpha(&self, expected: char) -> bool;

    /// Scans the rest of a string.
    fn string(&mut self) -> Token
        requires
            old(self).wf(),
    ;

    /// Scans the rest of a number.
    fn number(&mut self) -> Token
        requires
            old(self).wf(),
    ;

    /// Scans the rest of a word.
    fn identifier(&mut self) -> Token
        requires
            old(self).wf(),
    ;
}

impl Scanner {
    /// Whether the bytes at `begin .. end` of the source spell `word`.
    fn spells(&self, begin: usize, end: usize, word: &str) -> (r: bool)
        requires
            begin <= end <= self@.source.len(),
        ensures
            r == (self@.source.subrange(begin as int, end as int) == word.spec_bytes()),
    {
        let bytes = word.as_bytes();
        if bytes.len() != end - begin {
            return false;
        }
        let mut i: usize = 0;
        while i < bytes.len()
            invariant
                begin <= end <= self.source.len(),
                bytes.len() == end - begin,
                bytes@ == word.spec_bytes(),
                i <= bytes.len(),
                forall|j: int| 0 <= j < i ==> self.source@[begin + j] == bytes@[j],
            decreases bytes.len() - i,
        {
            if self.source[begin + i] != bytes[i] {
                assert(self.source@.subrange(begin as int, end as int)[i as int] != bytes@[i as int]);
                return false;
            }
            i += 1;
        }
        assert(self.source@.subrange(begin as int, end as int) =~= bytes@);
        true
    }
}

impl TokenScanner for Scanner {
    /// The positions are in order and within the source, and the line and
    /// column are those of the current position: see [`ScannerView::wf`].
    open spec fn wf(&self) -> bool {
        self@.wf()
    }

    open spec fn at_end(&self) -> bool {
        self@.current >= self@.source.len()
    }

    /// Scans the next token: passes blanks and comments, and makes the token
    /// that begins where they end. At the end of the source the token is
    /// `Eof`, again and again.
    fn next_token(&mut self) -> (token: Token)
        ensures
            final(self).wf(),
            token == token_at(old(self)@.source, old(self)@.current as int),
            final(self)@ == old(self)@.at(
                trivia_end(old(self)@.source, old(self)@.current as int),
                token_end(old(self)@.source, old(self)@.current as int),
            ),
            token.kind != TokenKind::Error ==> token.start + token.length
                <= old(self)@.source.len(),
            token.kind != TokenKind::Error ==> token.start + token.length
                == final(self)@.current,
            old(self)@.current <= token.start,
            1 <= token.line,
            1 <= token.col,
    {
        proof {
            lemma_token_end_bounds(self@.source, self@.current as int);
            lemma_line_col_bounds(
                self@.source,
                token_end(self@.source, self@.current as int),
            );
            lemma_trivia_end_bounds(self@.source, self@.current as int);
            lemma_lexeme_end_bounds(
                self@.source,
                trivia_end(self@.source, self@.current as int),
            );
            lemma_message_lengths();
        }
        self.skip_whitespace();
        self.start = self.current;
        let ghost src = self@.source;
        let ghost begin = self@.current as int;
        if self.is_at_end() {
            return self.make_token(TokenKind::Eof);
        }
        proof {
            lemma_run_bounds(src, begin + 1);
        }
        let c = self.advance();
        if self.is_digit(c) {
            return self.number();
        }
        if self.is_alpha(c) {
            return self.identifier();
        }
        match c {
            '(' => self.make_token(TokenKind::LeftParen),
            ')' => self.make_token(TokenKind::RightParen),
            '{' => self.make_token(TokenKind::LeftBrace),
            '}' => self.make_token(TokenKind::RightBrace),
            ',' => self.make_token(TokenKind::Comma),
            '.' => self.make_token(TokenKind::Dot),
            '-' => self.make_token(TokenKind::Minus),
            '+' => self.make_token(TokenKind::Plus),
            ';' => self.make_token(TokenKind::Semicolon),
            '/' => self.make_token(TokenKind::Slash),
            '*' => self.make_token(TokenKind::Star),
            '!' => {
                if self.match_char('=') {
                    self.make_token(TokenKind::BangEqual)
                } else {
                    self.make_token(TokenKind::Bang)
                }
            },
            '=' => {
                if self.match_char('=') {
                    self.make_token(TokenKind::EqualEqual)
                } else {
                    self.make_token(TokenKind::Equal)
                }
            },
            '>' => {
                if self.match_char('=') {
                    self.make_token(TokenKind::GreaterEqual)
                } else {
                    self.make_token(TokenKind::Greater)
                }
            },
            '<' => {
                if self.match_char('=') {
                    self.make_token(TokenKind::LessEqual)
                } else {
                    self.make_token(TokenKind::Less)
                }
            },
            '"' => self.string(),
            _ => self.error_token("Unexpected character."),
        }
    }

    /// Scans the rest of a string whose opening quote lies before the
    /// current position: up to and with the closing quote. With no closing
    /// quote the scanner reaches the end of the source and the token is an
    /// `Error`.
    fn string(&mut self) -> (token: Token)
        ensures
            final(self).wf(),
            ({
                let src = old(self)@.source;
                let quote = quote_position(src, old(self)@.current as int);
                if quote < src.len() {
                    &&& final(self)@ == old(self)@.at(old(self)@.start as int, quote + 1)
                    &&& token == final(self)@.token(TokenKind::String)
                } else {
                    &&& final(self)@ == old(self)@.at(old(self)@.start as int, src.len() as int)
                    &&& token == final(self)@.error(unterminated_string())
                }
            }),
    {
        while self.peek() != '"' && !self.is_at_end()
            invariant
                self.wf(),
                self@.source == old(self)@.source,
                self@.start == old(self)@.start,
                old(self)@.current <= self@.current,
                quote_position(self@.source, self@.current as int) == quote_position(
                    old(self)@.source,
                    old(self)@.current as int,
                ),
            decreases self@.source.len() - self@.current,
        {
            self.advance();
        }
        if self.is_at_end() {
            return self.error_token("Unterminated string.");
        }
        self.advance();
        self.make_token(TokenKind::String)
    }

    /// Scans the rest of a number whose first digit lies before the current
    /// position: the digits that follow, and a fraction if a dot and a digit
    /// follow them. A dot with no digit after it is left alone.
    fn number(&mut self) -> (token: Token)
        ensures
            final(self).wf(),
            final(self)@ == old(self)@.at(
                old(self)@.start as int,
                number_end(old(self)@.source, old(self)@.current as int),
            ),
            token == final(self)@.token(TokenKind::Number),
    {
        let mut c = self.peek();
        while self.is_digit(c)
            invariant
                self.wf(),
                self@.source == old(self)@.source,
                self@.start == old(self)@.start,
                c == char_at(self@.source, self@.current as int),
                digits_end(self@.source, self@.current as int) == digits_end(
                    old(self)@.source,
                    old(self)@.current as int,
                ),
            decreases self@.source.len() - self@.current,
        {
            self.advance();
            c = self.peek();
        }
        c = self.peek_next();
        if self.peek() == '.' && self.is_digit(c) {
            self.advance();
            c = self.peek();
            let ghost fraction = self@.current as int;
            while self.is_digit(c)
                invariant
                    self.wf(),
                    self@.source == old(self)@.source,
                    self@.start == old(self)@.start,
                    c == char_at(self@.source, self@.current as int),
                    digits_end(self@.source, self@.current as int) == digits_end(
                        old(self)@.source,
                        fraction,
                    ),
                decreases self@.source.len() - self@.current,
            {
                self.advance();
                c = self.peek();
            }
        }
        self.make_token(TokenKind::Number)
    }

    /// Scans the rest of a word whose first character lies before the
    /// current position, and makes the token of the keyword that the whole
    /// word spells, or an `Identifier`.
    fn identifier(&mut self) -> (token: Token)
        ensures
            final(self).wf(),
            final(self)@ == old(self)@.at(
                old(self)@.start as int,
                word_end(old(self)@.source, old(self)@.current as int),
            ),
            token == final(self)@.token(
                word_kind(
                    old(self)@.source.subrange(
                        old(self)@.start as int,
                        word_end(old(self)@.source, old(self)@.current as int),
                    ),
                ),
            ),
    {
        let mut c = self.peek();
        while self.is_alpha(c) || self.is_digit(c)
            invariant
                self.wf(),
                self@.source == old(self)@.source,
                self@.start == old(self)@.start,
                c == char_at(self@.source, self@.current as int),
                word_end(self@.source, self@.current as int) == word_end(
                    old(self)@.source,
                    old(self)@.current as int,
                ),
            decreases self@.source.len() - self@.current,
        {
            self.advance();
            c = self.peek();
        }
        let begin = self.start;
        let end = self.current;
        if self.spells(begin, end, "and") {
            self.make_token(TokenKind::And)
        } else if self.spells(begin, end, "class") {
            self.make_token(TokenKind::Class)
        } else if self.spells(begin, end, "else") {
            self.make_token(TokenKind::Else)
        } else if self.spells(begin, end, "false") {
            self.make_token(TokenKind::False)
        } else if self.spells(begin, end, "fun") {
            self.make_token(TokenKind::Fun)
        } else if self.spells(begin, end, "for") {
            self.make_token(TokenKind::For)
        } else if self.spells(begin, end, "if") {
            self.make_token(TokenKind::If)
        } else if self.spells(begin, end, "nil") {
            self.make_token(TokenKind::Nil)
        } else if self.spells(begin, end, "or") {
            self.make_token(TokenKind::Or)
        } else if self.spells(begin, end, "print") {
            self.make_token(TokenKind::Print)
        } else if self.spells(begin, end, "return") {
            self.make_token(TokenKind::Return)
        } else if self.spells(begin, end, "super") {
            self.make_token(TokenKind::Super)
        } else if self.spells(begin, end, "this") {
            self.make_token(TokenKind::This)
        } else if self.spells(begin, end, "true") {
            self.make_token(TokenKind::True)
        } else if self.spells(begin, end, "var") {
            self.make_token(TokenKind::Var)
        } else if self.spells(begin, end, "while") {
            self.make_token(TokenKind::While)
        } else {
            self.make_token(TokenKind::Identifier)
        }
    }

    /// Whether the scanner has reached the end of the source.
    fn is_at_end(&self) -> (r: bool)
        ensures
            r == (self@.current >= self@.source.len()),
    {
        self.current >= self.source.len()
    }

    /// The token of the given kind over what lies between the scanner's two
    /// positions.
    fn make_token(&self, kind: TokenKind) -> (token: Token)
        ensures
            token == self@.token(kind),
    {
        Token {
            kind,
            start: self.start,
            length: self.current - self.start,
            line: self.line,
            col: self.col,
            message: "",
        }
    }

    /// An `Error` token at the scanner's positions, which carries the
    /// diagnostic and has its length for a length.
    fn error_token(&self, msg: &'static str) -> (token: Token)
        ensures
            token == self@.error(msg),
    {
        Token {
            kind: TokenKind::Error,
            start: self.start,
            length: msg.len(),
            line: self.line,
            col: self.col,
            message: msg,
        }
    }

    /// Consumes one byte and returns it. A newline begins a new line at
    /// column one; any other byte moves one column on.
    fn advance(&mut self) -> (c: char)
        ensures
            final(self).wf(),
            final(self)@ == old(self)@.at(old(self)@.start as int, old(self)@.current + 1),
            c == char_at(old(self)@.source, old(self)@.current as int),
    {
        proof {
            lemma_line_col_bounds(self@.source, self@.current as int);
        }
        let c = self.source[self.current] as char;
        self.current += 1;
        if c == '\n' {
            self.line += 1;
            self.col = 1;
        } else {
            self.col += 1;
        }
        c
    }

    /// Consumes the next byte if it is the expected one, and says whether
    /// it did.
    fn match_char(&mut self, expected: char) -> (r: bool)
        ensures
            final(self).wf(),
            r == (old(self)@.current < old(self)@.source.len() && char_at(
                old(self)@.source,
                old(self)@.current as int,
            ) == expected),
            r ==> final(self)@ == old(self)@.at(
                old(self)@.start as int,
                old(self)@.current + 1,
            ),
            !r ==> final(self)@ == old(self)@,
    {
        if self.is_at_end() {
            return false;
        }
        if self.peek() != expected {
            return false;
        }
        self.advance();
        true
    }

    /// Passes blanks and comments. A comment begins with two slashes and
    /// runs up to the next newline.
    fn skip_whitespace(&mut self)
        ensures
            final(self).wf(),
            final(self)@ == old(self)@.at(
                old(self)@.start as int,
                trivia_end(old(self)@.source, old(self)@.current as int),
            ),
    {
        proof {
            lemma_trivia_end_bounds(self@.source, self@.current as int);
        }
        while !self.is_at_end()
            invariant
                self.wf(),
                self@.source == old(self)@.source,
                self@.start == old(self)@.start,
                self@.current <= trivia_end(self@.source, self@.current as int),
                trivia_end(self@.source, self@.current as int) == trivia_end(
                    old(self)@.source,
                    old(self)@.current as int,
                ),
            ensures
                self.wf(),
                self@.source == old(self)@.source,
                self@.start == old(self)@.start,
                self@.current == trivia_end(old(self)@.source, old(self)@.current as int),
            decreases self@.source.len() - self@.current,
        {
            let c = self.peek();
            if c == ' ' || c == '\r' || c == '\t' || c == '\n' {
                proof {
                    lemma_trivia_end_bounds(self@.source, self@.current + 1);
                }
                self.advance();
            } else if c == '/' && self.peek_next() == '/' {
                let ghost comment = self@.current as int;
                proof {
                    lemma_line_end_bounds(self@.source, comment);
                    lemma_trivia_end_bounds(self@.source, line_end(self@.source, comment));
                }
                while self.peek() != '\n' && !self.is_at_end()
                    invariant
                        self.wf(),
                        self@.source == old(self)@.source,
                        self@.start == old(self)@.start,
                        comment <= self@.current,
                        line_end(self@.source, self@.current as int) == line_end(
                            self@.source,
                            comment,
                        ),
                    decreases self@.source.len() - self@.current,
                {
                    self.advance();
                }
            } else {
                break;
            }
        }
    }

    /// The next byte, and NUL at the end of the source.
    fn peek(&self) -> (c: char)
        ensures
            c == char_at(self@.source, self@.current as int),
    {
        if self.current >= self.source.len() {
            return '\0';
        }
        self.source[self.current] as char
    }

    /// The byte after the next, and NUL where there is none.
    fn peek_next(&self) -> (c: char)
        ensures
            c == char_at(self@.source, self@.current + 1),
    {
        if self.current + 1 >= self.source.len() {
            return '\0';
        }
        self.source[self.current + 1] as char
    }

    /// Whether a character is a decimal digit.
    fn is_digit(&self, expected: char) -> (r: bool)
        ensures
            r == digit(expected),
    {
        expected >= '0' && expected <= '9'
    }

    /// Whether a character is an ASCII letter or an underscore.
    fn is_alpha(&self, expected: char) -> (r: bool)
        ensures
            r == alpha(expected),
    {
        (expected >= 'a' && expected <= 'z') || (expected >= 'A' && expected <= 'Z') || expected
            == '_'
    }
}

/// A scanner at the start of a source text, on line one, column one.
pub fn init_scanner(source: String) -> (scanner: Scanner)
    requires
        vstd::utf8::encode_utf8(source@).len() < usize::MAX,
    ensures
        scanner.wf(),
        scanner@ == (ScannerView {
            source: vstd::utf8::encode_utf8(source@),
            start: 0,
            current: 0,
            line: 1,
            col: 1,
        }),
{
    Scanner { source: source.as_str().as_bytes_vec(), start: 0, current: 0, line: 1, col: 1 }
}

} // verus!
