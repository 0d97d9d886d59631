//! A blank between two tokens changes no token: the kinds of the tokens
//! of a source stay what they are when a blank is put in where one token
//! ends.

use crate::chunk::ChunkView;
use crate::compiler::CompilerView;
use crate::invariance::{kinds_from, lemma_code_depends_on_kinds};
use crate::scanner::{
    alpha, blank, char_at, comment_at, digit, digits_end, lemma_digits_end_bounds,
    lemma_line_end_bounds, lemma_run_bounds, lemma_token_end_bounds, lemma_trivia_end_bounds,
    lexeme_end, lexeme_kind, line_end, quote_position, token_at, token_end, trivia_end, word_end,
    TokenKind,
};
use vstd::prelude::*;

verus! {

/// The source with one more byte at position `p`.
pub open spec fn insert(src: Seq<u8>, p: int, c: u8) -> Seq<u8> {
    src.subrange(0, p) + seq![c] + src.subrange(p, src.len() as int)
}

/// A token ends at `p`, or `p` is where scanning begins: `p` is reached
/// from `from` by scanning tokens, none of them the end of input.
pub open spec fn token_boundary(src: Seq<u8>, from: int, p: int) -> bool
    decreases src.len() - from,
    when 0 <= from <= src.len()
{
    if from == p {
        true
    } else if from > p || token_at(src, from).kind == TokenKind::Eof {
        false
    } else {
        proof {
            lemma_token_end_bounds(src, from);
        }
        token_boundary(src, token_end(src, from), p)
    }
}

/// The characters of a source with a byte put in: those before the byte
/// stay, and those from its place on move one position on.
pub proof fn lemma_insert_chars(src: Seq<u8>, p: int, c: u8, r: int)
    requires
        0 <= p <= src.len(),
    ensures
        insert(src, p, c).len() == src.len() + 1,
        r < p ==> char_at(insert(src, p, c), r) == char_at(src, r),
        r == p ==> char_at(insert(src, p, c), r) == c as char,
        r >= p ==> char_at(insert(src, p, c), r + 1) == char_at(src, r),
{
}

/// After the byte put in, a run of digits ends one position on.
pub proof fn lemma_shift_digits(src: Seq<u8>, p: int, c: u8, r: int)
    requires
        0 <= p <= r <= src.len(),
    ensures
        digits_end(insert(src, p, c), r + 1) == digits_end(src, r) + 1,
    decreases src.len() - r,
{
    lemma_insert_chars(src, p, c, r);
    if r < src.len() && digit(char_at(src, r)) {
        lemma_shift_digits(src, p, c, r + 1);
    }
}

/// After the byte put in, a word ends one position on.
pub proof fn lemma_shift_word(src: Seq<u8>, p: int, c: u8, r: int)
    requires
        0 <= p <= r <= src.len(),
    ensures
        word_end(insert(src, p, c), r + 1) == word_end(src, r) + 1,
    decreases src.len() - r,
{
    lemma_insert_chars(src, p, c, r);
    if r < src.len() && (alpha(char_at(src, r)) || digit(char_at(src, r))) {
        lemma_shift_word(src, p, c, r + 1);
    }
}

/// After the byte put in, the next quote stands one position on.
pub proof fn lemma_shift_quote(src: Seq<u8>, p: int, c: u8, r: int)
    requires
        0 <= p <= r <= src.len(),
    ensures
        quote_position(insert(src, p, c), r + 1) == quote_position(src, r) + 1,
    decreases src.len() - r,
{
    lemma_insert_chars(src, p, c, r);
    if r < src.len() && char_at(src, r) != '"' {
        lemma_shift_quote(src, p, c, r + 1);
    }
}

/// After the byte put in, a line ends one position on.
pub proof fn lemma_shift_line(src: Seq<u8>, p: int, c: u8, r: int)
    requires
        0 <= p <= r <= src.len(),
    ensures
        line_end(insert(src, p, c), r + 1) == line_end(src, r) + 1,
    decreases src.len() - r,
{
    lemma_insert_chars(src, p, c, r);
    if r < src.len() && char_at(src, r) != '\n' {
        lemma_shift_line(src, p, c, r + 1);
    }
}

/// After the byte put in, blanks and comments end one position on.
pub proof fn lemma_shift_trivia(src: Seq<u8>, p: int, c: u8, r: int)
    requires
        0 <= p <= r <= src.len(),
    ensures
        trivia_end(insert(src, p, c), r + 1) == trivia_end(src, r) + 1,
    decreases src.len() - r,
{
    lemma_insert_chars(src, p, c, r);
    lemma_insert_chars(src, p, c, r + 1);
    if r < src.len() && blank(char_at(src, r)) {
        lemma_shift_trivia(src, p, c, r + 1);
    } else if r < src.len() && comment_at(src, r) {
        lemma_line_end_bounds(src, r);
        lemma_shift_line(src, p, c, r);
        lemma_shift_trivia(src, p, c, line_end(src, r));
    }
}

/// After the byte put in, a token is of the same kind and ends one
/// position on.
pub proof fn lemma_shift_lexeme(src: Seq<u8>, p: int, c: u8, b: int)
    requires
        0 <= p <= b <= src.len(),
    ensures
        lexeme_kind(insert(src, p, c), b + 1) == lexeme_kind(src, b),
        lexeme_end(insert(src, p, c), b + 1) == lexeme_end(src, b) + 1,
{
    let moved = insert(src, p, c);
    lemma_insert_chars(src, p, c, b);
    lemma_insert_chars(src, p, c, b + 1);
    if b < src.len() {
        lemma_run_bounds(src, b + 1);
        lemma_shift_digits(src, p, c, b + 1);
        let whole = digits_end(src, b + 1);
        lemma_insert_chars(src, p, c, whole);
        lemma_insert_chars(src, p, c, whole + 1);
        if whole + 1 <= src.len() {
            lemma_shift_digits(src, p, c, whole + 1);
        }
        lemma_shift_word(src, p, c, b + 1);
        lemma_shift_quote(src, p, c, b + 1);
        let end = word_end(src, b + 1);
        assert(moved.subrange(b + 1, end + 1) =~= src.subrange(b, end));
    }
}

/// After the byte put in, the tokens are of the same kinds.
pub proof fn lemma_shift_kinds(src: Seq<u8>, p: int, c: u8, r: int)
    requires
        0 <= p <= r <= src.len(),
    ensures
        kinds_from(insert(src, p, c), r + 1) == kinds_from(src, r),
    decreases src.len() - r,
{
    let moved = insert(src, p, c);
    lemma_insert_chars(src, p, c, r);
    lemma_token_end_bounds(src, r);
    lemma_shift_trivia(src, p, c, r);
    lemma_shift_lexeme(src, p, c, trivia_end(src, r));
    assert(token_at(moved, r + 1).kind == token_at(src, r).kind);
    assert(token_end(moved, r + 1) == token_end(src, r) + 1);
    if token_at(src, r).kind != TokenKind::Eof {
        lemma_shift_kinds(src, p, c, token_end(src, r));
    }
}

/// At a blank put in, the tokens are of the kinds that they were of at
/// the place of the blank.
pub proof fn lemma_kinds_at_blank(src: Seq<u8>, p: int, c: u8)
    requires
        0 <= p <= src.len(),
        blank(c as char),
    ensures
        kinds_from(insert(src, p, c), p) == kinds_from(src, p),
{
    let moved = insert(src, p, c);
    lemma_insert_chars(src, p, c, p);
    lemma_token_end_bounds(src, p);
    lemma_token_end_bounds(moved, p);
    lemma_shift_trivia(src, p, c, p);
    assert(trivia_end(moved, p) == trivia_end(moved, p + 1));
    lemma_shift_lexeme(src, p, c, trivia_end(src, p));
    assert(token_at(moved, p).kind == token_at(src, p).kind);
    assert(token_end(moved, p) == token_end(src, p) + 1);
    if token_at(src, p).kind != TokenKind::Eof {
        lemma_shift_kinds(src, p, c, token_end(src, p));
    }
}

/// Before a blank put in, a run of digits that ends at or before its
/// place ends where it did.
pub proof fn lemma_keep_digits(src: Seq<u8>, p: int, c: u8, r: int)
    requires
        0 <= r <= p <= src.len(),
        blank(c as char),
        digits_end(src, r) <= p,
    ensures
        digits_end(insert(src, p, c), r) == digits_end(src, r),
    decreases p - r,
{
    lemma_insert_chars(src, p, c, r);
    lemma_digits_end_bounds(src, r);
    if r < p && digit(char_at(src, r)) {
        lemma_digits_end_bounds(src, r + 1);
        lemma_keep_digits(src, p, c, r + 1);
    }
}

/// Before a blank put in, a word that ends at or before its place ends
/// where it did.
pub proof fn lemma_keep_word(src: Seq<u8>, p: int, c: u8, r: int)
    requires
        0 <= r <= p <= src.len(),
        blank(c as char),
        word_end(src, r) <= p,
    ensures
        word_end(insert(src, p, c), r) == word_end(src, r),
    decreases p - r,
{
    lemma_insert_chars(src, p, c, r);
    lemma_run_bounds(src, r);
    if r < p && (alpha(char_at(src, r)) || digit(char_at(src, r))) {
        lemma_run_bounds(src, r + 1);
        lemma_keep_word(src, p, c, r + 1);
    }
}

/// Before a byte put in, a quote that stands before its place is found
/// where it was.
pub proof fn lemma_keep_quote(src: Seq<u8>, p: int, c: u8, r: int)
    requires
        0 <= r <= p <= src.len(),
        quote_position(src, r) < p,
    ensures
        quote_position(insert(src, p, c), r) == quote_position(src, r),
    decreases p - r,
{
    lemma_insert_chars(src, p, c, r);
    lemma_run_bounds(src, r);
    if r < p && char_at(src, r) != '"' {
        lemma_run_bounds(src, r + 1);
        lemma_keep_quote(src, p, c, r + 1);
    }
}

/// Where a source has no quote from a place on, it has none with a blank
/// put in at or after that place.
pub proof fn lemma_keep_no_quote(src: Seq<u8>, p: int, c: u8, r: int)
    requires
        0 <= r <= p <= src.len(),
        blank(c as char),
        quote_position(src, r) == src.len(),
    ensures
        quote_position(insert(src, p, c), r) == src.len() + 1,
    decreases p - r,
{
    lemma_insert_chars(src, p, c, r);
    lemma_run_bounds(src, r);
    if r < p {
        lemma_run_bounds(src, r + 1);
        lemma_keep_no_quote(src, p, c, r + 1);
    } else {
        lemma_shift_quote(src, p, c, p);
    }
}

/// Before a byte put in, a line that ends before its place ends where it
/// did.
pub proof fn lemma_keep_line(src: Seq<u8>, p: int, c: u8, r: int)
    requires
        0 <= r <= p <= src.len(),
        line_end(src, r) < p,
    ensures
        line_end(insert(src, p, c), r) == line_end(src, r),
    decreases p - r,
{
    lemma_insert_chars(src, p, c, r);
    lemma_line_end_bounds(src, r);
    if r < p && char_at(src, r) != '\n' {
        lemma_line_end_bounds(src, r + 1);
        lemma_keep_line(src, p, c, r + 1);
    }
}

/// Before a blank put in, blanks and comments that end before its place
/// end where they did.
pub proof fn lemma_keep_trivia(src: Seq<u8>, p: int, c: u8, r: int)
    requires
        0 <= r <= p <= src.len(),
        blank(c as char),
        trivia_end(src, r) < p,
    ensures
        trivia_end(insert(src, p, c), r) == trivia_end(src, r),
    decreases p - r,
{
    lemma_insert_chars(src, p, c, r);
    lemma_insert_chars(src, p, c, r + 1);
    lemma_trivia_end_bounds(src, r);
    if r < src.len() && blank(char_at(src, r)) {
        lemma_trivia_end_bounds(src, r + 1);
        lemma_keep_trivia(src, p, c, r + 1);
    } else if r < src.len() && comment_at(src, r) {
        lemma_line_end_bounds(src, r);
        let end = line_end(src, r);
        lemma_trivia_end_bounds(src, end);
        lemma_keep_line(src, p, c, r);
        lemma_keep_trivia(src, p, c, end);
    }
}

/// A string with no closing quote.
pub open spec fn open_string_at(src: Seq<u8>, b: int) -> bool {
    0 <= b < src.len() && char_at(src, b) == '"' && quote_position(src, b + 1) == src.len()
}

/// Before a blank put in, a token that ends at or before its place is of
/// the kind that it was of, and ends where it did. A string with no
/// closing quote ends at the end of the source as before, one position
/// on.
pub proof fn lemma_keep_lexeme(src: Seq<u8>, p: int, c: u8, b: int)
    requires
        0 <= b < p <= src.len(),
        blank(c as char),
        lexeme_end(src, b) <= p,
    ensures
        lexeme_kind(insert(src, p, c), b) == lexeme_kind(src, b),
        !open_string_at(src, b) ==> lexeme_end(insert(src, p, c), b) == lexeme_end(src, b),
        open_string_at(src, b) ==> lexeme_end(insert(src, p, c), b) == src.len() + 1,
{
    let moved = insert(src, p, c);
    lemma_insert_chars(src, p, c, b);
    lemma_insert_chars(src, p, c, b + 1);
    lemma_run_bounds(src, b + 1);
    let first = char_at(src, b);
    if digit(first) {
        let whole = digits_end(src, b + 1);
        lemma_digits_end_bounds(src, b + 1);
        if whole + 1 <= src.len() {
            lemma_digits_end_bounds(src, whole + 1);
        }
        lemma_keep_digits(src, p, c, b + 1);
        lemma_insert_chars(src, p, c, whole);
        lemma_insert_chars(src, p, c, whole + 1);
        if whole + 2 <= src.len() {
            lemma_digits_end_bounds(src, whole + 2);
        }
        if char_at(src, whole) == '.' && digit(char_at(src, whole + 1)) {
            lemma_keep_digits(src, p, c, whole + 1);
        }
    } else if alpha(first) {
        lemma_keep_word(src, p, c, b + 1);
        let end = word_end(src, b + 1);
        assert(moved.subrange(b, end) =~= src.subrange(b, end));
    } else if first == '"' {
        if quote_position(src, b + 1) < src.len() {
            lemma_keep_quote(src, p, c, b + 1);
        } else {
            lemma_keep_no_quote(src, p, c, b + 1);
        }
    }
}

/// A blank put in where a token ends changes the kind of no token: the
/// tokens of the source, from a token boundary before the blank on, are
/// of the kinds that they were of.
pub proof fn lemma_blank_keeps_kinds(src: Seq<u8>, p: int, c: u8, from: int)
    requires
        0 <= from <= p <= src.len(),
        blank(c as char),
        token_boundary(src, from, p),
    ensures
        kinds_from(insert(src, p, c), from) == kinds_from(src, from),
    decreases src.len() - from,
{
    let moved = insert(src, p, c);
    if from == p {
        lemma_kinds_at_blank(src, p, c);
    } else {
        lemma_insert_chars(src, p, c, from);
        lemma_token_end_bounds(src, from);
        lemma_token_end_bounds(moved, from);
        let begin = trivia_end(src, from);
        let end = token_end(src, from);
        crate::scanner::lemma_lexeme_end_bounds(src, begin);
        assert(token_boundary(src, end, p));
        lemma_boundary_bounds(src, end, p);
        lemma_keep_trivia(src, p, c, from);
        lemma_keep_lexeme(src, p, c, begin);
        assert(token_at(moved, from).kind == token_at(src, from).kind);
        if open_string_at(src, begin) {
            assert(end == src.len());
            assert(p == src.len());
            assert(token_end(moved, from) == moved.len());
            lemma_token_end_bounds(src, end);
            lemma_token_end_bounds(moved, moved.len() as int);
            assert(kinds_from(src, end) =~= seq![TokenKind::Eof]);
            assert(kinds_from(moved, moved.len() as int) =~= seq![TokenKind::Eof]);
        } else {
            assert(token_end(moved, from) == end);
            lemma_blank_keeps_kinds(src, p, c, end);
        }
    }
}

/// A boundary that is reached from a place does not lie before it.
pub proof fn lemma_boundary_bounds(src: Seq<u8>, from: int, p: int)
    requires
        0 <= from <= src.len(),
        token_boundary(src, from, p),
    ensures
        from <= p,
{
}

/// A blank between two tokens makes no difference to the tokens: a
/// source and the same source with a space, tab, carriage return or
/// newline put in where one of its tokens ends, or before the first of
/// them, have tokens of the same kinds in the same order.
pub proof fn lemma_blank_between_tokens(src: Seq<u8>, p: int, c: u8)
    requires
        0 <= p <= src.len(),
        blank(c as char),
        token_boundary(src, 0, p),
    ensures
        kinds_from(insert(src, p, c), 0) == kinds_from(src, 0),
{
    lemma_blank_keeps_kinds(src, p, c, 0);
}

/// A blank between two tokens makes no difference to the code: a source
/// and the same source with a space, tab, carriage return or newline put
/// in where one of its tokens ends, or before the first of them, compile
/// to the same code, with as many constants, and both with or both
/// without success. The lines of the code may differ.
pub proof fn lemma_blank_keeps_code(src: Seq<u8>, p: int, c: u8)
    requires
        0 <= p <= src.len(),
        src.len() + 1 < usize::MAX,
        blank(c as char),
        token_boundary(src, 0, p),
    ensures
        ({
            let a = CompilerView::initial(src).compile(ChunkView::empty());
            let b = CompilerView::initial(insert(src, p, c)).compile(ChunkView::empty());
            &&& a.chunk.code == b.chunk.code
            &&& a.chunk.constants.len() == b.chunk.constants.len()
            &&& a.had_error == b.had_error
        }),
{
    lemma_blank_between_tokens(src, p, c);
    lemma_insert_chars(src, p, c, p);
    lemma_code_depends_on_kinds(src, insert(src, p, c));
}

} // verus!
