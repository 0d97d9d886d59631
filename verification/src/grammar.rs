//! The grammar of expressions and what an expression denotes.
//!
//! ```text
//! expression := term
//! term       := factor ( ( "+" | "-" ) factor )*
//! factor     := unary ( ( "*" | "/" ) unary )*
//! unary      := "-" unary | primary
//! primary    := NUMBER | "(" expression ")"
//! ```
//!
//! Operators of one level group to the left. The functions here read a
//! sequence of tokens by this grammar and give the number that the
//! expression denotes: they know nothing of bytecode.

use crate::scanner::{
    is_number_lexeme, lemma_number_token, lemma_token_end_bounds, token_at, token_end, Token,
    TokenKind,
};
use crate::value::Value;
use vstd::prelude::*;

verus! {

/// The tokens that a parser sees from `pos` on: those that the scanner
/// makes, without the `Error` tokens, up to and with the end of input.
pub open spec fn parser_tokens(src: Seq<u8>, pos: int) -> Seq<Token>
    decreases src.len() - pos,
    when 0 <= pos <= src.len()
{
    let token = token_at(src, pos);
    if token.kind == TokenKind::Eof {
        seq![token]
    } else {
        proof {
            lemma_token_end_bounds(src, pos);
        }
        if token.kind == TokenKind::Error {
            parser_tokens(src, token_end(src, pos))
        } else {
            seq![token] + parser_tokens(src, token_end(src, pos))
        }
    }
}

/// The level of the additive operators.
pub open spec fn term_level() -> int {
    6
}

/// The level of the multiplicative operators.
pub open spec fn factor_level() -> int {
    7
}

/// The level of the prefix operators, above those of the binary ones.
pub open spec fn unary_level() -> int {
    8
}

/// A binary operator of a level: plus and minus of the level of terms,
/// star and slash of the level of factors.
pub open spec fn operator_of(kind: TokenKind, level: int) -> bool {
    ||| level == term_level() && (kind == TokenKind::Plus || kind == TokenKind::Minus)
    ||| level == factor_level() && (kind == TokenKind::Star || kind == TokenKind::Slash)
}

/// What a binary operator makes of a left and a right operand.
pub open spec fn binary_value(kind: TokenKind, left: Value, right: Value) -> Value {
    match kind {
        TokenKind::Plus => Value::Add(Box::new(left), Box::new(right)),
        TokenKind::Minus => Value::Subtract(Box::new(left), Box::new(right)),
        TokenKind::Star => Value::Multiply(Box::new(left), Box::new(right)),
        _ => Value::Divide(Box::new(left), Box::new(right)),
    }
}

/// Reads a primary at position `i`: a number, or an expression in
/// parentheses. Gives what it denotes and the position after it, or
/// nothing if no primary stands there.
pub open spec fn primary(tokens: Seq<Token>, i: int) -> Option<(Value, int)>
    decreases tokens.len() - i, 0int,
{
    if !(0 <= i < tokens.len()) {
        None
    } else if tokens[i].kind == TokenKind::Number {
        Some((Value::Literal { start: tokens[i].start, length: tokens[i].length }, i + 1))
    } else if tokens[i].kind == TokenKind::LeftParen {
        match level(tokens, i + 1, term_level()) {
            Some((value, close)) => if 0 <= close < tokens.len() && tokens[close].kind
                == TokenKind::RightParen {
                Some((value, close + 1))
            } else {
                None
            },
            None => None,
        }
    } else {
        None
    }
}

/// Reads a unary at position `i`: a minus and a unary, or a primary.
pub open spec fn unary(tokens: Seq<Token>, i: int) -> Option<(Value, int)>
    decreases tokens.len() - i, 1int,
{
    if 0 <= i < tokens.len() && tokens[i].kind == TokenKind::Minus {
        match unary(tokens, i + 1) {
            Some((value, next)) => Some((Value::Negate(Box::new(value)), next)),
            None => None,
        }
    } else {
        primary(tokens, i)
    }
}

/// Reads an operand of a level at position `i`: a term for the level of
/// terms, a factor for the level of factors, a unary above them. An
/// operand of a binary level is an operand of the next level and the
/// operators of the level that follow it.
pub open spec fn level(tokens: Seq<Token>, i: int, p: int) -> Option<(Value, int)>
    decreases tokens.len() - i,
        (if term_level() <= p < unary_level() {
            10 - p
        } else {
            2
        }),
{
    if p >= unary_level() || p < term_level() {
        unary(tokens, i)
    } else {
        match level(tokens, i, p + 1) {
            Some((left, next)) => if i < next <= tokens.len() {
                rest(tokens, next, left, p)
            } else {
                None
            },
            None => None,
        }
    }
}

/// Reads the operators of a level that follow a left operand, each with
/// its right operand of the next level, and folds them to the left. An
/// operand takes at least one token, which the test on the positions
/// records.
pub open spec fn rest(tokens: Seq<Token>, i: int, left: Value, p: int) -> Option<(Value, int)>
    decreases tokens.len() - i, 10int,
{
    if 0 <= i < tokens.len() && operator_of(tokens[i].kind, p) {
        match level(tokens, i + 1, p + 1) {
            Some((right, next)) => if i < next <= tokens.len() {
                rest(tokens, next, binary_value(tokens[i].kind, left, right), p)
            } else {
                None
            },
            None => None,
        }
    } else {
        Some((left, i))
    }
}

/// What a sequence of tokens denotes if it is one expression and the end
/// of input, and nothing otherwise.
pub open spec fn evaluate(tokens: Seq<Token>) -> Option<Value> {
    match level(tokens, 0, term_level()) {
        Some((value, end)) => if 0 <= end < tokens.len() && tokens[end].kind == TokenKind::Eof {
            Some(value)
        } else {
            None
        },
        None => None,
    }
}

/// What a source text denotes if it is one expression, and nothing
/// otherwise.
pub open spec fn denotation(source: Seq<u8>) -> Option<Value> {
    evaluate(parser_tokens(source, 0))
}

/// The number of literals among the tokens from position `i` on.
pub open spec fn literals_from(tokens: Seq<Token>, i: int) -> nat
    decreases tokens.len() - i,
{
    if i < 0 || i >= tokens.len() {
        0
    } else if tokens[i].kind == TokenKind::Number {
        1 + literals_from(tokens, i + 1)
    } else {
        literals_from(tokens, i + 1)
    }
}

/// There are no more literals from a later position on than from an
/// earlier one.
pub proof fn lemma_literals_decrease(tokens: Seq<Token>, i: int, j: int)
    requires
        0 <= i <= j,
    ensures
        literals_from(tokens, j) <= literals_from(tokens, i),
    decreases j - i,
{
    if i < j {
        lemma_literals_decrease(tokens, i + 1, j);
    }
}

/// Every literal of a number is the lexeme of a number of the source:
/// the embedding program can read each of them as a decimal.
pub open spec fn spelled(src: Seq<u8>, value: Value) -> bool
    decreases value,
{
    match value {
        Value::Zero => true,
        Value::Literal { start, length } => is_number_lexeme(src, start as int, length as int),
        Value::Negate(operand) => spelled(src, *operand),
        Value::Add(left, right) => spelled(src, *left) && spelled(src, *right),
        Value::Subtract(left, right) => spelled(src, *left) && spelled(src, *right),
        Value::Multiply(left, right) => spelled(src, *left) && spelled(src, *right),
        Value::Divide(left, right) => spelled(src, *left) && spelled(src, *right),
    }
}

/// Every token of the kind `Number` has the lexeme of a number of the
/// source for its span.
pub open spec fn numbers_spelled(src: Seq<u8>, tokens: Seq<Token>) -> bool {
    forall|i: int|
        0 <= i < tokens.len() && (#[trigger] tokens[i]).kind == TokenKind::Number
            ==> is_number_lexeme(src, tokens[i].start as int, tokens[i].length as int)
}

/// The numbers among the tokens that a parser sees are spelled in the
/// source.
pub proof fn lemma_parser_tokens_spelled(src: Seq<u8>, pos: int)
    requires
        0 <= pos <= src.len() <= usize::MAX,
    ensures
        numbers_spelled(src, parser_tokens(src, pos)),
    decreases src.len() - pos,
{
    let token = token_at(src, pos);
    lemma_token_end_bounds(src, pos);
    lemma_number_token(src, pos);
    if token.kind != TokenKind::Eof {
        let after = parser_tokens(src, token_end(src, pos));
        lemma_parser_tokens_spelled(src, token_end(src, pos));
        if token.kind != TokenKind::Error {
            let tokens = parser_tokens(src, pos);
            assert(tokens =~= seq![token] + after);
            assert forall|i: int|
                0 <= i < tokens.len() && (#[trigger] tokens[i]).kind
                    == TokenKind::Number implies is_number_lexeme(
                src,
                tokens[i].start as int,
                tokens[i].length as int,
            ) by {
                if i > 0 {
                    assert(tokens[i] == after[i - 1]);
                }
            }
        }
    }
}

/// What the grammar reads of tokens whose numbers are spelled in the
/// source is spelled in the source.
pub proof fn lemma_level_spelled(src: Seq<u8>, tokens: Seq<Token>, i: int, p: int)
    requires
        numbers_spelled(src, tokens),
    ensures
        primary(tokens, i) is Some ==> spelled(src, (primary(tokens, i)->0).0),
        unary(tokens, i) is Some ==> spelled(src, (unary(tokens, i)->0).0),
        level(tokens, i, p) is Some ==> spelled(src, (level(tokens, i, p)->0).0),
    decreases tokens.len() - i,
        (if term_level() <= p < unary_level() {
            10 - p
        } else {
            2
        }),
{
    if 0 <= i < tokens.len() {
        if tokens[i].kind == TokenKind::LeftParen {
            lemma_level_spelled(src, tokens, i + 1, term_level());
        }
        if tokens[i].kind == TokenKind::Minus {
            lemma_level_spelled(src, tokens, i + 1, unary_level());
        }
    }
    if term_level() <= p < unary_level() {
        lemma_level_spelled(src, tokens, i, p + 1);
        match level(tokens, i, p + 1) {
            Some((left, next)) => {
                if i < next <= tokens.len() {
                    lemma_rest_spelled(src, tokens, next, left, p);
                }
            },
            None => {},
        }
    }
}

/// What the grammar makes of a left operand that is spelled in the source
/// and the operators that follow it is spelled in the source.
pub proof fn lemma_rest_spelled(src: Seq<u8>, tokens: Seq<Token>, i: int, left: Value, p: int)
    requires
        numbers_spelled(src, tokens),
        spelled(src, left),
    ensures
        rest(tokens, i, left, p) is Some ==> spelled(src, (rest(tokens, i, left, p)->0).0),
    decreases tokens.len() - i, 10int,
{
    if 0 <= i < tokens.len() && operator_of(tokens[i].kind, p) {
        lemma_level_spelled(src, tokens, i + 1, p + 1);
        match level(tokens, i + 1, p + 1) {
            Some((right, next)) => {
                if i < next <= tokens.len() {
                    lemma_rest_spelled(
                        src,
                        tokens,
                        next,
                        binary_value(tokens[i].kind, left, right),
                        p,
                    );
                }
            },
            None => {},
        }
    }
}

/// What a source denotes is spelled in the source: each of its literals
/// is the lexeme of a number.
pub proof fn lemma_denotation_spelled(source: Seq<u8>)
    requires
        source.len() <= usize::MAX,
    ensures
        denotation(source) is Some ==> spelled(source, denotation(source)->0),
{
    lemma_parser_tokens_spelled(source, 0);
    lemma_level_spelled(source, parser_tokens(source, 0), 0, term_level());
}

} // verus!
