//! Which sources compile: a source that scans without an `Error` token,
//! is one expression by the grammar, and has no more literals than one
//! byte can address compiles without error.

use crate::chunk::ChunkView;
use crate::common::{encode, OpCode};
use crate::compiler::{
    binary_opcode, expect_end, lemma_advance, lemma_advance_leads, lemma_consume_leads,
    lemma_emit_simple, lemma_expression, lemma_infix_loop, lemma_leads_to_transitive,
    lemma_parse_precedence, lemma_scan_step, lemma_translate, next_precedence, precedence_order,
    rule_of, CompilerView, ParseRuleFn, Precedence,
};
use crate::grammar::{
    binary_value, denotation, evaluate, factor_level, lemma_literals_decrease, level,
    literals_from, operator_of, parser_tokens, primary, rest, term_level, unary, unary_level,
};
use crate::scanner::{
    error_free, lemma_clean_path_joins, lemma_line_col_start, lemma_token_end_bounds, token_at,
    token_end, tokens_from, trivia_end, Token, TokenKind,
};
use crate::soundness::{
    climb, grammar_level, lemma_advance_linked, lemma_climb_step, lemma_fetch_linked,
    lemma_level_climb, lemma_progress, lemma_sound_parse, linked, operator_level,
};
use crate::value::Value;
use vstd::prelude::*;

verus! {

/// No token from `pos` on is an `Error`.
pub open spec fn clean(src: Seq<u8>, pos: int) -> bool {
    error_free(tokens_from(src, pos))
}

/// The compiler stands at position `i` of the tokens with no error noted
/// or reported, and with no `Error` token ahead.
pub open spec fn ready(s: CompilerView, tokens: Seq<Token>, i: int) -> bool {
    &&& linked(s, tokens, i)
    &&& !s.had_error
    &&& !s.panic_mode
    &&& clean(s.scanner.source, s.scanner.current as int)
}

/// The pool has room for the literals from position `i` on: with them it
/// holds no more constants than one byte can address.
pub open spec fn roomy(s: CompilerView, tokens: Seq<Token>, i: int) -> bool {
    s.chunk.constants.len() + literals_from(tokens, i) <= 256
}

/// Where no token from a place on is an `Error`, the next token is none,
/// and none is after it. After the end of the source there is none.
pub proof fn lemma_clean_step(src: Seq<u8>, pos: int)
    requires
        0 <= pos <= src.len(),
        clean(src, pos),
    ensures
        token_at(src, pos).kind != TokenKind::Error,
        clean(src, token_end(src, pos)),
{
    lemma_token_end_bounds(src, pos);
    let tokens = tokens_from(src, pos);
    let end = token_end(src, pos);
    assert(tokens[0] == token_at(src, pos));
    if token_at(src, pos).kind == TokenKind::Eof {
        lemma_token_end_bounds(src, end);
        assert(tokens_from(src, end) =~= seq![token_at(src, end)]);
    } else {
        let after = tokens_from(src, end);
        assert(tokens =~= seq![token_at(src, pos)] + after);
        assert forall|i: int| 0 <= i < after.len() implies (#[trigger] after[i]).kind
            != TokenKind::Error by {
            assert(after[i] == tokens[i + 1]);
        }
    }
}

/// With no `Error` token ahead, a fetch reports nothing, and no `Error`
/// token is ahead after it.
pub proof fn lemma_fetch_clean(s: CompilerView)
    requires
        s.wf(),
        clean(s.scanner.source, s.scanner.current as int),
    ensures
        s.fetch().had_error == s.had_error,
        s.fetch().panic_mode == s.panic_mode,
        s.fetch().diagnostics == s.diagnostics,
        clean(s.scanner.source, s.fetch().scanner.current as int),
{
    let src = s.scanner.source;
    let pos = s.scanner.current as int;
    lemma_scan_step(s.scanner);
    lemma_clean_step(src, pos);
    lemma_token_end_bounds(src, pos);
    let scanned = CompilerView {
        scanner: s.scanner.at(trivia_end(src, pos), token_end(src, pos)),
        current: token_at(src, pos),
        ..s
    };
    assert(s.fetch() == scanned);
    assert(scanned.scanner.current as int == token_end(src, pos));
}

/// With no `Error` token ahead, an advance reports nothing, and no
/// `Error` token is ahead after it.
pub proof fn lemma_advance_clean(s: CompilerView)
    requires
        s.wf(),
        clean(s.scanner.source, s.scanner.current as int),
    ensures
        s.advance().had_error == s.had_error,
        s.advance().panic_mode == s.panic_mode,
        s.advance().diagnostics == s.diagnostics,
        clean(s.scanner.source, s.advance().scanner.current as int),
{
    lemma_fetch_clean(CompilerView { previous: s.current, ..s });
}

/// Where the grammar reads a unary at the previous token, the prefix rule
/// of that token compiles it without error, and leaves room in the pool
/// for the literals that follow.
pub proof fn lemma_accept_prefix(a: CompilerView, tokens: Seq<Token>, i: int)
    requires
        ready(a, tokens, i + 1),
        0 <= i,
        a.previous == tokens[i],
        unary(tokens, i) is Some,
        roomy(a, tokens, i),
    ensures
        ({
            let r = a.translate(rule_of(a.previous.kind).prefix);
            let next = (unary(tokens, i)->0).1;
            &&& rule_of(a.previous.kind).prefix != ParseRuleFn::FnNone
            &&& ready(r, tokens, next)
            &&& roomy(r, tokens, next)
        }),
    decreases a.measure(), 3int,
{
    let kind = a.previous.kind;
    let prefix = rule_of(kind).prefix;
    let r = a.translate(prefix);
    let next = (unary(tokens, i)->0).1;
    let none = Seq::<Value>::empty();
    lemma_translate(a, prefix);
    lemma_progress(tokens, i, unary_level());
    lemma_literals_decrease(tokens, i + 1, next);
    if kind == TokenKind::Number {
        assert(literals_from(tokens, i) == 1 + literals_from(tokens, i + 1));
        assert(!r.had_error);
        assert(r.scanner == a.scanner);
        assert(r.current == a.current);
    } else if kind == TokenKind::LeftParen {
        assert(unary(tokens, i) == primary(tokens, i));
        let inner = a.expression();
        assert(inner == a.parse_precedence(Precedence::PrecAssignment));
        let (value, close) = level(tokens, i + 1, term_level())->0;
        lemma_literals_decrease(tokens, i, i + 1);
        lemma_accept_parse(a, tokens, i + 1, Precedence::PrecAssignment);
        assert(tokens[close].kind == TokenKind::RightParen);
        assert(inner.current.kind == TokenKind::RightParen);
        assert(r == inner.advance());
        lemma_advance(inner);
        lemma_advance_clean(inner);
        lemma_advance_linked(inner, tokens, close);
        lemma_literals_decrease(tokens, close, close + 1);
    } else {
        assert(kind == TokenKind::Minus);
        let operand = a.parse_precedence(Precedence::PrecUnary);
        lemma_literals_decrease(tokens, i, i + 1);
        lemma_accept_parse(a, tokens, i + 1, Precedence::PrecUnary);
        lemma_emit_simple(operand, OpCode::OpNegate);
        assert(r == operand.emit(encode(OpCode::OpNegate)));
    }
}

/// Where the grammar reads an operand of the level at the current token,
/// compiling at the level of precedence ends without error after the
/// operand, and leaves room in the pool for the literals that follow.
pub proof fn lemma_accept_parse(s: CompilerView, tokens: Seq<Token>, i: int, min: Precedence)
    requires
        ready(s, tokens, i),
        min != Precedence::PrecNone,
        level(tokens, i, grammar_level(min)) is Some,
        roomy(s, tokens, i),
    ensures
        ({
            let r = s.parse_precedence(min);
            let next = (level(tokens, i, grammar_level(min))->0).1;
            &&& ready(r, tokens, next)
            &&& roomy(r, tokens, next)
        }),
    decreases s.measure(), 0int,
{
    let m = grammar_level(min);
    let none = Seq::<Value>::empty();
    lemma_parse_precedence(s, min);
    lemma_level_climb(tokens, i, m);
    lemma_progress(tokens, i, unary_level());
    let (value, next) = unary(tokens, i)->0;
    assert(tokens[i].kind != TokenKind::Eof);
    lemma_advance(s);
    lemma_advance_clean(s);
    lemma_advance_linked(s, tokens, i);
    let advanced = s.advance();
    lemma_accept_prefix(advanced, tokens, i);
    let prefix = rule_of(advanced.previous.kind).prefix;
    let operand = advanced.translate(prefix);
    lemma_translate(advanced, prefix);
    lemma_infix_loop(operand, min);
    lemma_accept_loop(operand, tokens, next, min, value);
}

/// Where the grammar reads an operand of the next level after the
/// operator that the previous token is, compiling the operator ends
/// without error after the operand, at a token that binds no more
/// strongly than the operator, and leaves room in the pool for the
/// literals that follow.
pub proof fn lemma_accept_binary(a: CompilerView, tokens: Seq<Token>, i: int)
    requires
        ready(a, tokens, i + 1),
        0 <= i,
        a.previous == tokens[i],
        binary_opcode(a.previous.kind) is Some,
        level(tokens, i + 1, operator_level(tokens[i].kind) + 1) is Some,
        roomy(a, tokens, i + 1),
    ensures
        ({
            let r = a.binary();
            let next = (level(tokens, i + 1, operator_level(tokens[i].kind) + 1)->0).1;
            &&& ready(r, tokens, next)
            &&& roomy(r, tokens, next)
            &&& r.measure() <= a.measure()
            &&& operator_level(r.current.kind) <= operator_level(tokens[i].kind)
        }),
    decreases a.measure(), 2int,
{
    let kind = a.previous.kind;
    let above = next_precedence(rule_of(kind).precendence);
    assert(grammar_level(above) == operator_level(kind) + 1);
    let operand = a.parse_precedence(above);
    lemma_parse_precedence(a, above);
    lemma_accept_parse(a, tokens, i + 1, above);
    let op = binary_opcode(kind)->0;
    lemma_emit_simple(operand, op);
    assert(a.binary() == operand.emit(encode(op)));
    lemma_sound_parse(a, tokens, i + 1, above, Seq::<Value>::empty());
}

/// Where the grammar reads the operators of the level and of those above
/// it at the current token, compiling them ends without error after
/// them, and leaves room in the pool for the literals that follow.
pub proof fn lemma_accept_loop(
    s: CompilerView,
    tokens: Seq<Token>,
    i: int,
    min: Precedence,
    left: Value,
)
    requires
        ready(s, tokens, i),
        min != Precedence::PrecNone,
        climb(tokens, i, left, grammar_level(min)) is Some,
        roomy(s, tokens, i),
    ensures
        ({
            let r = s.infix_loop(min);
            let next = (climb(tokens, i, left, grammar_level(min))->0).1;
            &&& ready(r, tokens, next)
            &&& roomy(r, tokens, next)
        }),
    decreases s.measure(), 4int,
{
    lemma_infix_loop(s, min);
    let m = grammar_level(min);
    let kind = s.current.kind;
    let p = operator_level(kind);
    if precedence_order(min) <= p {
        assert(operator_of(kind, p));
        assert(m <= p < unary_level());
        lemma_accept_operand(tokens, i, left, m);
        let (right, next) = level(tokens, i + 1, p + 1)->0;
        lemma_progress(tokens, i + 1, p + 1);
        lemma_advance(s);
        lemma_advance_clean(s);
        lemma_advance_linked(s, tokens, i);
        let advanced = s.advance();
        let applied = advanced.binary();
        assert(advanced.translate(ParseRuleFn::FnBinary) == applied);
        lemma_literals_decrease(tokens, i, i + 1);
        lemma_accept_binary(advanced, tokens, i);
        assert(s.infix_loop(min) == applied.infix_loop(min));
        assert(applied.current == tokens[next]);
        assert forall|q: int| p < q < unary_level() implies !operator_of(tokens[next].kind, q) by {
            assert(operator_level(tokens[next].kind) <= p);
        }
        lemma_climb_step(tokens, i, left, m, next, right);
        lemma_accept_loop(applied, tokens, next, min, binary_value(kind, left, right));
    } else {
        assert forall|q: int| m <= q < unary_level() implies !operator_of(tokens[i].kind, q) by {
            if operator_of(tokens[i].kind, q) {
                assert(operator_level(tokens[i].kind) == q);
            }
        }
        crate::soundness::lemma_climb_stop(tokens, i, left, m);
    }
}

/// Where the grammar reads the operators from `i` on and the token at
/// `i` is an operator of a level from `m` up, it reads a right operand of
/// the next level after the operator.
pub proof fn lemma_accept_operand(tokens: Seq<Token>, i: int, left: Value, m: int)
    requires
        0 <= i < tokens.len(),
        term_level() <= m <= unary_level(),
        climb(tokens, i, left, m) is Some,
        exists|p: int| #![trigger operator_of(tokens[i].kind, p)]
            m <= p < unary_level() && operator_of(tokens[i].kind, p),
    ensures
        operator_of(tokens[i].kind, factor_level()) ==> level(tokens, i + 1, unary_level())
            is Some,
        operator_of(tokens[i].kind, term_level()) ==> level(tokens, i + 1, factor_level())
            is Some,
{
    let kind = tokens[i].kind;
    assert(climb(tokens, i, left, unary_level()) == Some((left, i)));
    assert(climb(tokens, i, left, factor_level()) == rest(tokens, i, left, factor_level()));
    if operator_of(kind, factor_level()) {
        if m == term_level() {
            assert(climb(tokens, i, left, factor_level()) is Some);
        }
        assert(rest(tokens, i, left, factor_level()) is Some);
    } else {
        assert(operator_of(kind, term_level()));
        assert(m == term_level());
        assert(rest(tokens, i, left, factor_level()) == Some((left, i)));
        assert(climb(tokens, i, left, term_level()) == rest(tokens, i, left, term_level()));
    }
}

/// A source that scans without an `Error` token, is one expression by
/// the grammar, and has at most 256 literals compiles without error.
pub proof fn lemma_compile_accepts(source: Seq<u8>)
    requires
        source.len() < usize::MAX,
        clean(source, 0),
        denotation(source) is Some,
        literals_from(parser_tokens(source, 0), 0) <= 256,
    ensures
        !CompilerView::initial(source).compile(ChunkView::empty()).had_error,
{
    let given = CompilerView::initial(source);
    let tokens = parser_tokens(source, 0);
    lemma_line_col_start(source);
    assert(given.wf());
    assert(given == CompilerView { chunk: ChunkView::empty(), ..given });
    lemma_advance(given);
    lemma_advance_clean(given);
    let primed = given.advance();
    assert(tokens.skip(0) =~= tokens);
    lemma_fetch_linked(CompilerView { previous: given.current, ..given }, tokens, -1);
    assert(ready(primed, tokens, 0));
    lemma_accept_parse(primed, tokens, 0, Precedence::PrecAssignment);
    let parsed = primed.expression();
    assert(parsed == primed.parse_precedence(Precedence::PrecAssignment));
    let (value, end) = level(tokens, 0, term_level())->0;
    assert(evaluate(tokens) is Some);
    assert(tokens[end].kind == TokenKind::Eof);
    assert(parsed.current.kind == TokenKind::Eof);
    lemma_advance(parsed);
    lemma_advance_clean(parsed);
}

/// The sources that compile: those that scan without an `Error` token,
/// are one expression by the grammar, and have at most 256 literals.
pub open spec fn accepted(source: Seq<u8>) -> bool {
    &&& clean(source, 0)
    &&& denotation(source) is Some
    &&& literals_from(parser_tokens(source, 0), 0) <= 256
}

/// A source compiles without error if and only if it scans without an
/// `Error` token, is one expression by the grammar, and has at most 256
/// literals.
pub proof fn lemma_compile_succeeds_iff(source: Seq<u8>)
    requires
        source.len() < usize::MAX,
    ensures
        !CompilerView::initial(source).compile(ChunkView::empty()).had_error <==> accepted(
            source,
        ),
{
    let given = CompilerView::initial(source);
    let compiled = given.compile(ChunkView::empty());
    let tokens = parser_tokens(source, 0);
    if clean(source, 0) && denotation(source) is Some && literals_from(tokens, 0) <= 256 {
        lemma_compile_accepts(source);
    }
    if !compiled.had_error {
        lemma_line_col_start(source);
        assert(given.wf());
        assert(given == CompilerView { chunk: ChunkView::empty(), ..given });
        lemma_advance(given);
        lemma_advance_leads(given);
        let primed = given.advance();
        assert(tokens.skip(0) =~= tokens);
        lemma_fetch_linked(CompilerView { previous: given.current, ..given }, tokens, -1);
        lemma_expression(primed);
        let parsed = primed.expression();
        lemma_leads_to_transitive(given, primed, parsed);
        lemma_consume_leads(parsed, TokenKind::Eof, expect_end());
        let closed = parsed.consume(TokenKind::Eof, expect_end());
        lemma_emit_simple(closed, OpCode::OpReturn);
        assert(compiled == closed.emit(encode(OpCode::OpReturn)));
        assert(!closed.had_error);
        assert(!parsed.had_error);
        assert(!primed.had_error);
        assert(!primed.panic_mode);
        assert(parsed == primed.parse_precedence(Precedence::PrecAssignment));
        lemma_sound_parse(primed, tokens, 0, Precedence::PrecAssignment, Seq::<Value>::empty());
        let (value, end) = level(tokens, 0, term_level())->0;
        assert(parsed.current.kind == TokenKind::Eof);
        assert(evaluate(tokens) == Some(value));
        assert(literals_from(tokens, end + 1) == 0);
        assert(literals_from(tokens, end) == 0);
        let last = source.len() as int;
        assert(parsed.scanner.current == last);
        lemma_token_end_bounds(source, last);
        assert(tokens_from(source, last) =~= seq![token_at(source, last)]);
        assert(clean(source, last));
        lemma_clean_path_joins(source, 0, last);
    }
}

} // verus!
