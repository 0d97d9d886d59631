//! The compiler and the machine agree with the grammar: a source that
//! compiles without error runs without error, and the number that the
//! machine hands out is the one that the source denotes.

use crate::chunk::ChunkView;
use crate::common::{encode, InterpretResult, OpCode};
use crate::compiler::{
    binary_opcode, expect_end, expect_expression, expect_right_paren, lemma_advance,
    lemma_advance_leads, lemma_consume_leads, lemma_emit_simple, lemma_expression,
    lemma_infix_loop, lemma_leads_to_transitive, lemma_parse_precedence, lemma_report,
    lemma_scan_step, lemma_translate, next_precedence, precedence_order, rule_of, CompilerView,
    ParseRuleFn, Precedence,
};
use crate::grammar::{
    binary_value, denotation, evaluate, factor_level, level, literals_from, operator_of,
    parser_tokens, primary, rest, term_level, unary, unary_level,
};
use crate::scanner::{
    lemma_line_col_start, lemma_token_end_bounds, token_at, token_end, trivia_end, Token,
    TokenKind,
};
use crate::value::Value;
use crate::vm::{
    apply_binary, continues, execute, lemma_execute_binary, lemma_execute_compose,
    lemma_execute_constant, lemma_execute_continues, lemma_execute_negate, lemma_run_to_return,
    VmView,
};
use vstd::prelude::*;

verus! {

/// The compiler stands at position `i` of the tokens: its current token
/// is the one there, and what its scanner has yet to give are the tokens
/// after it. At the end of input the scanner has reached the end of the
/// source.
pub open spec fn linked(s: CompilerView, tokens: Seq<Token>, i: int) -> bool {
    &&& s.wf()
    &&& 0 <= i < tokens.len()
    &&& s.current == tokens[i]
    &&& if s.current.kind == TokenKind::Eof {
        i + 1 == tokens.len() && s.scanner.current == s.scanner.source.len()
    } else {
        tokens.skip(i + 1) == parser_tokens(s.scanner.source, s.scanner.current as int)
    }
}

/// The constants of the pool and the literals from position `i` on,
/// counted together: each literal that is compiled becomes a constant.
pub open spec fn tally(s: CompilerView, tokens: Seq<Token>, i: int) -> nat {
    s.chunk.constants.len() + literals_from(tokens, i)
}

/// The pool holds no more constants than one byte can address.
pub open spec fn addressable(s: CompilerView) -> bool {
    s.chunk.constants.len() <= 256
}

/// The level of the grammar that a level of precedence asks for: terms up
/// to the level of the additive operators, factors at the level of the
/// multiplicative ones, and unaries above.
pub open spec fn grammar_level(min: Precedence) -> int {
    if precedence_order(min) <= term_level() {
        term_level()
    } else if precedence_order(min) == factor_level() {
        factor_level()
    } else {
        unary_level()
    }
}

/// The operators that follow a left operand at the levels from `p` up:
/// those of the higher levels first.
pub open spec fn climb(tokens: Seq<Token>, i: int, left: Value, p: int) -> Option<(Value, int)>
    decreases unary_level() - p,
{
    if p >= unary_level() || p < term_level() {
        Some((left, i))
    } else {
        match climb(tokens, i, left, p + 1) {
            Some((value, next)) => rest(tokens, next, value, p),
            None => None,
        }
    }
}

/// What the grammar reads begins within the tokens and ends after where
/// it begins, within the tokens or at their end.
pub proof fn lemma_progress(tokens: Seq<Token>, i: int, p: int)
    ensures
        primary(tokens, i) is Some ==> 0 <= i < (primary(tokens, i)->0).1 <= tokens.len(),
        unary(tokens, i) is Some ==> 0 <= i < (unary(tokens, i)->0).1 <= tokens.len(),
        level(tokens, i, p) is Some ==> 0 <= i < (level(tokens, i, p)->0).1 <= tokens.len(),
    decreases tokens.len() - i,
        (if term_level() <= p < unary_level() {
            10 - p
        } else {
            2
        }),
{
    if 0 <= i < tokens.len() {
        if tokens[i].kind == TokenKind::LeftParen {
            lemma_progress(tokens, i + 1, term_level());
        }
        if tokens[i].kind == TokenKind::Minus {
            lemma_progress(tokens, i + 1, unary_level());
        }
    }
    if term_level() <= p < unary_level() {
        lemma_progress(tokens, i, p + 1);
        match level(tokens, i, p + 1) {
            Some((left, next)) => {
                lemma_rest_progress(tokens, next, left, p);
            },
            None => {},
        }
    }
}

/// The operators that follow an operand end at or after where they
/// begin, within the tokens.
pub proof fn lemma_rest_progress(tokens: Seq<Token>, i: int, left: Value, p: int)
    requires
        0 <= i <= tokens.len(),
    ensures
        rest(tokens, i, left, p) is Some ==> i <= (rest(tokens, i, left, p)->0).1 <= tokens.len(),
    decreases tokens.len() - i, 10int,
{
    if 0 <= i < tokens.len() && operator_of(tokens[i].kind, p) {
        lemma_progress(tokens, i + 1, p + 1);
        match level(tokens, i + 1, p + 1) {
            Some((right, next)) => {
                if i < next <= tokens.len() {
                    lemma_rest_progress(
                        tokens,
                        next,
                        binary_value(tokens[i].kind, left, right),
                        p,
                    );
                }
            },
            None => {},
        }
    }
}

/// An operand of a level is a unary and the operators that follow it at
/// the levels from that level up.
pub proof fn lemma_level_climb(tokens: Seq<Token>, i: int, p: int)
    requires
        term_level() <= p <= unary_level(),
    ensures
        level(tokens, i, p) == (match unary(tokens, i) {
            Some((value, next)) => climb(tokens, next, value, p),
            None => None,
        }),
    decreases unary_level() - p,
{
    if p < unary_level() {
        lemma_level_climb(tokens, i, p + 1);
        lemma_progress(tokens, i, p + 1);
        match unary(tokens, i) {
            Some((value, next)) => {
                lemma_progress(tokens, i, unary_level());
                assert(climb(tokens, next, value, unary_level()) == Some((value, next)));
                if p + 1 < unary_level() {
                    assert(climb(tokens, next, value, p + 1) == rest(tokens, next, value, p + 1));
                }
            },
            None => {},
        }
    }
}

/// A fetch brings the compiler to the next position of the tokens.
pub proof fn lemma_fetch_linked(s: CompilerView, tokens: Seq<Token>, i: int)
    requires
        s.wf(),
        -1 <= i,
        i + 1 <= tokens.len(),
        tokens.skip(i + 1) == parser_tokens(s.scanner.source, s.scanner.current as int),
    ensures
        linked(s.fetch(), tokens, i + 1),
    decreases s.scanner.source.len() - s.scanner.current,
{
    let src = s.scanner.source;
    let pos = s.scanner.current as int;
    let token = token_at(src, pos);
    let scanned = CompilerView {
        scanner: s.scanner.at(trivia_end(src, pos), token_end(src, pos)),
        current: token,
        ..s
    };
    lemma_scan_step(s.scanner);
    lemma_token_end_bounds(src, pos);
    let rest_tokens = parser_tokens(src, pos);
    if token.kind == TokenKind::Eof {
        assert(rest_tokens == seq![token]);
        assert(tokens.skip(i + 1).len() == 1);
        assert(tokens.skip(i + 1)[0] == token);
    } else if token.kind == TokenKind::Error {
        lemma_fetch_linked(scanned.report(token, token.message), tokens, i);
    } else {
        let after = parser_tokens(src, token_end(src, pos));
        assert(rest_tokens == seq![token] + after);
        assert(tokens.skip(i + 1)[0] == token);
        assert(tokens.skip(i + 2) =~= tokens.skip(i + 1).skip(1));
        assert(tokens.skip(i + 1).skip(1) =~= after);
    }
}

/// An advance from a token that is not the end of input brings the
/// compiler to the next position of the tokens.
pub proof fn lemma_advance_linked(s: CompilerView, tokens: Seq<Token>, i: int)
    requires
        linked(s, tokens, i),
        s.current.kind != TokenKind::Eof,
    ensures
        linked(s.advance(), tokens, i + 1),
        s.advance().previous == tokens[i],
        s.advance().chunk == s.chunk,
{
    lemma_advance(s);
    lemma_fetch_linked(CompilerView { previous: s.current, ..s }, tokens, i);
}

/// Compiling a prefix is sound: if it ends without error, the grammar
/// reads a unary at the previous token, the compiler stands after it, and
/// the code that was added pushes what the unary denotes.
pub proof fn lemma_sound_prefix(
    a: CompilerView,
    tokens: Seq<Token>,
    i: int,
    stack: Seq<Value>,
)
    requires
        linked(a, tokens, i + 1),
        0 <= i,
        a.previous == tokens[i],
        !a.panic_mode,
        rule_of(a.previous.kind).prefix != ParseRuleFn::FnNone,
        !a.translate(rule_of(a.previous.kind).prefix).had_error,
    ensures
        ({
            let r = a.translate(rule_of(a.previous.kind).prefix);
            &&& unary(tokens, i) is Some
            &&& linked(r, tokens, (unary(tokens, i)->0).1)
            &&& !r.panic_mode
            &&& a.leads_to(r)
            &&& execute(r.chunk, a.chunk.code.len() as int, r.chunk.code.len() as int, stack)
                == Some(stack.push((unary(tokens, i)->0).0))
            &&& tally(r, tokens, (unary(tokens, i)->0).1) == tally(a, tokens, i)
            &&& addressable(a) ==> addressable(r)
        }),
    decreases a.measure(), 3int,
{
    let kind = a.previous.kind;
    let prefix = rule_of(kind).prefix;
    let r = a.translate(prefix);
    let base = a.chunk.code.len() as int;
    lemma_translate(a, prefix);
    if kind == TokenKind::Number {
        let value = Value::Literal { start: a.previous.start, length: a.previous.length };
        let (added, operand) = a.make_constant(value);
        assert(r == added.emit(encode(OpCode::OpConstant)).emit(operand));
        assert(a.chunk.constants.len() <= 255);
        assert(r.chunk.code.len() == base + 2);
        assert(r.chunk.constants[operand as int] == value);
        lemma_execute_constant(r.chunk, base, stack);
        assert(primary(tokens, i) == Some((value, i + 1)));
    } else if kind == TokenKind::LeftParen {
        let inner = a.expression();
        lemma_expression(a);
        lemma_consume_leads(inner, TokenKind::RightParen, expect_right_paren());
        assert(r == inner.consume(TokenKind::RightParen, expect_right_paren()));
        assert(!inner.had_error);
        assert(inner == a.parse_precedence(Precedence::PrecAssignment));
        lemma_sound_parse(a, tokens, i + 1, Precedence::PrecAssignment, stack);
        let (value, close) = level(tokens, i + 1, term_level())->0;
        assert(inner.current.kind == TokenKind::RightParen);
        lemma_advance_linked(inner, tokens, close);
        assert(r.chunk == inner.chunk);
        assert(primary(tokens, i) == Some((value, close + 1)));
    } else {
        assert(kind == TokenKind::Minus);
        let operand = a.parse_precedence(Precedence::PrecUnary);
        lemma_parse_precedence(a, Precedence::PrecUnary);
        lemma_emit_simple(operand, OpCode::OpNegate);
        assert(r == operand.emit(encode(OpCode::OpNegate)));
        assert(!operand.had_error);
        lemma_sound_parse(a, tokens, i + 1, Precedence::PrecUnary, stack);
        let (value, next) = level(tokens, i + 1, unary_level())->0;
        assert(unary(tokens, i + 1) == Some((value, next)));
        let middle = operand.chunk.code.len() as int;
        assert(continues(operand.chunk, r.chunk));
        lemma_execute_continues(operand.chunk, r.chunk, base, middle, stack);
        lemma_execute_negate(r.chunk, middle, stack, value);
        lemma_execute_compose(r.chunk, base, middle, middle + 1, stack);
        assert(unary(tokens, i) == Some((Value::Negate(Box::new(value)), next)));
    }
}

/// Compiling at a level of precedence is sound: if it ends without error,
/// the grammar reads an operand of the level at the current token, the
/// compiler stands after it at a token that binds less strongly than the
/// level, and the code that was added pushes what the operand denotes.
pub proof fn lemma_sound_parse(
    s: CompilerView,
    tokens: Seq<Token>,
    i: int,
    min: Precedence,
    stack: Seq<Value>,
)
    requires
        linked(s, tokens, i),
        !s.panic_mode,
        min != Precedence::PrecNone,
        !s.parse_precedence(min).had_error,
    ensures
        ({
            let r = s.parse_precedence(min);
            let read = level(tokens, i, grammar_level(min));
            &&& read is Some
            &&& linked(r, tokens, (read->0).1)
            &&& !r.panic_mode
            &&& s.leads_to(r)
            &&& execute(r.chunk, s.chunk.code.len() as int, r.chunk.code.len() as int, stack)
                == Some(stack.push((read->0).0))
            &&& precedence_order(rule_of(r.current.kind).precendence) < precedence_order(min)
            &&& tally(r, tokens, (read->0).1) == tally(s, tokens, i)
            &&& addressable(s) ==> addressable(r)
        }),
    decreases s.measure(), 0int,
{
    lemma_parse_precedence(s, min);
    lemma_advance(s);
    lemma_advance_leads(s);
    let advanced = s.advance();
    let prefix = rule_of(advanced.previous.kind).prefix;
    let r = s.parse_precedence(min);
    if prefix == ParseRuleFn::FnNone {
        lemma_report(advanced, advanced.previous, expect_expression());
        assert(false);
    } else {
        let operand = advanced.translate(prefix);
        lemma_translate(advanced, prefix);
        lemma_infix_loop(operand, min);
        assert(r == operand.infix_loop(min));
        assert(!operand.had_error);
        assert(!advanced.had_error);
        assert(!advanced.panic_mode);
        lemma_advance_linked(s, tokens, i);
        lemma_sound_prefix(advanced, tokens, i, stack);
        let (value, next) = unary(tokens, i)->0;
        let base = s.chunk.code.len() as int;
        lemma_sound_loop(operand, tokens, next, min, base, stack, value);
        lemma_level_climb(tokens, i, grammar_level(min));
        lemma_leads_to_transitive(s, advanced, operand);
        lemma_leads_to_transitive(s, operand, r);
    }
}

/// The level of a binary operator.
pub open spec fn operator_level(kind: TokenKind) -> int {
    precedence_order(rule_of(kind).precendence) as int
}

/// Compiling a binary operator is sound: if it ends without error, the
/// grammar reads a right operand of the next level after the operator,
/// the compiler stands after it at a token that binds no more strongly
/// than the operator, and the code from `base` on pushes what the operator
/// makes of the two operands, given that it pushed the left one before.
pub proof fn lemma_sound_binary(
    a: CompilerView,
    tokens: Seq<Token>,
    i: int,
    base: int,
    stack: Seq<Value>,
    left: Value,
)
    requires
        linked(a, tokens, i + 1),
        0 <= i,
        a.previous == tokens[i],
        binary_opcode(a.previous.kind) is Some,
        !a.panic_mode,
        0 <= base <= a.chunk.code.len(),
        execute(a.chunk, base, a.chunk.code.len() as int, stack) == Some(stack.push(left)),
        !a.binary().had_error,
    ensures
        ({
            let r = a.binary();
            let read = level(tokens, i + 1, operator_level(tokens[i].kind) + 1);
            &&& read is Some
            &&& i + 1 < (read->0).1
            &&& linked(r, tokens, (read->0).1)
            &&& !r.panic_mode
            &&& a.leads_to(r)
            &&& execute(r.chunk, base, r.chunk.code.len() as int, stack) == Some(
                stack.push(binary_value(tokens[i].kind, left, (read->0).0)),
            )
            &&& operator_level(r.current.kind) <= operator_level(tokens[i].kind)
            &&& tally(r, tokens, (read->0).1) == tally(a, tokens, i + 1)
            &&& addressable(a) ==> addressable(r)
        }),
    decreases a.measure(), 2int,
{
    let kind = a.previous.kind;
    let p = operator_level(kind);
    let above = next_precedence(rule_of(kind).precendence);
    let operand = a.parse_precedence(above);
    let op = binary_opcode(kind)->0;
    let r = a.binary();
    lemma_parse_precedence(a, above);
    lemma_emit_simple(operand, op);
    assert(r == operand.emit(encode(op)));
    lemma_leads_to_transitive(a, operand, r);
    assert(!operand.had_error);
    let pushed = stack.push(left);
    lemma_sound_parse(a, tokens, i + 1, above, pushed);
    assert(grammar_level(above) == p + 1);
    assert(precedence_order(above) == p + 1);
    let (right, next) = level(tokens, i + 1, p + 1)->0;
    lemma_progress(tokens, i + 1, p + 1);
    let start = a.chunk.code.len() as int;
    let middle = operand.chunk.code.len() as int;
    assert(continues(a.chunk, operand.chunk));
    lemma_execute_continues(a.chunk, operand.chunk, base, start, stack);
    lemma_execute_compose(operand.chunk, base, start, middle, stack);
    assert(execute(operand.chunk, base, middle, stack) == Some(pushed.push(right)));
    assert(continues(operand.chunk, r.chunk));
    lemma_execute_continues(operand.chunk, r.chunk, base, middle, stack);
    lemma_execute_binary(r.chunk, middle, op, stack, left, right);
    lemma_execute_compose(r.chunk, base, middle, middle + 1, stack);
    assert(apply_binary(op, left, right) == binary_value(kind, left, right));
    assert(r.current == operand.current);
    assert(r.scanner == operand.scanner);
}

/// Compiling the operators after an operand is sound: if it ends without
/// error, the grammar reads the operators of the level and of those above
/// it, the compiler stands after them at a token that binds less strongly
/// than the level, and the code from `base` on pushes what the whole
/// denotes, given that it pushed the left operand before.
pub proof fn lemma_sound_loop(
    s: CompilerView,
    tokens: Seq<Token>,
    i: int,
    min: Precedence,
    base: int,
    stack: Seq<Value>,
    left: Value,
)
    requires
        linked(s, tokens, i),
        !s.panic_mode,
        min != Precedence::PrecNone,
        0 <= base <= s.chunk.code.len(),
        execute(s.chunk, base, s.chunk.code.len() as int, stack) == Some(stack.push(left)),
        !s.infix_loop(min).had_error,
    ensures
        ({
            let r = s.infix_loop(min);
            let read = climb(tokens, i, left, grammar_level(min));
            &&& read is Some
            &&& linked(r, tokens, (read->0).1)
            &&& !r.panic_mode
            &&& execute(r.chunk, base, r.chunk.code.len() as int, stack) == Some(
                stack.push((read->0).0),
            )
            &&& precedence_order(rule_of(r.current.kind).precendence) < precedence_order(min)
            &&& tally(r, tokens, (read->0).1) == tally(s, tokens, i)
            &&& addressable(s) ==> addressable(r)
        }),
    decreases s.measure(), 4int,
{
    lemma_infix_loop(s, min);
    let m = grammar_level(min);
    let kind = s.current.kind;
    let p = operator_level(kind);
    if precedence_order(min) <= p {
        lemma_advance(s);
        lemma_advance_leads(s);
        let advanced = s.advance();
        lemma_advance_linked(s, tokens, i);
        assert(rule_of(advanced.previous.kind).infix == ParseRuleFn::FnBinary);
        let applied = advanced.binary();
        assert(advanced.translate(ParseRuleFn::FnBinary) == applied);
        lemma_translate(advanced, ParseRuleFn::FnBinary);
        lemma_infix_loop(applied, min);
        let r = s.infix_loop(min);
        assert(r == applied.infix_loop(min));
        assert(!applied.had_error);
        assert(!advanced.had_error);
        assert(!advanced.panic_mode);
        lemma_sound_binary(advanced, tokens, i, base, stack, left);
        let (right, next) = level(tokens, i + 1, p + 1)->0;
        let joined = binary_value(kind, left, right);
        lemma_sound_loop(applied, tokens, next, min, base, stack, joined);
        assert(applied.current == tokens[next]);
        assert(operator_of(kind, p));
        assert forall|q: int| p < q < unary_level() implies !operator_of(tokens[next].kind, q) by {
            assert(operator_level(tokens[next].kind) <= p);
        }
        lemma_climb_step(tokens, i, left, m, next, right);
    } else {
        assert forall|q: int| m <= q < unary_level() implies !operator_of(tokens[i].kind, q) by {
            if operator_of(tokens[i].kind, q) {
                assert(operator_level(tokens[i].kind) == q);
            }
        }
        lemma_climb_stop(tokens, i, left, m);
    }
}

/// Where the token at `i` is no operator of a level from `m` up, no
/// operator is read.
pub proof fn lemma_climb_stop(tokens: Seq<Token>, i: int, left: Value, m: int)
    requires
        0 <= i < tokens.len(),
        term_level() <= m <= unary_level(),
        forall|p: int| m <= p < unary_level() ==> !operator_of(tokens[i].kind, p),
    ensures
        climb(tokens, i, left, m) == Some((left, i)),
    decreases unary_level() - m,
{
    if m < unary_level() {
        lemma_climb_stop(tokens, i, left, m + 1);
    }
}

/// Where the token at `i` is an operator of a level from `m` up, its
/// right operand ends before `next`, and the token at `next` is no
/// operator of a higher level than that of the token at `i`: reading the
/// operators from `i` with a left operand is reading them from `next`
/// with what the operator makes of the two operands.
pub proof fn lemma_climb_step(
    tokens: Seq<Token>,
    i: int,
    left: Value,
    m: int,
    next: int,
    right: Value,
)
    requires
        0 <= i < tokens.len(),
        i < next < tokens.len(),
        term_level() <= m <= unary_level(),
        exists|p: int|
            #![trigger operator_of(tokens[i].kind, p)]
            m <= p < unary_level() && operator_of(tokens[i].kind, p) && level(tokens, i + 1, p + 1)
                == Some((right, next)) && forall|q: int|
                p < q < unary_level() ==> !operator_of(tokens[next].kind, q),
    ensures
        climb(tokens, i, left, m) == climb(
            tokens,
            next,
            binary_value(tokens[i].kind, left, right),
            m,
        ),
{
    let joined = binary_value(tokens[i].kind, left, right);
    let kind = tokens[i].kind;
    if operator_of(kind, factor_level()) {
        assert(level(tokens, i + 1, unary_level()) == Some((right, next)));
        assert(climb(tokens, i, left, unary_level()) == Some((left, i)));
        assert(climb(tokens, next, joined, unary_level()) == Some((joined, next)));
        assert(climb(tokens, i, left, factor_level()) == rest(tokens, i, left, factor_level()));
        assert(climb(tokens, next, joined, factor_level()) == rest(
            tokens,
            next,
            joined,
            factor_level(),
        ));
        assert(rest(tokens, i, left, factor_level()) == rest(tokens, next, joined, factor_level()));
    } else {
        assert(operator_of(kind, term_level()));
        assert(m == term_level());
        assert(level(tokens, i + 1, factor_level()) == Some((right, next)));
        assert(!operator_of(tokens[next].kind, factor_level()));
        assert(climb(tokens, i, left, unary_level()) == Some((left, i)));
        assert(climb(tokens, next, joined, unary_level()) == Some((joined, next)));
        assert(climb(tokens, i, left, factor_level()) == Some((left, i)));
        assert(climb(tokens, next, joined, factor_level()) == Some((joined, next)));
        assert(rest(tokens, i, left, term_level()) == rest(tokens, next, joined, term_level()));
    }
}

/// A source that compiles without error runs without error up to its
/// return, and the number that the machine hands out is the one that the
/// source denotes by the grammar: operators of one level group to the
/// left, factors bind before terms, and a prefix minus binds before both.
pub proof fn lemma_interpret_denotes(vm: VmView, source: Seq<u8>, disassemble: bool)
    requires
        source.len() < usize::MAX,
    ensures
        ({
            let compiled = CompilerView::initial(source).compile(ChunkView::empty());
            let (after, result) = vm.interpret(source, disassemble);
            &&& compiled.had_error ==> result == InterpretResult::InterpretCompilerError
            &&& !compiled.had_error ==> {
                &&& result == InterpretResult::InterpretOk
                &&& denotation(source) is Some
                &&& after.printed == denotation(source)
                &&& after.stack == Seq::<Value>::empty()
            }
        }),
{
    let given = CompilerView::initial(source);
    let compiled = given.compile(ChunkView::empty());
    if !compiled.had_error {
        let tokens = parser_tokens(source, 0);
        let empty = Seq::<Value>::empty();
        lemma_line_col_start(source);
        assert(given.wf());
        assert(given == CompilerView { chunk: ChunkView::empty(), ..given });
        lemma_advance(given);
        lemma_advance_leads(given);
        let primed = given.advance();
        assert(tokens.skip(0) =~= tokens);
        lemma_fetch_linked(CompilerView { previous: given.current, ..given }, tokens, -1);
        lemma_expression(primed);
        let parsed = primed.expression();
        lemma_consume_leads(parsed, TokenKind::Eof, expect_end());
        let closed = parsed.consume(TokenKind::Eof, expect_end());
        lemma_emit_simple(closed, OpCode::OpReturn);
        assert(compiled == closed.emit(encode(OpCode::OpReturn)));
        assert(!closed.had_error);
        assert(!parsed.had_error);
        assert(!primed.had_error);
        assert(!primed.panic_mode);
        assert(parsed == primed.parse_precedence(Precedence::PrecAssignment));
        lemma_sound_parse(primed, tokens, 0, Precedence::PrecAssignment, empty);
        let (value, end) = level(tokens, 0, term_level())->0;
        assert(parsed.current.kind == TokenKind::Eof);
        lemma_advance(parsed);
        assert(closed.chunk == parsed.chunk);
        let last = parsed.chunk.code.len() as int;
        assert(primed.chunk.code.len() == 0);
        assert(continues(parsed.chunk, compiled.chunk));
        lemma_execute_continues(parsed.chunk, compiled.chunk, 0, last, empty);
        let loaded = VmView {
            chunk: compiled.chunk,
            ip: 0,
            stack: empty,
            diagnostics: compiled.diagnostics,
            printed: None,
            trace: Seq::empty(),
        };
        lemma_run_to_return(loaded, last, value, disassemble);
        assert(evaluate(tokens) == Some(value));
    }
}

} // verus!
