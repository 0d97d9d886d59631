//! The code that the compiler writes depends on the kinds of the tokens
//! alone: not on where they stand, nor on the blanks and comments between
//! them.

use crate::chunk::ChunkView;
use crate::common::{encode, OpCode};
use crate::compiler::{
    binary_opcode, expect_end, expect_expression, expect_right_paren, lemma_advance,
    lemma_infix_loop, lemma_number, lemma_parse_precedence, lemma_scan_step, lemma_translate,
    next_precedence, precedence_order, rule_of, CompilerView, ParseRuleFn, Precedence,
};
use crate::scanner::{lemma_token_end_bounds, token_at, token_end, trivia_end, Token, TokenKind};
use vstd::prelude::*;

verus! {

/// The kinds of the tokens that a scanner at `pos` makes, up to and with
/// the first end of input.
pub open spec fn kinds_from(src: Seq<u8>, pos: int) -> Seq<TokenKind>
    decreases src.len() - pos,
    when 0 <= pos <= src.len()
{
    let token = token_at(src, pos);
    if token.kind == TokenKind::Eof {
        seq![token.kind]
    } else {
        proof {
            lemma_token_end_bounds(src, pos);
        }
        seq![token.kind] + kinds_from(src, token_end(src, pos))
    }
}

/// Two compilers, each over a source of its own, that agree in all that
/// decides what is written: the kinds of the tokens in their windows and
/// of those still to come, the code written so far, the number of
/// constants, and whether an error has been noted and reported.
pub open spec fn alike(a: CompilerView, b: CompilerView) -> bool {
    &&& a.wf()
    &&& b.wf()
    &&& a.current.kind == b.current.kind
    &&& a.previous.kind == b.previous.kind
    &&& a.had_error == b.had_error
    &&& a.panic_mode == b.panic_mode
    &&& a.chunk.code == b.chunk.code
    &&& a.chunk.constants.len() == b.chunk.constants.len()
    &&& a.diagnostics.len() == b.diagnostics.len()
    &&& kinds_from(a.scanner.source, a.scanner.current as int) == kinds_from(
        b.scanner.source,
        b.scanner.current as int,
    )
}

/// A report at tokens of one kind keeps two compilers alike.
pub proof fn lemma_alike_report(
    a: CompilerView,
    b: CompilerView,
    at: Token,
    bt: Token,
    am: &'static str,
    bm: &'static str,
)
    requires
        alike(a, b),
    ensures
        alike(a.report(at, am), b.report(bt, bm)),
{
}

/// Writing the same byte keeps two compilers alike.
pub proof fn lemma_alike_emit(a: CompilerView, b: CompilerView, byte: u8)
    requires
        alike(a, b),
    ensures
        alike(a.emit(byte), b.emit(byte)),
{
}

/// A fetch keeps two compilers alike.
pub proof fn lemma_alike_fetch(a: CompilerView, b: CompilerView)
    requires
        alike(CompilerView { current: b.current, ..a }, b),
    ensures
        alike(a.fetch(), b.fetch()),
    decreases a.scanner.source.len() - a.scanner.current,
{
    let asrc = a.scanner.source;
    let apos = a.scanner.current as int;
    let bsrc = b.scanner.source;
    let bpos = b.scanner.current as int;
    let at = token_at(asrc, apos);
    let bt = token_at(bsrc, bpos);
    lemma_scan_step(a.scanner);
    lemma_scan_step(b.scanner);
    lemma_token_end_bounds(asrc, apos);
    lemma_token_end_bounds(bsrc, bpos);
    let akinds = kinds_from(asrc, apos);
    let bkinds = kinds_from(bsrc, bpos);
    assert(akinds[0] == at.kind);
    assert(bkinds[0] == bt.kind);
    let ascanned = CompilerView {
        scanner: a.scanner.at(trivia_end(asrc, apos), token_end(asrc, apos)),
        current: at,
        ..a
    };
    let bscanned = CompilerView {
        scanner: b.scanner.at(trivia_end(bsrc, bpos), token_end(bsrc, bpos)),
        current: bt,
        ..b
    };
    if at.kind == TokenKind::Eof {
        assert(kinds_from(asrc, asrc.len() as int) =~= seq![TokenKind::Eof]) by {
            lemma_token_end_bounds(asrc, asrc.len() as int);
        }
        assert(kinds_from(bsrc, bsrc.len() as int) =~= seq![TokenKind::Eof]) by {
            lemma_token_end_bounds(bsrc, bsrc.len() as int);
        }
    } else {
        let arest = kinds_from(asrc, token_end(asrc, apos));
        let brest = kinds_from(bsrc, token_end(bsrc, bpos));
        assert(akinds == seq![at.kind] + arest);
        assert(bkinds == seq![bt.kind] + brest);
        assert(arest =~= akinds.skip(1));
        assert(brest =~= bkinds.skip(1));
        if at.kind == TokenKind::Error {
            lemma_alike_fetch(
                ascanned.report(at, at.message),
                bscanned.report(bt, bt.message),
            );
        }
    }
}

/// An advance keeps two compilers alike.
pub proof fn lemma_alike_advance(a: CompilerView, b: CompilerView)
    requires
        alike(a, b),
    ensures
        alike(a.advance(), b.advance()),
{
    lemma_alike_fetch(
        CompilerView { previous: a.current, ..a },
        CompilerView { previous: b.current, ..b },
    );
}

/// A consume keeps two compilers alike.
pub proof fn lemma_alike_consume(
    a: CompilerView,
    b: CompilerView,
    kind: TokenKind,
    message: &'static str,
)
    requires
        alike(a, b),
    ensures
        alike(a.consume(kind, message), b.consume(kind, message)),
{
    lemma_alike_advance(a, b);
}

/// Compiling a number keeps two compilers alike.
pub proof fn lemma_alike_number(a: CompilerView, b: CompilerView)
    requires
        alike(a, b),
    ensures
        alike(a.number(), b.number()),
{
    lemma_number(a);
    lemma_number(b);
}

/// Compiling at a level of precedence keeps two compilers alike.
pub proof fn lemma_alike_parse(a: CompilerView, b: CompilerView, min: Precedence)
    requires
        alike(a, b),
        min != Precedence::PrecNone,
    ensures
        alike(a.parse_precedence(min), b.parse_precedence(min)),
    decreases a.measure(), 0int,
{
    lemma_parse_precedence(a, min);
    lemma_parse_precedence(b, min);
    lemma_advance(a);
    lemma_advance(b);
    lemma_alike_advance(a, b);
    let ahead = a.advance();
    let bhead = b.advance();
    let prefix = rule_of(ahead.previous.kind).prefix;
    if prefix == ParseRuleFn::FnNone {
        lemma_alike_report(
            ahead,
            bhead,
            ahead.previous,
            bhead.previous,
            expect_expression(),
            expect_expression(),
        );
    } else {
        lemma_alike_translate(ahead, bhead, prefix);
        lemma_translate(ahead, prefix);
        lemma_alike_loop(ahead.translate(prefix), bhead.translate(prefix), min);
    }
}

/// Compiling the operators after an operand keeps two compilers alike.
pub proof fn lemma_alike_loop(a: CompilerView, b: CompilerView, min: Precedence)
    requires
        alike(a, b),
        min != Precedence::PrecNone,
    ensures
        alike(a.infix_loop(min), b.infix_loop(min)),
    decreases a.measure(), 4int,
{
    lemma_infix_loop(a, min);
    lemma_infix_loop(b, min);
    if precedence_order(min) <= precedence_order(rule_of(a.current.kind).precendence) {
        lemma_advance(a);
        lemma_alike_advance(a, b);
        let ahead = a.advance();
        let bhead = b.advance();
        let infix = rule_of(ahead.previous.kind).infix;
        lemma_alike_translate(ahead, bhead, infix);
        lemma_translate(ahead, infix);
        lemma_alike_loop(ahead.translate(infix), bhead.translate(infix), min);
    }
}

/// Running a parse function keeps two compilers alike.
pub proof fn lemma_alike_translate(a: CompilerView, b: CompilerView, rule: ParseRuleFn)
    requires
        alike(a, b),
        rule == ParseRuleFn::FnBinary ==> binary_opcode(a.previous.kind) is Some,
    ensures
        alike(a.translate(rule), b.translate(rule)),
    decreases a.measure(), 3int,
{
    match rule {
        ParseRuleFn::FnNone => {},
        ParseRuleFn::FnNumber => {
            lemma_alike_number(a, b);
        },
        ParseRuleFn::FnUnary => {
            lemma_alike_unary(a, b);
        },
        ParseRuleFn::FnBinary => {
            lemma_alike_binary(a, b);
        },
        ParseRuleFn::FnGrouping => {
            lemma_alike_grouping(a, b);
        },
    }
}

/// Compiling a prefix operator keeps two compilers alike.
pub proof fn lemma_alike_unary(a: CompilerView, b: CompilerView)
    requires
        alike(a, b),
    ensures
        alike(a.unary(), b.unary()),
    decreases a.measure(), 2int,
{
    lemma_alike_parse(a, b, Precedence::PrecUnary);
    let aoperand = a.parse_precedence(Precedence::PrecUnary);
    let boperand = b.parse_precedence(Precedence::PrecUnary);
    lemma_alike_emit(aoperand, boperand, encode(OpCode::OpNegate));
}

/// Compiling a binary operator keeps two compilers alike.
pub proof fn lemma_alike_binary(a: CompilerView, b: CompilerView)
    requires
        alike(a, b),
        binary_opcode(a.previous.kind) is Some,
    ensures
        alike(a.binary(), b.binary()),
    decreases a.measure(), 2int,
{
    let above = next_precedence(rule_of(a.previous.kind).precendence);
    lemma_alike_parse(a, b, above);
    let aoperand = a.parse_precedence(above);
    let boperand = b.parse_precedence(above);
    let op = binary_opcode(a.previous.kind)->0;
    lemma_alike_emit(aoperand, boperand, encode(op));
}

/// Compiling a group keeps two compilers alike.
pub proof fn lemma_alike_grouping(a: CompilerView, b: CompilerView)
    requires
        alike(a, b),
    ensures
        alike(a.grouping(), b.grouping()),
    decreases a.measure(), 2int,
{
    lemma_alike_parse(a, b, Precedence::PrecAssignment);
    lemma_alike_consume(
        a.expression(),
        b.expression(),
        TokenKind::RightParen,
        expect_right_paren(),
    );
}

/// Two sources whose tokens have the same kinds in the same order compile
/// to the same code, with as many constants, and both with or both
/// without success. Blanks and comments between tokens, and with them the
/// lines and columns, make no difference to the code.
pub proof fn lemma_code_depends_on_kinds(first: Seq<u8>, second: Seq<u8>)
    requires
        first.len() < usize::MAX,
        second.len() < usize::MAX,
        kinds_from(first, 0) == kinds_from(second, 0),
    ensures
        ({
            let a = CompilerView::initial(first).compile(ChunkView::empty());
            let b = CompilerView::initial(second).compile(ChunkView::empty());
            &&& a.chunk.code == b.chunk.code
            &&& a.chunk.constants.len() == b.chunk.constants.len()
            &&& a.had_error == b.had_error
        }),
{
    let a = CompilerView::initial(first);
    let b = CompilerView::initial(second);
    assert(a == CompilerView { chunk: ChunkView::empty(), ..a });
    assert(b == CompilerView { chunk: ChunkView::empty(), ..b });
    assert(alike(a, b));
    lemma_alike_advance(a, b);
    let aprimed = a.advance();
    let bprimed = b.advance();
    lemma_alike_parse(aprimed, bprimed, Precedence::PrecAssignment);
    let aparsed = aprimed.expression();
    let bparsed = bprimed.expression();
    lemma_alike_consume(aparsed, bparsed, TokenKind::Eof, expect_end());
    lemma_alike_emit(
        aparsed.consume(TokenKind::Eof, expect_end()),
        bparsed.consume(TokenKind::Eof, expect_end()),
        encode(OpCode::OpReturn),
    );
}

} // verus!
