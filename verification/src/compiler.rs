//! The compiler: a parser by operator precedence that emits bytecode as it
//! reads, with no tree in between.
//!
//! What each step does to the compiler is a function on a model of its
//! state ([`CompilerView`]); each method is proved to compute that function.

use crate::chunk::{
    add_constant, copy_chunk, init_chunk, lemma_instructions_with_constant,
    lemma_instructions_write_constant, lemma_instructions_write_simple, write_chunk_u8, Chunk,
    ChunkView,
};
use crate::common::{encode, opcode_to_u8, OpCode};
use crate::scanner::{
    clean_path, init_scanner, lemma_clean_path_transitive, lemma_lexeme_end_bounds,
    lemma_line_col_bounds, lemma_token_end_bounds, lemma_trivia_end_bounds, token_at, token_end,
    trivia_end, Scanner, ScannerView, Token, TokenKind, TokenScanner,
};
use crate::text::{decimal, push_byte, push_bytes, push_decimal};
use crate::value::Value;
use vstd::prelude::*;
use vstd::string::StringSliceAdditionalSpecFns;

verus! {

/// The levels of binding strength, weakest first.
#[derive(Debug, PartialEq, Eq, Hash, Clone, Copy, Structural)]
pub enum Precedence {
    PrecNone,
    PrecAssignment,
    PrecOr,
    PrecAnd,
    PrecEquality,
    PrecComparison,
    PrecTerm,
    PrecFactor,
    PrecUnary,
    PrecCall,
    PrecPrimary,
}

/// The parse functions that a rule can name.
#[derive(Debug, PartialEq, Eq, Hash, Clone, Copy, Structural)]
pub enum ParseRuleFn {
    FnNone,
    FnNumber,
    FnUnary,
    FnBinary,
    FnGrouping,
}

/// The rule of a kind of token: what parses it at the start of an
/// expression, what parses it after an operand, and how strongly it binds
/// as an operator.
#[derive(Debug, PartialEq, Eq, Clone, Copy, Structural)]
pub struct ParseRule {
    pub prefix: ParseRuleFn,
    pub infix: ParseRuleFn,
    pub precendence: Precedence,
}

/// The precedence levels by rank: the level at position `n` has rank `n`.
pub type PrecTable = Vec<Precedence>;

/// The rules by kind of token: the rule at position `kind_index(kind)` is
/// that of `kind`.
pub type ParseRuleFnTable = Vec<ParseRule>;

/// The rank of a level of precedence, from 0 for `PrecNone` to 10 for
/// `PrecPrimary`.
pub open spec fn precedence_order(prec: Precedence) -> u8 {
    match prec {
        Precedence::PrecNone => 0,
        Precedence::PrecAssignment => 1,
        Precedence::PrecOr => 2,
        Precedence::PrecAnd => 3,
        Precedence::PrecEquality => 4,
        Precedence::PrecComparison => 5,
        Precedence::PrecTerm => 6,
        Precedence::PrecFactor => 7,
        Precedence::PrecUnary => 8,
        Precedence::PrecCall => 9,
        Precedence::PrecPrimary => 10,
    }
}

/// The levels of precedence in the order of their ranks.
pub open spec fn precedence_ladder() -> Seq<Precedence> {
    seq![
        Precedence::PrecNone,
        Precedence::PrecAssignment,
        Precedence::PrecOr,
        Precedence::PrecAnd,
        Precedence::PrecEquality,
        Precedence::PrecComparison,
        Precedence::PrecTerm,
        Precedence::PrecFactor,
        Precedence::PrecUnary,
        Precedence::PrecCall,
        Precedence::PrecPrimary,
    ]
}

/// The rule that parses nothing and binds nothing.
pub open spec fn rule_none() -> ParseRule {
    ParseRule {
        prefix: ParseRuleFn::FnNone,
        infix: ParseRuleFn::FnNone,
        precendence: Precedence::PrecNone,
    }
}

/// The rule of a kind of token.
pub open spec fn rule_of(kind: TokenKind) -> ParseRule {
    match kind {
        TokenKind::LeftParen => ParseRule {
            prefix: ParseRuleFn::FnGrouping,
            infix: ParseRuleFn::FnNone,
            precendence: Precedence::PrecNone,
        },
        TokenKind::Minus => ParseRule {
            prefix: ParseRuleFn::FnUnary,
            infix: ParseRuleFn::FnBinary,
            precendence: Precedence::PrecTerm,
        },
        TokenKind::Plus => ParseRule {
            prefix: ParseRuleFn::FnNone,
            infix: ParseRuleFn::FnBinary,
            precendence: Precedence::PrecTerm,
        },
        TokenKind::Slash => ParseRule {
            prefix: ParseRuleFn::FnNone,
            infix: ParseRuleFn::FnBinary,
            precendence: Precedence::PrecFactor,
        },
        TokenKind::Star => ParseRule {
            prefix: ParseRuleFn::FnNone,
            infix: ParseRuleFn::FnBinary,
            precendence: Precedence::PrecFactor,
        },
        TokenKind::Number => ParseRule {
            prefix: ParseRuleFn::FnNumber,
            infix: ParseRuleFn::FnNone,
            precendence: Precedence::PrecNone,
        },
        _ => rule_none(),
    }
}

/// The position of a kind of token in the table of rules: its place in the
/// declaration of [`TokenKind`].
pub open spec fn kind_index(kind: TokenKind) -> int {
    match kind {
        TokenKind::LeftParen => 0,
        TokenKind::RightParen => 1,
        TokenKind::LeftBrace => 2,
        TokenKind::RightBrace => 3,
        TokenKind::Comma => 4,
        TokenKind::Dot => 5,
        TokenKind::Minus => 6,
        TokenKind::Plus => 7,
        TokenKind::Semicolon => 8,
        TokenKind::Slash => 9,
        TokenKind::Star => 10,
        TokenKind::Bang => 11,
        TokenKind::BangEqual => 12,
        TokenKind::Equal => 13,
        TokenKind::EqualEqual => 14,
        TokenKind::Greater => 15,
        TokenKind::GreaterEqual => 16,
        TokenKind::Less => 17,
        TokenKind::LessEqual => 18,
        TokenKind::Identifier => 19,
        TokenKind::String => 20,
        TokenKind::Number => 21,
        TokenKind::And => 22,
        TokenKind::Class => 23,
        TokenKind::Else => 24,
        TokenKind::False => 25,
        TokenKind::Fun => 26,
        TokenKind::For => 27,
        TokenKind::If => 28,
        TokenKind::Nil => 29,
        TokenKind::Or => 30,
        TokenKind::Print => 31,
        TokenKind::Return => 32,
        TokenKind::Super => 33,
        TokenKind::This => 34,
        TokenKind::True => 35,
        TokenKind::Var => 36,
        TokenKind::While => 37,
        TokenKind::Error => 38,
        TokenKind::Eof => 39,
    }
}

/// A table that holds, for every kind of token, its rule at its position.
pub open spec fn is_rule_table(table: Seq<ParseRule>) -> bool {
    &&& table.len() == 40
    &&& forall|kind: TokenKind| #[trigger] table[kind_index(kind)] == rule_of(kind)
}

/// Builds the table of precedence levels.
pub fn prec_table() -> (table: PrecTable)
    ensures
        table@ == precedence_ladder(),
{
    let mut table: PrecTable = Vec::new();
    table.push(Precedence::PrecNone);
    table.push(Precedence::PrecAssignment);
    table.push(Precedence::PrecOr);
    table.push(Precedence::PrecAnd);
    table.push(Precedence::PrecEquality);
    table.push(Precedence::PrecComparison);
    table.push(Precedence::PrecTerm);
    table.push(Precedence::PrecFactor);
    table.push(Precedence::PrecUnary);
    table.push(Precedence::PrecCall);
    table.push(Precedence::PrecPrimary);
    assert(table@ =~= precedence_ladder());
    table
}

/// The rank of a level of precedence.
pub fn precendence_to_order(prec: Precedence) -> (order: u8)
    ensures
        order == precedence_order(prec),
{
    match prec {
        Precedence::PrecNone => 0,
        Precedence::PrecAssignment => 1,
        Precedence::PrecOr => 2,
        Precedence::PrecAnd => 3,
        Precedence::PrecEquality => 4,
        Precedence::PrecComparison => 5,
        Precedence::PrecTerm => 6,
        Precedence::PrecFactor => 7,
        Precedence::PrecUnary => 8,
        Precedence::PrecCall => 9,
        Precedence::PrecPrimary => 10,
    }
}

/// The level of precedence with the given rank. There are eleven levels:
/// the rank is at most 10.
pub fn order_to_precendence(order: u8) -> (prec: Precedence)
    requires
        order <= 10,
    ensures
        prec == precedence_ladder()[order as int],
        precedence_order(prec) == order,
{
    match order {
        0 => Precedence::PrecNone,
        1 => Precedence::PrecAssignment,
        2 => Precedence::PrecOr,
        3 => Precedence::PrecAnd,
        4 => Precedence::PrecEquality,
        5 => Precedence::PrecComparison,
        6 => Precedence::PrecTerm,
        7 => Precedence::PrecFactor,
        8 => Precedence::PrecUnary,
        9 => Precedence::PrecCall,
        _ => Precedence::PrecPrimary,
    }
}

/// The position of a kind of token in the table of rules.
pub fn token_index(kind: TokenKind) -> (index: usize)
    ensures
        index == kind_index(kind),
        index < 40,
{
    match kind {
        TokenKind::LeftParen => 0,
        TokenKind::RightParen => 1,
        TokenKind::LeftBrace => 2,
        TokenKind::RightBrace => 3,
        TokenKind::Comma => 4,
        TokenKind::Dot => 5,
        TokenKind::Minus => 6,
        TokenKind::Plus => 7,
        TokenKind::Semicolon => 8,
        TokenKind::Slash => 9,
        TokenKind::Star => 10,
        TokenKind::Bang => 11,
        TokenKind::BangEqual => 12,
        TokenKind::Equal => 13,
        TokenKind::EqualEqual => 14,
        TokenKind::Greater => 15,
        TokenKind::GreaterEqual => 16,
        TokenKind::Less => 17,
        TokenKind::LessEqual => 18,
        TokenKind::Identifier => 19,
        TokenKind::String => 20,
        TokenKind::Number => 21,
        TokenKind::And => 22,
        TokenKind::Class => 23,
        TokenKind::Else => 24,
        TokenKind::False => 25,
        TokenKind::Fun => 26,
        TokenKind::For => 27,
        TokenKind::If => 28,
        TokenKind::Nil => 29,
        TokenKind::Or => 30,
        TokenKind::Print => 31,
        TokenKind::Return => 32,
        TokenKind::Super => 33,
        TokenKind::This => 34,
        TokenKind::True => 35,
        TokenKind::Var => 36,
        TokenKind::While => 37,
        TokenKind::Error => 38,
        TokenKind::Eof => 39,
    }
}

/// Builds the table of rules: one rule for each kind of token, in the order
/// of the kinds.
pub fn fn_table() -> (table: ParseRuleFnTable)
    ensures
        is_rule_table(table@),
{
    let none = ParseRule {
        prefix: ParseRuleFn::FnNone,
        infix: ParseRuleFn::FnNone,
        precendence: Precedence::PrecNone,
    };
    let mut table: ParseRuleFnTable = Vec::new();
    // LeftParen
    table.push(
        ParseRule {
            prefix: ParseRuleFn::FnGrouping,
            infix: ParseRuleFn::FnNone,
            precendence: Precedence::PrecNone,
        },
    );
    // RightParen, LeftBrace, RightBrace, Comma, Dot
    table.push(none);
    table.push(none);
    table.push(none);
    table.push(none);
    table.push(none);
    // Minus
    table.push(
        ParseRule {
            prefix: ParseRuleFn::FnUnary,
            infix: ParseRuleFn::FnBinary,
            precendence: Precedence::PrecTerm,
        },
    );
    // Plus
    table.push(
        ParseRule {
            prefix: ParseRuleFn::FnNone,
            infix: ParseRuleFn::FnBinary,
            precendence: Precedence::PrecTerm,
        },
    );
    // Semicolon
    table.push(none);
    // Slash
    table.push(
        ParseRule {
            prefix: ParseRuleFn::FnNone,
            infix: ParseRuleFn::FnBinary,
            precendence: Precedence::PrecFactor,
        },
    );
    // Star
    table.push(
        ParseRule {
            prefix: ParseRuleFn::FnNone,
            infix: ParseRuleFn::FnBinary,
            precendence: Precedence::PrecFactor,
        },
    );
    // Bang, BangEqual, Equal, EqualEqual, Greater, GreaterEqual, Less,
    // LessEqual, Identifier, String
    table.push(none);
    table.push(none);
    table.push(none);
    table.push(none);
    table.push(none);
    table.push(none);
    table.push(none);
    table.push(none);
    table.push(none);
    table.push(none);
    // Number
    table.push(
        ParseRule {
            prefix: ParseRuleFn::FnNumber,
            infix: ParseRuleFn::FnNone,
            precendence: Precedence::PrecNone,
        },
    );
    // The keywords, Error and Eof
    let mut i: usize = 22;
    while i < 40
        invariant
            22 <= i <= 40,
            table@.len() == i,
            none == rule_none(),
            forall|kind: TokenKind| kind_index(kind) < i ==> #[trigger] table@[kind_index(kind)]
                == rule_of(kind),
        decreases 40 - i,
    {
        table.push(none);
        i += 1;
    }
    table
}


/// A diagnostic: the token at which an error was found, and what was wrong.
#[derive(Debug, Clone, Copy)]
pub struct Diagnostic {
    pub token: Token,
    pub message: &'static str,
}

/// The compiler: the scanner it reads from, a window of two tokens, the
/// chunk it writes, and what it has reported.
pub struct Compiler {
    had_error: bool,
    panic_mode: bool,
    chunk: Chunk,
    scanner: Scanner,
    previous: Token,
    current: Token,
    rules: ParseRuleFnTable,
    diagnostics: Vec<Diagnostic>,
}

/// What a compilation gives: the chunk, whether no error was reported, and
/// the diagnostics in the order of their reports.
pub struct CompilerResult {
    pub chunk: Chunk,
    pub success: bool,
    pub diagnostics: Vec<Diagnostic>,
}

/// What a compiler holds.
pub struct CompilerView {
    pub had_error: bool,
    pub panic_mode: bool,
    pub chunk: ChunkView,
    pub scanner: ScannerView,
    pub previous: Token,
    pub current: Token,
    pub diagnostics: Seq<Diagnostic>,
}

/// The diagnostic for a token that begins no expression.
pub open spec fn expect_expression() -> &'static str {
    "Expect expression."
}

/// The diagnostic for a group that is not closed.
pub open spec fn expect_right_paren() -> &'static str {
    "Expect ')' after expression."
}

/// The diagnostic for tokens after the expression.
pub open spec fn expect_end() -> &'static str {
    "Expect end of expression."
}

/// The diagnostic for a constant that one byte cannot address.
pub open spec fn too_many_constants() -> &'static str {
    "Too many constants in one chunk."
}

/// The token that a compiler holds before it has read any.
pub open spec fn no_token() -> Token {
    Token { kind: TokenKind::Eof, start: 0, length: 0, line: 0, col: 0, message: "" }
}

/// The instruction of a binary operator.
pub open spec fn binary_opcode(kind: TokenKind) -> Option<OpCode> {
    match kind {
        TokenKind::Plus => Some(OpCode::OpAdd),
        TokenKind::Minus => Some(OpCode::OpSubtract),
        TokenKind::Star => Some(OpCode::OpMultiply),
        TokenKind::Slash => Some(OpCode::OpDivide),
        _ => None,
    }
}

/// The level one above a level of precedence; the highest level is its own.
pub open spec fn next_precedence(prec: Precedence) -> Precedence {
    if precedence_order(prec) < 10 {
        precedence_ladder()[precedence_order(prec) + 1]
    } else {
        prec
    }
}

impl CompilerView {
    /// A compiler that has read nothing of its source.
    pub open spec fn initial(source: Seq<u8>) -> CompilerView {
        CompilerView {
            had_error: false,
            panic_mode: false,
            chunk: ChunkView::empty(),
            scanner: ScannerView { source, start: 0, current: 0, line: 1, col: 1 },
            previous: no_token(),
            current: no_token(),
            diagnostics: Seq::empty(),
        }
    }

    /// The scanner is well formed.
    pub open spec fn wf(self) -> bool {
        self.scanner.wf()
    }

    /// What bounds the work that is left: the bytes not yet scanned, and
    /// one more while the current token is not the end of input.
    pub open spec fn measure(self) -> nat {
        let rest = self.scanner.source.len() - self.scanner.current;
        let pending: int = if self.current.kind != TokenKind::Eof {
            1
        } else {
            0
        };
        if rest >= 0 {
            (rest + pending) as nat
        } else {
            pending as nat
        }
    }

    /// Reports an error at a token. In panic mode nothing happens;
    /// otherwise the compiler enters panic mode, notes that an error has
    /// occurred, and records the diagnostic.
    pub open spec fn report(self, token: Token, message: &'static str) -> CompilerView {
        if self.panic_mode {
            self
        } else {
            CompilerView {
                panic_mode: true,
                had_error: true,
                diagnostics: self.diagnostics.push(Diagnostic { token, message }),
                ..self
            }
        }
    }

    /// Writes a byte to the chunk, on the line of the previous token.
    pub open spec fn emit(self, byte: u8) -> CompilerView {
        CompilerView { chunk: self.chunk.write(byte, self.previous.line as i32), ..self }
    }

    /// Scans into `current` until a token arrives that is no `Error`, and
    /// reports each `Error` token on the way with its own diagnostic.
    pub open spec fn fetch(self) -> CompilerView
        decreases self.scanner.source.len() - self.scanner.current,
        when self.scanner.wf()
    {
        let src = self.scanner.source;
        let pos = self.scanner.current as int;
        let token = token_at(src, pos);
        let scanned = CompilerView {
            scanner: self.scanner.at(trivia_end(src, pos), token_end(src, pos)),
            current: token,
            ..self
        };
        if token.kind != TokenKind::Error {
            scanned
        } else {
            proof {
                lemma_scan_step(self.scanner);
            }
            scanned.report(token, token.message).fetch()
        }
    }

    /// Moves the window on by one token.
    pub open spec fn advance(self) -> CompilerView {
        CompilerView { previous: self.current, ..self }.fetch()
    }

    /// Passes the current token if it is of the given kind, and reports an
    /// error at it otherwise.
    pub open spec fn consume(self, kind: TokenKind, message: &'static str) -> CompilerView {
        if self.current.kind == kind {
            self.advance()
        } else {
            self.report(self.current, message)
        }
    }

    /// Adds a constant to the pool, and gives the operand that addresses
    /// it. A position above 255 does not fit the operand: it is reported
    /// at the previous token, and the operand is 0.
    pub open spec fn make_constant(self, value: Value) -> (CompilerView, u8) {
        let added = CompilerView { chunk: self.chunk.with_constant(value), ..self };
        if self.chunk.constants.len() > 255 {
            (added.report(added.previous, too_many_constants()), 0u8)
        } else {
            (added, self.chunk.constants.len() as u8)
        }
    }

    /// Adds a constant and emits the instruction that loads it.
    pub open spec fn emit_constant(self, value: Value) -> CompilerView {
        let (added, operand) = self.make_constant(value);
        added.emit(encode(OpCode::OpConstant)).emit(operand)
    }

    /// Compiles the number that the previous token spells.
    pub open spec fn number(self) -> CompilerView {
        self.emit_constant(
            Value::Literal { start: self.previous.start, length: self.previous.length },
        )
    }

    /// Compiles the operand of a prefix operator, and the negation after it
    /// if the operator was a minus.
    pub open spec fn unary(self) -> CompilerView
        decreases self.measure(), 2int,
        when self.wf()
    {
        let operand = self.parse_precedence(Precedence::PrecUnary);
        if self.previous.kind == TokenKind::Minus {
            operand.emit(encode(OpCode::OpNegate))
        } else {
            operand
        }
    }

    /// Compiles the right operand of a binary operator, one level above
    /// the operator's own so that operators of one level group to the
    /// left, and the operator's instruction after it.
    pub open spec fn binary(self) -> CompilerView
        decreases self.measure(), 2int,
        when self.wf()
    {
        let kind = self.previous.kind;
        let operand = self.parse_precedence(next_precedence(rule_of(kind).precendence));
        match binary_opcode(kind) {
            Some(op) => operand.emit(encode(op)),
            None => operand,
        }
    }

    /// Compiles an expression in parentheses: the expression, and the
    /// closing parenthesis after it.
    pub open spec fn grouping(self) -> CompilerView
        decreases self.measure(), 2int,
        when self.wf()
    {
        self.expression().consume(TokenKind::RightParen, expect_right_paren())
    }

    /// Compiles an expression.
    pub open spec fn expression(self) -> CompilerView
        decreases self.measure(), 1int,
        when self.wf()
    {
        self.parse_precedence(Precedence::PrecAssignment)
    }

    /// Runs the parse function that a rule names.
    pub open spec fn translate(self, rule: ParseRuleFn) -> CompilerView
        decreases self.measure(), 3int,
        when self.wf()
    {
        match rule {
            ParseRuleFn::FnNone => self,
            ParseRuleFn::FnNumber => self.number(),
            ParseRuleFn::FnUnary => self.unary(),
            ParseRuleFn::FnBinary => self.binary(),
            ParseRuleFn::FnGrouping => self.grouping(),
        }
    }

    /// Compiles what binds at least as strongly as `min`: one operand by
    /// the prefix rule of its first token, and the operators that follow.
    /// A first token with no prefix rule is reported. The operand takes at
    /// least its first token, which the test on the measure records; it
    /// never fails ([`lemma_parse_precedence`]).
    pub open spec fn parse_precedence(self, min: Precedence) -> CompilerView
        decreases self.measure(), 0int,
        when self.wf()
    {
        let advanced = self.advance();
        let prefix = rule_of(advanced.previous.kind).prefix;
        if prefix == ParseRuleFn::FnNone {
            advanced.report(advanced.previous, expect_expression())
        } else {
            proof {
                lemma_advance(self);
            }
            let operand = advanced.translate(prefix);
            if operand.measure() < self.measure() {
                operand.infix_loop(min)
            } else {
                operand
            }
        }
    }

    /// Compiles the operators that follow an operand, as long as the
    /// current token binds at least as strongly as `min`: each by its infix
    /// rule. Every round consumes at least the operator, which the test
    /// on the measure records; it never fails ([`lemma_infix_loop`]).
    pub open spec fn infix_loop(self, min: Precedence) -> CompilerView
        decreases self.measure(), 4int,
        when self.wf()
    {
        if precedence_order(min) <= precedence_order(rule_of(self.current.kind).precendence) {
            proof {
                lemma_advance(self);
            }
            let advanced = self.advance();
            let applied = advanced.translate(rule_of(advanced.previous.kind).infix);
            if applied.measure() < self.measure() {
                applied.infix_loop(min)
            } else {
                applied
            }
        } else {
            self
        }
    }

    /// Compiles a whole source into the given chunk: one expression, the
    /// end of input after it, and a final return.
    pub open spec fn compile(self, chunk: ChunkView) -> CompilerView {
        CompilerView { chunk, ..self }.advance().expression().consume(
            TokenKind::Eof,
            expect_end(),
        ).emit(encode(OpCode::OpReturn))
    }
}

/// One step of the scanner keeps it well formed and does not go back; a
/// token that is not the end of input takes at least one byte.
pub proof fn lemma_scan_step(scanner: ScannerView)
    requires
        scanner.wf(),
    ensures
        ({
            let src = scanner.source;
            let pos = scanner.current as int;
            let next = scanner.at(trivia_end(src, pos), token_end(src, pos));
            &&& next.wf()
            &&& next.source == src
            &&& pos <= next.current
            &&& token_at(src, pos).kind != TokenKind::Eof ==> pos < next.current
            &&& token_at(src, pos).kind == TokenKind::Eof ==> next.current == src.len()
        }),
{
    let src = scanner.source;
    let pos = scanner.current as int;
    lemma_trivia_end_bounds(src, pos);
    lemma_lexeme_end_bounds(src, trivia_end(src, pos));
    lemma_line_col_bounds(src, token_end(src, pos));
}

/// What a fetch changes: the scanner moves on over the same source and
/// stays well formed, the current token is no `Error`, and reports are only
/// added. The chunk and the previous token stay.
pub proof fn lemma_fetch(s: CompilerView)
    requires
        s.wf(),
    ensures
        ({
            let r = s.fetch();
            &&& r.wf()
            &&& r.scanner.source == s.scanner.source
            &&& s.scanner.current <= r.scanner.current
            &&& r.current.kind != TokenKind::Error
            &&& r.current.kind != TokenKind::Eof ==> s.scanner.current < r.scanner.current
            &&& r.current.kind == TokenKind::Eof ==> r.scanner.current == s.scanner.source.len()
            &&& r.chunk == s.chunk
            &&& r.previous == s.previous
            &&& s.had_error ==> r.had_error
            &&& s.panic_mode ==> r.panic_mode && r.diagnostics == s.diagnostics
            &&& s.diagnostics.is_prefix_of(r.diagnostics)
            &&& r.had_error == (s.had_error || r.diagnostics.len() > s.diagnostics.len())
            &&& r.panic_mode ==> s.panic_mode || r.had_error
            &&& !s.panic_mode && !r.had_error ==> clean_path(
                s.scanner.source,
                s.scanner.current as int,
                r.scanner.current as int,
            )
        }),
    decreases s.scanner.source.len() - s.scanner.current,
{
    let src = s.scanner.source;
    let pos = s.scanner.current as int;
    let token = token_at(src, pos);
    let scanned = CompilerView {
        scanner: s.scanner.at(trivia_end(src, pos), token_end(src, pos)),
        current: token,
        ..s
    };
    lemma_scan_step(s.scanner);
    lemma_token_end_bounds(src, pos);
    if token.kind == TokenKind::Error {
        lemma_fetch(scanned.report(token, token.message));
    } else {
        assert(scanned.scanner.current as int == token_end(src, pos));
        assert(clean_path(src, token_end(src, pos), token_end(src, pos)));
    }
}

/// What an advance changes: as a fetch, and the previous token becomes
/// what the current one was. The measure does not grow, and it shrinks
/// when the current token was not the end of input.
pub proof fn lemma_advance(s: CompilerView)
    requires
        s.wf(),
    ensures
        ({
            let r = s.advance();
            &&& r.wf()
            &&& r.scanner.source == s.scanner.source
            &&& r.previous == s.current
            &&& r.current.kind != TokenKind::Error
            &&& r.chunk == s.chunk
            &&& r.measure() <= s.measure()
            &&& s.current.kind != TokenKind::Eof ==> r.measure() < s.measure()
            &&& s.had_error ==> r.had_error
            &&& s.panic_mode ==> r.panic_mode && r.diagnostics == s.diagnostics
            &&& s.diagnostics.is_prefix_of(r.diagnostics)
            &&& r.had_error == (s.had_error || r.diagnostics.len() > s.diagnostics.len())
            &&& r.panic_mode ==> s.panic_mode || r.had_error
            &&& !s.panic_mode && !r.had_error ==> clean_path(
                s.scanner.source,
                s.scanner.current as int,
                r.scanner.current as int,
            )
        }),
{
    lemma_fetch(CompilerView { previous: s.current, ..s });
}


impl View for Compiler {
    type V = CompilerView;

    closed spec fn view(&self) -> CompilerView {
        CompilerView {
            had_error: self.had_error,
            panic_mode: self.panic_mode,
            chunk: self.chunk@,
            scanner: self.scanner@,
            previous: self.previous,
            current: self.current,
            diagnostics: self.diagnostics@,
        }
    }
}

/// One of the four binary operators.
pub open spec fn is_binary_operator(kind: TokenKind) -> bool {
    binary_opcode(kind) is Some
}

/// What a compiler does. `compile` is the whole; the other methods are
/// the steps that it is made of, which can be taken one by one.
pub trait Parser {
    /// The compiler's invariant.
    spec fn wf(&self) -> bool;

    /// The kind of the previous token.
    spec fn previous_kind(&self) -> TokenKind;

    /// Compiles the source into the given chunk.
    fn compile(&mut self, chunk: Chunk) -> CompilerResult
        requires
            old(self).wf(),
    ;

    /// Compiles an expression.
    fn expression(&mut self)
        requires
            old(self).wf(),
    ;

    /// Moves the window on by one token.
    fn advance(&mut self)
        requires
            old(self).wf(),
    ;

    /// Passes the current token if it is of the given kind, and reports
    /// the message at it otherwise.
    fn consume(&mut self, kind: TokenKind, message: &'static str)
        requires
            old(self).wf(),
    ;

    /// Reports an error at the current token.
    fn error_at_current(&mut self, message: &'static str);

    /// Reports an error at a token.
    fn error_at(&mut self, token: Token, message: &'static str);

    /// Reports an error at the previous token.
    fn error(&mut self, message: &'static str);

    /// Writes a byte to the chunk.
    fn emit_byte(&mut self, byte: u8);

    /// Writes two bytes to the chunk.
    fn emit_bytes(&mut self, byte1: u8, byte2: u8);

    /// Writes the return instruction.
    fn emit_return(&mut self);

    /// Ends the compilation.
    fn end_compiler(&mut self);

    /// The chunk that the compiler writes, for the caller to write to.
    fn current_chunk(&mut self) -> &mut Chunk;

    /// Adds a constant and emits the instruction that loads it.
    fn emit_constant(&mut self, value: Value);

    /// Adds a constant to the pool, and gives the operand that addresses
    /// it.
    fn make_constant(&mut self, value: Value) -> u8;

    /// Compiles the number that the previous token spells.
    fn number(&mut self);

    /// Compiles the right operand of the binary operator that the
    /// previous token is, and the operator's instruction.
    fn binary(&mut self)
        requires
            old(self).wf(),
            is_binary_operator(old(self).previous_kind()),
    ;

    /// Compiles the operand of a prefix operator, and the operator's
    /// instruction.
    fn unary(&mut self)
        requires
            old(self).wf(),
    ;

    /// Compiles an expression in parentheses.
    fn grouping(&mut self)
        requires
            old(self).wf(),
    ;

    /// Compiles what binds at least as strongly as a level, which is
    /// above `PrecNone`, the level of the tokens that are no operators.
    fn parse_precendence(&mut self, precendence: Precedence)
        requires
            old(self).wf(),
            precendence != Precedence::PrecNone,
    ;

    /// The rule of a kind of token.
    fn get_rule(&self, kind: TokenKind) -> ParseRule
        requires
            self.wf(),
    ;

    /// Runs the parse function that a rule names. The binary rule is for
    /// a previous token that is a binary operator.
    fn translate(&mut self, rule: ParseRuleFn)
        requires
            old(self).wf(),
            rule == ParseRuleFn::FnBinary ==> is_binary_operator(old(self).previous_kind()),
    ;
}

impl Compiler {
    /// A well-formed compiler has a well-formed model.
    pub proof fn lemma_wf(&self)
        requires
            self.wf(),
        ensures
            self@.wf(),
    {
    }

    /// The previous token of the window: the one that the parse functions
    /// compile.
    pub fn previous(&self) -> (token: Token)
        ensures
            token == self@.previous,
            token.kind == self.previous_kind(),
    {
        self.previous
    }

    /// The current token of the window: the one that is looked at next.
    pub fn current(&self) -> (token: Token)
        ensures
            token == self@.current,
    {
        self.current
    }
}

impl Parser for Compiler {
    /// The scanner is well formed and the table holds the rules.
    closed spec fn wf(&self) -> bool {
        &&& self@.wf()
        &&& is_rule_table(self.rules@)
    }

    open spec fn previous_kind(&self) -> TokenKind {
        self@.previous.kind
    }

    /// Compiles the source into the given chunk: one expression, the end
    /// of input after it, and a final return. The compilation succeeds if
    /// no error was reported.
    fn compile(&mut self, chunk: Chunk) -> (result: CompilerResult)
        ensures
            final(self).wf(),
            final(self)@ == old(self)@.compile(chunk@),
            result.chunk@ == final(self)@.chunk,
            result.success == !final(self)@.had_error,
            result.diagnostics@ == final(self)@.diagnostics,
            chunk@.aligned() ==> result.chunk@.aligned(),
            chunk@.instructions_from(0) ==> result.chunk@.ends_in_return(),
            chunk@.well_formed() ==> result.chunk@.well_formed(),
            old(self)@.had_error ==> !result.success,
    {
        proof {
            old(self).lemma_wf();
            lemma_compile(old(self)@, chunk@);
        }
        self.chunk = chunk;
        self.advance();
        self.expression();
        self.consume(TokenKind::Eof, "Expect end of expression.");
        self.end_compiler();
        CompilerResult {
            chunk: copy_chunk(&self.chunk),
            success: !self.had_error,
            diagnostics: self.diagnostics.clone(),
        }
    }

    /// Compiles an expression.
    fn expression(&mut self)
        ensures
            final(self).wf(),
            final(self)@ == old(self)@.expression(),
            final(self)@.measure() <= old(self)@.measure(),
        decreases old(self)@.measure(), 1int,
    {
        self.parse_precendence(Precedence::PrecAssignment);
    }

    /// Moves the window on by one token: the current token becomes the
    /// previous one, and the scanner is asked until a token arrives that is
    /// no `Error`. Each `Error` token is reported with its diagnostic.
    fn advance(&mut self)
        ensures
            final(self).wf(),
            final(self)@ == old(self)@.advance(),
    {
        self.previous = self.current;
        let ghost target = self@.fetch();
        loop
            invariant_except_break
                self.wf(),
                self@.fetch() == target,
            ensures
                self.wf(),
                self@ == target,
            decreases self@.scanner.source.len() - self@.scanner.current,
        {
            proof {
                lemma_scan_step(self@.scanner);
            }
            self.current = self.scanner.next_token();
            if self.current.kind != TokenKind::Error {
                break;
            }
            self.error_at_current(self.current.message);
        }
    }

    /// Passes the current token if it is of the given kind, and reports the
    /// message at it otherwise.
    fn consume(&mut self, kind: TokenKind, message: &'static str)
        ensures
            final(self).wf(),
            final(self)@ == old(self)@.consume(kind, message),
    {
        if self.current.kind == kind {
            self.advance();
            return;
        }
        self.error_at_current(message);
    }

    /// Reports an error at the current token.
    fn error_at_current(&mut self, message: &'static str)
        ensures
            old(self).wf() ==> final(self).wf(),
            final(self)@ == old(self)@.report(old(self)@.current, message),
    {
        self.error_at(self.current, message);
    }

    /// Reports an error at a token. In panic mode nothing happens;
    /// otherwise the compiler enters panic mode, notes that an error has
    /// occurred, and records the diagnostic.
    fn error_at(&mut self, token: Token, message: &'static str)
        ensures
            old(self).wf() ==> final(self).wf(),
            final(self)@ == old(self)@.report(token, message),
    {
        if self.panic_mode {
            return;
        }
        self.panic_mode = true;
        self.diagnostics.push(Diagnostic { token, message });
        self.had_error = true;
    }

    /// Reports an error at the previous token.
    fn error(&mut self, message: &'static str)
        ensures
            old(self).wf() ==> final(self).wf(),
            final(self)@ == old(self)@.report(old(self)@.previous, message),
    {
        self.error_at(self.previous, message);
    }

    /// Writes a byte to the chunk, on the line of the previous token.
    fn emit_byte(&mut self, byte: u8)
        ensures
            old(self).wf() ==> final(self).wf(),
            final(self)@ == old(self)@.emit(byte),
    {
        write_chunk_u8(&mut self.chunk, byte, #[verifier::truncate] (self.previous.line as i32));
    }

    /// Writes two bytes to the chunk, both on the line of the previous
    /// token.
    fn emit_bytes(&mut self, byte1: u8, byte2: u8)
        ensures
            old(self).wf() ==> final(self).wf(),
            final(self)@ == old(self)@.emit(byte1).emit(byte2),
    {
        write_chunk_u8(&mut self.chunk, byte1, #[verifier::truncate] (self.previous.line as i32));
        write_chunk_u8(&mut self.chunk, byte2, #[verifier::truncate] (self.previous.line as i32));
    }

    /// Writes the return instruction.
    fn emit_return(&mut self)
        ensures
            old(self).wf() ==> final(self).wf(),
            final(self)@ == old(self)@.emit(encode(OpCode::OpReturn)),
    {
        self.emit_byte(opcode_to_u8(OpCode::OpReturn));
    }

    /// Ends the compilation with a return instruction.
    fn end_compiler(&mut self)
        ensures
            old(self).wf() ==> final(self).wf(),
            final(self)@ == old(self)@.emit(encode(OpCode::OpReturn)),
    {
        self.emit_return();
    }

    /// The chunk that the compiler writes, for the caller to write to:
    /// what the caller makes of it is the compiler's chunk afterwards, and
    /// nothing else of the compiler changes.
    fn current_chunk(&mut self) -> (chunk: &mut Chunk)
        ensures
            chunk@ == old(self)@.chunk,
            final(self)@ == (CompilerView { chunk: final(chunk)@, ..old(self)@ }),
            old(self).wf() ==> final(self).wf(),
    {
        &mut self.chunk
    }

    /// Adds a constant and emits the instruction that loads it.
    fn emit_constant(&mut self, value: Value)
        ensures
            old(self).wf() ==> final(self).wf(),
            final(self)@ == old(self)@.emit_constant(value),
    {
        let constant = self.make_constant(value);
        self.emit_bytes(opcode_to_u8(OpCode::OpConstant), constant);
    }

    /// Adds a constant to the pool, and gives the operand that addresses
    /// it. A position above 255 does not fit the operand: it is reported
    /// at the previous token, and the operand is 0.
    fn make_constant(&mut self, value: Value) -> (operand: u8)
        ensures
            old(self).wf() ==> final(self).wf(),
            final(self)@ == old(self)@.make_constant(value).0,
            operand == old(self)@.make_constant(value).1,
    {
        let constant = add_constant(&mut self.chunk, value);
        if self.chunk.constants.values.len() > 256 {
            self.error("Too many constants in one chunk.");
            return 0;
        }
        constant
    }

    /// Compiles the number that the previous token spells: the constant is
    /// the literal at the token's span.
    fn number(&mut self)
        ensures
            old(self).wf() ==> final(self).wf(),
            final(self)@ == old(self)@.number(),
    {
        let value = Value::Literal { start: self.previous.start, length: self.previous.length };
        self.emit_constant(value);
    }

    /// Compiles the operand of a prefix operator, and the negation after it
    /// if the operator was a minus.
    fn unary(&mut self)
        ensures
            final(self).wf(),
            final(self)@ == old(self)@.unary(),
            final(self)@.measure() <= old(self)@.measure(),
        decreases old(self)@.measure(), 2int,
    {
        let kind = self.previous.kind;
        self.parse_precendence(Precedence::PrecUnary);
        match kind {
            TokenKind::Minus => self.emit_byte(opcode_to_u8(OpCode::OpNegate)),
            _ => {},
        }
    }

    /// Compiles the right operand of the binary operator that the previous
    /// token is, one level above the operator's own, and the operator's
    /// instruction after it.
    fn binary(&mut self)
        ensures
            final(self).wf(),
            final(self)@ == old(self)@.binary(),
            final(self)@.measure() <= old(self)@.measure(),
        decreases old(self)@.measure(), 2int,
    {
        let kind = self.previous.kind;
        let rule = self.get_rule(kind);
        self.parse_precendence(order_to_precendence(precendence_to_order(rule.precendence) + 1));
        let instruction = match kind {
            TokenKind::Plus => opcode_to_u8(OpCode::OpAdd),
            TokenKind::Minus => opcode_to_u8(OpCode::OpSubtract),
            TokenKind::Star => opcode_to_u8(OpCode::OpMultiply),
            _ => opcode_to_u8(OpCode::OpDivide),
        };
        self.emit_byte(instruction);
    }

    /// Compiles an expression in parentheses: the expression, and the
    /// closing parenthesis after it.
    fn grouping(&mut self)
        ensures
            final(self).wf(),
            final(self)@ == old(self)@.grouping(),
            final(self)@.measure() <= old(self)@.measure(),
        decreases old(self)@.measure(), 2int,
    {
        self.expression();
        proof {
            self.lemma_wf();
            lemma_consume(self@, TokenKind::RightParen, expect_right_paren());
        }
        self.consume(TokenKind::RightParen, "Expect ')' after expression.");
    }

    /// Compiles what binds at least as strongly as the given level: one
    /// operand by the prefix rule of its first token, and the operators
    /// that follow, each by its infix rule. A first token with no prefix
    /// rule is reported with "Expect expression.". The level is above
    /// `PrecNone`, the level of the tokens that are no operators.
    fn parse_precendence(&mut self, precendence: Precedence)
        ensures
            final(self).wf(),
            final(self)@ == old(self)@.parse_precedence(precendence),
            final(self)@.measure() <= old(self)@.measure(),
        decreases old(self)@.measure(), 0int,
    {
        proof {
            old(self).lemma_wf();
            lemma_advance(old(self)@);
        }
        self.advance();
        let prefix_rule = self.get_rule(self.previous.kind).prefix;
        if prefix_rule == ParseRuleFn::FnNone {
            self.error("Expect expression.");
            return;
        }
        self.translate(prefix_rule);
        let ghost target = self@.infix_loop(precendence);
        while precendence_to_order(precendence) <= precendence_to_order(
            self.get_rule(self.current.kind).precendence,
        )
            invariant
                self.wf(),
                precendence != Precedence::PrecNone,
                self@.infix_loop(precendence) == target,
                self@.measure() < old(self)@.measure(),
            decreases self@.measure(),
        {
            proof {
                self.lemma_wf();
                lemma_advance(self@);
            }
            self.advance();
            let infix_rule = self.get_rule(self.previous.kind).infix;
            self.translate(infix_rule);
        }
        proof {
            self.lemma_wf();
        }
    }

    /// The rule of a kind of token.
    fn get_rule(&self, kind: TokenKind) -> (rule: ParseRule)
        ensures
            rule == rule_of(kind),
    {
        self.rules[token_index(kind)]
    }

    /// Runs the parse function that a rule names. The binary rule is for
    /// a previous token that is a binary operator.
    fn translate(&mut self, rule: ParseRuleFn)
        ensures
            final(self).wf(),
            final(self)@ == old(self)@.translate(rule),
            final(self)@.measure() <= old(self)@.measure(),
        decreases old(self)@.measure(), 3int,
    {
        match rule {
            ParseRuleFn::FnNone => {},
            ParseRuleFn::FnNumber => self.number(),
            ParseRuleFn::FnUnary => self.unary(),
            ParseRuleFn::FnBinary => self.binary(),
            ParseRuleFn::FnGrouping => self.grouping(),
        }
    }
}

/// A compiler for a source text, with an empty chunk and no token read.
pub fn init_compiler(source: String) -> (compiler: Compiler)
    requires
        vstd::utf8::encode_utf8(source@).len() < usize::MAX,
    ensures
        compiler.wf(),
        compiler@ == CompilerView::initial(vstd::utf8::encode_utf8(source@)),
{
    Compiler {
        had_error: false,
        panic_mode: false,
        chunk: init_chunk(),
        scanner: init_scanner(source),
        current: Token { kind: TokenKind::Eof, start: 0, length: 0, line: 0, col: 0, message: "" },
        previous: Token { kind: TokenKind::Eof, start: 0, length: 0, line: 0, col: 0, message: "" },
        rules: fn_table(),
        diagnostics: Vec::new(),
    }
}

/// A consume keeps the compiler well formed and does not raise its
/// measure.
pub proof fn lemma_consume(s: CompilerView, kind: TokenKind, message: &'static str)
    requires
        s.wf(),
    ensures
        s.consume(kind, message).wf(),
        s.consume(kind, message).measure() <= s.measure(),
{
    lemma_advance(s);
}


impl CompilerView {
    /// What holds between a compiler and the same compiler after any of
    /// its steps. The scanner stays well formed over the same source and
    /// the work that is left does not grow. The chunk only grows, each
    /// byte with its line, by whole instructions. An error once noted
    /// stays noted; in panic mode no diagnostic is added; diagnostics are
    /// only added, and only together with noting an error.
    pub open spec fn leads_to(self, after: CompilerView) -> bool {
        &&& after.wf()
        &&& after.scanner.source == self.scanner.source
        &&& after.measure() <= self.measure()
        &&& self.chunk.code.is_prefix_of(after.chunk.code)
        &&& self.chunk.lines.is_prefix_of(after.chunk.lines)
        &&& self.chunk.constants.is_prefix_of(after.chunk.constants)
        &&& self.chunk.aligned() ==> after.chunk.aligned()
        &&& self.chunk.instructions_from(0) ==> after.chunk.instructions_from(0)
        &&& self.had_error ==> after.had_error
        &&& self.panic_mode ==> after.panic_mode && after.diagnostics == self.diagnostics
        &&& self.diagnostics.is_prefix_of(after.diagnostics)
        &&& after.had_error <==> self.had_error || after.diagnostics.len()
            > self.diagnostics.len()
        &&& after.panic_mode ==> self.panic_mode || after.had_error
        &&& !self.panic_mode && !after.had_error ==> clean_path(
            self.scanner.source,
            self.scanner.current as int,
            after.scanner.current as int,
        )
    }
}

/// What `leads_to` states carries over two steps.
pub proof fn lemma_leads_to_transitive(a: CompilerView, b: CompilerView, c: CompilerView)
    requires
        a.wf(),
        a.leads_to(b),
        b.leads_to(c),
    ensures
        a.leads_to(c),
{
    assert(a.chunk.code.is_prefix_of(c.chunk.code));
    assert(a.chunk.lines.is_prefix_of(c.chunk.lines));
    assert(a.chunk.constants.is_prefix_of(c.chunk.constants));
    assert(a.diagnostics.is_prefix_of(c.diagnostics));
    if !a.panic_mode && !c.had_error {
        lemma_clean_path_transitive(
            a.scanner.source,
            a.scanner.current as int,
            b.scanner.current as int,
            c.scanner.current as int,
        );
    }
}

/// A report is a step of the compiler.
pub proof fn lemma_report(s: CompilerView, token: Token, message: &'static str)
    requires
        s.wf(),
    ensures
        s.leads_to(s.report(token, message)),
        s.report(token, message).had_error || s.panic_mode,
{
}

/// An advance is a step of the compiler.
pub proof fn lemma_advance_leads(s: CompilerView)
    requires
        s.wf(),
    ensures
        s.leads_to(s.advance()),
{
    lemma_advance(s);
}

/// A consume is a step of the compiler.
pub proof fn lemma_consume_leads(s: CompilerView, kind: TokenKind, message: &'static str)
    requires
        s.wf(),
    ensures
        s.leads_to(s.consume(kind, message)),
{
    lemma_advance(s);
}

/// Writing an instruction without operand is a step of the compiler.
pub proof fn lemma_emit_simple(s: CompilerView, op: OpCode)
    requires
        s.wf(),
        op != OpCode::OpConstant,
    ensures
        s.leads_to(s.emit(encode(op))),
{
    if s.chunk.instructions_from(0) {
        lemma_instructions_write_simple(s.chunk, 0, op, s.previous.line as i32);
    }
}

/// Compiling a number is a step of the compiler.
pub proof fn lemma_number(s: CompilerView)
    requires
        s.wf(),
    ensures
        s.leads_to(s.number()),
{
    let value = Value::Literal { start: s.previous.start, length: s.previous.length };
    let (added, operand) = s.make_constant(value);
    let line = s.previous.line as i32;
    if s.chunk.instructions_from(0) {
        lemma_instructions_with_constant(s.chunk, 0, value);
        lemma_instructions_write_constant(added.chunk, 0, operand, line, line);
    }
    let r = s.number();
    assert(s.chunk.code.is_prefix_of(r.chunk.code));
    assert(s.chunk.lines.is_prefix_of(r.chunk.lines));
}

/// Compiling at a level of precedence is a step of the compiler, and the
/// test on the measure in [`CompilerView::parse_precedence`] never fails.
pub proof fn lemma_parse_precedence(s: CompilerView, min: Precedence)
    requires
        s.wf(),
    ensures
        s.leads_to(s.parse_precedence(min)),
        s.parse_precedence(min) == ({
            let advanced = s.advance();
            let prefix = rule_of(advanced.previous.kind).prefix;
            if prefix == ParseRuleFn::FnNone {
                advanced.report(advanced.previous, expect_expression())
            } else {
                advanced.translate(prefix).infix_loop(min)
            }
        }),
    decreases s.measure(), 0int,
{
    lemma_advance(s);
    lemma_advance_leads(s);
    let advanced = s.advance();
    let prefix = rule_of(advanced.previous.kind).prefix;
    if prefix == ParseRuleFn::FnNone {
        lemma_report(advanced, advanced.previous, expect_expression());
        lemma_leads_to_transitive(s, advanced, s.parse_precedence(min));
    } else {
        lemma_translate(advanced, prefix);
        let operand = advanced.translate(prefix);
        lemma_leads_to_transitive(s, advanced, operand);
        lemma_infix_loop(operand, min);
        lemma_leads_to_transitive(s, operand, operand.infix_loop(min));
    }
}

/// Compiling the operators after an operand is a step of the compiler,
/// and the test on the measure in [`CompilerView::infix_loop`] never
/// fails.
pub proof fn lemma_infix_loop(s: CompilerView, min: Precedence)
    requires
        s.wf(),
    ensures
        s.leads_to(s.infix_loop(min)),
        min != Precedence::PrecNone ==> s.infix_loop(min) == (if precedence_order(min)
            <= precedence_order(rule_of(s.current.kind).precendence) {
            let advanced = s.advance();
            advanced.translate(rule_of(advanced.previous.kind).infix).infix_loop(min)
        } else {
            s
        }),
    decreases s.measure(), 4int,
{
    if precedence_order(min) <= precedence_order(rule_of(s.current.kind).precendence) {
        lemma_advance(s);
        lemma_advance_leads(s);
        let advanced = s.advance();
        let infix = rule_of(advanced.previous.kind).infix;
        lemma_translate(advanced, infix);
        let applied = advanced.translate(infix);
        lemma_leads_to_transitive(s, advanced, applied);
        if applied.measure() < s.measure() {
            lemma_infix_loop(applied, min);
            lemma_leads_to_transitive(s, applied, applied.infix_loop(min));
        }
    }
}

/// Running a parse function is a step of the compiler.
pub proof fn lemma_translate(s: CompilerView, rule: ParseRuleFn)
    requires
        s.wf(),
    ensures
        s.leads_to(s.translate(rule)),
    decreases s.measure(), 3int,
{
    match rule {
        ParseRuleFn::FnNone => {},
        ParseRuleFn::FnNumber => {
            lemma_number(s);
        },
        ParseRuleFn::FnUnary => {
            lemma_unary(s);
        },
        ParseRuleFn::FnBinary => {
            lemma_binary(s);
        },
        ParseRuleFn::FnGrouping => {
            lemma_grouping(s);
        },
    }
}

/// Compiling a prefix operator and its operand is a step of the compiler.
pub proof fn lemma_unary(s: CompilerView)
    requires
        s.wf(),
    ensures
        s.leads_to(s.unary()),
    decreases s.measure(), 2int,
{
    lemma_parse_precedence(s, Precedence::PrecUnary);
    let operand = s.parse_precedence(Precedence::PrecUnary);
    if s.previous.kind == TokenKind::Minus {
        lemma_emit_simple(operand, OpCode::OpNegate);
        lemma_leads_to_transitive(s, operand, s.unary());
    }
}

/// Compiling a binary operator and its right operand is a step of the
/// compiler.
pub proof fn lemma_binary(s: CompilerView)
    requires
        s.wf(),
    ensures
        s.leads_to(s.binary()),
    decreases s.measure(), 2int,
{
    let kind = s.previous.kind;
    let level = next_precedence(rule_of(kind).precendence);
    lemma_parse_precedence(s, level);
    let operand = s.parse_precedence(level);
    match binary_opcode(kind) {
        Some(op) => {
            lemma_emit_simple(operand, op);
            lemma_leads_to_transitive(s, operand, s.binary());
        },
        None => {},
    }
}

/// Compiling a group is a step of the compiler.
pub proof fn lemma_grouping(s: CompilerView)
    requires
        s.wf(),
    ensures
        s.leads_to(s.grouping()),
    decreases s.measure(), 2int,
{
    lemma_expression(s);
    let inner = s.expression();
    lemma_consume_leads(inner, TokenKind::RightParen, expect_right_paren());
    lemma_leads_to_transitive(s, inner, s.grouping());
}

/// Compiling an expression is a step of the compiler.
pub proof fn lemma_expression(s: CompilerView)
    requires
        s.wf(),
    ensures
        s.leads_to(s.expression()),
    decreases s.measure(), 1int,
{
    lemma_parse_precedence(s, Precedence::PrecAssignment);
}


/// The lexeme of a token: the bytes of its span, and nothing for a span
/// that does not lie within the source.
pub open spec fn lexeme(source: Seq<u8>, token: Token) -> Seq<u8> {
    if token.start + token.length <= source.len() {
        source.subrange(token.start as int, token.start + token.length)
    } else {
        Seq::empty()
    }
}

/// A text with the place of a diagnostic after it: " at end" for the end
/// of input, nothing for an `Error` token, and the lexeme in quotes for
/// any other token.
pub open spec fn place_text(before: Seq<u8>, source: Seq<u8>, token: Token) -> Seq<u8> {
    if token.kind == TokenKind::Eof {
        before + " at end".spec_bytes()
    } else if token.kind == TokenKind::Error {
        before
    } else {
        before + " at '".spec_bytes() + lexeme(source, token) + seq![39u8]
    }
}

impl Diagnostic {
    /// The line of text of a diagnostic: the line of its token, the place,
    /// and the message, as `[line L] Error{place}: message` and a newline.
    pub open spec fn text(self, source: Seq<u8>) -> Seq<u8> {
        place_text(
            "[line ".spec_bytes() + decimal(self.token.line as nat) + "] Error".spec_bytes(),
            source,
            self.token,
        ) + ": ".spec_bytes() + self.message.spec_bytes() + seq![10u8]
    }

    /// Writes the line of text of the diagnostic, for a token of the given
    /// source.
    pub fn render(&self, source: &[u8]) -> (text: Vec<u8>)
        ensures
            text@ == self.text(source@),
    {
        let mut text: Vec<u8> = Vec::new();
        push_bytes(&mut text, "[line ".as_bytes());
        push_decimal(&mut text, self.token.line as u64);
        push_bytes(&mut text, "] Error".as_bytes());
        assert(text@ =~= "[line ".spec_bytes() + decimal(self.token.line as nat)
            + "] Error".spec_bytes());
        match self.token.kind {
            TokenKind::Eof => {
                push_bytes(&mut text, " at end".as_bytes());
            },
            TokenKind::Error => {},
            _ => {
                push_bytes(&mut text, " at '".as_bytes());
                let start = self.token.start;
                let length = self.token.length;
                if start <= source.len() && length <= source.len() - start {
                    let mut i: usize = 0;
                    while i < length
                        invariant
                            i <= length,
                            start + length <= source.len(),
                            text@ == "[line ".spec_bytes() + decimal(self.token.line as nat)
                                + "] Error".spec_bytes() + " at '".spec_bytes()
                                + source@.subrange(start as int, start + i),
                        decreases length - i,
                    {
                        text.push(source[start + i]);
                        i += 1;
                        assert(text@ =~= "[line ".spec_bytes() + decimal(self.token.line as nat)
                            + "] Error".spec_bytes() + " at '".spec_bytes() + source@.subrange(
                            start as int,
                            start + i,
                        ));
                    }
                } else {
                    assert(text@ =~= text@ + Seq::<u8>::empty());
                }
                push_byte(&mut text, 39);
            },
        }
        push_bytes(&mut text, ": ".as_bytes());
        push_bytes(&mut text, self.message.as_bytes());
        push_byte(&mut text, 10);
        text
    }
}

/// What a compilation gives, of any source and into any chunk. The chunk
/// only grows, each byte with its line. A chunk of whole instructions
/// stays one, with a return for its last instruction: every opcode byte
/// decodes, and every load addresses a constant of the pool. The success
/// is the absence of a diagnostic, where no error had been noted before.
pub proof fn lemma_compile(s: CompilerView, chunk: ChunkView)
    requires
        s.wf(),
    ensures
        ({
            let given = CompilerView { chunk, ..s };
            let r = s.compile(chunk);
            &&& r.wf()
            &&& chunk.code.is_prefix_of(r.chunk.code)
            &&& chunk.lines.is_prefix_of(r.chunk.lines)
            &&& chunk.constants.is_prefix_of(r.chunk.constants)
            &&& chunk.aligned() ==> r.chunk.aligned()
            &&& chunk.instructions_from(0) ==> r.chunk.ends_in_return()
            &&& s.had_error ==> r.had_error
            &&& s.panic_mode ==> r.panic_mode && r.diagnostics == s.diagnostics
            &&& s.diagnostics.is_prefix_of(r.diagnostics)
            &&& r.had_error <==> s.had_error || r.diagnostics.len() > s.diagnostics.len()
        }),
{
    let given = CompilerView { chunk, ..s };
    lemma_advance_leads(given);
    let primed = given.advance();
    lemma_expression(primed);
    let parsed = primed.expression();
    lemma_leads_to_transitive(given, primed, parsed);
    lemma_consume_leads(parsed, TokenKind::Eof, expect_end());
    let closed = parsed.consume(TokenKind::Eof, expect_end());
    lemma_leads_to_transitive(given, parsed, closed);
    lemma_emit_simple(closed, OpCode::OpReturn);
    let r = s.compile(chunk);
    lemma_leads_to_transitive(given, closed, r);
    assert(r.chunk.without_last() == closed.chunk) by {
        assert(r.chunk.code.drop_last() =~= closed.chunk.code);
        assert(r.chunk.lines.drop_last() =~= closed.chunk.lines);
    }
}

} // verus!
