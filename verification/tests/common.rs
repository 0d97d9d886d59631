use rlox::common::{op_code_table, opcode_to_u8, u8_to_opcode, OpCode};
use rlox::compiler::{
    fn_table, order_to_precendence, prec_table, precendence_to_order, token_index, ParseRule,
    ParseRuleFn, Precedence,
};
use rlox::scanner::TokenKind;

const OPCODES: [OpCode; 7] = [
    OpCode::OpReturn,
    OpCode::OpNegate,
    OpCode::OpAdd,
    OpCode::OpSubtract,
    OpCode::OpMultiply,
    OpCode::OpDivide,
    OpCode::OpConstant,
];

const LADDER: [Precedence; 11] = [
    Precedence::PrecNone,
    Precedence::PrecAssignment,
    Precedence::PrecOr,
    Precedence::PrecAnd,
    Precedence::PrecEquality,
    Precedence::PrecComparison,
    Precedence::PrecTerm,
    Precedence::PrecFactor,
    Precedence::PrecUnary,
    Precedence::PrecCall,
    Precedence::PrecPrimary,
];

#[test]
fn opcodes_have_their_stable_bytes() {
    assert_eq!(opcode_to_u8(OpCode::OpReturn), 0);
    assert_eq!(opcode_to_u8(OpCode::OpNegate), 1);
    assert_eq!(opcode_to_u8(OpCode::OpAdd), 2);
    assert_eq!(opcode_to_u8(OpCode::OpSubtract), 3);
    assert_eq!(opcode_to_u8(OpCode::OpMultiply), 4);
    assert_eq!(opcode_to_u8(OpCode::OpDivide), 5);
    assert_eq!(opcode_to_u8(OpCode::OpConstant), 6);
}

#[test]
fn decoding_undoes_encoding() {
    for op in OPCODES {
        assert_eq!(u8_to_opcode(opcode_to_u8(op)), Some(op));
    }
}

#[test]
fn encoding_undoes_decoding_and_unknown_bytes_are_rejected() {
    for byte in 0..=255u8 {
        match u8_to_opcode(byte) {
            Some(op) => {
                assert!(byte < 7);
                assert_eq!(opcode_to_u8(op), byte);
            }
            None => assert!(byte >= 7),
        }
    }
}

#[test]
fn registry_lists_the_opcodes_by_their_bytes() {
    let table = op_code_table();
    assert_eq!(table, OPCODES.to_vec());
    for (byte, op) in table.iter().enumerate() {
        assert_eq!(opcode_to_u8(*op) as usize, byte);
    }
}

#[test]
fn precedence_ladder_ascends() {
    assert_eq!(prec_table(), LADDER.to_vec());
    for (order, prec) in LADDER.iter().enumerate() {
        assert_eq!(precendence_to_order(*prec) as usize, order);
        assert_eq!(order_to_precendence(order as u8), *prec);
    }
}

#[test]
fn rule_table_holds_the_six_rules_and_none_besides() {
    let table = fn_table();
    assert_eq!(table.len(), 40);
    let rule = |prefix, infix, precendence| ParseRule { prefix, infix, precendence };
    let none = rule(ParseRuleFn::FnNone, ParseRuleFn::FnNone, Precedence::PrecNone);
    assert_eq!(
        table[token_index(TokenKind::LeftParen)],
        rule(ParseRuleFn::FnGrouping, ParseRuleFn::FnNone, Precedence::PrecNone)
    );
    assert_eq!(
        table[token_index(TokenKind::Minus)],
        rule(ParseRuleFn::FnUnary, ParseRuleFn::FnBinary, Precedence::PrecTerm)
    );
    assert_eq!(
        table[token_index(TokenKind::Plus)],
        rule(ParseRuleFn::FnNone, ParseRuleFn::FnBinary, Precedence::PrecTerm)
    );
    assert_eq!(
        table[token_index(TokenKind::Slash)],
        rule(ParseRuleFn::FnNone, ParseRuleFn::FnBinary, Precedence::PrecFactor)
    );
    assert_eq!(
        table[token_index(TokenKind::Star)],
        rule(ParseRuleFn::FnNone, ParseRuleFn::FnBinary, Precedence::PrecFactor)
    );
    assert_eq!(
        table[token_index(TokenKind::Number)],
        rule(ParseRuleFn::FnNumber, ParseRuleFn::FnNone, Precedence::PrecNone)
    );
    let ruled = [
        TokenKind::LeftParen,
        TokenKind::Minus,
        TokenKind::Plus,
        TokenKind::Slash,
        TokenKind::Star,
        TokenKind::Number,
    ];
    let mut others = 0;
    for (index, entry) in table.iter().enumerate() {
        if !ruled.iter().any(|kind| token_index(*kind) == index) {
            assert_eq!(*entry, none);
            others += 1;
        }
    }
    assert_eq!(others, 34);
}

#[test]
fn token_indices_follow_the_declaration() {
    assert_eq!(token_index(TokenKind::LeftParen), 0);
    assert_eq!(token_index(TokenKind::Number), 21);
    assert_eq!(token_index(TokenKind::While), 37);
    assert_eq!(token_index(TokenKind::Error), 38);
    assert_eq!(token_index(TokenKind::Eof), 39);
}
