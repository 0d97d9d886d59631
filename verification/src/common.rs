//! The instruction set and its byte encoding.

use vstd::prelude::*;

verus! {

/// The instructions of the stack machine.
#[derive(Debug, PartialEq, Eq, Hash, Clone, Copy, Structural)]
pub enum OpCode {
    OpReturn,
    OpNegate,
    OpAdd,
    OpSubtract,
    OpMultiply,
    OpDivide,
    OpConstant,
}

/// The registry of instructions: the instruction at position `b` is the one
/// that the byte `b` encodes.
pub type OpCodeTable = Vec<OpCode>;

/// How an interpretation ended.
#[derive(Debug, PartialEq, Eq, Clone, Copy, Structural)]
pub enum InterpretResult {
    InterpretOk,
    InterpretCompilerError,
    InterpretRuntimeError,
}

/// The byte that stands for an instruction.
pub open spec fn encode(op: OpCode) -> u8 {
    match op {
        OpCode::OpReturn => 0,
        OpCode::OpNegate => 1,
        OpCode::OpAdd => 2,
        OpCode::OpSubtract => 3,
        OpCode::OpMultiply => 4,
        OpCode::OpDivide => 5,
        OpCode::OpConstant => 6,
    }
}

/// The instruction that a byte stands for, if any.
pub open spec fn decode(byte: u8) -> Option<OpCode> {
    if byte == 0 {
        Some(OpCode::OpReturn)
    } else if byte == 1 {
        Some(OpCode::OpNegate)
    } else if byte == 2 {
        Some(OpCode::OpAdd)
    } else if byte == 3 {
        Some(OpCode::OpSubtract)
    } else if byte == 4 {
        Some(OpCode::OpMultiply)
    } else if byte == 5 {
        Some(OpCode::OpDivide)
    } else if byte == 6 {
        Some(OpCode::OpConstant)
    } else {
        None
    }
}

/// The registry as a sequence, in the order of the encodings.
pub open spec fn registry() -> Seq<OpCode> {
    seq![
        OpCode::OpReturn,
        OpCode::OpNegate,
        OpCode::OpAdd,
        OpCode::OpSubtract,
        OpCode::OpMultiply,
        OpCode::OpDivide,
        OpCode::OpConstant,
    ]
}

/// Builds the registry of instructions.
pub fn op_code_table() -> (table: OpCodeTable)
    ensures
        table@ == registry(),
{
    let mut table: OpCodeTable = Vec::new();
    table.push(OpCode::OpReturn);
    table.push(OpCode::OpNegate);
    table.push(OpCode::OpAdd);
    table.push(OpCode::OpSubtract);
    table.push(OpCode::OpMultiply);
    table.push(OpCode::OpDivide);
    table.push(OpCode::OpConstant);
    assert(table@ =~= registry());
    table
}

/// Decodes a byte: `None` for a byte that stands for no instruction.
pub fn u8_to_opcode(i: u8) -> (r: Option<OpCode>)
    ensures
        r == decode(i),
{
    match i {
        0 => Some(OpCode::OpReturn),
        1 => Some(OpCode::OpNegate),
        2 => Some(OpCode::OpAdd),
        3 => Some(OpCode::OpSubtract),
        4 => Some(OpCode::OpMultiply),
        5 => Some(OpCode::OpDivide),
        6 => Some(OpCode::OpConstant),
        _ => None,
    }
}

/// Encodes an instruction.
pub fn opcode_to_u8(opcode: OpCode) -> (r: u8)
    ensures
        r == encode(opcode),
{
    match opcode {
        OpCode::OpReturn => 0,
        OpCode::OpNegate => 1,
        OpCode::OpAdd => 2,
        OpCode::OpSubtract => 3,
        OpCode::OpMultiply => 4,
        OpCode::OpDivide => 5,
        OpCode::OpConstant => 6,
    }
}

/// Decoding undoes encoding: every instruction is recovered from its byte.
pub proof fn lemma_decode_encode(op: OpCode)
    ensures
        decode(encode(op)) == Some(op),
{
}

/// Encoding undoes decoding, and exactly the bytes below seven decode.
pub proof fn lemma_encode_decode(byte: u8)
    ensures
        decode(byte) is Some <==> byte < 7,
        decode(byte) is Some ==> encode(decode(byte)->0) == byte,
{
}

/// The registry lists the instructions by their encodings: position `b`
/// holds the instruction that `b` decodes to, and no other byte decodes.
pub proof fn lemma_registry_decodes(byte: u8)
    ensures
        registry().len() == 7,
        decode(byte) == (if byte < registry().len() {
            Some(registry()[byte as int])
        } else {
            None
        }),
{
}

} // verus!
