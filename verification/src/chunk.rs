//! The unit of compiled code: bytes, their source lines, and a pool of
//! constants.

use crate::common::{decode, encode, opcode_to_u8, OpCode};
use crate::value::{init_value_array, write_value_array, Value, ValueArray};
use vstd::prelude::*;

verus! {

/// A unit of compiled code.
///
/// `code` holds the instructions, each one opcode byte followed by its
/// operand bytes. `lines` holds, for each byte of `code`, the source line it
/// came from. `constants` is the pool that the operand of `OpConstant`
/// indexes.
#[derive(Debug)]
pub struct Chunk {
    pub code: Vec<u8>,
    pub lines: Vec<i32>,
    pub constants: ValueArray,
}

/// What a chunk holds, as sequences.
pub struct ChunkView {
    pub code: Seq<u8>,
    pub lines: Seq<i32>,
    pub constants: Seq<Value>,
}

impl View for Chunk {
    type V = ChunkView;

    open spec fn view(&self) -> ChunkView {
        ChunkView { code: self.code@, lines: self.lines@, constants: self.constants.values@ }
    }
}

impl ChunkView {
    /// The chunk with nothing in it.
    pub open spec fn empty() -> ChunkView {
        ChunkView { code: Seq::empty(), lines: Seq::empty(), constants: Seq::empty() }
    }

    /// Every byte of code has its line.
    pub open spec fn aligned(self) -> bool {
        self.code.len() == self.lines.len()
    }

    /// The chunk after one more byte, with its line.
    pub open spec fn write(self, byte: u8, line: i32) -> ChunkView {
        ChunkView { code: self.code.push(byte), lines: self.lines.push(line), ..self }
    }

    /// The chunk after one more constant.
    pub open spec fn with_constant(self, value: Value) -> ChunkView {
        ChunkView { constants: self.constants.push(value), ..self }
    }

    /// A whole instruction begins at `offset`: a byte that decodes, and
    /// for `OpConstant` an operand after it that addresses a constant of
    /// the pool.
    pub open spec fn instruction_at(self, offset: int) -> bool {
        &&& 0 <= offset < self.code.len()
        &&& match decode(self.code[offset]) {
            Some(OpCode::OpConstant) => {
                &&& offset + 1 < self.code.len()
                &&& self.code[offset + 1] < self.constants.len()
            },
            Some(_) => true,
            None => false,
        }
    }

    /// The offset after the instruction at `offset`: two bytes on for
    /// `OpConstant`, one byte on for every other byte.
    pub open spec fn next_offset(self, offset: int) -> int {
        if 0 <= offset < self.code.len() && decode(self.code[offset]) == Some(OpCode::OpConstant) {
            offset + 2
        } else {
            offset + 1
        }
    }

    /// From `offset` to its end the code is whole instructions, one after
    /// the other.
    pub open spec fn instructions_from(self, offset: int) -> bool
        decreases self.code.len() - offset,
    {
        if offset >= self.code.len() {
            offset == self.code.len()
        } else {
            self.instruction_at(offset) && self.instructions_from(self.next_offset(offset))
        }
    }

    /// The chunk without the last byte of its code.
    pub open spec fn without_last(self) -> ChunkView {
        ChunkView { code: self.code.drop_last(), lines: self.lines.drop_last(), ..self }
    }

    /// The code is whole instructions, and the last of them is a return.
    pub open spec fn ends_in_return(self) -> bool {
        &&& self.code.len() > 0
        &&& self.code.last() == encode(OpCode::OpReturn)
        &&& self.without_last().instructions_from(0)
        &&& self.instructions_from(0)
    }

    /// Every byte of code has its line, and the code is whole
    /// instructions.
    pub open spec fn well_formed(self) -> bool {
        self.aligned() && self.instructions_from(0)
    }
}

/// Whole instructions stay whole when the pool grows.
pub proof fn lemma_instructions_with_constant(chunk: ChunkView, offset: int, value: Value)
    requires
        chunk.instructions_from(offset),
    ensures
        chunk.with_constant(value).instructions_from(offset),
    decreases chunk.code.len() - offset,
{
    if offset < chunk.code.len() {
        lemma_instructions_with_constant(chunk, chunk.next_offset(offset), value);
    }
}

/// Whole instructions stay whole when an instruction with no operand is
/// written after them.
pub proof fn lemma_instructions_write_simple(chunk: ChunkView, offset: int, op: OpCode, line: i32)
    requires
        0 <= offset,
        chunk.instructions_from(offset),
        op != OpCode::OpConstant,
    ensures
        chunk.write(encode(op), line).instructions_from(offset),
    decreases chunk.code.len() - offset,
{
    let after = chunk.write(encode(op), line);
    if offset < chunk.code.len() {
        lemma_instructions_write_simple(chunk, chunk.next_offset(offset), op, line);
        assert(after.code[offset] == chunk.code[offset]);
        if decode(chunk.code[offset]) == Some(OpCode::OpConstant) {
            assert(after.code[offset + 1] == chunk.code[offset + 1]);
        }
    } else {
        assert(after.code[offset] == encode(op));
        assert(after.instruction_at(offset));
        assert(after.instructions_from(offset + 1));
    }
}

/// Whole instructions stay whole when a load of a constant of the pool is
/// written after them.
pub proof fn lemma_instructions_write_constant(
    chunk: ChunkView,
    offset: int,
    operand: u8,
    line: i32,
    operand_line: i32,
)
    requires
        0 <= offset,
        chunk.instructions_from(offset),
        operand < chunk.constants.len(),
    ensures
        chunk.write(encode(OpCode::OpConstant), line).write(
            operand,
            operand_line,
        ).instructions_from(offset),
    decreases chunk.code.len() - offset,
{
    let after = chunk.write(encode(OpCode::OpConstant), line).write(operand, operand_line);
    if offset < chunk.code.len() {
        lemma_instructions_write_constant(
            chunk,
            chunk.next_offset(offset),
            operand,
            line,
            operand_line,
        );
        assert(after.code[offset] == chunk.code[offset]);
        if decode(chunk.code[offset]) == Some(OpCode::OpConstant) {
            assert(after.code[offset + 1] == chunk.code[offset + 1]);
        }
    } else {
        assert(after.code[offset] == encode(OpCode::OpConstant));
        assert(after.code[offset + 1] == operand);
        assert(after.instruction_at(offset));
        assert(after.instructions_from(offset + 2));
    }
}

/// A copy of a chunk: the same code, lines and constants.
pub fn copy_chunk(chunk: &Chunk) -> (copy: Chunk)
    ensures
        copy@ == chunk@,
{
    Chunk {
        code: chunk.code.clone(),
        lines: chunk.lines.clone(),
        constants: chunk.constants.duplicate(),
    }
}

/// A chunk with nothing in it.
pub fn init_chunk() -> (chunk: Chunk)
    ensures
        chunk@ == ChunkView::empty(),
{
    Chunk { code: Vec::new(), lines: Vec::new(), constants: init_value_array() }
}

/// Appends the byte of an instruction, with the line it came from.
pub fn write_chunk_opcode(chunk: &mut Chunk, op: OpCode, line: i32)
    ensures
        final(chunk)@ == old(chunk)@.write(encode(op), line),
        old(chunk)@.aligned() ==> final(chunk)@.aligned(),
{
    chunk.code.push(opcode_to_u8(op));
    chunk.lines.push(line);
}

/// Appends a raw byte, with the line it came from.
pub fn write_chunk_u8(chunk: &mut Chunk, value: u8, line: i32)
    ensures
        final(chunk)@ == old(chunk)@.write(value, line),
        old(chunk)@.aligned() ==> final(chunk)@.aligned(),
{
    chunk.code.push(value);
    chunk.lines.push(line);
}

/// Appends a constant to the pool and returns its position, cut to eight
/// bits: the caller compares the size of the pool with what one byte can
/// address before it takes the result for the position.
pub fn add_constant(chunk: &mut Chunk, value: Value) -> (index: u8)
    ensures
        final(chunk)@ == old(chunk)@.with_constant(value),
        index as int == old(chunk)@.constants.len() % 256,
        old(chunk)@.aligned() ==> final(chunk)@.aligned(),
{
    write_value_array(&mut chunk.constants, value);
    ((chunk.constants.values.len() - 1) % 256) as u8
}

} // verus!
