//! The disassembler: a chunk as text, one line for each instruction.
//!
//! The text is stated as a function of the chunk; the disassembler is proved
//! to write exactly that text. A number has no text of its own here: the
//! embedding program hands in the text of each constant.

use crate::chunk::{Chunk, ChunkView};
use crate::common::{decode, u8_to_opcode, OpCode};
use crate::text::{
    decimal, decimal_width, push_byte, push_bytes, push_decimal, push_repeat, push_signed, repeat,
    signed_decimal, signed_width,
};
use vstd::prelude::*;
use vstd::string::StringSliceAdditionalSpecFns;

verus! {

/// The width of the widest line number among the given ones.
pub open spec fn widest(lines: Seq<i32>) -> nat
    decreases lines.len(),
{
    if lines.len() == 0 {
        0
    } else {
        let rest = widest(lines.drop_last());
        let last = signed_decimal(lines.last() as int).len();
        if rest < last {
            last
        } else {
            rest
        }
    }
}

/// The name of an instruction.
pub open spec fn mnemonic(op: OpCode) -> &'static str {
    match op {
        OpCode::OpReturn => "OP_RETURN",
        OpCode::OpNegate => "OP_NEGATE",
        OpCode::OpAdd => "OP_ADD",
        OpCode::OpSubtract => "OP_SUBTRACT",
        OpCode::OpMultiply => "OP_MULTIPLY",
        OpCode::OpDivide => "OP_DIVIDE",
        OpCode::OpConstant => "OP_CONSTANT",
    }
}

/// The column of the line number. A byte from the same line as the byte
/// before it gets a bar; any other gets its line number, set to the right
/// in the width of the widest line number of the chunk.
pub open spec fn line_column(chunk: ChunkView, offset: int) -> Seq<u8> {
    if offset > 0 && chunk.lines[offset] == chunk.lines[offset - 1] {
        "   | ".spec_bytes()
    } else {
        let text = signed_decimal(chunk.lines[offset] as int);
        repeat(32, widest(chunk.lines) - text.len()) + text + " | ".spec_bytes()
    }
}

/// The column of the offset: four digits at least, with leading zeros,
/// and a space.
pub open spec fn offset_column(offset: int) -> Seq<u8> {
    let text = decimal(offset as nat);
    repeat(48, 4 - text.len()) + text + seq![32u8]
}

/// A text with the listing of an instruction with no operand after it:
/// the name and a newline.
pub open spec fn simple_text(before: Seq<u8>, name: &str) -> Seq<u8> {
    before + name.spec_bytes() + seq![10u8]
}

/// A text with the listing of a load of a constant after it: the name,
/// set to the left in sixteen columns, a space, the operand, a space, the
/// text of the constant in single quotes, and a newline.
pub open spec fn constant_text(before: Seq<u8>, name: &str, operand: u8, value: Seq<u8>) -> Seq<
    u8,
> {
    before + name.spec_bytes() + repeat(32, 16 - name.spec_bytes().len()) + seq![32u8] + decimal(
        operand as nat,
    ) + seq![32u8] + seq![39u8] + value + seq![39u8] + seq![10u8]
}

/// A text with the listing of a byte that is no instruction after it.
pub open spec fn unknown_text(before: Seq<u8>, byte: u8) -> Seq<u8> {
    before + "Unknown opcode ".spec_bytes() + decimal(byte as nat) + seq![10u8]
}

impl ChunkView {
    /// An instruction can be listed at `offset`: the byte is there with
    /// its line, and if it is a load of a constant its operand is there
    /// too.
    pub open spec fn listable_at(self, offset: int) -> bool {
        &&& 0 <= offset < self.code.len()
        &&& offset < self.lines.len()
        &&& offset > 0 ==> offset - 1 < self.lines.len()
        &&& decode(self.code[offset]) == Some(OpCode::OpConstant) ==> offset + 1
            < self.code.len()
    }

    /// Instructions can be listed one after the other from `offset` to
    /// the end of the code.
    pub open spec fn listable_from(self, offset: int) -> bool
        decreases self.code.len() - offset,
    {
        if offset >= self.code.len() {
            true
        } else {
            self.listable_at(offset) && self.listable_from(self.next_offset(offset))
        }
    }

    /// The line of text for the instruction at `offset`, where `value` is
    /// the text of the constant that the instruction loads, if it loads
    /// one.
    pub open spec fn instruction_text(self, offset: int, value: Seq<u8>) -> Seq<u8> {
        let columns = line_column(self, offset) + offset_column(offset);
        match decode(self.code[offset]) {
            Some(OpCode::OpConstant) => constant_text(
                columns,
                mnemonic(OpCode::OpConstant),
                self.code[offset + 1],
                value,
            ),
            Some(op) => simple_text(columns, mnemonic(op)),
            None => unknown_text(columns, self.code[offset]),
        }
    }

    /// The lines of text for the instructions from `offset` on, where
    /// `values` holds the text of each constant of the pool at its
    /// position.
    pub open spec fn listing_from(self, offset: int, values: Seq<Seq<u8>>) -> Seq<u8>
        decreases self.code.len() + 1 - offset,
    {
        if offset >= self.code.len() || offset < 0 {
            Seq::empty()
        } else {
            self.instruction_text(offset, value_text(values, self.code[offset + 1] as int))
                + self.listing_from(self.next_offset(offset), values)
        }
    }

    /// The text of a whole chunk under a name: a banner with the name,
    /// the lines of the instructions, and a closing rule as wide as the
    /// banner.
    pub open spec fn listing(self, name: &str, values: Seq<Seq<u8>>) -> Seq<u8> {
        "== ".spec_bytes() + name.spec_bytes() + " ==".spec_bytes() + seq![10u8]
            + self.listing_from(0, values) + "===".spec_bytes() + repeat(
            61,
            name.spec_bytes().len() as int,
        ) + "===".spec_bytes() + seq![10u8]
    }
}

/// The text at a position of the list of texts, and no text where the
/// list has none.
pub open spec fn value_text(values: Seq<Seq<u8>>, index: int) -> Seq<u8> {
    if 0 <= index < values.len() {
        values[index]
    } else {
        Seq::empty()
    }
}

/// The texts that a list of byte vectors holds.
pub open spec fn texts(values: Seq<Vec<u8>>) -> Seq<Seq<u8>> {
    Seq::new(values.len(), |i: int| values[i]@)
}

/// Where every byte has its line, a whole instruction can be listed.
pub proof fn lemma_instruction_listable(chunk: ChunkView, offset: int)
    requires
        chunk.aligned(),
        chunk.instruction_at(offset),
    ensures
        chunk.listable_at(offset),
{
}

/// A chunk of whole instructions, each byte with its line, can be listed
/// from each of its instructions on.
pub proof fn lemma_well_formed_listable(chunk: ChunkView, offset: int)
    requires
        chunk.aligned(),
        0 <= offset,
        chunk.instructions_from(offset),
    ensures
        chunk.listable_from(offset),
    decreases chunk.code.len() - offset,
{
    if offset < chunk.code.len() {
        lemma_well_formed_listable(chunk, chunk.next_offset(offset));
    }
}

/// The width of the widest line number of a chunk.
fn widest_line(lines: &Vec<i32>) -> (width: usize)
    ensures
        width == widest(lines@),
        width <= 21,
{
    let mut width: usize = 0;
    let mut i: usize = 0;
    while i < lines.len()
        invariant
            i <= lines.len(),
            width == widest(lines@.subrange(0, i as int)),
            width <= 21,
        decreases lines.len() - i,
    {
        let w = signed_width(lines[i]);
        proof {
            let upto = lines@.subrange(0, i + 1);
            assert(upto.drop_last() =~= lines@.subrange(0, i as int));
            assert(upto.last() == lines@[i as int]);
        }
        if width < w {
            width = w;
        }
        i += 1;
    }
    assert(lines@.subrange(0, lines.len() as int) =~= lines@);
    width
}

/// Writes the listing of a whole chunk under a name: a banner, a line for
/// each instruction, and a closing rule. `values` holds the text of each
/// constant of the pool at its position.
pub fn disassemble_chunk(chunk: &Chunk, name: &str, values: &Vec<Vec<u8>>) -> (text: Vec<u8>)
    requires
        chunk@.listable_from(0),
    ensures
        text@ == chunk@.listing(name, texts(values@)),
{
    let mut text: Vec<u8> = Vec::new();
    push_bytes(&mut text, "== ".as_bytes());
    push_bytes(&mut text, name.as_bytes());
    push_bytes(&mut text, " ==".as_bytes());
    push_byte(&mut text, 10);
    let ghost banner = text@;
    let mut offset: usize = 0;
    while offset < chunk.code.len()
        invariant
            offset <= chunk.code.len() + 1,
            chunk@.listable_from(offset as int),
            banner + chunk@.listing_from(0, texts(values@)) == text@ + chunk@.listing_from(
                offset as int,
                texts(values@),
            ),
        decreases chunk.code.len() + 1 - offset,
    {
        let ghost before = offset as int;
        let empty: Vec<u8> = Vec::new();
        let operand = if offset + 1 < chunk.code.len() {
            chunk.code[offset + 1] as usize
        } else {
            values.len()
        };
        let value: &Vec<u8> = if operand < values.len() {
            &values[operand]
        } else {
            &empty
        };
        let line = disassemble_instruction(chunk, &mut offset, value.as_slice());
        push_bytes(&mut text, line.as_slice());
        proof {
            let all = texts(values@);
            let shown = value_text(all, chunk@.code[before + 1] as int);
            if decode(chunk@.code[before]) == Some(OpCode::OpConstant) {
                assert(shown == value@);
            }
            assert(chunk@.instruction_text(before, shown) == chunk@.instruction_text(
                before,
                value@,
            ));
            assert(text@ + chunk@.listing_from(offset as int, all) =~= banner
                + chunk@.listing_from(0, all));
        }
    }
    proof {
        assert(chunk@.listing_from(offset as int, texts(values@)) =~= Seq::<u8>::empty());
        assert(text@ =~= banner + chunk@.listing_from(0, texts(values@)));
    }
    push_bytes(&mut text, "===".as_bytes());
    push_repeat(&mut text, 61, name.as_bytes().len());
    push_bytes(&mut text, "===".as_bytes());
    push_byte(&mut text, 10);
    proof {
        assert(banner =~= "== ".spec_bytes() + name.spec_bytes() + " ==".spec_bytes() + seq![
            10u8,
        ]);
    }
    text
}

/// Writes the line of the instruction at the offset, and moves the offset
/// to the next instruction. `value` is the text of the constant that the
/// instruction loads, if it loads one.
pub fn disassemble_instruction(chunk: &Chunk, offset: &mut usize, value: &[u8]) -> (text: Vec<u8>)
    requires
        chunk@.listable_at(*old(offset) as int),
    ensures
        text@ == chunk@.instruction_text(*old(offset) as int, value@),
        *final(offset) == chunk@.next_offset(*old(offset) as int),
{
    let at: usize = *offset;
    let length = chunk.code.len();
    let mut text: Vec<u8> = Vec::new();
    let padding = widest_line(&chunk.lines);
    if at > 0 && chunk.lines[at] == chunk.lines[at - 1] {
        push_bytes(&mut text, "   | ".as_bytes());
    } else {
        let width = signed_width(chunk.lines[at]);
        if width < padding {
            push_repeat(&mut text, 32, padding - width);
        } else {
            push_repeat(&mut text, 32, 0);
        }
        push_signed(&mut text, chunk.lines[at]);
        push_bytes(&mut text, " | ".as_bytes());
    }
    assert(text@ =~= line_column(chunk@, at as int));
    let digits = decimal_width(at as u64);
    if digits < 4 {
        push_repeat(&mut text, 48, 4 - digits);
    } else {
        push_repeat(&mut text, 48, 0);
    }
    push_decimal(&mut text, at as u64);
    push_byte(&mut text, 32);
    assert(text@ =~= line_column(chunk@, at as int) + offset_column(at as int));
    let byte = chunk.code[at];
    let next = match u8_to_opcode(byte) {
        Some(OpCode::OpReturn) => simple_instruction("OP_RETURN", at, &mut text),
        Some(OpCode::OpNegate) => simple_instruction("OP_NEGATE", at, &mut text),
        Some(OpCode::OpAdd) => simple_instruction("OP_ADD", at, &mut text),
        Some(OpCode::OpSubtract) => simple_instruction("OP_SUBTRACT", at, &mut text),
        Some(OpCode::OpMultiply) => simple_instruction("OP_MULTIPLY", at, &mut text),
        Some(OpCode::OpDivide) => simple_instruction("OP_DIVIDE", at, &mut text),
        Some(OpCode::OpConstant) => constant_instruction(
            "OP_CONSTANT",
            chunk,
            at,
            value,
            &mut text,
        ),
        None => {
            push_bytes(&mut text, "Unknown opcode ".as_bytes());
            push_decimal(&mut text, byte as u64);
            push_byte(&mut text, 10);
            at + 1
        },
    };
    *offset = next;
    text
}

/// Writes the name of an instruction with no operand, and gives the offset
/// of the next instruction.
fn simple_instruction(name: &str, offset: usize, out: &mut Vec<u8>) -> (next: usize)
    requires
        offset < usize::MAX,
    ensures
        final(out)@ == simple_text(old(out)@, name),
        next == offset + 1,
{
    push_bytes(out, name.as_bytes());
    push_byte(out, 10);
    offset + 1
}

/// Writes a load of a constant: the name, the operand and the text of the
/// constant. Gives the offset of the next instruction.
fn constant_instruction(
    name: &str,
    chunk: &Chunk,
    offset: usize,
    value: &[u8],
    out: &mut Vec<u8>,
) -> (next: usize)
    requires
        offset + 1 < chunk@.code.len(),
    ensures
        final(out)@ == constant_text(old(out)@, name, chunk@.code[offset + 1], value@),
        next == offset + 2,
{
    let length = chunk.code.len();
    let constant = chunk.code[offset + 1];
    let letters = name.as_bytes();
    push_bytes(out, letters);
    if letters.len() < 16 {
        push_repeat(out, 32, 16 - letters.len());
    } else {
        push_repeat(out, 32, 0);
    }
    push_byte(out, 32);
    push_decimal(out, constant as u64);
    push_byte(out, 32);
    push_byte(out, 39);
    push_bytes(out, value);
    push_byte(out, 39);
    push_byte(out, 10);
    offset + 2
}

} // verus!
