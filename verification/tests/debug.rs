use rlox::chunk::{add_constant, init_chunk, write_chunk_opcode, write_chunk_u8, Chunk};
use rlox::common::OpCode;
use rlox::compiler::{init_compiler, Parser};
use rlox::debug::{disassemble_chunk, disassemble_instruction};
use rlox::value::Value;

fn compiled(source: &str) -> Chunk {
    let mut compiler = init_compiler(source.to_string());
    compiler.compile(init_chunk()).chunk
}

fn texts(values: &[&str]) -> Vec<Vec<u8>> {
    values.iter().map(|value| value.as_bytes().to_vec()).collect()
}

#[test]
fn listing_of_a_sum() {
    let chunk = compiled("1 +\n2");
    let text = disassemble_chunk(&chunk, "sum", &texts(&["1", "2"]));
    let expected = [
        "== sum ==",
        "1 | 0000 OP_CONSTANT      0 '1'",
        "2 | 0002 OP_CONSTANT      1 '2'",
        "   | 0004 OP_ADD",
        "   | 0005 OP_RETURN",
        "=========",
        "",
    ];
    assert_eq!(String::from_utf8(text).unwrap(), expected.join("\n"));
}

#[test]
fn instruction_line_and_next_offset() {
    let chunk = compiled("-7");
    let mut offset = 0;
    let line = disassemble_instruction(&chunk, &mut offset, b"7");
    assert_eq!(String::from_utf8(line).unwrap(), "1 | 0000 OP_CONSTANT      0 '7'\n");
    assert_eq!(offset, 2);
    let line = disassemble_instruction(&chunk, &mut offset, b"");
    assert_eq!(String::from_utf8(line).unwrap(), "   | 0002 OP_NEGATE\n");
    assert_eq!(offset, 3);
    let line = disassemble_instruction(&chunk, &mut offset, b"");
    assert_eq!(String::from_utf8(line).unwrap(), "   | 0003 OP_RETURN\n");
    assert_eq!(offset, 4);
}

#[test]
fn line_numbers_are_set_to_the_right() {
    let mut chunk = init_chunk();
    write_chunk_opcode(&mut chunk, OpCode::OpSubtract, 9);
    write_chunk_opcode(&mut chunk, OpCode::OpMultiply, 123);
    write_chunk_opcode(&mut chunk, OpCode::OpDivide, -5);
    let text = disassemble_chunk(&chunk, "", &texts(&[]));
    assert_eq!(
        String::from_utf8(text).unwrap(),
        "==  ==\n  9 | 0000 OP_SUBTRACT\n123 | 0001 OP_MULTIPLY\n -5 | 0002 OP_DIVIDE\n======\n"
    );
}

#[test]
fn unknown_bytes_are_listed_by_number() {
    let mut chunk = init_chunk();
    write_chunk_u8(&mut chunk, 200, 1);
    write_chunk_u8(&mut chunk, 7, 1);
    let text = disassemble_chunk(&chunk, "x", &texts(&[]));
    assert_eq!(
        String::from_utf8(text).unwrap(),
        "== x ==\n1 | 0000 Unknown opcode 200\n   | 0001 Unknown opcode 7\n=======\n"
    );
}

#[test]
fn offsets_beyond_four_digits_are_not_cut() {
    let mut chunk = init_chunk();
    for _ in 0..10001 {
        write_chunk_opcode(&mut chunk, OpCode::OpNegate, 1);
    }
    let mut offset = 10000;
    let line = disassemble_instruction(&chunk, &mut offset, b"");
    assert_eq!(String::from_utf8(line).unwrap(), "   | 10000 OP_NEGATE\n");
}

#[test]
fn constant_without_text_is_listed_with_empty_quotes() {
    let mut chunk = init_chunk();
    let index = add_constant(&mut chunk, Value::Zero);
    write_chunk_opcode(&mut chunk, OpCode::OpConstant, 1);
    write_chunk_u8(&mut chunk, index, 1);
    let text = disassemble_chunk(&chunk, "c", &texts(&[]));
    assert_eq!(
        String::from_utf8(text).unwrap(),
        "== c ==\n1 | 0000 OP_CONSTANT      0 ''\n=======\n"
    );
}
