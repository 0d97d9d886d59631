use rlox::chunk::{add_constant, copy_chunk, init_chunk, write_chunk_opcode, write_chunk_u8};
use rlox::common::OpCode;
use rlox::value::{init_value_array, write_value_array, Value};

fn literal(start: usize) -> Value {
    Value::Literal { start, length: 1 }
}

#[test]
fn new_chunk_is_empty() {
    let chunk = init_chunk();
    assert!(chunk.code.is_empty());
    assert!(chunk.lines.is_empty());
    assert!(chunk.constants.values.is_empty());
}

#[test]
fn writes_keep_code_and_lines_in_step() {
    let mut chunk = init_chunk();
    write_chunk_opcode(&mut chunk, OpCode::OpConstant, 3);
    assert_eq!(chunk.code.len(), chunk.lines.len());
    write_chunk_u8(&mut chunk, 0, 3);
    assert_eq!(chunk.code.len(), chunk.lines.len());
    write_chunk_opcode(&mut chunk, OpCode::OpReturn, 4);
    assert_eq!(chunk.code, vec![6, 0, 0]);
    assert_eq!(chunk.lines, vec![3, 3, 4]);
}

#[test]
fn constants_are_numbered_from_zero() {
    let mut chunk = init_chunk();
    assert_eq!(add_constant(&mut chunk, literal(0)), 0);
    assert_eq!(add_constant(&mut chunk, literal(2)), 1);
    assert_eq!(add_constant(&mut chunk, Value::Zero), 2);
    assert_eq!(chunk.constants.values, vec![literal(0), literal(2), Value::Zero]);
    assert!(chunk.code.is_empty());
    assert!(chunk.lines.is_empty());
}

#[test]
fn constant_index_is_cut_to_eight_bits() {
    let mut chunk = init_chunk();
    for position in 0..256 {
        assert_eq!(add_constant(&mut chunk, literal(position)) as usize, position);
    }
    assert_eq!(add_constant(&mut chunk, literal(256)), 0);
    assert_eq!(add_constant(&mut chunk, literal(257)), 1);
    assert_eq!(chunk.constants.values.len(), 258);
}

#[test]
fn copy_holds_the_same_as_the_chunk() {
    let mut chunk = init_chunk();
    let index = add_constant(&mut chunk, Value::Negate(Box::new(literal(5))));
    write_chunk_opcode(&mut chunk, OpCode::OpConstant, 1);
    write_chunk_u8(&mut chunk, index, 1);
    let copy = copy_chunk(&chunk);
    assert_eq!(copy.code, chunk.code);
    assert_eq!(copy.lines, chunk.lines);
    assert_eq!(copy.constants.values, chunk.constants.values);
    write_chunk_opcode(&mut chunk, OpCode::OpReturn, 1);
    assert_eq!(copy.code, vec![6, 0]);
}

#[test]
fn value_array_appends_in_order() {
    let mut array = init_value_array();
    assert!(array.values.is_empty());
    write_value_array(&mut array, literal(1));
    write_value_array(&mut array, Value::Zero);
    assert_eq!(array.values, vec![literal(1), Value::Zero]);
    assert_eq!(array.duplicate().values, array.values);
}

#[test]
fn duplicate_copies_every_node() {
    let value = Value::Divide(
        Box::new(Value::Add(Box::new(literal(0)), Box::new(Value::Zero))),
        Box::new(Value::Multiply(
            Box::new(Value::Negate(Box::new(literal(4)))),
            Box::new(Value::Subtract(Box::new(literal(6)), Box::new(literal(8)))),
        )),
    );
    assert_eq!(value.duplicate(), value);
}
