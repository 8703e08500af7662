use lib::chunk::Chunk;
use lib::common::OpCode;
use lib::value::Value;

#[test]
fn opcode_bytes_follow_the_instruction_set_table() {
    let ops = [
        (OpCode::Constant, 0x01u8),
        (OpCode::Add, 0x03),
        (OpCode::Subtract, 0x04),
        (OpCode::Multiply, 0x05),
        (OpCode::Divide, 0x06),
        (OpCode::Negate, 0x07),
        (OpCode::Return, 0x0F),
    ];
    for (op, byte) in ops {
        assert_eq!(op.to_byte(), byte);
        assert_eq!(OpCode::decode(byte), Some(op));
    }
}

#[test]
fn bytes_outside_the_instruction_set_do_not_decode() {
    for b in 0..=255u8 {
        let is_opcode = b == 0x01 || (0x03..=0x07).contains(&b) || b == 0x0F;
        assert_eq!(OpCode::decode(b).is_some(), is_opcode, "{}", b);
    }
}

#[test]
fn chunk_starts_empty() {
    let chunk = Chunk::new();
    assert!(chunk.code.is_empty());
    assert!(chunk.constants.is_empty());
}

#[test]
fn write_appends_bytes() {
    let mut chunk = Chunk::new();
    chunk.write(OpCode::Constant.to_byte());
    chunk.write(0);
    chunk.write(OpCode::Return.to_byte());
    assert_eq!(chunk.code, vec![0x01, 0, 0x0F]);
    assert!(chunk.constants.is_empty());
}

#[test]
fn add_constant_returns_its_index() {
    let mut chunk = Chunk::new();
    let a = chunk.add_constant(Value::from_raw(5.0f64.to_bits()));
    let b = chunk.add_constant(Value::from_raw(10.5f64.to_bits()));
    assert_eq!(a, 0);
    assert_eq!(b, 1);
    assert_eq!(chunk.constants[a as usize].raw(), 5.0f64.to_bits());
    assert_eq!(chunk.constants[b as usize].raw(), 10.5f64.to_bits());
    assert!(chunk.code.is_empty());
}

#[test]
fn constant_index_wraps_after_256() {
    let mut chunk = Chunk::new();
    let mut last = 0;
    for i in 0..257u64 {
        last = chunk.add_constant(Value::from_raw(i));
    }
    assert_eq!(last, 0);
    assert_eq!(chunk.constants.len(), 257);
}
