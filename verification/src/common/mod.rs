use vstd::prelude::*;

verus! {

/// The instruction set. Each opcode is one byte: `Constant` is 0x01, `Add` 0x03 and
/// `Return` 0x0F; the other arithmetic opcodes follow `Add` (`Subtract` 0x04,
/// `Multiply` 0x05, `Divide` 0x06, `Negate` 0x07). No other byte is an opcode.
#[derive(Debug, Clone, Copy, PartialEq, Eq, Structural)]
pub enum OpCode {
    /// Loads a constant from the constant pool onto the stack.
    Constant,
    /// Pop two values, add them, and push the result.
    Add,
    /// Pop two values, subtract them, and push the result.
    Subtract,
    /// Pop two values, multiply them, and push the result.
    Multiply,
    /// Pop two values, divide them, and push the result.
    Divide,
    /// Negate the value at the top of the stack (unary minus).
    Negate,
    /// Finish execution and return from the current frame.
    Return,
}

/// The byte that encodes an opcode.
pub open spec fn opcode_byte(op: OpCode) -> u8 {
    match op {
        OpCode::Constant => 0x01,
        OpCode::Add => 0x03,
        OpCode::Subtract => 0x04,
        OpCode::Multiply => 0x05,
        OpCode::Divide => 0x06,
        OpCode::Negate => 0x07,
        OpCode::Return => 0x0F,
    }
}

/// The opcode that a byte stands for, if any.
pub open spec fn opcode_of(byte: u8) -> Option<OpCode> {
    if byte == 0x01 {
        Some(OpCode::Constant)
    } else if byte == 0x03 {
        Some(OpCode::Add)
    } else if byte == 0x04 {
        Some(OpCode::Subtract)
    } else if byte == 0x05 {
        Some(OpCode::Multiply)
    } else if byte == 0x06 {
        Some(OpCode::Divide)
    } else if byte == 0x07 {
        Some(OpCode::Negate)
    } else if byte == 0x0F {
        Some(OpCode::Return)
    } else {
        None
    }
}

/// The bytes of the instruction set.
pub open spec fn is_opcode_byte(byte: u8) -> bool {
    byte == 0x01 || (0x03 <= byte <= 0x07) || byte == 0x0F
}

impl OpCode {
    /// The byte that encodes this opcode in a chunk.
    pub fn to_byte(self) -> (b: u8)
        ensures
            b == opcode_byte(self),
    {
        match self {
            OpCode::Constant => 0x01,
            OpCode::Add => 0x03,
            OpCode::Subtract => 0x04,
            OpCode::Multiply => 0x05,
            OpCode::Divide => 0x06,
            OpCode::Negate => 0x07,
            OpCode::Return => 0x0F,
        }
    }

    /// Converts a raw byte back into an opcode during the fetch-decode cycle;
    /// a byte outside the instruction set gives `None`.
    pub fn decode(byte: u8) -> (op: Option<OpCode>)
        ensures
            op == opcode_of(byte),
    {
        match byte {
            0x01 => Some(OpCode::Constant),
            0x03 => Some(OpCode::Add),
            0x04 => Some(OpCode::Subtract),
            0x05 => Some(OpCode::Multiply),
            0x06 => Some(OpCode::Divide),
            0x07 => Some(OpCode::Negate),
            0x0F => Some(OpCode::Return),
            _ => None,
        }
    }
}

/// Encoding an opcode and decoding the byte gives the opcode back.
pub proof fn lemma_decode_to_byte(op: OpCode)
    ensures
        opcode_of(opcode_byte(op)) == Some(op),
        is_opcode_byte(opcode_byte(op)),
{
}

/// A byte decodes exactly when it is a byte of the instruction set, and then encodes back
/// to itself.
pub proof fn lemma_to_byte_decode(byte: u8)
    ensures
        opcode_of(byte) is Some <==> is_opcode_byte(byte),
        opcode_of(byte) matches Some(op) ==> opcode_byte(op) == byte,
{
}

/// The instruction set table: Constant 0x01, Add 0x03, Subtract 0x04, Multiply 0x05,
/// Divide 0x06, Negate 0x07, Return 0x0F, and no opcode for any other byte.
pub proof fn lemma_opcode_table(byte: u8)
    ensures
        opcode_byte(OpCode::Constant) == 0x01u8,
        opcode_byte(OpCode::Add) == 0x03u8,
        opcode_byte(OpCode::Subtract) == 0x04u8,
        opcode_byte(OpCode::Multiply) == 0x05u8,
        opcode_byte(OpCode::Divide) == 0x06u8,
        opcode_byte(OpCode::Negate) == 0x07u8,
        opcode_byte(OpCode::Return) == 0x0Fu8,
        opcode_of(byte) is None <==> !(byte == 0x01 || (0x03 <= byte <= 0x07) || byte == 0x0F),
        opcode_of(byte) matches Some(op) ==> opcode_byte(op) == byte,
{
}

} // verus!
