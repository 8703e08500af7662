use vstd::prelude::*;

use crate::value::Value;

verus! {

/// A contiguous block of bytecode instructions and its constant pool.
pub struct Chunk {
    pub code: Vec<u8>,
    pub constants: Vec<Value>,
}

/// The index that the constant pool hands out for the constant stored at `position`:
/// instructions address the pool with one byte, so the position is taken modulo 256.
pub open spec fn constant_index(position: int) -> int {
    position % 256
}

impl Chunk {
    /// An empty chunk.
    pub fn new() -> (chunk: Chunk)
        ensures
            chunk.code@ == Seq::<u8>::empty(),
            chunk.constants@ == Seq::<Value>::empty(),
    {
        Chunk { code: Vec::new(), constants: Vec::new() }
    }

    /// Appends a byte (opcode or operand) to the code.
    pub fn write(&mut self, byte: u8)
        ensures
            final(self).code@ == old(self).code@.push(byte),
            final(self).constants@ == old(self).constants@,
    {
        self.code.push(byte);
    }

    /// Appends a constant to the pool and returns its one-byte index,
    /// the value that `OpCode::Constant` takes as operand.
    pub fn add_constant(&mut self, value: Value) -> (index: u8)
        ensures
            final(self).constants@ == old(self).constants@.push(value),
            final(self).code@ == old(self).code@,
            index as int == constant_index(old(self).constants@.len() as int),
    {
        self.constants.push(value);
        let position: usize = self.constants.len() - 1;
        let index: u8 = position as u8;
        assert(index == position % 256) by (bit_vector)
            requires
                index == position as u8,
        ;
        index
    }
}

/// While the pool holds fewer than 256 constants, the index that `add_constant` returns
/// addresses the constant just added.
pub proof fn lemma_add_constant_index(pool: Seq<Value>, value: Value)
    requires
        pool.len() < 256,
    ensures
        pool.push(value)[constant_index(pool.len() as int)] == value,
        0 <= constant_index(pool.len() as int) < pool.push(value).len(),
{
}

} // verus!
