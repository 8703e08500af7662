pub mod chunk;
pub mod common;
pub mod compiler;
pub mod value;
pub mod vm;

pub use common::OpCode;
pub use value::Value;
pub use vm::VM;
