# arceus-vm, verified

A stack-based bytecode virtual machine with NaN-boxed values and a hand-written scanner,
written in Verus.

- `src/value.rs`: the 64-bit NaN-boxed cell, its bit patterns and what each pattern denotes.
- `src/common/mod.rs`: the one-byte instruction set: `Constant` 0x01, `Add` 0x03,
  `Subtract` 0x04, `Multiply` 0x05, `Divide` 0x06, `Negate` 0x07, `Return` 0x0F.
- `src/chunk.rs`: bytecode and constant pool.
- `src/vm.rs`: the machine; `spec_step` is its semantics, one fetch-decode-execute cycle,
  and `VM::step` is proved to follow it.
- `src/compiler/mod.rs`: the scanner and the compile pass over a whole source; `scan` is
  its semantics over the source's UTF-8 bytes.
- `app/main.rs`: the program around the library: float arithmetic, formatting and printing.
