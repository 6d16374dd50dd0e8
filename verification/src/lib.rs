//! An assembler for a small 8-bit CPU: mnemonic source lines are parsed,
//! lowered to machine operations, resolved against their labels and encoded
//! as the bit-vector assignments of a simulation task.

pub mod assemble;
pub mod error;
pub mod instruction;
pub mod parse_file;
pub mod symbols;
pub mod text;
pub mod types;

pub use assemble::{parse_program, to_verilog};
pub use error::{AsmError, SourceError};
pub use instruction::{Field, Op};
pub use parse_file::{Bit, BitOp, Data, Line, Mnemonic, NoOutTwoArgOp, OneArgOp, TwoArgOp};
pub use symbols::SymbolTable;
pub use types::{Address, BitPos, Reg};
