//! The ways in which assembling a program can fail.

use vstd::prelude::*;
use vstd::string::*;
use crate::parse_file::Mnemonic;

verus! {

/// Why a line, an operation or a program was rejected.
#[derive(Clone, Copy, Debug, PartialEq, Eq, Structural)]
pub enum AsmError {
    /// A line of one token that is neither `halt` nor a label declaration.
    UnknownStatement,
    /// The first token of a line with operands is no mnemonic.
    UnknownOperator,
    /// The mnemonic was given another number of operands than it takes.
    ArgumentCount(Mnemonic),
    /// A token that should name a register is none of `r0`..`r7`.
    InvalidRegister,
    /// A token that should name a flag is no flag name.
    InvalidFlag,
    /// What follows `#` is no decimal numeral of 16 bits.
    InvalidImmediate,
    /// A bit index is no decimal numeral of 8 bits.
    InvalidBitIndex,
    /// The operand of `movb` does not start with `in.`.
    InvalidPortBit,
    /// `mov` with an immediate value as its destination.
    ImmediateDestination,
    /// `mov` with an indirect operand whose other side is not a register.
    IndirectMismatch,
    /// `mov` with the input port as its destination.
    InputDestination,
    /// `mov` from the input port to something other than a register.
    InputSource,
    /// `mov` with the output port as its source.
    OutputSource,
    /// `mov` to the output port from something other than a register.
    OutputDestination,
    /// A register number above 7.
    RegisterOutOfRange,
    /// A bit position that does not fit in 4 bits.
    BitPositionOutOfRange,
    /// An address that does not fit in 11 bits.
    AddressOutOfRange,
    /// A program of more operations than a 16-bit address can count.
    ProgramTooLong,
    /// A task name that is empty or holds white space.
    InvalidTaskName,
    /// A label declared twice.
    DuplicateLabel,
    /// A branch to a label that the program does not declare.
    UndefinedLabel,
    /// A label marker or a two-byte load where an encodable operation is
    /// needed.
    PseudoOperation,
}

impl AsmError {
    /// What went wrong, in words.
    pub open spec fn message_text(self) -> Seq<char> {
        match self {
            AsmError::UnknownStatement => "neither halt nor a label declaration"@,
            AsmError::UnknownOperator => "invalid operator"@,
            AsmError::ArgumentCount(mnemonic) => "incorrect argument length for "@
                + mnemonic.name_text(),
            AsmError::InvalidRegister => "invalid register, use R0, R1, R2 ... R7"@,
            AsmError::InvalidFlag => "invalid flag bit"@,
            AsmError::InvalidImmediate => "immediate data cannot be parsed"@,
            AsmError::InvalidBitIndex => "invalid bit index"@,
            AsmError::InvalidPortBit => "must specify movb from IN reg"@,
            AsmError::ImmediateDestination => "you cannot have immediate data as destination"@,
            AsmError::IndirectMismatch => "must use indirect access with direct access"@,
            AsmError::InputDestination => "input register can never be destination"@,
            AsmError::InputSource =>
                "input register data can only be read to general purpose register"@,
            AsmError::OutputSource => "output register can never be source"@,
            AsmError::OutputDestination =>
                "output register can only be written to from general purpose register"@,
            AsmError::RegisterOutOfRange => "invalid reg number (should be between R0 and R7)"@,
            AsmError::BitPositionOutOfRange => "invalid bit pos (should be 4 bits)"@,
            AsmError::AddressOutOfRange => "invalid address (addr should be 11 bits)"@,
            AsmError::ProgramTooLong => "program too long (addresses are counted in 16 bits)"@,
            AsmError::InvalidTaskName => "invalid name (should be one word)"@,
            AsmError::DuplicateLabel => "label declared twice"@,
            AsmError::UndefinedLabel => "undefined label"@,
            AsmError::PseudoOperation => "a pseudo-operation has no instruction word"@,
        }
    }

    /// What went wrong, in words.
    pub fn message(&self) -> (r: String)
        ensures
            r@ == self.message_text(),
    {
        let text: &str = match self {
            AsmError::UnknownStatement => "neither halt nor a label declaration",
            AsmError::UnknownOperator => "invalid operator",
            AsmError::ArgumentCount(mnemonic) => {
                let mut r = String::from_str("incorrect argument length for ");
                r.append(mnemonic.name());
                return r;
            },
            AsmError::InvalidRegister => "invalid register, use R0, R1, R2 ... R7",
            AsmError::InvalidFlag => "invalid flag bit",
            AsmError::InvalidImmediate => "immediate data cannot be parsed",
            AsmError::InvalidBitIndex => "invalid bit index",
            AsmError::InvalidPortBit => "must specify movb from IN reg",
            AsmError::ImmediateDestination => "you cannot have immediate data as destination",
            AsmError::IndirectMismatch => "must use indirect access with direct access",
            AsmError::InputDestination => "input register can never be destination",
            AsmError::InputSource =>
                "input register data can only be read to general purpose register",
            AsmError::OutputSource => "output register can never be source",
            AsmError::OutputDestination =>
                "output register can only be written to from general purpose register",
            AsmError::RegisterOutOfRange => "invalid reg number (should be between R0 and R7)",
            AsmError::BitPositionOutOfRange => "invalid bit pos (should be 4 bits)",
            AsmError::AddressOutOfRange => "invalid address (addr should be 11 bits)",
            AsmError::ProgramTooLong => "program too long (addresses are counted in 16 bits)",
            AsmError::InvalidTaskName => "invalid name (should be one word)",
            AsmError::DuplicateLabel => "label declared twice",
            AsmError::UndefinedLabel => "undefined label",
            AsmError::PseudoOperation => "a pseudo-operation has no instruction word",
        };
        String::from_str(text)
    }
}

/// An error in a source text, with the number of the line that holds it,
/// counted from 1.
#[derive(Clone, Copy, Debug, PartialEq, Eq, Structural)]
pub struct SourceError {
    pub line: usize,
    pub error: AsmError,
}

} // verus!
