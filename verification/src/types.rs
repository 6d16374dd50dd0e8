//! The scalar operands of an instruction: registers, bit positions and
//! addresses.

use vstd::prelude::*;
use vstd::string::*;
use crate::error::AsmError;
use crate::text::{
    ascii_lowered, chars_of, decimal, digit_char, digit_value, free_of, is_word, lowered,
    push_decimal, to_lower,
};

verus! {

/// One of the eight general-purpose registers.
#[derive(Clone, Copy, Debug, PartialEq, Eq, Structural)]
pub struct Reg(pub u8);

/// A bit within a register or port, or a status flag.
#[derive(Clone, Copy, Debug, PartialEq, Eq, Structural)]
pub struct BitPos(pub u8);

/// A location in instruction memory.
#[derive(Clone, Copy, Debug, PartialEq, Eq, Structural)]
pub struct Address(pub u16);

/// The register that a lower-case token names.
pub open spec fn register_named(token: Seq<char>) -> Option<Reg> {
    if token.len() == 2 && token[0] == 'r' && '0' <= token[1] <= '7' {
        Some(Reg(digit_value(token[1]) as u8))
    } else {
        None
    }
}

/// The register that the lower-case token `v` names.
pub fn register_of(v: &Vec<char>) -> (r: Option<Reg>)
    ensures
        r == register_named(v@),
{
    if v.len() == 2 && v[0] == 'r' && '0' <= v[1] && v[1] <= '7' {
        Some(Reg((v[1] as u8) - 48))
    } else {
        None
    }
}

impl Reg {
    /// A register number is at most 7.
    pub open spec fn valid(self) -> bool {
        self.0 <= 7
    }

    /// The token that names the register in a source line.
    pub open spec fn name(self) -> Seq<char> {
        seq!['r', digit_char(self.0 as nat)]
    }

    /// The register's token in an instruction word.
    pub open spec fn literal_text(self) -> Seq<char> {
        "REG"@ + decimal(self.0 as nat)
    }

    /// The register that `str` names, in either case.
    pub fn from_str(str: &str) -> (r: Result<Reg, AsmError>)
        ensures
            r == match register_named(lowered(str@)) {
                Some(reg) => Ok::<Reg, AsmError>(reg),
                None => Err(AsmError::InvalidRegister),
            },
    {
        let token = to_lower(&chars_of(str));
        match register_of(&token) {
            Some(reg) => Ok(reg),
            None => Err(AsmError::InvalidRegister),
        }
    }

    /// The register's token in an instruction word, unless its number is
    /// out of range.
    pub fn literal(&self) -> (r: Result<String, AsmError>)
        ensures
            match r {
                Ok(s) => self.valid() && s@ == self.literal_text(),
                Err(e) => !self.valid() && e == AsmError::RegisterOutOfRange,
            },
    {
        if self.0 > 7 {
            return Err(AsmError::RegisterOutOfRange);
        }
        let mut s = String::from_str("REG");
        push_decimal(&mut s, self.0 as u64);
        Ok(s)
    }
}

/// A register's name is read back as that register, in small letters and
/// in capitals; and its token in an instruction word carries the digit of
/// its name.
pub proof fn lemma_register_name_read_back(reg: Reg)
    requires
        reg.valid(),
    ensures
        register_named(reg.name()) == Some(reg),
        register_named(lowered(reg.name())) == Some(reg),
        register_named(lowered(seq!['R', digit_char(reg.0 as nat)])) == Some(reg),
        reg.literal_text() == "REG"@ + reg.name().skip(1),
{
    let small = reg.name();
    let capital = seq!['R', digit_char(reg.0 as nat)];
    assert(ascii_lowered(small) == small);
    assert(ascii_lowered(capital) == small);
    assert(decimal(reg.0 as nat) == small.skip(1));
}

/// A token names a register only if it is that register's name: no token
/// names a register above 7.
pub proof fn lemma_register_named_valid(token: Seq<char>)
    ensures
        register_named(token) matches Some(reg) ==> reg.valid() && token == reg.name(),
{
    if let Some(reg) = register_named(token) {
        assert(token == reg.name());
    }
}

/// The flag that a lower-case token names. Each flag has a fixed position
/// in the status register, and most have a short and a long name.
pub open spec fn flag_named(token: Seq<char>) -> Option<BitPos> {
    if token == "c"@ || token == "carry"@ {
        Some(BitPos(0))
    } else if token == "v"@ || token == "overflow"@ {
        Some(BitPos(1))
    } else if token == "cmp"@ || token == "compare"@ {
        Some(BitPos(2))
    } else if token == "eq"@ || token == "equal"@ {
        Some(BitPos(3))
    } else if token == "io"@ {
        Some(BitPos(4))
    } else if token == "p"@ || token == "parity"@ {
        Some(BitPos(5))
    } else if token == "n"@ || token == "negative"@ {
        Some(BitPos(6))
    } else if token == "z"@ || token == "zero"@ {
        Some(BitPos(7))
    } else {
        None
    }
}

/// No flag name holds a dot.
pub proof fn lemma_flag_name_without_dot(token: Seq<char>)
    requires
        flag_named(token) is Some,
    ensures
        free_of(token, '.'),
{
    reveal_strlit("c");
    reveal_strlit("carry");
    reveal_strlit("v");
    reveal_strlit("overflow");
    reveal_strlit("cmp");
    reveal_strlit("compare");
    reveal_strlit("eq");
    reveal_strlit("equal");
    reveal_strlit("io");
    reveal_strlit("p");
    reveal_strlit("parity");
    reveal_strlit("n");
    reveal_strlit("negative");
    reveal_strlit("z");
    reveal_strlit("zero");
}

/// The flag that the lower-case token `v` names.
pub fn flag_of(v: &Vec<char>) -> (r: Option<BitPos>)
    ensures
        r == flag_named(v@),
{
    if is_word(v, "c") || is_word(v, "carry") {
        Some(BitPos(0))
    } else if is_word(v, "v") || is_word(v, "overflow") {
        Some(BitPos(1))
    } else if is_word(v, "cmp") || is_word(v, "compare") {
        Some(BitPos(2))
    } else if is_word(v, "eq") || is_word(v, "equal") {
        Some(BitPos(3))
    } else if is_word(v, "io") {
        Some(BitPos(4))
    } else if is_word(v, "p") || is_word(v, "parity") {
        Some(BitPos(5))
    } else if is_word(v, "n") || is_word(v, "negative") {
        Some(BitPos(6))
    } else if is_word(v, "z") || is_word(v, "zero") {
        Some(BitPos(7))
    } else {
        None
    }
}

impl BitPos {
    /// A bit position fits in 4 bits.
    pub open spec fn valid(self) -> bool {
        self.0 <= 15
    }

    /// The position's literal in an instruction word.
    pub open spec fn literal_text(self) -> Seq<char> {
        "4'd"@ + decimal(self.0 as nat)
    }

    /// The position of the flag that `bit` names, in either case.
    pub fn from_flag(bit: &str) -> (r: Result<BitPos, AsmError>)
        ensures
            r == match flag_named(lowered(bit@)) {
                Some(pos) => Ok::<BitPos, AsmError>(pos),
                None => Err(AsmError::InvalidFlag),
            },
    {
        let token = to_lower(&chars_of(bit));
        match flag_of(&token) {
            Some(pos) => Ok(pos),
            None => Err(AsmError::InvalidFlag),
        }
    }

    /// The position's literal in an instruction word, unless it is out of
    /// range.
    pub fn literal(&self) -> (r: Result<String, AsmError>)
        ensures
            match r {
                Ok(s) => self.valid() && s@ == self.literal_text(),
                Err(e) => !self.valid() && e == AsmError::BitPositionOutOfRange,
            },
    {
        if self.0 > 15 {
            return Err(AsmError::BitPositionOutOfRange);
        }
        let mut s = String::from_str("4'd");
        push_decimal(&mut s, self.0 as u64);
        Ok(s)
    }
}

impl Address {
    /// An address fits in 11 bits.
    pub open spec fn valid(self) -> bool {
        self.0 <= 2047
    }

    /// The address's literal in an instruction word.
    pub open spec fn literal_text(self) -> Seq<char> {
        "11'd"@ + decimal(self.0 as nat)
    }

    /// The address's literal in an instruction word, unless it is out of
    /// range.
    pub fn literal(&self) -> (r: Result<String, AsmError>)
        ensures
            match r {
                Ok(s) => self.valid() && s@ == self.literal_text(),
                Err(e) => !self.valid() && e == AsmError::AddressOutOfRange,
            },
    {
        if self.0 > 2047 {
            return Err(AsmError::AddressOutOfRange);
        }
        let mut s = String::from_str("11'd");
        push_decimal(&mut s, self.0 as u64);
        Ok(s)
    }
}

} // verus!
