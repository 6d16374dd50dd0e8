//! Source lines: their syntax, and how a line becomes an operation.

use vstd::prelude::*;
use vstd::string::*;
use crate::error::AsmError;
use crate::instruction::{Op, OpView};
use crate::text::{
    chars_of, find, find_space, is_word, lemma_position, lowered, numeral, parse_number, pieces,
    position, slice, space_position, split, string_of, to_lower, trim, trimmed, views,
};
use crate::types::{
    flag_named, flag_of, lemma_flag_name_without_dot, register_named, register_of, BitPos, Reg,
};

verus! {

/// The one-operand arithmetic mnemonics.
#[derive(Clone, Copy, Debug, PartialEq, Eq, Structural)]
pub enum OneArgOp {
    Not,
    Inc,
    Rl,
    Rr,
}

/// The two-operand arithmetic mnemonics that name their output register.
#[derive(Clone, Copy, Debug, PartialEq, Eq, Structural)]
pub enum TwoArgOp {
    Add,
    Sub,
    And,
    Or,
    Xor,
}

/// The two-operand mnemonics without an output register.
#[derive(Clone, Copy, Debug, PartialEq, Eq, Structural)]
pub enum NoOutTwoArgOp {
    Mul,
    Div,
    Cmp,
}

/// What a bit operation does to its bit.
#[derive(Clone, Copy, Debug, PartialEq, Eq, Structural)]
pub enum BitOp {
    SetBit,
    Clear,
    Complement,
}

/// The bit that a bit operation works on.
#[derive(Clone, Copy, Debug, PartialEq, Eq, Structural)]
pub enum Bit {
    Reg(Reg, BitPos),
    Flag(BitPos),
}

/// One side of a `mov`.
#[derive(Clone, Copy, Debug, PartialEq, Eq, Structural)]
pub enum Data {
    Immediate(u16),
    Direct(Reg),
    Indirect(Reg),
    In,
    Out,
}

/// The mnemonics that take operands.
#[derive(Clone, Copy, Debug, PartialEq, Eq, Structural)]
pub enum Mnemonic {
    Mov,
    One(OneArgOp),
    Two(TwoArgOp),
    NoOut(NoOutTwoArgOp),
    Bit(BitOp),
    Movb,
    Jf,
    LoadBr,
}

/// One source statement, as it was written.
#[derive(Debug, PartialEq, Eq)]
pub enum Line {
    Move { source: Data, destination: Data },
    MathOneArg(OneArgOp, Reg, Reg),
    MathTwoArg(TwoArgOp, Reg, Reg, Reg),
    MathNoOutTwoArg(NoOutTwoArgOp, Reg, Reg),
    BitOp(BitOp, Bit),
    Movb(BitPos),
    JumpIf(BitPos),
    LoadBranch(String),
    Label(String),
    Halt,
}

/// A source statement as a mathematical value: label names are character
/// sequences.
pub enum LineView {
    Move { source: Data, destination: Data },
    MathOneArg(OneArgOp, Reg, Reg),
    MathTwoArg(TwoArgOp, Reg, Reg, Reg),
    MathNoOutTwoArg(NoOutTwoArgOp, Reg, Reg),
    BitOp(BitOp, Bit),
    Movb(BitPos),
    JumpIf(BitPos),
    LoadBranch(Seq<char>),
    Label(Seq<char>),
    Halt,
}

impl View for Line {
    type V = LineView;

    open spec fn view(&self) -> LineView {
        match *self {
            Line::Move { source, destination } => LineView::Move { source, destination },
            Line::MathOneArg(op, out, in1) => LineView::MathOneArg(op, out, in1),
            Line::MathTwoArg(op, out, in1, in2) => LineView::MathTwoArg(op, out, in1, in2),
            Line::MathNoOutTwoArg(op, in1, in2) => LineView::MathNoOutTwoArg(op, in1, in2),
            Line::BitOp(op, bit) => LineView::BitOp(op, bit),
            Line::Movb(pos) => LineView::Movb(pos),
            Line::JumpIf(pos) => LineView::JumpIf(pos),
            Line::LoadBranch(name) => LineView::LoadBranch(name@),
            Line::Label(name) => LineView::Label(name@),
            Line::Halt => LineView::Halt,
        }
    }
}

/// A parsing result, with the line as a mathematical value.
pub open spec fn line_view(r: Result<Line, AsmError>) -> Result<LineView, AsmError> {
    match r {
        Ok(line) => Ok(line@),
        Err(e) => Err(e),
    }
}

/// A lowering result, with the operation as a mathematical value.
pub open spec fn op_view(r: Result<Op, AsmError>) -> Result<OpView, AsmError> {
    match r {
        Ok(op) => Ok(op@),
        Err(e) => Err(e),
    }
}

/// A source line as the parser reads it: without the white space around
/// it, and in lower case.
pub open spec fn normalized(line: Seq<char>) -> Seq<char> {
    lowered(trimmed(line))
}

/// The mnemonic that a lower-case token names.
pub open spec fn mnemonic_named(token: Seq<char>) -> Option<Mnemonic> {
    if token == "mov"@ {
        Some(Mnemonic::Mov)
    } else if token == "not"@ {
        Some(Mnemonic::One(OneArgOp::Not))
    } else if token == "inc"@ {
        Some(Mnemonic::One(OneArgOp::Inc))
    } else if token == "rl"@ {
        Some(Mnemonic::One(OneArgOp::Rl))
    } else if token == "rr"@ {
        Some(Mnemonic::One(OneArgOp::Rr))
    } else if token == "add"@ {
        Some(Mnemonic::Two(TwoArgOp::Add))
    } else if token == "sub"@ {
        Some(Mnemonic::Two(TwoArgOp::Sub))
    } else if token == "and"@ {
        Some(Mnemonic::Two(TwoArgOp::And))
    } else if token == "or"@ {
        Some(Mnemonic::Two(TwoArgOp::Or))
    } else if token == "xor"@ {
        Some(Mnemonic::Two(TwoArgOp::Xor))
    } else if token == "mul"@ {
        Some(Mnemonic::NoOut(NoOutTwoArgOp::Mul))
    } else if token == "div"@ {
        Some(Mnemonic::NoOut(NoOutTwoArgOp::Div))
    } else if token == "cmp"@ {
        Some(Mnemonic::NoOut(NoOutTwoArgOp::Cmp))
    } else if token == "set"@ {
        Some(Mnemonic::Bit(BitOp::SetBit))
    } else if token == "clr"@ {
        Some(Mnemonic::Bit(BitOp::Clear))
    } else if token == "cpl"@ {
        Some(Mnemonic::Bit(BitOp::Complement))
    } else if token == "movb"@ {
        Some(Mnemonic::Movb)
    } else if token == "jf"@ {
        Some(Mnemonic::Jf)
    } else if token == "loadbr"@ {
        Some(Mnemonic::LoadBr)
    } else {
        None
    }
}

/// The operands that follow a mnemonic: the pieces between the commas, each
/// without the white space around it.
pub open spec fn operands(rest: Seq<char>) -> Seq<Seq<char>> {
    Seq::new(pieces(rest, ',').len(), |i: int| trimmed(pieces(rest, ',')[i]))
}

/// The register that an operand names.
pub open spec fn register_operand(token: Seq<char>) -> Result<Reg, AsmError> {
    match register_named(token) {
        Some(reg) => Ok(reg),
        None => Err(AsmError::InvalidRegister),
    }
}

/// The flag that an operand names.
pub open spec fn flag_operand(token: Seq<char>) -> Result<BitPos, AsmError> {
    match flag_named(token) {
        Some(pos) => Ok(pos),
        None => Err(AsmError::InvalidFlag),
    }
}

/// One side of a `mov`: `@` and a register, `#` and a numeral of 16 bits,
/// one of the two ports, or a register.
pub open spec fn data_operand(token: Seq<char>) -> Result<Data, AsmError> {
    if token.len() > 0 && token[0] == '@' {
        match register_named(token.skip(1)) {
            Some(reg) => Ok(Data::Indirect(reg)),
            None => Err(AsmError::InvalidRegister),
        }
    } else if token.len() > 0 && token[0] == '#' {
        match numeral(token.skip(1), 0xffff) {
            Some(value) => Ok(Data::Immediate(value as u16)),
            None => Err(AsmError::InvalidImmediate),
        }
    } else if token == "in"@ {
        Ok(Data::In)
    } else if token == "out"@ {
        Ok(Data::Out)
    } else {
        match register_named(token) {
            Some(reg) => Ok(Data::Direct(reg)),
            None => Err(AsmError::InvalidRegister),
        }
    }
}

/// The operand of a bit operation: a register, a dot and a bit index of 8
/// bits, or else a flag name.
pub open spec fn bit_operand(token: Seq<char>) -> Result<Bit, AsmError> {
    let dot = position(token, '.');
    if 0 <= dot < token.len() {
        match register_named(token.take(dot)) {
            None => Err(AsmError::InvalidRegister),
            Some(reg) => match numeral(token.skip(dot + 1), 0xff) {
                None => Err(AsmError::InvalidBitIndex),
                Some(index) => Ok(Bit::Reg(reg, BitPos(index as u8))),
            },
        }
    } else {
        match flag_named(token) {
            Some(pos) => Ok(Bit::Flag(pos)),
            None => Err(AsmError::InvalidFlag),
        }
    }
}

/// The operand of `movb`: `in.` and a bit index of 8 bits.
pub open spec fn port_bit_operand(token: Seq<char>) -> Result<BitPos, AsmError> {
    if token.len() >= 3 && token.take(3) == "in."@ {
        match numeral(token.skip(3), 0xff) {
            Some(index) => Ok(BitPos(index as u8)),
            None => Err(AsmError::InvalidBitIndex),
        }
    } else {
        Err(AsmError::InvalidPortBit)
    }
}

impl Mnemonic {
    /// The mnemonic in capital letters.
    pub open spec fn name_text(self) -> Seq<char> {
        match self {
            Mnemonic::Mov => "MOV"@,
            Mnemonic::One(OneArgOp::Not) => "NOT"@,
            Mnemonic::One(OneArgOp::Inc) => "INC"@,
            Mnemonic::One(OneArgOp::Rl) => "RL"@,
            Mnemonic::One(OneArgOp::Rr) => "RR"@,
            Mnemonic::Two(TwoArgOp::Add) => "ADD"@,
            Mnemonic::Two(TwoArgOp::Sub) => "SUB"@,
            Mnemonic::Two(TwoArgOp::And) => "AND"@,
            Mnemonic::Two(TwoArgOp::Or) => "OR"@,
            Mnemonic::Two(TwoArgOp::Xor) => "XOR"@,
            Mnemonic::NoOut(NoOutTwoArgOp::Mul) => "MUL"@,
            Mnemonic::NoOut(NoOutTwoArgOp::Div) => "DIV"@,
            Mnemonic::NoOut(NoOutTwoArgOp::Cmp) => "CMP"@,
            Mnemonic::Bit(BitOp::SetBit) => "SET"@,
            Mnemonic::Bit(BitOp::Clear) => "CLR"@,
            Mnemonic::Bit(BitOp::Complement) => "CPL"@,
            Mnemonic::Movb => "MOVB"@,
            Mnemonic::Jf => "JF"@,
            Mnemonic::LoadBr => "LOADBR"@,
        }
    }

    /// The mnemonic in capital letters.
    pub fn name(&self) -> (r: &'static str)
        ensures
            r@ == self.name_text(),
    {
        match self {
            Mnemonic::Mov => "MOV",
            Mnemonic::One(OneArgOp::Not) => "NOT",
            Mnemonic::One(OneArgOp::Inc) => "INC",
            Mnemonic::One(OneArgOp::Rl) => "RL",
            Mnemonic::One(OneArgOp::Rr) => "RR",
            Mnemonic::Two(TwoArgOp::Add) => "ADD",
            Mnemonic::Two(TwoArgOp::Sub) => "SUB",
            Mnemonic::Two(TwoArgOp::And) => "AND",
            Mnemonic::Two(TwoArgOp::Or) => "OR",
            Mnemonic::Two(TwoArgOp::Xor) => "XOR",
            Mnemonic::NoOut(NoOutTwoArgOp::Mul) => "MUL",
            Mnemonic::NoOut(NoOutTwoArgOp::Div) => "DIV",
            Mnemonic::NoOut(NoOutTwoArgOp::Cmp) => "CMP",
            Mnemonic::Bit(BitOp::SetBit) => "SET",
            Mnemonic::Bit(BitOp::Clear) => "CLR",
            Mnemonic::Bit(BitOp::Complement) => "CPL",
            Mnemonic::Movb => "MOVB",
            Mnemonic::Jf => "JF",
            Mnemonic::LoadBr => "LOADBR",
        }
    }

    /// The number of operands that the mnemonic takes.
    pub open spec fn arity(self) -> nat {
        match self {
            Mnemonic::Mov => 2,
            Mnemonic::One(_) => 2,
            Mnemonic::Two(_) => 3,
            Mnemonic::NoOut(_) => 2,
            Mnemonic::Bit(_) => 1,
            Mnemonic::Movb => 1,
            Mnemonic::Jf => 1,
            Mnemonic::LoadBr => 1,
        }
    }

    /// The number of operands that the mnemonic takes.
    pub fn operand_count(&self) -> (n: usize)
        ensures
            n == self.arity(),
    {
        match self {
            Mnemonic::Two(_) => 3,
            Mnemonic::Mov | Mnemonic::One(_) | Mnemonic::NoOut(_) => 2,
            Mnemonic::Bit(_) | Mnemonic::Movb | Mnemonic::Jf | Mnemonic::LoadBr => 1,
        }
    }
}

/// The statement that a mnemonic makes with its operands. Their number is
/// checked first; then they are read from left to right, and the first that
/// is malformed decides the error.
pub open spec fn statement(mnemonic: Mnemonic, args: Seq<Seq<char>>) -> Result<LineView, AsmError> {
    if args.len() != mnemonic.arity() {
        Err(AsmError::ArgumentCount(mnemonic))
    } else {
        operation_on(mnemonic, args)
    }
}

/// The statement that a mnemonic makes with operands of its number.
pub open spec fn operation_on(mnemonic: Mnemonic, args: Seq<Seq<char>>) -> Result<
    LineView,
    AsmError,
>
    recommends
        args.len() == mnemonic.arity(),
{
    match mnemonic {
        Mnemonic::Mov => match data_operand(args[0]) {
            Err(e) => Err(e),
            Ok(destination) => match data_operand(args[1]) {
                Err(e) => Err(e),
                Ok(source) => Ok(LineView::Move { source, destination }),
            },
        },
        Mnemonic::One(op) => match register_operand(args[0]) {
            Err(e) => Err(e),
            Ok(out) => match register_operand(args[1]) {
                Err(e) => Err(e),
                Ok(in1) => Ok(LineView::MathOneArg(op, out, in1)),
            },
        },
        Mnemonic::Two(op) => match register_operand(args[0]) {
            Err(e) => Err(e),
            Ok(out) => match register_operand(args[1]) {
                Err(e) => Err(e),
                Ok(in1) => match register_operand(args[2]) {
                    Err(e) => Err(e),
                    Ok(in2) => Ok(LineView::MathTwoArg(op, out, in1, in2)),
                },
            },
        },
        Mnemonic::NoOut(op) => match register_operand(args[0]) {
            Err(e) => Err(e),
            Ok(in1) => match register_operand(args[1]) {
                Err(e) => Err(e),
                Ok(in2) => Ok(LineView::MathNoOutTwoArg(op, in1, in2)),
            },
        },
        Mnemonic::Bit(op) => match bit_operand(args[0]) {
            Err(e) => Err(e),
            Ok(bit) => Ok(LineView::BitOp(op, bit)),
        },
        Mnemonic::Movb => match port_bit_operand(args[0]) {
            Err(e) => Err(e),
            Ok(pos) => Ok(LineView::Movb(pos)),
        },
        Mnemonic::Jf => match flag_operand(args[0]) {
            Err(e) => Err(e),
            Ok(pos) => Ok(LineView::JumpIf(pos)),
        },
        Mnemonic::LoadBr => Ok(LineView::LoadBranch(args[0])),
    }
}

/// The statement that a line of one token makes: `halt`, or the
/// declaration of a label, which is a token that ends in a colon. The
/// label's name is what stands before the token's first colon.
pub open spec fn lone_statement(token: Seq<char>) -> Result<LineView, AsmError> {
    if token == "halt"@ {
        Ok(LineView::Halt)
    } else if token.len() > 0 && token.last() == ':' {
        Ok(LineView::Label(token.take(position(token, ':'))))
    } else {
        Err(AsmError::UnknownStatement)
    }
}

/// The statement that a normalized line makes. A line without white space
/// is one token; any other is a mnemonic, up to the first white space, and
/// its operands.
pub open spec fn parsed(text: Seq<char>) -> Result<LineView, AsmError> {
    let cut = space_position(text);
    if 0 <= cut < text.len() {
        match mnemonic_named(text.take(cut)) {
            None => Err(AsmError::UnknownOperator),
            Some(mnemonic) => statement(mnemonic, operands(text.skip(cut + 1))),
        }
    } else {
        lone_statement(text)
    }
}

/// The names of one flag are read alike: a bit operation or a branch test
/// on one of them is the statement that it is on another.
pub proof fn lemma_flag_names_alike(mnemonic: Mnemonic, a: Seq<char>, b: Seq<char>)
    requires
        flag_named(a) is Some,
        flag_named(a) == flag_named(b),
        mnemonic is Bit || mnemonic is Jf,
    ensures
        statement(mnemonic, seq![a]) == statement(mnemonic, seq![b]),
        statement(mnemonic, seq![a]) is Ok,
{
    lemma_flag_name_without_dot(a);
    lemma_flag_name_without_dot(b);
    lemma_position(a, '.');
    lemma_position(b, '.');
}

/// The mnemonic that the lower-case token `v` names.
pub fn mnemonic_of(v: &Vec<char>) -> (r: Option<Mnemonic>)
    ensures
        r == mnemonic_named(v@),
{
    if is_word(v, "mov") {
        Some(Mnemonic::Mov)
    } else if is_word(v, "not") {
        Some(Mnemonic::One(OneArgOp::Not))
    } else if is_word(v, "inc") {
        Some(Mnemonic::One(OneArgOp::Inc))
    } else if is_word(v, "rl") {
        Some(Mnemonic::One(OneArgOp::Rl))
    } else if is_word(v, "rr") {
        Some(Mnemonic::One(OneArgOp::Rr))
    } else if is_word(v, "add") {
        Some(Mnemonic::Two(TwoArgOp::Add))
    } else if is_word(v, "sub") {
        Some(Mnemonic::Two(TwoArgOp::Sub))
    } else if is_word(v, "and") {
        Some(Mnemonic::Two(TwoArgOp::And))
    } else if is_word(v, "or") {
        Some(Mnemonic::Two(TwoArgOp::Or))
    } else if is_word(v, "xor") {
        Some(Mnemonic::Two(TwoArgOp::Xor))
    } else if is_word(v, "mul") {
        Some(Mnemonic::NoOut(NoOutTwoArgOp::Mul))
    } else if is_word(v, "div") {
        Some(Mnemonic::NoOut(NoOutTwoArgOp::Div))
    } else if is_word(v, "cmp") {
        Some(Mnemonic::NoOut(NoOutTwoArgOp::Cmp))
    } else if is_word(v, "set") {
        Some(Mnemonic::Bit(BitOp::SetBit))
    } else if is_word(v, "clr") {
        Some(Mnemonic::Bit(BitOp::Clear))
    } else if is_word(v, "cpl") {
        Some(Mnemonic::Bit(BitOp::Complement))
    } else if is_word(v, "movb") {
        Some(Mnemonic::Movb)
    } else if is_word(v, "jf") {
        Some(Mnemonic::Jf)
    } else if is_word(v, "loadbr") {
        Some(Mnemonic::LoadBr)
    } else {
        None
    }
}

/// The operands that follow a mnemonic.
pub fn split_operands(rest: &Vec<char>) -> (r: Vec<Vec<char>>)
    ensures
        views(r@) == operands(rest@),
{
    let parts = split(rest, ',');
    let mut r: Vec<Vec<char>> = Vec::new();
    let mut i: usize = 0;
    while i < parts.len()
        invariant
            i <= parts.len(),
            views(parts@) == pieces(rest@, ','),
            views(r@) == operands(rest@).take(i as int),
        decreases parts.len() - i,
    {
        let ghost before = views(r@);
        let arg = trim(&parts[i]);
        assert(views(parts@)[i as int] == parts@[i as int]@);
        r.push(arg);
        assert(views(r@) == before.push(arg@));
        i += 1;
    }
    r
}

/// The register that the operand `v` names.
pub fn read_register(v: &Vec<char>) -> (r: Result<Reg, AsmError>)
    ensures
        r == register_operand(v@),
{
    match register_of(v) {
        Some(reg) => Ok(reg),
        None => Err(AsmError::InvalidRegister),
    }
}

/// The flag that the operand `v` names.
pub fn read_flag(v: &Vec<char>) -> (r: Result<BitPos, AsmError>)
    ensures
        r == flag_operand(v@),
{
    match flag_of(v) {
        Some(pos) => Ok(pos),
        None => Err(AsmError::InvalidFlag),
    }
}

/// Reads one side of a `mov`.
pub fn read_data(v: &Vec<char>) -> (r: Result<Data, AsmError>)
    ensures
        r == data_operand(v@),
{
    if v.len() > 0 && v[0] == '@' {
        let rest = slice(v, 1, v.len());
        match register_of(&rest) {
            Some(reg) => Ok(Data::Indirect(reg)),
            None => Err(AsmError::InvalidRegister),
        }
    } else if v.len() > 0 && v[0] == '#' {
        let rest = slice(v, 1, v.len());
        match parse_number(&rest, 0xffff) {
            Some(value) => Ok(Data::Immediate(value as u16)),
            None => Err(AsmError::InvalidImmediate),
        }
    } else if is_word(v, "in") {
        Ok(Data::In)
    } else if is_word(v, "out") {
        Ok(Data::Out)
    } else {
        match register_of(v) {
            Some(reg) => Ok(Data::Direct(reg)),
            None => Err(AsmError::InvalidRegister),
        }
    }
}

/// Reads the operand of a bit operation.
pub fn read_bit(v: &Vec<char>) -> (r: Result<Bit, AsmError>)
    ensures
        r == bit_operand(v@),
{
    let dot: usize = find(v, '.');
    if dot < v.len() {
        let name = slice(v, 0, dot);
        let index = slice(v, dot + 1, v.len());
        match register_of(&name) {
            None => Err(AsmError::InvalidRegister),
            Some(reg) => match parse_number(&index, 0xff) {
                None => Err(AsmError::InvalidBitIndex),
                Some(index) => Ok(Bit::Reg(reg, BitPos(index as u8))),
            },
        }
    } else {
        match flag_of(v) {
            Some(pos) => Ok(Bit::Flag(pos)),
            None => Err(AsmError::InvalidFlag),
        }
    }
}

/// Reads the operand of `movb`.
pub fn read_port_bit(v: &Vec<char>) -> (r: Result<BitPos, AsmError>)
    ensures
        r == port_bit_operand(v@),
{
    if v.len() >= 3 && is_word(&slice(v, 0, 3), "in.") {
        let index = slice(v, 3, v.len());
        match parse_number(&index, 0xff) {
            Some(index) => Ok(BitPos(index as u8)),
            None => Err(AsmError::InvalidBitIndex),
        }
    } else {
        Err(AsmError::InvalidPortBit)
    }
}

/// Builds the statement that `mnemonic` makes with `args`.
pub fn read_statement(mnemonic: Mnemonic, args: &Vec<Vec<char>>) -> (r: Result<Line, AsmError>)
    ensures
        line_view(r) == statement(mnemonic, views(args@)),
{
    if args.len() != mnemonic.operand_count() {
        return Err(AsmError::ArgumentCount(mnemonic));
    }
    match mnemonic {
        Mnemonic::Mov => {
            let destination = read_data(&args[0])?;
            let source = read_data(&args[1])?;
            Ok(Line::Move { source, destination })
        },
        Mnemonic::One(op) => {
            let out = read_register(&args[0])?;
            let in1 = read_register(&args[1])?;
            Ok(Line::MathOneArg(op, out, in1))
        },
        Mnemonic::Two(op) => {
            let out = read_register(&args[0])?;
            let in1 = read_register(&args[1])?;
            let in2 = read_register(&args[2])?;
            Ok(Line::MathTwoArg(op, out, in1, in2))
        },
        Mnemonic::NoOut(op) => {
            let in1 = read_register(&args[0])?;
            let in2 = read_register(&args[1])?;
            Ok(Line::MathNoOutTwoArg(op, in1, in2))
        },
        Mnemonic::Bit(op) => {
            let bit = read_bit(&args[0])?;
            Ok(Line::BitOp(op, bit))
        },
        Mnemonic::Movb => {
            let pos = read_port_bit(&args[0])?;
            Ok(Line::Movb(pos))
        },
        Mnemonic::Jf => {
            let pos = read_flag(&args[0])?;
            Ok(Line::JumpIf(pos))
        },
        Mnemonic::LoadBr => Ok(Line::LoadBranch(string_of(&args[0]))),
    }
}

/// Reads a line of one token.
pub fn read_lone_statement(token: &Vec<char>) -> (r: Result<Line, AsmError>)
    ensures
        line_view(r) == lone_statement(token@),
{
    if is_word(token, "halt") {
        Ok(Line::Halt)
    } else if token.len() > 0 && token[token.len() - 1] == ':' {
        let colon: usize = find(token, ':');
        Ok(Line::Label(string_of(&slice(token, 0, colon))))
    } else {
        Err(AsmError::UnknownStatement)
    }
}

/// Reads a normalized line.
pub fn read_line(text: &Vec<char>) -> (r: Result<Line, AsmError>)
    ensures
        line_view(r) == parsed(text@),
{
    let cut: usize = find_space(text);
    if cut < text.len() {
        let word = slice(text, 0, cut);
        match mnemonic_of(&word) {
            None => Err(AsmError::UnknownOperator),
            Some(mnemonic) => {
                let rest = slice(text, cut + 1, text.len());
                read_statement(mnemonic, &split_operands(&rest))
            },
        }
    } else {
        read_lone_statement(text)
    }
}

/// The operation that a `mov` stands for, by its destination. A register
/// takes a register, a memory cell, an immediate value or the input port;
/// a memory cell and the output port take a register. Every other pairing
/// is refused.
pub open spec fn moved(destination: Data, source: Data) -> Result<OpView, AsmError> {
    match destination {
        Data::Direct(dest) => match source {
            Data::Direct(src) => Ok(OpView::MOV(dest, src)),
            Data::Indirect(src) => Ok(OpView::LOAD(dest, src)),
            Data::Immediate(value) => Ok(
                OpView::LoadByte(dest, (value / 256) as u8, (value % 256) as u8),
            ),
            Data::In => Ok(OpView::MOVIN(dest)),
            Data::Out => Err(AsmError::OutputSource),
        },
        Data::Indirect(dest) => match source {
            Data::Direct(src) => Ok(OpView::STORE(dest, src)),
            _ => Err(AsmError::IndirectMismatch),
        },
        Data::Out => match source {
            Data::Direct(src) => Ok(OpView::MOVOUT(src)),
            Data::Indirect(_) => Err(AsmError::IndirectMismatch),
            Data::In => Err(AsmError::InputSource),
            Data::Out => Err(AsmError::OutputSource),
            Data::Immediate(_) => Err(AsmError::OutputDestination),
        },
        Data::Immediate(_) => Err(AsmError::ImmediateDestination),
        Data::In => match source {
            Data::Indirect(_) => Err(AsmError::IndirectMismatch),
            _ => Err(AsmError::InputDestination),
        },
    }
}

/// The operation that a statement stands for.
pub open spec fn lowering(line: LineView) -> Result<OpView, AsmError> {
    match line {
        LineView::Move { source, destination } => moved(destination, source),
        LineView::MathOneArg(op, out, in1) => Ok(
            match op {
                OneArgOp::Not => OpView::NOT(out, in1),
                OneArgOp::Inc => OpView::INC(out, in1),
                OneArgOp::Rl => OpView::RL(out, in1),
                OneArgOp::Rr => OpView::RR(out, in1),
            },
        ),
        LineView::MathTwoArg(op, out, in1, in2) => Ok(
            match op {
                TwoArgOp::Add => OpView::ADD(out, in1, in2),
                TwoArgOp::Sub => OpView::SUB(out, in1, in2),
                TwoArgOp::And => OpView::AND(out, in1, in2),
                TwoArgOp::Or => OpView::OR(out, in1, in2),
                TwoArgOp::Xor => OpView::XOR(out, in1, in2),
            },
        ),
        LineView::MathNoOutTwoArg(op, in1, in2) => Ok(
            match op {
                NoOutTwoArgOp::Mul => OpView::MUL(in1, in2),
                NoOutTwoArgOp::Div => OpView::DIV(in1, in2),
                NoOutTwoArgOp::Cmp => OpView::CMP(in1, in2),
            },
        ),
        LineView::BitOp(op, Bit::Reg(reg, pos)) => Ok(
            match op {
                BitOp::SetBit => OpView::SETB(reg, pos),
                BitOp::Clear => OpView::CLRB(reg, pos),
                BitOp::Complement => OpView::CPLB(reg, pos),
            },
        ),
        LineView::BitOp(op, Bit::Flag(pos)) => Ok(
            match op {
                BitOp::SetBit => OpView::SETF(pos),
                BitOp::Clear => OpView::CLRF(pos),
                BitOp::Complement => OpView::CPLF(pos),
            },
        ),
        LineView::Movb(pos) => Ok(OpView::MOVB(pos)),
        LineView::JumpIf(pos) => Ok(OpView::JF(pos)),
        LineView::LoadBranch(name) => Ok(OpView::LOADBR(name)),
        LineView::Label(name) => Ok(OpView::Label(name)),
        LineView::Halt => Ok(OpView::HALT),
    }
}

/// A `mov` is accepted exactly when a register takes anything but the
/// output port, or a memory cell or the output port takes a register.
pub proof fn lemma_legal_moves(destination: Data, source: Data)
    ensures
        moved(destination, source) is Ok <==> {
            ||| destination is Direct && !(source is Out)
            ||| destination is Indirect && source is Direct
            ||| destination is Out && source is Direct
        },
        destination is Immediate ==> moved(destination, source) == Err::<OpView, AsmError>(
            AsmError::ImmediateDestination,
        ),
        destination is In ==> moved(destination, source) is Err,
{
}

/// A `mov` of an immediate value into a register is a two-byte load of the
/// value's upper byte and its lower byte.
pub proof fn lemma_immediate_move(reg: Reg, value: u16)
    ensures
        moved(Data::Direct(reg), Data::Immediate(value)) == Ok::<OpView, AsmError>(
            OpView::LoadByte(reg, (value / 256) as u8, (value % 256) as u8),
        ),
        (value / 256) * 256 + value % 256 == value,
{
}

impl Line {
    /// Parses one source line. The white space around the line is ignored,
    /// and so is the case of its letters.
    pub fn from_str(line: &str) -> (r: Result<Line, AsmError>)
        ensures
            line_view(r) == parsed(normalized(line@)),
    {
        let text = to_lower(&trim(&chars_of(line)));
        read_line(&text)
    }

    /// The operation that the statement stands for, unless it is a `mov`
    /// between operands that cannot be paired.
    pub fn to_instruction(self) -> (r: Result<Op, AsmError>)
        ensures
            op_view(r) == lowering(self@),
    {
        match self {
            Line::Move { destination, source } => match (destination, source) {
                (Data::Direct(dest), Data::Direct(src)) => Ok(Op::MOV(dest, src)),
                (Data::Direct(dest), Data::Indirect(src)) => Ok(Op::LOAD(dest, src)),
                (Data::Direct(reg), Data::Immediate(data)) => Ok(
                    Op::LoadByte(reg, (data / 256) as u8, (data % 256) as u8),
                ),
                (Data::Direct(dest), Data::In) => Ok(Op::MOVIN(dest)),
                (Data::Indirect(dest), Data::Direct(src)) => Ok(Op::STORE(dest, src)),
                (Data::Out, Data::Direct(src)) => Ok(Op::MOVOUT(src)),
                (Data::Immediate(_), _) => Err(AsmError::ImmediateDestination),
                (Data::Indirect(_), _) => Err(AsmError::IndirectMismatch),
                (_, Data::Indirect(_)) => Err(AsmError::IndirectMismatch),
                (Data::In, _) => Err(AsmError::InputDestination),
                (_, Data::In) => Err(AsmError::InputSource),
                (_, Data::Out) => Err(AsmError::OutputSource),
                (Data::Out, _) => Err(AsmError::OutputDestination),
            },
            Line::MathOneArg(op, reg_out, reg_in) => Ok(
                match op {
                    OneArgOp::Not => Op::NOT(reg_out, reg_in),
                    OneArgOp::Inc => Op::INC(reg_out, reg_in),
                    OneArgOp::Rl => Op::RL(reg_out, reg_in),
                    OneArgOp::Rr => Op::RR(reg_out, reg_in),
                },
            ),
            Line::MathTwoArg(op, reg_out, reg1, reg2) => Ok(
                match op {
                    TwoArgOp::Add => Op::ADD(reg_out, reg1, reg2),
                    TwoArgOp::Sub => Op::SUB(reg_out, reg1, reg2),
                    TwoArgOp::And => Op::AND(reg_out, reg1, reg2),
                    TwoArgOp::Or => Op::OR(reg_out, reg1, reg2),
                    TwoArgOp::Xor => Op::XOR(reg_out, reg1, reg2),
                },
            ),
            Line::MathNoOutTwoArg(op, reg1, reg2) => Ok(
                match op {
                    NoOutTwoArgOp::Mul => Op::MUL(reg1, reg2),
                    NoOutTwoArgOp::Div => Op::DIV(reg1, reg2),
                    NoOutTwoArgOp::Cmp => Op::CMP(reg1, reg2),
                },
            ),
            Line::BitOp(op, bit) => Ok(
                match op {
                    BitOp::SetBit => match bit {
                        Bit::Reg(reg, bit_pos) => Op::SETB(reg, bit_pos),
                        Bit::Flag(bit_pos) => Op::SETF(bit_pos),
                    },
                    BitOp::Clear => match bit {
                        Bit::Reg(reg, bit_pos) => Op::CLRB(reg, bit_pos),
                        Bit::Flag(bit_pos) => Op::CLRF(bit_pos),
                    },
                    BitOp::Complement => match bit {
                        Bit::Reg(reg, bit_pos) => Op::CPLB(reg, bit_pos),
                        Bit::Flag(bit_pos) => Op::CPLF(bit_pos),
                    },
                },
            ),
            Line::Movb(bit_pos) => Ok(Op::MOVB(bit_pos)),
            Line::JumpIf(bit_pos) => Ok(Op::JF(bit_pos)),
            Line::Label(name) => Ok(Op::Label(name)),
            Line::LoadBranch(name) => Ok(Op::LOADBR(name)),
            Line::Halt => Ok(Op::HALT),
        }
    }
}

} // verus!
