//! The machine's operations and their encoding as instruction words.

use vstd::prelude::*;
use vstd::string::*;
use crate::error::AsmError;
use crate::symbols::SymbolTable;
use crate::text::{
    decimal, free_of, lemma_decimal_one_line, lemma_free_of_concat, push_decimal,
};
use crate::types::{Address, BitPos, Reg};

verus! {

/// An operation of the machine, or one of the two pseudo-operations that a
/// program holds before it is expanded and resolved: a label marker and a
/// two-byte load.
#[derive(Debug, PartialEq, Eq)]
pub enum Op {
    ADD(Reg, Reg, Reg),
    MUL(Reg, Reg),
    SUB(Reg, Reg, Reg),
    DIV(Reg, Reg),
    NOT(Reg, Reg),
    AND(Reg, Reg, Reg),
    OR(Reg, Reg, Reg),
    XOR(Reg, Reg, Reg),
    INC(Reg, Reg),
    CMP(Reg, Reg),
    RR(Reg, Reg),
    RL(Reg, Reg),
    SETB(Reg, BitPos),
    CLRB(Reg, BitPos),
    CPLB(Reg, BitPos),
    SETF(BitPos),
    CLRF(BitPos),
    CPLF(BitPos),
    LOADBR(String),
    JF(BitPos),
    LOAD(Reg, Reg),
    STORE(Reg, Reg),
    LBL(Reg, u8),
    LBH(Reg, u8),
    MOV(Reg, Reg),
    MOVOUT(Reg),
    MOVIN(Reg),
    MOVB(BitPos),
    HALT,
    Label(String),
    LoadByte(Reg, u8, u8),
}

/// An operation as a mathematical value: label names are character
/// sequences.
pub enum OpView {
    ADD(Reg, Reg, Reg),
    MUL(Reg, Reg),
    SUB(Reg, Reg, Reg),
    DIV(Reg, Reg),
    NOT(Reg, Reg),
    AND(Reg, Reg, Reg),
    OR(Reg, Reg, Reg),
    XOR(Reg, Reg, Reg),
    INC(Reg, Reg),
    CMP(Reg, Reg),
    RR(Reg, Reg),
    RL(Reg, Reg),
    SETB(Reg, BitPos),
    CLRB(Reg, BitPos),
    CPLB(Reg, BitPos),
    SETF(BitPos),
    CLRF(BitPos),
    CPLF(BitPos),
    LOADBR(Seq<char>),
    JF(BitPos),
    LOAD(Reg, Reg),
    STORE(Reg, Reg),
    LBL(Reg, u8),
    LBH(Reg, u8),
    MOV(Reg, Reg),
    MOVOUT(Reg),
    MOVIN(Reg),
    MOVB(BitPos),
    HALT,
    Label(Seq<char>),
    LoadByte(Reg, u8, u8),
}

impl View for Op {
    type V = OpView;

    open spec fn view(&self) -> OpView {
        match *self {
            Op::ADD(out, in1, in2) => OpView::ADD(out, in1, in2),
            Op::MUL(in1, in2) => OpView::MUL(in1, in2),
            Op::SUB(out, in1, in2) => OpView::SUB(out, in1, in2),
            Op::DIV(in1, in2) => OpView::DIV(in1, in2),
            Op::NOT(out, in1) => OpView::NOT(out, in1),
            Op::AND(out, in1, in2) => OpView::AND(out, in1, in2),
            Op::OR(out, in1, in2) => OpView::OR(out, in1, in2),
            Op::XOR(out, in1, in2) => OpView::XOR(out, in1, in2),
            Op::INC(out, in1) => OpView::INC(out, in1),
            Op::CMP(in1, in2) => OpView::CMP(in1, in2),
            Op::RR(out, in1) => OpView::RR(out, in1),
            Op::RL(out, in1) => OpView::RL(out, in1),
            Op::SETB(reg, pos) => OpView::SETB(reg, pos),
            Op::CLRB(reg, pos) => OpView::CLRB(reg, pos),
            Op::CPLB(reg, pos) => OpView::CPLB(reg, pos),
            Op::SETF(pos) => OpView::SETF(pos),
            Op::CLRF(pos) => OpView::CLRF(pos),
            Op::CPLF(pos) => OpView::CPLF(pos),
            Op::LOADBR(name) => OpView::LOADBR(name@),
            Op::JF(pos) => OpView::JF(pos),
            Op::LOAD(dest, source) => OpView::LOAD(dest, source),
            Op::STORE(dest, source) => OpView::STORE(dest, source),
            Op::LBL(reg, byte) => OpView::LBL(reg, byte),
            Op::LBH(reg, byte) => OpView::LBH(reg, byte),
            Op::MOV(dest, source) => OpView::MOV(dest, source),
            Op::MOVOUT(reg) => OpView::MOVOUT(reg),
            Op::MOVIN(reg) => OpView::MOVIN(reg),
            Op::MOVB(pos) => OpView::MOVB(pos),
            Op::HALT => OpView::HALT,
            Op::Label(name) => OpView::Label(name@),
            Op::LoadByte(reg, upper, lower) => OpView::LoadByte(reg, upper, lower),
        }
    }
}

/// The views of a sequence of operations.
pub open spec fn op_views(ops: Seq<Op>) -> Seq<OpView> {
    Seq::new(ops.len(), |i: int| ops[i]@)
}

/// One field of the eleven operand bits of an instruction word.
#[derive(Clone, Copy, Debug, PartialEq, Eq, Structural)]
pub enum Field {
    /// A register operand, 3 bits.
    Register(Reg),
    /// The register that multiplication and division always write to,
    /// 3 bits.
    Accumulator,
    /// A bit position, 4 bits.
    Position(BitPos),
    /// A branch target, 11 bits.
    Target(Address),
    /// An immediate byte, 8 bits.
    Byte(u8),
    /// Bits that the operation does not use, as many as given.
    DontCare(u8),
}

impl Field {
    /// The number of bits that the field takes.
    pub open spec fn width(self) -> nat {
        match self {
            Field::Register(_) => 3,
            Field::Accumulator => 3,
            Field::Position(_) => 4,
            Field::Target(_) => 11,
            Field::Byte(_) => 8,
            Field::DontCare(bits) => bits as nat,
        }
    }

    /// The field as it is written in an instruction word, unless its
    /// operand is out of range.
    pub open spec fn text(self) -> Result<Seq<char>, AsmError> {
        match self {
            Field::Register(reg) => if reg.valid() {
                Ok(reg.literal_text())
            } else {
                Err(AsmError::RegisterOutOfRange)
            },
            Field::Accumulator => Ok("REG0"@),
            Field::Position(pos) => if pos.valid() {
                Ok(pos.literal_text())
            } else {
                Err(AsmError::BitPositionOutOfRange)
            },
            Field::Target(address) => if address.valid() {
                Ok(address.literal_text())
            } else {
                Err(AsmError::AddressOutOfRange)
            },
            Field::Byte(byte) => Ok("8'd"@ + decimal(byte as nat)),
            Field::DontCare(bits) => Ok(decimal(bits as nat) + "'bx"@),
        }
    }

    /// Writes the field as it stands in an instruction word.
    pub fn render(&self) -> (r: Result<String, AsmError>)
        ensures
            text_view(r) == self.text(),
    {
        match self {
            Field::Register(reg) => reg.literal(),
            Field::Accumulator => Ok(String::from_str("REG0")),
            Field::Position(pos) => pos.literal(),
            Field::Target(address) => address.literal(),
            Field::Byte(byte) => {
                let mut s = String::from_str("8'd");
                push_decimal(&mut s, *byte as u64);
                Ok(s)
            },
            Field::DontCare(bits) => {
                let mut s = String::new();
                push_decimal(&mut s, *bits as u64);
                s.append("'bx");
                Ok(s)
            },
        }
    }
}

/// A result that holds a string, with the string as its characters.
pub open spec fn text_view(r: Result<String, AsmError>) -> Result<Seq<char>, AsmError> {
    match r {
        Ok(s) => Ok(s@),
        Err(e) => Err(e),
    }
}

/// The mnemonic token of an operation in an instruction word; a
/// pseudo-operation has none.
pub open spec fn opcode_text(op: OpView) -> Option<Seq<char>> {
    match op {
        OpView::ADD(_, _, _) => Some("ADD"@),
        OpView::MUL(_, _) => Some("MUL"@),
        OpView::SUB(_, _, _) => Some("SUB"@),
        OpView::DIV(_, _) => Some("DIV"@),
        OpView::NOT(_, _) => Some("NOT"@),
        OpView::AND(_, _, _) => Some("AND"@),
        OpView::OR(_, _, _) => Some("OR"@),
        OpView::XOR(_, _, _) => Some("XOR"@),
        OpView::INC(_, _) => Some("INC"@),
        OpView::CMP(_, _) => Some("CMP"@),
        OpView::RR(_, _) => Some("RR"@),
        OpView::RL(_, _) => Some("RL"@),
        OpView::SETB(_, _) => Some("SETB"@),
        OpView::CLRB(_, _) => Some("CLRB"@),
        OpView::CPLB(_, _) => Some("CPLB"@),
        OpView::SETF(_) => Some("SETF"@),
        OpView::CLRF(_) => Some("CLRF"@),
        OpView::CPLF(_) => Some("CPLF"@),
        OpView::LOADBR(_) => Some("LOADBR"@),
        OpView::JF(_) => Some("JF"@),
        OpView::LOAD(_, _) => Some("LOAD"@),
        OpView::STORE(_, _) => Some("STORE"@),
        OpView::LBL(_, _) => Some("LBL"@),
        OpView::LBH(_, _) => Some("LBH"@),
        OpView::MOV(_, _) => Some("MOV"@),
        OpView::MOVOUT(_) => Some("MOVOUT"@),
        OpView::MOVIN(_) => Some("MOVIN"@),
        OpView::MOVB(_) => Some("MOVB"@),
        OpView::HALT => Some("HALT"@),
        OpView::Label(_) => None,
        OpView::LoadByte(_, _, _) => None,
    }
}

/// Whether the operation is a label marker or a two-byte load.
pub open spec fn is_pseudo(op: OpView) -> bool {
    op is Label || op is LoadByte
}

/// The operand fields of an operation, in the order in which they follow
/// the opcode. A branch takes its target from `labels`.
pub open spec fn layout(op: OpView, labels: Map<Seq<char>, Address>) -> Result<
    Seq<Field>,
    AsmError,
> {
    match op {
        OpView::ADD(out, in1, in2)
        | OpView::SUB(out, in1, in2)
        | OpView::AND(out, in1, in2)
        | OpView::OR(out, in1, in2)
        | OpView::XOR(out, in1, in2) => Ok(
            seq![
                Field::Register(out),
                Field::Register(in1),
                Field::Register(in2),
                Field::DontCare(2),
            ],
        ),
        OpView::MUL(in1, in2) | OpView::DIV(in1, in2) => Ok(
            seq![
                Field::Accumulator,
                Field::Register(in1),
                Field::Register(in2),
                Field::DontCare(2),
            ],
        ),
        OpView::NOT(out, in1)
        | OpView::INC(out, in1)
        | OpView::RR(out, in1)
        | OpView::RL(out, in1)
        | OpView::LOAD(out, in1)
        | OpView::MOV(out, in1) => Ok(
            seq![Field::Register(out), Field::Register(in1), Field::DontCare(5)],
        ),
        OpView::CMP(in1, in2) | OpView::STORE(in1, in2) => Ok(
            seq![
                Field::DontCare(3),
                Field::Register(in1),
                Field::Register(in2),
                Field::DontCare(2),
            ],
        ),
        OpView::SETB(reg, pos) | OpView::CLRB(reg, pos) | OpView::CPLB(reg, pos) => Ok(
            seq![
                Field::Register(reg),
                Field::Register(reg),
                Field::Position(pos),
                Field::DontCare(1),
            ],
        ),
        OpView::SETF(pos) | OpView::CLRF(pos) | OpView::CPLF(pos) | OpView::JF(pos) => Ok(
            seq![Field::DontCare(6), Field::Position(pos), Field::DontCare(1)],
        ),
        OpView::LOADBR(name) => if labels.contains_key(name) {
            Ok(seq![Field::Target(labels[name])])
        } else {
            Err(AsmError::UndefinedLabel)
        },
        OpView::LBL(reg, byte) | OpView::LBH(reg, byte) => Ok(
            seq![Field::Register(reg), Field::Byte(byte)],
        ),
        OpView::MOVOUT(reg) => Ok(
            seq![Field::DontCare(3), Field::Register(reg), Field::DontCare(5)],
        ),
        OpView::MOVIN(reg) => Ok(seq![Field::Register(reg), Field::DontCare(8)]),
        OpView::MOVB(pos) => Ok(
            seq![Field::DontCare(3), Field::Position(pos), Field::DontCare(4)],
        ),
        OpView::HALT => Ok(seq![Field::DontCare(11)]),
        OpView::Label(_) | OpView::LoadByte(_, _, _) => Err(AsmError::PseudoOperation),
    }
}

/// The number of bits that the fields take together.
pub open spec fn total_width(fields: Seq<Field>) -> nat
    decreases fields.len(),
{
    if fields.len() == 0 {
        0
    } else {
        total_width(fields.drop_last()) + fields.last().width()
    }
}

/// The fields as they follow the opcode in an instruction word, each after
/// a comma and a space; the first field that is out of range decides the
/// error.
pub open spec fn fields_text(fields: Seq<Field>) -> Result<Seq<char>, AsmError>
    decreases fields.len(),
{
    if fields.len() == 0 {
        Ok(Seq::<char>::empty())
    } else {
        match fields_text(fields.drop_last()) {
            Err(e) => Err(e),
            Ok(before) => match fields.last().text() {
                Err(e) => Err(e),
                Ok(field) => Ok(before + ", "@ + field),
            },
        }
    }
}

/// The instruction word of an operation: between braces the opcode and
/// the operand fields, then a semicolon.
pub open spec fn encoded(op: OpView, labels: Map<Seq<char>, Address>) -> Result<
    Seq<char>,
    AsmError,
> {
    match layout(op, labels) {
        Err(e) => Err(e),
        Ok(fields) => match fields_text(fields) {
            Err(e) => Err(e),
            Ok(operands) => Ok("{"@ + opcode_text(op).unwrap() + operands + "};"@),
        },
    }
}

/// The operand fields of every operation fill exactly the eleven bits that
/// follow the opcode.
pub proof fn lemma_layout_fills_word(op: OpView, labels: Map<Seq<char>, Address>)
    requires
        layout(op, labels) is Ok,
    ensures
        total_width(layout(op, labels).unwrap()) == 11,
{
    let fields = layout(op, labels).unwrap();
    reveal_with_fuel(total_width, 5);
    if fields.len() == 1 {
        assert(fields.drop_last().len() == 0);
    } else if fields.len() == 2 {
        assert(fields.drop_last().drop_last().len() == 0);
    } else if fields.len() == 3 {
        assert(fields.drop_last().drop_last().drop_last().len() == 0);
    } else {
        assert(fields.drop_last().drop_last().drop_last().drop_last().len() == 0);
    }
}

/// If the fields before some point cannot be written, neither can all of
/// them, for the same reason.
pub proof fn lemma_fields_text_fails(fields: Seq<Field>, n: int)
    requires
        0 <= n <= fields.len(),
        fields_text(fields.take(n)) is Err,
    ensures
        fields_text(fields) == fields_text(fields.take(n)),
    decreases fields.len() - n,
{
    if n < fields.len() {
        assert(fields.take(n + 1).drop_last() == fields.take(n));
        lemma_fields_text_fails(fields, n + 1);
    } else {
        assert(fields.take(n) == fields);
    }
}

/// The fields can be written exactly when each of them is in range.
pub proof fn lemma_fields_text_when(fields: Seq<Field>)
    ensures
        fields_text(fields) is Ok <==> forall|i: int|
            0 <= i < fields.len() ==> (#[trigger] fields[i]).text() is Ok,
    decreases fields.len(),
{
    if fields.len() > 0 {
        let before = fields.drop_last();
        lemma_fields_text_when(before);
        if fields_text(fields) is Ok {
            assert forall|i: int| 0 <= i < fields.len() implies (#[trigger] fields[i]).text()
                is Ok by {
                if i < before.len() {
                    assert(before[i] == fields[i]);
                }
            }
        } else if fields_text(before) is Ok {
            assert(fields[fields.len() - 1].text() is Err);
        } else {
            let i = choose|i: int| 0 <= i < before.len() && (#[trigger] before[i]).text() is Err;
            assert(fields[i].text() is Err);
        }
    }
}

/// If the fields cannot be written, it is for one of them.
pub proof fn lemma_fields_text_error(fields: Seq<Field>)
    requires
        fields_text(fields) is Err,
    ensures
        exists|i: int| 0 <= i < fields.len() && (#[trigger] fields[i]).text() == fields_text(fields),
    decreases fields.len(),
{
    let before = fields.drop_last();
    if fields_text(before) is Err {
        lemma_fields_text_error(before);
        let i = choose|i: int|
            0 <= i < before.len() && (#[trigger] before[i]).text() == fields_text(before);
        assert(fields[i].text() == fields_text(fields));
    } else {
        assert(fields[fields.len() - 1].text() == fields_text(fields));
    }
}

/// An operation has an instruction word exactly when it is no
/// pseudo-operation, the label of a branch is declared, and every register,
/// bit position and address in its fields is in range.
pub proof fn lemma_encoded_when(op: OpView, labels: Map<Seq<char>, Address>)
    ensures
        layout(op, labels) is Ok <==> !is_pseudo(op) && (op is LOADBR ==> labels.contains_key(
            op->LOADBR_0,
        )),
        encoded(op, labels) is Ok <==> layout(op, labels) is Ok && forall|i: int|
            0 <= i < layout(op, labels).unwrap().len() ==> (#[trigger] layout(
                op,
                labels,
            ).unwrap()[i]).text() is Ok,
{
    if layout(op, labels) is Ok {
        lemma_fields_text_when(layout(op, labels).unwrap());
    }
}

/// No field holds a line feed.
proof fn lemma_field_one_line(field: Field)
    requires
        field.text() is Ok,
    ensures
        free_of(field.text().unwrap(), '\n'),
{
    reveal_strlit("REG");
    reveal_strlit("REG0");
    reveal_strlit("4'd");
    reveal_strlit("11'd");
    reveal_strlit("8'd");
    reveal_strlit("'bx");
    match field {
        Field::Register(reg) => {
            lemma_decimal_one_line(reg.0 as nat);
            lemma_free_of_concat("REG"@, decimal(reg.0 as nat), '\n');
        },
        Field::Accumulator => {},
        Field::Position(pos) => {
            lemma_decimal_one_line(pos.0 as nat);
            lemma_free_of_concat("4'd"@, decimal(pos.0 as nat), '\n');
        },
        Field::Target(address) => {
            lemma_decimal_one_line(address.0 as nat);
            lemma_free_of_concat("11'd"@, decimal(address.0 as nat), '\n');
        },
        Field::Byte(byte) => {
            lemma_decimal_one_line(byte as nat);
            lemma_free_of_concat("8'd"@, decimal(byte as nat), '\n');
        },
        Field::DontCare(bits) => {
            lemma_decimal_one_line(bits as nat);
            lemma_free_of_concat(decimal(bits as nat), "'bx"@, '\n');
        },
    }
}

/// The fields of an instruction word hold no line feed.
proof fn lemma_fields_one_line(fields: Seq<Field>)
    requires
        fields_text(fields) is Ok,
    ensures
        free_of(fields_text(fields).unwrap(), '\n'),
    decreases fields.len(),
{
    if fields.len() > 0 {
        let before = fields_text(fields.drop_last()).unwrap();
        let field = fields.last().text().unwrap();
        lemma_fields_one_line(fields.drop_last());
        lemma_field_one_line(fields.last());
        reveal_strlit(", ");
        lemma_free_of_concat(before, ", "@, '\n');
        lemma_free_of_concat(before + ", "@, field, '\n');
    }
}

/// No opcode holds a line feed.
proof fn lemma_opcode_one_line(op: OpView)
    requires
        opcode_text(op) is Some,
    ensures
        free_of(opcode_text(op).unwrap(), '\n'),
{
    reveal_strlit("ADD");
    reveal_strlit("MUL");
    reveal_strlit("SUB");
    reveal_strlit("DIV");
    reveal_strlit("NOT");
    reveal_strlit("AND");
    reveal_strlit("OR");
    reveal_strlit("XOR");
    reveal_strlit("INC");
    reveal_strlit("CMP");
    reveal_strlit("RR");
    reveal_strlit("RL");
    reveal_strlit("SETB");
    reveal_strlit("CLRB");
    reveal_strlit("CPLB");
    reveal_strlit("SETF");
    reveal_strlit("CLRF");
    reveal_strlit("CPLF");
    reveal_strlit("LOADBR");
    reveal_strlit("JF");
    reveal_strlit("LOAD");
    reveal_strlit("STORE");
    reveal_strlit("LBL");
    reveal_strlit("LBH");
    reveal_strlit("MOV");
    reveal_strlit("MOVOUT");
    reveal_strlit("MOVIN");
    reveal_strlit("MOVB");
    reveal_strlit("HALT");
}

/// An instruction word stands on one line.
pub proof fn lemma_encoded_one_line(op: OpView, labels: Map<Seq<char>, Address>)
    requires
        encoded(op, labels) is Ok,
    ensures
        free_of(encoded(op, labels).unwrap(), '\n'),
{
    let opcode = opcode_text(op).unwrap();
    let operands = fields_text(layout(op, labels).unwrap()).unwrap();
    lemma_opcode_one_line(op);
    lemma_fields_one_line(layout(op, labels).unwrap());
    reveal_strlit("{");
    reveal_strlit("};");
    lemma_free_of_concat("{"@, opcode, '\n');
    lemma_free_of_concat("{"@ + opcode, operands, '\n');
    lemma_free_of_concat("{"@ + opcode + operands, "};"@, '\n');
}

/// What one operation stands for once two-byte loads are taken apart: the
/// load of the upper byte and then that of the lower byte, or the operation
/// itself.
pub open spec fn unpacked(op: OpView) -> Seq<OpView> {
    match op {
        OpView::LoadByte(reg, upper, lower) => seq![
            OpView::LBH(reg, upper),
            OpView::LBL(reg, lower),
        ],
        _ => seq![op],
    }
}

impl Op {
    /// The mnemonic token of the operation in an instruction word.
    pub fn opcode(&self) -> (r: Result<String, AsmError>)
        ensures
            match r {
                Ok(s) => opcode_text(self@) == Some(s@),
                Err(e) => opcode_text(self@) is None && e == AsmError::PseudoOperation,
            },
    {
        let name: &str = match self {
            Op::ADD(_, _, _) => "ADD",
            Op::MUL(_, _) => "MUL",
            Op::SUB(_, _, _) => "SUB",
            Op::DIV(_, _) => "DIV",
            Op::NOT(_, _) => "NOT",
            Op::AND(_, _, _) => "AND",
            Op::OR(_, _, _) => "OR",
            Op::XOR(_, _, _) => "XOR",
            Op::INC(_, _) => "INC",
            Op::CMP(_, _) => "CMP",
            Op::RR(_, _) => "RR",
            Op::RL(_, _) => "RL",
            Op::SETB(_, _) => "SETB",
            Op::CLRB(_, _) => "CLRB",
            Op::CPLB(_, _) => "CPLB",
            Op::SETF(_) => "SETF",
            Op::CLRF(_) => "CLRF",
            Op::CPLF(_) => "CPLF",
            Op::LOADBR(_) => "LOADBR",
            Op::JF(_) => "JF",
            Op::LOAD(_, _) => "LOAD",
            Op::STORE(_, _) => "STORE",
            Op::LBL(_, _) => "LBL",
            Op::LBH(_, _) => "LBH",
            Op::MOV(_, _) => "MOV",
            Op::MOVOUT(_) => "MOVOUT",
            Op::MOVIN(_) => "MOVIN",
            Op::MOVB(_) => "MOVB",
            Op::HALT => "HALT",
            Op::Label(_) | Op::LoadByte(_, _, _) => {
                return Err(AsmError::PseudoOperation);
            },
        };
        Ok(String::from_str(name))
    }

    /// The operand fields of the operation, in the order in which they
    /// follow the opcode.
    pub fn fields(&self, labels: &SymbolTable) -> (r: Result<Vec<Field>, AsmError>)
        ensures
            match r {
                Ok(fields) => layout(self@, labels@) == Ok::<Seq<Field>, AsmError>(fields@),
                Err(e) => layout(self@, labels@) == Err::<Seq<Field>, AsmError>(e),
            },
    {
        let fields: Vec<Field> = match self {
            Op::ADD(out, in1, in2)
            | Op::SUB(out, in1, in2)
            | Op::AND(out, in1, in2)
            | Op::OR(out, in1, in2)
            | Op::XOR(out, in1, in2) => vec![
                Field::Register(*out),
                Field::Register(*in1),
                Field::Register(*in2),
                Field::DontCare(2),
            ],
            Op::MUL(in1, in2) | Op::DIV(in1, in2) => vec![
                Field::Accumulator,
                Field::Register(*in1),
                Field::Register(*in2),
                Field::DontCare(2),
            ],
            Op::NOT(out, in1)
            | Op::INC(out, in1)
            | Op::RR(out, in1)
            | Op::RL(out, in1)
            | Op::LOAD(out, in1)
            | Op::MOV(out, in1) => vec![
                Field::Register(*out),
                Field::Register(*in1),
                Field::DontCare(5),
            ],
            Op::CMP(in1, in2) | Op::STORE(in1, in2) => vec![
                Field::DontCare(3),
                Field::Register(*in1),
                Field::Register(*in2),
                Field::DontCare(2),
            ],
            Op::SETB(reg, pos) | Op::CLRB(reg, pos) | Op::CPLB(reg, pos) => vec![
                Field::Register(*reg),
                Field::Register(*reg),
                Field::Position(*pos),
                Field::DontCare(1),
            ],
            Op::SETF(pos) | Op::CLRF(pos) | Op::CPLF(pos) | Op::JF(pos) => vec![
                Field::DontCare(6),
                Field::Position(*pos),
                Field::DontCare(1),
            ],
            Op::LOADBR(name) => match labels.address_of(name.as_str()) {
                Some(address) => vec![Field::Target(address)],
                None => {
                    return Err(AsmError::UndefinedLabel);
                },
            },
            Op::LBL(reg, byte) | Op::LBH(reg, byte) => vec![
                Field::Register(*reg),
                Field::Byte(*byte),
            ],
            Op::MOVOUT(reg) => vec![Field::DontCare(3), Field::Register(*reg), Field::DontCare(5)],
            Op::MOVIN(reg) => vec![Field::Register(*reg), Field::DontCare(8)],
            Op::MOVB(pos) => vec![Field::DontCare(3), Field::Position(*pos), Field::DontCare(4)],
            Op::HALT => vec![Field::DontCare(11)],
            Op::Label(_) | Op::LoadByte(_, _, _) => {
                return Err(AsmError::PseudoOperation);
            },
        };
        assert(layout(self@, labels@) is Ok);
        assert(layout(self@, labels@).unwrap() =~= fields@);
        Ok(fields)
    }

    /// The instruction word of the operation, with a branch target taken
    /// from `labels`.
    pub fn to_verilog(&self, labels: &SymbolTable) -> (r: Result<String, AsmError>)
        ensures
            text_view(r) == encoded(self@, labels@),
    {
        let fields = match self.fields(labels) {
            Ok(fields) => fields,
            Err(e) => {
                return Err(e);
            },
        };
        let opcode = match self.opcode() {
            Ok(opcode) => opcode,
            Err(e) => {
                return Err(e);
            },
        };
        let mut word = String::from_str("{");
        word.append(opcode.as_str());
        let mut i: usize = 0;
        let ghost mut operands = Seq::<char>::empty();
        while i < fields.len()
            invariant
                i <= fields.len(),
                layout(self@, labels@) == Ok::<Seq<Field>, AsmError>(fields@),
                opcode_text(self@) == Some(opcode@),
                fields_text(fields@.take(i as int)) == Ok::<Seq<char>, AsmError>(operands),
                word@ == "{"@ + opcode@ + operands,
            decreases fields.len() - i,
        {
            proof {
                assert(fields@.take(i + 1).drop_last() == fields@.take(i as int));
                assert(fields@.take(i + 1).last() == fields@[i as int]);
            }
            match fields[i].render() {
                Ok(field) => {
                    word.append(", ");
                    word.append(field.as_str());
                    proof {
                        operands = operands + ", "@ + field@;
                    }
                },
                Err(e) => {
                    proof {
                        lemma_fields_text_fails(fields@, i + 1);
                    }
                    return Err(e);
                },
            }
            i += 1;
        }
        assert(fields@.take(i as int) == fields@);
        word.append("};");
        Ok(word)
    }

    /// Takes a two-byte load apart into the load of its upper byte and that
    /// of its lower byte; any other operation is returned alone.
    pub fn unpack(self) -> (r: Vec<Op>)
        ensures
            op_views(r@) == unpacked(self@),
    {
        match self {
            Op::LoadByte(reg, upper, lower) => vec![Op::LBH(reg, upper), Op::LBL(reg, lower)],
            op => vec![op],
        }
    }
}

} // verus!
