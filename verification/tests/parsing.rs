use cpu_asm::{
    AsmError, Bit, BitOp, BitPos, Data, Line, Mnemonic, NoOutTwoArgOp, OneArgOp, Reg, TwoArgOp,
};

fn label(name: &str) -> Result<Line, AsmError> {
    Ok(Line::Label(name.to_string()))
}

#[test]
fn halt_in_any_case() {
    assert_eq!(Line::from_str("halt"), Ok(Line::Halt));
    assert_eq!(Line::from_str("HALT"), Ok(Line::Halt));
    assert_eq!(Line::from_str("  Halt\t"), Ok(Line::Halt));
}

#[test]
fn label_declarations() {
    assert_eq!(Line::from_str("LOOP:"), label("loop"));
    assert_eq!(Line::from_str("loop:"), label("loop"));
    assert_eq!(Line::from_str("  end_1:  "), label("end_1"));
    assert_eq!(Line::from_str(":"), label(""));
    assert_eq!(Line::from_str("halt:"), label("halt"));
}

#[test]
fn label_name_ends_at_the_first_colon() {
    assert_eq!(Line::from_str("a:b:"), label("a"));
    assert_eq!(Line::from_str("::"), label(""));
}

#[test]
fn lone_token_without_final_colon_is_no_statement() {
    assert_eq!(Line::from_str("loop"), Err(AsmError::UnknownStatement));
    assert_eq!(Line::from_str("a:b"), Err(AsmError::UnknownStatement));
    assert_eq!(Line::from_str("mov"), Err(AsmError::UnknownStatement));
    assert_eq!(Line::from_str("add"), Err(AsmError::UnknownStatement));
    assert_eq!(Line::from_str(""), Err(AsmError::UnknownStatement));
    assert_eq!(Line::from_str("   "), Err(AsmError::UnknownStatement));
}

#[test]
fn unknown_mnemonics_are_refused() {
    assert_eq!(Line::from_str("MOVIN R0"), Err(AsmError::UnknownOperator));
    assert_eq!(Line::from_str("MOVOUT R0"), Err(AsmError::UnknownOperator));
    assert_eq!(Line::from_str("nop r0"), Err(AsmError::UnknownOperator));
    assert_eq!(Line::from_str("halt r0"), Err(AsmError::UnknownOperator));
    assert_eq!(Line::from_str("loop: add r0,r1,r2"), Err(AsmError::UnknownOperator));
    assert_eq!(Line::from_str("setb r0.1"), Err(AsmError::UnknownOperator));
}

#[test]
fn moves_of_every_operand_kind() {
    assert_eq!(
        Line::from_str("MOV R1,R2"),
        Ok(Line::Move { destination: Data::Direct(Reg(1)), source: Data::Direct(Reg(2)) })
    );
    assert_eq!(
        Line::from_str("mov r0, @r7"),
        Ok(Line::Move { destination: Data::Direct(Reg(0)), source: Data::Indirect(Reg(7)) })
    );
    assert_eq!(
        Line::from_str("mov @r3 , r4"),
        Ok(Line::Move { destination: Data::Indirect(Reg(3)), source: Data::Direct(Reg(4)) })
    );
    assert_eq!(
        Line::from_str("MOV R1,#255"),
        Ok(Line::Move { destination: Data::Direct(Reg(1)), source: Data::Immediate(255) })
    );
    assert_eq!(
        Line::from_str("mov r0,in"),
        Ok(Line::Move { destination: Data::Direct(Reg(0)), source: Data::In })
    );
    assert_eq!(
        Line::from_str("MOV OUT,R5"),
        Ok(Line::Move { destination: Data::Out, source: Data::Direct(Reg(5)) })
    );
}

#[test]
fn moves_that_only_lowering_refuses_are_parsed() {
    assert_eq!(
        Line::from_str("MOV #5,R0"),
        Ok(Line::Move { destination: Data::Immediate(5), source: Data::Direct(Reg(0)) })
    );
    assert_eq!(
        Line::from_str("MOV IN,R0"),
        Ok(Line::Move { destination: Data::In, source: Data::Direct(Reg(0)) })
    );
    assert_eq!(
        Line::from_str("mov out,in"),
        Ok(Line::Move { destination: Data::Out, source: Data::In })
    );
}

#[test]
fn immediate_values_of_sixteen_bits() {
    let immediate = |text: &str| match Line::from_str(text) {
        Ok(Line::Move { source: Data::Immediate(value), .. }) => Ok(value),
        Ok(other) => panic!("{other:?}"),
        Err(e) => Err(e),
    };
    assert_eq!(immediate("mov r0,#0"), Ok(0));
    assert_eq!(immediate("mov r0,#256"), Ok(256));
    assert_eq!(immediate("mov r0,#65535"), Ok(65535));
    assert_eq!(immediate("mov r0,#+7"), Ok(7));
    assert_eq!(immediate("mov r0,#007"), Ok(7));
    assert_eq!(immediate("mov r0,#65536"), Err(AsmError::InvalidImmediate));
    assert_eq!(immediate("mov r0,#"), Err(AsmError::InvalidImmediate));
    assert_eq!(immediate("mov r0,#-1"), Err(AsmError::InvalidImmediate));
    assert_eq!(immediate("mov r0,#0x10"), Err(AsmError::InvalidImmediate));
    assert_eq!(immediate("mov r0,# 5"), Err(AsmError::InvalidImmediate));
}

#[test]
fn move_operands_are_read_from_the_left() {
    assert_eq!(Line::from_str("mov @r9,#x"), Err(AsmError::InvalidRegister));
    assert_eq!(Line::from_str("mov #x,@r9"), Err(AsmError::InvalidImmediate));
    assert_eq!(Line::from_str("mov r0,r8"), Err(AsmError::InvalidRegister));
    assert_eq!(Line::from_str("mov r0,@"), Err(AsmError::InvalidRegister));
    assert_eq!(Line::from_str("mov r0,port"), Err(AsmError::InvalidRegister));
}

#[test]
fn one_operand_arithmetic() {
    assert_eq!(Line::from_str("NOT R1,R2"), Ok(Line::MathOneArg(OneArgOp::Not, Reg(1), Reg(2))));
    assert_eq!(Line::from_str("INC R0,R0"), Ok(Line::MathOneArg(OneArgOp::Inc, Reg(0), Reg(0))));
    assert_eq!(Line::from_str("rl r3, r4"), Ok(Line::MathOneArg(OneArgOp::Rl, Reg(3), Reg(4))));
    assert_eq!(Line::from_str("rr r5 ,r6"), Ok(Line::MathOneArg(OneArgOp::Rr, Reg(5), Reg(6))));
}

#[test]
fn two_operand_arithmetic() {
    assert_eq!(
        Line::from_str("ADD R1,R2,R3"),
        Ok(Line::MathTwoArg(TwoArgOp::Add, Reg(1), Reg(2), Reg(3)))
    );
    assert_eq!(
        Line::from_str("sub r0, r1, r2"),
        Ok(Line::MathTwoArg(TwoArgOp::Sub, Reg(0), Reg(1), Reg(2)))
    );
    assert_eq!(
        Line::from_str("And r7,r7,r7"),
        Ok(Line::MathTwoArg(TwoArgOp::And, Reg(7), Reg(7), Reg(7)))
    );
    assert_eq!(
        Line::from_str("or r4,r5,r6"),
        Ok(Line::MathTwoArg(TwoArgOp::Or, Reg(4), Reg(5), Reg(6)))
    );
    assert_eq!(
        Line::from_str("XOR r1,r0,r1"),
        Ok(Line::MathTwoArg(TwoArgOp::Xor, Reg(1), Reg(0), Reg(1)))
    );
}

#[test]
fn arithmetic_without_output_register() {
    assert_eq!(
        Line::from_str("MUL R1,R2"),
        Ok(Line::MathNoOutTwoArg(NoOutTwoArgOp::Mul, Reg(1), Reg(2)))
    );
    assert_eq!(
        Line::from_str("div r3,r4"),
        Ok(Line::MathNoOutTwoArg(NoOutTwoArgOp::Div, Reg(3), Reg(4)))
    );
    assert_eq!(
        Line::from_str("cmp r5,r6"),
        Ok(Line::MathNoOutTwoArg(NoOutTwoArgOp::Cmp, Reg(5), Reg(6)))
    );
}

#[test]
fn arithmetic_operands_are_read_from_the_left() {
    assert_eq!(Line::from_str("add r9,rx,r1"), Err(AsmError::InvalidRegister));
    assert_eq!(Line::from_str("add r1,r2,#3"), Err(AsmError::InvalidRegister));
    assert_eq!(Line::from_str("inc r0,"), Err(AsmError::InvalidRegister));
    assert_eq!(Line::from_str("mul in,r0"), Err(AsmError::InvalidRegister));
}

#[test]
fn bit_operations_on_a_register_bit() {
    assert_eq!(
        Line::from_str("SET R0.3"),
        Ok(Line::BitOp(BitOp::SetBit, Bit::Reg(Reg(0), BitPos(3))))
    );
    assert_eq!(
        Line::from_str("clr r7.0"),
        Ok(Line::BitOp(BitOp::Clear, Bit::Reg(Reg(7), BitPos(0))))
    );
    assert_eq!(
        Line::from_str("cpl r1.15"),
        Ok(Line::BitOp(BitOp::Complement, Bit::Reg(Reg(1), BitPos(15))))
    );
    assert_eq!(
        Line::from_str("set r1.255"),
        Ok(Line::BitOp(BitOp::SetBit, Bit::Reg(Reg(1), BitPos(255))))
    );
}

#[test]
fn bit_operations_on_a_flag() {
    assert_eq!(Line::from_str("CLR CARRY"), Ok(Line::BitOp(BitOp::Clear, Bit::Flag(BitPos(0)))));
    assert_eq!(Line::from_str("set z"), Ok(Line::BitOp(BitOp::SetBit, Bit::Flag(BitPos(7)))));
    assert_eq!(
        Line::from_str("cpl Overflow"),
        Ok(Line::BitOp(BitOp::Complement, Bit::Flag(BitPos(1))))
    );
}

#[test]
fn malformed_bit_operands() {
    assert_eq!(Line::from_str("set r8.1"), Err(AsmError::InvalidRegister));
    assert_eq!(Line::from_str("set r8.x"), Err(AsmError::InvalidRegister));
    assert_eq!(Line::from_str("set .1"), Err(AsmError::InvalidRegister));
    assert_eq!(Line::from_str("set r0."), Err(AsmError::InvalidBitIndex));
    assert_eq!(Line::from_str("set r0.256"), Err(AsmError::InvalidBitIndex));
    assert_eq!(Line::from_str("set r0.1.2"), Err(AsmError::InvalidBitIndex));
    assert_eq!(Line::from_str("set r0"), Err(AsmError::InvalidFlag));
    assert_eq!(Line::from_str("clr borrow"), Err(AsmError::InvalidFlag));
}

#[test]
fn input_port_bit_moves() {
    assert_eq!(Line::from_str("MOVB IN.3"), Ok(Line::Movb(BitPos(3))));
    assert_eq!(Line::from_str("movb in.0"), Ok(Line::Movb(BitPos(0))));
    assert_eq!(Line::from_str("movb In.7"), Ok(Line::Movb(BitPos(7))));
}

#[test]
fn malformed_input_port_bits() {
    assert_eq!(Line::from_str("movb out.3"), Err(AsmError::InvalidPortBit));
    assert_eq!(Line::from_str("movb in"), Err(AsmError::InvalidPortBit));
    assert_eq!(Line::from_str("movb r0.3"), Err(AsmError::InvalidPortBit));
    assert_eq!(Line::from_str("movb xin.3"), Err(AsmError::InvalidPortBit));
    assert_eq!(Line::from_str("movb in."), Err(AsmError::InvalidBitIndex));
    assert_eq!(Line::from_str("movb in.x"), Err(AsmError::InvalidBitIndex));
    assert_eq!(Line::from_str("movb in.256"), Err(AsmError::InvalidBitIndex));
}

#[test]
fn conditional_branch_tests() {
    assert_eq!(Line::from_str("JF Z"), Ok(Line::JumpIf(BitPos(7))));
    assert_eq!(Line::from_str("JF ZERO"), Ok(Line::JumpIf(BitPos(7))));
    assert_eq!(Line::from_str("jf cmp"), Ok(Line::JumpIf(BitPos(2))));
    assert_eq!(Line::from_str("jf r0.1"), Err(AsmError::InvalidFlag));
}

#[test]
fn branch_loads_take_their_operand_as_it_is() {
    assert_eq!(Line::from_str("LOADBR LOOP"), Ok(Line::LoadBranch("loop".to_string())));
    assert_eq!(Line::from_str("loadbr  end_1"), Ok(Line::LoadBranch("end_1".to_string())));
    assert_eq!(Line::from_str("loadbr a b"), Ok(Line::LoadBranch("a b".to_string())));
    assert_eq!(Line::from_str("loadbr r0"), Ok(Line::LoadBranch("r0".to_string())));
}

#[test]
fn flag_synonyms_parse_alike() {
    assert_eq!(Line::from_str("SET C"), Line::from_str("SET CARRY"));
    assert_eq!(Line::from_str("JF Z"), Line::from_str("JF ZERO"));
    assert_eq!(Line::from_str("clr v"), Line::from_str("clr overflow"));
    assert_eq!(Line::from_str("cpl cmp"), Line::from_str("cpl compare"));
    assert_eq!(Line::from_str("set eq"), Line::from_str("set equal"));
    assert_eq!(Line::from_str("set p"), Line::from_str("set parity"));
    assert_eq!(Line::from_str("set n"), Line::from_str("set negative"));
}

#[test]
fn operand_counts_are_checked_before_the_operands() {
    let count = |m| Err::<Line, AsmError>(AsmError::ArgumentCount(m));
    assert_eq!(Line::from_str("mov r0"), count(Mnemonic::Mov));
    assert_eq!(Line::from_str("mov r0,r1,r2"), count(Mnemonic::Mov));
    assert_eq!(Line::from_str("mov bad,worse,worst"), count(Mnemonic::Mov));
    assert_eq!(Line::from_str("not r0"), count(Mnemonic::One(OneArgOp::Not)));
    assert_eq!(Line::from_str("inc r0,r1,r2"), count(Mnemonic::One(OneArgOp::Inc)));
    assert_eq!(Line::from_str("rl r0"), count(Mnemonic::One(OneArgOp::Rl)));
    assert_eq!(Line::from_str("rr r0"), count(Mnemonic::One(OneArgOp::Rr)));
    assert_eq!(Line::from_str("add r0,r1"), count(Mnemonic::Two(TwoArgOp::Add)));
    assert_eq!(Line::from_str("sub r0"), count(Mnemonic::Two(TwoArgOp::Sub)));
    assert_eq!(Line::from_str("and r0,r1,r2,r3"), count(Mnemonic::Two(TwoArgOp::And)));
    assert_eq!(Line::from_str("or r0,r1"), count(Mnemonic::Two(TwoArgOp::Or)));
    assert_eq!(Line::from_str("xor r0,r1"), count(Mnemonic::Two(TwoArgOp::Xor)));
    assert_eq!(Line::from_str("mul r0"), count(Mnemonic::NoOut(NoOutTwoArgOp::Mul)));
    assert_eq!(Line::from_str("div r0,r1,r2"), count(Mnemonic::NoOut(NoOutTwoArgOp::Div)));
    assert_eq!(Line::from_str("cmp r0"), count(Mnemonic::NoOut(NoOutTwoArgOp::Cmp)));
    assert_eq!(Line::from_str("set r0.1,r1.1"), count(Mnemonic::Bit(BitOp::SetBit)));
    assert_eq!(Line::from_str("clr c,v"), count(Mnemonic::Bit(BitOp::Clear)));
    assert_eq!(Line::from_str("cpl c,v"), count(Mnemonic::Bit(BitOp::Complement)));
    assert_eq!(Line::from_str("movb in.1,in.2"), count(Mnemonic::Movb));
    assert_eq!(Line::from_str("jf z,c"), count(Mnemonic::Jf));
    assert_eq!(Line::from_str("loadbr a,b"), count(Mnemonic::LoadBr));
}

#[test]
fn any_white_space_ends_the_mnemonic() {
    let expected = Ok(Line::MathOneArg(OneArgOp::Inc, Reg(0), Reg(1)));
    assert_eq!(Line::from_str("inc r0,r1"), expected);
    assert_eq!(Line::from_str("inc\tr0,r1"), expected);
    assert_eq!(Line::from_str("inc   r0 ,\t r1"), expected);
    assert_eq!(Line::from_str("\tinc\u{a0}r0,r1\r\n"), expected);
}

#[test]
fn letters_beyond_ascii_are_lowered_too() {
    assert_eq!(Line::from_str("\u{c9}T\u{c9}:"), label("\u{e9}t\u{e9}"));
    assert_eq!(
        Line::from_str("LOADBR \u{c9}T\u{c9}"),
        Ok(Line::LoadBranch("\u{e9}t\u{e9}".to_string()))
    );
    assert_eq!(
        Line::from_str("  LOADBR \u{3a3}\u{391}\u{3a3} "),
        Ok(Line::LoadBranch("\u{3c3}\u{3b1}\u{3c2}".to_string()))
    );
}

#[test]
fn mnemonic_names_and_operand_counts() {
    assert_eq!(Mnemonic::Mov.name(), "MOV");
    assert_eq!(Mnemonic::Two(TwoArgOp::Xor).name(), "XOR");
    assert_eq!(Mnemonic::Bit(BitOp::SetBit).name(), "SET");
    assert_eq!(Mnemonic::LoadBr.name(), "LOADBR");
    assert_eq!(Mnemonic::Mov.operand_count(), 2);
    assert_eq!(Mnemonic::One(OneArgOp::Not).operand_count(), 2);
    assert_eq!(Mnemonic::Two(TwoArgOp::Add).operand_count(), 3);
    assert_eq!(Mnemonic::NoOut(NoOutTwoArgOp::Cmp).operand_count(), 2);
    assert_eq!(Mnemonic::Bit(BitOp::Clear).operand_count(), 1);
    assert_eq!(Mnemonic::Movb.operand_count(), 1);
    assert_eq!(Mnemonic::Jf.operand_count(), 1);
    assert_eq!(Mnemonic::LoadBr.operand_count(), 1);
}
