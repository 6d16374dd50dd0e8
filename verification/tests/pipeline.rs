use cpu_asm::assemble::{encode_slots, expand, is_task_name, join_lines, resolve};
use cpu_asm::{
    parse_program, to_verilog, Address, AsmError, BitPos, Op, Reg, SourceError, SymbolTable,
};

fn task(name: &str, source: &str) -> Result<String, AsmError> {
    to_verilog(name, parse_program(source).unwrap())
}

fn slots(text: &str) -> Vec<&str> {
    text.lines().filter(|line| line.starts_with("  instruction_mem[")).collect()
}

#[test]
fn port_round_trip_task() {
    let ops = vec![Op::MOVIN(Reg(0)), Op::INC(Reg(0), Reg(0)), Op::MOVOUT(Reg(0)), Op::HALT];
    let text = to_verilog("IO_test_INC", ops).unwrap();
    let expected = "task IO_test_INC;\n\
begin\n\
$display(\"IO_test_INC\");\n  \
instruction_mem[0] = {MOVIN, REG0, 8'bx};\n  \
instruction_mem[1] = {INC, REG0, REG0, 5'bx};\n  \
instruction_mem[2] = {MOVOUT, 3'bx, REG0, 5'bx};\n  \
instruction_mem[3] = {HALT, 11'bx};\n\
end\n\
endtask";
    assert_eq!(text, expected);
}

#[test]
fn port_round_trip_from_source() {
    let source = "MOV R0,IN\nINC R0,R0\n\nMOV OUT,R0\nHALT\n";
    assert_eq!(
        parse_program(source),
        Ok(vec![Op::MOVIN(Reg(0)), Op::INC(Reg(0), Reg(0)), Op::MOVOUT(Reg(0)), Op::HALT])
    );
    assert_eq!(
        task("IO_test_INC", source),
        to_verilog(
            "IO_test_INC",
            vec![Op::MOVIN(Reg(0)), Op::INC(Reg(0), Reg(0)), Op::MOVOUT(Reg(0)), Op::HALT]
        )
    );
}

#[test]
fn empty_program_is_a_task_without_slots() {
    assert_eq!(
        to_verilog("nothing", vec![]),
        Ok("task nothing;\nbegin\n$display(\"nothing\");\nend\nendtask".to_string())
    );
    assert_eq!(parse_program(""), Ok(vec![]));
    assert_eq!(parse_program("\n\n  \n\t\n"), Ok(vec![]));
}

#[test]
fn task_name_must_be_one_word() {
    for name in ["two words", "", " ", "a\tb", " lead", "trail ", "line\nfeed", "a\u{a0}b"] {
        assert!(!is_task_name(name), "{name:?}");
        assert_eq!(to_verilog(name, vec![Op::HALT]), Err(AsmError::InvalidTaskName), "{name:?}");
    }
    for name in ["x", "IO_test_INC", "tests/add.asm", "a-b.c"] {
        assert!(is_task_name(name), "{name:?}");
        assert!(to_verilog(name, vec![Op::HALT]).is_ok(), "{name:?}");
    }
}

#[test]
fn task_name_is_checked_before_the_program() {
    assert_eq!(
        to_verilog("two words", vec![Op::LOADBR("nowhere".to_string())]),
        Err(AsmError::InvalidTaskName)
    );
}

#[test]
fn slots_are_numbered_from_zero_in_source_order() {
    let source = "start:\nadd r1,r2,r3\nmid:\nmov r4,#258\nend:\nhalt\nloadbr mid";
    let text = task("t", source).unwrap();
    assert_eq!(
        slots(&text),
        vec![
            "  instruction_mem[0] = {ADD, REG1, REG2, REG3, 2'bx};",
            "  instruction_mem[1] = {LBH, REG4, 8'd1};",
            "  instruction_mem[2] = {LBL, REG4, 8'd2};",
            "  instruction_mem[3] = {HALT, 11'bx};",
            "  instruction_mem[4] = {LOADBR, 11'd1};",
        ]
    );
    assert_eq!(text.lines().count(), 5 + 5);
}

#[test]
fn slot_count_is_the_count_of_real_operations() {
    for n in [0usize, 1, 2, 9, 10, 11, 99, 100, 101, 300] {
        let mut ops = Vec::new();
        for i in 0..n {
            ops.push(Op::Label(format!("l{i}")));
            ops.push(Op::INC(Reg(0), Reg(0)));
        }
        let text = to_verilog("t", ops).unwrap();
        let lines = slots(&text);
        assert_eq!(lines.len(), n);
        for (i, line) in lines.iter().enumerate() {
            assert_eq!(*line, format!("  instruction_mem[{i}] = {{INC, REG0, REG0, 5'bx}};"));
        }
    }
}

#[test]
fn two_byte_immediate_takes_two_slots() {
    let text = task("t", "MOV R1,#255\nHALT").unwrap();
    assert_eq!(
        slots(&text),
        vec![
            "  instruction_mem[0] = {LBH, REG1, 8'd0};",
            "  instruction_mem[1] = {LBL, REG1, 8'd255};",
            "  instruction_mem[2] = {HALT, 11'bx};",
        ]
    );
    let text = task("t", "MOV R1,#256").unwrap();
    assert_eq!(
        slots(&text),
        vec![
            "  instruction_mem[0] = {LBH, REG1, 8'd1};",
            "  instruction_mem[1] = {LBL, REG1, 8'd0};",
        ]
    );
}

#[test]
fn expansion_keeps_the_order() {
    assert_eq!(
        expand(vec![
            Op::HALT,
            Op::LoadByte(Reg(1), 2, 3),
            Op::Label("a".to_string()),
            Op::LoadByte(Reg(4), 5, 6),
        ]),
        vec![
            Op::HALT,
            Op::LBH(Reg(1), 2),
            Op::LBL(Reg(1), 3),
            Op::Label("a".to_string()),
            Op::LBH(Reg(4), 5),
            Op::LBL(Reg(4), 6),
        ]
    );
    assert_eq!(expand(vec![]), vec![]);
}

#[test]
fn label_stands_for_the_count_of_operations_before_it() {
    for n in [0usize, 1, 5, 17] {
        let mut ops = Vec::new();
        for _ in 0..n {
            ops.push(Op::HALT);
        }
        ops.push(Op::Label("here".to_string()));
        ops.push(Op::LOADBR("here".to_string()));
        let text = to_verilog("t", ops).unwrap();
        assert_eq!(
            slots(&text)[n],
            format!("  instruction_mem[{n}] = {{LOADBR, 11'd{n}}};")
        );
    }
}

#[test]
fn forward_and_backward_references_resolve_alike() {
    let backward = task("t", "inc r0,r0\nLOOP:\ninc r1,r1\nLOADBR LOOP\nhalt").unwrap();
    let forward = task("t", "inc r0,r0\nLOADBR LOOP\nLOOP:\ninc r1,r1\nhalt").unwrap();
    assert_eq!(slots(&backward)[2], "  instruction_mem[2] = {LOADBR, 11'd1};");
    assert_eq!(slots(&forward)[1], "  instruction_mem[1] = {LOADBR, 11'd2};");
    let both = task("t", "loadbr mid\nhalt\nmid:\nhalt\nloadbr mid").unwrap();
    assert_eq!(slots(&both)[0], "  instruction_mem[0] = {LOADBR, 11'd2};");
    assert_eq!(slots(&both)[3], "  instruction_mem[3] = {LOADBR, 11'd2};");
}

#[test]
fn label_after_the_last_operation_stands_for_the_next_address() {
    let text = task("t", "loadbr end\nhalt\nend:").unwrap();
    assert_eq!(slots(&text)[0], "  instruction_mem[0] = {LOADBR, 11'd2};");
}

#[test]
fn resolution_removes_markers_and_records_addresses() {
    let (code, labels) = resolve(vec![
        Op::Label("a".to_string()),
        Op::HALT,
        Op::Label("b".to_string()),
        Op::Label("c".to_string()),
        Op::LOADBR("a".to_string()),
    ])
    .unwrap();
    assert_eq!(code, vec![Op::HALT, Op::LOADBR("a".to_string())]);
    assert_eq!(labels.address_of("a"), Some(Address(0)));
    assert_eq!(labels.address_of("b"), Some(Address(1)));
    assert_eq!(labels.address_of("c"), Some(Address(1)));
    assert_eq!(labels.address_of("d"), None);
}

#[test]
fn label_that_nothing_refers_to_is_accepted() {
    assert!(task("t", "unused:\nhalt").is_ok());
}

#[test]
fn label_declared_twice_is_refused() {
    assert_eq!(task("t", "a:\nhalt\na:\nhalt"), Err(AsmError::DuplicateLabel));
    assert_eq!(task("t", "a:\nA:"), Err(AsmError::DuplicateLabel));
    assert!(resolve(vec![Op::Label("x".to_string()), Op::Label("x".to_string())]).is_err());
}

#[test]
fn undefined_label_is_refused_when_encoding() {
    assert_eq!(task("t", "halt\nloadbr nowhere"), Err(AsmError::UndefinedLabel));
    assert!(resolve(vec![Op::LOADBR("nowhere".to_string())]).is_ok());
}

#[test]
fn resolution_errors_come_before_encoding_errors() {
    assert_eq!(
        to_verilog(
            "t",
            vec![
                Op::LOADBR("nowhere".to_string()),
                Op::Label("a".to_string()),
                Op::Label("a".to_string()),
            ]
        ),
        Err(AsmError::DuplicateLabel)
    );
}

#[test]
fn the_first_operation_that_cannot_be_encoded_decides() {
    assert_eq!(
        to_verilog("t", vec![Op::HALT, Op::JF(BitPos(16)), Op::MOVIN(Reg(8))]),
        Err(AsmError::BitPositionOutOfRange)
    );
    assert_eq!(
        to_verilog("t", vec![Op::MOVIN(Reg(8)), Op::JF(BitPos(16))]),
        Err(AsmError::RegisterOutOfRange)
    );
}

#[test]
fn branch_target_beyond_eleven_bits_is_refused() {
    let mut ops = Vec::new();
    for _ in 0..2047 {
        ops.push(Op::HALT);
    }
    ops.push(Op::Label("last".to_string()));
    ops.push(Op::LOADBR("last".to_string()));
    ops.push(Op::Label("beyond".to_string()));
    let text = to_verilog("t", ops).unwrap();
    assert_eq!(slots(&text)[2047], "  instruction_mem[2047] = {LOADBR, 11'd2047};");

    let mut ops = Vec::new();
    for _ in 0..2048 {
        ops.push(Op::HALT);
    }
    ops.push(Op::Label("beyond".to_string()));
    ops.push(Op::LOADBR("beyond".to_string()));
    assert_eq!(to_verilog("t", ops), Err(AsmError::AddressOutOfRange));
}

#[test]
fn program_of_as_many_operations_as_addresses_is_accepted() {
    let mut ops = Vec::new();
    for _ in 0..65535 {
        ops.push(Op::HALT);
    }
    ops.push(Op::Label("end".to_string()));
    let (code, labels) = resolve(ops).unwrap();
    assert_eq!(code.len(), 65535);
    assert_eq!(labels.address_of("end"), Some(Address(65535)));
}

#[test]
fn program_of_more_operations_than_addresses_is_refused() {
    let mut ops = Vec::new();
    for _ in 0..65536 {
        ops.push(Op::HALT);
    }
    assert!(matches!(resolve(ops), Err(AsmError::ProgramTooLong)));
    let mut ops = Vec::new();
    for _ in 0..32768 {
        ops.push(Op::LoadByte(Reg(0), 0, 0));
    }
    assert_eq!(to_verilog("t", ops), Err(AsmError::ProgramTooLong));
}

#[test]
fn flag_synonyms_give_the_same_task() {
    assert_eq!(task("t", "SET C"), task("t", "SET CARRY"));
    assert_eq!(task("t", "JF Z"), task("t", "JF ZERO"));
    assert_eq!(
        task("t", "SET C"),
        Ok("task t;\nbegin\n$display(\"t\");\n  \
instruction_mem[0] = {SETF, 6'bx, 4'd0, 1'bx};\nend\nendtask"
            .to_string())
    );
    assert_eq!(
        slots(&task("t", "JF ZERO").unwrap()),
        vec!["  instruction_mem[0] = {JF, 6'bx, 4'd7, 1'bx};"]
    );
}

#[test]
fn illegal_moves_give_no_program() {
    assert_eq!(
        parse_program("MOV #5,R0"),
        Err(SourceError { line: 1, error: AsmError::ImmediateDestination })
    );
    assert_eq!(
        parse_program("halt\nMOV IN,R0"),
        Err(SourceError { line: 2, error: AsmError::InputDestination })
    );
}

#[test]
fn errors_carry_the_number_of_their_line() {
    assert_eq!(
        parse_program("halt\n\n\nbogus r0\nworse"),
        Err(SourceError { line: 4, error: AsmError::UnknownOperator })
    );
    assert_eq!(
        parse_program("\r\nhalt\r\nadd r0,r1\r\n"),
        Err(SourceError {
            line: 3,
            error: AsmError::ArgumentCount(cpu_asm::Mnemonic::Two(cpu_asm::TwoArgOp::Add))
        })
    );
    assert_eq!(
        parse_program("word"),
        Err(SourceError { line: 1, error: AsmError::UnknownStatement })
    );
}

#[test]
fn every_kind_of_line_in_one_program() {
    let source = "\
        start:\n\
        MOV R1,#255\n\
        mov r2,r1\n\
        mov r3,@r2\n\
        mov @r2,r3\n\
        mov r0,in\n\
        mov out,r0\n\
        NOT R1,R1\n\
        ADD R1,R2,R3\n\
        MUL R1,R2\n\
        CMP R1,R2\n\
        SET R0.3\n\
        CLR CARRY\n\
        MOVB IN.3\n\
        JF Z\n\
        LOADBR START\n\
        HALT\n";
    assert_eq!(
        parse_program(source),
        Ok(vec![
            Op::Label("start".to_string()),
            Op::LoadByte(Reg(1), 0, 255),
            Op::MOV(Reg(2), Reg(1)),
            Op::LOAD(Reg(3), Reg(2)),
            Op::STORE(Reg(2), Reg(3)),
            Op::MOVIN(Reg(0)),
            Op::MOVOUT(Reg(0)),
            Op::NOT(Reg(1), Reg(1)),
            Op::ADD(Reg(1), Reg(2), Reg(3)),
            Op::MUL(Reg(1), Reg(2)),
            Op::CMP(Reg(1), Reg(2)),
            Op::SETB(Reg(0), BitPos(3)),
            Op::CLRF(BitPos(0)),
            Op::MOVB(BitPos(3)),
            Op::JF(BitPos(7)),
            Op::LOADBR("start".to_string()),
            Op::HALT,
        ])
    );
    let text = task("all", source).unwrap();
    assert_eq!(
        text,
        "task all;\n\
begin\n\
$display(\"all\");\n  \
instruction_mem[0] = {LBH, REG1, 8'd0};\n  \
instruction_mem[1] = {LBL, REG1, 8'd255};\n  \
instruction_mem[2] = {MOV, REG2, REG1, 5'bx};\n  \
instruction_mem[3] = {LOAD, REG3, REG2, 5'bx};\n  \
instruction_mem[4] = {STORE, 3'bx, REG2, REG3, 2'bx};\n  \
instruction_mem[5] = {MOVIN, REG0, 8'bx};\n  \
instruction_mem[6] = {MOVOUT, 3'bx, REG0, 5'bx};\n  \
instruction_mem[7] = {NOT, REG1, REG1, 5'bx};\n  \
instruction_mem[8] = {ADD, REG1, REG2, REG3, 2'bx};\n  \
instruction_mem[9] = {MUL, REG0, REG1, REG2, 2'bx};\n  \
instruction_mem[10] = {CMP, 3'bx, REG1, REG2, 2'bx};\n  \
instruction_mem[11] = {SETB, REG0, REG0, 4'd3, 1'bx};\n  \
instruction_mem[12] = {CLRF, 6'bx, 4'd0, 1'bx};\n  \
instruction_mem[13] = {MOVB, 3'bx, 4'd3, 4'bx};\n  \
instruction_mem[14] = {JF, 6'bx, 4'd7, 1'bx};\n  \
instruction_mem[15] = {LOADBR, 11'd0};\n  \
instruction_mem[16] = {HALT, 11'bx};\n\
end\n\
endtask"
    );
}

#[test]
fn slot_lines_of_a_resolved_program() {
    let mut labels = SymbolTable::new();
    labels.define("x".to_string(), Address(7)).unwrap();
    assert_eq!(
        encode_slots(&vec![Op::HALT, Op::LOADBR("x".to_string())], &labels),
        Ok(vec![
            "  instruction_mem[0] = {HALT, 11'bx};".to_string(),
            "  instruction_mem[1] = {LOADBR, 11'd7};".to_string(),
        ])
    );
    assert_eq!(encode_slots(&vec![], &labels), Ok(vec![]));
    assert_eq!(
        encode_slots(&vec![Op::HALT, Op::Label("x".to_string())], &labels),
        Err(AsmError::PseudoOperation)
    );
}

#[test]
fn lines_are_joined_by_line_feeds() {
    assert_eq!(join_lines(&vec![]), "");
    assert_eq!(join_lines(&vec!["a".to_string()]), "a");
    assert_eq!(join_lines(&vec!["a".to_string(), "".to_string(), "b".to_string()]), "a\n\nb");
}

#[test]
fn every_error_has_a_message() {
    let errors = [
        AsmError::UnknownStatement,
        AsmError::UnknownOperator,
        AsmError::ArgumentCount(cpu_asm::Mnemonic::Mov),
        AsmError::InvalidRegister,
        AsmError::InvalidFlag,
        AsmError::InvalidImmediate,
        AsmError::InvalidBitIndex,
        AsmError::InvalidPortBit,
        AsmError::ImmediateDestination,
        AsmError::IndirectMismatch,
        AsmError::InputDestination,
        AsmError::InputSource,
        AsmError::OutputSource,
        AsmError::OutputDestination,
        AsmError::RegisterOutOfRange,
        AsmError::BitPositionOutOfRange,
        AsmError::AddressOutOfRange,
        AsmError::ProgramTooLong,
        AsmError::InvalidTaskName,
        AsmError::DuplicateLabel,
        AsmError::UndefinedLabel,
        AsmError::PseudoOperation,
    ];
    for (i, a) in errors.iter().enumerate() {
        assert!(!a.message().is_empty());
        for b in &errors[i + 1..] {
            assert_ne!(a.message(), b.message());
        }
    }
    assert_eq!(
        AsmError::ArgumentCount(cpu_asm::Mnemonic::Mov).message(),
        "incorrect argument length for MOV"
    );
}
