//! From a program to the text of its simulation task: expansion of the
//! two-byte loads, resolution of the labels, encoding, and the task around
//! the instruction words.

use vstd::prelude::*;
use vstd::string::*;
use crate::error::{AsmError, SourceError};
use crate::instruction::{
    encoded, fields_text, layout, lemma_encoded_one_line, lemma_fields_text_error, op_views,
    text_view, unpacked, Field, Op, OpView,
};
use crate::symbols::SymbolTable;
use crate::parse_file::{lowering, normalized, operands, parsed, read_line};
use crate::text::{
    chars_of, decimal, free_of, is_whitespace, joined, lemma_decimal_one_line,
    lemma_free_of_concat, lemma_joined_push, lemma_pieces_of_joined, pieces, position,
    push_decimal, space_position, split, to_lower, trim, trimmed, views, whitespace,
};
use crate::types::{lemma_register_named_valid, Address};

verus! {

/// A program with every two-byte load taken apart, in the order of the
/// source.
pub open spec fn expanded(ops: Seq<OpView>) -> Seq<OpView>
    decreases ops.len(),
{
    if ops.len() == 0 {
        Seq::empty()
    } else {
        expanded(ops.drop_last()) + unpacked(ops.last())
    }
}

/// Takes every two-byte load of the program apart.
pub fn expand(instructions: Vec<Op>) -> (r: Vec<Op>)
    ensures
        op_views(r@) == expanded(op_views(instructions@)),
{
    let ghost all = op_views(instructions@);
    let mut r: Vec<Op> = Vec::new();
    for op in it: instructions
        invariant
            op_views(it.seq()) == all,
            op_views(r@) == expanded(all.take(it.index() as int)),
    {
        let ghost before = op_views(r@);
        let ghost n = it.index() as int;
        assert(all.take(n + 1).drop_last() == all.take(n));
        assert(all.take(n + 1).last() == op@);
        let mut parts = op.unpack();
        let ghost added = op_views(parts@);
        r.append(&mut parts);
        assert(op_views(r@) == before + added);
    }
    assert(all.take(all.len() as int) == all);
    r
}

/// What resolution makes of a program: its operations without the label
/// markers, and the address of each label.
pub struct Resolution {
    pub code: Seq<OpView>,
    pub labels: Map<Seq<char>, Address>,
}

/// The most operations that a program can hold: as many as a 16-bit address
/// can count.
pub const MAX_OPERATIONS: usize = 0xffff;

/// The resolution of an expanded program, read from its start. An operation
/// takes the next address, counted from 0. A label marker takes none: its
/// label stands for the address of the operation that follows. A label that
/// is declared a second time, or an operation beyond the last address, ends
/// the resolution with an error.
pub open spec fn resolved(ops: Seq<OpView>) -> Result<Resolution, AsmError>
    decreases ops.len(),
{
    if ops.len() == 0 {
        Ok(Resolution { code: Seq::empty(), labels: Map::empty() })
    } else {
        match resolved(ops.drop_last()) {
            Err(e) => Err(e),
            Ok(before) => match ops.last() {
                OpView::Label(name) => if before.labels.contains_key(name) {
                    Err(AsmError::DuplicateLabel)
                } else {
                    Ok(
                        Resolution {
                            code: before.code,
                            labels: before.labels.insert(
                                name,
                                Address(before.code.len() as u16),
                            ),
                        },
                    )
                },
                op => if before.code.len() < MAX_OPERATIONS {
                    Ok(Resolution { code: before.code.push(op), labels: before.labels })
                } else {
                    Err(AsmError::ProgramTooLong)
                },
            },
        }
    }
}

/// If the start of a program cannot be resolved, neither can the program,
/// for the same reason.
pub proof fn lemma_resolved_fails(ops: Seq<OpView>, n: int)
    requires
        0 <= n <= ops.len(),
        resolved(ops.take(n)) is Err,
    ensures
        resolved(ops) == resolved(ops.take(n)),
    decreases ops.len() - n,
{
    if n < ops.len() {
        assert(ops.take(n + 1).drop_last() == ops.take(n));
        lemma_resolved_fails(ops, n + 1);
    } else {
        assert(ops.take(n) == ops);
    }
}

/// The operations and the symbol table that `resolve` returns, as a
/// resolution.
pub open spec fn resolution_view(r: Result<(Vec<Op>, SymbolTable), AsmError>) -> Result<
    Resolution,
    AsmError,
> {
    match r {
        Ok((code, labels)) => Ok(Resolution { code: op_views(code@), labels: labels@ }),
        Err(e) => Err(e),
    }
}

/// Resolves an expanded program: removes the label markers and records the
/// address of each label.
pub fn resolve(instructions: Vec<Op>) -> (r: Result<(Vec<Op>, SymbolTable), AsmError>)
    ensures
        resolution_view(r) == resolved(op_views(instructions@)),
{
    let ghost all = op_views(instructions@);
    let mut code: Vec<Op> = Vec::new();
    let mut labels = SymbolTable::new();
    assert(op_views(code@) == Seq::<OpView>::empty());
    for op in it: instructions
        invariant
            op_views(it.seq()) == all,
            code.len() <= MAX_OPERATIONS,
            resolved(all.take(it.index() as int)) == Ok::<Resolution, AsmError>(
                Resolution { code: op_views(code@), labels: labels@ },
            ),
    {
        let ghost before = op_views(code@);
        let ghost n = it.index() as int;
        proof {
            assert(all.take(n + 1).drop_last() == all.take(n));
            assert(all.take(n + 1).last() == op@);
        }
        match op {
            Op::Label(name) => {
                match labels.define(name, Address(code.len() as u16)) {
                    Ok(_) => {},
                    Err(e) => {
                        proof {
                            lemma_resolved_fails(all, n + 1);
                        }
                        return Err(e);
                    },
                }
            },
            op => {
                if code.len() >= MAX_OPERATIONS {
                    proof {
                        lemma_resolved_fails(all, n + 1);
                    }
                    return Err(AsmError::ProgramTooLong);
                }
                code.push(op);
                assert(op_views(code@) == before.push(op@));
            },
        }
    }
    assert(all.take(all.len() as int) == all);
    Ok((code, labels))
}

/// A task name is one token: it is not empty and holds no white space.
pub open spec fn valid_task_name(name: Seq<char>) -> bool {
    name.len() > 0 && forall|i: int| 0 <= i < name.len() ==> !whitespace(#[trigger] name[i])
}

/// Whether `name` can name a task.
pub fn is_task_name(name: &str) -> (b: bool)
    ensures
        b == valid_task_name(name@),
{
    let chars = chars_of(name);
    if chars.len() == 0 {
        return false;
    }
    let mut i: usize = 0;
    while i < chars.len()
        invariant
            i <= chars.len(),
            chars@ == name@,
            forall|k: int| 0 <= k < i ==> !whitespace(#[trigger] name@[k]),
        decreases chars.len() - i,
    {
        if is_whitespace(chars[i]) {
            return false;
        }
        i += 1;
    }
    true
}

/// The line that loads the instruction word `word` into the slot `index`
/// of instruction memory.
pub open spec fn slot_line(index: nat, word: Seq<char>) -> Seq<char> {
    "  instruction_mem["@ + decimal(index) + "] = "@ + word
}

/// The lines that load a resolved program into instruction memory: one for
/// each operation, at the slot of its address. The first operation that
/// cannot be encoded decides the error.
pub open spec fn slot_lines(code: Seq<OpView>, labels: Map<Seq<char>, Address>) -> Result<
    Seq<Seq<char>>,
    AsmError,
>
    decreases code.len(),
{
    if code.len() == 0 {
        Ok(Seq::empty())
    } else {
        match slot_lines(code.drop_last(), labels) {
            Err(e) => Err(e),
            Ok(before) => match encoded(code.last(), labels) {
                Err(e) => Err(e),
                Ok(word) => Ok(before.push(slot_line((code.len() - 1) as nat, word))),
            },
        }
    }
}

/// If the start of a program cannot be encoded, neither can the program,
/// for the same reason.
pub proof fn lemma_slot_lines_fails(code: Seq<OpView>, labels: Map<Seq<char>, Address>, n: int)
    requires
        0 <= n <= code.len(),
        slot_lines(code.take(n), labels) is Err,
    ensures
        slot_lines(code, labels) == slot_lines(code.take(n), labels),
    decreases code.len() - n,
{
    if n < code.len() {
        assert(code.take(n + 1).drop_last() == code.take(n));
        lemma_slot_lines_fails(code, labels, n + 1);
    } else {
        assert(code.take(n) == code);
    }
}

/// The lines of a task: the header, the display of the task's name, the
/// slot lines, and the footer.
pub open spec fn task_lines(name: Seq<char>, slots: Seq<Seq<char>>) -> Seq<Seq<char>> {
    seq!["task "@ + name + ";"@, "begin"@, "$display(\""@ + name + "\");"@] + slots + seq![
        "end"@,
        "endtask"@,
    ]
}

/// The text of the task `name` that loads the program `ops`: the program is
/// expanded, resolved and encoded, and the first step that fails decides
/// the error.
pub open spec fn task_text(name: Seq<char>, ops: Seq<OpView>) -> Result<Seq<char>, AsmError> {
    if !valid_task_name(name) {
        Err(AsmError::InvalidTaskName)
    } else {
        match resolved(expanded(ops)) {
            Err(e) => Err(e),
            Ok(resolution) => match slot_lines(resolution.code, resolution.labels) {
                Err(e) => Err(e),
                Ok(slots) => Ok(joined(task_lines(name, slots), '\n')),
            },
        }
    }
}

/// The views of a sequence of strings.
pub open spec fn string_views(lines: Seq<String>) -> Seq<Seq<char>> {
    Seq::new(lines.len(), |i: int| lines[i]@)
}

/// Encodes a resolved program, one slot line for each operation.
pub fn encode_slots(code: &Vec<Op>, labels: &SymbolTable) -> (r: Result<Vec<String>, AsmError>)
    ensures
        match r {
            Ok(lines) => slot_lines(op_views(code@), labels@) == Ok::<Seq<Seq<char>>, AsmError>(
                string_views(lines@),
            ),
            Err(e) => slot_lines(op_views(code@), labels@) == Err::<Seq<Seq<char>>, AsmError>(e),
        },
{
    let ghost all = op_views(code@);
    let mut lines: Vec<String> = Vec::new();
    let mut i: usize = 0;
    assert(string_views(lines@) == Seq::<Seq<char>>::empty());
    while i < code.len()
        invariant
            i <= code.len(),
            all == op_views(code@),
            slot_lines(all.take(i as int), labels@) == Ok::<Seq<Seq<char>>, AsmError>(
                string_views(lines@),
            ),
        decreases code.len() - i,
    {
        let ghost before = string_views(lines@);
        proof {
            assert(all.take(i + 1).drop_last() == all.take(i as int));
            assert(all.take(i + 1).last() == code@[i as int]@);
        }
        match code[i].to_verilog(labels) {
            Err(e) => {
                proof {
                    lemma_slot_lines_fails(all, labels@, i + 1);
                }
                return Err(e);
            },
            Ok(word) => {
                let mut line = String::from_str("  instruction_mem[");
                push_decimal(&mut line, i as u64);
                line.append("] = ");
                line.append(word.as_str());
                lines.push(line);
                assert(string_views(lines@) == before.push(line@));
            },
        }
        i += 1;
    }
    assert(all.take(i as int) == all);
    Ok(lines)
}

/// Joins the lines with a line feed between each two.
pub fn join_lines(lines: &Vec<String>) -> (r: String)
    ensures
        r@ == joined(string_views(lines@), '\n'),
{
    let ghost all = string_views(lines@);
    let mut r = String::new();
    let mut i: usize = 0;
    while i < lines.len()
        invariant
            i <= lines.len(),
            all == string_views(lines@),
            r@ == joined(all.take(i as int), '\n'),
        decreases lines.len() - i,
    {
        proof {
            assert(all.take(i + 1) == all.take(i as int).push(lines@[i as int]@));
            lemma_joined_push(all.take(i as int), lines@[i as int]@, '\n');
        }
        if i > 0 {
            r.push('\n');
        }
        r.append(lines[i].as_str());
        i += 1;
    }
    assert(all.take(i as int) == all);
    r
}

/// The text of the task `name` that loads the program `instructions` into
/// instruction memory.
pub fn to_verilog(name: &str, instructions: Vec<Op>) -> (r: Result<String, AsmError>)
    ensures
        text_view(r) == task_text(name@, op_views(instructions@)),
{
    if !is_task_name(name) {
        return Err(AsmError::InvalidTaskName);
    }
    let (code, labels) = match resolve(expand(instructions)) {
        Ok(resolution) => resolution,
        Err(e) => {
            return Err(e);
        },
    };
    let mut slots = match encode_slots(&code, &labels) {
        Ok(slots) => slots,
        Err(e) => {
            return Err(e);
        },
    };
    let ghost slot_views = string_views(slots@);
    let mut header = String::from_str("task ");
    header.append(name);
    header.append(";");
    let mut display = String::from_str("$display(\"");
    display.append(name);
    display.append("\");");
    let mut lines: Vec<String> = Vec::new();
    lines.push(header);
    lines.push(String::from_str("begin"));
    lines.push(display);
    lines.append(&mut slots);
    lines.push(String::from_str("end"));
    lines.push(String::from_str("endtask"));
    assert(string_views(lines@) == task_lines(name@, slot_views));
    Ok(join_lines(&lines))
}

/// The operation that a source line stands for.
pub open spec fn instruction_of(line: Seq<char>) -> Result<OpView, AsmError> {
    match parsed(normalized(line)) {
        Err(e) => Err(e),
        Ok(statement) => lowering(statement),
    }
}

/// What is read from a source line holds no register but the eight: none
/// of the instruction words that the line stands for fails for a register
/// out of range.
pub proof fn lemma_source_registers_in_range(
    line: Seq<char>,
    labels: Map<Seq<char>, Address>,
    k: int,
)
    requires
        instruction_of(line) is Ok,
        0 <= k < unpacked(instruction_of(line).unwrap()).len(),
    ensures
        encoded(unpacked(instruction_of(line).unwrap())[k], labels) != Err::<Seq<char>, AsmError>(
            AsmError::RegisterOutOfRange,
        ),
{
    let text = normalized(line);
    let cut = space_position(text);
    let word = unpacked(instruction_of(line).unwrap())[k];
    if 0 <= cut < text.len() {
        let args = operands(text.skip(cut + 1));
        if args.len() > 0 {
            lemma_register_named_valid(args[0]);
            lemma_register_named_valid(args[0].skip(1));
            lemma_register_named_valid(args[0].take(position(args[0], '.')));
        }
        if args.len() > 1 {
            lemma_register_named_valid(args[1]);
            lemma_register_named_valid(args[1].skip(1));
        }
        if args.len() > 2 {
            lemma_register_named_valid(args[2]);
        }
    }
    if layout(word, labels) is Ok {
        let fields = layout(word, labels).unwrap();
        if fields_text(fields) is Err {
            lemma_fields_text_error(fields);
        }
    }
}

/// A line is blank if it holds nothing but white space.
pub open spec fn blank(line: Seq<char>) -> bool {
    trimmed(line).len() == 0
}

/// The program that the lines stand for: one operation for each line that
/// is not blank, in their order. The first line that stands for no
/// operation decides the error, which carries its number.
pub open spec fn program_of(lines: Seq<Seq<char>>) -> Result<Seq<OpView>, SourceError>
    decreases lines.len(),
{
    if lines.len() == 0 {
        Ok(Seq::empty())
    } else {
        match program_of(lines.drop_last()) {
            Err(e) => Err(e),
            Ok(before) => if blank(lines.last()) {
                Ok(before)
            } else {
                match instruction_of(lines.last()) {
                    Err(error) => Err(SourceError { line: lines.len() as usize, error }),
                    Ok(op) => Ok(before.push(op)),
                }
            },
        }
    }
}

/// If the first lines of a text stand for no program, neither does the
/// text, for the same reason.
pub proof fn lemma_program_of_fails(lines: Seq<Seq<char>>, n: int)
    requires
        0 <= n <= lines.len(),
        program_of(lines.take(n)) is Err,
    ensures
        program_of(lines) == program_of(lines.take(n)),
    decreases lines.len() - n,
{
    if n < lines.len() {
        assert(lines.take(n + 1).drop_last() == lines.take(n));
        lemma_program_of_fails(lines, n + 1);
    } else {
        assert(lines.take(n) == lines);
    }
}

/// The program that a source text stands for, one statement on each line
/// that is not blank.
pub fn parse_program(source: &str) -> (r: Result<Vec<Op>, SourceError>)
    ensures
        match r {
            Ok(ops) => program_of(pieces(source@, '\n')) == Ok::<Seq<OpView>, SourceError>(
                op_views(ops@),
            ),
            Err(e) => program_of(pieces(source@, '\n')) == Err::<Seq<OpView>, SourceError>(e),
        },
{
    let lines = split(&chars_of(source), '\n');
    let ghost all = views(lines@);
    let mut ops: Vec<Op> = Vec::new();
    let mut i: usize = 0;
    assert(op_views(ops@) == Seq::<OpView>::empty());
    while i < lines.len()
        invariant
            i <= lines.len(),
            all == views(lines@),
            all == pieces(source@, '\n'),
            program_of(all.take(i as int)) == Ok::<Seq<OpView>, SourceError>(op_views(ops@)),
        decreases lines.len() - i,
    {
        let ghost before = op_views(ops@);
        proof {
            assert(all.take(i + 1).drop_last() == all.take(i as int));
            assert(all.take(i + 1).last() == lines@[i as int]@);
        }
        let line = trim(&lines[i]);
        if line.len() > 0 {
            let instruction = match read_line(&to_lower(&line)) {
                Ok(statement) => statement.to_instruction(),
                Err(e) => Err(e),
            };
            match instruction {
                Ok(op) => {
                    ops.push(op);
                    assert(op_views(ops@) == before.push(op@));
                },
                Err(error) => {
                    proof {
                        lemma_program_of_fails(all, i + 1);
                    }
                    return Err(SourceError { line: i + 1, error });
                },
            }
        }
        i += 1;
    }
    assert(all.take(i as int) == all);
    Ok(ops)
}

/// The operations of a program that take an address: all but the label
/// markers.
pub open spec fn real_ops(ops: Seq<OpView>) -> Seq<OpView> {
    ops.filter(|op: OpView| !(op is Label))
}

/// Resolution keeps the operations that take an address, in their order,
/// and nothing else; there are no more of them than addresses.
pub proof fn lemma_resolved_code(ops: Seq<OpView>)
    requires
        resolved(ops) is Ok,
    ensures
        resolved(ops).unwrap().code == real_ops(ops),
        real_ops(ops).len() <= MAX_OPERATIONS,
    decreases ops.len(),
{
    reveal_with_fuel(Seq::filter, 2);
    if ops.len() > 0 {
        lemma_resolved_code(ops.drop_last());
    }
}

/// A label stands for the number of operations that take an address before
/// its marker, wherever in the program the marker is.
pub proof fn lemma_label_address(ops: Seq<OpView>, i: int)
    requires
        resolved(ops) is Ok,
        0 <= i < ops.len(),
        ops[i] is Label,
    ensures
        resolved(ops).unwrap().labels.contains_key(ops[i]->Label_0),
        resolved(ops).unwrap().labels[ops[i]->Label_0] == Address(
            real_ops(ops.take(i)).len() as u16,
        ),
    decreases ops.len(),
{
    let before = ops.drop_last();
    if i == ops.len() - 1 {
        lemma_resolved_code(before);
        assert(ops.take(i) == before);
    } else {
        lemma_label_address(before, i);
        assert(before.take(i) == ops.take(i));
    }
}

/// A branch goes to the address of its label wherever the branch stands,
/// before the label's marker or after it.
pub proof fn lemma_branch_target(ops: Seq<OpView>, marker: int, branch: int)
    requires
        resolved(ops) is Ok,
        0 <= marker < ops.len(),
        0 <= branch < ops.len(),
        ops[marker] is Label,
        ops[branch] == OpView::LOADBR(ops[marker]->Label_0),
    ensures
        layout(ops[branch], resolved(ops).unwrap().labels) == Ok::<Seq<Field>, AsmError>(
            seq![Field::Target(Address(real_ops(ops.take(marker)).len() as u16))],
        ),
{
    lemma_label_address(ops, marker);
}

/// Resolution records no label but those that the program declares.
pub proof fn lemma_label_declared(ops: Seq<OpView>, name: Seq<char>)
    requires
        resolved(ops) is Ok,
        resolved(ops).unwrap().labels.contains_key(name),
    ensures
        exists|i: int| 0 <= i < ops.len() && ops[i] == OpView::Label(name),
    decreases ops.len(),
{
    if ops.len() > 0 {
        let before = ops.drop_last();
        if ops.last() == OpView::Label(name) {
            assert(ops[ops.len() - 1] == OpView::Label(name));
        } else {
            lemma_label_declared(before, name);
            let i = choose|i: int| 0 <= i < before.len() && before[i] == OpView::Label(name);
            assert(ops[i] == OpView::Label(name));
        }
    }
}

/// No two markers of the program declare the same label.
pub open spec fn distinct_labels(ops: Seq<OpView>) -> bool {
    forall|i: int, j: int|
        0 <= i < j < ops.len() && ops[i] is Label && ops[j] is Label ==> ops[i] != ops[j]
}

/// A program is resolved exactly when no two of its markers declare the
/// same label and it holds no more operations than there are addresses.
pub proof fn lemma_resolved_when(ops: Seq<OpView>)
    ensures
        resolved(ops) is Ok <==> real_ops(ops).len() <= MAX_OPERATIONS && distinct_labels(ops),
    decreases ops.len(),
{
    reveal_with_fuel(Seq::filter, 2);
    if ops.len() > 0 {
        let before = ops.drop_last();
        let last = ops.last();
        lemma_resolved_when(before);
        assert(real_ops(ops).len() >= real_ops(before).len());
        if !distinct_labels(before) {
            let (i, j) = choose|i: int, j: int|
                0 <= i < j < before.len() && before[i] is Label && before[j] is Label && before[i]
                    == before[j];
            assert(ops[i] == ops[j]);
        }
        if resolved(before) is Ok {
            lemma_resolved_code(before);
            if last is Label && resolved(before).unwrap().labels.contains_key(last->Label_0) {
                lemma_label_declared(before, last->Label_0);
                let i = choose|i: int| 0 <= i < before.len() && before[i] == last;
                assert(ops[i] == ops[ops.len() - 1]);
            } else {
                assert forall|i: int, j: int|
                    0 <= i < j < ops.len() && ops[i] is Label && ops[j] is Label implies ops[i]
                    != ops[j] by {
                    if j == ops.len() - 1 {
                        lemma_label_address(before, i);
                    } else {
                        assert(before[i] != before[j]);
                    }
                }
            }
        }
    }
}

/// Every operation of a resolved program has its own slot line, at the
/// slot of its address: the lines are as many as the operations, and the
/// line at place `i` loads the word of the operation at place `i` into
/// slot `i`.
pub proof fn lemma_slot_lines(code: Seq<OpView>, labels: Map<Seq<char>, Address>)
    requires
        slot_lines(code, labels) is Ok,
    ensures
        slot_lines(code, labels).unwrap().len() == code.len(),
        forall|i: int|
            0 <= i < code.len() ==> {
                &&& encoded(#[trigger] code[i], labels) is Ok
                &&& slot_lines(code, labels).unwrap()[i] == slot_line(
                    i as nat,
                    encoded(code[i], labels).unwrap(),
                )
            },
    decreases code.len(),
{
    if code.len() > 0 {
        let before = code.drop_last();
        lemma_slot_lines(before, labels);
        assert forall|i: int| 0 <= i < code.len() implies {
            &&& encoded(#[trigger] code[i], labels) is Ok
            &&& slot_lines(code, labels).unwrap()[i] == slot_line(
                i as nat,
                encoded(code[i], labels).unwrap(),
            )
        } by {
            if i < code.len() - 1 {
                assert(before[i] == code[i]);
            }
        }
    }
}

/// Every slot line stands on one line of the text.
proof fn lemma_slot_lines_one_line(code: Seq<OpView>, labels: Map<Seq<char>, Address>)
    requires
        slot_lines(code, labels) is Ok,
    ensures
        forall|i: int|
            0 <= i < slot_lines(code, labels).unwrap().len() ==> free_of(
                #[trigger] slot_lines(code, labels).unwrap()[i],
                '\n',
            ),
    decreases code.len(),
{
    if code.len() > 0 {
        let before = slot_lines(code.drop_last(), labels).unwrap();
        let index = (code.len() - 1) as nat;
        let word = encoded(code.last(), labels).unwrap();
        lemma_slot_lines_one_line(code.drop_last(), labels);
        lemma_encoded_one_line(code.last(), labels);
        lemma_decimal_one_line(index);
        reveal_strlit("  instruction_mem[");
        reveal_strlit("] = ");
        lemma_free_of_concat("  instruction_mem["@, decimal(index), '\n');
        lemma_free_of_concat("  instruction_mem["@ + decimal(index), "] = "@, '\n');
        lemma_free_of_concat("  instruction_mem["@ + decimal(index) + "] = "@, word, '\n');
        assert forall|i: int| 0 <= i < slot_lines(code, labels).unwrap().len() implies free_of(
            #[trigger] slot_lines(code, labels).unwrap()[i],
            '\n',
        ) by {
            if i < before.len() {
                assert(slot_lines(code, labels).unwrap()[i] == before[i]);
            }
        }
    }
}

/// The lines of a task's text are the lines that the task is made of.
pub proof fn lemma_task_lines(name: Seq<char>, slots: Seq<Seq<char>>)
    requires
        valid_task_name(name),
        forall|i: int| 0 <= i < slots.len() ==> free_of(#[trigger] slots[i], '\n'),
    ensures
        pieces(joined(task_lines(name, slots), '\n'), '\n') == task_lines(name, slots),
{
    let lines = task_lines(name, slots);
    reveal_strlit("task ");
    reveal_strlit(";");
    reveal_strlit("begin");
    reveal_strlit("$display(\"");
    reveal_strlit("\");");
    reveal_strlit("end");
    reveal_strlit("endtask");
    assert(free_of(name, '\n')) by {
        assert forall|i: int| 0 <= i < name.len() implies name[i] != '\n' by {
            assert(!whitespace(name[i]));
        }
    }
    lemma_free_of_concat("task "@, name, '\n');
    lemma_free_of_concat("task "@ + name, ";"@, '\n');
    lemma_free_of_concat("$display(\""@, name, '\n');
    lemma_free_of_concat("$display(\""@ + name, "\");"@, '\n');
    assert forall|i: int| 0 <= i < lines.len() implies free_of(#[trigger] lines[i], '\n') by {
        if 3 <= i < 3 + slots.len() {
            assert(lines[i] == slots[i - 3]);
        }
    }
    lemma_pieces_of_joined(lines, '\n');
}

/// The text of a task holds one slot line for each operation of the
/// program that takes an address, once the two-byte loads are taken apart.
/// The slots are numbered from 0 in the order of the source, and their
/// lines stand between the three lines of the header and the two of the
/// footer.
pub proof fn lemma_task_slots(name: Seq<char>, ops: Seq<OpView>)
    requires
        task_text(name, ops) is Ok,
    ensures
        ({
            let code = real_ops(expanded(ops));
            let labels = resolved(expanded(ops)).unwrap().labels;
            let lines = pieces(task_text(name, ops).unwrap(), '\n');
            &&& lines.len() == code.len() + 5
            &&& forall|i: int|
                0 <= i < code.len() ==> {
                    &&& encoded(code[i], labels) is Ok
                    &&& #[trigger] lines[3 + i] == slot_line(
                        i as nat,
                        encoded(code[i], labels).unwrap(),
                    )
                }
        }),
{
    let code = real_ops(expanded(ops));
    let labels = resolved(expanded(ops)).unwrap().labels;
    let slots = slot_lines(code, labels).unwrap();
    lemma_resolved_code(expanded(ops));
    lemma_slot_lines(code, labels);
    lemma_slot_lines_one_line(code, labels);
    lemma_task_lines(name, slots);
    let lines = task_lines(name, slots);
    assert forall|i: int| 0 <= i < code.len() implies #[trigger] lines[3 + i] == slots[i] by {}
}

/// A two-byte load stands for two operations, the load of the upper byte
/// and then that of the lower byte; every other operation stands for
/// itself.
pub proof fn lemma_expanded_push(ops: Seq<OpView>, op: OpView)
    ensures
        expanded(ops.push(op)) == match op {
            OpView::LoadByte(reg, upper, lower) => expanded(ops).push(
                OpView::LBH(reg, upper),
            ).push(OpView::LBL(reg, lower)),
            _ => expanded(ops).push(op),
        },
{
    assert(ops.push(op).drop_last() == ops);
}

} // verus!
