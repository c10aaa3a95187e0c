use vstd::prelude::*;

use crate::compiler::tokenizer::{tokenize_line, tokenized, TokenizedLine};
use crate::instruction::{AddressMode, Instruction, Modifier, OpCode};

pub mod text;
pub mod tokenizer;

verus! {

/// What can be wrong with a line of a program's text. Each error holds the
/// number of the line, counted from 1; the last three also hold the word
/// that could not be read.
#[derive(Debug, PartialEq)]
pub enum ParseError<'a> {
    /// The operation cannot take the modifier.
    InvalidModifier(usize),
    /// An operand is missing.
    NotEnoughArgumets(usize),
    /// There is an operand too many.
    UnexpectedArgument(usize),
    /// The word is no operation.
    UnknownOpCode((usize, &'a str)),
    /// The word is no modifier.
    UnknownModifier((usize, &'a str)),
    /// The word is no number that a field can hold.
    UnknownValue((usize, &'a str)),
}

/// A parse error with its word as a sequence of characters.
pub enum Fault {
    InvalidModifier(usize),
    NotEnoughArgumets(usize),
    UnexpectedArgument(usize),
    UnknownOpCode(usize, Seq<char>),
    UnknownModifier(usize, Seq<char>),
    UnknownValue(usize, Seq<char>),
}

impl<'a> View for ParseError<'a> {
    type V = Fault;

    open spec fn view(&self) -> Fault {
        match *self {
            ParseError::InvalidModifier(line) => Fault::InvalidModifier(line),
            ParseError::NotEnoughArgumets(line) => Fault::NotEnoughArgumets(line),
            ParseError::UnexpectedArgument(line) => Fault::UnexpectedArgument(line),
            ParseError::UnknownOpCode(at) => Fault::UnknownOpCode(at.0, at.1@),
            ParseError::UnknownModifier(at) => Fault::UnknownModifier(at.0, at.1@),
            ParseError::UnknownValue(at) => Fault::UnknownValue(at.0, at.1@),
        }
    }
}

/// Whether a program's text may not pair the operation with the modifier.
/// Only `MOV`, `SEQ` and `SNE` work on whole instructions, so only they take
/// `I`; `SLT` compares one pair of fields, so it takes neither `F` nor `X`.
pub open spec fn clashes(op_code: OpCode, modifier: Modifier) -> bool {
    ||| modifier == Modifier::I && op_code != OpCode::MOV && op_code != OpCode::SEQ && op_code
        != OpCode::SNE
    ||| op_code == OpCode::SLT && (modifier == Modifier::F || modifier == Modifier::X)
}

/// The engine can run whatever a program's text may pair: no instruction
/// that has been read from text leaves the machine stuck.
pub proof fn lemma_read_runs(op_code: OpCode, modifier: Modifier)
    requires
        modifier != Modifier::Unset,
        !clashes(op_code, modifier),
    ensures
        op_code.takes(modifier),
{
}

/// A modifier that is filled in where the text gives none never clashes
/// with its operation, and is a modifier.
pub proof fn lemma_default_fits(op_code: OpCode, mode_a: AddressMode, mode_b: AddressMode)
    ensures
        !clashes(op_code, crate::compiler::tokenizer::default_modifier(op_code, mode_a, mode_b)),
        crate::compiler::tokenizer::default_modifier(op_code, mode_a, mode_b) != Modifier::Unset,
{
}

/// The instruction with these fields, unless operation and modifier clash.
pub open spec fn checked(
    op_code: OpCode,
    modifier: Modifier,
    a_reg: isize,
    a_mode: AddressMode,
    b_reg: isize,
    b_mode: AddressMode,
    line_num: usize,
) -> Result<Instruction, Fault> {
    if clashes(op_code, modifier) {
        Err(Fault::InvalidModifier(line_num))
    } else {
        Ok(Instruction { op_code, modifier, a_reg, a_mode, b_reg, b_mode })
    }
}

/// What a line of text stands for: an instruction, or the first thing wrong
/// with the line. Only `JMP` and `SPL` may come with a single operand; their
/// B-operand is then `$0`.
pub open spec fn parsed_line(line: Seq<char>, line_num: usize) -> Result<Instruction, Fault> {
    match tokenized(line, line_num) {
        Err(fault) => Err(fault),
        Ok(TokenizedLine::Single(op_code, modifier, a_reg, a_mode)) => {
            if op_code == OpCode::JMP || op_code == OpCode::SPL {
                checked(op_code, modifier, a_reg, a_mode, 0, AddressMode::Direct, line_num)
            } else {
                Err(Fault::NotEnoughArgumets(line_num))
            }
        },
        Ok(TokenizedLine::Double(op_code, modifier, a_reg, a_mode, b_reg, b_mode)) => checked(
            op_code,
            modifier,
            a_reg,
            a_mode,
            b_reg,
            b_mode,
            line_num,
        ),
    }
}

/// The number of characters from `from` on that come before the next line
/// feed.
pub open spec fn line_len(text: Seq<char>, from: int) -> nat
    decreases text.len() - from,
{
    if from >= text.len() || from < 0 || text[from] == '\n' {
        0
    } else {
        1 + line_len(text, from + 1)
    }
}

/// The lines of the text from `from` on. A line feed ends a line; the text
/// after the last line feed is a line if it has characters.
pub open spec fn lines_from(text: Seq<char>, from: int) -> Seq<Seq<char>>
    decreases
            (if from < text.len() {
                text.len() - from
            } else {
                0
            }),
{
    if from >= text.len() || from < 0 {
        seq![]
    } else {
        let end = from + line_len(text, from);
        seq![text.subrange(from, end)] + lines_from(text, end + 1)
    }
}

/// What the first `count` lines stand for: their instructions, or the first
/// thing wrong in the first line that has something wrong.
pub open spec fn parsed_lines(lines: Seq<Seq<char>>, count: nat) -> Result<Seq<Instruction>, Fault>
    decreases count,
{
    if count == 0 {
        Ok(seq![])
    } else {
        match parsed_lines(lines, (count - 1) as nat) {
            Err(fault) => Err(fault),
            Ok(program) => match parsed_line(lines[count - 1], count as usize) {
                Err(fault) => Err(fault),
                Ok(instruction) => Ok(program.push(instruction)),
            },
        }
    }
}

/// What a program's text stands for.
pub open spec fn parsed_program(text: Seq<char>) -> Result<Seq<Instruction>, Fault> {
    parsed_lines(lines_from(text, 0), lines_from(text, 0).len())
}

/// Cuts a program's text into its lines.
fn split_lines<'a>(program: &'a str) -> (res: Vec<&'a str>)
    ensures
        res@.len() == lines_from(program@, 0).len(),
        forall|i: int| 0 <= i < res@.len() ==> (#[trigger] res@[i])@ == lines_from(program@, 0)[i],
{
    let chars = crate::compiler::text::chars_of(program);
    let ascii = program.is_ascii();
    let mut lines: Vec<&'a str> = Vec::new();
    let mut from: usize = 0;
    let ghost text = program@;
    while from < chars.len()
        invariant
            chars@ == text,
            text == program@,
            ascii == program.is_ascii(),
            from <= text.len(),
            lines_from(text, 0).len() == lines@.len() + lines_from(text, from as int).len(),
            forall|i: int| 0 <= i < lines@.len() ==> (#[trigger] lines@[i])@ == lines_from(text, 0)[i],
            forall|i: int|
                0 <= i < lines_from(text, from as int).len() ==> lines_from(text, 0)[lines@.len() + i]
                    == #[trigger] lines_from(text, from as int)[i],
        decreases text.len() - from,
    {
        let mut end: usize = from;
        while end < chars.len() && chars[end] != '\n'
            invariant
                chars@ == text,
                from <= end <= text.len(),
                from + line_len(text, from as int) == end + line_len(text, end as int),
            decreases text.len() - end,
        {
            end += 1;
        }
        let ghost rest = lines_from(text, from as int);
        let ghost after = lines_from(text, end as int + 1);
        let line = crate::compiler::text::part(program, ascii, from, end);
        assert(rest[0] == line@);
        assert forall|i: int| 0 <= i < after.len() implies lines_from(text, 0)[lines@.len() + 1 + i]
            == #[trigger] after[i] by {
            assert(after[i] == rest[i + 1]);
        }
        lines.push(line);
        if end < chars.len() {
            from = end + 1;
        } else {
            from = end;
        }
    }
    lines
}

/// Reads one line of a program's text.
pub fn parse_line<'a>(line: &'a str, line_num: usize) -> (res: Result<Instruction, ParseError<'a>>)
    ensures
        match parsed_line(line@, line_num) {
            Ok(instruction) => res is Ok && res->Ok_0 == instruction,
            Err(fault) => res is Err && res->Err_0@ == fault,
        },
{
    let tokenized_line = match tokenize_line(line, line_num) {
        Ok(t) => t,
        Err(e) => return Err(e),
    };
    let (op_code, modifier, reg_a, mode_a, reg_b, mode_b) = match tokenized_line {
        TokenizedLine::Single(op_code, modifier, reg_a, mode_a) => {
            if op_code == OpCode::JMP || op_code == OpCode::SPL {
                (op_code, modifier, reg_a, mode_a, 0isize, AddressMode::Direct)
            } else {
                return Err(ParseError::NotEnoughArgumets(line_num));
            }
        },
        TokenizedLine::Double(op_code, modifier, reg_a, mode_a, reg_b, mode_b) => {
            (op_code, modifier, reg_a, mode_a, reg_b, mode_b)
        },
    };
    if modifier == Modifier::I && op_code != OpCode::MOV && op_code != OpCode::SEQ && op_code
        != OpCode::SNE {
        return Err(ParseError::InvalidModifier(line_num));
    }
    if op_code == OpCode::SLT && (modifier == Modifier::F || modifier == Modifier::X) {
        return Err(ParseError::InvalidModifier(line_num));
    }
    Ok(Instruction::new(op_code, modifier, reg_a, mode_a, reg_b, mode_b))
}

/// Reads a program's text, one instruction to the line, into the program it
/// stands for, or gives the first thing wrong with it.
pub fn parse_program<'a>(program: &'a str) -> (res: Result<Vec<Instruction>, ParseError<'a>>)
    ensures
        match parsed_program(program@) {
            Ok(instructions) => res is Ok && res->Ok_0@ == instructions,
            Err(fault) => res is Err && res->Err_0@ == fault,
        },
{
    let lines = split_lines(program);
    let ghost texts = lines_from(program@, 0);
    let mut parsed_program: Vec<Instruction> = Vec::new();
    let mut i: usize = 0;
    while i < lines.len()
        invariant
            i <= lines@.len() == texts.len(),
            texts == lines_from(program@, 0),
            forall|k: int| 0 <= k < lines@.len() ==> (#[trigger] lines@[k])@ == texts[k],
            parsed_lines(texts, i as nat) == Ok::<Seq<Instruction>, Fault>(parsed_program@),
        decreases lines@.len() - i,
    {
        match parse_line(lines[i], i + 1) {
            Ok(v) => {
                parsed_program.push(v);
            },
            Err(e) => {
                proof {
                    lemma_fault_stays(texts, (i + 1) as nat, texts.len());
                }
                return Err(e);
            },
        }
        i += 1;
    }
    Ok(parsed_program)
}

/// Once a line has something wrong, that is what is wrong with the text.
pub proof fn lemma_fault_stays(lines: Seq<Seq<char>>, failed: nat, count: nat)
    requires
        failed <= count,
        parsed_lines(lines, failed) is Err,
    ensures
        parsed_lines(lines, count) == parsed_lines(lines, failed),
    decreases count,
{
    if failed < count {
        lemma_fault_stays(lines, failed, (count - 1) as nat);
    }
}

} // verus!
