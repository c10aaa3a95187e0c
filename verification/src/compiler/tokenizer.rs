use vstd::prelude::*;

use crate::compiler::text::{chars_of, part};
use crate::compiler::{Fault, ParseError};
use crate::instruction::{AddressMode, Modifier, OpCode};

verus! {

/// A line of a program's text, read but not yet checked.
#[derive(Debug, Clone, Copy, PartialEq, Eq, Structural)]
pub enum TokenizedLine {
    /// A line with one operand.
    Single(OpCode, Modifier, isize, AddressMode),
    /// A line with two operands.
    Double(OpCode, Modifier, isize, AddressMode, isize, AddressMode),
}

/// Whether a character is white space: a character with the Unicode
/// property `White_Space`.
pub open spec fn is_space(c: char) -> bool {
    ||| c == ' '
    ||| '\u{9}' <= c <= '\u{d}'
    ||| c == '\u{85}'
    ||| c == '\u{a0}'
    ||| c == '\u{1680}'
    ||| '\u{2000}' <= c <= '\u{200a}'
    ||| c == '\u{2028}'
    ||| c == '\u{2029}'
    ||| c == '\u{202f}'
    ||| c == '\u{205f}'
    ||| c == '\u{3000}'
}

/// Whether a character ends a word: white space does, and a comma, which is
/// a word of its own.
pub open spec fn is_break(c: char) -> bool {
    is_space(c) || c == ','
}

/// The number of characters from `from` on that come before the next break.
pub open spec fn word_len(line: Seq<char>, from: int) -> nat
    decreases line.len() - from,
{
    if from >= line.len() || from < 0 || is_break(line[from]) {
        0
    } else {
        1 + word_len(line, from + 1)
    }
}

/// The words of the line from `from` on: the runs of characters between
/// breaks, and each comma.
pub open spec fn tokens_from(line: Seq<char>, from: int) -> Seq<Seq<char>>
    decreases
            (if from < line.len() {
                line.len() - from
            } else {
                0
            }),
{
    if from >= line.len() || from < 0 {
        seq![]
    } else if is_space(line[from]) {
        tokens_from(line, from + 1)
    } else if line[from] == ',' {
        seq![line.subrange(from, from + 1)] + tokens_from(line, from + 1)
    } else {
        let end = from + 1 + word_len(line, from + 1);
        seq![line.subrange(from, end)] + tokens_from(line, end)
    }
}

/// The words of a line that say what the instruction is: the operation,
/// then the operands. A comma between the first operand and a second one is
/// left out.
pub open spec fn words(line: Seq<char>) -> Seq<Seq<char>> {
    let all = tokens_from(line, 0);
    if all.len() >= 4 && all[2] =~= seq![','] {
        all.remove(2)
    } else {
        all
    }
}

/// The operation that a word names.
pub open spec fn opcode_named(name: Seq<char>) -> Option<OpCode> {
    if name =~= seq!['M', 'O', 'V'] {
        Some(OpCode::MOV)
    } else if name =~= seq!['A', 'D', 'D'] {
        Some(OpCode::ADD)
    } else if name =~= seq!['S', 'U', 'B'] {
        Some(OpCode::SUB)
    } else if name =~= seq!['M', 'U', 'L'] {
        Some(OpCode::MUL)
    } else if name =~= seq!['D', 'I', 'V'] {
        Some(OpCode::DIV)
    } else if name =~= seq!['M', 'O', 'D'] {
        Some(OpCode::MOD)
    } else if name =~= seq!['D', 'A', 'T'] {
        Some(OpCode::DAT)
    } else if name =~= seq!['J', 'M', 'P'] {
        Some(OpCode::JMP)
    } else if name =~= seq!['S', 'P', 'L'] {
        Some(OpCode::SPL)
    } else if name =~= seq!['J', 'M', 'Z'] {
        Some(OpCode::JMZ)
    } else if name =~= seq!['J', 'M', 'N'] {
        Some(OpCode::JMN)
    } else if name =~= seq!['N', 'O', 'P'] {
        Some(OpCode::NOP)
    } else if name =~= seq!['D', 'J', 'N'] {
        Some(OpCode::DJN)
    } else if name =~= seq!['S', 'E', 'Q'] {
        Some(OpCode::SEQ)
    } else if name =~= seq!['S', 'N', 'E'] {
        Some(OpCode::SNE)
    } else if name =~= seq!['S', 'L', 'T'] {
        Some(OpCode::SLT)
    } else {
        None
    }
}

/// The modifier that a word names.
pub open spec fn modifier_named(name: Seq<char>) -> Option<Modifier> {
    if name =~= seq!['A'] {
        Some(Modifier::A)
    } else if name =~= seq!['B'] {
        Some(Modifier::B)
    } else if name =~= seq!['A', 'B'] {
        Some(Modifier::AB)
    } else if name =~= seq!['B', 'A'] {
        Some(Modifier::BA)
    } else if name =~= seq!['X'] {
        Some(Modifier::X)
    } else if name =~= seq!['F'] {
        Some(Modifier::F)
    } else if name =~= seq!['I'] {
        Some(Modifier::I)
    } else {
        None
    }
}

/// The addressing mode that a character stands for in front of a number.
pub open spec fn mode_marked(c: char) -> Option<AddressMode> {
    if c == '$' {
        Some(AddressMode::Direct)
    } else if c == '#' {
        Some(AddressMode::Immediate)
    } else if c == '*' {
        Some(AddressMode::IndirectA)
    } else if c == '@' {
        Some(AddressMode::IndirectB)
    } else if c == '{' {
        Some(AddressMode::PreDecrementIndirectA)
    } else if c == '<' {
        Some(AddressMode::PreDecrementIndirectB)
    } else if c == '}' {
        Some(AddressMode::PostIncrementIndirectA)
    } else if c == '>' {
        Some(AddressMode::PostIncrementIndirectB)
    } else {
        None
    }
}

/// The character that marks a mode is read as that mode.
pub proof fn lemma_mark_read_back(mode: AddressMode)
    ensures
        mode_marked(mode.mark()) == Some(mode),
{
}

/// The modifier an instruction with two operands has when its text gives
/// none.
pub open spec fn default_modifier(opcode: OpCode, mode_a: AddressMode, mode_b: AddressMode) -> Modifier {
    match opcode {
        OpCode::DAT | OpCode::NOP => Modifier::F,
        OpCode::MOV | OpCode::SEQ | OpCode::SNE => {
            if mode_a == AddressMode::Immediate {
                Modifier::AB
            } else if mode_b == AddressMode::Immediate {
                Modifier::B
            } else {
                Modifier::I
            }
        },
        OpCode::ADD | OpCode::SUB | OpCode::MUL | OpCode::DIV | OpCode::MOD => {
            if mode_a == AddressMode::Immediate {
                Modifier::AB
            } else if mode_b == AddressMode::Immediate {
                Modifier::B
            } else {
                Modifier::F
            }
        },
        OpCode::SLT => {
            if mode_a == AddressMode::Immediate {
                Modifier::AB
            } else {
                Modifier::B
            }
        },
        OpCode::JMP | OpCode::JMZ | OpCode::JMN | OpCode::DJN | OpCode::SPL => Modifier::B,
    }
}

/// Whether a character is a decimal digit.
pub open spec fn is_digit(c: char) -> bool {
    '0' <= c <= '9'
}

/// Whether every character is a decimal digit.
pub open spec fn all_digits(s: Seq<char>) -> bool {
    forall|i: int| 0 <= i < s.len() ==> is_digit(#[trigger] s[i])
}

/// The number that a run of decimal digits spells.
pub open spec fn digits_value(s: Seq<char>) -> int
    decreases s.len(),
{
    if s.len() == 0 {
        0
    } else {
        digits_value(s.drop_last()) * 10 + (s.last() as u32 - '0' as u32)
    }
}

/// The number that a word spells: decimal digits, at least one, after a
/// sign or none, as far as a field can hold the number.
pub open spec fn number(s: Seq<char>) -> Option<int> {
    let signed = s.len() > 0 && (s[0] == '-' || s[0] == '+');
    let body = if signed {
        s.drop_first()
    } else {
        s
    };
    let value = if s.len() > 0 && s[0] == '-' {
        -digits_value(body)
    } else {
        digits_value(body)
    };
    if body.len() > 0 && all_digits(body) && isize::MIN <= value <= isize::MAX {
        Some(value)
    } else {
        None
    }
}

/// The operand that a word spells: a number, after a character that marks
/// its addressing mode or, for the direct mode, after none. Where the
/// number cannot be read, the number's part of the word is what is wrong.
pub open spec fn operand(word: Seq<char>) -> Result<(AddressMode, isize), Seq<char>> {
    if word.len() > 0 && mode_marked(word[0]) is Some {
        match number(word.skip(1)) {
            Some(value) => Ok((mode_marked(word[0])->0, value as isize)),
            None => Err(word.skip(1)),
        }
    } else {
        match number(word) {
            Some(value) => Ok((AddressMode::Direct, value as isize)),
            None => Err(word),
        }
    }
}

/// The number of characters from `from` on that come before the next dot.
pub open spec fn until_dot(word: Seq<char>, from: int) -> nat
    decreases word.len() - from,
{
    if from >= word.len() || from < 0 || word[from] == '.' {
        0
    } else {
        1 + until_dot(word, from + 1)
    }
}

/// The modifier that the first word gives after its first dot, if it has a
/// dot: the modifier, or the text that names none.
pub open spec fn modifier_given(head: Seq<char>) -> Option<Result<Modifier, Seq<char>>> {
    let dot = until_dot(head, 0) as int;
    if dot < head.len() {
        match modifier_named(head.skip(dot + 1)) {
            Some(modifier) => Some(Ok(modifier)),
            None => Some(Err(head.skip(dot + 1))),
        }
    } else {
        None
    }
}

/// What a line's words come to: the operation with its modifier and one or
/// two operands; or the first thing wrong, looking at the number of words,
/// the operation, the modifier, the first operand and the rest in this
/// order. Where the text gives no modifier, a line with one operand has the
/// modifier `B`, whatever its operation, and a line with two operands has
/// the default modifier of its operation and modes.
pub open spec fn tokenized(line: Seq<char>, line_num: usize) -> Result<TokenizedLine, Fault> {
    let w = words(line);
    if w.len() < 2 {
        Err(Fault::NotEnoughArgumets(line_num))
    } else {
        let name = w[0].take(until_dot(w[0], 0) as int);
        let given = modifier_given(w[0]);
        if opcode_named(name) is None {
            Err(Fault::UnknownOpCode(line_num, name))
        } else if given is Some && given->0 is Err {
            Err(Fault::UnknownModifier(line_num, given->0->Err_0))
        } else if operand(w[1]) is Err {
            Err(Fault::UnknownValue(line_num, operand(w[1])->Err_0))
        } else {
            let op_code = opcode_named(name)->0;
            let (mode_a, reg_a) = operand(w[1])->Ok_0;
            if w.len() == 2 {
                let modifier = if given is Some {
                    given->0->Ok_0
                } else {
                    Modifier::B
                };
                Ok(TokenizedLine::Single(op_code, modifier, reg_a, mode_a))
            } else if w.len() == 3 {
                if operand(w[2]) is Err {
                    Err(Fault::UnknownValue(line_num, operand(w[2])->Err_0))
                } else {
                    let (mode_b, reg_b) = operand(w[2])->Ok_0;
                    let modifier = if given is Some {
                        given->0->Ok_0
                    } else {
                        default_modifier(op_code, mode_a, mode_b)
                    };
                    Ok(TokenizedLine::Double(op_code, modifier, reg_a, mode_a, reg_b, mode_b))
                }
            } else {
                Err(Fault::UnexpectedArgument(line_num))
            }
        }
    }
}

/// A line of two words whose first word gives no modifier comes to a line
/// with one operand and the modifier `B`, whatever its operation.
pub proof fn lemma_one_operand_gets_b(line: Seq<char>, line_num: usize)
    requires
        words(line).len() == 2,
        modifier_given(words(line)[0]) is None,
        tokenized(line, line_num) is Ok,
    ensures
        tokenized(line, line_num) == Ok::<TokenizedLine, Fault>(
            TokenizedLine::Single(
                opcode_named(words(line)[0])->0,
                Modifier::B,
                operand(words(line)[1])->Ok_0.1,
                operand(words(line)[1])->Ok_0.0,
            ),
        ),
{
    let head = words(line)[0];
    assert(head.take(until_dot(head, 0) as int) =~= head) by {
        lemma_until_dot(head, 0);
    }
}

/// The characters counted before the next dot end at a dot or at the end of
/// the word.
pub proof fn lemma_until_dot(word: Seq<char>, from: int)
    requires
        0 <= from <= word.len(),
    ensures
        from + until_dot(word, from) <= word.len(),
        from + until_dot(word, from) < word.len() ==> word[from + until_dot(word, from)] == '.',
    decreases word.len() - from,
{
    if from < word.len() && word[from] != '.' {
        lemma_until_dot(word, from + 1);
    }
}

/// Tells whether a character is white space.
pub fn is_whitespace(c: char) -> (res: bool)
    ensures
        res == is_space(c),
{
    c == ' ' || ('\u{9}' <= c && c <= '\u{d}') || c == '\u{85}' || c == '\u{a0}' || c == '\u{1680}'
        || ('\u{2000}' <= c && c <= '\u{200a}') || c == '\u{2028}' || c == '\u{2029}' || c
        == '\u{202f}' || c == '\u{205f}' || c == '\u{3000}'
}

/// The words of a line, each comma among them.
fn split_words<'a>(line: &'a str) -> (res: Vec<&'a str>)
    ensures
        res@.len() == tokens_from(line@, 0).len(),
        forall|i: int| 0 <= i < res@.len() ==> (#[trigger] res@[i])@ == tokens_from(line@, 0)[i],
{
    let chars = chars_of(line);
    let ascii = line.is_ascii();
    let ghost text = line@;
    let mut found: Vec<&'a str> = Vec::new();
    let mut from: usize = 0;
    while from < chars.len()
        invariant
            chars@ == text,
            text == line@,
            ascii == line.is_ascii(),
            from <= text.len(),
            tokens_from(text, 0).len() == found@.len() + tokens_from(text, from as int).len(),
            forall|i: int|
                0 <= i < found@.len() ==> (#[trigger] found@[i])@ == tokens_from(text, 0)[i],
            forall|i: int|
                0 <= i < tokens_from(text, from as int).len() ==> tokens_from(text, 0)[found@.len()
                    + i] == #[trigger] tokens_from(text, from as int)[i],
        decreases text.len() - from,
    {
        let c = chars[from];
        if is_whitespace(c) {
            from += 1;
        } else {
            let mut end: usize = from + 1;
            if c != ',' {
                while end < chars.len() && !is_whitespace(chars[end]) && chars[end] != ','
                    invariant
                        chars@ == text,
                        from < end <= text.len(),
                        from + 1 + word_len(text, from + 1) == end + word_len(text, end as int),
                    decreases text.len() - end,
                {
                    end += 1;
                }
            }
            let ghost rest = tokens_from(text, from as int);
            let ghost after = tokens_from(text, end as int);
            let word = part(line, ascii, from, end);
            assert(rest[0] == word@);
            assert forall|i: int| 0 <= i < after.len() implies tokens_from(text, 0)[found@.len() + 1
                + i] == #[trigger] after[i] by {
                assert(after[i] == rest[i + 1]);
            }
            found.push(word);
            from = end;
        }
    }
    found
}

/// The operation that a word names.
pub fn get_opcode<'a>(opcode: &'a str, line_num: usize) -> (res: Result<OpCode, ParseError<'a>>)
    ensures
        match opcode_named(opcode@) {
            Some(op_code) => res is Ok && res->Ok_0 == op_code,
            None => res is Err && res->Err_0@ == Fault::UnknownOpCode(line_num, opcode@),
        },
{
    let name = chars_of(opcode);
    if name.len() != 3 {
        return Err(ParseError::UnknownOpCode((line_num, opcode)));
    }
    match (name[0], name[1], name[2]) {
        ('M', 'O', 'V') => Ok(OpCode::MOV),
        ('A', 'D', 'D') => Ok(OpCode::ADD),
        ('S', 'U', 'B') => Ok(OpCode::SUB),
        ('M', 'U', 'L') => Ok(OpCode::MUL),
        ('D', 'I', 'V') => Ok(OpCode::DIV),
        ('M', 'O', 'D') => Ok(OpCode::MOD),
        ('D', 'A', 'T') => Ok(OpCode::DAT),
        ('J', 'M', 'P') => Ok(OpCode::JMP),
        ('S', 'P', 'L') => Ok(OpCode::SPL),
        ('J', 'M', 'Z') => Ok(OpCode::JMZ),
        ('J', 'M', 'N') => Ok(OpCode::JMN),
        ('N', 'O', 'P') => Ok(OpCode::NOP),
        ('D', 'J', 'N') => Ok(OpCode::DJN),
        ('S', 'E', 'Q') => Ok(OpCode::SEQ),
        ('S', 'N', 'E') => Ok(OpCode::SNE),
        ('S', 'L', 'T') => Ok(OpCode::SLT),
        _ => Err(ParseError::UnknownOpCode((line_num, opcode))),
    }
}

/// The modifier that a word names.
pub fn get_modifier<'a>(modifier: &'a str, line_num: usize) -> (res: Result<Modifier, ParseError<'a>>)
    ensures
        match modifier_named(modifier@) {
            Some(found) => res is Ok && res->Ok_0 == found,
            None => res is Err && res->Err_0@ == Fault::UnknownModifier(line_num, modifier@),
        },
{
    let name = chars_of(modifier);
    if name.len() == 1 {
        match name[0] {
            'A' => Ok(Modifier::A),
            'B' => Ok(Modifier::B),
            'X' => Ok(Modifier::X),
            'F' => Ok(Modifier::F),
            'I' => Ok(Modifier::I),
            _ => Err(ParseError::UnknownModifier((line_num, modifier))),
        }
    } else if name.len() == 2 {
        match (name[0], name[1]) {
            ('A', 'B') => Ok(Modifier::AB),
            ('B', 'A') => Ok(Modifier::BA),
            _ => Err(ParseError::UnknownModifier((line_num, modifier))),
        }
    } else {
        Err(ParseError::UnknownModifier((line_num, modifier)))
    }
}

/// The addressing mode that a character stands for in front of a number.
pub fn get_addressing_mode(addressing_mode: char) -> (res: Option<AddressMode>)
    ensures
        res == mode_marked(addressing_mode),
{
    match addressing_mode {
        '$' => Some(AddressMode::Direct),
        '#' => Some(AddressMode::Immediate),
        '*' => Some(AddressMode::IndirectA),
        '@' => Some(AddressMode::IndirectB),
        '{' => Some(AddressMode::PreDecrementIndirectA),
        '<' => Some(AddressMode::PreDecrementIndirectB),
        '}' => Some(AddressMode::PostIncrementIndirectA),
        '>' => Some(AddressMode::PostIncrementIndirectB),
        _ => None,
    }
}

/// The modifier an instruction with two operands has when its text gives
/// none.
pub fn get_default_modifier(opcode: OpCode, mode_a: AddressMode, mode_b: AddressMode) -> (res:
    Modifier)
    ensures
        res == default_modifier(opcode, mode_a, mode_b),
{
    match opcode {
        OpCode::DAT | OpCode::NOP => Modifier::F,
        OpCode::MOV | OpCode::SEQ | OpCode::SNE => {
            if mode_a == AddressMode::Immediate {
                Modifier::AB
            } else if mode_b == AddressMode::Immediate {
                Modifier::B
            } else {
                Modifier::I
            }
        },
        OpCode::ADD | OpCode::SUB | OpCode::MUL | OpCode::DIV | OpCode::MOD => {
            if mode_a == AddressMode::Immediate {
                Modifier::AB
            } else if mode_b == AddressMode::Immediate {
                Modifier::B
            } else {
                Modifier::F
            }
        },
        OpCode::SLT => {
            if mode_a == AddressMode::Immediate {
                Modifier::AB
            } else {
                Modifier::B
            }
        },
        OpCode::JMP | OpCode::JMZ | OpCode::JMN | OpCode::DJN | OpCode::SPL => Modifier::B,
    }
}

/// A run of digits spells no negative number.
pub proof fn lemma_digits_value_positive(s: Seq<char>)
    requires
        all_digits(s),
    ensures
        digits_value(s) >= 0,
    decreases s.len(),
{
    if s.len() > 0 {
        assert forall|i: int| 0 <= i < s.drop_last().len() implies is_digit(
            #[trigger] s.drop_last()[i],
        ) by {}
        lemma_digits_value_positive(s.drop_last());
    }
}

/// The more digits of a run are read, the greater the number they spell.
pub proof fn lemma_digits_value_grows(s: Seq<char>, k: int)
    requires
        all_digits(s),
        0 <= k <= s.len(),
    ensures
        0 <= digits_value(s.take(k)) <= digits_value(s),
    decreases s.len() - k,
{
    assert forall|i: int| 0 <= i < s.take(k).len() implies is_digit(#[trigger] s.take(k)[i]) by {}
    lemma_digits_value_positive(s.take(k));
    if k < s.len() {
        lemma_digits_value_grows(s, k + 1);
        assert(s.take(k + 1).drop_last() =~= s.take(k));
    } else {
        assert(s.take(k) =~= s);
    }
}

/// Reads the number that the characters from `start` on spell.
fn read_number(chars: &Vec<char>, start: usize) -> (res: Option<isize>)
    requires
        start <= chars@.len(),
    ensures
        res == match number(chars@.skip(start as int)) {
            Some(value) => Some(value as isize),
            None => None,
        },
{
    let n = chars.len();
    let ghost s = chars@.skip(start as int);
    let mut i: usize = start;
    let mut negative = false;
    if i < n && (chars[i] == '-' || chars[i] == '+') {
        negative = chars[i] == '-';
        i += 1;
    }
    let first = i;
    let ghost body = chars@.skip(first as int);
    if first == n {
        return None;
    }
    let limit: u128 = isize::MAX as u128 + 1;
    let mut acc: u128 = 0;
    while i < n
        invariant
            first <= i <= n == chars@.len(),
            body == chars@.skip(first as int),
            s == chars@.skip(start as int),
            body == (if s.len() > 0 && (s[0] == '-' || s[0] == '+') {
                s.drop_first()
            } else {
                s
            }),
            negative == (s.len() > 0 && s[0] == '-'),
            all_digits(body.take(i - first)),
            acc == digits_value(body.take(i - first)),
            acc <= limit == isize::MAX + 1,
        decreases n - i,
    {
        let c = chars[i];
        if !('0' <= c && c <= '9') {
            assert(!is_digit(body[i - first]));
            return None;
        }
        let d: u32 = c as u32 - '0' as u32;
        proof {
            assert(body.take(i - first + 1).drop_last() =~= body.take(i - first));
            assert forall|j: int| 0 <= j < i - first + 1 implies is_digit(
                #[trigger] body.take(i - first + 1)[j],
            ) by {}
        }
        acc = acc * 10 + d as u128;
        i += 1;
        if acc > limit {
            proof {
                if all_digits(body) {
                    lemma_digits_value_grows(body, i - first);
                }
            }
            return None;
        }
    }
    assert(body.take(i - first) =~= body);
    if negative {
        Some((-(acc as i128)) as isize)
    } else if acc == limit {
        None
    } else {
        Some(acc as isize)
    }
}

/// The operand that a word spells.
pub fn parse_register<'a>(word: &'a str, line_num: usize) -> (res: Result<
    (AddressMode, isize),
    ParseError<'a>,
>)
    ensures
        match operand(word@) {
            Ok(found) => res is Ok && res->Ok_0 == found,
            Err(text) => res is Err && res->Err_0@ == Fault::UnknownValue(line_num, text),
        },
{
    let chars = chars_of(word);
    let ascii = word.is_ascii();
    let marked = if chars.len() > 0 {
        get_addressing_mode(chars[0])
    } else {
        None
    };
    match marked {
        Some(mode) => match read_number(&chars, 1) {
            Some(value) => Ok((mode, value)),
            None => Err(ParseError::UnknownValue((line_num, part(word, ascii, 1, chars.len())))),
        },
        None => {
            assert(chars@.skip(0) =~= chars@);
            match read_number(&chars, 0) {
                Some(value) => Ok((AddressMode::Direct, value)),
                None => {
                    Err(ParseError::UnknownValue((line_num, part(word, ascii, 0, chars.len()))))
                },
            }
        },
    }
}

/// Reads a line's words: the operation with its modifier, and one or two
/// operands. A line with one operand and no modifier gets the modifier `B`.
pub fn tokenize_line<'a>(line: &'a str, line_num: usize) -> (res: Result<
    TokenizedLine,
    ParseError<'a>,
>)
    ensures
        match tokenized(line@, line_num) {
            Ok(found) => res is Ok && res->Ok_0 == found,
            Err(fault) => res is Err && res->Err_0@ == fault,
        },
{
    let mut words = split_words(line);
    if words.len() >= 4 {
        let third = chars_of(words[2]);
        if third.len() == 1 && third[0] == ',' {
            words.remove(2);
        }
    }
    let ghost w = crate::compiler::tokenizer::words(line@);
    assert forall|i: int| 0 <= i < words@.len() implies (#[trigger] words@[i])@ == w[i] by {}
    if words.len() < 2 {
        return Err(ParseError::NotEnoughArgumets(line_num));
    }
    // The operation and, after a dot, the modifier.
    let head = words[0];
    let head_chars = chars_of(head);
    let head_ascii = head.is_ascii();
    let mut dot: usize = 0;
    while dot < head_chars.len() && head_chars[dot] != '.'
        invariant
            head_chars@ == head@,
            dot <= head@.len(),
            until_dot(head@, 0) == dot + until_dot(head@, dot as int),
        decreases head@.len() - dot,
    {
        dot += 1;
    }
    let op_code = match get_opcode(part(head, head_ascii, 0, dot), line_num) {
        Ok(op_code) => op_code,
        Err(e) => return Err(e),
    };
    let modifier = if dot < head_chars.len() {
        match get_modifier(part(head, head_ascii, dot + 1, head_chars.len()), line_num) {
            Ok(modifier) => Some(modifier),
            Err(e) => return Err(e),
        }
    } else {
        None
    };
    let (mode_a, reg_a) = match parse_register(words[1], line_num) {
        Ok(found) => found,
        Err(e) => return Err(e),
    };
    if words.len() == 2 {
        let modifier = match modifier {
            Some(modifier) => modifier,
            None => Modifier::B,
        };
        Ok(TokenizedLine::Single(op_code, modifier, reg_a, mode_a))
    } else if words.len() == 3 {
        let (mode_b, reg_b) = match parse_register(words[2], line_num) {
            Ok(found) => found,
            Err(e) => return Err(e),
        };
        let modifier = match modifier {
            Some(modifier) => modifier,
            None => get_default_modifier(op_code, mode_a, mode_b),
        };
        Ok(TokenizedLine::Double(op_code, modifier, reg_a, mode_a, reg_b, mode_b))
    } else {
        Err(ParseError::UnexpectedArgument(line_num))
    }
}

} // verus!
