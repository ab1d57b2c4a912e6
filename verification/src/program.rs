//! A program image: a start address and the instruction words that follow
//! it.

use crate::cpu::{Address, Instruction};
use crate::errors::{Failable, LC3Error};
use crate::utils::{lines_of, split_lines};
use vstd::prelude::*;

verus! {

/// A program: the address at which it starts and its instructions.
pub struct Program {
    header: Address,
    instructions: Vec<Instruction>,
}

/// A program, as mathematics sees it.
pub struct Image {
    pub header: Address,
    pub instructions: Seq<Instruction>,
}

impl View for Program {
    type V = Image;

    closed spec fn view(&self) -> Image {
        Image { header: self.header, instructions: self.instructions@ }
    }
}

/// Whether a byte separates tokens: a space, a tab, a line feed, a vertical
/// tab, a form feed or a carriage return.
pub open spec fn is_space(byte: u8) -> bool {
    byte == 0x20 || 0x09 <= byte <= 0x0D
}

/// The number that a hexadecimal digit stands for, in either case.
pub open spec fn digit_value(byte: u8) -> Option<int> {
    if 0x30 <= byte <= 0x39 {
        Some(byte - 0x30)
    } else if 0x41 <= byte <= 0x46 {
        Some(byte - 0x41 + 10)
    } else if 0x61 <= byte <= 0x66 {
        Some(byte - 0x61 + 10)
    } else {
        None
    }
}

/// The number that a run of hexadecimal digits writes, the first digit the
/// most significant; nothing where a byte is no digit. The empty run writes
/// 0.
pub open spec fn hex_value(digits: Seq<u8>) -> Option<int>
    decreases digits.len(),
{
    if digits.len() == 0 {
        Some(0)
    } else {
        match (hex_value(digits.drop_last()), digit_value(digits.last())) {
            (Some(high), Some(low)) => Some(16 * high + low),
            _ => None,
        }
    }
}

/// The digits of a token: the token without the plus sign that may lead it.
pub open spec fn digits_of(token: Seq<u8>) -> Seq<u8> {
    if token.len() > 0 && token[0] == 0x2B {
        token.drop_first()
    } else {
        token
    }
}

/// The 16-bit word that a token writes: one or more hexadecimal digits,
/// with or without a plus sign before them, that write a number of at most
/// 0xFFFF.
pub open spec fn hex_word(token: Seq<u8>) -> Option<u16> {
    match hex_value(digits_of(token)) {
        Some(value) => if digits_of(token).len() > 0 && value <= 0xFFFF {
            Some(value as u16)
        } else {
            None
        },
        None => None,
    }
}

/// The first position at or after `from` that holds no separator, or the
/// end of the line.
pub open spec fn token_start(line: Seq<u8>, from: int) -> int
    decreases line.len() - from,
{
    if 0 <= from < line.len() && is_space(line[from]) {
        token_start(line, from + 1)
    } else {
        from
    }
}

/// The first position at or after `from` that holds a separator, or the end
/// of the line.
pub open spec fn token_end(line: Seq<u8>, from: int) -> int
    decreases line.len() - from,
{
    if 0 <= from < line.len() && !is_space(line[from]) {
        token_end(line, from + 1)
    } else {
        from
    }
}

/// The first token of a line: its first run of bytes that are no
/// separators. A line of separators alone has the empty token.
pub open spec fn first_token(line: Seq<u8>) -> Seq<u8> {
    line.subrange(token_start(line, 0), token_end(line, token_start(line, 0)))
}

/// The word that a line writes: that of its first token.
pub open spec fn line_word(line: Seq<u8>) -> Option<u16> {
    hex_word(first_token(line))
}

/// The first line at or after `from` that has a token, or the number of
/// lines.
pub open spec fn first_line_with_token(lines: Seq<Seq<u8>>, from: int) -> int
    decreases lines.len() - from,
{
    if 0 <= from < lines.len() && first_token(lines[from]).len() == 0 {
        first_line_with_token(lines, from + 1)
    } else {
        from
    }
}

/// The program that a text writes. The first token of the text is the start
/// address; every line after the line of the start address writes one
/// instruction, with its first token. A text without a token lacks its
/// header; a start address that is no word is a bad header; a line after it
/// that writes no word, an empty one too, is a bad instruction.
pub open spec fn parse_program(text: Seq<u8>) -> Result<Image, LC3Error> {
    let lines = lines_of(text);
    let head = first_line_with_token(lines, 0);
    if head >= lines.len() {
        Err(LC3Error::ProgramMissingHeader)
    } else {
        match line_word(lines[head]) {
            None => Err(LC3Error::BadProgramHeader),
            Some(header) => {
                let body = lines.subrange(head + 1, lines.len() as int);
                if forall|i: int| 0 <= i < body.len() ==> (#[trigger] line_word(body[i])) is Some {
                    Ok(
                        Image {
                            header,
                            instructions: Seq::new(body.len(), |i: int| line_word(body[i])->0),
                        },
                    )
                } else {
                    Err(LC3Error::BadProgramInstructions)
                }
            },
        }
    }
}

/// What a fallible parse returned, with the program seen as mathematics
/// sees it.
pub open spec fn image_of(parsed: Failable<Program>) -> Result<Image, LC3Error> {
    match parsed {
        Ok(program) => Ok(program@),
        Err(e) => Err(e),
    }
}

/// A longer run of digits writes no smaller number.
pub proof fn lemma_hex_value_grows(digits: Seq<u8>, shorter: int)
    requires
        0 <= shorter <= digits.len(),
        hex_value(digits) is Some,
    ensures
        hex_value(digits.take(shorter)) matches Some(low) && 0 <= low <= hex_value(digits)->0,
    decreases digits.len() - shorter,
{
    if shorter == digits.len() {
        assert(digits.take(shorter) =~= digits);
        lemma_hex_value_nonnegative(digits);
    } else {
        assert(digits.drop_last().take(shorter) =~= digits.take(shorter));
        lemma_hex_value_grows(digits.drop_last(), shorter);
        lemma_hex_value_nonnegative(digits.drop_last());
    }
}

/// No run of digits writes a negative number.
pub proof fn lemma_hex_value_nonnegative(digits: Seq<u8>)
    ensures
        hex_value(digits) matches Some(value) ==> value >= 0,
    decreases digits.len(),
{
    if digits.len() > 0 {
        lemma_hex_value_nonnegative(digits.drop_last());
    }
}

/// Where some first bytes of a run are no digits, the run writes no number.
pub proof fn lemma_hex_value_needs_digits(digits: Seq<u8>, shorter: int)
    requires
        0 <= shorter <= digits.len(),
        hex_value(digits.take(shorter)) is None,
    ensures
        hex_value(digits) is None,
    decreases digits.len() - shorter,
{
    if shorter == digits.len() {
        assert(digits.take(shorter) =~= digits);
    } else {
        assert(digits.drop_last().take(shorter) =~= digits.take(shorter));
        lemma_hex_value_needs_digits(digits.drop_last(), shorter);
    }
}

/// The number of a hexadecimal digit, or nothing for another byte.
pub fn digit(byte: u8) -> (value: Option<u8>)
    ensures
        value matches Some(v) ==> digit_value(byte) == Some(v as int),
        value is None ==> digit_value(byte) is None,
{
    if 0x30 <= byte && byte <= 0x39 {
        Some(byte - 0x30)
    } else if 0x41 <= byte && byte <= 0x46 {
        Some(byte - 0x41 + 10)
    } else if 0x61 <= byte && byte <= 0x66 {
        Some(byte - 0x61 + 10)
    } else {
        None
    }
}

/// Reads a token as a hexadecimal 16-bit word.
pub fn parse_hex_word(token: &[u8]) -> (word: Option<u16>)
    ensures
        word == hex_word(token@),
{
    let first: usize = if token.len() > 0 && token[0] == 0x2B {
        1
    } else {
        0
    };
    if first == token.len() {
        return None;
    }
    let ghost digits = digits_of(token@);
    assert(digits =~= token@.subrange(first as int, token@.len() as int));
    let mut value: u32 = 0;
    let mut i: usize = first;
    while i < token.len()
        invariant
            first <= i <= token@.len(),
            first < token@.len(),
            digits == digits_of(token@),
            digits == token@.subrange(first as int, token@.len() as int),
            hex_value(digits.take(i - first)) == Some(value as int),
            value <= 0xFFFF,
        decreases token@.len() - i,
    {
        proof {
            assert(digits.take(i + 1 - first).drop_last() =~= digits.take(i - first));
            assert(digits.take(i + 1 - first).last() == token@[i as int]);
        }
        match digit(token[i]) {
            None => {
                proof {
                    lemma_hex_value_needs_digits(digits, i + 1 - first);
                }
                return None;
            },
            Some(low) => {
                value = 16 * value + low as u32;
                if value > 0xFFFF {
                    proof {
                        if hex_value(digits) is Some {
                            lemma_hex_value_grows(digits, i + 1 - first);
                        }
                    }
                    return None;
                }
            },
        }
        i += 1;
    }
    proof {
        assert(digits.take(i - first) =~= digits);
    }
    Some(value as u16)
}

/// The first token of a line.
pub fn take_first_token<'a>(line: &'a [u8]) -> (token: &'a [u8])
    ensures
        token@ == first_token(line@),
{
    let mut start: usize = 0;
    while start < line.len() && is_separator(line[start])
        invariant
            start <= line@.len(),
            token_start(line@, start as int) == token_start(line@, 0),
        decreases line@.len() - start,
    {
        start += 1;
    }
    let mut end: usize = start;
    while end < line.len() && !is_separator(line[end])
        invariant
            start <= end <= line@.len(),
            token_end(line@, end as int) == token_end(line@, start as int),
        decreases line@.len() - end,
    {
        end += 1;
    }
    vstd::slice::slice_subrange(line, start, end)
}

/// Whether a byte separates tokens.
pub fn is_separator(byte: u8) -> (separates: bool)
    ensures
        separates == is_space(byte),
{
    byte == 0x20 || (0x09 <= byte && byte <= 0x0D)
}

impl Program {
    /// Reads a program from the bytes of its text. What it returns is what
    /// `parse_program` says of the text.
    pub fn from_bytes(text: &[u8]) -> (parsed: Failable<Program>)
        ensures
            image_of(parsed) == parse_program(text@),
    {
        let lines = split_lines(text);
        let ghost rows = lines_of(text@);
        assert(rows.len() == lines@.len());
        assert(forall|k: int| 0 <= k < rows.len() ==> (#[trigger] lines@[k])@ == rows[k]);
        let mut head: usize = 0;
        while head < lines.len() && take_first_token(lines[head]).len() == 0
            invariant
                head <= lines@.len(),
                rows.len() == lines@.len(),
                forall|k: int| 0 <= k < rows.len() ==> (#[trigger] lines@[k])@ == rows[k],
                first_line_with_token(rows, head as int) == first_line_with_token(rows, 0),
            decreases lines@.len() - head,
        {
            head += 1;
        }
        if head == lines.len() {
            return Err(LC3Error::ProgramMissingHeader);
        }
        let header = match parse_hex_word(take_first_token(lines[head])) {
            None => {
                return Err(LC3Error::BadProgramHeader);
            },
            Some(word) => word,
        };
        let ghost body = rows.subrange(head + 1, rows.len() as int);
        let mut instructions: Vec<Instruction> = Vec::new();
        let mut next: usize = head + 1;
        while next < lines.len()
            invariant
                head < next <= lines@.len(),
                rows.len() == lines@.len(),
                forall|k: int| 0 <= k < rows.len() ==> (#[trigger] lines@[k])@ == rows[k],
                rows == lines_of(text@),
                first_line_with_token(rows, 0) == head,
                line_word(rows[head as int]) == Some(header),
                body == rows.subrange(head + 1, rows.len() as int),
                instructions@.len() == next - head - 1,
                forall|i: int|
                    0 <= i < instructions@.len() ==> line_word(#[trigger] body[i]) == Some(
                        instructions@[i],
                    ),
            decreases lines@.len() - next,
        {
            assert(body[next - head - 1] == rows[next as int]);
            match parse_hex_word(take_first_token(lines[next])) {
                None => {
                    assert(line_word(body[next - head - 1]) is None);
                    return Err(LC3Error::BadProgramInstructions);
                },
                Some(word) => {
                    instructions.push(word);
                },
            }
            next += 1;
        }
        proof {
            assert(instructions@ =~= Seq::new(body.len(), |i: int| line_word(body[i])->0));
        }
        Ok(Program::new(header, instructions))
    }

    /// The program that starts at `header` and holds `instructions`, in
    /// their order.
    pub fn new(header: Address, instructions: Vec<Instruction>) -> (program: Program)
        ensures
            program@ == (Image { header, instructions: instructions@ }),
    {
        Program { header, instructions }
    }

    /// The address at which the program starts.
    pub fn program_counter_start(&self) -> (start: Address)
        ensures
            start == self@.header,
    {
        self.header
    }

    /// The program's instructions, in their order.
    pub fn instructions(&self) -> (instructions: &Vec<Instruction>)
        ensures
            instructions@ == self@.instructions,
    {
        &self.instructions
    }
}

} // verus!
