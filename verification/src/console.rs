//! The commands of the interactive front end: what a line of console input
//! asks for.

use crate::cpu::{Address, Word, NUM_REGISTERS};
use crate::errors::{Failable, LC3Error};
use crate::utils::{parse_num, spec_parse_num, texts_of};
use vstd::prelude::*;
use vstd::string::StrSliceExecFns;

verus! {

/// What a line of console input asks for.
#[derive(Clone, Copy, Debug, PartialEq, Eq, Structural)]
pub enum Command {
    /// Run one instruction cycle.
    RunOne,
    /// Run this many instruction cycles.
    RunMany(u32),
    /// Print the list of commands.
    Help,
    /// Print the machine's state.
    Dump,
    /// Store `value` in register `register`.
    SetRegister { register: i32, value: Word },
    /// Store `value` in the memory cell at `address`.
    SetMemory { address: Address, value: Word },
    /// Continue at `address`.
    SetProgramCounter { address: Address },
}

/// What reading a line came to: a command, a word that names no command, or
/// another failure.
pub enum Reading {
    Command(Command),
    Unrecognized(Seq<char>),
    Failure(LC3Error),
}

/// A failed reading, as mathematics sees it.
pub open spec fn failed_reading(e: LC3Error) -> Reading {
    match e {
        LC3Error::UnrecognizedConsoleCommand(name) => Reading::Unrecognized(name@),
        _ => Reading::Failure(e),
    }
}

/// What a fallible reading returned, as mathematics sees it.
pub open spec fn reading_of(parsed: Failable<Command>) -> Reading {
    match parsed {
        Ok(command) => Reading::Command(command),
        Err(e) => failed_reading(e),
    }
}

/// Whether a character is white space: one of the characters with the
/// Unicode property `White_Space`.
pub open spec fn is_whitespace(c: char) -> bool {
    let code = c as u32;
    ||| 0x09 <= code <= 0x0D
    ||| code == 0x20
    ||| code == 0x85
    ||| code == 0xA0
    ||| code == 0x1680
    ||| 0x2000 <= code <= 0x200A
    ||| code == 0x2028
    ||| code == 0x2029
    ||| code == 0x202F
    ||| code == 0x205F
    ||| code == 0x3000
}

/// The first position at or after `from` that holds no white space, or the
/// end of the text.
pub open spec fn word_start(text: Seq<char>, from: int) -> int
    decreases text.len() - from,
{
    if 0 <= from < text.len() && is_whitespace(text[from]) {
        word_start(text, from + 1)
    } else {
        from
    }
}

/// The first position at or after `from` that holds white space, or the end
/// of the text.
pub open spec fn word_end(text: Seq<char>, from: int) -> int
    decreases text.len() - from,
{
    if 0 <= from < text.len() && !is_whitespace(text[from]) {
        word_end(text, from + 1)
    } else {
        from
    }
}

/// The words of the text from position `from` on: its runs of characters
/// that are no white space, in their order.
pub open spec fn words_from(text: Seq<char>, from: int) -> Seq<Seq<char>>
    decreases text.len() - from,
{
    if 0 <= from && word_start(text, from) < text.len() {
        proof {
            lemma_word_bounds(text, from);
            lemma_word_bounds(text, word_start(text, from));
        }
        seq![text.subrange(word_start(text, from), word_end(text, word_start(text, from)))]
            + words_from(text, word_end(text, word_start(text, from)))
    } else {
        Seq::empty()
    }
}

/// The words of a text.
pub open spec fn words_of(text: Seq<char>) -> Seq<Seq<char>> {
    words_from(text, 0)
}

/// A word's bounds lie in the text. A word that starts inside the text
/// starts at a character that is no white space, and ends after it.
pub proof fn lemma_word_bounds(text: Seq<char>, from: int)
    requires
        0 <= from,
    ensures
        from <= word_start(text, from),
        from <= word_end(text, from),
        from <= text.len() ==> word_start(text, from) <= text.len() && word_end(text, from)
            <= text.len(),
        word_start(text, from) < text.len() ==> !is_whitespace(text[word_start(text, from)]),
        from < text.len() && !is_whitespace(text[from]) ==> from < word_end(text, from),
    decreases text.len() - from,
{
    if from < text.len() {
        lemma_word_bounds(text, from + 1);
    }
}

/// Whether a character is white space.
pub fn is_whitespace_char(c: char) -> (white: bool)
    ensures
        white == is_whitespace(c),
{
    let code: u32 = c as u32;
    (0x09 <= code && code <= 0x0D) || code == 0x20 || code == 0x85 || code == 0xA0 || code
        == 0x1680 || (0x2000 <= code && code <= 0x200A) || code == 0x2028 || code == 0x2029
        || code == 0x202F || code == 0x205F || code == 0x3000
}

/// Splits a text into its words.
pub fn split_words(input: &str) -> (words: Vec<String>)
    ensures
        texts_of(words@) == words_of(input@),
{
    let length = input.unicode_len();
    let mut words: Vec<String> = Vec::new();
    let mut i: usize = 0;
    while i < length
        invariant
            i <= length == input@.len(),
            texts_of(words@) + words_from(input@, i as int) == words_of(input@),
        decreases length - i,
    {
        let ghost from = i;
        while i < length && is_whitespace_char(input.get_char(i))
            invariant
                from <= i <= length == input@.len(),
                word_start(input@, i as int) == word_start(input@, from as int),
            decreases length - i,
        {
            i += 1;
        }
        if i < length {
            let start = i;
            while i < length && !is_whitespace_char(input.get_char(i))
                invariant
                    start <= i <= length == input@.len(),
                    word_end(input@, i as int) == word_end(input@, start as int),
                decreases length - i,
            {
                i += 1;
            }
            let word = input.substring_char(start, i).to_owned();
            proof {
                lemma_word_bounds(input@, start as int);
                assert(texts_of(words@.push(word)) =~= texts_of(words@) + seq![word@]);
                assert(texts_of(words@.push(word)) + words_from(input@, i as int) =~= texts_of(
                    words@,
                ) + words_from(input@, from as int));
            }
            words.push(word);
        } else {
            proof {
                assert(words_from(input@, from as int) =~= words_from(input@, i as int));
            }
        }
    }
    proof {
        assert(texts_of(words@) + Seq::<Seq<char>>::empty() =~= texts_of(words@));
    }
    words
}

/// Whether two texts hold the same characters.
pub fn same_text(left: &str, right: &str) -> (same: bool)
    ensures
        same == (left@ == right@),
{
    let length = left.unicode_len();
    if length != right.unicode_len() {
        return false;
    }
    let mut i: usize = 0;
    while i < length
        invariant
            i <= length == left@.len() == right@.len(),
            forall|k: int| 0 <= k < i ==> left@[k] == right@[k],
        decreases length - i,
    {
        if left.get_char(i) != right.get_char(i) {
            return false;
        }
        i += 1;
    }
    assert(left@ =~= right@);
    true
}

/// Whether the console input asks to quit: it does where it holds the
/// letter q anywhere.
pub fn should_quit(console_input: &String) -> (quit: bool)
    ensures
        quit == console_input@.contains('q'),
{
    let input = console_input.as_str();
    let length = input.unicode_len();
    let mut i: usize = 0;
    while i < length
        invariant
            i <= length == input@.len(),
            input@ == console_input@,
            forall|k: int| 0 <= k < i ==> input@[k] != 'q',
        decreases length - i,
    {
        if input.get_char(i) == 'q' {
            return true;
        }
        i += 1;
    }
    false
}

/// The count that a text writes in decimal digits, as `str::parse` reads it
/// at the type `u32`; nothing where it reads none.
pub uninterp spec fn decimal_count(text: Seq<char>) -> Option<u32>;

/// `str::parse` at the type `u32`: the count that the text writes in decimal
/// digits, or nothing where the parse fails. The result depends on the text
/// alone.
#[verifier::external_body]
fn parse_count(text: &str) -> (count: Option<u32>)
    ensures
        count == decimal_count(text@),
{
    text.parse::<u32>().ok()
}

/// The word that a number writes: the number itself, where it is a word;
/// else a bad argument.
pub open spec fn spec_word_from(number: i32) -> Result<Word, LC3Error> {
    if -32768 <= number <= 32767 {
        Ok(number as i16)
    } else {
        Err(LC3Error::BadArguement)
    }
}

pub fn word_from(number: i32) -> (word: Failable<Word>)
    ensures
        word == spec_word_from(number),
{
    if -32768 <= number && number <= 32767 {
        Ok(number as i16)
    } else {
        Err(LC3Error::BadArguement)
    }
}

/// The address that a number names: the number itself, where it is from 0
/// to 65535; else the address is out of range.
pub open spec fn spec_address_from(number: i32) -> Result<Address, LC3Error> {
    if 0 <= number <= 65535 {
        Ok(number as u16)
    } else {
        Err(LC3Error::AddressOutOfRange)
    }
}

pub fn address_from(number: i32) -> (address: Failable<Address>)
    ensures
        address == spec_address_from(number),
{
    if 0 <= number && number <= 65535 {
        Ok(number as u16)
    } else {
        Err(LC3Error::AddressOutOfRange)
    }
}

/// The command `sr`, from the readings of its two arguments: the register,
/// which may not be above 8, then the value, which must be a word.
pub open spec fn spec_set_register(
    first: Result<i32, LC3Error>,
    second: Result<i32, LC3Error>,
) -> Reading {
    match first {
        Err(e) => failed_reading(e),
        Ok(register) => if register > NUM_REGISTERS {
            Reading::Failure(LC3Error::InvalidRegister)
        } else {
            match second {
                Err(e) => failed_reading(e),
                Ok(number) => match spec_word_from(number) {
                    Err(e) => failed_reading(e),
                    Ok(value) => Reading::Command(Command::SetRegister { register, value }),
                },
            }
        },
    }
}

/// The command `sm`, from the readings of its two arguments: the address
/// and the value. Both must be numbers; then the value must be a word, and
/// then the address in range.
pub open spec fn spec_set_memory(
    first: Result<i32, LC3Error>,
    second: Result<i32, LC3Error>,
) -> Reading {
    match first {
        Err(e) => failed_reading(e),
        Ok(place) => match second {
            Err(e) => failed_reading(e),
            Ok(number) => match spec_word_from(number) {
                Err(e) => failed_reading(e),
                Ok(value) => match spec_address_from(place) {
                    Err(e) => failed_reading(e),
                    Ok(address) => Reading::Command(Command::SetMemory { address, value }),
                },
            },
        },
    }
}

/// The command `g`, from the reading of its argument: an address in range.
pub open spec fn spec_set_program_counter(first: Result<i32, LC3Error>) -> Reading {
    match first {
        Err(e) => failed_reading(e),
        Ok(place) => match spec_address_from(place) {
            Err(e) => failed_reading(e),
            Ok(address) => Reading::Command(Command::SetProgramCounter { address }),
        },
    }
}

/// What a line of input asks for, from the line's words, its reading as a
/// count, and the readings of its first two words as numbers.
///
/// The empty line runs one cycle. A line that is a count runs that many. On
/// any other line the first word names the command: `?` or `h` for help, `d`
/// for the dump, `sr`, `sm` and `g` for the three settings; any other word,
/// and a line without a word, is not recognized.
pub open spec fn spec_command(
    input_is_empty: bool,
    count: Option<u32>,
    words: Seq<Seq<char>>,
    first: Result<i32, LC3Error>,
    second: Result<i32, LC3Error>,
) -> Reading {
    if input_is_empty {
        Reading::Command(Command::RunOne)
    } else if count is Some {
        Reading::Command(Command::RunMany(count->0))
    } else if words.len() == 0 {
        Reading::Unrecognized(Seq::empty())
    } else if words[0] == "?"@ || words[0] == "h"@ {
        Reading::Command(Command::Help)
    } else if words[0] == "d"@ {
        Reading::Command(Command::Dump)
    } else if words[0] == "sr"@ {
        spec_set_register(first, second)
    } else if words[0] == "sm"@ {
        spec_set_memory(first, second)
    } else if words[0] == "g"@ {
        spec_set_program_counter(first)
    } else {
        Reading::Unrecognized(words[0])
    }
}

pub fn command_from(
    input_is_empty: bool,
    count: Option<u32>,
    words: &Vec<String>,
    first: Failable<i32>,
    second: Failable<i32>,
) -> (command: Failable<Command>)
    ensures
        reading_of(command) == spec_command(
            input_is_empty,
            count,
            texts_of(words@),
            first,
            second,
        ),
{
    // the empty line runs a single instruction
    if input_is_empty {
        return Ok(Command::RunOne);
    }
    // a number runs that many instructions

    if let Some(num_cycles) = count {
        return Ok(Command::RunMany(num_cycles));
    }
    // any other line is a command with its arguments

    if words.len() == 0 {
        return Err(LC3Error::UnrecognizedConsoleCommand(String::new()));
    }
    let cmd = words[0].as_str();
    if same_text(cmd, "?") || same_text(cmd, "h") {
        Ok(Command::Help)
    } else if same_text(cmd, "d") {
        Ok(Command::Dump)
    } else if same_text(cmd, "sr") {
        let register = first?;
        if register > NUM_REGISTERS {
            return Err(LC3Error::InvalidRegister);
        }
        let value = word_from(second?)?;
        Ok(Command::SetRegister { register, value })
    } else if same_text(cmd, "sm") {
        let mem_addr = first?;
        let value = word_from(second?)?;
        let address = address_from(mem_addr)?;
        Ok(Command::SetMemory { address, value })
    } else if same_text(cmd, "g") {
        let address = address_from(first?)?;
        Ok(Command::SetProgramCounter { address })
    } else {
        Err(LC3Error::UnrecognizedConsoleCommand(words[0].clone()))
    }
}

/// Reads a line of console input. What it returns is what `spec_command`
/// says of the line's words, its reading as a count, and the readings of its
/// first two words as numbers.
pub fn parse_command(input: &String) -> (command: Failable<Command>)
    ensures
        reading_of(command) == spec_command(
            input@.len() == 0,
            decimal_count(input@),
            words_of(input@),
            spec_parse_num(words_of(input@), 0),
            spec_parse_num(words_of(input@), 1),
        ),
{
    let text = input.as_str();
    let words = split_words(text);
    command_from(
        text.unicode_len() == 0,
        parse_count(text),
        &words,
        parse_num(&words, 0),
        parse_num(&words, 1),
    )
}

} // verus!
