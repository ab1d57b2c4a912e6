//! Bit-field selection on instruction words, and conversion of addresses to
//! positions in storage.

use crate::errors::{Failable, LC3Error};
use vstd::arithmetic::power2::{lemma2_to64, lemma_pow2_pos, pow2};
use vstd::bits::{
    lemma_u16_shr_is_div, lemma_u32_low_bits_mask_is_mod, lemma_u32_pow2_no_overflow,
    lemma_u32_shl_is_mul,
};
use vstd::prelude::*;

verus! {

/// The bits of `value` from bit `right` up to bit `left`, both included, read
/// as a number: `value` divided by the weight of bit `right`, modulo the
/// number of values that `left - right + 1` bits can take.
pub open spec fn extract_unsigned(value: u16, left: int, right: int) -> int {
    (value as int / pow2(right as nat) as int) % (pow2((left - right + 1) as nat) as int)
}

/// Whether bit `index` of `value` is 1. A bit above bit 15 is 0.
pub open spec fn bit_is_set(value: u16, index: int) -> bool {
    extract_unsigned(value, index, index) == 1
}

/// The signed reading of the bits of `value` from `right` up to `left`.
///
/// A single bit is never negative. A wider field takes its sign from the bit
/// one place above `left`: where that bit is 0 the field is read unsigned, and
/// where it is 1 the result is the negative of one more than the complement's
/// bits from `right` up to `left - 1`.
pub open spec fn extract_signed(value: u16, left: int, right: int) -> int {
    if left == right || !bit_is_set(value, left + 1) {
        extract_unsigned(value, left, right)
    } else {
        -(extract_unsigned(!value, left - 1, right) + 1)
    }
}

/// Reading a field of bits as a number from 0 on.
pub trait UnsignedBitSelection: Sized {
    /// The number of bits of the implementing type.
    spec fn bit_width() -> int;

    /// What `bits` returns.
    spec fn spec_bits(self, left: int, right: int) -> int;

    /// The bits from `right` up to `left`, read unsigned.
    fn bits(self, left: i32, right: i32) -> (field: i32)
        requires
            0 <= right <= left < Self::bit_width(),
        ensures
            field == self.spec_bits(left as int, right as int),
    ;
}

impl UnsignedBitSelection for u16 {
    open spec fn bit_width() -> int {
        16
    }

    open spec fn spec_bits(self, left: int, right: int) -> int {
        extract_unsigned(self, left, right)
    }

    fn bits(self, left: i32, right: i32) -> (field: i32) {
        let number_of_ones: u32 = (left - right + 1) as u32;
        let shift: u32 = right as u32;
        proof {
            lemma_mask_and_shift(self, left as int, right as int);
            lemma_u32_pow2_no_overflow(number_of_ones as nat);
            lemma_u32_shl_is_mul(1u32, number_of_ones);
            lemma_extract_unsigned_bounds(self, left as int, right as int);
        }
        let mask: u32 = ((1u32 << number_of_ones) - 1) << shift;
        let actual_value: u32 = ((self as u32) & mask) >> shift;
        actual_value as i32
    }
}

/// The mask of the bits from `right` up to `left`: as many ones as the field
/// has bits, shifted left by `right`.
pub open spec fn field_mask(left: int, right: int) -> u32 {
    (((1u32 << ((left - right + 1) as u32)) - 1) as u32) << (right as u32)
}

/// A field is what the mask of its bits leaves of the word, shifted right
/// by `right`.
pub proof fn lemma_mask_and_shift(value: u16, left: int, right: int)
    requires
        0 <= right <= left <= 15,
    ensures
        ((value as u32) & field_mask(left, right)) >> (right as u32) == extract_unsigned(
            value,
            left,
            right,
        ),
{
    let width: u32 = (left - right + 1) as u32;
    let shift: u32 = right as u32;
    lemma_u32_pow2_no_overflow(width as nat);
    lemma_u32_shl_is_mul(1u32, width);
    let ones: u32 = ((1u32 << width) - 1) as u32;
    assert(((1u32 << width) - 1) as u32 <= 0xFFFF) by (bit_vector)
        requires
            1 <= width <= 16,
    ;
    let shifted: u16 = value >> (right as u16);
    lemma_u16_shr_is_div(value, right as u16);
    lemma_u32_low_bits_mask_is_mod(shifted as u32, width as nat);
    let wide: u32 = value as u32;
    assert(((wide & (ones << shift)) >> shift) == ((wide >> shift) & ones)) by (bit_vector)
        requires
            shift < 16,
            ones <= 0xFFFF,
    ;
    assert((wide >> shift) == (shifted as u32)) by (bit_vector)
        requires
            wide == value as u32,
            shifted == value >> (shift as u16),
            shift < 16,
    ;
}

/// Reading a field of bits as a signed number.
pub trait SignedBitSelection: UnsignedBitSelection {
    /// What `bits_signed` returns.
    spec fn spec_bits_signed(self, left: int, right: int) -> int;

    /// The bits from `right` up to `left`, read signed.
    fn bits_signed(self, left: i32, right: i32) -> (field: i32)
        requires
            0 <= right <= left < Self::bit_width(),
        ensures
            field == self.spec_bits_signed(left as int, right as int),
    ;
}

impl SignedBitSelection for u16 {
    open spec fn spec_bits_signed(self, left: int, right: int) -> int {
        extract_signed(self, left, right)
    }

    fn bits_signed(self, left: i32, right: i32) -> (field: i32) {
        let selection_is_positive = if left == right {
            true
        } else if left == 15 {
            proof {
                lemma_no_bit_above_word(self);
            }
            true
        } else {
            proof {
                lemma_single_bit(self, left + 1);
            }
            self.bits(left + 1, left + 1) == 0
        };
        assert(selection_is_positive == (left == right || !bit_is_set(self, left + 1)));
        if selection_is_positive {
            self.bits(left, right)
        } else {
            proof {
                lemma_extract_unsigned_bounds(!self, left - 1, right as int);
            }
            -((!self).bits(left - 1, right) + 1)
        }
    }
}

/// A single bit is 0 or 1.
pub proof fn lemma_single_bit(value: u16, index: int)
    requires
        0 <= index,
    ensures
        extract_unsigned(value, index, index) == 0 || extract_unsigned(value, index, index) == 1,
{
    lemma2_to64();
    lemma_extract_unsigned_bounds(value, index, index);
    assert(pow2((index - index + 1) as nat) == 2);
}

/// A word has no bit above bit 15.
pub proof fn lemma_no_bit_above_word(value: u16)
    ensures
        !bit_is_set(value, 16),
{
    lemma2_to64();
    assert(extract_unsigned(value, 16, 16) == (value as int / pow2(16) as int) % (pow2(1) as int));
}

/// A field of `n` bits holds a number from 0 up to, not including, the
/// `n`-th power of two, and none above the word itself.
pub proof fn lemma_extract_unsigned_bounds(value: u16, left: int, right: int)
    requires
        0 <= right <= left,
    ensures
        0 <= extract_unsigned(value, left, right) < pow2((left - right + 1) as nat),
        extract_unsigned(value, left, right) <= value,
{
    lemma_pow2_pos(right as nat);
    lemma_pow2_pos((left - right + 1) as nat);
    let shifted = value as int / pow2(right as nat) as int;
    vstd::arithmetic::div_mod::lemma_div_pos_is_pos(value as int, pow2(right as nat) as int);
    vstd::arithmetic::div_mod::lemma_div_is_ordered_by_denominator(value as int, 1, pow2(right as nat) as int);
    vstd::arithmetic::div_mod::lemma_mod_bound(shifted, pow2((left - right + 1) as nat) as int);
    vstd::arithmetic::div_mod::lemma_mod_decreases(shifted as nat, pow2((left - right + 1) as nat));
}

/// A signed field of `n` bits is at least the negative of the `(n - 1)`-th
/// power of two, and less than the `n`-th power of two.
pub proof fn lemma_extract_signed_bounds(value: u16, left: int, right: int)
    requires
        0 <= right <= left,
    ensures
        -pow2((left - right) as nat) <= extract_signed(value, left, right) < pow2(
            (left - right + 1) as nat,
        ),
{
    lemma_pow2_pos((left - right) as nat);
    lemma_extract_unsigned_bounds(value, left, right);
    if left > right {
        lemma_extract_unsigned_bounds(!value, left - 1, right);
    }
}

/// All sixteen bits of a word, read unsigned, are the word itself.
pub proof fn lemma_whole_word(value: u16)
    ensures
        extract_unsigned(value, 15, 0) == value,
{
    lemma2_to64();
    assert(extract_unsigned(value, 15, 0) == (value as int / pow2(0) as int) % (pow2(16) as int));
}

/// A single bit, read signed, is 0 or 1: it is never negative, whatever
/// stands above it.
pub proof fn lemma_single_bit_signed(value: u16, index: int)
    requires
        0 <= index,
    ensures
        extract_signed(value, index, index) == extract_unsigned(value, index, index),
        extract_signed(value, index, index) == 0 || extract_signed(value, index, index) == 1,
{
    lemma_single_bit(value, index);
}

/// A field read signed differs from its unsigned reading exactly where the
/// field is wider than one bit and the bit above it is set; it is then
/// negative: the field's bits below its top bit, less the weight of the top
/// bit.
pub proof fn lemma_signed_reading(value: u16, left: int, right: int)
    requires
        0 <= right < left <= 15,
    ensures
        !bit_is_set(value, left + 1) ==> extract_signed(value, left, right) == extract_unsigned(
            value,
            left,
            right,
        ),
        bit_is_set(value, left + 1) ==> extract_signed(value, left, right) == extract_unsigned(
            value,
            left - 1,
            right,
        ) - pow2((left - right) as nat),
{
    if bit_is_set(value, left + 1) {
        lemma_complement_field(value, left - 1, right);
    }
}

/// A field of the complement and the same field of the word add up to the
/// field's largest number.
pub proof fn lemma_complement_field(value: u16, left: int, right: int)
    requires
        0 <= right <= left <= 15,
    ensures
        extract_unsigned(!value, left, right) + extract_unsigned(value, left, right) == pow2(
            (left - right + 1) as nat,
        ) - 1,
{
    let width: u32 = (left - right + 1) as u32;
    let shift: u16 = right as u16;
    let flipped: u16 = !value;
    lemma_u32_pow2_no_overflow(width as nat);
    lemma_u32_shl_is_mul(1u32, width);
    let mask: u32 = ((1u32 << width) - 1) as u32;
    lemma_u16_shr_is_div(value, shift);
    lemma_u16_shr_is_div(flipped, shift);
    let low: u32 = (value >> shift) as u32;
    let high: u32 = (flipped >> shift) as u32;
    lemma_u32_low_bits_mask_is_mod(low, width as nat);
    lemma_u32_low_bits_mask_is_mod(high, width as nat);
    assert((low & mask) + (high & mask) == mask) by (bit_vector)
        requires
            low == (value >> shift) as u32,
            high == (flipped >> shift) as u32,
            flipped == !value,
            mask == ((1u32 << width) - 1) as u32,
            1 <= width <= 16,
            shift + width <= 16,
    ;
}

/// The end of the line that holds position `from`: the position of the next
/// line feed at or after `from`, or the end of the text.
pub open spec fn line_end(text: Seq<u8>, from: int) -> int
    decreases text.len() - from,
{
    if from < text.len() && text[from] != 0x0A {
        line_end(text, from + 1)
    } else {
        from
    }
}

/// The lines of the text from position `from` on. A line ends before a line
/// feed or at the end of the text; a text that ends in a line feed has no
/// empty line after it.
pub open spec fn lines_from(text: Seq<u8>, from: int) -> Seq<Seq<u8>>
    decreases text.len() + 1 - from,
{
    if 0 <= from < text.len() {
        proof {
            lemma_line_end_bounds(text, from);
        }
        seq![text.subrange(from, line_end(text, from))] + lines_from(
            text,
            line_end(text, from) + 1,
        )
    } else {
        Seq::empty()
    }
}

/// The lines of a text.
pub open spec fn lines_of(text: Seq<u8>) -> Seq<Seq<u8>> {
    lines_from(text, 0)
}

/// The bytes of each of some byte strings.
pub open spec fn views_of(rows: Seq<&[u8]>) -> Seq<Seq<u8>> {
    Seq::new(rows.len(), |i: int| rows[i]@)
}

/// A line ends where it started or later, and not beyond the text.
pub proof fn lemma_line_end_bounds(text: Seq<u8>, from: int)
    requires
        0 <= from <= text.len(),
    ensures
        from <= line_end(text, from) <= text.len(),
        line_end(text, from) < text.len() ==> text[line_end(text, from)] == 0x0A,
        forall|i: int| from <= i < line_end(text, from) ==> text[i] != 0x0A,
    decreases text.len() - from,
{
    if from < text.len() && text[from] != 0x0A {
        lemma_line_end_bounds(text, from + 1);
    }
}

/// Splits a text into its lines.
pub fn split_lines<'a>(text: &'a [u8]) -> (lines: Vec<&'a [u8]>)
    ensures
        views_of(lines@) == lines_of(text@),
{
    let mut lines: Vec<&'a [u8]> = Vec::new();
    let mut start: usize = 0;
    while start < text.len()
        invariant
            start <= text@.len(),
            views_of(lines@) + lines_from(text@, start as int) == lines_of(text@),
        decreases text@.len() - start,
    {
        let mut end: usize = start;
        while end < text.len() && text[end] != 0x0A
            invariant
                start <= end <= text@.len(),
                line_end(text@, end as int) == line_end(text@, start as int),
            decreases text@.len() - end,
        {
            end += 1;
        }
        let line = vstd::slice::slice_subrange(text, start, end);
        proof {
            assert(views_of(lines@.push(line)) =~= views_of(lines@) + seq![line@]);
            assert(views_of(lines@.push(line)) + lines_from(text@, end + 1) =~= views_of(lines@)
                + lines_from(text@, start as int));
        }
        lines.push(line);
        start = if end < text.len() {
            end + 1
        } else {
            end
        };
    }
    proof {
        assert(views_of(lines@) + Seq::<Seq<u8>>::empty() =~= views_of(lines@));
    }
    lines
}

/// The characters of each of some strings.
pub open spec fn texts_of(rows: Seq<String>) -> Seq<Seq<char>> {
    Seq::new(rows.len(), |i: int| rows[i]@)
}

/// The number that a text writes in decimal digits, as `str::parse` reads it
/// at the type `i32`; nothing where it reads none.
pub uninterp spec fn decimal_number(text: Seq<char>) -> Option<i32>;

/// The number that a text writes in the digits of a radix, as
/// `num_traits::Num::from_str_radix` reads it at the type `i32`; nothing
/// where it reads none.
pub uninterp spec fn radix_number(text: Seq<char>, radix: u32) -> Option<i32>;

/// `str::parse` at the type `i32`: the number that the text writes in
/// decimal digits, or nothing where the parse fails. The result depends on
/// the text alone.
#[verifier::external_body]
fn parse_decimal(text: &str) -> (number: Option<i32>)
    ensures
        number == decimal_number(text@),
{
    text.parse::<i32>().ok()
}

/// `num_traits::Num::from_str_radix` at the type `i32`: the number that the
/// text writes in the digits of the radix, or nothing where the parse
/// fails. The result depends on the text and the radix alone. The radix must
/// be from 2 to 36.
#[verifier::external_body]
fn parse_radix(text: &str, radix: u32) -> (number: Option<i32>)
    requires
        2 <= radix <= 36,
    ensures
        number == radix_number(text@, radix),
{
    <i32 as num_traits::Num>::from_str_radix(text, radix).ok()
}

/// The number of an argument, from its two readings: the decimal one where
/// there is one, else the hexadecimal one, else a bad argument.
pub open spec fn spec_number_from(decimal: Option<i32>, hexadecimal: Option<i32>) -> Result<
    i32,
    LC3Error,
> {
    match decimal {
        Some(number) => Ok(number),
        None => match hexadecimal {
            Some(number) => Ok(number),
            None => Err(LC3Error::BadArguement),
        },
    }
}

/// The number of an argument, from its two readings.
pub fn number_from(decimal: Option<i32>, hexadecimal: Option<i32>) -> (number: Failable<i32>)
    ensures
        number == spec_number_from(decimal, hexadecimal),
{
    match decimal {
        Some(number) => Ok(number),
        None => match hexadecimal {
            Some(number) => Ok(number),
            None => Err(LC3Error::BadArguement),
        },
    }
}

/// The number that the word at `index` writes: a missing argument where
/// there is no such word; else the word's decimal reading, or its
/// hexadecimal one, or a bad argument.
pub open spec fn spec_parse_num(words: Seq<Seq<char>>, index: int) -> Result<i32, LC3Error> {
    if 0 <= index < words.len() {
        spec_number_from(decimal_number(words[index]), radix_number(words[index], 16))
    } else {
        Err(LC3Error::CommandMissingArguement)
    }
}

/// Reads the word at `index` as a number, in decimal or else in
/// hexadecimal.
pub fn parse_num(words: &Vec<String>, index: i32) -> (number: Failable<i32>)
    ensures
        number == spec_parse_num(texts_of(words@), index as int),
{
    if index < 0 || index as usize >= words.len() {
        return Err(LC3Error::CommandMissingArguement);
    }
    let arg = words[index as usize].as_str();
    // try to parse decimal, then hex
    number_from(parse_decimal(arg), parse_radix(arg, 16))
}

/// Values that name a position in storage.
pub trait Indexable: Sized {
    /// The position in storage that the value names.
    spec fn position(self) -> nat;

    /// The position as an index.
    fn as_usize(self) -> (index: usize)
        ensures
            index == self.position(),
    ;
}

impl Indexable for u16 {
    open spec fn position(self) -> nat {
        self as nat
    }

    fn as_usize(self) -> (index: usize) {
        self as usize
    }
}

impl Indexable for usize {
    open spec fn position(self) -> nat {
        self as nat
    }

    fn as_usize(self) -> (index: usize) {
        self
    }
}

} // verus!
