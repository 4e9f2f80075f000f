//! Whole numbers as values: they render in decimal, through a small buffer
//! on the stack that the digits are written to by `numtoa`.

use crate::render::estimate_covers;
use crate::render::Fmt;
use crate::utf8::utf8_len;
use crate::write::Write;
use crate::Display;
use core::str::Utf8Error;
use numtoa::NumToA;
use vstd::pervasive::unreached;
use vstd::prelude::*;
use vstd::slice::slice_subrange;
use vstd::utf8::encode_utf8;
use vstd::utf8::encode_utf8_decode_utf8;
use vstd::utf8::encode_utf8_valid_utf8;
use vstd::utf8::is_ascii_chars;
use vstd::utf8::is_ascii_chars_encode_utf8;
use vstd::utf8::valid_utf8;

verus! {

/// The character of the digit `d`.
pub open spec fn digit(d: nat) -> char
    recommends
        d < 10,
{
    (('0' as nat) + d) as char
}

/// The decimal digits of `n`, the most significant first, without leading
/// zeros.
pub open spec fn digits(n: nat) -> Seq<char>
    decreases n,
{
    if n < 10 {
        seq![digit(n)]
    } else {
        digits(n / 10).push(digit(n % 10))
    }
}

/// The decimal text of `n`: its digits, after a minus sign where it is
/// negative.
pub open spec fn decimal(n: int) -> Seq<char> {
    if n < 0 {
        seq!['-'] + digits((-n) as nat)
    } else {
        digits(n as nat)
    }
}

/// The bytes of a text of ASCII characters.
pub open spec fn ascii(text: Seq<char>) -> Seq<u8> {
    Seq::new(text.len(), |i: int| text[i] as u8)
}

/// Ten to the power of `k`.
pub open spec fn pow10(k: nat) -> nat
    decreases k,
{
    if k == 0 {
        1
    } else {
        10 * pow10((k - 1) as nat)
    }
}

/// The digits of a number are ASCII characters.
pub proof fn lemma_digits_ascii(n: nat)
    ensures
        is_ascii_chars(digits(n)),
    decreases n,
{
    if n >= 10 {
        lemma_digits_ascii(n / 10);
    }
}

/// A number below ten to the `k` has at most `k` digits.
pub proof fn lemma_digits_len(n: nat, k: nat)
    requires
        k >= 1,
        n < pow10(k),
    ensures
        1 <= digits(n).len() <= k,
    decreases k,
{
    reveal_with_fuel(pow10, 2);
    if n >= 10 {
        lemma_digits_len(n / 10, (k - 1) as nat);
    }
}

/// The decimal text of a number is made of ASCII characters, and it is at
/// most one longer than the number of digits that its size allows.
pub proof fn lemma_decimal(n: int, k: nat)
    requires
        k >= 1,
        -pow10(k) < n < pow10(k),
    ensures
        is_ascii_chars(decimal(n)),
        n >= 0 ==> 1 <= decimal(n).len() <= k,
        n < 0 ==> 2 <= decimal(n).len() <= k + 1,
        utf8_len(decimal(n)) == decimal(n).len(),
        encode_utf8(decimal(n)) == ascii(decimal(n)),
{
    if n < 0 {
        lemma_digits_ascii((-n) as nat);
        lemma_digits_len((-n) as nat, k);
    } else {
        lemma_digits_ascii(n as nat);
        lemma_digits_len(n as nat, k);
    }
    is_ascii_chars_encode_utf8(decimal(n));
    assert(encode_utf8(decimal(n)) =~= ascii(decimal(n)));
}

/// The error that `core::str::from_utf8` returns for bytes that are not
/// UTF-8.
#[verifier::external_type_specification]
#[verifier::external_body]
pub struct ExUtf8Error(Utf8Error);

/// `core::str::from_utf8` takes bytes for text: where they are valid UTF-8
/// it returns a text, and the text that it returns is the one that the
/// bytes encode.
pub assume_specification[ core::str::from_utf8 ](bytes: &[u8]) -> (res: Result<&str, Utf8Error>)
    ensures
        valid_utf8(bytes@) ==> res is Ok,
        res matches Ok(text) ==> encode_utf8(text@) == bytes@,
;

/// Writes the ASCII text that `bytes` hold into `writer`, as one string.
fn write_ascii<W: Write>(writer: &mut W, bytes: &[u8], Ghost(text): Ghost<Seq<char>>) -> (res:
    Result<(), W::Error>)
    requires
        is_ascii_chars(text),
        bytes@ == ascii(text),
    ensures
        W::has_room(old(writer), text) ==> res is Ok,
        res is Ok ==> W::took(old(writer), final(writer), text),
        res is Ok ==> W::stored(
            old(writer),
            final(writer),
            text,
            final(W::inner(old(writer))),
            final(W::inner(final(writer))),
        ),
        res is Err ==> W::broke(
            old(writer),
            final(writer),
            text,
            final(W::inner(old(writer))),
            final(W::inner(final(writer))),
        ),
        *final(W::handle(old(writer))) == *final(W::handle(final(writer))),
{
    proof {
        is_ascii_chars_encode_utf8(text);
        assert(encode_utf8(text) =~= bytes@);
        encode_utf8_valid_utf8(text);
    }
    match core::str::from_utf8(bytes) {
        Ok(string) => {
            proof {
                encode_utf8_decode_utf8(string@);
                encode_utf8_decode_utf8(text);
            }
            writer.write_str(string)
        },
        Err(_) => unreached(),
    }
}

/// An `i8` renders as its decimal text.
impl Fmt<Display> for i8 {
    open spec fn rendered(&self, strategy: &Display) -> Seq<char> {
        decimal(*self as int)
    }

    /// The length of the longest decimal text of an `i8`.
    open spec fn size_estimate(&self, strategy: &Display) -> nat {
        4
    }

    open spec fn depth(&self, strategy: &Display) -> nat {
        0
    }

    /// The digits are written for the number widened to an `i16`, which
    /// has the same decimal text.
    fn fmt<W: Write>(&self, writer: &mut W, _strategy: &Display) -> (res: Result<(), W::Error>) {
        let wide: i16 = *self as i16;
        let mut buffer = [0u8; 7];
        let start = numtoa_i16(wide, &mut buffer);
        proof {
            reveal_with_fuel(pow10, 5);
            lemma_decimal(*self as int, 3);
        }
        write_ascii(
            writer,
            slice_subrange(buffer.as_slice(), start, 7),
            Ghost(decimal(*self as int)),
        )
    }

    /// The estimate is the same for every number, and no text is longer.
    fn size_hint(&self, _strategy: &Display) -> (bytes: usize)
        ensures
            utf8_len(Self::rendered(self, _strategy)) <= bytes,
    {
        proof {
            reveal_with_fuel(pow10, 5);
            lemma_decimal(*self as int, 3);
        }
        4
    }
}

/// `<i16 as NumToA<i16>>::numtoa` in base 10 writes the decimal text of the
/// number to the end of the buffer and returns the index where the text
/// begins. It panics where the buffer is too short for the text; with one
/// byte more than the longest text of an `i16` it never is.
#[verifier::external_body]
fn numtoa_i16(value: i16, buffer: &mut [u8; 7]) -> (start: usize)
    ensures
        start <= 7,
        final(buffer)@.subrange(start as int, 7) == ascii(decimal(value as int)),
{
    value.numtoa(10, buffer)
}

/// An `i16` renders as its decimal text.
impl Fmt<Display> for i16 {
    open spec fn rendered(&self, strategy: &Display) -> Seq<char> {
        decimal(*self as int)
    }

    /// The length of the longest decimal text of an `i16`.
    open spec fn size_estimate(&self, strategy: &Display) -> nat {
        6
    }

    open spec fn depth(&self, strategy: &Display) -> nat {
        0
    }

    fn fmt<W: Write>(&self, writer: &mut W, _strategy: &Display) -> (res: Result<(), W::Error>) {
        let mut buffer = [0u8; 7];
        let start = numtoa_i16(*self, &mut buffer);
        proof {
            reveal_with_fuel(pow10, 7);
            lemma_decimal(*self as int, 5);
        }
        write_ascii(
            writer,
            slice_subrange(buffer.as_slice(), start, 7),
            Ghost(decimal(*self as int)),
        )
    }

    /// The estimate is the same for every number, and no text is longer.
    fn size_hint(&self, _strategy: &Display) -> (bytes: usize)
        ensures
            utf8_len(Self::rendered(self, _strategy)) <= bytes,
    {
        proof {
            reveal_with_fuel(pow10, 7);
            lemma_decimal(*self as int, 5);
        }
        6
    }
}

/// `<i32 as NumToA<i32>>::numtoa` in base 10 writes the decimal text of the
/// number to the end of the buffer and returns the index where the text
/// begins. It panics where the buffer is too short for the text; with one
/// byte more than the longest text of an `i32` it never is.
#[verifier::external_body]
fn numtoa_i32(value: i32, buffer: &mut [u8; 12]) -> (start: usize)
    ensures
        start <= 12,
        final(buffer)@.subrange(start as int, 12) == ascii(decimal(value as int)),
{
    value.numtoa(10, buffer)
}

/// An `i32` renders as its decimal text.
impl Fmt<Display> for i32 {
    open spec fn rendered(&self, strategy: &Display) -> Seq<char> {
        decimal(*self as int)
    }

    /// The length of the longest decimal text of an `i32`.
    open spec fn size_estimate(&self, strategy: &Display) -> nat {
        11
    }

    open spec fn depth(&self, strategy: &Display) -> nat {
        0
    }

    fn fmt<W: Write>(&self, writer: &mut W, _strategy: &Display) -> (res: Result<(), W::Error>) {
        let mut buffer = [0u8; 12];
        let start = numtoa_i32(*self, &mut buffer);
        proof {
            reveal_with_fuel(pow10, 12);
            lemma_decimal(*self as int, 10);
        }
        write_ascii(
            writer,
            slice_subrange(buffer.as_slice(), start, 12),
            Ghost(decimal(*self as int)),
        )
    }

    /// The estimate is the same for every number, and no text is longer.
    fn size_hint(&self, _strategy: &Display) -> (bytes: usize)
        ensures
            utf8_len(Self::rendered(self, _strategy)) <= bytes,
    {
        proof {
            reveal_with_fuel(pow10, 12);
            lemma_decimal(*self as int, 10);
        }
        11
    }
}

/// `<i64 as NumToA<i64>>::numtoa` in base 10 writes the decimal text of the
/// number to the end of the buffer and returns the index where the text
/// begins. It panics where the buffer is too short for the text; with one
/// byte more than the longest text of an `i64` it never is.
#[verifier::external_body]
fn numtoa_i64(value: i64, buffer: &mut [u8; 21]) -> (start: usize)
    ensures
        start <= 21,
        final(buffer)@.subrange(start as int, 21) == ascii(decimal(value as int)),
{
    value.numtoa(10, buffer)
}

/// An `i64` renders as its decimal text.
impl Fmt<Display> for i64 {
    open spec fn rendered(&self, strategy: &Display) -> Seq<char> {
        decimal(*self as int)
    }

    /// The length of the longest decimal text of an `i64`.
    open spec fn size_estimate(&self, strategy: &Display) -> nat {
        20
    }

    open spec fn depth(&self, strategy: &Display) -> nat {
        0
    }

    fn fmt<W: Write>(&self, writer: &mut W, _strategy: &Display) -> (res: Result<(), W::Error>) {
        let mut buffer = [0u8; 21];
        let start = numtoa_i64(*self, &mut buffer);
        proof {
            reveal_with_fuel(pow10, 21);
            lemma_decimal(*self as int, 19);
        }
        write_ascii(
            writer,
            slice_subrange(buffer.as_slice(), start, 21),
            Ghost(decimal(*self as int)),
        )
    }

    /// The estimate is the same for every number, and no text is longer.
    fn size_hint(&self, _strategy: &Display) -> (bytes: usize)
        ensures
            utf8_len(Self::rendered(self, _strategy)) <= bytes,
    {
        proof {
            reveal_with_fuel(pow10, 21);
            lemma_decimal(*self as int, 19);
        }
        20
    }
}

/// `<u8 as NumToA<u8>>::numtoa` in base 10 writes the decimal text of the
/// number to the end of the buffer and returns the index where the text
/// begins. It panics where the buffer is too short for the text; with one
/// byte more than the longest text of a `u8` it never is.
#[verifier::external_body]
fn numtoa_u8(value: u8, buffer: &mut [u8; 4]) -> (start: usize)
    ensures
        start <= 4,
        final(buffer)@.subrange(start as int, 4) == ascii(decimal(value as int)),
{
    value.numtoa(10, buffer)
}

/// A `u8` renders as its decimal text.
impl Fmt<Display> for u8 {
    open spec fn rendered(&self, strategy: &Display) -> Seq<char> {
        decimal(*self as int)
    }

    /// The length of the longest decimal text of a `u8`.
    open spec fn size_estimate(&self, strategy: &Display) -> nat {
        3
    }

    open spec fn depth(&self, strategy: &Display) -> nat {
        0
    }

    fn fmt<W: Write>(&self, writer: &mut W, _strategy: &Display) -> (res: Result<(), W::Error>) {
        let mut buffer = [0u8; 4];
        let start = numtoa_u8(*self, &mut buffer);
        proof {
            reveal_with_fuel(pow10, 5);
            lemma_decimal(*self as int, 3);
        }
        write_ascii(
            writer,
            slice_subrange(buffer.as_slice(), start, 4),
            Ghost(decimal(*self as int)),
        )
    }

    /// The estimate is the same for every number, and no text is longer.
    fn size_hint(&self, _strategy: &Display) -> (bytes: usize)
        ensures
            utf8_len(Self::rendered(self, _strategy)) <= bytes,
    {
        proof {
            reveal_with_fuel(pow10, 5);
            lemma_decimal(*self as int, 3);
        }
        3
    }
}

/// `<u16 as NumToA<u16>>::numtoa` in base 10 writes the decimal text of the
/// number to the end of the buffer and returns the index where the text
/// begins. It panics where the buffer is too short for the text; with one
/// byte more than the longest text of a `u16` it never is.
#[verifier::external_body]
fn numtoa_u16(value: u16, buffer: &mut [u8; 6]) -> (start: usize)
    ensures
        start <= 6,
        final(buffer)@.subrange(start as int, 6) == ascii(decimal(value as int)),
{
    value.numtoa(10, buffer)
}

/// A `u16` renders as its decimal text.
impl Fmt<Display> for u16 {
    open spec fn rendered(&self, strategy: &Display) -> Seq<char> {
        decimal(*self as int)
    }

    /// The length of the longest decimal text of a `u16`.
    open spec fn size_estimate(&self, strategy: &Display) -> nat {
        5
    }

    open spec fn depth(&self, strategy: &Display) -> nat {
        0
    }

    fn fmt<W: Write>(&self, writer: &mut W, _strategy: &Display) -> (res: Result<(), W::Error>) {
        let mut buffer = [0u8; 6];
        let start = numtoa_u16(*self, &mut buffer);
        proof {
            reveal_with_fuel(pow10, 7);
            lemma_decimal(*self as int, 5);
        }
        write_ascii(
            writer,
            slice_subrange(buffer.as_slice(), start, 6),
            Ghost(decimal(*self as int)),
        )
    }

    /// The estimate is the same for every number, and no text is longer.
    fn size_hint(&self, _strategy: &Display) -> (bytes: usize)
        ensures
            utf8_len(Self::rendered(self, _strategy)) <= bytes,
    {
        proof {
            reveal_with_fuel(pow10, 7);
            lemma_decimal(*self as int, 5);
        }
        5
    }
}

/// `<u32 as NumToA<u32>>::numtoa` in base 10 writes the decimal text of the
/// number to the end of the buffer and returns the index where the text
/// begins. It panics where the buffer is too short for the text; with one
/// byte more than the longest text of a `u32` it never is.
#[verifier::external_body]
fn numtoa_u32(value: u32, buffer: &mut [u8; 11]) -> (start: usize)
    ensures
        start <= 11,
        final(buffer)@.subrange(start as int, 11) == ascii(decimal(value as int)),
{
    value.numtoa(10, buffer)
}

/// A `u32` renders as its decimal text.
impl Fmt<Display> for u32 {
    open spec fn rendered(&self, strategy: &Display) -> Seq<char> {
        decimal(*self as int)
    }

    /// The length of the longest decimal text of a `u32`.
    open spec fn size_estimate(&self, strategy: &Display) -> nat {
        10
    }

    open spec fn depth(&self, strategy: &Display) -> nat {
        0
    }

    fn fmt<W: Write>(&self, writer: &mut W, _strategy: &Display) -> (res: Result<(), W::Error>) {
        let mut buffer = [0u8; 11];
        let start = numtoa_u32(*self, &mut buffer);
        proof {
            reveal_with_fuel(pow10, 12);
            lemma_decimal(*self as int, 10);
        }
        write_ascii(
            writer,
            slice_subrange(buffer.as_slice(), start, 11),
            Ghost(decimal(*self as int)),
        )
    }

    /// The estimate is the same for every number, and no text is longer.
    fn size_hint(&self, _strategy: &Display) -> (bytes: usize)
        ensures
            utf8_len(Self::rendered(self, _strategy)) <= bytes,
    {
        proof {
            reveal_with_fuel(pow10, 12);
            lemma_decimal(*self as int, 10);
        }
        10
    }
}

/// `<u64 as NumToA<u64>>::numtoa` in base 10 writes the decimal text of the
/// number to the end of the buffer and returns the index where the text
/// begins. It panics where the buffer is too short for the text; with one
/// byte more than the longest text of a `u64` it never is.
#[verifier::external_body]
fn numtoa_u64(value: u64, buffer: &mut [u8; 21]) -> (start: usize)
    ensures
        start <= 21,
        final(buffer)@.subrange(start as int, 21) == ascii(decimal(value as int)),
{
    value.numtoa(10, buffer)
}

/// A `u64` renders as its decimal text.
impl Fmt<Display> for u64 {
    open spec fn rendered(&self, strategy: &Display) -> Seq<char> {
        decimal(*self as int)
    }

    /// The length of the longest decimal text of a `u64`.
    open spec fn size_estimate(&self, strategy: &Display) -> nat {
        20
    }

    open spec fn depth(&self, strategy: &Display) -> nat {
        0
    }

    fn fmt<W: Write>(&self, writer: &mut W, _strategy: &Display) -> (res: Result<(), W::Error>) {
        let mut buffer = [0u8; 21];
        let start = numtoa_u64(*self, &mut buffer);
        proof {
            reveal_with_fuel(pow10, 22);
            lemma_decimal(*self as int, 20);
        }
        write_ascii(
            writer,
            slice_subrange(buffer.as_slice(), start, 21),
            Ghost(decimal(*self as int)),
        )
    }

    /// The estimate is the same for every number, and no text is longer.
    fn size_hint(&self, _strategy: &Display) -> (bytes: usize)
        ensures
            utf8_len(Self::rendered(self, _strategy)) <= bytes,
    {
        proof {
            reveal_with_fuel(pow10, 22);
            lemma_decimal(*self as int, 20);
        }
        20
    }
}

/// The estimate of a number is an upper bound: no number of a type renders
/// longer than the estimate of the type.
pub proof fn lemma_number_estimates_cover(
    a: i8,
    b: i16,
    c: i32,
    d: i64,
    e: u8,
    f: u16,
    g: u32,
    h: u64,
)
    ensures
        estimate_covers::<Display, i8>(&a, &Display),
        estimate_covers::<Display, i16>(&b, &Display),
        estimate_covers::<Display, i32>(&c, &Display),
        estimate_covers::<Display, i64>(&d, &Display),
        estimate_covers::<Display, u8>(&e, &Display),
        estimate_covers::<Display, u16>(&f, &Display),
        estimate_covers::<Display, u32>(&g, &Display),
        estimate_covers::<Display, u64>(&h, &Display),
{
    reveal_with_fuel(pow10, 22);
    lemma_decimal(a as int, 3);
    lemma_decimal(b as int, 5);
    lemma_decimal(c as int, 10);
    lemma_decimal(d as int, 19);
    lemma_decimal(e as int, 3);
    lemma_decimal(f as int, 5);
    lemma_decimal(g as int, 10);
    lemma_decimal(h as int, 20);
}

/// The estimate of a number is the least upper bound: in each type there is
/// a number whose text is as long as the estimate of the type.
pub proof fn lemma_number_estimates_are_reached()
    ensures
        utf8_len(decimal(i8::MIN as int)) == 4,
        utf8_len(decimal(i16::MIN as int)) == 6,
        utf8_len(decimal(i32::MIN as int)) == 11,
        utf8_len(decimal(i64::MIN as int)) == 20,
        utf8_len(decimal(u8::MAX as int)) == 3,
        utf8_len(decimal(u16::MAX as int)) == 5,
        utf8_len(decimal(u32::MAX as int)) == 10,
        utf8_len(decimal(u64::MAX as int)) == 20,
{
    reveal_with_fuel(pow10, 22);
    reveal_with_fuel(digits, 21);
    lemma_decimal(i8::MIN as int, 3);
    lemma_decimal(i16::MIN as int, 5);
    lemma_decimal(i32::MIN as int, 10);
    lemma_decimal(i64::MIN as int, 19);
    lemma_decimal(u8::MAX as int, 3);
    lemma_decimal(u16::MAX as int, 5);
    lemma_decimal(u32::MAX as int, 10);
    lemma_decimal(u64::MAX as int, 20);
}

} // verus!
