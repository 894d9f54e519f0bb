//! Little-endian numbers, runs of bytes and signatures.
use vstd::prelude::*;

use crate::error::{parsed, ErrorKind, ParseError, ParseErrorView, ParseResult};

verus! {

/// The 16-bit little-endian number at position `at`.
pub open spec fn u16_at(s: Seq<u8>, at: int) -> int {
    s[at] + 0x100 * s[at + 1]
}

/// The 32-bit little-endian number at position `at`.
pub open spec fn u32_at(s: Seq<u8>, at: int) -> int {
    s[at] + 0x100 * s[at + 1] + 0x1_0000 * s[at + 2] + 0x100_0000 * s[at + 3]
}

/// The 16-bit little-endian two's complement number at position `at`.
pub open spec fn i16_at(s: Seq<u8>, at: int) -> int {
    if u16_at(s, at) < 0x8000 {
        u16_at(s, at)
    } else {
        u16_at(s, at) - 0x1_0000
    }
}

/// The 32-bit little-endian two's complement number at position `at`.
pub open spec fn i32_at(s: Seq<u8>, at: int) -> int {
    if u32_at(s, at) < 0x8000_0000 {
        u32_at(s, at)
    } else {
        u32_at(s, at) - 0x1_0000_0000
    }
}

/// The value that a signed number takes when its sign is extended to a `usize`.
pub open spec fn extended_to_usize(v: int) -> int {
    if v >= 0 {
        v
    } else {
        v + usize::MAX + 1
    }
}

/// The value that a signed number takes when its sign is extended to a `u64`.
pub open spec fn extended_to_u64(v: int) -> int {
    if v >= 0 {
        v
    } else {
        v + u64::MAX + 1
    }
}

/// Reads one byte.
pub fn le_u8<'a>(input: &'a [u8]) -> (res: ParseResult<'a, u8>)
    ensures
        parsed(res) == (if input@.len() < 1 {
            Err(ParseErrorView::Error(input@, ErrorKind::Eof))
        } else {
            Ok((input@.skip(1), input@[0]))
        }),
{
    if input.len() < 1 {
        return Err(ParseError::Error(input, ErrorKind::Eof));
    }
    let (_, rest) = input.split_at(1);
    Ok((rest, input[0]))
}

/// Reads a 16-bit number.
pub fn le_u16<'a>(input: &'a [u8]) -> (res: ParseResult<'a, u16>)
    ensures
        parsed(res) == (if input@.len() < 2 {
            Err(ParseErrorView::Error(input@, ErrorKind::Eof))
        } else {
            Ok((input@.skip(2), u16_at(input@, 0) as u16))
        }),
{
    if input.len() < 2 {
        return Err(ParseError::Error(input, ErrorKind::Eof));
    }
    let (_, rest) = input.split_at(2);
    Ok((rest, input[0] as u16 + 0x100 * (input[1] as u16)))
}

/// Reads a 32-bit number.
pub fn le_u32<'a>(input: &'a [u8]) -> (res: ParseResult<'a, u32>)
    ensures
        parsed(res) == (if input@.len() < 4 {
            Err(ParseErrorView::Error(input@, ErrorKind::Eof))
        } else {
            Ok((input@.skip(4), u32_at(input@, 0) as u32))
        }),
{
    if input.len() < 4 {
        return Err(ParseError::Error(input, ErrorKind::Eof));
    }
    let (_, rest) = input.split_at(4);
    Ok(
        (
            rest,
            input[0] as u32 + 0x100 * (input[1] as u32) + 0x1_0000 * (input[2] as u32) + 0x100_0000
                * (input[3] as u32),
        ),
    )
}

/// Reads a 16-bit two's complement number.
pub fn le_i16<'a>(input: &'a [u8]) -> (res: ParseResult<'a, i16>)
    ensures
        parsed(res) == (if input@.len() < 2 {
            Err(ParseErrorView::Error(input@, ErrorKind::Eof))
        } else {
            Ok((input@.skip(2), i16_at(input@, 0) as i16))
        }),
{
    let (rest, v) = le_u16(input)?;
    assert(v as i16 == (if v < 0x8000 {
        v as int
    } else {
        v - 0x1_0000
    })) by (bit_vector);
    Ok((rest, v as i16))
}

/// Reads a 32-bit two's complement number.
pub fn le_i32<'a>(input: &'a [u8]) -> (res: ParseResult<'a, i32>)
    ensures
        parsed(res) == (if input@.len() < 4 {
            Err(ParseErrorView::Error(input@, ErrorKind::Eof))
        } else {
            Ok((input@.skip(4), i32_at(input@, 0) as i32))
        }),
{
    let (rest, v) = le_u32(input)?;
    assert(v as i32 == (if v < 0x8000_0000 {
        v as int
    } else {
        v - 0x1_0000_0000
    })) by (bit_vector);
    Ok((rest, v as i32))
}

/// Extends the sign of a number to a `usize`.
pub fn extend_to_usize(v: i32) -> (res: usize)
    ensures
        res == extended_to_usize(v as int),
{
    if v >= 0 {
        v as usize
    } else {
        usize::MAX - (-(v + 1)) as usize
    }
}

/// Extends the sign of a number to a `u64`.
pub fn extend_to_u64(v: i32) -> (res: u64)
    ensures
        res == extended_to_u64(v as int),
{
    assert(v >= 0 ==> v as u64 == v) by (bit_vector);
    assert(v < 0 ==> v as u64 == v + 0x1_0000_0000_0000_0000) by (bit_vector);
    v as u64
}

/// Splits off the first `count` bytes.
pub fn take<'a>(count: usize, input: &'a [u8]) -> (res: ParseResult<'a, &'a [u8]>)
    ensures
        parsed(res) == (if input@.len() < count {
            Err(ParseErrorView::Incomplete(count as int))
        } else {
            Ok((input@.skip(count as int), input@.take(count as int)))
        }),
{
    if input.len() < count {
        return Err(ParseError::Incomplete(count));
    }
    let (prefix, rest) = input.split_at(count);
    Ok((rest, prefix))
}

/// Whether the input and the signature agree on every position that both of them have.
pub open spec fn agrees_with(input: Seq<u8>, signature: Seq<u8>) -> bool {
    forall|i: int| 0 <= i < input.len() && i < signature.len() ==> input[i] == signature[i]
}

/// Splits off the given signature.
pub fn tag<'a>(signature: &[u8], input: &'a [u8]) -> (res: ParseResult<'a, &'a [u8]>)
    ensures
        parsed(res) == (if !agrees_with(input@, signature@) {
            Err(ParseErrorView::Error(input@, ErrorKind::Tag))
        } else if input@.len() < signature@.len() {
            Err(ParseErrorView::Incomplete(signature@.len() as int))
        } else {
            Ok((input@.skip(signature@.len() as int), signature@))
        }),
{
    let mut i: usize = 0;
    while i < input.len() && i < signature.len()
        invariant
            i <= input@.len(),
            i <= signature@.len(),
            forall|j: int| 0 <= j < i ==> input@[j] == signature@[j],
        decreases input@.len() - i,
    {
        if input[i] != signature[i] {
            assert(input@[i as int] != signature@[i as int]);
            return Err(ParseError::Error(input, ErrorKind::Tag));
        }
        i += 1;
    }
    let res = take(signature.len(), input);
    assert(input@.len() >= signature@.len() ==> input@.take(signature@.len() as int)
        =~= signature@);
    res
}

} // verus!
