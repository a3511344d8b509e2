//! Fixed-width text form of stream offsets.
//!
//! An offset is written as the sixteen lower-case hexadecimal digits of its
//! eight little-endian bytes, so that every offset takes the same room in the
//! stream whatever its value.

use crate::error::Error;
use crate::error::ErrorKind;
use crate::error::StdResultExt;
use byteorder::ByteOrder;
use byteorder::LittleEndian;
use vstd::bytes::spec_u64_from_le_bytes;
use vstd::bytes::spec_u64_to_le_bytes;
use vstd::bytes::lemma_auto_spec_u64_to_from_le_bytes;
use vstd::prelude::*;

verus! {

/// Number of bytes that one offset takes in its text form.
pub const OFFSET_TEXT_LEN: usize = 16;

/// The error that `hex::decode` reports. Its contents are not inspected.
#[verifier::external_type_specification]
#[verifier::external_body]
pub struct ExFromHexError(hex::FromHexError);

/// The lower-case hexadecimal digit, as an ASCII byte, of a value below 16.
pub open spec fn hex_digit(n: int) -> u8 {
    if n < 10 {
        (48 + n) as u8
    } else {
        (87 + n) as u8
    }
}

/// The value of one hexadecimal digit given as an ASCII byte, in either case.
pub open spec fn hex_value(c: u8) -> Option<int> {
    if 48 <= c <= 57 {
        Some(c - 48)
    } else if 97 <= c <= 102 {
        Some(c - 87)
    } else if 65 <= c <= 70 {
        Some(c - 55)
    } else {
        None
    }
}

/// Two lower-case hexadecimal digits per byte, high digit first.
pub open spec fn hex_text(data: Seq<u8>) -> Seq<u8> {
    Seq::new(
        2 * data.len(),
        |i: int|
            if i % 2 == 0 {
                hex_digit(data[i / 2] as int / 16)
            } else {
                hex_digit(data[i / 2] as int % 16)
            },
    )
}

/// Whether `text` is an even number of hexadecimal digits.
pub open spec fn is_hex_text(text: Seq<u8>) -> bool {
    &&& text.len() % 2 == 0
    &&& forall|i: int| 0 <= i < text.len() ==> (#[trigger] hex_value(text[i])) is Some
}

/// The bytes that the digit pairs of `text` stand for.
pub open spec fn hex_bytes(text: Seq<u8>) -> Seq<u8> {
    Seq::new(
        text.len() / 2,
        |i: int| (hex_value(text[2 * i]).unwrap() * 16 + hex_value(text[2 * i + 1]).unwrap()) as u8,
    )
}

/// The text form of an offset.
pub open spec fn offset_text(n: u64) -> Seq<u8> {
    hex_text(spec_u64_to_le_bytes(n))
}

/// Whether `text` is the text form of some offset: sixteen hexadecimal digits.
pub open spec fn is_offset_text(text: Seq<u8>) -> bool {
    text.len() == OFFSET_TEXT_LEN && is_hex_text(text)
}

/// The offset that a well-formed text stands for.
pub open spec fn offset_value(text: Seq<u8>) -> u64 {
    spec_u64_from_le_bytes(hex_bytes(text))
}

/// Reading back the digits of `data` gives `data`.
pub proof fn lemma_hex_round_trip(data: Seq<u8>)
    ensures
        is_hex_text(hex_text(data)),
        hex_text(data).len() == 2 * data.len(),
        hex_bytes(hex_text(data)) == data,
{
    let text = hex_text(data);
    assert forall|i: int| 0 <= i < text.len() implies (#[trigger] hex_value(text[i])) is Some by {
        let b = data[i / 2] as int;
        assert(0 <= b / 16 < 16);
        assert(0 <= b % 16 < 16);
    }
    assert forall|i: int| 0 <= i < data.len() implies hex_bytes(text)[i] == data[i] by {
        let b = data[i] as int;
        assert((2 * i) / 2 == i);
        assert((2 * i + 1) / 2 == i);
        assert((2 * i) % 2 == 0);
        assert((2 * i + 1) % 2 == 1);
        assert(0 <= b / 16 < 16);
        assert(0 <= b % 16 < 16);
        assert(hex_value(hex_digit(b / 16)) == Some(b / 16));
        assert(hex_value(hex_digit(b % 16)) == Some(b % 16));
        assert(b == (b / 16) * 16 + b % 16);
    }
    assert(hex_bytes(text) =~= data);
}

/// Every offset has a well-formed text form that stands for it.
pub proof fn lemma_offset_round_trip(n: u64)
    ensures
        is_offset_text(offset_text(n)),
        offset_value(offset_text(n)) == n,
{
    lemma_auto_spec_u64_to_from_le_bytes();
    lemma_hex_round_trip(spec_u64_to_le_bytes(n));
}

/// Calls `byteorder::LittleEndian::write_u64` on a buffer of eight bytes: the
/// result holds the eight bytes of `n`, least significant first.
#[verifier::external_body]
pub(crate) fn le_bytes(n: u64) -> (out: Vec<u8>)
    ensures
        out@ == spec_u64_to_le_bytes(n),
{
    let mut out = vec![0u8; 8];
    LittleEndian::write_u64(&mut out, n);
    out
}

/// Calls `byteorder::LittleEndian::read_u64`, which reads the first eight
/// bytes of its argument, least significant first, and panics on fewer.
#[verifier::external_body]
pub(crate) fn le_value(bytes: &[u8]) -> (n: u64)
    requires
        bytes@.len() >= 8,
    ensures
        n == spec_u64_from_le_bytes(bytes@.subrange(0, 8)),
{
    LittleEndian::read_u64(bytes)
}

/// Calls `hex::encode`: two lower-case digits for each byte, in order.
#[verifier::external_body]
pub(crate) fn hex_encode(data: &[u8]) -> (text: Vec<u8>)
    ensures
        text@ == hex_text(data@),
{
    hex::encode(data).into_bytes()
}

/// Calls `hex::decode`, which succeeds exactly on an even number of
/// hexadecimal digits, of either case, and then gives one byte per pair.
#[verifier::external_body]
pub(crate) fn hex_decode(text: &[u8]) -> (res: Result<Vec<u8>, hex::FromHexError>)
    ensures
        res is Ok <==> is_hex_text(text@),
        res is Ok ==> res->Ok_0@ == hex_bytes(text@),
{
    hex::decode(text)
}

/// Writes an offset in its text form.
pub fn encode_offset(n: u64) -> (text: Vec<u8>)
    ensures
        text@ == offset_text(n),
        text@.len() == OFFSET_TEXT_LEN,
{
    proof {
        lemma_offset_round_trip(n);
    }
    let raw = le_bytes(n);
    hex_encode(raw.as_slice())
}

/// Reads an offset from its text form. Fails with a framing error unless
/// `text` is sixteen hexadecimal digits.
pub fn decode_offset(text: &[u8]) -> (res: Result<u64, Error>)
    ensures
        res is Ok <==> is_offset_text(text@),
        res is Ok ==> res->Ok_0 == offset_value(text@),
        res is Err ==> res->Err_0.kind == ErrorKind::Framing,
{
    if text.len() != OFFSET_TEXT_LEN {
        return Err(Error { kind: ErrorKind::Framing });
    }
    let raw = match hex_decode(text).e() {
        Ok(raw) => raw,
        Err(e) => {
            return Err(e);
        },
    };
    assert(raw@.subrange(0, 8) =~= raw@);
    Ok(le_value(raw.as_slice()))
}

} // verus!
