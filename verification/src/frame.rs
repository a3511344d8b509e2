//! The framing of records.
//!
//! A record is one tag byte, the length of its payload as eight
//! little-endian bytes, then the payload. The tag says how the payload is
//! to be read. Lengths of aggregates are eight little-endian bytes; offsets
//! inside forwarding records and commit markers are in their fixed-width text
//! form, so that such a record always takes the same room.

use crate::bytes::extend;
use crate::error::Error;
use crate::error::ErrorKind;
use crate::fixed::le_bytes;
use crate::fixed::le_value;
use crate::meta::lemma_stitch_text_round_trip;
use crate::meta::lemma_trailer_text_round_trip;
use crate::meta::parse_stitch_text;
use crate::meta::parse_trailer_text;
use crate::meta::stitch_text;
use crate::meta::trailer_text;
use crate::meta::FixedSizeStitch;
use crate::meta::Trailer;
use crate::scmd::Command;
use crate::scmd::CommandView;
use crate::scmd::SerializeBool;
use crate::scmd::SerializeStruct;
use crate::scmd::SerializeStructEnd;
use crate::scmd::SerializeStructField;
use crate::scmd::SerializeTuple;
use crate::scmd::SerializeTupleElement;
use crate::scmd::SerializeTupleEnd;
use crate::scmd::SerializeU8;
use vstd::bytes::lemma_auto_spec_u64_to_from_le_bytes;
use vstd::bytes::spec_u64_from_le_bytes;
use vstd::bytes::spec_u64_to_le_bytes;
use vstd::prelude::*;
use vstd::slice::slice_subrange;
use vstd::slice::slice_to_vec;

verus! {

/// Bytes before the payload: the tag and the payload's length.
pub const HEADER_LEN: usize = 9;

/// Bytes that a forwarding record takes.
pub const STITCH_RECORD_LEN: usize = 57;

/// Bytes that a commit marker takes.
pub const TRAILER_RECORD_LEN: usize = 59;

/// The tag of a boolean.
pub const TAG_BOOL: u8 = 1;

/// The tag of a small unsigned integer.
pub const TAG_U8: u8 = 2;

/// The tag of the opening of a tuple.
pub const TAG_TUPLE: u8 = 3;

/// The tag of the marker before an element of a tuple.
pub const TAG_TUPLE_ELEMENT: u8 = 4;

/// The tag of the closing of a tuple.
pub const TAG_TUPLE_END: u8 = 5;

/// The tag of the opening of a struct.
pub const TAG_STRUCT: u8 = 6;

/// The tag of the marker before a field of a struct.
pub const TAG_STRUCT_FIELD: u8 = 7;

/// The tag of the closing of a struct.
pub const TAG_STRUCT_END: u8 = 8;

/// The tag of a forwarding record.
pub const TAG_STITCH: u8 = 9;

/// The tag of a commit marker.
pub const TAG_TRAILER: u8 = 10;

/// The tag of a record.
pub open spec fn tag_of(c: CommandView) -> u8 {
    match c {
        CommandView::Bool { .. } => TAG_BOOL,
        CommandView::U8 { .. } => TAG_U8,
        CommandView::Tuple { .. } => TAG_TUPLE,
        CommandView::TupleElement => TAG_TUPLE_ELEMENT,
        CommandView::TupleEnd => TAG_TUPLE_END,
        CommandView::Struct { .. } => TAG_STRUCT,
        CommandView::StructField { .. } => TAG_STRUCT_FIELD,
        CommandView::StructEnd => TAG_STRUCT_END,
        CommandView::Stitch(_) => TAG_STITCH,
        CommandView::Trailer(_) => TAG_TRAILER,
    }
}

/// The payload of a record.
pub open spec fn payload_of(c: CommandView) -> Seq<u8> {
    match c {
        CommandView::Bool { v } => seq![if v { 1u8 } else { 0u8 }],
        CommandView::U8 { n } => seq![n],
        CommandView::Tuple { len } => spec_u64_to_le_bytes(len as u64),
        CommandView::TupleElement => Seq::<u8>::empty(),
        CommandView::TupleEnd => Seq::<u8>::empty(),
        CommandView::Struct { name, len } => spec_u64_to_le_bytes(len as u64) + name,
        CommandView::StructField { key } => key,
        CommandView::StructEnd => Seq::<u8>::empty(),
        CommandView::Stitch(s) => stitch_text(s),
        CommandView::Trailer(t) => trailer_text(t),
    }
}

/// Whether the payload's length can be written in the header.
pub open spec fn fits(c: CommandView) -> bool {
    payload_of(c).len() <= u64::MAX
}

/// The bytes of a record.
pub open spec fn record(c: CommandView) -> Seq<u8> {
    seq![tag_of(c)] + spec_u64_to_le_bytes(payload_of(c).len() as u64) + payload_of(c)
}

/// The record that a tag and a payload stand for, if they are well formed.
pub open spec fn parse_payload(tag: u8, p: Seq<u8>) -> Option<CommandView> {
    if tag == TAG_BOOL {
        if p.len() == 1 && p[0] <= 1 {
            Some(CommandView::Bool { v: p[0] == 1 })
        } else {
            None
        }
    } else if tag == TAG_U8 {
        if p.len() == 1 {
            Some(CommandView::U8 { n: p[0] })
        } else {
            None
        }
    } else if tag == TAG_TUPLE {
        if p.len() == 8 && spec_u64_from_le_bytes(p) <= usize::MAX {
            Some(CommandView::Tuple { len: spec_u64_from_le_bytes(p) as usize })
        } else {
            None
        }
    } else if tag == TAG_TUPLE_ELEMENT {
        if p.len() == 0 {
            Some(CommandView::TupleElement)
        } else {
            None
        }
    } else if tag == TAG_TUPLE_END {
        if p.len() == 0 {
            Some(CommandView::TupleEnd)
        } else {
            None
        }
    } else if tag == TAG_STRUCT {
        if p.len() >= 8 && spec_u64_from_le_bytes(p.subrange(0, 8)) <= usize::MAX {
            Some(
                CommandView::Struct {
                    name: p.subrange(8, p.len() as int),
                    len: spec_u64_from_le_bytes(p.subrange(0, 8)) as usize,
                },
            )
        } else {
            None
        }
    } else if tag == TAG_STRUCT_FIELD {
        Some(CommandView::StructField { key: p })
    } else if tag == TAG_STRUCT_END {
        if p.len() == 0 {
            Some(CommandView::StructEnd)
        } else {
            None
        }
    } else if tag == TAG_STITCH {
        match parse_stitch_text(p) {
            Some(s) => Some(CommandView::Stitch(s)),
            None => None,
        }
    } else if tag == TAG_TRAILER {
        match parse_trailer_text(p) {
            Some(t) => Some(CommandView::Trailer(t)),
            None => None,
        }
    } else {
        None
    }
}

/// What lies at a position of the stream.
pub enum Decoded {
    /// A well-formed record, and the position behind it.
    Record { cmd: CommandView, end: int },
    /// The position is exactly the end of the stream.
    EndOfStream,
    /// Bytes that are no well-formed record, or a position outside the
    /// stream.
    Malformed,
}

/// Reads the record at `pos` of `s`.
pub open spec fn decode_at(s: Seq<u8>, pos: int) -> Decoded {
    if pos == s.len() {
        Decoded::EndOfStream
    } else if pos < 0 || pos > s.len() || s.len() - pos < HEADER_LEN {
        Decoded::Malformed
    } else {
        let n = spec_u64_from_le_bytes(s.subrange(pos + 1, pos + HEADER_LEN)) as int;
        if n > s.len() - pos - HEADER_LEN {
            Decoded::Malformed
        } else {
            match parse_payload(s[pos], s.subrange(pos + HEADER_LEN, pos + HEADER_LEN + n)) {
                Some(cmd) => Decoded::Record { cmd, end: pos + HEADER_LEN + n },
                None => Decoded::Malformed,
            }
        }
    }
}

/// A record takes its header and its payload.
pub proof fn lemma_record_len(c: CommandView)
    ensures
        record(c).len() == HEADER_LEN + payload_of(c).len(),
        c is Stitch ==> record(c).len() == STITCH_RECORD_LEN,
        c is Trailer ==> record(c).len() == TRAILER_RECORD_LEN,
{
    lemma_auto_spec_u64_to_from_le_bytes();
    match c {
        CommandView::Stitch(s) => {
            lemma_stitch_text_round_trip(s);
        },
        CommandView::Trailer(t) => {
            lemma_trailer_text_round_trip(t);
        },
        _ => {},
    }
}

/// The payload of a record reads back as that record.
pub proof fn lemma_payload_round_trip(c: CommandView)
    ensures
        parse_payload(tag_of(c), payload_of(c)) == Some(c),
{
    lemma_auto_spec_u64_to_from_le_bytes();
    match c {
        CommandView::Tuple { len } => {
            assert(spec_u64_from_le_bytes(spec_u64_to_le_bytes(len as u64)) == len as u64);
        },
        CommandView::Struct { name, len } => {
            let p = payload_of(c);
            assert(p.subrange(0, 8) =~= spec_u64_to_le_bytes(len as u64));
            assert(p.subrange(8, p.len() as int) =~= name);
            assert(spec_u64_from_le_bytes(spec_u64_to_le_bytes(len as u64)) == len as u64);
        },
        CommandView::Stitch(s) => {
            lemma_stitch_text_round_trip(s);
        },
        CommandView::Trailer(t) => {
            lemma_trailer_text_round_trip(t);
        },
        _ => {},
    }
}

/// Where the bytes of a record lie in a stream, the record is read back.
pub proof fn lemma_decode_record(s: Seq<u8>, pos: int, c: CommandView)
    requires
        fits(c),
        0 <= pos,
        pos + record(c).len() <= s.len(),
        s.subrange(pos, pos + record(c).len()) == record(c),
    ensures
        decode_at(s, pos) == (Decoded::Record { cmd: c, end: pos + record(c).len() }),
{
    lemma_auto_spec_u64_to_from_le_bytes();
    lemma_record_len(c);
    lemma_payload_round_trip(c);
    let r = record(c);
    let p = payload_of(c);
    let n = p.len() as int;
    assert(r.len() == HEADER_LEN + n);
    assert(s[pos] == r[0]);
    assert(s.subrange(pos + 1, pos + HEADER_LEN) =~= r.subrange(1, HEADER_LEN as int));
    assert(r.subrange(1, HEADER_LEN as int) =~= spec_u64_to_le_bytes(n as u64));
    assert(spec_u64_from_le_bytes(spec_u64_to_le_bytes(n as u64)) == n as u64);
    assert(s.subrange(pos + HEADER_LEN, pos + HEADER_LEN + n) =~= r.subrange(
        HEADER_LEN as int,
        HEADER_LEN + n,
    ));
    assert(r.subrange(HEADER_LEN as int, HEADER_LEN + n) =~= p);
}

/// A record lies within the stream and is never empty.
pub proof fn lemma_decode_bounds(s: Seq<u8>, pos: int)
    requires
        decode_at(s, pos) is Record,
    ensures
        0 <= pos,
        pos + HEADER_LEN <= decode_at(s, pos)->end <= s.len(),
{
}

/// Appending to a stream leaves the records that were in it as they were.
pub proof fn lemma_decode_stable(s: Seq<u8>, t: Seq<u8>, pos: int)
    requires
        decode_at(s, pos) is Record,
    ensures
        decode_at(s + t, pos) == decode_at(s, pos),
{
    let u = s + t;
    let n = spec_u64_from_le_bytes(s.subrange(pos + 1, pos + HEADER_LEN)) as int;
    assert(u.subrange(pos + 1, pos + HEADER_LEN) =~= s.subrange(pos + 1, pos + HEADER_LEN));
    assert(u.subrange(pos + HEADER_LEN, pos + HEADER_LEN + n) =~= s.subrange(
        pos + HEADER_LEN,
        pos + HEADER_LEN + n,
    ));
    assert(u[pos] == s[pos]);
}

/// What stands behind the end of a stream after an append is what was
/// appended.
pub proof fn lemma_decode_appended(s: Seq<u8>, c: CommandView, t: Seq<u8>)
    requires
        fits(c),
    ensures
        decode_at(s + record(c) + t, s.len() as int) == (Decoded::Record {
            cmd: c,
            end: (s.len() + record(c).len()) as int,
        }),
{
    let u = s + record(c) + t;
    assert(u.subrange(s.len() as int, (s.len() + record(c).len()) as int) =~= record(c));
    lemma_decode_record(u, s.len() as int, c);
}

impl Command {
    /// The payload of the record.
    fn payload(&self) -> (out: Vec<u8>)
        ensures
            out@ == payload_of(self@),
    {
        match self {
            Command::Bool(c) => {
                let mut out: Vec<u8> = Vec::new();
                out.push(if c.v { 1u8 } else { 0u8 });
                assert(out@ =~= payload_of(self@));
                out
            },
            Command::U8(c) => {
                let mut out: Vec<u8> = Vec::new();
                out.push(c.v);
                assert(out@ =~= payload_of(self@));
                out
            },
            Command::Tuple(c) => le_bytes(c.len as u64),
            Command::TupleElement(_) => Vec::new(),
            Command::TupleEnd(_) => Vec::new(),
            Command::Struct(c) => {
                let mut out = le_bytes(c.len as u64);
                extend(&mut out, c.name.as_slice());
                out
            },
            Command::StructField(c) => slice_to_vec(c.key.as_slice()),
            Command::StructEnd(_) => Vec::new(),
            Command::Stitch(s) => s.encode().to_bytes(),
            Command::Trailer(t) => t.to_bytes(),
        }
    }

    /// The bytes of the record.
    pub fn encode(&self) -> (out: Vec<u8>)
        ensures
            out@ == record(self@),
            fits(self@),
    {
        let payload = self.payload();
        let mut out: Vec<u8> = Vec::new();
        out.push(tag(self));
        let len = le_bytes(payload.len() as u64);
        extend(&mut out, len.as_slice());
        extend(&mut out, payload.as_slice());
        assert(out@ =~= record(self@));
        out
    }
}

/// The tag of a record.
fn tag(c: &Command) -> (t: u8)
    ensures
        t == tag_of(c@),
{
    match c {
        Command::Bool(_) => TAG_BOOL,
        Command::U8(_) => TAG_U8,
        Command::Tuple(_) => TAG_TUPLE,
        Command::TupleElement(_) => TAG_TUPLE_ELEMENT,
        Command::TupleEnd(_) => TAG_TUPLE_END,
        Command::Struct(_) => TAG_STRUCT,
        Command::StructField(_) => TAG_STRUCT_FIELD,
        Command::StructEnd(_) => TAG_STRUCT_END,
        Command::Stitch(_) => TAG_STITCH,
        Command::Trailer(_) => TAG_TRAILER,
    }
}

/// Reads an eight-byte length that must fit the machine's word.
fn parse_len(p: &[u8]) -> (res: Option<usize>)
    requires
        p@.len() == 8,
    ensures
        res is Some <==> spec_u64_from_le_bytes(p@) <= usize::MAX,
        res is Some ==> res->Some_0 == spec_u64_from_le_bytes(p@),
{
    assert(p@.subrange(0, 8) =~= p@);
    let n = le_value(p);
    if n > usize::MAX as u64 {
        None
    } else {
        Some(n as usize)
    }
}

/// Reads a payload under its tag; `None` where the two do not make a record.
fn parse(tag: u8, p: &[u8]) -> (res: Option<Command>)
    ensures
        res is Some <==> parse_payload(tag, p@) is Some,
        res is Some ==> res->Some_0@ == parse_payload(tag, p@)->Some_0,
{
    if tag == TAG_BOOL {
        if p.len() == 1 && p[0] <= 1 {
            Some(Command::Bool(SerializeBool { v: p[0] == 1 }))
        } else {
            None
        }
    } else if tag == TAG_U8 {
        if p.len() == 1 {
            Some(Command::U8(SerializeU8 { v: p[0] }))
        } else {
            None
        }
    } else if tag == TAG_TUPLE {
        if p.len() != 8 {
            return None;
        }
        match parse_len(p) {
            Some(len) => Some(Command::Tuple(SerializeTuple { len })),
            None => None,
        }
    } else if tag == TAG_TUPLE_ELEMENT {
        if p.len() == 0 {
            Some(Command::TupleElement(SerializeTupleElement))
        } else {
            None
        }
    } else if tag == TAG_TUPLE_END {
        if p.len() == 0 {
            Some(Command::TupleEnd(SerializeTupleEnd))
        } else {
            None
        }
    } else if tag == TAG_STRUCT {
        if p.len() < 8 {
            return None;
        }
        match parse_len(slice_subrange(p, 0, 8)) {
            Some(len) => {
                let name = slice_to_vec(slice_subrange(p, 8, p.len()));
                Some(Command::Struct(SerializeStruct { name, len }))
            },
            None => None,
        }
    } else if tag == TAG_STRUCT_FIELD {
        Some(Command::StructField(SerializeStructField { key: slice_to_vec(p) }))
    } else if tag == TAG_STRUCT_END {
        if p.len() == 0 {
            Some(Command::StructEnd(SerializeStructEnd))
        } else {
            None
        }
    } else if tag == TAG_STITCH {
        match FixedSizeStitch::from_bytes(p) {
            Some(text) => match text.decode() {
                Ok(s) => Some(Command::Stitch(s)),
                Err(_) => None,
            },
            None => None,
        }
    } else if tag == TAG_TRAILER {
        match Trailer::from_bytes(p) {
            Some(t) => Some(Command::Trailer(t)),
            None => None,
        }
    } else {
        None
    }
}

/// Reads the record at `pos` of `data`, and says where it ends.
///
/// Fails with `EndOfStream` where `pos` is exactly the end of `data`, and
/// with `Framing` where the bytes at `pos` are no well-formed record or `pos`
/// lies beyond the end.
pub fn decode_command(data: &[u8], pos: u64) -> (res: Result<(Command, u64), Error>)
    ensures
        match decode_at(data@, pos as int) {
            Decoded::Record { cmd, end } => res is Ok && res->Ok_0.0@ == cmd && res->Ok_0.1 == end,
            Decoded::EndOfStream => res == Err::<(Command, u64), Error>(
                Error { kind: ErrorKind::EndOfStream },
            ),
            Decoded::Malformed => res == Err::<(Command, u64), Error>(
                Error { kind: ErrorKind::Framing },
            ),
        },
{
    let total = data.len();
    if pos == total as u64 {
        return Err(Error { kind: ErrorKind::EndOfStream });
    }
    if pos > total as u64 {
        return Err(Error { kind: ErrorKind::Framing });
    }
    let at = pos as usize;
    if total - at < HEADER_LEN {
        return Err(Error { kind: ErrorKind::Framing });
    }
    let tag = data[at];
    let len_bytes = slice_subrange(data, at + 1, at + HEADER_LEN);
    assert(len_bytes@.subrange(0, 8) =~= len_bytes@);
    let n = le_value(len_bytes);
    if n > (total - at - HEADER_LEN) as u64 {
        return Err(Error { kind: ErrorKind::Framing });
    }
    let start = at + HEADER_LEN;
    let end = start + n as usize;
    match parse(tag, slice_subrange(data, start, end)) {
        Some(cmd) => Ok((cmd, end as u64)),
        None => Err(Error { kind: ErrorKind::Framing }),
    }
}

} // verus!
