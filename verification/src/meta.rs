//! Forwarding records and commit markers.

use crate::bytes::extend;
use crate::error::Error;
use crate::error::ErrorKind;
use crate::fixed::decode_offset;
use crate::fixed::encode_offset;
use crate::fixed::is_offset_text;
use crate::fixed::lemma_offset_round_trip;
use crate::fixed::offset_text;
use crate::fixed::offset_value;
use crate::fixed::OFFSET_TEXT_LEN;
use crate::frame::decode_at;
use crate::frame::decode_command;
use crate::frame::Decoded;
use crate::scmd::Command;
use crate::scmd::CommandView;
use crate::state::Buffer;
use vstd::prelude::*;
use vstd::slice::slice_subrange;
use vstd::slice::slice_to_vec;

verus! {

/// Marks a genuine commit marker.
pub const MAGIC: u64 = 0x84124f4c417733f8;

/// Bytes that a forwarding record's three offsets take.
pub const STITCH_TEXT_LEN: usize = 48;

/// Bytes that one optional offset takes: a flag and an offset.
pub const OPTION_TEXT_LEN: usize = 17;

/// Bytes that a commit marker's fields take.
pub const TRAILER_TEXT_LEN: usize = 50;

/// How many positions, counted back from the end of the stream, are tried
/// for a commit marker.
pub const RECOVERY_WINDOW: u64 = 1000;

/// A forwarding record: the record at `old_pos` is replaced by the one at
/// `new_pos`, which lies directly behind the forwarding record, and reading
/// goes on at `next_stitch_pos`, where the next slot of the value starts.
#[derive(Clone, Copy, Debug, PartialEq, Eq, Structural)]
pub struct Stitch {
    pub old_pos: u64,
    pub new_pos: u64,
    pub next_stitch_pos: u64,
}

/// A forwarding record with each offset in its fixed-width text form.
#[derive(Debug)]
pub struct FixedSizeStitch {
    old_pos: Vec<u8>,
    new_pos: Vec<u8>,
    next_stitch_pos: Vec<u8>,
}

/// Closes one write session and points back at the one before it.
#[derive(Clone, Copy, Debug, PartialEq, Eq, Structural)]
pub struct Trailer {
    pub magic: u64,
    pub first_stitch: Option<u64>,
    pub prev_trailer_pos: Option<u64>,
}

/// The three offsets of a forwarding record, one text after the other.
pub open spec fn stitch_text(s: Stitch) -> Seq<u8> {
    offset_text(s.old_pos) + offset_text(s.new_pos) + offset_text(s.next_stitch_pos)
}

/// The forwarding record that `text` stands for, if it is one.
pub open spec fn parse_stitch_text(text: Seq<u8>) -> Option<Stitch> {
    if text.len() == STITCH_TEXT_LEN && is_offset_text(text.subrange(0, 16)) && is_offset_text(
        text.subrange(16, 32),
    ) && is_offset_text(text.subrange(32, 48)) {
        Some(
            Stitch {
                old_pos: offset_value(text.subrange(0, 16)),
                new_pos: offset_value(text.subrange(16, 32)),
                next_stitch_pos: offset_value(text.subrange(32, 48)),
            },
        )
    } else {
        None
    }
}

/// An optional offset: a flag byte, then an offset that is zero when absent.
pub open spec fn option_text(v: Option<u64>) -> Seq<u8> {
    match v {
        None => seq![0u8] + offset_text(0),
        Some(n) => seq![1u8] + offset_text(n),
    }
}

/// The optional offset that `text` stands for, if it is one.
pub open spec fn parse_option_text(text: Seq<u8>) -> Option<Option<u64>> {
    if text.len() == OPTION_TEXT_LEN && is_offset_text(text.subrange(1, 17)) {
        if text[0] == 0 {
            Some(None)
        } else if text[0] == 1 {
            Some(Some(offset_value(text.subrange(1, 17))))
        } else {
            None
        }
    } else {
        None
    }
}

/// The fields of a commit marker, one after the other.
pub open spec fn trailer_text(t: Trailer) -> Seq<u8> {
    offset_text(t.magic) + option_text(t.first_stitch) + option_text(t.prev_trailer_pos)
}

/// The commit marker that `text` stands for, if it is one.
pub open spec fn parse_trailer_text(text: Seq<u8>) -> Option<Trailer> {
    if text.len() == TRAILER_TEXT_LEN && is_offset_text(text.subrange(0, 16)) && parse_option_text(
        text.subrange(16, 33),
    ) is Some && parse_option_text(text.subrange(33, 50)) is Some {
        Some(
            Trailer {
                magic: offset_value(text.subrange(0, 16)),
                first_stitch: parse_option_text(text.subrange(16, 33)).unwrap(),
                prev_trailer_pos: parse_option_text(text.subrange(33, 50)).unwrap(),
            },
        )
    } else {
        None
    }
}

/// The text of a forwarding record reads back as that record.
pub proof fn lemma_stitch_text_round_trip(s: Stitch)
    ensures
        stitch_text(s).len() == STITCH_TEXT_LEN,
        parse_stitch_text(stitch_text(s)) == Some(s),
{
    lemma_offset_round_trip(s.old_pos);
    lemma_offset_round_trip(s.new_pos);
    lemma_offset_round_trip(s.next_stitch_pos);
    let text = stitch_text(s);
    assert(text.subrange(0, 16) =~= offset_text(s.old_pos));
    assert(text.subrange(16, 32) =~= offset_text(s.new_pos));
    assert(text.subrange(32, 48) =~= offset_text(s.next_stitch_pos));
}

/// The text of an optional offset reads back as that value.
pub proof fn lemma_option_text_round_trip(v: Option<u64>)
    ensures
        option_text(v).len() == OPTION_TEXT_LEN,
        parse_option_text(option_text(v)) == Some(v),
{
    let text = option_text(v);
    match v {
        None => {
            lemma_offset_round_trip(0);
            assert(text.subrange(1, 17) =~= offset_text(0));
        },
        Some(n) => {
            lemma_offset_round_trip(n);
            assert(text.subrange(1, 17) =~= offset_text(n));
        },
    }
}

/// The text of a commit marker reads back as that marker.
pub proof fn lemma_trailer_text_round_trip(t: Trailer)
    ensures
        trailer_text(t).len() == TRAILER_TEXT_LEN,
        parse_trailer_text(trailer_text(t)) == Some(t),
{
    lemma_offset_round_trip(t.magic);
    lemma_option_text_round_trip(t.first_stitch);
    lemma_option_text_round_trip(t.prev_trailer_pos);
    let text = trailer_text(t);
    assert(text.subrange(0, 16) =~= offset_text(t.magic));
    assert(text.subrange(16, 33) =~= option_text(t.first_stitch));
    assert(text.subrange(33, 50) =~= option_text(t.prev_trailer_pos));
}

impl Stitch {
    /// Writes each offset in its fixed-width text form.
    pub fn encode(self) -> (text: FixedSizeStitch)
        ensures
            text.old_pos() == offset_text(self.old_pos),
            text.new_pos() == offset_text(self.new_pos),
            text.next_stitch_pos() == offset_text(self.next_stitch_pos),
            text.bytes() == stitch_text(self),
    {
        let old_pos = encode_offset(self.old_pos);
        let new_pos = encode_offset(self.new_pos);
        let next_stitch_pos = encode_offset(self.next_stitch_pos);
        FixedSizeStitch { old_pos, new_pos, next_stitch_pos }
    }
}

impl FixedSizeStitch {
    /// The text of the replaced position.
    pub closed spec fn old_pos(&self) -> Seq<u8> {
        self.old_pos@
    }

    /// The text of the replacement's position.
    pub closed spec fn new_pos(&self) -> Seq<u8> {
        self.new_pos@
    }

    /// The text of the position at which reading goes on.
    pub closed spec fn next_stitch_pos(&self) -> Seq<u8> {
        self.next_stitch_pos@
    }

    /// The three texts, one after the other.
    pub open spec fn bytes(&self) -> Seq<u8> {
        self.old_pos() + self.new_pos() + self.next_stitch_pos()
    }

    /// Whether each of the three texts stands for an offset.
    pub open spec fn well_formed(&self) -> bool {
        &&& is_offset_text(self.old_pos())
        &&& is_offset_text(self.new_pos())
        &&& is_offset_text(self.next_stitch_pos())
    }

    /// Reads the three offsets back. Fails with a framing error unless each
    /// text is sixteen hexadecimal digits.
    pub fn decode(self) -> (res: Result<Stitch, Error>)
        ensures
            res is Ok <==> self.well_formed(),
            res is Ok ==> res->Ok_0 == (Stitch {
                old_pos: offset_value(self.old_pos()),
                new_pos: offset_value(self.new_pos()),
                next_stitch_pos: offset_value(self.next_stitch_pos()),
            }),
            res is Err ==> res->Err_0.kind == ErrorKind::Framing,
    {
        let old_pos = match decode_offset(self.old_pos.as_slice()) {
            Ok(n) => n,
            Err(e) => {
                return Err(e);
            },
        };
        let new_pos = match decode_offset(self.new_pos.as_slice()) {
            Ok(n) => n,
            Err(e) => {
                return Err(e);
            },
        };
        let next_stitch_pos = match decode_offset(self.next_stitch_pos.as_slice()) {
            Ok(n) => n,
            Err(e) => {
                return Err(e);
            },
        };
        Ok(Stitch { old_pos, new_pos, next_stitch_pos })
    }

    /// The three texts in one run of bytes.
    pub fn to_bytes(&self) -> (out: Vec<u8>)
        ensures
            out@ == self.bytes(),
    {
        let mut out: Vec<u8> = Vec::new();
        extend(&mut out, self.old_pos.as_slice());
        extend(&mut out, self.new_pos.as_slice());
        extend(&mut out, self.next_stitch_pos.as_slice());
        assert(out@ =~= self.bytes());
        out
    }

    /// Cuts a run of forty-eight bytes into three texts; `None` on any other
    /// length.
    pub fn from_bytes(text: &[u8]) -> (res: Option<FixedSizeStitch>)
        ensures
            res is Some <==> text@.len() == STITCH_TEXT_LEN,
            res is Some ==> res->Some_0.old_pos() == text@.subrange(0, 16),
            res is Some ==> res->Some_0.new_pos() == text@.subrange(16, 32),
            res is Some ==> res->Some_0.next_stitch_pos() == text@.subrange(32, 48),
    {
        if text.len() != STITCH_TEXT_LEN {
            return None;
        }
        let old_pos = slice_to_vec(slice_subrange(text, 0, OFFSET_TEXT_LEN));
        let new_pos = slice_to_vec(slice_subrange(text, OFFSET_TEXT_LEN, 2 * OFFSET_TEXT_LEN));
        let next_stitch_pos = slice_to_vec(
            slice_subrange(text, 2 * OFFSET_TEXT_LEN, 3 * OFFSET_TEXT_LEN),
        );
        Some(FixedSizeStitch { old_pos, new_pos, next_stitch_pos })
    }
}

/// Writes an optional offset.
fn encode_option(v: Option<u64>) -> (out: Vec<u8>)
    ensures
        out@ == option_text(v),
{
    let mut out: Vec<u8> = Vec::new();
    match v {
        None => {
            out.push(0u8);
            let digits = encode_offset(0);
            extend(&mut out, digits.as_slice());
        },
        Some(n) => {
            out.push(1u8);
            let digits = encode_offset(n);
            extend(&mut out, digits.as_slice());
        },
    }
    assert(out@ =~= option_text(v));
    out
}

/// Reads an optional offset; the outer `None` when `text` is not one.
fn decode_option(text: &[u8]) -> (res: Option<Option<u64>>)
    ensures
        res == parse_option_text(text@),
{
    if text.len() != OPTION_TEXT_LEN {
        return None;
    }
    let digits = slice_subrange(text, 1, OPTION_TEXT_LEN);
    match decode_offset(digits) {
        Err(_) => None,
        Ok(n) => {
            let flag = text[0];
            if flag == 0 {
                Some(None)
            } else if flag == 1 {
                Some(Some(n))
            } else {
                None
            }
        },
    }
}

impl Trailer {
    /// The fields in their fixed-width form.
    pub fn to_bytes(&self) -> (out: Vec<u8>)
        ensures
            out@ == trailer_text(*self),
    {
        let mut out = encode_offset(self.magic);
        let first = encode_option(self.first_stitch);
        let prev = encode_option(self.prev_trailer_pos);
        extend(&mut out, first.as_slice());
        extend(&mut out, prev.as_slice());
        assert(out@ =~= trailer_text(*self));
        out
    }

    /// Reads the fields back; `None` when `text` is not a commit marker's.
    pub fn from_bytes(text: &[u8]) -> (res: Option<Trailer>)
        ensures
            res == parse_trailer_text(text@),
    {
        if text.len() != TRAILER_TEXT_LEN {
            return None;
        }
        let magic = match decode_offset(slice_subrange(text, 0, 16)) {
            Ok(n) => n,
            Err(_) => {
                return None;
            },
        };
        let first_stitch = match decode_option(slice_subrange(text, 16, 33)) {
            Some(v) => v,
            None => {
                return None;
            },
        };
        let prev_trailer_pos = match decode_option(slice_subrange(text, 33, 50)) {
            Some(v) => v,
            None => {
                return None;
            },
        };
        Some(Trailer { magic, first_stitch, prev_trailer_pos })
    }
}

/// The genuine commit marker that starts at `pos`, if one does.
pub open spec fn trailer_at(s: Seq<u8>, pos: int) -> Option<Trailer> {
    match decode_at(s, pos) {
        Decoded::Record { cmd: CommandView::Trailer(t), end: _ } => {
            if t.magic == MAGIC {
                Some(t)
            } else {
                None
            }
        },
        _ => None,
    }
}

/// The commit marker nearest to the end of the stream, trying the positions
/// `i`, `i + 1`, ... before the end, as far as the window and the stream
/// reach.
pub open spec fn scan_back(s: Seq<u8>, i: int) -> Option<(Trailer, int)>
    decreases RECOVERY_WINDOW - i,
{
    if i < 0 || i >= RECOVERY_WINDOW || i > s.len() {
        None
    } else {
        match trailer_at(s, s.len() - i) {
            Some(t) => Some((t, s.len() - i)),
            None => scan_back(s, i + 1),
        }
    }
}

/// The latest commit: the commit marker nearest to the end of the stream,
/// with its position, if one starts within the window.
pub open spec fn last_trailer(s: Seq<u8>) -> Option<(Trailer, int)> {
    scan_back(s, 0)
}

/// Finds the latest commit of the stream in `buf`.
///
/// An empty stream has none, which is no error. In a stream that is not
/// empty, the positions before its end are tried from the end backwards, as
/// far as the window reaches, and the first that holds a commit marker with
/// the right magic number is the answer. Where none does, the call fails with
/// `NoTrailerFound`.
pub fn find_last_trailer(buf: &Buffer) -> (res: Result<Option<(Trailer, u64)>, Error>)
    ensures
        buf.bytes().len() == 0 ==> res == Ok::<Option<(Trailer, u64)>, Error>(None),
        buf.bytes().len() > 0 && last_trailer(buf.bytes()) is None ==> res == Err::<
            Option<(Trailer, u64)>,
            Error,
        >(Error { kind: ErrorKind::NoTrailerFound }),
        buf.bytes().len() > 0 && last_trailer(buf.bytes()) is Some ==> res is Ok && res->Ok_0
            is Some && res->Ok_0->Some_0.0 == last_trailer(buf.bytes())->Some_0.0
            && res->Ok_0->Some_0.1 == last_trailer(buf.bytes())->Some_0.1,
{
    let data = buf.as_slice();
    let len = buf.len();
    if len == 0 {
        return Ok(None);
    }
    let mut i: u64 = 0;
    while i < RECOVERY_WINDOW && i <= len
        invariant
            data@ == buf.bytes(),
            len == data@.len(),
            0 <= i <= RECOVERY_WINDOW,
            scan_back(data@, i as int) == last_trailer(data@),
        decreases RECOVERY_WINDOW - i,
    {
        let pos = len - i;
        match decode_command(data, pos) {
            Ok((Command::Trailer(t), _)) => {
                if t.magic == MAGIC {
                    return Ok(Some((t, pos)));
                }
            },
            _ => {},
        }
        i = i + 1;
    }
    Err(Error { kind: ErrorKind::NoTrailerFound })
}

} // verus!
