//! The records that make up a value in the stream.

use crate::bytes::equal;
use crate::meta::Stitch;
use crate::meta::Trailer;
use vstd::prelude::*;
use vstd::slice::slice_to_vec;

verus! {

/// A boolean.
#[derive(Clone, Copy, Debug, PartialEq, Eq, Structural)]
pub struct SerializeBool {
    pub v: bool,
}

/// A small unsigned integer.
#[derive(Clone, Copy, Debug, PartialEq, Eq, Structural)]
pub struct SerializeU8 {
    pub v: u8,
}

/// Opens a tuple of `len` elements.
#[derive(Clone, Copy, Debug, PartialEq, Eq, Structural)]
pub struct SerializeTuple {
    pub len: usize,
}

/// Stands before each element of a tuple.
#[derive(Clone, Copy, Debug, PartialEq, Eq, Structural)]
pub struct SerializeTupleElement;

/// Closes a tuple.
#[derive(Clone, Copy, Debug, PartialEq, Eq, Structural)]
pub struct SerializeTupleEnd;

/// Opens a struct of `len` fields; `name` holds the struct's name in UTF-8.
#[derive(Debug, PartialEq, Eq)]
pub struct SerializeStruct {
    pub name: Vec<u8>,
    pub len: usize,
}

/// Stands before each field of a struct; `key` holds the field's name in
/// UTF-8.
#[derive(Debug, PartialEq, Eq)]
pub struct SerializeStructField {
    pub key: Vec<u8>,
}

/// Closes a struct.
#[derive(Clone, Copy, Debug, PartialEq, Eq, Structural)]
pub struct SerializeStructEnd;

/// One record of the stream.
#[derive(Debug, PartialEq, Eq)]
pub enum Command {
    Bool(SerializeBool),
    U8(SerializeU8),
    Tuple(SerializeTuple),
    TupleElement(SerializeTupleElement),
    TupleEnd(SerializeTupleEnd),
    Struct(SerializeStruct),
    StructField(SerializeStructField),
    StructEnd(SerializeStructEnd),
    Stitch(Stitch),
    Trailer(Trailer),
}

/// What a record says, with byte strings as sequences.
pub enum CommandView {
    Bool { v: bool },
    U8 { n: u8 },
    Tuple { len: usize },
    TupleElement,
    TupleEnd,
    Struct { name: Seq<u8>, len: usize },
    StructField { key: Seq<u8> },
    StructEnd,
    Stitch(Stitch),
    Trailer(Trailer),
}

/// The families of records. Two records of one family can stand for each
/// other in a value; records of different families cannot.
#[derive(Clone, Copy, Debug, PartialEq, Eq, Structural)]
pub enum Kind {
    Scalar,
    AggregateStart,
    FieldKey,
    ElementMarker,
    AggregateEnd,
    Stitch,
    Trailer,
}

impl CommandView {
    /// The family of the record.
    pub open spec fn kind(self) -> Kind {
        match self {
            CommandView::Bool { .. } => Kind::Scalar,
            CommandView::U8 { .. } => Kind::Scalar,
            CommandView::Tuple { .. } => Kind::AggregateStart,
            CommandView::Struct { .. } => Kind::AggregateStart,
            CommandView::StructField { .. } => Kind::FieldKey,
            CommandView::TupleElement => Kind::ElementMarker,
            CommandView::TupleEnd => Kind::AggregateEnd,
            CommandView::StructEnd => Kind::AggregateEnd,
            CommandView::Stitch(_) => Kind::Stitch,
            CommandView::Trailer(_) => Kind::Trailer,
        }
    }

    /// Whether the record is part of a value, rather than bookkeeping of the
    /// log.
    pub open spec fn is_value(self) -> bool {
        self.kind() != Kind::Stitch && self.kind() != Kind::Trailer
    }
}

impl View for Command {
    type V = CommandView;

    open spec fn view(&self) -> CommandView {
        match self {
            Command::Bool(c) => CommandView::Bool { v: c.v },
            Command::U8(c) => CommandView::U8 { n: c.v },
            Command::Tuple(c) => CommandView::Tuple { len: c.len },
            Command::TupleElement(_) => CommandView::TupleElement,
            Command::TupleEnd(_) => CommandView::TupleEnd,
            Command::Struct(c) => CommandView::Struct { name: c.name@, len: c.len },
            Command::StructField(c) => CommandView::StructField { key: c.key@ },
            Command::StructEnd(_) => CommandView::StructEnd,
            Command::Stitch(s) => CommandView::Stitch(*s),
            Command::Trailer(t) => CommandView::Trailer(*t),
        }
    }
}

impl Clone for SerializeStruct {
    fn clone(&self) -> (out: Self)
        ensures
            out.name@ == self.name@,
            out.len == self.len,
    {
        SerializeStruct { name: slice_to_vec(self.name.as_slice()), len: self.len }
    }
}

impl Clone for SerializeStructField {
    fn clone(&self) -> (out: Self)
        ensures
            out.key@ == self.key@,
    {
        SerializeStructField { key: slice_to_vec(self.key.as_slice()) }
    }
}

impl Clone for Command {
    fn clone(&self) -> (out: Self)
        ensures
            out@ == self@,
    {
        match self {
            Command::Bool(c) => Command::Bool(*c),
            Command::U8(c) => Command::U8(*c),
            Command::Tuple(c) => Command::Tuple(*c),
            Command::TupleElement(c) => Command::TupleElement(*c),
            Command::TupleEnd(c) => Command::TupleEnd(*c),
            Command::Struct(c) => Command::Struct(c.clone()),
            Command::StructField(c) => Command::StructField(c.clone()),
            Command::StructEnd(c) => Command::StructEnd(*c),
            Command::Stitch(s) => Command::Stitch(*s),
            Command::Trailer(t) => Command::Trailer(*t),
        }
    }
}

impl Command {
    /// The family of the record.
    pub fn kind(&self) -> (k: Kind)
        ensures
            k == self@.kind(),
    {
        match self {
            Command::Bool(_) => Kind::Scalar,
            Command::U8(_) => Kind::Scalar,
            Command::Tuple(_) => Kind::AggregateStart,
            Command::Struct(_) => Kind::AggregateStart,
            Command::StructField(_) => Kind::FieldKey,
            Command::TupleElement(_) => Kind::ElementMarker,
            Command::TupleEnd(_) => Kind::AggregateEnd,
            Command::StructEnd(_) => Kind::AggregateEnd,
            Command::Stitch(_) => Kind::Stitch,
            Command::Trailer(_) => Kind::Trailer,
        }
    }

    /// Whether two records say the same.
    pub fn same(&self, other: &Command) -> (b: bool)
        ensures
            b == (self@ == other@),
    {
        match (self, other) {
            (Command::Bool(a), Command::Bool(b)) => a.v == b.v,
            (Command::U8(a), Command::U8(b)) => a.v == b.v,
            (Command::Tuple(a), Command::Tuple(b)) => a.len == b.len,
            (Command::TupleElement(_), Command::TupleElement(_)) => true,
            (Command::TupleEnd(_), Command::TupleEnd(_)) => true,
            (Command::Struct(a), Command::Struct(b)) => a.len == b.len && equal(
                a.name.as_slice(),
                b.name.as_slice(),
            ),
            (Command::StructField(a), Command::StructField(b)) => equal(
                a.key.as_slice(),
                b.key.as_slice(),
            ),
            (Command::StructEnd(_), Command::StructEnd(_)) => true,
            (Command::Stitch(a), Command::Stitch(b)) => a.old_pos == b.old_pos && a.new_pos
                == b.new_pos && a.next_stitch_pos == b.next_stitch_pos,
            (Command::Trailer(a), Command::Trailer(b)) => a.magic == b.magic
                && option_equal(a.first_stitch, b.first_stitch) && option_equal(
                a.prev_trailer_pos,
                b.prev_trailer_pos,
            ),
            _ => false,
        }
    }
}

/// Whether two optional offsets are the same.
pub fn option_equal(a: Option<u64>, b: Option<u64>) -> (same: bool)
    ensures
        same == (a == b),
{
    match (a, b) {
        (None, None) => true,
        (Some(x), Some(y)) => x == y,
        _ => false,
    }
}

} // verus!
