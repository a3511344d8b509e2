//! The decoder: reads a value back, record by record, through the
//! forwarding records that later passes have appended.

use crate::bytes::equal;
use crate::error::Error;
use crate::error::ErrorKind;
use crate::frame::lemma_decode_bounds;
use crate::log::read_slot;
use crate::log::slot_at;
use crate::log::Slot;
use crate::scmd::Command;
use crate::scmd::CommandView;
use crate::ser::Serializer;
use crate::session::Session;
use crate::state::Buffer;
use crate::state::State;
use vstd::prelude::*;
use vstd::string::StringSliceAdditionalSpecFns;

verus! {

/// A read session over a stream.
pub struct Deserializer {
    state: State,
}

/// The elements of a tuple that are still to be read.
pub struct Access {
    len: usize,
}

/// The fields of a struct, of which the first `next` have been read.
pub struct FieldAccess<'a> {
    fields: &'a [&'a str],
    next: usize,
}

/// What the slot at `cursor` of `s` says, and where the next slot starts.
pub open spec fn next_record(s: Seq<u8>, cursor: int) -> Result<(CommandView, int), ErrorKind> {
    match slot_at(s, cursor) {
        Slot::Value { cmd, at: _, resume } => Ok((cmd, resume)),
        Slot::EndOfStream => Err(ErrorKind::EndOfStream),
        Slot::Malformed => Err(ErrorKind::Framing),
    }
}

/// The values that the next `n` slots from `cursor` say, one after the other,
/// if each of them can be read.
pub open spec fn next_records(s: Seq<u8>, cursor: int, n: nat) -> Option<Seq<CommandView>>
    decreases n,
{
    if n == 0 {
        Some(Seq::<CommandView>::empty())
    } else {
        match next_record(s, cursor) {
            Ok((cmd, resume)) => match next_records(s, resume, (n - 1) as nat) {
                Some(rest) => Some(seq![cmd] + rest),
                None => None,
            },
            Err(_) => None,
        }
    }
}

impl Deserializer {
    /// The stream.
    pub closed spec fn bytes(&self) -> Seq<u8> {
        self.state.buf.bytes()
    }

    /// Where the next slot is read.
    pub closed spec fn cursor(&self) -> int {
        self.state.buf.cursor()
    }

    /// Opens a session over `buf`, ready to read at the start of its stream.
    pub fn new(buf: Buffer) -> (de: Deserializer)
        ensures
            de.bytes() == buf.bytes(),
            de.cursor() == 0,
    {
        Deserializer::from_state(State { buf })
    }

    /// Opens a session over the stream of `state`, ready to read at its
    /// start.
    pub fn from_state(state: State) -> (de: Deserializer)
        ensures
            de.bytes() == state.buf.bytes(),
            de.cursor() == 0,
    {
        let mut state = state;
        state.buf.rewind();
        Deserializer { state }
    }

    /// Ends the session and hands the stream over.
    pub fn to_state(self) -> (state: State)
        ensures
            state.buf.bytes() == self.bytes(),
            state.buf.cursor() == self.cursor(),
    {
        self.state
    }

    /// Where the next slot is read.
    pub fn position(&self) -> (pos: u64)
        ensures
            pos == self.cursor(),
    {
        self.state.buf.position()
    }

    /// Ends the session and writes to the stream from its start.
    pub fn to_ser(self) -> (ser: Serializer)
        ensures
            ser.wf(),
            ser@ == Session::begin(self.bytes()),
    {
        Serializer::from_state(self.to_state())
    }

    /// Goes back to the start of the stream.
    pub fn reset(&mut self) -> (res: Result<(), Error>)
        ensures
            res is Ok,
            final(self).bytes() == old(self).bytes(),
            final(self).cursor() == 0,
    {
        self.state.buf.rewind();
        Ok(())
    }

    /// Reads the slot at the cursor without moving: what it says, and where
    /// the next slot starts.
    fn peek(&self) -> (res: Result<(Command, u64), Error>)
        ensures
            match next_record(self.bytes(), self.cursor()) {
                Ok((cmd, resume)) => res is Ok && res->Ok_0.0@ == cmd && res->Ok_0.1 == resume
                    && resume <= self.bytes().len(),
                Err(kind) => res == Err::<(Command, u64), Error>(Error { kind }),
            },
    {
        let pos = self.state.buf.position();
        match read_slot(self.state.buf.as_slice(), pos) {
            Ok((cmd, _, resume)) => {
                proof {
                    lemma_decode_bounds(self.bytes(), pos as int);
                }
                Ok((cmd, resume))
            },
            Err(e) => Err(e),
        }
    }

    /// Moves the cursor to the start of a slot.
    fn advance(&mut self, resume: u64) -> (res: Result<(), Error>)
        requires
            resume <= old(self).bytes().len(),
        ensures
            res is Ok,
            final(self).bytes() == old(self).bytes(),
            final(self).cursor() == resume,
    {
        match self.state.buf.seek(resume) {
            Ok(_) => Ok(()),
            Err(e) => Err(e),
        }
    }

    /// Reads the slot at the cursor, through the forwarding records that
    /// replace what was first written there, and moves to the next slot.
    ///
    /// Fails with `EndOfStream` at the end of the stream and with `Framing`
    /// where the slot cannot be read; the cursor then stays where it is.
    pub fn read(&mut self) -> (res: Result<Command, Error>)
        ensures
            final(self).bytes() == old(self).bytes(),
            match next_record(old(self).bytes(), old(self).cursor()) {
                Ok((cmd, resume)) => res is Ok && res->Ok_0@ == cmd && final(self).cursor()
                    == resume,
                Err(kind) => res == Err::<Command, Error>(Error { kind }) && final(self).cursor()
                    == old(self).cursor(),
            },
    {
        match self.peek() {
            Ok((cmd, resume)) => {
                match self.advance(resume) {
                    Ok(()) => Ok(cmd),
                    Err(e) => Err(e),
                }
            },
            Err(e) => Err(e),
        }
    }

    /// Reads a boolean. A slot that says anything else is a framing error.
    pub fn deserialize_bool(&mut self) -> (res: Result<bool, Error>)
        ensures
            final(self).bytes() == old(self).bytes(),
            match next_record(old(self).bytes(), old(self).cursor()) {
                Ok((CommandView::Bool { v }, resume)) => res == Ok::<bool, Error>(v) && final(self).cursor() == resume,
                Ok(_) => res == Err::<bool, Error>(Error { kind: ErrorKind::Framing }) && final(self).cursor() == old(self).cursor(),
                Err(kind) => res == Err::<bool, Error>(Error { kind }) && final(self).cursor()
                    == old(self).cursor(),
            },
    {
        match self.peek() {
            Ok((Command::Bool(cmd), resume)) => {
                match self.advance(resume) {
                    Ok(()) => Ok(cmd.v),
                    Err(e) => Err(e),
                }
            },
            Ok(_) => Err(Error { kind: ErrorKind::Framing }),
            Err(e) => Err(e),
        }
    }

    /// Reads a small unsigned integer. A slot that says anything else is a
    /// framing error.
    pub fn deserialize_u8(&mut self) -> (res: Result<u8, Error>)
        ensures
            final(self).bytes() == old(self).bytes(),
            match next_record(old(self).bytes(), old(self).cursor()) {
                Ok((CommandView::U8 { n }, resume)) => res == Ok::<u8, Error>(n) && final(self).cursor() == resume,
                Ok(_) => res == Err::<u8, Error>(Error { kind: ErrorKind::Framing }) && final(self).cursor() == old(self).cursor(),
                Err(kind) => res == Err::<u8, Error>(Error { kind }) && final(self).cursor()
                    == old(self).cursor(),
            },
    {
        match self.peek() {
            Ok((Command::U8(cmd), resume)) => {
                match self.advance(resume) {
                    Ok(()) => Ok(cmd.v),
                    Err(e) => Err(e),
                }
            },
            Ok(_) => Err(Error { kind: ErrorKind::Framing }),
            Err(e) => Err(e),
        }
    }

    /// Reads the opening of a tuple of `len` elements, and hands out the
    /// count of the elements that are to follow. A tuple of another length is
    /// an unsupported shape; a slot that opens no tuple is a framing error.
    pub fn deserialize_tuple(&mut self, len: usize) -> (res: Result<Access, Error>)
        ensures
            final(self).bytes() == old(self).bytes(),
            match next_record(old(self).bytes(), old(self).cursor()) {
                Ok((CommandView::Tuple { len: found }, resume)) => if found == len {
                    res is Ok && res->Ok_0.remaining() == len && final(self).cursor() == resume
                } else {
                    res is Err && res->Err_0.kind == ErrorKind::UnsupportedShape && final(self).cursor() == old(self).cursor()
                },
                Ok(_) => res is Err && res->Err_0.kind == ErrorKind::Framing && final(self).cursor() == old(self).cursor(),
                Err(kind) => res is Err && res->Err_0.kind == kind && final(self).cursor() == old(self).cursor(),
            },
    {
        match self.peek() {
            Ok((Command::Tuple(cmd), resume)) => {
                if cmd.len != len {
                    return Err(Error { kind: ErrorKind::UnsupportedShape });
                }
                match self.advance(resume) {
                    Ok(()) => Ok(Access { len }),
                    Err(e) => Err(e),
                }
            },
            Ok(_) => Err(Error { kind: ErrorKind::Framing }),
            Err(e) => Err(e),
        }
    }

    /// Reads the marker that stands before an element of a tuple.
    pub fn deserialize_element(&mut self) -> (res: Result<(), Error>)
        ensures
            final(self).bytes() == old(self).bytes(),
            match next_record(old(self).bytes(), old(self).cursor()) {
                Ok((CommandView::TupleElement, resume)) => res is Ok && final(self).cursor()
                    == resume,
                Ok(_) => res == Err::<(), Error>(Error { kind: ErrorKind::Framing }) && final(self).cursor() == old(self).cursor(),
                Err(kind) => res == Err::<(), Error>(Error { kind }) && final(self).cursor()
                    == old(self).cursor(),
            },
    {
        match self.peek() {
            Ok((Command::TupleElement(_), resume)) => {
                match self.advance(resume) {
                    Ok(()) => Ok(()),
                    Err(e) => Err(e),
                }
            },
            Ok(_) => Err(Error { kind: ErrorKind::Framing }),
            Err(e) => Err(e),
        }
    }

    /// Reads the closing of a tuple.
    pub fn deserialize_tuple_end(&mut self) -> (res: Result<(), Error>)
        ensures
            final(self).bytes() == old(self).bytes(),
            match next_record(old(self).bytes(), old(self).cursor()) {
                Ok((CommandView::TupleEnd, resume)) => res is Ok && final(self).cursor() == resume,
                Ok(_) => res == Err::<(), Error>(Error { kind: ErrorKind::Framing }) && final(self).cursor() == old(self).cursor(),
                Err(kind) => res == Err::<(), Error>(Error { kind }) && final(self).cursor()
                    == old(self).cursor(),
            },
    {
        match self.peek() {
            Ok((Command::TupleEnd(_), resume)) => {
                match self.advance(resume) {
                    Ok(()) => Ok(()),
                    Err(e) => Err(e),
                }
            },
            Ok(_) => Err(Error { kind: ErrorKind::Framing }),
            Err(e) => Err(e),
        }
    }

    /// Reads the opening of the struct called `name` with the fields
    /// `fields`, and hands out the fields that are to follow. A struct of
    /// another name or with another number of fields is an unsupported shape;
    /// a slot that opens no struct is a framing error.
    pub fn deserialize_struct<'a>(&mut self, name: &str, fields: &'a [&'a str]) -> (res: Result<
        FieldAccess<'a>,
        Error,
    >)
        ensures
            final(self).bytes() == old(self).bytes(),
            match next_record(old(self).bytes(), old(self).cursor()) {
                Ok((CommandView::Struct { name: found_name, len: found_len }, resume)) => if found_name
                    == name.spec_bytes() && found_len == fields@.len() {
                    res is Ok && res->Ok_0.fields() == fields@ && res->Ok_0.done() == 0 && final(self).cursor() == resume
                } else {
                    res is Err && res->Err_0.kind == ErrorKind::UnsupportedShape && final(self).cursor() == old(self).cursor()
                },
                Ok(_) => res is Err && res->Err_0.kind == ErrorKind::Framing && final(self).cursor() == old(self).cursor(),
                Err(kind) => res is Err && res->Err_0.kind == kind && final(self).cursor() == old(self).cursor(),
            },
    {
        match self.peek() {
            Ok((Command::Struct(cmd), resume)) => {
                if cmd.len != fields.len() || !equal(cmd.name.as_slice(), name.as_bytes()) {
                    return Err(Error { kind: ErrorKind::UnsupportedShape });
                }
                match self.advance(resume) {
                    Ok(()) => Ok(FieldAccess { fields, next: 0 }),
                    Err(e) => Err(e),
                }
            },
            Ok(_) => Err(Error { kind: ErrorKind::Framing }),
            Err(e) => Err(e),
        }
    }

    /// Reads the marker that stands before the field called `key` of a
    /// struct. The marker of another field is an unsupported shape; a slot
    /// that holds no such marker is a framing error.
    pub fn deserialize_field(&mut self, key: &str) -> (res: Result<(), Error>)
        ensures
            final(self).bytes() == old(self).bytes(),
            match next_record(old(self).bytes(), old(self).cursor()) {
                Ok((CommandView::StructField { key: found }, resume)) => if found
                    == key.spec_bytes() {
                    res is Ok && final(self).cursor() == resume
                } else {
                    res == Err::<(), Error>(Error { kind: ErrorKind::UnsupportedShape }) && final(self).cursor() == old(self).cursor()
                },
                Ok(_) => res == Err::<(), Error>(Error { kind: ErrorKind::Framing }) && final(self).cursor() == old(self).cursor(),
                Err(kind) => res == Err::<(), Error>(Error { kind }) && final(self).cursor()
                    == old(self).cursor(),
            },
    {
        match self.peek() {
            Ok((Command::StructField(cmd), resume)) => {
                if !equal(cmd.key.as_slice(), key.as_bytes()) {
                    return Err(Error { kind: ErrorKind::UnsupportedShape });
                }
                match self.advance(resume) {
                    Ok(()) => Ok(()),
                    Err(e) => Err(e),
                }
            },
            Ok(_) => Err(Error { kind: ErrorKind::Framing }),
            Err(e) => Err(e),
        }
    }

    /// Reads the closing of a struct.
    pub fn deserialize_struct_end(&mut self) -> (res: Result<(), Error>)
        ensures
            final(self).bytes() == old(self).bytes(),
            match next_record(old(self).bytes(), old(self).cursor()) {
                Ok((CommandView::StructEnd, resume)) => res is Ok && final(self).cursor()
                    == resume,
                Ok(_) => res == Err::<(), Error>(Error { kind: ErrorKind::Framing }) && final(self).cursor() == old(self).cursor(),
                Err(kind) => res == Err::<(), Error>(Error { kind }) && final(self).cursor()
                    == old(self).cursor(),
            },
    {
        match self.peek() {
            Ok((Command::StructEnd(_), resume)) => {
                match self.advance(resume) {
                    Ok(()) => Ok(()),
                    Err(e) => Err(e),
                }
            },
            Ok(_) => Err(Error { kind: ErrorKind::Framing }),
            Err(e) => Err(e),
        }
    }
}

impl<'a> FieldAccess<'a> {
    /// The names of the fields, in order.
    pub closed spec fn fields(&self) -> Seq<&'a str> {
        self.fields@
    }

    /// How many fields have been read.
    pub closed spec fn done(&self) -> nat {
        self.next as nat
    }

    /// How many fields are still to be read.
    pub fn size_hint(&self) -> (hint: Option<usize>)
        ensures
            self.done() <= self.fields().len() ==> hint == Some(
                (self.fields().len() - self.done()) as usize,
            ),
            self.done() > self.fields().len() ==> hint == Some(0usize),
    {
        if self.next <= self.fields.len() {
            Some(self.fields.len() - self.next)
        } else {
            Some(0)
        }
    }

    /// Steps to the next field of the struct. While fields remain, reads the
    /// marker that stands before the next one, which must name it, and
    /// answers `true`: the field's value is then read by calls of its own.
    /// When none remains, reads the closing of the struct and answers
    /// `false`. On an error nothing moves.
    pub fn next_field(&mut self, de: &mut Deserializer) -> (res: Result<bool, Error>)
        ensures
            final(de).bytes() == old(de).bytes(),
            final(self).fields() == old(self).fields(),
            res is Err ==> final(de).cursor() == old(de).cursor() && final(self).done() == old(self).done(),
            match next_record(old(de).bytes(), old(de).cursor()) {
                Ok((cmd, resume)) => if old(self).done() < old(self).fields().len() {
                    match cmd {
                        CommandView::StructField { key } => if key == old(self).fields()[old(self).done() as int].spec_bytes() {
                            res == Ok::<bool, Error>(true) && final(de).cursor() == resume && final(self).done() == old(self).done() + 1
                        } else {
                            res == Err::<bool, Error>(Error { kind: ErrorKind::UnsupportedShape })
                        },
                        _ => res == Err::<bool, Error>(Error { kind: ErrorKind::Framing }),
                    }
                } else if cmd is StructEnd {
                    res == Ok::<bool, Error>(false) && final(de).cursor() == resume && final(self).done() == old(self).done()
                } else {
                    res == Err::<bool, Error>(Error { kind: ErrorKind::Framing })
                },
                Err(kind) => res == Err::<bool, Error>(Error { kind }),
            },
    {
        if self.next < self.fields.len() {
            match de.deserialize_field(self.fields[self.next]) {
                Ok(()) => {
                    self.next = self.next + 1;
                    Ok(true)
                },
                Err(e) => Err(e),
            }
        } else {
            match de.deserialize_struct_end() {
                Ok(()) => Ok(false),
                Err(e) => Err(e),
            }
        }
    }
}

impl Access {
    /// How many elements are still to be read.
    pub closed spec fn remaining(&self) -> nat {
        self.len as nat
    }

    /// How many elements are still to be read.
    pub fn size_hint(&self) -> (hint: Option<usize>)
        ensures
            hint == Some(self.remaining() as usize),
    {
        Some(self.len)
    }

    /// Steps to the next element of the tuple. While elements remain, reads
    /// the marker that stands before the next one and answers `true`: the
    /// element itself is then read by calls of its own. When none remains,
    /// reads the closing of the tuple and answers `false`. On an error
    /// nothing moves.
    pub fn next_element(&mut self, de: &mut Deserializer) -> (res: Result<bool, Error>)
        ensures
            final(de).bytes() == old(de).bytes(),
            match next_record(old(de).bytes(), old(de).cursor()) {
                Ok((cmd, resume)) => if old(self).remaining() > 0 && cmd is TupleElement {
                    res == Ok::<bool, Error>(true) && final(de).cursor() == resume && final(self).remaining() == old(self).remaining() - 1
                } else if old(self).remaining() == 0 && cmd is TupleEnd {
                    res == Ok::<bool, Error>(false) && final(de).cursor() == resume && final(self).remaining() == 0
                } else {
                    res == Err::<bool, Error>(Error { kind: ErrorKind::Framing }) && final(de).cursor() == old(de).cursor() && final(self).remaining() == old(self).remaining()
                },
                Err(kind) => res == Err::<bool, Error>(Error { kind }) && final(de).cursor()
                    == old(de).cursor() && final(self).remaining() == old(self).remaining(),
            },
    {
        if self.len > 0 {
            match de.deserialize_element() {
                Ok(()) => {
                    self.len = self.len - 1;
                    Ok(true)
                },
                Err(e) => Err(e),
            }
        } else {
            match de.deserialize_tuple_end() {
                Ok(()) => Ok(false),
                Err(e) => Err(e),
            }
        }
    }
}

} // verus!
