//! The encoder: writes a value into the stream, record by record, and
//! appends only what has changed.

use crate::de::Deserializer;
use crate::error::Error;
use crate::error::ErrorKind;
use crate::error::ResultExt;
use crate::frame::lemma_decode_bounds;
use crate::frame::lemma_record_len;
use crate::frame::record;
use crate::log::read_slot;
use crate::meta::find_last_trailer;
use crate::meta::last_trailer;
use crate::meta::scan_back;
use crate::meta::Stitch;
use crate::meta::Trailer;
use crate::meta::MAGIC;
use crate::scmd::Command;
use crate::scmd::CommandView;
use crate::scmd::SerializeBool;
use crate::scmd::SerializeStruct;
use crate::scmd::SerializeStructEnd;
use crate::scmd::SerializeStructField;
use crate::scmd::SerializeTuple;
use crate::scmd::SerializeTupleElement;
use crate::scmd::SerializeTupleEnd;
use crate::scmd::SerializeU8;
use crate::session::Session;
use crate::session::Step;
use crate::state::overwritten;
use crate::state::Buffer;
use crate::state::State;
use vstd::prelude::*;
use vstd::slice::slice_to_vec;
use vstd::string::StringSliceAdditionalSpecFns;

verus! {

/// A write session over a stream.
pub struct Serializer {
    state: State,
    first_stitch_pos: u64,
    new_stitches: u64,
    last_trailer_pos: Option<u64>,
}

impl View for Serializer {
    type V = Session;

    closed spec fn view(&self) -> Session {
        Session {
            bytes: self.state.buf.bytes(),
            cursor: self.state.buf.cursor(),
            first_stitch_pos: self.first_stitch_pos as int,
            new_stitches: self.new_stitches as int,
            last_trailer_pos: self.last_trailer_pos,
        }
    }
}

impl Serializer {
    /// What holds of every encoder that this module hands out.
    pub open spec fn wf(&self) -> bool {
        self@.wf()
    }

    /// Opens a session over `buf`, ready to write at the start of its stream.
    pub fn new(buf: Buffer) -> (ser: Serializer)
        ensures
            ser.wf(),
            ser@ == Session::begin(buf.bytes()),
    {
        Serializer::from_state(State { buf })
    }

    /// Opens a session over the stream of `state`: looks for the latest
    /// commit and gets ready to write at the start.
    pub fn from_state(state: State) -> (ser: Serializer)
        ensures
            ser.wf(),
            ser@ == Session::begin(state.buf.bytes()),
    {
        let last_trailer_pos = match find_last_trailer(&state.buf) {
            Ok(Some((_, pos))) => Some(pos),
            _ => None,
        };
        proof {
            let bytes = state.buf.bytes();
            if bytes.len() == 0 {
                assert(scan_back(bytes, 1) is None);
                assert(last_trailer(bytes) is None);
            }
        }
        let mut state = state;
        let end_pos = state.buf.seek_end();
        state.buf.rewind();
        Serializer { state, first_stitch_pos: end_pos, new_stitches: 0, last_trailer_pos }
    }

    /// Ends the session and hands the stream over.
    pub fn to_state(self) -> (state: State)
        ensures
            state.buf.bytes() == self@.bytes,
            state.buf.cursor() == self@.cursor,
    {
        self.state
    }

    /// Ends the session and reads the stream from its start.
    pub fn to_de(self) -> (de: Deserializer)
        ensures
            de.bytes() == self@.bytes,
            de.cursor() == 0,
    {
        Deserializer::from_state(self.to_state())
    }

    /// Begins a new pass over what the stream holds: the cursor goes to the
    /// start, and the count of forwarding records starts again.
    pub fn reset(&mut self) -> (res: Result<(), Error>)
        requires
            old(self).wf(),
        ensures
            res is Ok,
            final(self).wf(),
            final(self)@ == old(self)@.reset(),
    {
        let end_pos = self.state.buf.seek_end();
        self.state.buf.rewind();
        self.first_stitch_pos = end_pos;
        self.new_stitches = 0;
        Ok(())
    }

    /// Where the next record of the value is compared or written.
    pub fn position(&self) -> (pos: u64)
        ensures
            pos == self@.cursor,
    {
        self.state.buf.position()
    }

    /// How many forwarding records the pass has written.
    pub fn new_stitches(&self) -> (n: u64)
        ensures
            n == self@.new_stitches,
    {
        self.new_stitches
    }

    /// Where the stream ended when the pass began.
    pub fn first_stitch_pos(&self) -> (pos: u64)
        ensures
            pos == self@.first_stitch_pos,
    {
        self.first_stitch_pos
    }

    /// Where the latest commit marker lies, if there is one.
    pub fn last_trailer_pos(&self) -> (pos: Option<u64>)
        ensures
            pos == self@.last_trailer_pos,
    {
        self.last_trailer_pos
    }

    /// Writes the bytes of `cmd` at the cursor.
    fn write(&mut self, cmd: &Command)
        ensures
            final(self)@ == (Session {
                bytes: overwritten(old(self)@.bytes, old(self)@.cursor, record(cmd@)),
                cursor: old(self)@.cursor + record(cmd@).len(),
                ..old(self)@
            }),
    {
        let bytes = cmd.encode();
        self.state.buf.write(bytes.as_slice());
    }

    /// Appends a forwarding record and `cmd` to the stream, and leaves the
    /// cursor at `bookmark_pos`.
    ///
    /// Room for the forwarding record is reserved first, with zeros in it;
    /// then `cmd` is appended; then the forwarding record is filled in where
    /// the room was reserved. The forwarding record takes the same room
    /// whatever it holds, so filling it in leaves `cmd` untouched.
    fn stitch(&mut self, cmd: &Command, old_pos: u64, bookmark_pos: u64) -> (res: Result<
        (),
        Error,
    >)
        requires
            old(self).wf(),
            old_pos <= old(self)@.bytes.len(),
            bookmark_pos <= old(self)@.bytes.len(),
            old(self)@.cursor < old(self)@.bytes.len(),
        ensures
            res is Ok,
            final(self).wf(),
            final(self)@ == (Session {
                bytes: old(self)@.bytes + record(
                    CommandView::Stitch(old(self)@.stitch(old_pos as int, bookmark_pos as int)),
                ) + record(cmd@),
                cursor: bookmark_pos as int,
                new_stitches: old(self)@.new_stitches + 1,
                ..old(self)@
            }),
            old(self)@.new_stitches == 0 ==> old(self)@.first_stitch_pos == old(self)@.bytes.len(),
    {
        let ghost before = self@;
        let stitch_pos = self.state.buf.seek_end();
        let placeholder = Command::Stitch(Stitch { old_pos: 0, new_pos: 0, next_stitch_pos: 0 });
        proof {
            lemma_record_len(placeholder@);
        }
        self.write(&placeholder);
        let new_pos = self.state.buf.position();
        self.write(cmd);
        let next_stitch_pos = bookmark_pos;
        match self.state.buf.seek(stitch_pos) {
            Ok(_) => {},
            Err(e) => {
                return Err(e);
            },
        }
        let stitch = Command::Stitch(Stitch { old_pos, new_pos, next_stitch_pos });
        proof {
            lemma_record_len(stitch@);
            lemma_record_len(cmd@);
        }
        self.write(&stitch);
        assert(self@.cursor == new_pos);
        match self.state.buf.seek(bookmark_pos) {
            Ok(_) => {},
            Err(e) => {
                return Err(e);
            },
        }
        self.new_stitches = self.new_stitches + 1;
        proof {
            self.state.buf.lemma_cursor_in_range();
        }
        assert(self@.bytes =~= before.bytes + record(stitch@) + record(cmd@));
        Ok(())
    }

    /// Writes one record of a value at the cursor: appends it at the end of
    /// the stream, leaves the stream alone where the slot says the same
    /// already, and appends a forwarding record and the new record where it
    /// says something else.
    fn emit(&mut self, cmd: &Command) -> (res: Result<(), Error>)
        requires
            old(self).wf(),
        ensures
            final(self).wf(),
            match old(self)@.emit(cmd@) {
                Step::Done(after) => res is Ok && final(self)@ == after,
                Step::Failed(kind) => res == Err::<(), Error>(Error { kind }) && final(self)@
                    == old(self)@,
            },
            old(self)@.first_stitch_in_place(final(self)@),
    {
        let old_pos = self.state.buf.position();
        let oldcmd = read_slot(self.state.buf.as_slice(), old_pos);
        if oldcmd.cmd_eof() {
            proof {
                lemma_record_len(cmd@);
            }
            self.write(cmd);
            proof {
                self.state.buf.lemma_cursor_in_range();
            }
            assert(self@.bytes =~= old(self)@.bytes + record(cmd@));
            return Ok(());
        }
        let (now, at, bookmark_pos) = match oldcmd {
            Ok(found) => found,
            Err(e) => {
                return Err(e);
            },
        };
        proof {
            lemma_decode_bounds(self@.bytes, old_pos as int);
        }
        if now.kind() != cmd.kind() {
            return Err(Error { kind: ErrorKind::UnsupportedShape });
        }
        if now.same(cmd) {
            return match self.state.buf.seek(bookmark_pos) {
                Ok(_) => Ok(()),
                Err(e) => Err(e),
            };
        }
        self.stitch(cmd, at, bookmark_pos)
    }

    /// Writes a boolean.
    pub fn serialize_bool(&mut self, v: bool) -> (res: Result<(), Error>)
        requires
            old(self).wf(),
        ensures
            final(self).wf(),
            old(self)@.emitted(CommandView::Bool { v }, res, final(self)@),
            old(self)@.first_stitch_in_place(final(self)@),
    {
        self.emit(&Command::Bool(SerializeBool { v }))
    }

    /// Writes a small unsigned integer.
    pub fn serialize_u8(&mut self, v: u8) -> (res: Result<(), Error>)
        requires
            old(self).wf(),
        ensures
            final(self).wf(),
            old(self)@.emitted(CommandView::U8 { n: v }, res, final(self)@),
            old(self)@.first_stitch_in_place(final(self)@),
    {
        self.emit(&Command::U8(SerializeU8 { v }))
    }

    /// Opens a tuple of `len` elements.
    pub fn serialize_tuple(&mut self, len: usize) -> (res: Result<(), Error>)
        requires
            old(self).wf(),
        ensures
            final(self).wf(),
            old(self)@.emitted(CommandView::Tuple { len }, res, final(self)@),
            old(self)@.first_stitch_in_place(final(self)@),
    {
        self.emit(&Command::Tuple(SerializeTuple { len }))
    }

    /// Announces the next element of a tuple. The element itself follows, in
    /// calls of its own.
    pub fn serialize_element(&mut self) -> (res: Result<(), Error>)
        requires
            old(self).wf(),
        ensures
            final(self).wf(),
            old(self)@.emitted(CommandView::TupleElement, res, final(self)@),
            old(self)@.first_stitch_in_place(final(self)@),
    {
        self.emit(&Command::TupleElement(SerializeTupleElement))
    }

    /// Closes a tuple.
    pub fn end(&mut self) -> (res: Result<(), Error>)
        requires
            old(self).wf(),
        ensures
            final(self).wf(),
            old(self)@.emitted(CommandView::TupleEnd, res, final(self)@),
            old(self)@.first_stitch_in_place(final(self)@),
    {
        self.emit(&Command::TupleEnd(SerializeTupleEnd))
    }

    /// Opens a struct called `name` with `len` fields.
    pub fn serialize_struct(&mut self, name: &str, len: usize) -> (res: Result<(), Error>)
        requires
            old(self).wf(),
        ensures
            final(self).wf(),
            old(self)@.emitted(
                CommandView::Struct { name: name.spec_bytes(), len },
                res,
                final(self)@,
            ),
            old(self)@.first_stitch_in_place(final(self)@),
    {
        let name = slice_to_vec(name.as_bytes());
        self.emit(&Command::Struct(SerializeStruct { name, len }))
    }

    /// Announces the field called `key` of a struct. The field's value
    /// follows, in calls of its own.
    pub fn serialize_field(&mut self, key: &str) -> (res: Result<(), Error>)
        requires
            old(self).wf(),
        ensures
            final(self).wf(),
            old(self)@.emitted(CommandView::StructField { key: key.spec_bytes() }, res, final(self)@),
            old(self)@.first_stitch_in_place(final(self)@),
    {
        let key = slice_to_vec(key.as_bytes());
        self.emit(&Command::StructField(SerializeStructField { key }))
    }

    /// Closes a struct.
    pub fn end_struct(&mut self) -> (res: Result<(), Error>)
        requires
            old(self).wf(),
        ensures
            final(self).wf(),
            old(self)@.emitted(CommandView::StructEnd, res, final(self)@),
            old(self)@.first_stitch_in_place(final(self)@),
    {
        self.emit(&Command::StructEnd(SerializeStructEnd))
    }

    /// Commits the pass. Where the pass wrote no forwarding record and an
    /// earlier commit exists, nothing is written. Otherwise a commit marker
    /// is appended that names the first forwarding record of the pass, if
    /// there is one, and the commit before it, if there is one; a new pass
    /// begins behind it.
    pub fn finalize(&mut self) -> (res: Result<(), Error>)
        requires
            old(self).wf(),
        ensures
            res is Ok,
            final(self).wf(),
            final(self)@ == old(self)@.finalize(),
    {
        if self.new_stitches == 0 {
            if self.last_trailer_pos.is_some() {
                return Ok(());
            }
        }
        let trailer_pos = self.state.buf.seek_end();
        let first_stitch = if self.new_stitches != 0 {
            Some(self.first_stitch_pos)
        } else {
            None
        };
        let trailer = Trailer { magic: MAGIC, first_stitch, prev_trailer_pos: self.last_trailer_pos };
        self.write(&Command::Trailer(trailer));
        self.last_trailer_pos = Some(trailer_pos);
        self.first_stitch_pos = self.state.buf.len();
        self.new_stitches = 0;
        assert(self@.bytes =~= old(self)@.bytes + record(CommandView::Trailer(trailer)));
        Ok(())
    }

    /// Finds the latest commit of the stream.
    ///
    /// An empty stream has none, which is no error; a stream that is not
    /// empty and has no commit marker within reach of its end fails with
    /// `NoTrailerFound`.
    pub fn recover(&self) -> (res: Result<Option<(Trailer, u64)>, Error>)
        ensures
            self@.bytes.len() == 0 ==> res == Ok::<Option<(Trailer, u64)>, Error>(None),
            self@.bytes.len() > 0 && last_trailer(self@.bytes) is None ==> res == Err::<
                Option<(Trailer, u64)>,
                Error,
            >(Error { kind: ErrorKind::NoTrailerFound }),
            self@.bytes.len() > 0 && last_trailer(self@.bytes) is Some ==> res is Ok && res->Ok_0
                is Some && res->Ok_0->Some_0.0 == last_trailer(self@.bytes)->Some_0.0
                && res->Ok_0->Some_0.1 == last_trailer(self@.bytes)->Some_0.1,
    {
        find_last_trailer(&self.state.buf)
    }

    /// The whole stream, to read.
    pub fn as_slice(&self) -> (data: &[u8])
        ensures
            data@ == self@.bytes,
    {
        self.state.buf.as_slice()
    }

    /// A copy of the whole stream. The session is left as it is.
    pub fn dump(&self) -> (res: Result<Vec<u8>, Error>)
        ensures
            res is Ok,
            res->Ok_0@ == self@.bytes,
    {
        Ok(slice_to_vec(self.state.buf.as_slice()))
    }
}

} // verus!
