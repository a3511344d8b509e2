//! What a write session is, as plain mathematics.
//!
//! The executable encoder is specified against this model: every step of an
//! encoder takes the model of its state to the model that the same step
//! gives here.

use crate::error::Error;
use crate::error::ErrorKind;
use crate::frame::record;
use crate::frame::STITCH_RECORD_LEN;
use crate::log::slot_at;
use crate::log::Slot;
use crate::meta::last_trailer;
use crate::meta::Stitch;
use crate::meta::Trailer;
use crate::meta::MAGIC;
use crate::scmd::CommandView;
use vstd::prelude::*;

verus! {

/// The state of a write session.
pub struct Session {
    /// The stream.
    pub bytes: Seq<u8>,
    /// Where the next record of the value is compared or written.
    pub cursor: int,
    /// Where the stream ended when the pass began.
    pub first_stitch_pos: int,
    /// How many forwarding records the pass has written.
    pub new_stitches: int,
    /// Where the latest commit marker lies, if there is one.
    pub last_trailer_pos: Option<u64>,
}

/// How a step of a session ends.
pub enum Step {
    /// The step was taken, and this is the state after it.
    Done(Session),
    /// The step was refused, and the state is as it was.
    Failed(ErrorKind),
}

impl Session {
    /// What holds of the state of every session.
    ///
    /// The last clause is why the first forwarding record of a pass lies
    /// exactly where the stream ended when the pass began: until then the
    /// stream can only have grown by records appended at its end, and after
    /// such an append the cursor is at the end, where nothing can differ.
    pub open spec fn wf(self) -> bool {
        &&& 0 <= self.cursor <= self.bytes.len()
        &&& self.bytes.len() <= u64::MAX
        &&& 0 <= self.new_stitches
        &&& 0 <= self.first_stitch_pos
        &&& self.first_stitch_pos + self.new_stitches <= self.bytes.len()
        &&& self.new_stitches == 0 ==> self.first_stitch_pos == self.bytes.len() || self.cursor
            == self.bytes.len()
    }

    /// A session over `bytes` that begins a pass at the start of the stream.
    pub open spec fn begin(bytes: Seq<u8>) -> Session {
        Session {
            bytes,
            cursor: 0,
            first_stitch_pos: bytes.len() as int,
            new_stitches: 0,
            last_trailer_pos: match last_trailer(bytes) {
                Some((_, pos)) => Some(pos as u64),
                None => None,
            },
        }
    }

    /// The session after it has begun a new pass.
    pub open spec fn reset(self) -> Session {
        Session {
            cursor: 0,
            first_stitch_pos: self.bytes.len() as int,
            new_stitches: 0,
            ..self
        }
    }

    /// The forwarding record that replaces the record at `at` of a slot
    /// whose successor starts at `resume`, when it is written at the end of
    /// the stream.
    pub open spec fn stitch(self, at: int, resume: int) -> Stitch {
        Stitch {
            old_pos: at as u64,
            new_pos: (self.bytes.len() + STITCH_RECORD_LEN) as u64,
            next_stitch_pos: resume as u64,
        }
    }

    /// Writes one record of a value at the cursor.
    ///
    /// At the end of the stream the record is appended. Where the slot at the
    /// cursor says the same already, nothing is written. Where it says
    /// something else of the same family, a forwarding record and the new
    /// record are appended. In each of these cases the cursor moves to the
    /// next slot. A slot that cannot be read, or that holds a record of
    /// another family, refuses the step.
    pub open spec fn emit(self, c: CommandView) -> Step {
        match slot_at(self.bytes, self.cursor) {
            Slot::EndOfStream => Step::Done(
                Session {
                    bytes: self.bytes + record(c),
                    cursor: (self.bytes.len() + record(c).len()) as int,
                    ..self
                },
            ),
            Slot::Malformed => Step::Failed(ErrorKind::Framing),
            Slot::Value { cmd, at, resume } => {
                if cmd.kind() != c.kind() {
                    Step::Failed(ErrorKind::UnsupportedShape)
                } else if cmd == c {
                    Step::Done(Session { cursor: resume, ..self })
                } else {
                    Step::Done(
                        Session {
                            bytes: self.bytes + record(CommandView::Stitch(self.stitch(at, resume)))
                                + record(c),
                            cursor: resume,
                            new_stitches: self.new_stitches + 1,
                            ..self
                        },
                    )
                }
            },
        }
    }

    /// Whether a step from `self` with `c` that answered `res` and left
    /// `after` went as `emit` says.
    pub open spec fn emitted(self, c: CommandView, res: Result<(), Error>, after: Session) -> bool {
        match self.emit(c) {
            Step::Done(next) => res is Ok && after == next,
            Step::Failed(kind) => res == Err::<(), Error>(Error { kind }) && after == self,
        }
    }

    /// Whether a step from `self` to `after`, if it wrote the first
    /// forwarding record of the pass, wrote it where the stream ended when
    /// the pass began.
    pub open spec fn first_stitch_in_place(self, after: Session) -> bool {
        self.new_stitches == 0 && after.new_stitches == 1 ==> self.first_stitch_pos
            == self.bytes.len()
    }

    /// Writes the records of a value, one after the other, up to the first
    /// that is refused.
    pub open spec fn emit_all(self, cmds: Seq<CommandView>) -> Step
        decreases cmds.len(),
    {
        if cmds.len() == 0 {
            Step::Done(self)
        } else {
            match self.emit_all(cmds.drop_last()) {
                Step::Done(before) => before.emit(cmds.last()),
                Step::Failed(kind) => Step::Failed(kind),
            }
        }
    }

    /// Whether committing would write anything: it does unless the pass wrote
    /// no forwarding record and an earlier commit exists.
    pub open spec fn commits(self) -> bool {
        self.new_stitches != 0 || self.last_trailer_pos is None
    }

    /// The commit marker that closes the pass.
    pub open spec fn trailer(self) -> Trailer {
        Trailer {
            magic: MAGIC,
            first_stitch: if self.new_stitches != 0 {
                Some(self.first_stitch_pos as u64)
            } else {
                None
            },
            prev_trailer_pos: self.last_trailer_pos,
        }
    }

    /// Commits the pass: appends its commit marker where there is something
    /// to commit, and begins a new pass behind it.
    pub open spec fn finalize(self) -> Session {
        if self.commits() {
            let bytes = self.bytes + record(CommandView::Trailer(self.trailer()));
            Session {
                bytes,
                cursor: bytes.len() as int,
                first_stitch_pos: bytes.len() as int,
                new_stitches: 0,
                last_trailer_pos: Some(self.bytes.len() as u64),
            }
        } else {
            self
        }
    }
}

} // verus!
