//! Reading a slot of the log through its forwarding records.
//!
//! A slot is the place of one record of a value. The record that was first
//! written there stays where it is for ever. When the value changes, the new
//! record is appended to the stream behind a forwarding record, which names
//! the position it replaces, the position of the replacement (directly
//! behind itself) and the position at which reading goes on (behind the
//! record that was first written in the slot). A replacement can be replaced
//! in turn, so a slot owns a chain of positions, and the record at the end of
//! the chain is what the slot says now.

use crate::error::Error;
use crate::error::ErrorKind;
use crate::frame::decode_at;
use crate::frame::decode_command;
use crate::frame::fits;
use crate::frame::lemma_decode_appended;
use crate::frame::lemma_decode_bounds;
use crate::frame::lemma_decode_stable;
use crate::frame::lemma_record_len;
use crate::frame::record;
use crate::frame::STITCH_RECORD_LEN;
use crate::frame::Decoded;
use crate::meta::Stitch;
use crate::scmd::Command;
use crate::scmd::CommandView;
use vstd::prelude::*;

verus! {

/// Whether the forwarding record `st`, which ends at `end`, replaces the
/// record at `target` for a reader that goes on at `resume`.
///
/// All three positions must be as the reader expects them. Room that was
/// reserved for a forwarding record and never filled in holds zeros, and so
/// replaces nothing: no record ends at position zero. Neither does a
/// forwarding record that was filled in only in part, unless what was
/// missing are zeros anyway.
pub open spec fn overrides(st: Stitch, end: int, target: int, resume: int) -> bool {
    &&& st.old_pos == target
    &&& st.new_pos == end
    &&& st.next_stitch_pos == resume
}

/// The position of the record that replaces the one at `target`, looking at
/// the records from `from` on, one after the other, up to the first that is
/// not well formed.
pub open spec fn find_override(s: Seq<u8>, from: int, target: int, resume: int) -> Option<int>
    decreases s.len() - from,
{
    match decode_at(s, from) {
        Decoded::Record { cmd, end } => {
            if from < end <= s.len() {
                if cmd is Stitch && overrides(cmd->Stitch_0, end, target, resume) {
                    Some(end)
                } else {
                    find_override(s, end, target, resume)
                }
            } else {
                None
            }
        },
        _ => None,
    }
}

/// The end of the chain of replacements that starts at `pos`.
pub open spec fn resolve(s: Seq<u8>, pos: int, resume: int) -> int
    decreases s.len() - pos,
{
    match decode_at(s, pos) {
        Decoded::Record { cmd, end } => {
            match find_override(s, end, pos, resume) {
                Some(next) => {
                    if pos < next <= s.len() {
                        resolve(s, next, resume)
                    } else {
                        pos
                    }
                },
                None => pos,
            }
        },
        _ => pos,
    }
}

/// What a slot holds.
pub enum Slot {
    /// The record that the slot says now, the position at which that record
    /// lies, and the position of the next slot.
    Value { cmd: CommandView, at: int, resume: int },
    /// The slot starts exactly at the end of the stream.
    EndOfStream,
    /// The slot, or the end of its chain, holds no well-formed record.
    Malformed,
}

/// Reads the slot that starts at `pos`.
pub open spec fn slot_at(s: Seq<u8>, pos: int) -> Slot {
    match decode_at(s, pos) {
        Decoded::Record { cmd, end } => {
            let at = resolve(s, pos, end);
            match decode_at(s, at) {
                Decoded::Record { cmd: now, end: _ } => Slot::Value { cmd: now, at, resume: end },
                _ => Slot::Malformed,
            }
        },
        Decoded::EndOfStream => Slot::EndOfStream,
        Decoded::Malformed => Slot::Malformed,
    }
}

/// Looks from `from` on for the record that replaces the one at `target`.
fn find_override_in(data: &[u8], from: u64, target: u64, resume: u64) -> (res: Option<u64>)
    ensures
        res is None <==> find_override(data@, from as int, target as int, resume as int) is None,
        res is Some ==> find_override(data@, from as int, target as int, resume as int) == Some(
            res->Some_0 as int,
        ),
        res is Some ==> from < res->Some_0 <= data@.len(),
{
    let mut at: u64 = from;
    loop
        invariant
            find_override(data@, at as int, target as int, resume as int) == find_override(
                data@,
                from as int,
                target as int,
                resume as int,
            ),
            from <= at,
        decreases data@.len() - at,
    {
        match decode_command(data, at) {
            Ok((cmd, end)) => {
                if let Command::Stitch(st) = cmd {
                    if st.old_pos == target && st.new_pos == end && st.next_stitch_pos == resume {
                        return Some(end);
                    }
                }
                at = end;
            },
            Err(_) => {
                return None;
            },
        }
    }
}

/// Reads the slot that starts at `pos`: the record that it says now, where
/// that record lies, and where the next slot starts.
///
/// Fails with `EndOfStream` where `pos` is exactly the end of `data`, and
/// with `Framing` where the slot or the end of its chain holds no well-formed
/// record.
pub fn read_slot(data: &[u8], pos: u64) -> (res: Result<(Command, u64, u64), Error>)
    ensures
        match slot_at(data@, pos as int) {
            Slot::Value { cmd, at, resume } => res is Ok && res->Ok_0.0@ == cmd && res->Ok_0.1
                == at && res->Ok_0.2 == resume,
            Slot::EndOfStream => res == Err::<(Command, u64, u64), Error>(
                Error { kind: ErrorKind::EndOfStream },
            ),
            Slot::Malformed => res == Err::<(Command, u64, u64), Error>(
                Error { kind: ErrorKind::Framing },
            ),
        },
{
    let (first, resume) = match decode_command(data, pos) {
        Ok(found) => found,
        Err(e) => {
            return Err(e);
        },
    };
    proof {
        lemma_decode_bounds(data@, pos as int);
    }
    let mut now: Command = first;
    let mut at: u64 = pos;
    let mut end: u64 = resume;
    loop
        invariant
            decode_at(data@, pos as int) is Record,
            decode_at(data@, pos as int)->end == resume,
            resolve(data@, at as int, resume as int) == resolve(data@, pos as int, resume as int),
            decode_at(data@, at as int) == (Decoded::Record { cmd: now@, end: end as int }),
            at < end <= data@.len(),
        decreases data@.len() - at,
    {
        match find_override_in(data, end, at, resume) {
            None => {
                return Ok((now, at, resume));
            },
            Some(next) => {
                assert(resolve(data@, at as int, resume as int) == resolve(
                    data@,
                    next as int,
                    resume as int,
                ));
                match decode_command(data, next) {
                    Ok((cmd, cmd_end)) => {
                        proof {
                            lemma_decode_bounds(data@, next as int);
                        }
                        now = cmd;
                        at = next;
                        end = cmd_end;
                    },
                    Err(_) => {
                        return Err(Error { kind: ErrorKind::Framing });
                    },
                }
            },
        }
    }
}

/// Whether the records from `from` on can be read one after the other, up
/// to the end of the stream.
pub open spec fn scans(s: Seq<u8>, from: int) -> bool
    decreases s.len() - from,
{
    match decode_at(s, from) {
        Decoded::Record { cmd, end } => from < end <= s.len() && scans(s, end),
        Decoded::EndOfStream => true,
        Decoded::Malformed => false,
    }
}

/// Whether the records from `from` on can be read one after the other, up
/// to the end of the stream, and none of them is a forwarding record.
pub open spec fn quiet(s: Seq<u8>, from: int) -> bool
    decreases s.len() - from,
{
    match decode_at(s, from) {
        Decoded::Record { cmd, end } => from < end <= s.len() && !(cmd is Stitch) && quiet(s, end),
        Decoded::EndOfStream => true,
        Decoded::Malformed => false,
    }
}

/// Where there is no forwarding record, nothing is replaced.
pub proof fn lemma_quiet(s: Seq<u8>, from: int, target: int, resume: int)
    requires
        quiet(s, from),
    ensures
        scans(s, from),
        find_override(s, from, target, resume) is None,
    decreases s.len() - from,
{
    match decode_at(s, from) {
        Decoded::Record { cmd, end } => {
            lemma_quiet(s, end, target, resume);
        },
        _ => {},
    }
}

/// What the search finds is what a forwarding record says: directly before
/// the position that it answers lies a forwarding record that names
/// `target` as the position it replaces, the answer as the position of the
/// replacement, and `resume` as the position at which reading goes on.
pub proof fn law_override_is_a_forwarding_record(s: Seq<u8>, from: int, target: int, resume: int)
    requires
        find_override(s, from, target, resume) is Some,
    ensures
        ({
            let next = find_override(s, from, target, resume)->Some_0;
            &&& from <= next - STITCH_RECORD_LEN
            &&& decode_at(s, next - STITCH_RECORD_LEN) == (Decoded::Record {
                cmd: CommandView::Stitch(
                    Stitch {
                        old_pos: target as u64,
                        new_pos: next as u64,
                        next_stitch_pos: resume as u64,
                    },
                ),
                end: next,
            })
            &&& 0 <= target <= u64::MAX
            &&& 0 <= resume <= u64::MAX
            &&& 0 <= next <= u64::MAX
        }),
    decreases s.len() - from,
{
    match decode_at(s, from) {
        Decoded::Record { cmd, end } => {
            if cmd is Stitch && overrides(cmd->Stitch_0, end, target, resume) {
            } else {
                law_override_is_a_forwarding_record(s, end, target, resume);
            }
        },
        _ => {},
    }
}

/// The chain of a slot never goes back.
pub proof fn lemma_resolve_bounds(s: Seq<u8>, pos: int, resume: int)
    ensures
        pos <= resolve(s, pos, resume),
    decreases s.len() - pos,
{
    match decode_at(s, pos) {
        Decoded::Record { cmd, end } => {
            match find_override(s, end, pos, resume) {
                Some(next) => {
                    if pos < next <= s.len() {
                        lemma_resolve_bounds(s, next, resume);
                    }
                },
                None => {},
            }
        },
        _ => {},
    }
}

/// A slot that can be read lies within the stream: it starts before the slot
/// behind it, and what it says now lies at or behind its start.
pub proof fn lemma_slot_bounds(s: Seq<u8>, pos: int)
    requires
        slot_at(s, pos) is Value,
    ensures
        0 <= pos < slot_at(s, pos)->resume <= s.len(),
        pos <= slot_at(s, pos)->at < s.len(),
{
    lemma_decode_bounds(s, pos);
    lemma_resolve_bounds(s, pos, decode_at(s, pos)->end);
    lemma_decode_bounds(s, slot_at(s, pos)->at);
}

/// The position behind the record `x` when it is appended to `s`.
pub open spec fn behind(s: Seq<u8>, x: CommandView) -> int {
    (s.len() + record(x).len()) as int
}

/// A replacement lies behind the place where the search began, and the
/// records from it on can be read if those from that place on can.
pub proof fn lemma_find_override_bounds(s: Seq<u8>, from: int, target: int, resume: int)
    requires
        find_override(s, from, target, resume) is Some,
    ensures
        from < find_override(s, from, target, resume)->Some_0 <= s.len(),
        scans(s, from) ==> scans(s, find_override(s, from, target, resume)->Some_0),
    decreases s.len() - from,
{
    match decode_at(s, from) {
        Decoded::Record { cmd, end } => {
            if cmd is Stitch && overrides(cmd->Stitch_0, end, target, resume) {
            } else {
                lemma_find_override_bounds(s, end, target, resume);
            }
        },
        _ => {},
    }
}

/// What appending does to a search.
///
/// Let a record `x` and then bytes `rest` that hold no forwarding record be
/// appended to a stream whose records can be read from `from` on. Then
/// whatever the search found before, it still finds; and where it found
/// nothing, it now finds `x` if `x` is a forwarding record for `target`, and
/// nothing otherwise.
pub proof fn lemma_find_override_extended(
    s: Seq<u8>,
    x: CommandView,
    rest: Seq<u8>,
    from: int,
    target: int,
    resume: int,
)
    requires
        fits(x),
        0 <= from <= s.len(),
        scans(s, from),
        quiet(s + record(x) + rest, behind(s, x)),
    ensures
        scans(s + record(x) + rest, from),
        find_override(s + record(x) + rest, from, target, resume) == match find_override(
            s,
            from,
            target,
            resume,
        ) {
            Some(next) => Some(next),
            None => if x is Stitch && overrides(
                x->Stitch_0,
                behind(s, x),
                target,
                resume,
            ) {
                Some(behind(s, x))
            } else {
                None
            },
        },
    decreases s.len() - from,
{
    let u = s + record(x) + rest;
    let m = behind(s, x);
    assert(u =~= s + (record(x) + rest));
    lemma_record_len(x);
    match decode_at(s, from) {
        Decoded::Record { cmd, end } => {
            lemma_decode_stable(s, record(x) + rest, from);
            lemma_find_override_extended(s, x, rest, end, target, resume);
        },
        Decoded::EndOfStream => {
            lemma_decode_appended(s, x, rest);
            lemma_quiet(u, m, target, resume);
        },
        Decoded::Malformed => {},
    }
}

/// What appending does to the chain of a slot that could be read.
///
/// Under the conditions of `lemma_find_override_extended`, the chain that
/// starts at `pos` ends where it did, unless `x` is a forwarding record for
/// that end: then it ends at the record behind `x`.
pub proof fn lemma_resolve_extended(
    s: Seq<u8>,
    x: CommandView,
    rest: Seq<u8>,
    pos: int,
    resume: int,
)
    requires
        fits(x),
        0 <= pos,
        scans(s, pos),
        decode_at(s, resolve(s, pos, resume)) is Record,
        quiet(s + record(x) + rest, behind(s, x)),
    ensures
        resolve(s + record(x) + rest, pos, resume) == if x is Stitch && overrides(
            x->Stitch_0,
            behind(s, x),
            resolve(s, pos, resume),
            resume,
        ) {
            behind(s, x)
        } else {
            resolve(s, pos, resume)
        },
    decreases s.len() - pos,
{
    let u = s + record(x) + rest;
    let m = behind(s, x);
    assert(u =~= s + (record(x) + rest));
    lemma_record_len(x);
    match decode_at(s, pos) {
        Decoded::Record { cmd, end } => {
            lemma_decode_bounds(s, pos);
            lemma_decode_stable(s, record(x) + rest, pos);
            lemma_find_override_extended(s, x, rest, end, pos, resume);
            match find_override(s, end, pos, resume) {
                Some(next) => {
                    // The chain goes on at `next`, before and after.
                    lemma_find_override_bounds(s, end, pos, resume);
                    lemma_resolve_extended(s, x, rest, next, resume);
                },
                None => {
                    // The chain ended here. It now goes on behind `x` where
                    // `x` replaces this record, and ends there: nothing
                    // behind `x` is a forwarding record.
                    if x is Stitch && overrides(x->Stitch_0, m, pos, resume) {
                        assert(resolve(u, pos, resume) == resolve(u, m, resume));
                        match decode_at(u, m) {
                            Decoded::Record { cmd: after, end: after_end } => {
                                lemma_quiet(u, after_end, m, resume);
                            },
                            _ => {},
                        }
                    }
                },
            }
        },
        _ => {},
    }
}

/// What appending does to a slot that could be read.
///
/// Under the conditions of `lemma_find_override_extended`, the slot says
/// what it said, unless `x` is a forwarding record for it: then it says what
/// stands behind `x`.
pub proof fn lemma_slot_extended(s: Seq<u8>, x: CommandView, rest: Seq<u8>, pos: int)
    requires
        fits(x),
        scans(s, pos),
        slot_at(s, pos) is Value,
        quiet(s + record(x) + rest, behind(s, x)),
    ensures
        slot_at(s + record(x) + rest, pos) == if x is Stitch && overrides(
            x->Stitch_0,
            behind(s, x),
            slot_at(s, pos)->at,
            slot_at(s, pos)->resume,
        ) {
            match decode_at(s + record(x) + rest, behind(s, x)) {
                Decoded::Record { cmd, end: _ } => Slot::Value {
                    cmd,
                    at: behind(s, x),
                    resume: slot_at(s, pos)->resume,
                },
                _ => Slot::Malformed,
            }
        } else {
            slot_at(s, pos)
        },
{
    let u = s + record(x) + rest;
    assert(u =~= s + (record(x) + rest));
    let resume = decode_at(s, pos)->end;
    lemma_decode_bounds(s, pos);
    lemma_decode_stable(s, record(x) + rest, pos);
    lemma_resolve_extended(s, x, rest, pos, resume);
    lemma_decode_stable(s, record(x) + rest, resolve(s, pos, resume));
}

} // verus!
