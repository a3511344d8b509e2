//! What holds of streams, stated over the model of a session and proved.

use crate::de::next_records;
use crate::frame::decode_at;
use crate::frame::fits;
use crate::frame::lemma_decode_appended;
use crate::frame::lemma_decode_bounds;
use crate::frame::lemma_decode_stable;
use crate::frame::lemma_record_len;
use crate::frame::record;
use crate::frame::Decoded;
use crate::frame::STITCH_RECORD_LEN;
use crate::log::behind;
use crate::log::find_override;
use crate::log::lemma_find_override_extended;
use crate::log::lemma_slot_bounds;
use crate::log::lemma_slot_extended;
use crate::log::overrides;
use crate::log::quiet;
use crate::log::resolve;
use crate::log::scans;
use crate::log::slot_at;
use crate::log::Slot;
use crate::meta::Stitch;
use crate::scmd::CommandView;
use crate::session::Session;
use crate::session::Step;
use vstd::prelude::*;

verus! {

/// Where the slot with the number `k` starts: the first at the start of the
/// stream, each other behind the record that was first written in the slot
/// before it.
pub open spec fn slot_start(s: Seq<u8>, k: int) -> int
    decreases k,
{
    if k <= 0 {
        0
    } else {
        match decode_at(s, slot_start(s, k - 1)) {
            Decoded::Record { cmd, end } => end,
            _ => slot_start(s, k - 1),
        }
    }
}

/// What the slot with the number `k` holds.
pub open spec fn nth_slot(s: Seq<u8>, k: int) -> Slot {
    slot_at(s, slot_start(s, k))
}

/// Whether the stream holds the value whose records are `cmds`: its records
/// can be read one after the other from the start to the end, and its first
/// slots say `cmds`, in order.
pub open spec fn holds(s: Seq<u8>, cmds: Seq<CommandView>) -> bool {
    &&& scans(s, 0)
    &&& forall|k: int|
        0 <= k < cmds.len() ==> (#[trigger] nth_slot(s, k)) is Value && nth_slot(s, k)->cmd
            == cmds[k]
}

/// Whether every record of `cmds` is part of a value and can be framed.
pub open spec fn writable(cmds: Seq<CommandView>) -> bool {
    forall|k: int| 0 <= k < cmds.len() ==> (#[trigger] cmds[k]).is_value() && fits(cmds[k])
}

/// Whether two values have the same shape: as many records, and at each
/// place records of one family.
pub open spec fn same_shape(a: Seq<CommandView>, b: Seq<CommandView>) -> bool {
    &&& a.len() == b.len()
    &&& forall|k: int| 0 <= k < a.len() ==> (#[trigger] a[k]).kind() == b[k].kind()
}

/// At how many places two values of one length differ.
pub open spec fn changes(a: Seq<CommandView>, b: Seq<CommandView>) -> nat
    decreases a.len(),
{
    if a.len() == 0 || b.len() != a.len() {
        0
    } else {
        changes(a.drop_last(), b.drop_last()) + if a.last() != b.last() {
            1nat
        } else {
            0nat
        }
    }
}

/// The most that writing `cmds` can add to a stream: each record, and a
/// forwarding record before it.
pub open spec fn room(cmds: Seq<CommandView>) -> nat
    decreases cmds.len(),
{
    if cmds.len() == 0 {
        0
    } else {
        room(cmds.drop_last()) + STITCH_RECORD_LEN as nat + record(cmds.last()).len()
    }
}

/// The slots of a value lie one behind the other, inside the stream, and the
/// records from each of them on can be read.
pub proof fn lemma_slot_starts(s: Seq<u8>, cmds: Seq<CommandView>, k: int)
    requires
        holds(s, cmds),
        0 <= k <= cmds.len(),
    ensures
        0 <= slot_start(s, k) <= s.len(),
        scans(s, slot_start(s, k)),
        k < cmds.len() ==> slot_start(s, k) < slot_start(s, k + 1)
            && slot_start(s, k + 1) == nth_slot(s, k)->resume && decode_at(
            s,
            slot_start(s, k),
        ) is Record,
    decreases k,
{
    if k > 0 {
        lemma_slot_starts(s, cmds, k - 1);
        assert(nth_slot(s, k - 1) is Value);
        lemma_decode_bounds(s, slot_start(s, k - 1));
    }
    if k < cmds.len() {
        assert(nth_slot(s, k) is Value);
        lemma_decode_bounds(s, slot_start(s, k));
    }
}

/// An earlier slot starts before a later one.
pub proof fn lemma_slot_starts_increase(s: Seq<u8>, cmds: Seq<CommandView>, j: int, k: int)
    requires
        holds(s, cmds),
        0 <= j < k <= cmds.len(),
    ensures
        slot_start(s, j) < slot_start(s, k),
    decreases k,
{
    lemma_slot_starts(s, cmds, k - 1);
    if j < k - 1 {
        lemma_slot_starts_increase(s, cmds, j, k - 1);
    }
}

/// Appending to a stream leaves the slots of its value where they were.
pub proof fn lemma_slot_starts_stable(s: Seq<u8>, ext: Seq<u8>, cmds: Seq<CommandView>, k: int)
    requires
        holds(s, cmds),
        0 <= k <= cmds.len(),
    ensures
        slot_start(s + ext, k) == slot_start(s, k),
    decreases k,
{
    if k > 0 {
        lemma_slot_starts_stable(s, ext, cmds, k - 1);
        lemma_slot_starts(s, cmds, k - 1);
        lemma_decode_stable(s, ext, slot_start(s, k - 1));
    }
}

/// The stream `s` with a forwarding record and a record appended.
pub open spec fn stitched(s: Seq<u8>, st: Stitch, c: CommandView) -> Seq<u8> {
    s + record(CommandView::Stitch(st)) + record(c)
}

/// What was appended with a forwarding record reads as that record and the
/// record behind it, and nothing more.
pub proof fn lemma_stitched_tail(s: Seq<u8>, st: Stitch, c: CommandView)
    requires
        fits(c),
        !(c is Stitch),
    ensures
        fits(CommandView::Stitch(st)),
        behind(s, CommandView::Stitch(st)) == s.len() + STITCH_RECORD_LEN,
        stitched(s, st, c).len() == s.len() + STITCH_RECORD_LEN + record(c).len(),
        decode_at(stitched(s, st, c), s.len() + STITCH_RECORD_LEN) == (Decoded::Record {
            cmd: c,
            end: stitched(s, st, c).len() as int,
        }),
        quiet(stitched(s, st, c), s.len() + STITCH_RECORD_LEN),
        scans(s, 0) ==> scans(stitched(s, st, c), 0),
{
    let x = CommandView::Stitch(st);
    let u = stitched(s, st, c);
    lemma_record_len(x);
    lemma_record_len(c);
    assert(u =~= (s + record(x)) + record(c) + Seq::<u8>::empty());
    lemma_decode_appended(s + record(x), c, Seq::<u8>::empty());
    assert(decode_at(u, u.len() as int) is EndOfStream);
    assert(quiet(u, u.len() as int));
    if scans(s, 0) {
        lemma_find_override_extended(s, x, record(c), 0, 0, 0);
    }
}

/// What a slot says when a forwarding record and a record have been
/// appended: the record, where the forwarding record names the end of the
/// slot's chain and the start of the slot behind it; and what it said,
/// where it does not.
pub proof fn lemma_slot_stitched(
    s: Seq<u8>,
    cur: Seq<CommandView>,
    st: Stitch,
    c: CommandView,
    j: int,
)
    requires
        holds(s, cur),
        0 <= j < cur.len(),
        fits(c),
        !(c is Stitch),
        st.new_pos == s.len() + STITCH_RECORD_LEN,
    ensures
        slot_start(stitched(s, st, c), j) == slot_start(s, j),
        slot_start(stitched(s, st, c), j + 1) == slot_start(s, j + 1),
        nth_slot(s, j) is Value,
        nth_slot(stitched(s, st, c), j) == if st.old_pos == nth_slot(s, j)->at
            && st.next_stitch_pos == nth_slot(s, j)->resume {
            Slot::Value {
                cmd: c,
                at: s.len() + STITCH_RECORD_LEN,
                resume: nth_slot(s, j)->resume,
            }
        } else {
            nth_slot(s, j)
        },
{
    let x = CommandView::Stitch(st);
    let u = stitched(s, st, c);
    lemma_stitched_tail(s, st, c);
    lemma_slot_starts(s, cur, j);
    assert(nth_slot(s, j) is Value);
    lemma_slot_extended(s, x, record(c), slot_start(s, j));
    assert(u =~= s + (record(x) + record(c)));
    lemma_slot_starts_stable(s, record(x) + record(c), cur, j);
    lemma_slot_starts_stable(s, record(x) + record(c), cur, j + 1);
}

/// Two slots of a value do not go on at the same place.
pub proof fn lemma_slots_resume_apart(s: Seq<u8>, cur: Seq<CommandView>, j: int, k: int)
    requires
        holds(s, cur),
        0 <= j < cur.len(),
        0 <= k < cur.len(),
        j != k,
    ensures
        nth_slot(s, j) is Value,
        nth_slot(s, k) is Value,
        nth_slot(s, j)->resume != nth_slot(s, k)->resume,
{
    lemma_slot_starts(s, cur, j);
    lemma_slot_starts(s, cur, k);
    assert(nth_slot(s, j) is Value);
    assert(nth_slot(s, k) is Value);
    if j < k {
        lemma_slot_starts_increase(s, cur, j + 1, k + 1);
    } else {
        lemma_slot_starts_increase(s, cur, k + 1, j + 1);
    }
}

/// Writing a record in a slot that holds one of the same family.
///
/// Where the slot says the same already, the stream stays as it is. Where it
/// says something else, the stream grows by a forwarding record and the new
/// record, the slot says the new record, and every other slot says what it
/// said. Either way the cursor is at the next slot.
pub proof fn lemma_emit_in_place(v: Session, cur: Seq<CommandView>, k: int, c: CommandView)
    requires
        holds(v.bytes, cur),
        0 <= k < cur.len(),
        v.cursor == slot_start(v.bytes, k),
        c.kind() == cur[k].kind(),
        c.is_value(),
        fits(c),
        cur[k] != c ==> v.bytes.len() + STITCH_RECORD_LEN + record(c).len() <= u64::MAX,
    ensures
        v.emit(c) is Done,
        holds(v.emit(c)->Done_0.bytes, cur.update(k, c)),
        v.emit(c)->Done_0.cursor == slot_start(v.bytes, k + 1),
        forall|j: int|
            0 <= j <= cur.len() ==> slot_start(v.emit(c)->Done_0.bytes, j) == slot_start(
                v.bytes,
                j,
            ),
        cur[k] == c ==> v.emit(c)->Done_0 == (Session {
            cursor: slot_start(v.bytes, k + 1),
            ..v
        }),
        cur[k] != c ==> v.emit(c)->Done_0.new_stitches == v.new_stitches + 1
            && v.emit(c)->Done_0.bytes.len() == v.bytes.len() + STITCH_RECORD_LEN + record(
            c,
        ).len(),
        v.emit(c)->Done_0.first_stitch_pos == v.first_stitch_pos,
        v.emit(c)->Done_0.last_trailer_pos == v.last_trailer_pos,
{
    let s = v.bytes;
    lemma_slot_starts(s, cur, k);
    assert(nth_slot(s, k) is Value);
    let at = nth_slot(s, k)->at;
    let resume = nth_slot(s, k)->resume;
    if cur[k] == c {
        assert(cur.update(k, c) =~= cur);
    } else {
        let st = v.stitch(at, resume);
        let u = stitched(s, st, c);
        let after = cur.update(k, c);
        lemma_slot_bounds(s, slot_start(s, k));
        lemma_stitched_tail(s, st, c);
        assert(v.emit(c)->Done_0.bytes == u);
        assert forall|j: int| 0 <= j <= cur.len() implies slot_start(u, j) == slot_start(s, j) by {
            if j < cur.len() {
                lemma_slot_stitched(s, cur, st, c, j);
            } else {
                lemma_slot_stitched(s, cur, st, c, j - 1);
            }
        }
        assert forall|j: int| 0 <= j < after.len() implies (#[trigger] nth_slot(u, j)) is Value
            && nth_slot(u, j)->cmd == after[j] by {
            lemma_slot_stitched(s, cur, st, c, j);
            if j != k {
                lemma_slots_resume_apart(s, cur, j, k);
            }
        }
    }
}

/// A record that is appended to a stream is a slot of its own there: it
/// says itself, and the next slot starts at the new end.
pub proof fn lemma_slot_appended(s: Seq<u8>, c: CommandView)
    requires
        fits(c),
    ensures
        slot_at(s + record(c), s.len() as int) == (Slot::Value {
            cmd: c,
            at: s.len() as int,
            resume: behind(s, c),
        }),
        decode_at(s + record(c), s.len() as int) == (Decoded::Record {
            cmd: c,
            end: behind(s, c),
        }),
{
    let u = s + record(c);
    let m = behind(s, c);
    lemma_record_len(c);
    assert(u =~= s + record(c) + Seq::<u8>::empty());
    lemma_decode_appended(s, c, Seq::<u8>::empty());
    assert(decode_at(u, m) is EndOfStream);
    assert(find_override(u, m, s.len() as int, m) is None);
    assert(resolve(u, s.len() as int, m) == s.len());
}

/// Appending a record that is no forwarding record leaves every slot of the
/// value as it was.
pub proof fn lemma_slots_kept(s: Seq<u8>, cur: Seq<CommandView>, c: CommandView)
    requires
        holds(s, cur),
        fits(c),
        !(c is Stitch),
    ensures
        scans(s + record(c), 0),
        forall|j: int|
            0 <= j < cur.len() ==> (#[trigger] nth_slot(s + record(c), j)) == nth_slot(s, j),
        forall|j: int|
            0 <= j <= cur.len() ==> (#[trigger] slot_start(s + record(c), j)) == slot_start(s, j),
{
    let rest = Seq::<u8>::empty();
    let u = s + record(c) + rest;
    assert(u =~= s + record(c));
    lemma_record_len(c);
    assert(decode_at(u, behind(s, c)) is EndOfStream);
    assert(quiet(u, behind(s, c)));
    lemma_find_override_extended(s, c, rest, 0, 0, 0);
    assert forall|j: int| 0 <= j <= cur.len() implies (#[trigger] slot_start(u, j)) == slot_start(
        s,
        j,
    ) by {
        lemma_slot_starts_stable(s, record(c), cur, j);
    }
    assert forall|j: int| 0 <= j < cur.len() implies (#[trigger] nth_slot(u, j)) == nth_slot(
        s,
        j,
    ) by {
        lemma_slot_starts(s, cur, j);
        assert(nth_slot(s, j) is Value);
        lemma_slot_extended(s, c, rest, slot_start(s, j));
        assert(slot_start(u, j) == slot_start(s, j));
    }
}

/// Writing a record where the value ends at the end of the stream: the
/// record is appended, the value has one slot more, and the cursor is at the
/// end again.
pub proof fn lemma_emit_at_end(v: Session, cur: Seq<CommandView>, c: CommandView)
    requires
        holds(v.bytes, cur),
        v.cursor == slot_start(v.bytes, cur.len() as int),
        v.cursor == v.bytes.len(),
        c.is_value(),
        fits(c),
    ensures
        v.emit(c) == Step::Done(
            Session {
                bytes: v.bytes + record(c),
                cursor: (v.bytes.len() + record(c).len()) as int,
                ..v
            },
        ),
        holds(v.bytes + record(c), cur.push(c)),
        slot_start(v.bytes + record(c), cur.len() as int + 1) == v.bytes.len() + record(c).len(),
{
    let s = v.bytes;
    let u = s + record(c);
    let n = cur.len() as int;
    let after = cur.push(c);
    lemma_slots_kept(s, cur, c);
    lemma_slot_appended(s, c);
    assert(slot_start(u, n) == s.len());
    assert(nth_slot(u, n) == slot_at(u, s.len() as int));
    assert forall|j: int| 0 <= j < after.len() implies (#[trigger] nth_slot(u, j)) is Value
        && nth_slot(u, j)->cmd == after[j] by {
        if j < n {
            assert(nth_slot(u, j) == nth_slot(s, j));
            assert(nth_slot(s, j) is Value);
        }
    }
}

/// The records of a value, one after the other, as they lie in a stream
/// that was empty before the value was written.
pub open spec fn records(cmds: Seq<CommandView>) -> Seq<u8>
    decreases cmds.len(),
{
    if cmds.len() == 0 {
        Seq::<u8>::empty()
    } else {
        records(cmds.drop_last()) + record(cmds.last())
    }
}

/// A stream that holds a value reads back as that value, slot by slot.
pub proof fn lemma_holds_reads(s: Seq<u8>, cmds: Seq<CommandView>, k: int)
    requires
        holds(s, cmds),
        0 <= k <= cmds.len(),
    ensures
        next_records(s, slot_start(s, k), (cmds.len() - k) as nat) == Some(cmds.skip(k)),
    decreases cmds.len() - k,
{
    if k < cmds.len() {
        lemma_slot_starts(s, cmds, k);
        assert(nth_slot(s, k) is Value);
        lemma_holds_reads(s, cmds, k + 1);
        assert(seq![cmds[k]] + cmds.skip(k + 1) =~= cmds.skip(k));
    } else {
        assert(cmds.skip(k) =~= Seq::<CommandView>::empty());
    }
}

/// Writing a value behind a value that ends at the end of the stream: every
/// record is appended, and the stream then holds both.
pub proof fn lemma_append_pass(v: Session, cur: Seq<CommandView>, cmds: Seq<CommandView>)
    requires
        holds(v.bytes, cur),
        v.cursor == slot_start(v.bytes, cur.len() as int),
        v.cursor == v.bytes.len(),
        writable(cmds),
    ensures
        v.emit_all(cmds) == Step::Done(
            Session {
                bytes: v.bytes + records(cmds),
                cursor: (v.bytes + records(cmds)).len() as int,
                ..v
            },
        ),
        holds(v.bytes + records(cmds), cur + cmds),
        slot_start(v.bytes + records(cmds), (cur + cmds).len() as int) == (v.bytes + records(
            cmds,
        )).len(),
    decreases cmds.len(),
{
    if cmds.len() == 0 {
        assert(v.bytes + records(cmds) =~= v.bytes);
        assert(cur + cmds =~= cur);
    } else {
        let front = cmds.drop_last();
        let c = cmds.last();
        assert(writable(front)) by {
            assert forall|k: int| 0 <= k < front.len() implies (#[trigger] front[k]).is_value()
                && fits(front[k]) by {
                assert(front[k] == cmds[k]);
            }
        }
        lemma_append_pass(v, cur, front);
        let before = v.emit_all(front)->Done_0;
        lemma_emit_at_end(before, cur + front, c);
        assert(before.bytes + record(c) =~= v.bytes + records(cmds));
        assert((cur + front).push(c) =~= cur + cmds);
    }
}

/// What holds when the first `k` records of `new_cmds` have been written,
/// from the state `v` on, over a stream that held `old_cmds`, and the state
/// is `w`: the first `k` slots say the new value and the others the old one,
/// every slot starts where it did, a forwarding record was written for each
/// record that differs, and nothing was written where none does.
pub open spec fn rewritten(
    v: Session,
    old_cmds: Seq<CommandView>,
    new_cmds: Seq<CommandView>,
    k: int,
    w: Session,
) -> bool {
    &&& holds(w.bytes, new_cmds.take(k) + old_cmds.skip(k))
    &&& w.cursor == slot_start(v.bytes, k)
    &&& forall|j: int|
        0 <= j <= old_cmds.len() ==> (#[trigger] slot_start(w.bytes, j)) == slot_start(v.bytes, j)
    &&& w.new_stitches == v.new_stitches + changes(old_cmds.take(k), new_cmds.take(k))
    &&& changes(old_cmds.take(k), new_cmds.take(k)) == 0 ==> w.bytes == v.bytes
    &&& w.bytes.len() <= v.bytes.len() + room(new_cmds.take(k))
    &&& w.first_stitch_pos == v.first_stitch_pos
    &&& w.last_trailer_pos == v.last_trailer_pos
}

/// The value that is new up to the record with the number `k` and old from
/// there on, and what exchanging one more record makes of it.
pub proof fn lemma_mixed_value(old_cmds: Seq<CommandView>, new_cmds: Seq<CommandView>, k: int)
    requires
        old_cmds.len() == new_cmds.len(),
        0 < k <= new_cmds.len(),
    ensures
        (new_cmds.take(k - 1) + old_cmds.skip(k - 1)).len() == old_cmds.len(),
        (new_cmds.take(k - 1) + old_cmds.skip(k - 1))[k - 1] == old_cmds[k - 1],
        (new_cmds.take(k - 1) + old_cmds.skip(k - 1)).update(k - 1, new_cmds[k - 1])
            == new_cmds.take(k) + old_cmds.skip(k),
{
    let mixed = new_cmds.take(k - 1) + old_cmds.skip(k - 1);
    assert(mixed.update(k - 1, new_cmds[k - 1]) =~= new_cmds.take(k) + old_cmds.skip(k));
}

/// One more record written over a value of the same shape.
pub proof fn lemma_rewrite_step(
    v: Session,
    old_cmds: Seq<CommandView>,
    new_cmds: Seq<CommandView>,
    k: int,
    before: Session,
)
    requires
        same_shape(old_cmds, new_cmds),
        writable(new_cmds),
        0 < k <= new_cmds.len(),
        changes(old_cmds, new_cmds) > 0 ==> v.bytes.len() + room(new_cmds) <= u64::MAX,
        rewritten(v, old_cmds, new_cmds, k - 1, before),
    ensures
        before.emit(new_cmds[k - 1]) is Done,
        rewritten(v, old_cmds, new_cmds, k, before.emit(new_cmds[k - 1])->Done_0),
{
    let cur = new_cmds.take(k - 1) + old_cmds.skip(k - 1);
    let c = new_cmds[k - 1];
    lemma_mixed_value(old_cmds, new_cmds, k);
    assert(old_cmds[k - 1].kind() == new_cmds[k - 1].kind());
    lemma_room_grows(new_cmds, k);
    lemma_changes_grow(old_cmds, new_cmds, k);
    assert(slot_start(before.bytes, k - 1) == slot_start(v.bytes, k - 1));
    assert(slot_start(before.bytes, k) == slot_start(v.bytes, k));
    lemma_emit_in_place(before, cur, k - 1, c);
    let after = before.emit(c)->Done_0;
    assert forall|j: int| 0 <= j <= old_cmds.len() implies (#[trigger] slot_start(
        after.bytes,
        j,
    )) == slot_start(v.bytes, j) by {
        assert(slot_start(before.bytes, j) == slot_start(v.bytes, j));
    }
}

/// Writing a value over a value of the same shape, as far as the record with
/// the number `k`.
pub proof fn lemma_rewrite_pass(
    v: Session,
    old_cmds: Seq<CommandView>,
    new_cmds: Seq<CommandView>,
    k: int,
)
    requires
        holds(v.bytes, old_cmds),
        v.cursor == 0,
        same_shape(old_cmds, new_cmds),
        writable(new_cmds),
        0 <= k <= new_cmds.len(),
        changes(old_cmds, new_cmds) > 0 ==> v.bytes.len() + room(new_cmds) <= u64::MAX,
    ensures
        v.emit_all(new_cmds.take(k)) is Done,
        rewritten(v, old_cmds, new_cmds, k, v.emit_all(new_cmds.take(k))->Done_0),
    decreases k,
{
    if k == 0 {
        assert(new_cmds.take(0) + old_cmds.skip(0) =~= old_cmds);
        assert(new_cmds.take(0).len() == 0);
        assert(old_cmds.take(0).len() == 0);
    } else {
        lemma_rewrite_pass(v, old_cmds, new_cmds, k - 1);
        let done = new_cmds.take(k);
        assert(done.drop_last() =~= new_cmds.take(k - 1));
        assert(done.last() == new_cmds[k - 1]);
        let before = v.emit_all(new_cmds.take(k - 1))->Done_0;
        lemma_rewrite_step(v, old_cmds, new_cmds, k, before);
    }
}

/// More records need no less room.
pub proof fn lemma_room_grows(cmds: Seq<CommandView>, k: int)
    requires
        0 < k <= cmds.len(),
    ensures
        room(cmds.take(k)) == room(cmds.take(k - 1)) + STITCH_RECORD_LEN + record(
            cmds[k - 1],
        ).len(),
        room(cmds.take(k)) <= room(cmds),
    decreases cmds.len() - k,
{
    assert(cmds.take(k).drop_last() =~= cmds.take(k - 1));
    if k < cmds.len() {
        lemma_room_grows(cmds, k + 1);
    } else {
        assert(cmds.take(k) =~= cmds);
    }
}

/// A longer part of two values differs at no fewer places.
pub proof fn lemma_changes_grow(a: Seq<CommandView>, b: Seq<CommandView>, k: int)
    requires
        a.len() == b.len(),
        0 < k <= a.len(),
    ensures
        changes(a.take(k), b.take(k)) == changes(a.take(k - 1), b.take(k - 1)) + if a[k - 1]
            != b[k - 1] {
            1nat
        } else {
            0nat
        },
        changes(a.take(k), b.take(k)) <= changes(a, b),
    decreases a.len() - k,
{
    assert(a.take(k).drop_last() =~= a.take(k - 1));
    assert(b.take(k).drop_last() =~= b.take(k - 1));
    if k < a.len() {
        lemma_changes_grow(a, b, k + 1);
    } else {
        assert(a.take(k) =~= a);
        assert(b.take(k) =~= b);
    }
}

/// A value differs from itself nowhere.
pub proof fn lemma_changes_none(a: Seq<CommandView>)
    ensures
        changes(a, a) == 0,
    decreases a.len(),
{
    if a.len() > 0 {
        lemma_changes_none(a.drop_last());
    }
}

/// A value with one record exchanged for another differs from what it was
/// at one place.
pub proof fn lemma_changes_one(a: Seq<CommandView>, i: int, c: CommandView)
    requires
        0 <= i < a.len(),
        a[i] != c,
    ensures
        changes(a, a.update(i, c)) == 1,
    decreases a.len(),
{
    let b = a.update(i, c);
    if i == a.len() - 1 {
        assert(b.drop_last() =~= a.drop_last());
        lemma_changes_none(a.drop_last());
    } else {
        assert(b.drop_last() =~= a.drop_last().update(i, c));
        lemma_changes_one(a.drop_last(), i, c);
    }
}

/// Round trip: a value written to an empty stream reads back, from the
/// start of the stream, as the same value.
///
/// The stream then holds the records of the value one after the other and
/// nothing else, and no forwarding record was written.
pub proof fn law_round_trip(cmds: Seq<CommandView>)
    requires
        writable(cmds),
    ensures
        Session::begin(Seq::<u8>::empty()).emit_all(cmds) is Done,
        Session::begin(Seq::<u8>::empty()).emit_all(cmds)->Done_0.bytes == records(cmds),
        Session::begin(Seq::<u8>::empty()).emit_all(cmds)->Done_0.new_stitches == 0,
        holds(records(cmds), cmds),
        next_records(records(cmds), 0, cmds.len()) == Some(cmds),
{
    let nothing = Seq::<u8>::empty();
    let none = Seq::<CommandView>::empty();
    let v = Session::begin(nothing);
    assert(decode_at(nothing, 0) is EndOfStream);
    assert(holds(nothing, none));
    lemma_append_pass(v, none, cmds);
    assert(nothing + records(cmds) =~= records(cmds));
    assert(none + cmds =~= cmds);
    lemma_holds_reads(records(cmds), cmds, 0);
    assert(cmds.skip(0) =~= cmds);
}

/// Idempotence: writing, in a new pass, the value that the stream holds
/// already changes no byte of the stream and writes no forwarding record.
pub proof fn law_rewrite_changes_nothing(v: Session, cmds: Seq<CommandView>)
    requires
        holds(v.bytes, cmds),
        writable(cmds),
    ensures
        v.reset().emit_all(cmds) is Done,
        v.reset().emit_all(cmds)->Done_0.bytes == v.bytes,
        v.reset().emit_all(cmds)->Done_0.new_stitches == 0,
{
    lemma_changes_none(cmds);
    assert(cmds.take(cmds.len() as int) =~= cmds);
    lemma_rewrite_pass(v.reset(), cmds, cmds, cmds.len() as int);
}

/// An update is read back: writing, in a new pass, a value of the same shape
/// as the one that the stream holds leaves a stream that holds the new value.
/// Reading it from the start gives the new value, however often: reading
/// changes nothing, and the new pass that a reset begins has the same stream.
pub proof fn law_update_reads_back(
    v: Session,
    old_cmds: Seq<CommandView>,
    new_cmds: Seq<CommandView>,
)
    requires
        holds(v.bytes, old_cmds),
        same_shape(old_cmds, new_cmds),
        writable(new_cmds),
        v.bytes.len() + room(new_cmds) <= u64::MAX,
    ensures
        v.reset().emit_all(new_cmds) is Done,
        holds(v.reset().emit_all(new_cmds)->Done_0.bytes, new_cmds),
        next_records(v.reset().emit_all(new_cmds)->Done_0.bytes, 0, new_cmds.len()) == Some(
            new_cmds,
        ),
        v.reset().emit_all(new_cmds)->Done_0.reset().bytes == v.reset().emit_all(
            new_cmds,
        )->Done_0.bytes,
{
    let n = new_cmds.len() as int;
    assert(new_cmds.take(n) =~= new_cmds);
    assert(new_cmds.take(n) + old_cmds.skip(n) =~= new_cmds);
    lemma_rewrite_pass(v.reset(), old_cmds, new_cmds, n);
    let after = v.reset().emit_all(new_cmds)->Done_0;
    lemma_holds_reads(after.bytes, new_cmds, 0);
    assert(new_cmds.skip(0) =~= new_cmds);
}

/// The count of forwarding records: a pass that writes a value over one of
/// the same shape writes one forwarding record for each record that
/// differs, and so none for the same value and one where one record
/// differs.
pub proof fn law_stitch_count(v: Session, old_cmds: Seq<CommandView>, new_cmds: Seq<CommandView>)
    requires
        holds(v.bytes, old_cmds),
        same_shape(old_cmds, new_cmds),
        writable(new_cmds),
        v.bytes.len() + room(new_cmds) <= u64::MAX,
    ensures
        v.reset().emit_all(new_cmds) is Done,
        v.reset().emit_all(new_cmds)->Done_0.new_stitches == changes(old_cmds, new_cmds),
        new_cmds == old_cmds ==> v.reset().emit_all(new_cmds)->Done_0.new_stitches == 0,
        forall|i: int, c: CommandView|
            0 <= i < old_cmds.len() && c != old_cmds[i] && new_cmds == #[trigger] old_cmds.update(
                i,
                c,
            ) ==> v.reset().emit_all(new_cmds)->Done_0.new_stitches == 1,
{
    let n = new_cmds.len() as int;
    assert(new_cmds.take(n) =~= new_cmds);
    assert(old_cmds.take(n) =~= old_cmds);
    lemma_rewrite_pass(v.reset(), old_cmds, new_cmds, n);
    lemma_changes_none(old_cmds);
    assert forall|i: int, c: CommandView|
        0 <= i < old_cmds.len() && c != old_cmds[i] && new_cmds == #[trigger] old_cmds.update(
            i,
            c,
        ) implies changes(old_cmds, new_cmds) == 1 by {
        lemma_changes_one(old_cmds, i, c);
    }
}

/// The log only grows: a step of a session leaves every byte that was in the
/// stream as it was, and appends at most. It also leaves what the session
/// knows of the latest commit as it was.
pub proof fn law_step_only_appends(v: Session, c: CommandView)
    requires
        v.emit(c) is Done,
    ensures
        v.bytes.is_prefix_of(v.emit(c)->Done_0.bytes),
        v.emit(c)->Done_0.last_trailer_pos == v.last_trailer_pos,
{
    let w = v.emit(c)->Done_0;
    assert(w.bytes.subrange(0, v.bytes.len() as int) =~= v.bytes);
}

/// The log only grows: a pass leaves every byte that was in the stream as
/// it was, and appends at most.
pub proof fn law_pass_only_appends(v: Session, cmds: Seq<CommandView>)
    requires
        v.emit_all(cmds) is Done,
    ensures
        v.bytes.is_prefix_of(v.emit_all(cmds)->Done_0.bytes),
        v.emit_all(cmds)->Done_0.last_trailer_pos == v.last_trailer_pos,
    decreases cmds.len(),
{
    if cmds.len() > 0 {
        law_pass_only_appends(v, cmds.drop_last());
        let before = v.emit_all(cmds.drop_last())->Done_0;
        law_step_only_appends(before, cmds.last());
        let after = before.emit(cmds.last())->Done_0;
        assert(after.bytes.subrange(0, v.bytes.len() as int) =~= before.bytes.subrange(
            0,
            v.bytes.len() as int,
        ));
    }
}

/// The log only grows: a commit leaves every byte that was in the stream as
/// it was, and appends at most a commit marker.
pub proof fn law_commit_only_appends(v: Session)
    ensures
        v.bytes.is_prefix_of(v.finalize().bytes),
        v.commits() ==> v.finalize().bytes == v.bytes + record(CommandView::Trailer(v.trailer())),
        !v.commits() ==> v.finalize() == v,
{
    assert(v.finalize().bytes.subrange(0, v.bytes.len() as int) =~= v.bytes);
}

/// A commit leaves the value as it is: a stream that holds a value still
/// holds it when the pass has been committed.
pub proof fn law_commit_keeps_value(v: Session, cmds: Seq<CommandView>)
    requires
        holds(v.bytes, cmds),
    ensures
        holds(v.finalize().bytes, cmds),
        next_records(v.finalize().bytes, 0, cmds.len()) == Some(cmds),
{
    if v.commits() {
        let x = CommandView::Trailer(v.trailer());
        lemma_record_len(x);
        lemma_slots_kept(v.bytes, cmds, x);
    }
    lemma_holds_reads(v.finalize().bytes, cmds, 0);
    assert(cmds.skip(0) =~= cmds);
}

/// The first forwarding record of a pass lies exactly where the stream
/// ended when the pass began.
pub proof fn law_first_stitch_opens_the_log(v: Session, c: CommandView)
    requires
        v.wf(),
        v.new_stitches == 0,
        v.emit(c) is Done,
        v.emit(c)->Done_0.new_stitches == 1,
    ensures
        v.first_stitch_pos == v.bytes.len(),
        decode_at(v.emit(c)->Done_0.bytes, v.first_stitch_pos) is Record,
        decode_at(v.emit(c)->Done_0.bytes, v.first_stitch_pos)->cmd is Stitch,
        decode_at(v.emit(c)->Done_0.bytes, v.first_stitch_pos)->cmd->Stitch_0.old_pos == slot_at(
            v.bytes,
            v.cursor,
        )->at as u64,
{
    lemma_decode_bounds(v.bytes, v.cursor);
    let slot = slot_at(v.bytes, v.cursor);
    let x = CommandView::Stitch(v.stitch(slot->at, slot->resume));
    lemma_record_len(x);
    lemma_decode_appended(v.bytes, x, record(c));
}

/// A session stays well formed: whatever a pass writes and wherever it is
/// committed, what holds of the state of every session holds afterwards, as
/// long as the stream stays within what a position can name.
pub proof fn law_session_stays_well_formed(v: Session, c: CommandView)
    requires
        v.wf(),
    ensures
        Session::begin(v.bytes).wf(),
        v.reset().wf(),
        v.emit(c) is Done && v.emit(c)->Done_0.bytes.len() <= u64::MAX ==> v.emit(c)->Done_0.wf(),
        v.finalize().bytes.len() <= u64::MAX ==> v.finalize().wf(),
{
    lemma_record_len(c);
    lemma_record_len(CommandView::Trailer(v.trailer()));
    match slot_at(v.bytes, v.cursor) {
        Slot::Value { cmd, at, resume } => {
            lemma_decode_bounds(v.bytes, v.cursor);
            lemma_record_len(CommandView::Stitch(v.stitch(at, resume)));
        },
        _ => {},
    }
}

/// Room that was reserved for a forwarding record and never filled in
/// replaces nothing, wherever it lies: it names position zero as that of the
/// replacement, and no record ends there.
pub proof fn law_reserved_room_replaces_nothing(s: Seq<u8>, from: int, target: int, resume: int)
    requires
        decode_at(s, from) is Record,
        decode_at(s, from)->cmd == CommandView::Stitch(
            crate::meta::Stitch { old_pos: 0, new_pos: 0, next_stitch_pos: 0 },
        ),
    ensures
        !overrides(decode_at(s, from)->cmd->Stitch_0, decode_at(s, from)->end, target, resume),
{
    lemma_decode_bounds(s, from);
}

} // verus!
