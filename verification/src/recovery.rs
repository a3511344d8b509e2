//! What holds of commit markers and of the search for the latest one.

use crate::frame::decode_at;
use crate::frame::lemma_decode_appended;
use crate::frame::lemma_decode_stable;
use crate::frame::lemma_record_len;
use crate::frame::record;
use crate::frame::HEADER_LEN;
use crate::frame::TRAILER_RECORD_LEN;
use crate::meta::last_trailer;
use crate::meta::lemma_trailer_text_round_trip;
use crate::meta::scan_back;
use crate::meta::trailer_at;
use crate::meta::Trailer;
use crate::meta::MAGIC;
use crate::meta::RECOVERY_WINDOW;
use crate::laws::law_pass_only_appends;
use crate::scmd::CommandView;
use crate::session::Session;
use crate::session::Step;
use vstd::bytes::spec_u64_from_le_bytes;
use vstd::prelude::*;

verus! {

/// A commit marker lies whole within the stream and takes fifty-nine bytes.
pub proof fn lemma_trailer_is_whole(s: Seq<u8>, pos: int)
    requires
        trailer_at(s, pos) is Some,
    ensures
        0 <= pos,
        pos + TRAILER_RECORD_LEN <= s.len(),
        decode_at(s, pos)->end == pos + TRAILER_RECORD_LEN,
{
}

/// Whether a commit marker starts at a position depends on the fifty-nine
/// bytes from that position on and on nothing else: where they lie within a
/// stream, appending to the stream changes nothing.
pub proof fn lemma_trailer_is_local(s: Seq<u8>, ext: Seq<u8>, pos: int)
    requires
        pos + TRAILER_RECORD_LEN <= s.len(),
    ensures
        trailer_at(s + ext, pos) == trailer_at(s, pos),
{
    let u = s + ext;
    if trailer_at(s, pos) is Some {
        lemma_decode_stable(s, ext, pos);
    } else if trailer_at(u, pos) is Some {
        lemma_trailer_is_whole(u, pos);
        let n = spec_u64_from_le_bytes(u.subrange(pos + 1, pos + HEADER_LEN)) as int;
        assert(u.subrange(pos + 1, pos + HEADER_LEN) =~= s.subrange(pos + 1, pos + HEADER_LEN));
        assert(u.subrange(pos + HEADER_LEN, pos + HEADER_LEN + n) =~= s.subrange(
            pos + HEADER_LEN,
            pos + HEADER_LEN + n,
        ));
        assert(u[pos] == s[pos]);
        assert(decode_at(s, pos) == decode_at(u, pos));
    }
}

/// A commit marker that has been appended is found where it was appended.
pub proof fn lemma_trailer_appended(s: Seq<u8>, t: Trailer, rest: Seq<u8>)
    requires
        t.magic == MAGIC,
    ensures
        trailer_at(s + record(CommandView::Trailer(t)) + rest, s.len() as int) == Some(t),
        record(CommandView::Trailer(t)).len() == TRAILER_RECORD_LEN,
{
    let x = CommandView::Trailer(t);
    lemma_record_len(x);
    lemma_trailer_text_round_trip(t);
    lemma_decode_appended(s, x, rest);
}

/// The search skips the positions at which no commit marker starts.
pub proof fn lemma_scan_back_skips(s: Seq<u8>, i: int, j: int)
    requires
        0 <= i <= j,
        j <= RECOVERY_WINDOW,
        j <= s.len() + 1,
        forall|k: int| i <= k < j ==> (#[trigger] trailer_at(s, s.len() - k)) is None,
    ensures
        scan_back(s, i) == scan_back(s, j),
    decreases j - i,
{
    if i < j {
        assert(trailer_at(s, s.len() - i) is None);
        lemma_scan_back_skips(s, i + 1, j);
    }
}

/// What the search answers, said without the search: the commit marker that
/// starts nearest to the end of the stream, within the window; and nothing
/// exactly where no commit marker starts within the window.
pub proof fn lemma_scan_back_is_nearest(s: Seq<u8>, i: int)
    requires
        0 <= i,
    ensures
        match scan_back(s, i) {
            Some((t, pos)) => {
                &&& trailer_at(s, pos) == Some(t)
                &&& 0 <= pos <= s.len() - i
                &&& s.len() - pos < RECOVERY_WINDOW
                &&& forall|q: int| pos < q <= s.len() - i ==> (#[trigger] trailer_at(s, q)) is None
            },
            None => forall|q: int|
                0 <= q <= s.len() - i && s.len() - q < RECOVERY_WINDOW ==> (#[trigger] trailer_at(
                    s,
                    q,
                )) is None,
        },
    decreases RECOVERY_WINDOW - i,
{
    if i >= RECOVERY_WINDOW || i > s.len() {
    } else {
        match trailer_at(s, s.len() - i) {
            Some(t) => {},
            None => {
                lemma_scan_back_is_nearest(s, i + 1);
            },
        }
    }
}

/// Recovery after a commit: a stream that ends with a commit marker has that
/// marker as its latest commit, whatever lies before it.
pub proof fn law_recover_finds_commit(s: Seq<u8>, t: Trailer)
    requires
        t.magic == MAGIC,
    ensures
        last_trailer(s + record(CommandView::Trailer(t))) == Some((t, s.len() as int)),
{
    let u = s + record(CommandView::Trailer(t));
    assert(u =~= s + record(CommandView::Trailer(t)) + Seq::<u8>::empty());
    lemma_trailer_appended(s, t, Seq::<u8>::empty());
    assert forall|k: int| 0 <= k < TRAILER_RECORD_LEN implies (#[trigger] trailer_at(
        u,
        u.len() - k,
    )) is None by {
        if trailer_at(u, u.len() - k) is Some {
            lemma_trailer_is_whole(u, u.len() - k);
        }
    }
    lemma_scan_back_skips(u, 0, TRAILER_RECORD_LEN as int);
}

/// Recovery after a torn commit: when a stream is cut inside its last commit
/// marker, no position from the start of that marker on holds a commit
/// marker any more, so the search does not answer with it.
pub proof fn law_torn_commit_is_skipped(s: Seq<u8>, t: Trailer, keep: int)
    requires
        0 <= keep < TRAILER_RECORD_LEN,
    ensures
        forall|q: int|
            s.len() <= q ==> (#[trigger] trailer_at(
                (s + record(CommandView::Trailer(t))).take(s.len() + keep),
                q,
            )) is None,
        match last_trailer((s + record(CommandView::Trailer(t))).take(s.len() + keep)) {
            Some((_, pos)) => pos < s.len(),
            None => true,
        },
{
    let x = CommandView::Trailer(t);
    lemma_record_len(x);
    let cut = (s + record(x)).take(s.len() + keep);
    assert forall|q: int| s.len() <= q implies (#[trigger] trailer_at(cut, q)) is None by {
        if trailer_at(cut, q) is Some {
            lemma_trailer_is_whole(cut, q);
        }
    }
    lemma_scan_back_is_nearest(cut, 0);
}

/// Recovery falls back: where a whole commit marker starts within the
/// window and no commit marker starts behind it, the search answers with
/// it.
pub proof fn law_recover_falls_back(s: Seq<u8>, pos: int, t: Trailer)
    requires
        trailer_at(s, pos) == Some(t),
        s.len() - pos < RECOVERY_WINDOW,
        forall|q: int| pos < q <= s.len() ==> (#[trigger] trailer_at(s, q)) is None,
    ensures
        last_trailer(s) == Some((t, pos)),
{
    lemma_trailer_is_whole(s, pos);
    lemma_scan_back_skips(s, 0, s.len() - pos);
}

/// Recovery of a stream without commits: where no commit marker starts
/// within the window, the search finds nothing.
pub proof fn law_recover_finds_nothing(s: Seq<u8>)
    requires
        forall|q: int|
            0 <= q <= s.len() && s.len() - q < RECOVERY_WINDOW ==> (#[trigger] trailer_at(s, q))
                is None,
    ensures
        last_trailer(s) is None,
{
    lemma_scan_back_is_nearest(s, 0);
    match last_trailer(s) {
        Some((t, pos)) => {
            assert(trailer_at(s, pos) is Some);
        },
        None => {},
    }
}

/// Recovery after a torn commit falls back to the commit before it: when a
/// stream is cut inside its last commit marker, the search answers with the
/// nearest whole commit marker before it, provided that one starts within
/// the window and nothing between the two reads as a commit marker.
pub proof fn law_recover_after_torn_commit(
    s: Seq<u8>,
    t: Trailer,
    keep: int,
    before: Trailer,
    pos: int,
)
    requires
        0 <= keep < TRAILER_RECORD_LEN,
        trailer_at(s, pos) == Some(before),
        s.len() + keep - pos < RECOVERY_WINDOW,
        forall|q: int|
            pos < q < s.len() ==> (#[trigger] trailer_at(
                (s + record(CommandView::Trailer(t))).take(s.len() + keep),
                q,
            )) is None,
    ensures
        last_trailer((s + record(CommandView::Trailer(t))).take(s.len() + keep)) == Some(
            (before, pos),
        ),
{
    let x = CommandView::Trailer(t);
    lemma_record_len(x);
    let cut = (s + record(x)).take(s.len() + keep);
    let torn = record(x).take(keep);
    assert(cut =~= s + torn);
    lemma_trailer_is_whole(s, pos);
    lemma_trailer_is_local(s, torn, pos);
    law_torn_commit_is_skipped(s, t, keep);
    law_recover_falls_back(cut, pos, before);
}

/// Recovery after a torn first commit finds nothing: when a stream is cut
/// inside its last commit marker and nothing before the cut reads as a
/// commit marker, the search finds no commit.
pub proof fn law_recover_after_torn_first_commit(s: Seq<u8>, t: Trailer, keep: int)
    requires
        0 <= keep < TRAILER_RECORD_LEN,
        forall|q: int|
            0 <= q < s.len() ==> (#[trigger] trailer_at(
                (s + record(CommandView::Trailer(t))).take(s.len() + keep),
                q,
            )) is None,
    ensures
        last_trailer((s + record(CommandView::Trailer(t))).take(s.len() + keep)) is None,
{
    let cut = (s + record(CommandView::Trailer(t))).take(s.len() + keep);
    law_torn_commit_is_skipped(s, t, keep);
    law_recover_finds_nothing(cut);
}

/// How many commit markers are reached from the one at `pos` by going from
/// each to the one before it, as long as each names an earlier position at
/// which a commit marker starts.
pub open spec fn chain_len(s: Seq<u8>, pos: Option<u64>) -> nat
    decreases
            (match pos {
                Some(p) => p as int + 1,
                None => 0,
            }),
{
    match pos {
        None => 0,
        Some(p) => match trailer_at(s, p as int) {
            Some(t) => match t.prev_trailer_pos {
                Some(q) => if q < p {
                    1 + chain_len(s, Some(q))
                } else {
                    1
                },
                None => 1,
            },
            None => 0,
        },
    }
}

/// The state after a row of sessions on a stream that was empty at first.
/// Each session opens the stream, writes the records of one pass and commits
/// it. `None` where a pass was refused or had nothing to commit.
pub open spec fn committed(passes: Seq<Seq<CommandView>>) -> Option<Session>
    decreases passes.len(),
{
    if passes.len() == 0 {
        Some(Session::begin(Seq::<u8>::empty()))
    } else {
        match committed(passes.drop_last()) {
            Some(before) => match Session::begin(before.bytes).emit_all(passes.last()) {
                Step::Done(written) => if written.commits() {
                    Some(written.finalize())
                } else {
                    None
                },
                Step::Failed(_) => None,
            },
            None => None,
        }
    }
}

/// Appending to a stream leaves the chain of its commit markers as long as
/// it was.
pub proof fn lemma_chain_stable(s: Seq<u8>, ext: Seq<u8>, pos: Option<u64>)
    requires
        pos is Some ==> pos->Some_0 + TRAILER_RECORD_LEN <= s.len(),
    ensures
        chain_len(s + ext, pos) == chain_len(s, pos),
    decreases
            (match pos {
                Some(p) => p as int + 1,
                None => 0,
            }),
{
    match pos {
        None => {},
        Some(p) => {
            lemma_trailer_is_local(s, ext, p as int);
            match trailer_at(s, p as int) {
                Some(t) => match t.prev_trailer_pos {
                    Some(q) => {
                        if q < p {
                            lemma_chain_stable(s, ext, Some(q));
                        }
                    },
                    None => {},
                },
                None => {},
            }
        },
    }
}

/// A commit that writes a marker makes the chain of commit markers one
/// longer.
pub proof fn law_commit_extends_chain(v: Session)
    requires
        v.commits(),
        v.bytes.len() <= u64::MAX,
        v.last_trailer_pos is Some ==> v.last_trailer_pos->Some_0 + TRAILER_RECORD_LEN
            <= v.bytes.len(),
    ensures
        v.finalize().last_trailer_pos == Some(v.bytes.len() as u64),
        trailer_at(v.finalize().bytes, v.bytes.len() as int) == Some(v.trailer()),
        last_trailer(v.finalize().bytes) == Some((v.trailer(), v.bytes.len() as int)),
        chain_len(v.finalize().bytes, v.finalize().last_trailer_pos) == chain_len(
            v.bytes,
            v.last_trailer_pos,
        ) + 1,
{
    let t = v.trailer();
    let ext = record(CommandView::Trailer(t));
    let u = v.bytes + ext;
    assert(u =~= v.bytes + ext + Seq::<u8>::empty());
    lemma_trailer_appended(v.bytes, t, Seq::<u8>::empty());
    law_recover_finds_commit(v.bytes, t);
    lemma_chain_stable(v.bytes, ext, v.last_trailer_pos);
}

/// The chain of commits: after a row of sessions on a stream that was empty
/// at first, each of which opened the stream, wrote a pass and had something
/// to commit, going back from the latest commit marker to the one before it,
/// and so on, reaches exactly as many commit markers as there were sessions.
pub proof fn law_commits_chain(passes: Seq<Seq<CommandView>>)
    requires
        committed(passes) is Some,
        committed(passes)->Some_0.bytes.len() <= u64::MAX,
    ensures
        chain_len(committed(passes)->Some_0.bytes, committed(passes)->Some_0.last_trailer_pos)
            == passes.len(),
        passes.len() > 0 ==> last_trailer(committed(passes)->Some_0.bytes) is Some
            && committed(passes)->Some_0.last_trailer_pos == Some(
            last_trailer(committed(passes)->Some_0.bytes)->Some_0.1 as u64,
        ) && last_trailer(committed(passes)->Some_0.bytes)->Some_0.1 + TRAILER_RECORD_LEN
            == committed(passes)->Some_0.bytes.len(),
        passes.len() == 0 ==> committed(passes)->Some_0.bytes.len() == 0,
    decreases passes.len(),
{
    let nothing = Seq::<u8>::empty();
    if passes.len() == 0 {
        assert(scan_back(nothing, 1) is None);
        assert(last_trailer(nothing) is None);
    } else {
        let before = committed(passes.drop_last())->Some_0;
        let opened = Session::begin(before.bytes);
        let written = opened.emit_all(passes.last())->Done_0;
        let after = written.finalize();
        law_pass_only_appends(opened, passes.last());
        let grown = written.bytes.skip(before.bytes.len() as int);
        assert(written.bytes =~= before.bytes + grown);
        lemma_record_len(CommandView::Trailer(written.trailer()));
        law_commits_chain(passes.drop_last());
        if passes.len() == 1 {
            assert(scan_back(nothing, 1) is None);
            assert(last_trailer(nothing) is None);
            assert(before.bytes =~= nothing);
        } else {
            lemma_trailer_is_whole(before.bytes, last_trailer(before.bytes)->Some_0.1);
        }
        assert(opened.last_trailer_pos == before.last_trailer_pos);
        lemma_chain_stable(before.bytes, grown, before.last_trailer_pos);
        law_commit_extends_chain(written);
    }
}

} // verus!
