//! The byte store that a session reads and writes.

use crate::error::Error;
use crate::error::ErrorKind;
use vstd::prelude::*;

verus! {

/// A growable run of bytes with a cursor, held in memory.
///
/// Reading never moves the cursor. Writing replaces the bytes under the
/// cursor, grows the store where the cursor reaches its end, and leaves the
/// cursor behind what was written. The cursor never lies beyond the end.
pub struct Buffer {
    data: Vec<u8>,
    pos: usize,
}

/// What a session owns while it is active, and hands over when it ends.
pub struct State {
    pub buf: Buffer,
}

/// The bytes of `old` with `data` written at `at`.
pub open spec fn overwritten(old: Seq<u8>, at: int, data: Seq<u8>) -> Seq<u8> {
    if at + data.len() >= old.len() {
        old.subrange(0, at) + data
    } else {
        old.subrange(0, at) + data + old.subrange(at + data.len(), old.len() as int)
    }
}

impl Buffer {
    /// Everything that has been written.
    pub closed spec fn bytes(&self) -> Seq<u8> {
        self.data@
    }

    /// Where the next write goes.
    pub closed spec fn cursor(&self) -> int {
        if self.pos <= self.data@.len() {
            self.pos as int
        } else {
            self.data@.len() as int
        }
    }

    /// The cursor lies within what has been written, or at its end, and the
    /// length of what has been written fits a machine word.
    pub proof fn lemma_cursor_in_range(&self)
        ensures
            0 <= self.cursor() <= self.bytes().len() <= usize::MAX,
    {
        assert(self.data@.len() == self.data.len());
    }

    /// An empty store.
    pub fn new() -> (buf: Buffer)
        ensures
            buf.bytes() == Seq::<u8>::empty(),
            buf.cursor() == 0,
    {
        Buffer { data: Vec::new(), pos: 0 }
    }

    /// A store that holds `data`, with the cursor at the start.
    pub fn from_vec(data: Vec<u8>) -> (buf: Buffer)
        ensures
            buf.bytes() == data@,
            buf.cursor() == 0,
    {
        Buffer { data, pos: 0 }
    }

    /// Gives up the store for its bytes.
    pub fn into_vec(self) -> (data: Vec<u8>)
        ensures
            data@ == self.bytes(),
    {
        self.data
    }

    /// The bytes, to read.
    pub fn as_slice(&self) -> (data: &[u8])
        ensures
            data@ == self.bytes(),
            self.cursor() <= data@.len(),
    {
        self.data.as_slice()
    }

    /// How many bytes have been written.
    pub fn len(&self) -> (n: u64)
        ensures
            n == self.bytes().len(),
            self.cursor() <= n,
    {
        self.data.len() as u64
    }

    /// Where the cursor is.
    pub fn position(&self) -> (pos: u64)
        ensures
            pos == self.cursor(),
            0 <= self.cursor() <= self.bytes().len(),
    {
        if self.pos <= self.data.len() {
            self.pos as u64
        } else {
            self.data.len() as u64
        }
    }

    /// Moves the cursor to `pos`, which must not lie beyond the end.
    pub fn seek(&mut self, pos: u64) -> (res: Result<u64, Error>)
        ensures
            final(self).bytes() == old(self).bytes(),
            pos <= old(self).bytes().len() ==> res == Ok::<u64, Error>(pos) && final(self).cursor()
                == pos,
            pos > old(self).bytes().len() ==> res == Err::<u64, Error>(
                Error { kind: ErrorKind::Io },
            ) && final(self).cursor() == old(self).cursor(),
    {
        if pos > self.data.len() as u64 {
            return Err(Error { kind: ErrorKind::Io });
        }
        self.pos = pos as usize;
        Ok(pos)
    }

    /// Moves the cursor to the start.
    pub fn rewind(&mut self)
        ensures
            final(self).bytes() == old(self).bytes(),
            final(self).cursor() == 0,
    {
        self.pos = 0;
    }

    /// Moves the cursor to the end and says where that is.
    pub fn seek_end(&mut self) -> (pos: u64)
        ensures
            final(self).bytes() == old(self).bytes(),
            final(self).cursor() == old(self).bytes().len(),
            pos == old(self).bytes().len(),
    {
        self.pos = self.data.len();
        self.pos as u64
    }

    /// Writes `data` at the cursor.
    pub fn write(&mut self, data: &[u8])
        ensures
            final(self).bytes() == overwritten(old(self).bytes(), old(self).cursor(), data@),
            final(self).cursor() == old(self).cursor() + data@.len(),
    {
        if self.pos > self.data.len() {
            self.pos = self.data.len();
        }
        let ghost before = self.data@;
        let ghost start = self.pos as int;
        let mut i: usize = 0;
        while i < data.len()
            invariant
                0 <= i <= data@.len(),
                self.pos == start + i,
                self.pos <= self.data@.len(),
                0 <= start <= before.len(),
                self.data@ == overwritten(before, start, data@.subrange(0, i as int)),
            decreases data@.len() - i,
        {
            if self.pos < self.data.len() {
                self.data.set(self.pos, data[i]);
            } else {
                self.data.push(data[i]);
            }
            assert(self.pos < self.data@.len() == self.data.len());
            self.pos = self.pos + 1;
            i = i + 1;
            assert(self.data@ =~= overwritten(before, start, data@.subrange(0, i as int)));
        }
        assert(data@.subrange(0, i as int) =~= data@);
    }
}

} // verus!
