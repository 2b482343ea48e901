//! A growable byte store with a read cursor and a write cursor.

use vstd::prelude::*;

verus! {

/// A growable sequence of bytes with two independent cursors: the read
/// cursor is the offset of the next unread byte, the write cursor the offset
/// at which the next byte will be written.
#[derive(Debug)]
pub struct Buffer {
    val: Vec<u8>,
    rpos: usize,
    wpos: usize,
}

/// The mathematical model of a [`Buffer`].
pub struct BufferView {
    /// The stored bytes.
    pub data: Seq<u8>,
    /// The read cursor.
    pub rpos: nat,
    /// The write cursor.
    pub wpos: nat,
}

/// The smaller of two lengths.
pub open spec fn min_len(a: nat, b: nat) -> nat {
    if a <= b {
        a
    } else {
        b
    }
}

impl BufferView {
    /// A buffer that holds nothing, with both cursors at the start.
    pub open spec fn empty() -> BufferView {
        BufferView { data: Seq::empty(), rpos: 0, wpos: 0 }
    }

    /// The invariant of a buffer: the read cursor is not beyond the write
    /// cursor, and the write cursor is not beyond the stored bytes.
    pub open spec fn wf(self) -> bool {
        self.rpos <= self.wpos <= self.data.len()
    }

    /// The bytes that have been written and not yet read.
    pub open spec fn unread(self) -> Seq<u8> {
        self.data.subrange(self.rpos as int, self.wpos as int)
    }

    /// The bytes up to the write cursor: what a reader may ever see.
    pub open spec fn readable(self) -> Seq<u8> {
        self.data.take(self.wpos as int)
    }

    /// The buffer after `bytes` have been written at the write cursor: they
    /// replace what stood there and extend the store where it is too short.
    pub open spec fn written(self, bytes: Seq<u8>) -> BufferView {
        let end = self.wpos + bytes.len();
        BufferView {
            data: self.data.take(self.wpos as int) + bytes + self.data.skip(
                min_len(end, self.data.len()) as int,
            ),
            rpos: self.rpos,
            wpos: end,
        }
    }

    /// How many bytes a read into `room` bytes of space copies.
    pub open spec fn read_len(self, room: nat) -> nat {
        min_len(room, (self.wpos - self.rpos) as nat)
    }

    /// The buffer after `n` bytes have been read.
    pub open spec fn advanced(self, n: nat) -> BufferView {
        BufferView { rpos: self.rpos + n, ..self }
    }

    /// The buffer with its read cursor at `rpos`.
    pub open spec fn at(self, rpos: nat) -> BufferView {
        BufferView { rpos, ..self }
    }

    /// The buffer after its first `n` bytes, or all of them if there are
    /// fewer, have been removed: each cursor moves back by `n`, but not
    /// beyond the start.
    pub open spec fn drained(self, n: nat) -> BufferView {
        BufferView {
            data: self.data.skip(min_len(n, self.data.len()) as int),
            rpos: (self.rpos - min_len(self.rpos, n)) as nat,
            wpos: (self.wpos - min_len(self.wpos, n)) as nat,
        }
    }
}

impl View for Buffer {
    type V = BufferView;

    closed spec fn view(&self) -> BufferView {
        BufferView { data: self.val@, rpos: self.rpos as nat, wpos: self.wpos as nat }
    }
}

impl Buffer {
    /// An empty buffer.
    pub fn new() -> (buffer: Buffer)
        ensures
            buffer@ == BufferView::empty(),
            buffer@.wf(),
    {
        Buffer { val: Vec::new(), rpos: 0, wpos: 0 }
    }

    /// The stored bytes.
    pub fn get_data(&self) -> (data: &Vec<u8>)
        ensures
            data@ == self@.data,
    {
        &self.val
    }

    /// The number of stored bytes.
    pub fn len(&self) -> (n: usize)
        ensures
            n == self@.data.len(),
    {
        self.val.len()
    }

    /// Moves the read cursor to `rpos`, which must not lie beyond the write
    /// cursor.
    pub fn set_rpos(&mut self, rpos: usize)
        requires
            rpos <= old(self)@.wpos,
        ensures
            final(self)@ == old(self)@.at(rpos as nat),
            old(self)@.wf() ==> final(self)@.wf(),
    {
        self.rpos = rpos;
    }

    /// The read cursor.
    pub fn get_rpos(&self) -> (rpos: usize)
        ensures
            rpos == self@.rpos,
    {
        self.rpos
    }

    /// Moves the write cursor to `wpos`, which must lie between the read
    /// cursor and the end of the stored bytes.
    pub fn set_wpos(&mut self, wpos: usize)
        requires
            old(self)@.rpos <= wpos <= old(self)@.data.len(),
        ensures
            final(self)@ == (BufferView { wpos: wpos as nat, ..old(self)@ }),
            final(self)@.wf(),
    {
        self.wpos = wpos;
    }

    /// The write cursor.
    pub fn get_wpos(&self) -> (wpos: usize)
        ensures
            wpos == self@.wpos,
    {
        self.wpos
    }

    /// Removes the first `pos` bytes, or all of them if there are fewer, and
    /// moves both cursors back by `pos`, but not beyond the start.
    pub fn drain(&mut self, pos: usize)
        ensures
            final(self)@ == old(self)@.drained(pos as nat),
            old(self)@.wf() ==> final(self)@.wf(),
    {
        let _ = self.drain_collect(pos);
    }

    /// Like [`Buffer::drain`], and returns the bytes that were removed.
    pub fn drain_collect(&mut self, pos: usize) -> (removed: Vec<u8>)
        ensures
            final(self)@ == old(self)@.drained(pos as nat),
            removed@ == old(self)@.data.take(min_len(pos as nat, old(self)@.data.len()) as int),
            old(self)@.wf() ==> final(self)@.wf(),
    {
        self.rpos = self.rpos - if self.rpos <= pos {
            self.rpos
        } else {
            pos
        };
        self.wpos = self.wpos - if self.wpos <= pos {
            self.wpos
        } else {
            pos
        };
        let n = if pos <= self.val.len() {
            pos
        } else {
            self.val.len()
        };
        let mut rest = self.val.split_off(n);
        core::mem::swap(&mut self.val, &mut rest);
        rest
    }

    /// Removes all bytes and moves both cursors to the start.
    pub fn clear(&mut self)
        ensures
            final(self)@ == BufferView::empty(),
            final(self)@.wf(),
    {
        self.val.clear();
        self.rpos = 0;
        self.wpos = 0;
    }

    /// Copies unread bytes into the front of `buf`, as many as there are or
    /// as `buf` has room for, and moves the read cursor past them. Returns
    /// how many were copied; the rest of `buf` keeps what it held.
    pub fn read(&mut self, buf: &mut [u8]) -> (n: usize)
        requires
            old(self)@.wf(),
        ensures
            n == old(self)@.read_len(old(buf)@.len()),
            final(self)@ == old(self)@.advanced(n as nat),
            final(buf)@ == old(self)@.unread().take(n as int) + old(buf)@.skip(n as int),
            final(self)@.wf(),
    {
        let left = self.wpos - self.rpos;
        let n = if left > buf.len() {
            buf.len()
        } else {
            left
        };
        let mut i: usize = 0;
        while i < n
            invariant
                i <= n,
                n <= buf@.len(),
                self.rpos + n <= self.wpos <= self.val@.len(),
                *self == *old(self),
                buf@.len() == old(buf)@.len(),
                buf@ =~= old(self)@.unread().take(i as int) + old(buf)@.skip(i as int),
            decreases n - i,
        {
            buf[i] = self.val[self.rpos + i];
            i += 1;
        }
        self.rpos = self.rpos + n;
        n
    }

    /// Writes `buf` at the write cursor, growing the store where it is too
    /// short, and moves the write cursor past it. Returns the number of
    /// bytes written, which is all of them.
    pub fn write(&mut self, buf: &[u8]) -> (n: usize)
        requires
            old(self)@.wf(),
        ensures
            n == buf@.len(),
            final(self)@ == old(self)@.written(buf@),
            final(self)@.wf(),
    {
        let mut i: usize = 0;
        while i < buf.len()
            invariant
                i <= buf@.len(),
                old(self)@.wf(),
                self.rpos == old(self).rpos,
                self.wpos == old(self).wpos + i,
                self.wpos <= self.val@.len(),
                self.val@ =~= old(self)@.written(buf@.take(i as int)).data,
            decreases buf@.len() - i,
        {
            if self.wpos < self.val.len() {
                self.val[self.wpos] = buf[i];
            } else {
                self.val.push(buf[i]);
            }
            assert(self.wpos < self.val.len());
            self.wpos = self.wpos + 1;
            i += 1;
        }
        assert(buf@.take(i as int) =~= buf@);
        i
    }
}

/// Writing keeps the invariant, and moves the write cursor by the number of
/// bytes written while the read cursor stays.
pub proof fn lemma_written(b: BufferView, bytes: Seq<u8>)
    requires
        b.wf(),
    ensures
        b.written(bytes).wf(),
        b.written(bytes).rpos == b.rpos,
        b.written(bytes).wpos == b.wpos + bytes.len(),
        b.written(bytes).data.subrange(b.wpos as int, (b.wpos + bytes.len()) as int) == bytes,
        b.written(bytes).data.take(b.wpos as int) == b.data.take(b.wpos as int),
        b.written(Seq::empty()) == b,
{
    let w = b.written(bytes);
    assert(w.data.subrange(b.wpos as int, (b.wpos + bytes.len()) as int) =~= bytes);
    assert(w.data.take(b.wpos as int) =~= b.data.take(b.wpos as int));
    assert(b.written(Seq::empty()).data =~= b.data);
}

/// Two writes in a row are one write of the two byte strings joined.
pub proof fn lemma_written_twice(b: BufferView, first: Seq<u8>, second: Seq<u8>)
    requires
        b.wf(),
    ensures
        b.written(first).written(second) == b.written(first + second),
{
    assert(b.written(first).written(second).data =~= b.written(first + second).data);
}

/// After `bytes` have been written to an empty buffer and a read has asked
/// for `m` bytes, no more than were written, the read has copied `m` bytes,
/// the first `m` of those written; the read cursor is `m` and the write
/// cursor is the number of bytes written.
pub proof fn lemma_write_then_read(bytes: Seq<u8>, m: nat)
    requires
        m <= bytes.len(),
    ensures
        ({
            let w = BufferView::empty().written(bytes);
            let r = w.advanced(w.read_len(m));
            &&& w.read_len(m) == m
            &&& w.unread().take(m as int) == bytes.take(m as int)
            &&& r.rpos == m
            &&& r.wpos == bytes.len()
            &&& r.wf()
        }),
{
    let w = BufferView::empty().written(bytes);
    assert(w.data =~= bytes);
    assert(w.unread().take(m as int) =~= bytes.take(m as int));
}

/// Reading keeps the invariant, and a read from a buffer whose bytes have
/// all been read copies nothing and changes nothing.
pub proof fn lemma_read(b: BufferView, room: nat)
    requires
        b.wf(),
    ensures
        b.advanced(b.read_len(room)).wf(),
        b.rpos == b.wpos ==> b.read_len(room) == 0 && b.advanced(b.read_len(room)) == b,
{
}

/// Draining keeps the invariant, removes `min(n, len)` bytes from the front
/// and keeps the rest, and moves each cursor back by `min(n, cursor)`.
pub proof fn lemma_drained(b: BufferView, n: nat)
    requires
        b.wf(),
    ensures
        b.drained(n).wf(),
        b.drained(n).data.len() == b.data.len() - min_len(n, b.data.len()),
        b.data == b.data.take(min_len(n, b.data.len()) as int) + b.drained(n).data,
        b.drained(n).rpos == b.rpos - min_len(n, b.rpos),
        b.drained(n).wpos == b.wpos - min_len(n, b.wpos),
{
    assert(b.data =~= b.data.take(min_len(n, b.data.len()) as int) + b.drained(n).data);
}

} // verus!
