//! Incrementally filled byte buffers.
use vstd::prelude::*;

verus! {

/// A borrowed byte buffer which is incrementally filled.
pub struct BorrowedBuffer<'data> {
    /// The buffer's underlying data.
    buffer: &'data mut [u8],
    /// The length of `buffer` which is known to be filled.
    filled: usize,
}

impl<'data> BorrowedBuffer<'data> {
    /// The bytes of the whole underlying buffer.
    pub closed spec fn data(&self) -> Seq<u8> {
        self.buffer@
    }

    /// The number of filled bytes.
    pub closed spec fn filled_len(&self) -> nat {
        self.filled as nat
    }

    /// The buffer's invariant: the filled part lies within the buffer.
    pub closed spec fn wf(&self) -> bool {
        self.filled <= self.buffer@.len()
    }

    /// The filled bytes.
    pub open spec fn filled_bytes(&self) -> Seq<u8> {
        self.data().take(self.filled_len() as int)
    }

    /// Create an unfilled buffer using `buffer` as backing storage.
    pub fn new(buffer: &'data mut [u8]) -> (r: Self)
        ensures
            r.wf(),
            r.data() == old(buffer)@,
            r.filled_len() == 0,
    {
        BorrowedBuffer { buffer, filled: 0 }
    }

    /// Returns the total capacity of the buffer.
    pub fn capacity(&self) -> (r: usize)
        ensures
            r == self.data().len(),
    {
        self.buffer.len()
    }

    /// Returns the length of the filled part of the buffer.
    pub fn len(&self) -> (r: usize)
        ensures
            r == self.filled_len(),
    {
        self.filled
    }

    /// Returns true if the buffer length is zero.
    pub fn is_empty(&self) -> (r: bool)
        ensures
            r == (self.filled_len() == 0),
    {
        self.filled == 0
    }

    /// Returns a shared reference to the filled portion of the buffer.
    pub fn filled(&self) -> (r: &[u8])
        requires
            self.wf(),
        ensures
            r@ == self.filled_bytes(),
    {
        let (head, _tail) = self.buffer.split_at(self.filled);
        head
    }

    /// Returns a mutable reference to the filled portion of the buffer.
    pub fn filled_mut<'b>(&'b mut self) -> (r: &'b mut [u8])
        requires
            old(self).wf(),
        ensures
            r@ == old(self).filled_bytes(),
            final(self).filled_len() == old(self).filled_len(),
            final(self).data() == final(r)@ + old(self).data().skip(old(self).filled_len() as int),
    {
        let filled = self.filled;
        let (filled_part, _unfilled) = self.buffer.split_at_mut(filled);
        filled_part
    }

    /// Returns a cursor over the unfilled part of the buffer.
    pub fn unfilled<'b>(&'b mut self) -> (r: BorrowedCursor<'b, 'data>)
        ensures
            *r.buf == *old(self),
            *final(self) == *final(r.buf),
    {
        BorrowedCursor { buf: self }
    }
}

/// The error produced by [`BorrowedCursor::try_append`]
#[derive(Debug)]
pub struct FailedToAppendError<'a> {
    /// The portion of data that was appended to the [`BorrowedCursor`].
    pub written_data: &'a [u8],
    /// The portion of data that could not be appended to the [`BorrowedCursor`].
    pub unwritten_data: &'a [u8],
}

/// A position within a [`BorrowedBuffer`], as returned by [`BorrowedCursor::position`].
#[derive(Clone, Copy)]
pub struct BorrowedCursorPosition(pub usize);

impl BorrowedCursorPosition {
    /// The number of bytes from `earlier` to `self`.
    pub fn sub(self, earlier: Self) -> (r: usize)
        requires
            earlier.0 <= self.0,
        ensures
            r == self.0 - earlier.0,
    {
        self.0 - earlier.0
    }
}

/// A writeable view of the unfilled portion of a [`BorrowedBuffer`].
pub struct BorrowedCursor<'a, 'data> {
    /// The buffer being filled.
    pub buf: &'a mut BorrowedBuffer<'data>,
}

impl<'a, 'data> BorrowedCursor<'a, 'data> {
    /// Reborrows this cursor with a smaller lifetime.
    pub fn reborrow<'b>(&'b mut self) -> (r: BorrowedCursor<'b, 'data>)
        ensures
            *r.buf == *old(self).buf,
            *final(self).buf == *final(r.buf),
    {
        BorrowedCursor { buf: &mut *self.buf }
    }

    /// Returns the available space in the cursor.
    pub fn remaining_capacity(&self) -> (r: usize)
        requires
            old(self.buf).wf(),
        ensures
            r == old(self.buf).data().len() - old(self.buf).filled_len(),
    {
        self.buf.buffer.len() - self.buf.filled
    }

    /// Returns the current position of the cursor.
    pub fn position(&self) -> (r: BorrowedCursorPosition)
        ensures
            r.0 == old(self.buf).filled_len(),
    {
        BorrowedCursorPosition(self.buf.filled)
    }

    /// Returns the unfilled part of the buffer, to be written into directly.
    pub fn as_mut_slice<'b>(&'b mut self) -> (r: &'b mut [u8])
        requires
            old(self).buf.wf(),
        ensures
            r@ == old(self).buf.data().skip(old(self).buf.filled_len() as int),
            final(self).buf.wf(),
            *final(final(self).buf) == *final(old(self).buf),
            final(self).buf.filled_len() == old(self).buf.filled_len(),
            final(self).buf.data() == old(self).buf.data().take(old(self).buf.filled_len() as int)
                + final(r)@,
    {
        let filled = self.buf.filled;
        let (_filled_part, unfilled) = self.buf.buffer.split_at_mut(filled);
        unfilled
    }

    /// Advances the cursor by asserting that `n` elements have been filled.
    /// The cursor won't be advanced off the end of the buffer.
    pub fn advance(&mut self, n: usize)
        requires
            old(self).buf.wf(),
        ensures
            final(self).buf.wf(),
            *final(final(self).buf) == *final(old(self).buf),
            final(self).buf.data() == old(self).buf.data(),
            final(self).buf.filled_len() == if old(self).buf.filled_len() + n > old(self).buf.data().len() {
                old(self).buf.data().len() as int
            } else {
                old(self).buf.filled_len() + n
            },
    {
        let len = self.buf.buffer.len();
        let room = len - self.buf.filled;
        if n > room {
            self.buf.filled = len;
        } else {
            self.buf.filled = self.buf.filled + n;
        }
    }

    /// Try to append `data` to the buffer.
    /// If there's not enough space in the buffer, as much data as possible is appended,
    /// and the returned [`FailedToAppendError`] indicates how much data was appended.
    pub fn try_append<'d>(&mut self, data: &'d [u8]) -> (r: Result<(), FailedToAppendError<'d>>)
        requires
            old(self).buf.wf(),
        ensures
            final(self).buf.wf(),
            *final(final(self).buf) == *final(old(self).buf),
            ({
                let before = old(self).buf;
                let after = final(self).buf;
                let room = before.data().len() - before.filled_len();
                let written: int = if data@.len() <= room { data@.len() as int } else { room };
                &&& after.data().len() == before.data().len()
                &&& after.filled_len() == before.filled_len() + written
                &&& after.filled_bytes() == before.filled_bytes() + data@.take(written as int)
                &&& after.data().skip(after.filled_len() as int) == before.data().skip(after.filled_len() as int)
                &&& match r {
                    Ok(()) => data@.len() <= room,
                    Err(e) => data@.len() > room && e.written_data@ == data@.take(room as int)
                        && e.unwritten_data@ == data@.skip(room as int),
                }
            }),
    {
        let filled = self.buf.filled;
        let room = self.buf.buffer.len() - filled;
        let ghost before = self.buf.buffer@;
        let count = if data.len() <= room { data.len() } else { room };
        let mut i: usize = 0;
        while i < count
            invariant
                self.buf.filled == filled,
                *final(self.buf) == *final(old(self).buf),
                filled + count <= self.buf.buffer@.len(),
                filled + count <= usize::MAX,
                count <= data@.len(),
                i <= count,
                self.buf.buffer@.len() == before.len(),
                forall|k: int| 0 <= k < filled ==> #[trigger] self.buf.buffer@[k] == before[k],
                forall|k: int| 0 <= k < i ==> #[trigger] self.buf.buffer@[filled + k] == data@[k],
                forall|k: int|
                    filled + count <= k < before.len() ==> #[trigger] self.buf.buffer@[k] == before[k],
            decreases count - i,
        {
            self.buf.buffer[filled + i] = data[i];
            i = i + 1;
        }
        self.buf.filled = filled + count;
        assert forall|k: int| filled <= k < filled + count implies #[trigger] self.buf.buffer@[k] == data@[k - filled] by {
            assert(self.buf.buffer@[filled + (k - filled)] == data@[k - filled]);
        }
        assert(self.buf.buffer@.take((filled + count) as int) =~= before.take(filled as int) + data@.take(count as int));
        assert(self.buf.buffer@.skip((filled + count) as int) =~= before.skip((filled + count) as int));
        if data.len() <= room {
            Ok(())
        } else {
            let (written_data, unwritten_data) = data.split_at(room);
            Err(FailedToAppendError { written_data, unwritten_data })
        }
    }

    /// Runs `f` on a fresh buffer holding the unfilled part of this buffer; what `f` leaves in
    /// that buffer becomes the unfilled part here, and what `f` filled there is counted as
    /// filled here. `f` must leave the buffer it is given well formed and of the same capacity.
    pub fn with_unfilled_buf<T, F: FnOnce(&mut BorrowedBuffer) -> T>(&mut self, f: F) -> (r: T)
        requires
            old(self).buf.wf(),
            forall|b: &mut BorrowedBuffer| b.wf() ==> call_requires(f, (b,)),
            forall|b: &mut BorrowedBuffer, out: T|
                call_ensures(f, (b,), out) ==> final(b).wf() && final(b).data().len() == b.data().len(),
        ensures
            final(self).buf.wf(),
            *final(final(self).buf) == *final(old(self).buf),
            final(self).buf.data().len() == old(self).buf.data().len(),
            exists|b: &mut BorrowedBuffer|
                #![trigger call_ensures(f, (b,), r)]
                {
                    &&& call_ensures(f, (b,), r)
                    &&& b.wf()
                    &&& b.filled_len() == 0
                    &&& b.data() == old(self).buf.data().skip(old(self).buf.filled_len() as int)
                    &&& final(self).buf.data() == old(self).buf.filled_bytes() + final(b).data()
                    &&& final(self).buf.filled_len() == old(self).buf.filled_len() + final(b).filled_len()
                },
    {
        let before = self.buf.filled;
        let len = self.buf.buffer.len();
        let mut unfilled: Vec<u8> = Vec::new();
        let mut i: usize = before;
        while i < len
            invariant
                *final(self.buf) == *final(old(self).buf),
                before <= i <= len,
                len == self.buf.buffer@.len(),
                unfilled@ == self.buf.buffer@.subrange(before as int, i as int),
            decreases len - i,
        {
            unfilled.push(self.buf.buffer[i]);
            i = i + 1;
        }
        assert(unfilled@ == self.buf.data().skip(before as int));
        let mut inner = BorrowedBuffer::new(unfilled.as_mut_slice());
        let b_ref = &mut inner;
        let output = f(b_ref);
        let added = inner.filled;
        let ghost start = self.buf.buffer@;
        let mut k: usize = 0;
        while k < inner.buffer.len()
            invariant
                *final(self.buf) == *final(old(self).buf),
                inner.wf(),
                before + inner.buffer@.len() == len,
                self.buf.buffer@.len() == len,
                self.buf.filled == before,
                k <= inner.buffer@.len(),
                forall|j: int| 0 <= j < before ==> #[trigger] self.buf.buffer@[j] == start[j],
                forall|j: int| 0 <= j < k ==> #[trigger] self.buf.buffer@[before + j] == inner.buffer@[j],
            decreases inner.buffer@.len() - k,
        {
            self.buf.buffer[before + k] = inner.buffer[k];
            k = k + 1;
        }
        assert(self.buf.buffer@ =~= start.take(before as int) + inner.buffer@) by {
            assert forall|j: int| before <= j < len implies #[trigger] self.buf.buffer@[j]
                == inner.buffer@[j - before] by {
                assert(self.buf.buffer@[before + (j - before)] == inner.buffer@[j - before]);
            }
        }
        self.buf.filled = before + added;
        output
    }
}


} // verus!
