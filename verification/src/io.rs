//! Formatting text into the borrowed transmit buffer of a writer.
//!
//! A formatted string which does not fit into the buffer is formatted again once the buffer
//! was sent, skipping what was already written; [FormatBuffer] writes the part of the text
//! which starts at its skip count, as much as fits.
use vstd::prelude::*;
use vstd::string::StringSliceAdditionalSpecFns;

verus! {

/// Why formatting into a [FormatBuffer] stopped.
#[derive(Debug, Clone, Copy, PartialEq, Eq, Structural)]
pub enum FormatBufferWriteError {
    /// The formatter reported an error.
    FormatError,
    /// The buffer is full.
    OutOfSpace,
}

/// A buffer which formatted text is written into, after skipping its first `skip_count` bytes.
pub struct FormatBuffer<'a> {
    /// The underlying buffer to write to.
    pub buffer: &'a mut [u8],
    /// Where in the buffer to write the next data to.
    pub write_position: usize,
    /// How many bytes to skip before starting to write into the buffer.
    pub skip_count: usize,
    /// The kind of error reported when formatting stops early.
    pub error_state: FormatBufferWriteError,
}

/// One piece of text written into a buffer of `capacity` bytes which holds `written`, after
/// `skip` more bytes are to be skipped: what the buffer then holds, how many bytes are still
/// to be skipped, and whether all of the piece was taken.
pub open spec fn format_step(written: Seq<u8>, skip: nat, capacity: nat, piece: Seq<u8>) -> (
    Seq<u8>,
    nat,
    bool,
) {
    if skip <= piece.len() {
        let data = piece.skip(skip as int);
        if written.len() + data.len() <= capacity {
            (written + data, 0, true)
        } else {
            (written + data.take(capacity - written.len()), 0, false)
        }
    } else {
        (written, (skip - piece.len()) as nat, true)
    }
}

/// Writing `pieces` one after another, as [format_step] does, stopping at the first piece
/// which does not fit.
pub open spec fn format_all(written: Seq<u8>, skip: nat, capacity: nat, pieces: Seq<Seq<u8>>) -> (
    Seq<u8>,
    nat,
    bool,
)
    decreases pieces.len(),
{
    if pieces.len() == 0 {
        (written, skip, true)
    } else {
        let (w, k, ok) = format_step(written, skip, capacity, pieces[0]);
        if !ok {
            (w, k, false)
        } else {
            format_all(w, k, capacity, pieces.drop_first())
        }
    }
}

/// The pieces of text, joined.
pub open spec fn concat_pieces(pieces: Seq<Seq<u8>>) -> Seq<u8>
    decreases pieces.len(),
{
    if pieces.len() == 0 {
        Seq::empty()
    } else {
        pieces[0] + concat_pieces(pieces.drop_first())
    }
}

/// The bytes of each piece.
pub open spec fn piece_bytes(pieces: Seq<&str>) -> Seq<Seq<u8>> {
    pieces.map_values(|p: &str| p.spec_bytes())
}

impl<'a> FormatBuffer<'a> {
    /// The bytes written so far.
    pub open spec fn written(&self) -> Seq<u8> {
        self.buffer@.take(self.write_position as int)
    }

    /// The size of the buffer.
    pub open spec fn capacity(&self) -> nat {
        self.buffer@.len()
    }

    /// The position lies within the buffer, and nothing is written before the skipped bytes
    /// have passed.
    pub open spec fn wf(&self) -> bool {
        &&& self.write_position <= self.buffer@.len()
        &&& self.skip_count > 0 ==> self.write_position == 0
    }

    /// An empty buffer which skips the first `skip_count` bytes of what is written to it.
    pub fn new(buffer: &'a mut [u8], skip_count: usize) -> (r: Self)
        ensures
            r.wf(),
            r.buffer@ == old(buffer)@,
            final(r.buffer)@ == final(buffer)@,
            r.write_position == 0,
            r.skip_count == skip_count,
            r.error_state == FormatBufferWriteError::FormatError,
    {
        FormatBuffer {
            buffer,
            write_position: 0,
            skip_count,
            error_state: FormatBufferWriteError::FormatError,
        }
    }

    /// Write `s`, after skipping what is still to be skipped, as much as fits.
    pub fn write_str(&mut self, s: &str) -> (r: Result<(), FormatBufferWriteError>)
        requires
            old(self).wf(),
        ensures
            final(self).wf(),
            final(self).buffer@.len() == old(self).buffer@.len(),
            old(self).write_position <= final(self).write_position,
            forall|k: int|
                final(self).write_position <= k < final(self).buffer@.len() ==> #[trigger] final(self).buffer@[k] == old(self).buffer@[k],
            ({
                let (w, k, ok) = format_step(
                    old(self).written(),
                    old(self).skip_count as nat,
                    old(self).capacity(),
                    s.spec_bytes(),
                );
                &&& final(self).written() == w
                &&& final(self).skip_count == k
                &&& ok ==> r is Ok && final(self).error_state == old(self).error_state
                &&& !ok ==> r == Err::<(), FormatBufferWriteError>(
                    FormatBufferWriteError::OutOfSpace,
                ) && final(self).error_state == FormatBufferWriteError::OutOfSpace
            }),
    {
        let (position, skip, ok) = write_piece(
            self.buffer,
            self.write_position,
            self.skip_count,
            s.as_bytes(),
        );
        self.write_position = position;
        self.skip_count = skip;
        if ok {
            Ok(())
        } else {
            self.error_state = FormatBufferWriteError::OutOfSpace;
            Err(FormatBufferWriteError::OutOfSpace)
        }
    }

    /// Write the pieces of a formatted text one after another, stopping at the first which
    /// does not fit. Returns how many bytes of the buffer were written, or why writing stopped.
    pub fn write_fmt(self, pieces: &[&str]) -> (r: Result<usize, FormatBufferWriteError>)
        requires
            self.wf(),
        ensures
            ({
                let (w, k, ok) = format_all(
                    self.written(),
                    self.skip_count as nat,
                    self.capacity(),
                    piece_bytes(pieces@),
                );
                &&& final(self.buffer)@.len() == old(self.buffer)@.len()
                &&& final(self.buffer)@.take(w.len() as int) == w
                &&& final(self.buffer)@.skip(w.len() as int) == old(self.buffer)@.skip(w.len() as int)
                &&& ok ==> r == Ok::<usize, FormatBufferWriteError>(w.len() as usize)
                &&& !ok ==> r == Err::<usize, FormatBufferWriteError>(
                    FormatBufferWriteError::OutOfSpace,
                )
            }),
    {
        let ghost start_written = self.written();
        let ghost start_skip = self.skip_count as nat;
        let ghost capacity = self.capacity();
        let ghost start_buffer = self.buffer@;
        let FormatBuffer { buffer, write_position, skip_count, error_state } = self;
        let mut position = write_position;
        let mut skip = skip_count;
        let mut i: usize = 0;
        assert(piece_bytes(pieces@).skip(0) =~= piece_bytes(pieces@));
        while i < pieces.len()
            invariant
                i <= pieces@.len(),
                position <= capacity,
                skip > 0 ==> position == 0,
                capacity == buffer@.len(),
                capacity == start_buffer.len(),
                start_written == self.written(),
                start_skip == self.skip_count,
                capacity == self.capacity(),
                start_buffer == old(self.buffer)@,
                final(buffer)@ == final(self.buffer)@,
                forall|k: int| position <= k < capacity ==> #[trigger] buffer@[k] == start_buffer[k],
                format_all(start_written, start_skip, capacity, piece_bytes(pieces@)) == format_all(
                    buffer@.take(position as int),
                    skip as nat,
                    capacity,
                    piece_bytes(pieces@).skip(i as int),
                ),
            decreases pieces.len() - i,
        {
            let ghost rest = piece_bytes(pieces@).skip(i as int);
            assert(rest[0] == pieces@[i as int].spec_bytes());
            assert(rest.drop_first() =~= piece_bytes(pieces@).skip(i + 1));
            let (next_position, next_skip, ok) = write_piece(
                buffer,
                position,
                skip,
                pieces[i].as_bytes(),
            );
            position = next_position;
            skip = next_skip;
            if !ok {
                assert(buffer@.skip(position as int) =~= start_buffer.skip(position as int));
                return Err(FormatBufferWriteError::OutOfSpace);
            }
            i = i + 1;
        }
        assert(piece_bytes(pieces@).skip(i as int) =~= Seq::<Seq<u8>>::empty());
        assert(buffer@.skip(position as int) =~= start_buffer.skip(position as int));
        Ok(position)
    }
}

/// Write `piece` into `buffer` at `position`, after skipping its first `skip` bytes, as much
/// as fits. Returns the new position, how many bytes are still to be skipped, and whether all
/// of the piece was taken.
fn write_piece(buffer: &mut [u8], position: usize, skip: usize, piece: &[u8]) -> (r: (
    usize,
    usize,
    bool,
))
    requires
        position <= old(buffer)@.len(),
        skip > 0 ==> position == 0,
    ensures
        final(buffer)@.len() == old(buffer)@.len(),
        position <= r.0 <= final(buffer)@.len(),
        r.1 > 0 ==> r.0 == 0,
        forall|k: int|
            r.0 <= k < final(buffer)@.len() ==> #[trigger] final(buffer)@[k] == old(buffer)@[k],
        ({
            let (w, k, ok) = format_step(
                old(buffer)@.take(position as int),
                skip as nat,
                old(buffer)@.len(),
                piece@,
            );
            &&& final(buffer)@.take(r.0 as int) == w
            &&& r.1 == k
            &&& r.2 == ok
        }),
{
    if skip <= piece.len() {
        let room = buffer.len() - position;
        let data_len = piece.len() - skip;
        let count = if data_len <= room {
            data_len
        } else {
            room
        };
        let ghost before = buffer@;
        let mut i: usize = 0;
        while i < count
            invariant
                position + count <= buffer@.len(),
                skip + count <= piece@.len(),
                position + count <= usize::MAX,
                skip + count <= usize::MAX,
                i <= count,
                buffer@.len() == before.len(),
                forall|k: int| 0 <= k < position ==> #[trigger] buffer@[k] == before[k],
                forall|k: int| 0 <= k < i ==> #[trigger] buffer@[position + k] == piece@[skip + k],
                forall|k: int|
                    position + count <= k < before.len() ==> #[trigger] buffer@[k] == before[k],
            decreases count - i,
        {
            buffer[position + i] = piece[skip + i];
            i = i + 1;
        }
        let ghost data = piece@.skip(skip as int);
        assert forall|k: int| position <= k < position + count implies #[trigger] buffer@[k]
            == data[k - position] by {
            assert(buffer@[position + (k - position)] == piece@[skip + (k - position)]);
        }
        assert(buffer@.take((position + count) as int) =~= before.take(position as int)
            + data.take(count as int));
        if data_len <= room {
            assert(data.take(count as int) =~= data);
            (position + count, 0, true)
        } else {
            (position + count, 0, false)
        }
    } else {
        (position, skip - piece.len(), true)
    }
}

/// What a writer does after formatting into its transmit buffer once.
#[derive(Debug, Clone, Copy, PartialEq, Eq, Structural)]
pub enum WriteFmtStep {
    /// Send `write_size` bytes of the buffer; the text is done.
    Finished { write_size: usize },
    /// Send the whole buffer of `write_size` bytes, flush, and format the text again,
    /// skipping its first `skip_count` bytes.
    Retry { write_size: usize, skip_count: usize },
}

/// The next step of writing a formatted text through a buffer of `buffer_len` bytes, after an
/// attempt which skipped `skip_count` bytes ended with `outcome`. A formatting error ends the
/// text with nothing sent.
pub fn write_fmt_step(
    skip_count: usize,
    buffer_len: usize,
    outcome: Result<usize, FormatBufferWriteError>,
) -> (r: WriteFmtStep)
    requires
        outcome == Err::<usize, FormatBufferWriteError>(FormatBufferWriteError::OutOfSpace)
            ==> skip_count + buffer_len <= usize::MAX,
    ensures
        r == match outcome {
            Ok(write_size) => WriteFmtStep::Finished { write_size },
            Err(FormatBufferWriteError::FormatError) => WriteFmtStep::Finished { write_size: 0 },
            Err(FormatBufferWriteError::OutOfSpace) => WriteFmtStep::Retry {
                write_size: buffer_len,
                skip_count: (skip_count + buffer_len) as usize,
            },
        },
{
    match outcome {
        Ok(write_size) => WriteFmtStep::Finished { write_size },
        Err(FormatBufferWriteError::FormatError) => WriteFmtStep::Finished { write_size: 0 },
        Err(FormatBufferWriteError::OutOfSpace) => WriteFmtStep::Retry {
            write_size: buffer_len,
            skip_count: skip_count + buffer_len,
        },
    }
}

/// What a buffer of `capacity` bytes which holds `written`, with `skip` bytes still to be
/// skipped, holds after the text `t` is written to it: the text from the skip count on,
/// after what it held, as much as fits; and whether all of it fit.
pub open spec fn format_window(written: Seq<u8>, skip: nat, capacity: nat, t: Seq<u8>) -> (
    Seq<u8>,
    nat,
    bool,
) {
    if t.len() <= skip {
        (written, (skip - t.len()) as nat, true)
    } else {
        let full = written + t.skip(skip as int);
        if full.len() <= capacity {
            (full, 0, true)
        } else {
            (full.take(capacity as int), 0, false)
        }
    }
}

/// Writing a text in pieces fills the buffer as writing it at once would: the buffer holds the
/// text from the skip count on, as much as fits, and writing fails exactly when the rest of
/// the text does not fit.
pub proof fn lemma_format_window(written: Seq<u8>, skip: nat, capacity: nat, pieces: Seq<Seq<u8>>)
    requires
        written.len() <= capacity,
        skip > 0 ==> written.len() == 0,
    ensures
        format_all(written, skip, capacity, pieces) == format_window(
            written,
            skip,
            capacity,
            concat_pieces(pieces),
        ),
    decreases pieces.len(),
{
    if pieces.len() > 0 {
        let s = pieces[0];
        let rest = pieces.drop_first();
        let tr = concat_pieces(rest);
        let t = concat_pieces(pieces);
        assert(t == s + tr);
        if skip > s.len() {
            lemma_format_window(written, (skip - s.len()) as nat, capacity, rest);
            if t.len() > skip {
                assert(t.skip(skip as int) =~= tr.skip(skip - s.len()));
            }
        } else {
            let data = s.skip(skip as int);
            assert(t.skip(skip as int) =~= data + tr);
            if written.len() + data.len() <= capacity {
                lemma_format_window(written + data, 0, capacity, rest);
                assert(tr.skip(0) =~= tr);
                assert(written + (data + tr) =~= (written + data) + tr);
                if tr.len() == 0 {
                    assert((written + data) + tr =~= written + data);
                    if t.len() <= skip {
                        assert(data.len() == 0);
                        assert(written + data =~= written);
                    }
                }
            } else {
                let full = written + (data + tr);
                assert(full.take(capacity as int) =~= written + data.take(capacity - written.len()));
            }
        }
    }
}

} // verus!
