//! The byte channel: the queue that a writer fills and a reader drains.
//!
//! A `Channel` is the state that the two endpoints share. It is a plain
//! value: whoever embeds it serializes access to it and keeps the waker of
//! the one reader that may be parked. The channel itself decides what each
//! operation does to the queue and whether a parked reader must be woken.

use vstd::prelude::*;
use std::collections::VecDeque;
use crate::error::Error;

verus! {

/// What a channel holds: the bytes written and not yet read, in write order;
/// whether the writer has closed it; and whether the reader is parked until
/// it is woken.
pub struct ChannelView {
    pub queue: Seq<u8>,
    pub closed: bool,
    pub parked: bool,
}

/// What a read found.
pub enum Read {
    /// At least one byte was waiting: here are the first of them.
    Bytes(Seq<u8>),
    /// Nothing is waiting, and the writer may still write: the reader parks.
    Wait,
    /// Nothing is waiting, and the writer has closed the channel.
    Broken,
}

impl ChannelView {
    /// An open channel that holds nothing.
    pub open spec fn open() -> ChannelView {
        ChannelView { queue: Seq::empty(), closed: false, parked: false }
    }

    /// The channel after `bytes` were written to it: they follow what was
    /// already waiting, and the reader is no longer parked. A closed channel
    /// takes nothing.
    pub open spec fn written(self, bytes: Seq<u8>) -> ChannelView {
        if self.closed {
            self
        } else {
            ChannelView { queue: self.queue + bytes, closed: false, parked: false }
        }
    }

    /// What a write is answered: `ChannelClosed` on a closed channel, and
    /// otherwise whether a parked reader is to be woken.
    pub open spec fn accepted(self) -> Result<bool, Error> {
        if self.closed {
            Err(Error::ChannelClosed)
        } else {
            Ok(self.parked)
        }
    }

    /// The channel after the chunks were written to it one by one.
    pub open spec fn written_all(self, chunks: Seq<Seq<u8>>) -> ChannelView
        decreases chunks.len(),
    {
        if chunks.len() == 0 {
            self
        } else {
            self.written(chunks[0]).written_all(chunks.drop_first())
        }
    }

    /// The channel after it was closed: what is waiting stays, and the
    /// reader is no longer parked.
    pub open spec fn shut(self) -> ChannelView {
        ChannelView { queue: self.queue, closed: true, parked: false }
    }

    /// The number of bytes that a read of at most `max_len` bytes takes.
    pub open spec fn taken(self, max_len: nat) -> nat {
        if max_len < self.queue.len() {
            max_len
        } else {
            self.queue.len()
        }
    }

    /// What a read of at most `max_len` bytes finds.
    pub open spec fn found(self, max_len: nat) -> Read {
        if self.queue.len() > 0 {
            Read::Bytes(self.queue.take(self.taken(max_len) as int))
        } else if self.closed {
            Read::Broken
        } else {
            Read::Wait
        }
    }

    /// The channel after a read of at most `max_len` bytes: the bytes found
    /// have left the queue; a reader that found nothing on an open channel
    /// is parked.
    pub open spec fn drained(self, max_len: nat) -> ChannelView {
        if self.queue.len() > 0 {
            ChannelView {
                queue: self.queue.skip(self.taken(max_len) as int),
                closed: self.closed,
                parked: false,
            }
        } else {
            ChannelView { queue: self.queue, closed: self.closed, parked: !self.closed }
        }
    }
}

/// A result of a read as the reader gets it: bytes, `None` to park, or the
/// error `BrokenPipe`.
pub open spec fn read_view(r: Result<Option<Vec<u8>>, Error>) -> Option<Read> {
    match r {
        Ok(Some(bytes)) => Some(Read::Bytes(bytes@)),
        Ok(None) => Some(Read::Wait),
        Err(Error::BrokenPipe) => Some(Read::Broken),
        Err(_) => None,
    }
}

/// The state that the endpoints of a byte channel share.
#[derive(Debug)]
pub struct Channel {
    queue: VecDeque<u8>,
    closed: bool,
    parked: bool,
}

impl View for Channel {
    type V = ChannelView;

    closed spec fn view(&self) -> ChannelView {
        ChannelView { queue: self.queue@, closed: self.closed, parked: self.parked }
    }
}

/// Creates a channel: open, with nothing waiting and no reader parked.
pub fn channel() -> (c: Channel)
    ensures
        c@ == ChannelView::open(),
{
    Channel { queue: VecDeque::new(), closed: false, parked: false }
}

impl Channel {
    /// Whether the writer has closed the channel.
    pub fn is_closed(&self) -> (b: bool)
        ensures
            b == self@.closed,
    {
        self.closed
    }

    /// The number of bytes that wait to be read.
    pub fn len(&self) -> (k: usize)
        ensures
            k == self@.queue.len(),
    {
        self.queue.len()
    }

    /// Appends `bytes` to the queue. On a closed channel this fails with
    /// `ChannelClosed` and changes nothing. Otherwise it says whether a
    /// parked reader is to be woken.
    pub fn write(&mut self, bytes: &[u8]) -> (r: Result<bool, Error>)
        ensures
            final(self)@ == old(self)@.written(bytes@),
            r == old(self)@.accepted(),
    {
        if self.closed {
            return Err(Error::ChannelClosed);
        }
        let mut i: usize = 0;
        while i < bytes.len()
            invariant
                i <= bytes@.len(),
                self.closed == old(self).closed,
                self.parked == old(self).parked,
                self.queue@ =~= old(self).queue@ + bytes@.take(i as int),
            decreases bytes@.len() - i,
        {
            self.queue.push_back(bytes[i]);
            i = i + 1;
        }
        assert(bytes@.take(bytes@.len() as int) =~= bytes@);
        let wake = self.parked;
        self.parked = false;
        Ok(wake)
    }

    /// Closes the channel, and says whether a parked reader is to be woken
    /// so that it sees the end. Closing a closed channel changes nothing.
    pub fn close(&mut self) -> (wake: bool)
        ensures
            final(self)@ == old(self)@.shut(),
            wake == old(self)@.parked,
    {
        let wake = self.parked;
        self.closed = true;
        self.parked = false;
        wake
    }

    /// Takes up to `max_len` bytes from the front of the queue, in the order
    /// in which they were written. When nothing is waiting, the reader is to
    /// park (`None`) while the channel is open, and gets `BrokenPipe` once it
    /// is closed.
    pub fn read(&mut self, max_len: usize) -> (r: Result<Option<Vec<u8>>, Error>)
        ensures
            read_view(r) == Some(old(self)@.found(max_len as nat)),
            final(self)@ == old(self)@.drained(max_len as nat),
    {
        if self.queue.len() == 0 {
            if self.closed {
                self.parked = false;
                return Err(Error::BrokenPipe);
            }
            self.parked = true;
            return Ok(None);
        }
        let mut out: Vec<u8> = Vec::new();
        while out.len() < max_len && self.queue.len() > 0
            invariant
                out@.len() <= max_len,
                out@.len() <= old(self).queue@.len(),
                self.closed == old(self).closed,
                out@ =~= old(self).queue@.take(out@.len() as int),
                self.queue@ =~= old(self).queue@.skip(out@.len() as int),
            decreases self.queue@.len(),
        {
            match self.queue.pop_front() {
                Some(b) => out.push(b),
                None => {},
            }
        }
        self.parked = false;
        Ok(Some(out))
    }
}

/// The bytes of a run of chunks, chunk after chunk.
pub open spec fn flatten(chunks: Seq<Seq<u8>>) -> Seq<u8>
    decreases chunks.len(),
{
    if chunks.len() == 0 {
        Seq::empty()
    } else {
        chunks[0] + flatten(chunks.drop_first())
    }
}

/// The bytes that a reader gets from a channel by reads of the given
/// largest sizes, one read after the other and without a write in between.
pub open spec fn observed(c: ChannelView, sizes: Seq<nat>) -> Seq<u8>
    decreases sizes.len(),
{
    if sizes.len() == 0 {
        Seq::empty()
    } else {
        let first = match c.found(sizes[0]) {
            Read::Bytes(bytes) => bytes,
            _ => Seq::empty(),
        };
        first + observed(c.drained(sizes[0]), sizes.drop_first())
    }
}

/// Writing chunk after chunk to an open channel leaves it open, with the
/// bytes of all chunks behind what was waiting, in the order of writing.
pub proof fn lemma_written_all(c: ChannelView, chunks: Seq<Seq<u8>>)
    requires
        !c.closed,
    ensures
        !c.written_all(chunks).closed,
        c.written_all(chunks).queue == c.queue + flatten(chunks),
    decreases chunks.len(),
{
    if chunks.len() > 0 {
        lemma_written_all(c.written(chunks[0]), chunks.drop_first());
    }
}

/// Chunking invariance of writes: two runs of chunks that hold the same
/// bytes leave the same bytes waiting in an open channel.
pub proof fn lemma_chunking_invariance(c: ChannelView, a: Seq<Seq<u8>>, b: Seq<Seq<u8>>)
    requires
        !c.closed,
        flatten(a) == flatten(b),
    ensures
        c.written_all(a).queue == c.written_all(b).queue,
{
    lemma_written_all(c, a);
    lemma_written_all(c, b);
}

/// A write to a closed channel is refused and changes nothing.
pub proof fn lemma_write_after_close(c: ChannelView, bytes: Seq<u8>)
    ensures
        c.shut().accepted() == Err::<bool, Error>(Error::ChannelClosed),
        c.shut().written(bytes) == c.shut(),
{
}

/// Closing is idempotent.
pub proof fn lemma_close_twice(c: ChannelView)
    ensures
        c.shut().shut() == c.shut(),
{
}

/// A read takes bytes from the front of the queue and leaves the rest: what
/// it found, followed by what still waits, is what waited before.
pub proof fn lemma_read_in_order(c: ChannelView, max_len: nat)
    ensures
        c.found(max_len) matches Read::Bytes(bytes) ==> bytes.len() <= max_len && bytes
            + c.drained(max_len).queue == c.queue,
        !(c.found(max_len) is Bytes) ==> c.drained(max_len).queue == c.queue,
        c.found(max_len) is Bytes <==> c.queue.len() > 0,
        c.found(max_len) is Broken <==> c.queue.len() == 0 && c.closed,
        c.found(max_len) is Wait <==> c.queue.len() == 0 && !c.closed,
{
}

/// However the reads are sized, the reader gets the waiting bytes in the
/// order in which they were written, without a gap: what it got so far,
/// followed by what still waits, is what waited at the start.
pub proof fn lemma_observed_in_order(c: ChannelView, sizes: Seq<nat>)
    ensures
        observed(c, sizes).len() <= c.queue.len(),
        observed(c, sizes) == c.queue.take(observed(c, sizes).len() as int),
    decreases sizes.len(),
{
    if sizes.len() > 0 {
        lemma_read_in_order(c, sizes[0]);
        lemma_observed_in_order(c.drained(sizes[0]), sizes.drop_first());
    }
}

/// What the reader gets depends on the waiting bytes alone, not on whether
/// the channel is closed or the reader was parked.
pub proof fn lemma_observed_by_queue(c1: ChannelView, c2: ChannelView, sizes: Seq<nat>)
    requires
        c1.queue == c2.queue,
    ensures
        observed(c1, sizes) == observed(c2, sizes),
    decreases sizes.len(),
{
    if sizes.len() > 0 {
        lemma_observed_by_queue(c1.drained(sizes[0]), c2.drained(sizes[0]), sizes.drop_first());
    }
}

/// Chunking invariance of the channel: the bytes that a reader gets do not
/// depend on how the writer chunked them.
pub proof fn lemma_reads_ignore_chunking(
    c: ChannelView,
    a: Seq<Seq<u8>>,
    b: Seq<Seq<u8>>,
    sizes: Seq<nat>,
)
    requires
        !c.closed,
        flatten(a) == flatten(b),
    ensures
        observed(c.written_all(a), sizes) == observed(c.written_all(b), sizes),
{
    lemma_chunking_invariance(c, a, b);
    lemma_observed_by_queue(c.written_all(a), c.written_all(b), sizes);
}

/// Once the channel is closed and drained, every read finds the broken
/// pipe, and stays there.
pub proof fn lemma_closed_and_drained(c: ChannelView, max_len: nat)
    requires
        c.closed,
        c.queue.len() == 0,
    ensures
        c.found(max_len) == Read::Broken,
        c.drained(max_len).closed,
        c.drained(max_len).queue.len() == 0,
{
}

/// A writer that writes `bytes` to a fresh channel and closes it is
/// followed, once the reader has taken the bytes, by the broken pipe.
pub proof fn lemma_end_of_stream(bytes: Seq<u8>, max_len: nat, again: nat)
    requires
        0 < bytes.len() <= max_len,
    ensures
        ChannelView::open().written(bytes).shut().found(max_len) == Read::Bytes(bytes),
        ChannelView::open().written(bytes).shut().drained(max_len).found(again) == Read::Broken,
{
    let c = ChannelView::open().written(bytes).shut();
    assert(c.queue.take(bytes.len() as int) =~= bytes);
}

/// One use of an open channel by one of its endpoints.
pub enum Move {
    /// The writer writes these bytes.
    Write(Seq<u8>),
    /// The reader reads at most this many bytes.
    Read(nat),
}

/// The channel after the given uses, one after the other.
pub open spec fn after_moves(c: ChannelView, moves: Seq<Move>) -> ChannelView
    decreases moves.len(),
{
    if moves.len() == 0 {
        c
    } else {
        let next = match moves[0] {
            Move::Write(bytes) => c.written(bytes),
            Move::Read(max_len) => c.drained(max_len),
        };
        after_moves(next, moves.drop_first())
    }
}

/// All bytes that the writer supplies in the given uses, in order.
pub open spec fn supplied(moves: Seq<Move>) -> Seq<u8>
    decreases moves.len(),
{
    if moves.len() == 0 {
        Seq::empty()
    } else {
        let first = match moves[0] {
            Move::Write(bytes) => bytes,
            Move::Read(_) => Seq::empty(),
        };
        first + supplied(moves.drop_first())
    }
}

/// All bytes that the reader gets in the given uses, in order.
pub open spec fn delivered(c: ChannelView, moves: Seq<Move>) -> Seq<u8>
    decreases moves.len(),
{
    if moves.len() == 0 {
        Seq::empty()
    } else {
        match moves[0] {
            Move::Write(bytes) => delivered(c.written(bytes), moves.drop_first()),
            Move::Read(max_len) => {
                let first = match c.found(max_len) {
                    Read::Bytes(bytes) => bytes,
                    _ => Seq::empty(),
                };
                first + delivered(c.drained(max_len), moves.drop_first())
            },
        }
    }
}

/// The ordering guarantee. However writes and reads are interleaved and
/// sized, the reader gets the bytes in exactly the order in which they were
/// supplied, with no reordering and no gap: what was delivered, followed by
/// what still waits, is what waited at the start followed by what was
/// supplied.
pub proof fn lemma_ordering(c: ChannelView, moves: Seq<Move>)
    requires
        !c.closed,
    ensures
        !after_moves(c, moves).closed,
        delivered(c, moves) + after_moves(c, moves).queue == c.queue + supplied(moves),
    decreases moves.len(),
{
    if moves.len() > 0 {
        let rest = moves.drop_first();
        match moves[0] {
            Move::Write(bytes) => {
                let next = c.written(bytes);
                lemma_ordering(next, rest);
            },
            Move::Read(max_len) => {
                let next = c.drained(max_len);
                lemma_read_in_order(c, max_len);
                lemma_ordering(next, rest);
                let first = match c.found(max_len) {
                    Read::Bytes(bytes) => bytes,
                    _ => Seq::empty(),
                };
                let end = after_moves(c, moves).queue;
                assert((first + delivered(next, rest)) + end =~= first + (delivered(next, rest)
                    + end));
            },
        }
    }
}

} // verus!
