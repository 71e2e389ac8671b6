//! Chunked application of a ruleset to a byte stream.
//!
//! A [`SwapStream`] holds what survives between two reads of a stream: the
//! number of bytes handled so far, which is the absolute position of the next
//! byte. The caller reads a chunk, hands it to [`SwapStream::on_read`], and
//! does what the returned [`StreamAction`] says.
use vstd::prelude::*;

use crate::pattern::{swap_byte, swap_value, swapped_from};
use crate::{BytePattern, PositionPredicate};

verus! {

/// What to do once a chunk has been handed to [`SwapStream::on_read`].
#[derive(Clone, Copy, Debug, PartialEq, Eq, Structural)]
pub enum StreamAction {
    /// Write the whole chunk, now rewritten, to the sink, then read again.
    Write,
    /// The source is exhausted: this many bytes were read and written.
    Finish(usize),
}

/// State of a ruleset's application to a stream.
#[derive(Debug)]
pub struct SwapStream {
    /// Bytes read so far; the absolute position of the next byte.
    position: usize,
}

impl View for SwapStream {
    type V = nat;

    /// The number of bytes handled so far.
    closed spec fn view(&self) -> nat {
        self.position as nat
    }
}

impl SwapStream {
    /// A stream of which nothing has been read yet.
    pub fn new() -> (r: SwapStream)
        ensures
            r@ == 0,
    {
        SwapStream { position: 0 }
    }

    /// The number of bytes handled so far.
    pub fn position(&self) -> (r: usize)
        ensures
            r == self@,
    {
        self.position
    }

    /// Handles the bytes that one read returned. An empty chunk marks the end
    /// of the stream. Otherwise each byte of `chunk` is rewritten in place by
    /// `swaps`, at its position counted from the start of the stream, not of
    /// the chunk.
    pub fn on_read<P: BytePattern, Q: PositionPredicate>(
        &mut self,
        swaps: &[(P, Q)],
        chunk: &mut [u8],
    ) -> (action: StreamAction)
        requires
            old(self)@ + old(chunk)@.len() <= usize::MAX,
        ensures
            final(chunk)@ == swapped_from(swaps@, old(self)@ as int, old(chunk)@),
            final(self)@ == old(self)@ + old(chunk)@.len(),
            old(chunk)@.len() == 0 ==> action == StreamAction::Finish(old(self)@ as usize),
            old(chunk)@.len() > 0 ==> action == StreamAction::Write,
    {
        let ghost original = chunk@;
        let size = chunk.len();
        if size == 0 {
            proof {
                assert(chunk@ =~= swapped_from(swaps@, self@ as int, original));
            }
            return StreamAction::Finish(self.position);
        }
        let mut i: usize = 0;
        while i < size
            invariant
                size == chunk@.len(),
                size == original.len(),
                self.position + size <= usize::MAX,
                i <= size,
                forall|j: int|
                    0 <= j < i ==> chunk@[j] == swap_value(
                        swaps@,
                        self.position + j,
                        original[j],
                    ),
                forall|j: int| i <= j < size ==> chunk@[j] == original[j],
            decreases size - i,
        {
            chunk[i] = swap_byte(swaps, self.position + i, chunk[i]);
            i = i + 1;
        }
        proof {
            assert(chunk@ =~= swapped_from(swaps@, self@ as int, original));
        }
        self.position = self.position + size;
        StreamAction::Write
    }
}

/// What successive calls of [`SwapStream::on_read`] leave in `chunks`, read in
/// this order, the first of them starting at position `start`.
pub open spec fn swapped_chunks<P: BytePattern, Q: PositionPredicate>(
    swaps: Seq<(P, Q)>,
    start: int,
    chunks: Seq<Seq<u8>>,
) -> Seq<u8>
    decreases chunks.len(),
{
    if chunks.len() == 0 {
        Seq::empty()
    } else {
        swapped_from(swaps, start, chunks.first()) + swapped_chunks(
            swaps,
            start + chunks.first().len(),
            chunks.drop_first(),
        )
    }
}

/// Rewriting two consecutive pieces of a stream, each at its own absolute
/// position, is rewriting them together.
proof fn lemma_swapped_concat<P: BytePattern, Q: PositionPredicate>(
    swaps: Seq<(P, Q)>,
    start: int,
    first: Seq<u8>,
    rest: Seq<u8>,
)
    ensures
        swapped_from(swaps, start, first) + swapped_from(swaps, start + first.len(), rest)
            == swapped_from(swaps, start, first + rest),
{
    assert(swapped_from(swaps, start, first) + swapped_from(swaps, start + first.len(), rest)
        =~= swapped_from(swaps, start, first + rest));
}

/// However a stream is cut into chunks, handling the chunks one after the
/// other writes what rewriting the whole stream at once gives: the same bytes,
/// and exactly as many as were read.
pub proof fn lemma_chunked_stream<P: BytePattern, Q: PositionPredicate>(
    swaps: Seq<(P, Q)>,
    start: int,
    chunks: Seq<Seq<u8>>,
)
    ensures
        swapped_chunks(swaps, start, chunks) == swapped_from(swaps, start, chunks.flatten()),
        swapped_chunks(swaps, start, chunks).len() == chunks.flatten().len(),
    decreases chunks.len(),
{
    if chunks.len() > 0 {
        let first = chunks.first();
        lemma_chunked_stream(swaps, start + first.len(), chunks.drop_first());
        lemma_swapped_concat(swaps, start, first, chunks.drop_first().flatten());
    }
}

} // verus!
