//! Message framing: bytes read from the transport are accumulated until the
//! accumulated text ends with an end-of-message marker.
use crate::text::{ends_with_bytes, occurs_at};
use vstd::prelude::*;

verus! {

/// The legacy end-of-message marker `]]>]]>`.
pub open spec fn end_of_message() -> Seq<u8> {
    seq![93u8, 93u8, 62u8, 93u8, 93u8, 62u8]
}

/// The end-of-chunks marker `##` of the chunked dialect.
pub open spec fn end_of_chunks() -> Seq<u8> {
    seq![35u8, 35u8]
}

/// `t` ends with `p`.
pub open spec fn ends_with(t: Seq<u8>, p: Seq<u8>) -> bool {
    p.len() <= t.len() && occurs_at(t, p, t.len() - p.len())
}

/// `t` ends with one of the two markers.
pub open spec fn ends_with_marker(t: Seq<u8>) -> bool {
    ends_with(t, end_of_message()) || ends_with(t, end_of_chunks())
}

/// Where framing stands after one read.
#[derive(Debug, PartialEq, Eq, Structural, Clone, Copy)]
pub enum FrameStatus {
    /// No marker yet: read again.
    Pending,
    /// The accumulated bytes end with a marker: the message is complete.
    Complete,
    /// The read gave nothing or the stream has ended, and no marker was seen.
    Exhausted,
}

/// The status after a read of `chunk_len` bytes left `acc` accumulated.
pub open spec fn status_after(acc: Seq<u8>, chunk_len: nat, eof: bool) -> FrameStatus {
    if ends_with_marker(acc) {
        FrameStatus::Complete
    } else if chunk_len == 0 || eof {
        FrameStatus::Exhausted
    } else {
        FrameStatus::Pending
    }
}

/// One read fed to a framer that holds `acc`: what it then holds, and its
/// status.
pub open spec fn feed_spec(acc: Seq<u8>, chunk: Seq<u8>, eof: bool) -> (Seq<u8>, FrameStatus) {
    (acc + chunk, status_after(acc + chunk, chunk.len(), eof))
}

/// Accumulates one reply's bytes.
pub struct Framer {
    buffer: Vec<u8>,
}

impl View for Framer {
    type V = Seq<u8>;

    closed spec fn view(&self) -> Seq<u8> {
        self.buffer@
    }
}

impl Framer {
    pub fn new() -> (r: Framer)
        ensures
            r@ == Seq::<u8>::empty(),
    {
        Framer { buffer: Vec::new() }
    }

    /// Takes the bytes of one read and whether the transport reported the end
    /// of the stream after it.
    pub fn feed(&mut self, chunk: &[u8], eof: bool) -> (r: FrameStatus)
        ensures
            (final(self)@, r) == feed_spec(old(self)@, chunk@, eof),
    {
        let mut i: usize = 0;
        while i < chunk.len()
            invariant
                i <= chunk@.len(),
                self@ == old(self)@ + chunk@.subrange(0, i as int),
            decreases chunk@.len() - i,
        {
            self.buffer.push(chunk[i]);
            i = i + 1;
            assert(self@ =~= old(self)@ + chunk@.subrange(0, i as int));
        }
        assert(chunk@.subrange(0, chunk@.len() as int) =~= chunk@);
        let eom: [u8; 6] = [93u8, 93u8, 62u8, 93u8, 93u8, 62u8];
        let eoc: [u8; 2] = [35u8, 35u8];
        assert(eom@ =~= end_of_message());
        assert(eoc@ =~= end_of_chunks());
        if ends_with_bytes(self.buffer.as_slice(), eom.as_slice()) || ends_with_bytes(
            self.buffer.as_slice(),
            eoc.as_slice(),
        ) {
            FrameStatus::Complete
        } else if chunk.len() == 0 || eof {
            FrameStatus::Exhausted
        } else {
            FrameStatus::Pending
        }
    }

    /// The bytes accumulated so far.
    pub fn message(&self) -> (r: &Vec<u8>)
        ensures
            r@ == self@,
    {
        &self.buffer
    }

    pub fn into_message(self) -> (r: Vec<u8>)
        ensures
            r@ == self@,
    {
        self.buffer
    }
}

/// Feeding the reads `chunks` in turn, with no end-of-stream report, to a
/// framer that holds `acc`: what it then holds and the last status; feeding
/// stops at the first read whose status is not `Pending`.
pub open spec fn feed_all(acc: Seq<u8>, chunks: Seq<Seq<u8>>) -> (Seq<u8>, FrameStatus)
    decreases chunks.len(),
{
    if chunks.len() == 0 {
        (acc, FrameStatus::Pending)
    } else {
        let (next, status) = feed_spec(acc, chunks[0], false);
        if status == FrameStatus::Pending {
            feed_all(next, chunks.drop_first())
        } else {
            (next, status)
        }
    }
}

/// No prefix of `s` shorter than `n` ends with a marker.
pub open spec fn no_marker_before(s: Seq<u8>, n: int) -> bool {
    forall|k: int| 0 <= k < n ==> !ends_with_marker(#[trigger] s.subrange(0, k))
}

proof fn lemma_feed_all_complete(acc: Seq<u8>, chunks: Seq<Seq<u8>>, s: Seq<u8>)
    requires
        acc + chunks.flatten() == s,
        chunks.len() > 0,
        forall|i: int| 0 <= i < chunks.len() ==> (#[trigger] chunks[i]).len() > 0,
        ends_with_marker(s),
        no_marker_before(s, s.len() as int),
    ensures
        feed_all(acc, chunks) == (s, FrameStatus::Complete),
    decreases chunks.len(),
{
    let next = acc + chunks[0];
    let rest = chunks.drop_first();
    assert(s == next + rest.flatten()) by {
        assert(chunks.flatten() == chunks[0] + rest.flatten());
    }
    if rest.len() == 0 {
        assert(next =~= s);
    } else {
        assert(rest[0].len() > 0);
        assert(rest.flatten() == rest[0] + rest.drop_first().flatten());
        assert(next.len() < s.len());
        assert(s.subrange(0, next.len() as int) =~= next);
        assert(!ends_with_marker(next));
        assert forall|i: int| 0 <= i < rest.len() implies (#[trigger] rest[i]).len() > 0 by {
            assert(rest[i] == chunks[i + 1]);
        }
        lemma_feed_all_complete(next, rest, s);
    }
}

proof fn lemma_feed_all_exhausted(acc: Seq<u8>, chunks: Seq<Seq<u8>>, s: Seq<u8>)
    requires
        acc + chunks.flatten() == s,
        chunks.len() > 0,
        chunks.last().len() == 0,
        forall|i: int| 0 <= i < chunks.len() - 1 ==> (#[trigger] chunks[i]).len() > 0,
        no_marker_before(s, s.len() as int + 1),
    ensures
        feed_all(acc, chunks) == (s, FrameStatus::Exhausted),
    decreases chunks.len(),
{
    let next = acc + chunks[0];
    let rest = chunks.drop_first();
    assert(s == next + rest.flatten()) by {
        assert(chunks.flatten() == chunks[0] + rest.flatten());
    }
    assert(next.len() <= s.len());
    assert(s.subrange(0, next.len() as int) =~= next);
    assert(!ends_with_marker(next));
    if rest.len() == 0 {
        assert(next =~= s);
    } else {
        assert(rest.last() == chunks.last());
        assert forall|i: int| 0 <= i < rest.len() - 1 implies (#[trigger] rest[i]).len() > 0 by {
            assert(rest[i] == chunks[i + 1]);
        }
        lemma_feed_all_exhausted(next, rest, s);
    }
}

/// Framing does not depend on how the stream is cut into reads: every cut of
/// a stream that ends with a marker, and nowhere before, into non-empty
/// reads leaves the framer complete, holding exactly the stream.
pub proof fn lemma_framing_independent_of_chunks(chunks: Seq<Seq<u8>>, s: Seq<u8>)
    requires
        chunks.flatten() == s,
        chunks.len() > 0,
        forall|i: int| 0 <= i < chunks.len() ==> (#[trigger] chunks[i]).len() > 0,
        ends_with_marker(s),
        no_marker_before(s, s.len() as int),
    ensures
        feed_all(Seq::<u8>::empty(), chunks) == (s, FrameStatus::Complete),
{
    assert(Seq::<u8>::empty() + chunks.flatten() =~= chunks.flatten());
    lemma_feed_all_complete(Seq::<u8>::empty(), chunks, s);
}

/// A stream that reaches a zero-length read before any marker leaves the
/// framer exhausted, holding the stream read so far.
pub proof fn lemma_framing_exhausted(chunks: Seq<Seq<u8>>, s: Seq<u8>)
    requires
        chunks.flatten() == s,
        chunks.len() > 0,
        chunks.last().len() == 0,
        forall|i: int| 0 <= i < chunks.len() - 1 ==> (#[trigger] chunks[i]).len() > 0,
        no_marker_before(s, s.len() as int + 1),
    ensures
        feed_all(Seq::<u8>::empty(), chunks) == (s, FrameStatus::Exhausted),
{
    assert(Seq::<u8>::empty() + chunks.flatten() =~= chunks.flatten());
    lemma_feed_all_exhausted(Seq::<u8>::empty(), chunks, s);
}

/// No read of `chunks` but the last leaves a framer that started with `acc`
/// holding text that ends with a marker.
pub open spec fn boundaries_clear(acc: Seq<u8>, chunks: Seq<Seq<u8>>) -> bool {
    forall|i: int|
        0 <= i < chunks.len() - 1 ==> !ends_with_marker(
            acc + (#[trigger] chunks.subrange(0, i + 1)).flatten(),
        )
}

proof fn lemma_feed_all_boundaries(acc: Seq<u8>, chunks: Seq<Seq<u8>>, s: Seq<u8>)
    requires
        acc + chunks.flatten() == s,
        chunks.len() > 0,
        forall|i: int| 0 <= i < chunks.len() ==> (#[trigger] chunks[i]).len() > 0,
        ends_with_marker(s),
        boundaries_clear(acc, chunks),
    ensures
        feed_all(acc, chunks) == (s, FrameStatus::Complete),
    decreases chunks.len(),
{
    let next = acc + chunks[0];
    let rest = chunks.drop_first();
    assert(s == next + rest.flatten()) by {
        assert(chunks.flatten() == chunks[0] + rest.flatten());
    }
    if rest.len() == 0 {
        assert(next =~= s);
    } else {
        assert(rest[0].len() > 0);
        let first = chunks.subrange(0, 1);
        assert(first.drop_first() =~= Seq::<Seq<u8>>::empty());
        assert(first.flatten() == first[0] + first.drop_first().flatten());
        assert(first.flatten() =~= chunks[0]);
        assert(!ends_with_marker(acc + first.flatten()));
        assert(acc + first.flatten() =~= next);
        assert forall|i: int| 0 <= i < rest.len() implies (#[trigger] rest[i]).len() > 0 by {
            assert(rest[i] == chunks[i + 1]);
        }
        assert forall|i: int| 0 <= i < rest.len() - 1 implies !ends_with_marker(
            next + (#[trigger] rest.subrange(0, i + 1)).flatten(),
        ) by {
            let longer = chunks.subrange(0, i + 2);
            assert(longer.drop_first() =~= rest.subrange(0, i + 1));
            assert(longer[0] == chunks[0]);
            assert(longer.flatten() == longer[0] + longer.drop_first().flatten());
            assert(acc + longer.flatten() =~= next + rest.subrange(0, i + 1).flatten());
            assert(!ends_with_marker(acc + chunks.subrange(0, (i + 1) + 1).flatten()));
        }
        lemma_feed_all_boundaries(next, rest, s);
    }
}

/// Framing looks only at the read boundaries: when the stream ends with a
/// marker and the text read up to each earlier boundary does not, every cut
/// of it into non-empty reads leaves the framer complete, holding exactly
/// the stream. A marker inside a read, not at its end, does not matter.
pub proof fn lemma_framing_at_boundaries(chunks: Seq<Seq<u8>>, s: Seq<u8>)
    requires
        chunks.flatten() == s,
        chunks.len() > 0,
        forall|i: int| 0 <= i < chunks.len() ==> (#[trigger] chunks[i]).len() > 0,
        ends_with_marker(s),
        boundaries_clear(Seq::<u8>::empty(), chunks),
    ensures
        feed_all(Seq::<u8>::empty(), chunks) == (s, FrameStatus::Complete),
{
    assert(Seq::<u8>::empty() + chunks.flatten() =~= chunks.flatten());
    lemma_feed_all_boundaries(Seq::<u8>::empty(), chunks, s);
}

} // verus!
