use vstd::prelude::*;

use crate::error::SessionError;
use crate::frame::{
    all_fit, frames_of, header_of, header_value, is_incomplete, lemma_frames_then_tail, lemma_split_append,
    split_frames, lemma_header_value, MAX_FRAME_PAYLOAD,
};

verus! {

/// The payloads held by a vector of byte vectors.
pub open spec fn payloads(v: Seq<Vec<u8>>) -> Seq<Seq<u8>> {
    v.map_values(|x: Vec<u8>| x@)
}

/// What the stream-to-datagram pump has emitted, and what it still holds,
/// after starting with `pending` and reading `chunks` in order.
pub open spec fn feed_chunks(pending: Seq<u8>, chunks: Seq<Seq<u8>>) -> (Seq<Seq<u8>>, Seq<u8>)
    decreases chunks.len(),
{
    if chunks.len() == 0 {
        (Seq::empty(), pending)
    } else {
        let step = split_frames(pending + chunks[0]);
        let rest = feed_chunks(step.1, chunks.drop_first());
        (step.0 + rest.0, rest.1)
    }
}

/// Whatever is left after splitting holds no complete frame.
pub proof fn lemma_leftover_incomplete(s: Seq<u8>)
    ensures
        is_incomplete(split_frames(s).1),
        split_frames(split_frames(s).1).0.len() == 0,
    decreases s.len(),
{
    if s.len() >= 2 && s.len() >= 2 + header_value(s[0], s[1]) {
        let end = 2 + header_value(s[0], s[1]) as int;
        lemma_leftover_incomplete(s.subrange(end, s.len() as int));
    }
}

/// However the stream is cut into reads, the pump emits what decoding the
/// whole stream at once would, and holds the same leftover bytes.
pub proof fn lemma_feed_chunks(pending: Seq<u8>, chunks: Seq<Seq<u8>>)
    requires
        is_incomplete(pending),
    ensures
        feed_chunks(pending, chunks) == split_frames(pending + chunks.flatten()),
    decreases chunks.len(),
{
    if chunks.len() == 0 {
        assert(pending + chunks.flatten() =~= pending);
    } else {
        let a = pending + chunks[0];
        let b = chunks.drop_first().flatten();
        assert(pending + chunks.flatten() =~= a + b);
        lemma_split_append(a, b);
        lemma_leftover_incomplete(a);
        lemma_feed_chunks(split_frames(a).1, chunks.drop_first());
    }
}

/// Boundary preservation: payloads that fit, framed one after another and
/// delivered in reads cut anywhere, come out of the pump as the same
/// payloads in the same order, never merged or split, with nothing left over.
pub proof fn lemma_boundaries_preserved(ps: Seq<Seq<u8>>, chunks: Seq<Seq<u8>>)
    requires
        all_fit(ps),
        chunks.flatten() == frames_of(ps),
    ensures
        feed_chunks(Seq::empty(), chunks) == (ps, Seq::<u8>::empty()),
{
    lemma_feed_chunks(Seq::empty(), chunks);
    assert(Seq::<u8>::empty() + chunks.flatten() =~= frames_of(ps) + Seq::<u8>::empty());
    lemma_frames_then_tail(ps, Seq::empty());
    assert(ps + Seq::<Seq<u8>>::empty() =~= ps);
}

/// Decoding needs nothing but stream bytes: every frame whose bytes have
/// arrived is emitted, however the reads were cut, while an unfinished frame
/// at the end is held back whole.
pub proof fn lemma_complete_frames_emitted(
    ps: Seq<Seq<u8>>,
    tail: Seq<u8>,
    chunks: Seq<Seq<u8>>,
)
    requires
        all_fit(ps),
        is_incomplete(tail),
        chunks.flatten() == frames_of(ps) + tail,
    ensures
        feed_chunks(Seq::empty(), chunks) == (ps, tail),
{
    lemma_feed_chunks(Seq::empty(), chunks);
    assert(Seq::<u8>::empty() + chunks.flatten() =~= frames_of(ps) + tail);
    lemma_frames_then_tail(ps, tail);
    assert(split_frames(tail) == (Seq::<Seq<u8>>::empty(), tail));
    assert(ps + Seq::<Seq<u8>>::empty() =~= ps);
}

/// Truncation: after any complete frames, a valid header announcing `n` bytes
/// followed by fewer than `n` of them emits only the complete frames; the
/// partial payload is held back whole, so ending the stream there is an error.
pub proof fn lemma_truncated_frame_held_back(ps: Seq<Seq<u8>>, n: nat, partial: Seq<u8>)
    requires
        all_fit(ps),
        n <= MAX_FRAME_PAYLOAD,
        partial.len() < n,
    ensures
        split_frames(frames_of(ps) + (header_of(n) + partial)) == (ps, header_of(n) + partial),
        (header_of(n) + partial).len() > 0,
{
    let tail = header_of(n) + partial;
    lemma_header_value(n);
    assert(tail[0] == header_of(n)[0] && tail[1] == header_of(n)[1]);
    assert(split_frames(tail) == (Seq::<Seq<u8>>::empty(), tail));
    lemma_frames_then_tail(ps, tail);
    assert(ps + Seq::<Seq<u8>>::empty() =~= ps);
}

/// Copies `src[start..end]` into a new vector.
fn copy_range(src: &Vec<u8>, start: usize, end: usize) -> (r: Vec<u8>)
    requires
        start <= end <= src@.len(),
    ensures
        r@ == src@.subrange(start as int, end as int),
{
    let mut out: Vec<u8> = Vec::with_capacity(end - start);
    let mut i: usize = start;
    while i < end
        invariant
            start <= i <= end <= src@.len(),
            out@ == src@.subrange(start as int, i as int),
        decreases end - i,
    {
        out.push(src[i]);
        i = i + 1;
        assert(out@ =~= src@.subrange(start as int, i as int));
    }
    out
}

/// What the stream-to-datagram pump does after one read from the stream.
pub enum PumpStep {
    /// Send each payload, in order, as one datagram (an empty one included).
    Forward(Vec<Vec<u8>>),
    /// The stream closed cleanly between frames: the pump stops without error.
    Closed,
}

/// The stream-to-datagram pump's state: bytes read from the stream that do
/// not yet form a complete frame.
pub struct Deframer {
    pending: Vec<u8>,
}

impl View for Deframer {
    type V = Seq<u8>;

    closed spec fn view(&self) -> Seq<u8> {
        self.pending@
    }
}

impl Deframer {
    /// A pump that has read nothing yet.
    pub fn new() -> (r: Deframer)
        ensures
            r@ == Seq::<u8>::empty(),
    {
        Deframer { pending: Vec::new() }
    }

    /// Number of bytes held back, waiting for the rest of their frame.
    pub fn pending_len(&self) -> (r: usize)
        ensures
            r == self@.len(),
    {
        self.pending.len()
    }

    /// Takes bytes read from the stream and returns the payloads of every frame
    /// completed by them, in order; the bytes of an unfinished frame are kept.
    pub fn push(&mut self, data: &[u8]) -> (r: Vec<Vec<u8>>)
        ensures
            payloads(r@) == split_frames(old(self)@ + data@).0,
            final(self)@ == split_frames(old(self)@ + data@).1,
            is_incomplete(final(self)@),
    {
        let ghost all0 = self.pending@ + data@;
        let mut i: usize = 0;
        while i < data.len()
            invariant
                i <= data@.len(),
                all0 == old(self)@ + data@,
                self.pending@ == old(self)@ + data@.subrange(0, i as int),
            decreases data@.len() - i,
        {
            self.pending.push(data[i]);
            i = i + 1;
            assert(self.pending@ =~= old(self)@ + data@.subrange(0, i as int));
        }
        assert(data@.subrange(0, data@.len() as int) =~= data@);
        let all = &self.pending;
        let len = all.len();
        let mut out: Vec<Vec<u8>> = Vec::new();
        let mut pos: usize = 0;
        assert(all@.subrange(0, len as int) =~= all@);
        loop
            invariant
                all@ == all0,
                len == all@.len(),
                pos <= len,
                split_frames(all@) == ({
                    let rest = split_frames(all@.subrange(pos as int, len as int));
                    (payloads(out@) + rest.0, rest.1)
                }),
            ensures
                all@ == all0,
                len == all@.len(),
                pos <= len,
                split_frames(all@) == ({
                    let rest = split_frames(all@.subrange(pos as int, len as int));
                    (payloads(out@) + rest.0, rest.1)
                }),
                is_incomplete(all@.subrange(pos as int, len as int)),
            decreases len - pos,
        {
            let ghost tail = all@.subrange(pos as int, len as int);
            if len - pos < 2 {
                break;
            }
            let n: usize = (all[pos] as usize) * 256 + (all[pos + 1] as usize);
            assert(n == header_value(tail[0], tail[1]));
            if len - pos - 2 < n {
                break;
            }
            let frame = copy_range(all, pos + 2, pos + 2 + n);
            let ghost old_out = out@;
            out.push(frame);
            assert(tail.subrange(2, 2 + n as int) =~= frame@);
            assert(tail.subrange(2 + n as int, tail.len() as int) =~= all@.subrange(
                (pos + 2 + n) as int,
                len as int,
            ));
            assert(payloads(out@) =~= payloads(old_out) + seq![frame@]);
            pos = pos + 2 + n;
        }
        let ghost tail = all@.subrange(pos as int, len as int);
        assert(split_frames(tail) == (Seq::<Seq<u8>>::empty(), tail));
        assert(payloads(out@) + Seq::<Seq<u8>>::empty() =~= payloads(out@));
        let rest = copy_range(all, pos, len);
        proof {
            lemma_leftover_incomplete(all0);
        }
        self.pending = rest;
        out
    }

    /// Handles the result of one read from the stream, where an empty read
    /// means the stream has ended. Ending between frames closes the pump
    /// cleanly; ending inside a frame is a truncated frame, and its partial
    /// payload is never sent.
    pub fn on_read(&mut self, data: &[u8]) -> (r: Result<PumpStep, SessionError>)
        ensures
            data@.len() == 0 ==> final(self)@ == old(self)@,
            data@.len() == 0 && old(self)@.len() == 0 ==> r is Ok && r->Ok_0 is Closed,
            data@.len() == 0 && old(self)@.len() > 0 ==> r == Err::<PumpStep, SessionError>(
                SessionError::TruncatedFrame,
            ),
            data@.len() > 0 ==> match r {
                Ok(PumpStep::Forward(v)) => payloads(v@) == split_frames(old(self)@ + data@).0
                    && final(self)@ == split_frames(old(self)@ + data@).1,
                _ => false,
            },
            is_incomplete(old(self)@) ==> is_incomplete(final(self)@),
    {
        if data.len() == 0 {
            if self.pending.len() == 0 {
                Ok(PumpStep::Closed)
            } else {
                Err(SessionError::TruncatedFrame)
            }
        } else {
            Ok(PumpStep::Forward(self.push(data)))
        }
    }
}

/// Decodes a whole stream, up to its end, into the payloads of its frames.
/// A stream ending inside a frame is a truncated frame.
pub fn decode_frames(stream: &[u8]) -> (r: Result<Vec<Vec<u8>>, SessionError>)
    ensures
        split_frames(stream@).1.len() == 0 ==> r is Ok && payloads(r->Ok_0@) == split_frames(
            stream@,
        ).0,
        split_frames(stream@).1.len() > 0 ==> r == Err::<Vec<Vec<u8>>, SessionError>(
            SessionError::TruncatedFrame,
        ),
{
    let mut d = Deframer::new();
    let out = d.push(stream);
    assert(Seq::<u8>::empty() + stream@ =~= stream@);
    if d.pending_len() == 0 {
        Ok(out)
    } else {
        Err(SessionError::TruncatedFrame)
    }
}

} // verus!
