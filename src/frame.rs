use vstd::prelude::*;

use crate::error::SessionError;

verus! {

/// Largest payload a frame can carry: the maximum of the 16-bit length header.
pub const MAX_FRAME_PAYLOAD: usize = 65535;

/// The two header bytes announcing a payload of length `n`, most significant first.
pub open spec fn header_of(n: nat) -> Seq<u8> {
    seq![(n / 256) as u8, (n % 256) as u8]
}

/// The length announced by the header bytes `hi`, `lo`.
pub open spec fn header_value(hi: u8, lo: u8) -> nat {
    (hi as nat) * 256 + (lo as nat)
}

/// The frame carrying payload `p` on the stream.
pub open spec fn frame_of(p: Seq<u8>) -> Seq<u8> {
    header_of(p.len()) + p
}

/// The stream bytes carrying the payloads `ps`, one frame after another.
pub open spec fn frames_of(ps: Seq<Seq<u8>>) -> Seq<u8>
    decreases ps.len(),
{
    if ps.len() == 0 {
        Seq::empty()
    } else {
        frame_of(ps[0]) + frames_of(ps.drop_first())
    }
}

/// Whether every payload of `ps` fits in one frame.
pub open spec fn all_fit(ps: Seq<Seq<u8>>) -> bool {
    forall|i: int| 0 <= i < ps.len() ==> #[trigger] ps[i].len() <= MAX_FRAME_PAYLOAD
}

/// Splits stream bytes into the payloads of the complete frames at their front
/// and the bytes left over, which hold no complete frame.
pub open spec fn split_frames(s: Seq<u8>) -> (Seq<Seq<u8>>, Seq<u8>)
    decreases s.len(),
{
    if s.len() >= 2 && s.len() >= 2 + header_value(s[0], s[1]) {
        let end = 2 + header_value(s[0], s[1]) as int;
        let rest = split_frames(s.subrange(end, s.len() as int));
        (seq![s.subrange(2, end)] + rest.0, rest.1)
    } else {
        (Seq::empty(), s)
    }
}

/// Whether `s` holds no complete frame at its front.
pub open spec fn is_incomplete(s: Seq<u8>) -> bool {
    s.len() < 2 || s.len() < 2 + header_value(s[0], s[1])
}

/// The header of a payload that fits announces exactly its length.
pub proof fn lemma_header_value(n: nat)
    requires
        n <= MAX_FRAME_PAYLOAD,
    ensures
        header_of(n).len() == 2,
        header_value(header_of(n)[0], header_of(n)[1]) == n,
{
}

/// Splitting is compatible with appending: the frames of `a + b` are the
/// complete frames of `a`, then those of `a`'s leftover bytes followed by `b`.
pub proof fn lemma_split_append(a: Seq<u8>, b: Seq<u8>)
    ensures
        split_frames(a + b) == ({
            let sa = split_frames(a);
            let rest = split_frames(sa.1 + b);
            (sa.0 + rest.0, rest.1)
        }),
    decreases a.len(),
{
    let sa = split_frames(a);
    if a.len() >= 2 && a.len() >= 2 + header_value(a[0], a[1]) {
        let end = 2 + header_value(a[0], a[1]) as int;
        let ab = a + b;
        assert(ab[0] == a[0] && ab[1] == a[1]);
        assert(ab.subrange(2, end) =~= a.subrange(2, end));
        assert(ab.subrange(end, ab.len() as int) =~= a.subrange(end, a.len() as int) + b);
        lemma_split_append(a.subrange(end, a.len() as int), b);
        let rest = split_frames(sa.1 + b);
        assert(split_frames(ab).0 =~= sa.0 + rest.0);
    } else {
        assert(sa.0 =~= Seq::<Seq<u8>>::empty());
        assert(sa.0 + split_frames(a + b).0 =~= split_frames(a + b).0);
    }
}

/// Decoding the frames of payloads that fit, followed by any bytes `tail`,
/// gives back those payloads in order, then whatever `tail` decodes to.
pub proof fn lemma_frames_then_tail(ps: Seq<Seq<u8>>, tail: Seq<u8>)
    requires
        all_fit(ps),
    ensures
        split_frames(frames_of(ps) + tail) == ({
            let st = split_frames(tail);
            (ps + st.0, st.1)
        }),
    decreases ps.len(),
{
    let st = split_frames(tail);
    if ps.len() == 0 {
        assert(frames_of(ps) + tail =~= tail);
        assert(ps + st.0 =~= st.0);
    } else {
        let p = ps[0];
        let rest = ps.drop_first();
        assert(p.len() <= MAX_FRAME_PAYLOAD);
        lemma_header_value(p.len());
        assert(all_fit(rest)) by {
            assert forall|i: int| 0 <= i < rest.len() implies #[trigger] rest[i].len()
                <= MAX_FRAME_PAYLOAD by {
                assert(rest[i] == ps[i + 1]);
            }
        }
        lemma_frames_then_tail(rest, tail);
        let s = frames_of(ps) + tail;
        let end = 2 + p.len() as int;
        assert(s =~= header_of(p.len()) + (p + (frames_of(rest) + tail)));
        assert(s[0] == header_of(p.len())[0] && s[1] == header_of(p.len())[1]);
        assert(s.subrange(2, end) =~= p);
        assert(s.subrange(end, s.len() as int) =~= frames_of(rest) + tail);
        assert(split_frames(s).0 =~= ps + st.0);
    }
}

/// Round trip: decoding the concatenated frames of any payloads that fit
/// reproduces exactly those payloads, in order, with no bytes left over.
pub proof fn lemma_round_trip(ps: Seq<Seq<u8>>)
    requires
        all_fit(ps),
    ensures
        split_frames(frames_of(ps)) == (ps, Seq::<u8>::empty()),
{
    lemma_frames_then_tail(ps, Seq::empty());
    assert(frames_of(ps) + Seq::<u8>::empty() =~= frames_of(ps));
    assert(ps + Seq::<Seq<u8>>::empty() =~= ps);
}

/// Frames one datagram: its length as two big-endian bytes, then the payload.
/// A datagram longer than the header can describe is refused.
pub fn encode_frame(payload: &[u8]) -> (r: Result<Vec<u8>, SessionError>)
    ensures
        payload@.len() <= MAX_FRAME_PAYLOAD ==> r is Ok && r->Ok_0@ == frame_of(payload@),
        payload@.len() > MAX_FRAME_PAYLOAD ==> r == Err::<Vec<u8>, SessionError>(
            SessionError::FrameTooLarge,
        ),
{
    let n = payload.len();
    if n > MAX_FRAME_PAYLOAD {
        return Err(SessionError::FrameTooLarge);
    }
    let mut out: Vec<u8> = Vec::with_capacity(n + 2);
    out.push((n / 256) as u8);
    out.push((n % 256) as u8);
    let mut i: usize = 0;
    while i < n
        invariant
            n == payload@.len(),
            n <= MAX_FRAME_PAYLOAD,
            i <= n,
            out@ == header_of(n as nat) + payload@.subrange(0, i as int),
        decreases n - i,
    {
        out.push(payload[i]);
        i = i + 1;
        assert(out@ =~= header_of(n as nat) + payload@.subrange(0, i as int));
    }
    assert(payload@.subrange(0, n as int) =~= payload@);
    Ok(out)
}

} // verus!
