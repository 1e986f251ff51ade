//! Length-prefixed framing of the stream transports (TCP, QUIC reliable).
use vstd::prelude::*;
use crate::text::{append_chars, chars_of, dec, dec_chars, string_of};

verus! {

/// Largest accepted length-prefixed message on the stream transports.
pub const MAX_FRAME_BYTES: usize = 1048576;

/// Big-endian value of four bytes.
pub open spec fn be_u32(b: Seq<u8>) -> nat {
    (b[0] as nat) * 16777216 + (b[1] as nat) * 65536 + (b[2] as nat) * 256 + (b[3] as nat)
}

/// Error text for an over-long length prefix.
pub open spec fn desync_msg(len: nat) -> Seq<char> {
    "framing desync: message length "@ + dec(len) + " bytes"@
}

/// Draining `buf` from the front: the complete frames, or the desync error, and the bytes
/// that stay buffered. Each frame is a 4-byte big-endian length followed by that many
/// payload bytes; an incomplete frame stays buffered for the next read.
pub open spec fn spec_drain(buf: Seq<u8>) -> (Result<Seq<Seq<u8>>, Seq<char>>, Seq<u8>)
    decreases buf.len(),
{
    if buf.len() < 4 {
        (Ok(Seq::empty()), buf)
    } else if be_u32(buf) > MAX_FRAME_BYTES {
        (Err(desync_msg(be_u32(buf))), buf)
    } else if buf.len() < 4 + be_u32(buf) {
        (Ok(Seq::empty()), buf)
    } else {
        let frame = buf.subrange(4, 4 + be_u32(buf) as int);
        let (rest_r, rest_buf) = spec_drain(buf.skip(4 + be_u32(buf) as int));
        (
            match rest_r {
                Ok(fs) => Ok(seq![frame] + fs),
                Err(e) => Err(e),
            },
            rest_buf,
        )
    }
}

/// The views of a vector of byte vectors.
pub open spec fn byte_views(v: Seq<Vec<u8>>) -> Seq<Seq<u8>> {
    v.map_values(|f: Vec<u8>| f@)
}

/// Copy of `s[from..to]`.
fn copy_bytes(s: &[u8], from: usize, to: usize) -> (r: Vec<u8>)
    requires
        from <= to <= s.len(),
    ensures
        r@ == s@.subrange(from as int, to as int),
{
    let mut r: Vec<u8> = Vec::new();
    let mut i = from;
    while i < to
        invariant
            from <= i <= to <= s.len(),
            r@ == s@.subrange(from as int, i as int),
        decreases to - i,
    {
        r.push(s[i]);
        assert(s@.subrange(from as int, i as int).push(s@[i as int]) =~= s@.subrange(from as int, i + 1));
        i += 1;
    }
    r
}

/// The outcome `d` of draining the rest of a buffer, with `done` frames already taken
/// off the front.
pub open spec fn after_frames(
    done: Seq<Seq<u8>>,
    d: (Result<Seq<Seq<u8>>, Seq<char>>, Seq<u8>),
) -> (Result<Seq<Seq<u8>>, Seq<char>>, Seq<u8>) {
    (
        match d.0 {
            Ok(fs) => Ok(done + fs),
            Err(e) => Err(e),
        },
        d.1,
    )
}

/// The four big-endian bytes of `n` (taken modulo 2^32).
pub open spec fn be_bytes(n: nat) -> Seq<u8> {
    seq![
        ((n / 16777216) % 256) as u8,
        ((n / 65536) % 256) as u8,
        ((n / 256) % 256) as u8,
        (n % 256) as u8,
    ]
}

/// A payload as it goes on the stream: its length as four big-endian bytes, then the bytes.
pub open spec fn frame_bytes(p: Seq<u8>) -> Seq<u8> {
    be_bytes(p.len()) + p
}

/// Payloads framed one after the other.
pub open spec fn frames_bytes(ps: Seq<Seq<u8>>) -> Seq<u8>
    decreases ps.len(),
{
    if ps.len() == 0 {
        Seq::empty()
    } else {
        frame_bytes(ps[0]) + frames_bytes(ps.drop_first())
    }
}

/// Bytes that hold no complete frame and no over-long prefix: draining leaves them untouched.
pub open spec fn is_pending_tail(t: Seq<u8>) -> bool {
    spec_drain(t) == (Ok::<Seq<Seq<u8>>, Seq<char>>(Seq::empty()), t)
}

/// The length prefix written before a payload on a stream transport, then the payload.
pub fn frame_message(payload: &[u8]) -> (r: Vec<u8>)
    ensures
        r@ == be_bytes(payload@.len() % 4294967296) + payload@,
{
    let n: u64 = (payload.len() as u64) % 4294967296;
    let mut r: Vec<u8> = Vec::new();
    r.push(((n / 16777216) % 256) as u8);
    r.push(((n / 65536) % 256) as u8);
    r.push(((n / 256) % 256) as u8);
    r.push((n % 256) as u8);
    let mut i: usize = 0;
    while i < payload.len()
        invariant
            i <= payload.len(),
            n == payload@.len() % 4294967296,
            r@ == be_bytes(n as nat) + payload@.subrange(0, i as int),
        decreases payload.len() - i,
    {
        r.push(payload[i]);
        assert(payload@.subrange(0, i as int).push(payload@[i as int]) =~= payload@.subrange(0, i + 1));
        i += 1;
    }
    assert(payload@.subrange(0, payload@.len() as int) =~= payload@);
    r
}

proof fn lemma_be_bytes(n: nat)
    requires
        n < 4294967296,
    ensures
        be_u32(be_bytes(n)) == n,
        be_bytes(n).len() == 4,
{
    let a = n / 16777216;
    let b = (n / 65536) % 256;
    let c = (n / 256) % 256;
    let d = n % 256;
    assert(n == a * 16777216 + b * 65536 + c * 256 + d) by (nonlinear_arith)
        requires
            a == n / 16777216,
            b == (n / 65536) % 256,
            c == (n / 256) % 256,
            d == n % 256,
    {
        assert(n / 256 == (n / 65536) * 256 + c);
        assert(n / 65536 == a * 256 + b);
    }
    assert(a < 256) by (nonlinear_arith)
        requires
            a == n / 16777216,
            n < 4294967296,
    ;
}

proof fn lemma_prefix_of_longer(a: Seq<u8>, b: Seq<u8>)
    requires
        a.len() >= 4,
    ensures
        be_u32(a + b) == be_u32(a),
{
    assert((a + b)[0] == a[0]);
    assert((a + b)[1] == a[1]);
    assert((a + b)[2] == a[2]);
    assert((a + b)[3] == a[3]);
}

/// Reading the stream in pieces gives what reading it at once gives: the frames drained from
/// `a`, then those drained from what stayed buffered with `b` appended, are the frames
/// drained from `a + b`, and the same bytes stay buffered.
pub proof fn lemma_drain_split(a: Seq<u8>, b: Seq<u8>)
    requires
        spec_drain(a).0 is Ok,
    ensures
        spec_drain(a + b) == after_frames(spec_drain(a).0->Ok_0, spec_drain(spec_drain(a).1 + b)),
    decreases a.len(),
{
    if a.len() < 4 || a.len() < 4 + be_u32(a) {
        assert(spec_drain(a).1 == a);
        assert(spec_drain(a).0->Ok_0 =~= Seq::<Seq<u8>>::empty());
        match spec_drain(a + b).0 {
            Ok(fs) => { assert(Seq::<Seq<u8>>::empty() + fs =~= fs); },
            Err(_) => {},
        }
    } else {
        lemma_prefix_of_longer(a, b);
        let l = be_u32(a) as int;
        let rest = a.skip(4 + l);
        assert((a + b).subrange(4, 4 + l) =~= a.subrange(4, 4 + l));
        assert((a + b).skip(4 + l) =~= rest + b);
        lemma_drain_split(rest, b);
        let frame = a.subrange(4, 4 + l);
        let fs1 = spec_drain(rest).0->Ok_0;
        assert(spec_drain(a).0->Ok_0 == seq![frame] + fs1);
        match spec_drain(spec_drain(rest).1 + b).0 {
            Ok(fs) => { assert(seq![frame] + (fs1 + fs) =~= (seq![frame] + fs1) + fs); },
            Err(_) => {},
        }
    }
}

/// What a writer puts on the stream is what the reader drains: payloads framed one after
/// the other, followed by bytes that hold no complete frame, drain to exactly those
/// payloads, and the trailing bytes stay buffered.
#[verifier::spinoff_prover]
#[verifier::rlimit(60)]
pub proof fn lemma_frame_round_trip(ps: Seq<Seq<u8>>, tail: Seq<u8>)
    requires
        forall|i: int| 0 <= i < ps.len() ==> #[trigger] ps[i].len() <= MAX_FRAME_BYTES,
        is_pending_tail(tail),
    ensures
        spec_drain(frames_bytes(ps) + tail) == (Ok::<Seq<Seq<u8>>, Seq<char>>(ps), tail),
    decreases ps.len(),
{
    if ps.len() == 0 {
        assert(frames_bytes(ps) + tail =~= tail);
        assert(ps =~= Seq::<Seq<u8>>::empty());
    } else {
        let p = ps[0];
        let rest = ps.drop_first();
        assert forall|i: int| 0 <= i < rest.len() implies #[trigger] rest[i].len() <= MAX_FRAME_BYTES by {
            assert(rest[i] == ps[i + 1]);
        }
        lemma_frame_round_trip(rest, tail);
        assert(ps[0].len() <= MAX_FRAME_BYTES);
        lemma_be_bytes(p.len());
        let after = frames_bytes(rest) + tail;
        let whole = frames_bytes(ps) + tail;
        assert(whole =~= be_bytes(p.len()) + (p + after));
        lemma_prefix_of_longer(be_bytes(p.len()), p + after);
        lemma_drain_step(whole, p, after);
        assert(seq![p] + rest =~= ps);
    }
}

proof fn lemma_drain_step(whole: Seq<u8>, p: Seq<u8>, after: Seq<u8>)
    requires
        whole.len() >= 4,
        be_u32(whole) == p.len(),
        p.len() <= MAX_FRAME_BYTES,
        whole == be_bytes(p.len()) + (p + after),
        be_bytes(p.len()).len() == 4,
        spec_drain(after).0 is Ok,
    ensures
        spec_drain(whole) == (
            Ok::<Seq<Seq<u8>>, Seq<char>>(seq![p] + spec_drain(after).0->Ok_0),
            spec_drain(after).1,
        ),
{
    let l = p.len() as int;
    assert(whole.subrange(4, 4 + l) =~= p);
    assert(whole.skip(4 + l) =~= after);
}

/// Pull every complete `u32-BE length + payload` frame out of `buf`, leaving any partial
/// tail in place for the next read. An over-long length prefix means the stream is
/// desynced: the frames before it are dropped from the buffer and the error is returned.
pub fn drain_length_prefixed(buf: &mut Vec<u8>) -> (r: Result<Vec<Vec<u8>>, String>)
    ensures
        final(buf)@ == spec_drain(old(buf)@).1,
        match r {
            Ok(fs) => spec_drain(old(buf)@).0 == Ok::<Seq<Seq<u8>>, Seq<char>>(byte_views(fs@)),
            Err(e) => spec_drain(old(buf)@).0 == Err::<Seq<Seq<u8>>, Seq<char>>(e@),
        },
{
    let ghost orig = buf@;
    let mut frames: Vec<Vec<u8>> = Vec::new();
    let mut pos: usize = 0;
    assert(orig.skip(0) =~= orig);
    assert(byte_views(frames@) =~= Seq::<Seq<u8>>::empty());
    assert(after_frames(Seq::empty(), spec_drain(orig)) =~= spec_drain(orig)) by {
        match spec_drain(orig).0 {
            Ok(fs) => { assert(Seq::<Seq<u8>>::empty() + fs =~= fs); },
            Err(_) => {},
        }
    }
    loop
        invariant
            pos <= buf.len(),
            buf@ == orig,
            orig == old(buf)@,
            spec_drain(orig) == after_frames(byte_views(frames@), spec_drain(orig.skip(pos as int))),
        decreases buf.len() - pos,
    {
        let ghost cur = orig.skip(pos as int);
        if buf.len() - pos < 4 {
            let rest = copy_bytes(buf.as_slice(), pos, buf.len());
            assert(rest@ =~= cur);
            assert(spec_drain(cur) == (Ok::<Seq<Seq<u8>>, Seq<char>>(Seq::empty()), cur));
            *buf = rest;
            assert(byte_views(frames@) + Seq::<Seq<u8>>::empty() =~= byte_views(frames@));
            return Ok(frames);
        }
        let b0 = buf[pos] as u64;
        let b1 = buf[pos + 1] as u64;
        let b2 = buf[pos + 2] as u64;
        let b3 = buf[pos + 3] as u64;
        let len: u64 = b0 * 16777216 + b1 * 65536 + b2 * 256 + b3;
        assert(len as nat == be_u32(cur));
        if len > MAX_FRAME_BYTES as u64 {
            let rest = copy_bytes(buf.as_slice(), pos, buf.len());
            assert(rest@ =~= cur);
            *buf = rest;
            let mut m = chars_of("framing desync: message length ");
            append_chars(&mut m, dec_chars(len).as_slice());
            append_chars(&mut m, chars_of(" bytes").as_slice());
            return Err(string_of(m.as_slice()));
        }
        let plen = len as usize;
        if buf.len() - pos - 4 < plen {
            let rest = copy_bytes(buf.as_slice(), pos, buf.len());
            assert(rest@ =~= cur);
            *buf = rest;
            assert(byte_views(frames@) + Seq::<Seq<u8>>::empty() =~= byte_views(frames@));
            return Ok(frames);
        }
        let frame = copy_bytes(buf.as_slice(), pos + 4, pos + 4 + plen);
        assert(frame@ =~= cur.subrange(4, 4 + be_u32(cur) as int));
        assert(orig.skip(pos + 4 + plen) =~= cur.skip(4 + be_u32(cur) as int));
        let ghost fb = frames@;
        frames.push(frame);
        assert(byte_views(frames@) =~= byte_views(fb).push(frame@));
        assert forall|fs: Seq<Seq<u8>>| #![trigger byte_views(fb) + (seq![frame@] + fs)]
            byte_views(fb) + (seq![frame@] + fs) =~= byte_views(frames@) + fs by {}
        pos = pos + 4 + plen;
    }
}

} // verus!
