//! PCM16 ↔ TETRA ACELP for LST dispatch, and the bit packing of traffic blocks.
//!
//! The ACELP codec is an external C library that this build does not link, so the codec
//! is never available here: [`LstCodec::new`] gives `None` and nothing is encoded or
//! decoded. Cutting uplink PCM into the two-frame blocks the encoder takes, and the
//! packing of two coded frames into one TMD block, are plain work done here.
use vstd::prelude::*;

verus! {

/// Coded bits per ACELP frame.
pub const CODED_BITS_PER_FRAME: usize = 137;

/// Bytes holding one coded frame.
pub const CODED_BYTES_PER_FRAME: usize = 18;

/// Bits of a TMD block: two coded frames.
pub const TMD_BITS_PER_BLOCK: usize = 274;

/// Bytes of a packed TMD block.
pub const TMD_PACKED_BYTES: usize = 35;

/// The speech codec (absent from this build).
pub struct LstCodec;

impl LstCodec {
    /// The codec, when it can be opened; never in this build.
    pub fn new() -> (r: Option<Self>)
        ensures
            r is None,
    {
        None
    }

    /// Append PCM16 @ 8 kHz and return the packed TMD blocks that are ready: none here.
    pub fn encode_pcm(&mut self, pcm: &[i16]) -> (r: Vec<Vec<u8>>)
        ensures
            r@.len() == 0,
    {
        Vec::new()
    }

    /// Decode one TMD block to PCM: nothing here.
    pub fn decode_tmd(&mut self, tmd: &[u8]) -> (r: Option<Vec<i16>>)
        ensures
            r is None,
    {
        None
    }

    /// Drop buffered uplink PCM (none is kept here).
    pub fn reset_ul(&mut self) {
    }
}

/// Whether the speech codec can be used: never in this build.
pub fn codec_available() -> (r: bool)
    ensures
        !r,
{
    match LstCodec::new() {
        Some(_) => true,
        None => false,
    }
}

/// PCM samples (8 kHz) in one speech frame.
pub const PCM_SAMPLES_PER_FRAME: usize = 240;

/// PCM samples in one block: the two frames of a TMD block.
pub const PCM_SAMPLES_PER_BLOCK: usize = 480;

/// The samples `from..to` of a PCM buffer.
fn pcm_range(v: &Vec<i16>, from: usize, to: usize) -> (r: Vec<i16>)
    requires
        from <= to <= v@.len(),
    ensures
        r@ == v@.subrange(from as int, to as int),
{
    let mut r: Vec<i16> = Vec::new();
    let mut i: usize = from;
    while i < to
        invariant
            from <= i <= to <= v@.len(),
            r@ == v@.subrange(from as int, i as int),
        decreases to - i,
    {
        r.push(v[i]);
        assert(v@.subrange(from as int, i + 1) =~= v@.subrange(from as int, i as int).push(v@[i as int]));
        i += 1;
    }
    r
}

/// The uplink framing step: `pcm` is appended to the buffered samples `buf`, and every
/// whole block of [`PCM_SAMPLES_PER_BLOCK`] samples is taken off the front, split into its
/// two frames of [`PCM_SAMPLES_PER_FRAME`] samples (in order); fewer samples than a block
/// stay buffered for the next call.
pub fn take_pcm_blocks(buf: &mut Vec<i16>, pcm: &[i16]) -> (r: Vec<(Vec<i16>, Vec<i16>)>)
    requires
        old(buf)@.len() + pcm@.len() <= usize::MAX,
    ensures
        ({
            let all = old(buf)@ + pcm@;
            let n = (all.len() as int) / (PCM_SAMPLES_PER_BLOCK as int);
            &&& r@.len() == n
            &&& forall|i: int| 0 <= i < n ==> (#[trigger] r@[i]).0@ == all.subrange(480 * i, 480 * i + 240)
                && r@[i].1@ == all.subrange(480 * i + 240, 480 * i + 480)
            &&& final(buf)@ == all.skip(480 * n)
        }),
{
    let ghost all = old(buf)@ + pcm@;
    let mut k: usize = 0;
    while k < pcm.len()
        invariant
            k <= pcm@.len(),
            buf@ == old(buf)@ + pcm@.take(k as int),
            old(buf)@.len() + pcm@.len() <= usize::MAX,
        decreases pcm@.len() - k,
    {
        buf.push(pcm[k]);
        assert(pcm@.take(k + 1) =~= pcm@.take(k as int).push(pcm@[k as int]));
        k += 1;
    }
    assert(pcm@.take(pcm@.len() as int) =~= pcm@);
    assert(buf@ == all);
    let mut out: Vec<(Vec<i16>, Vec<i16>)> = Vec::new();
    let mut start: usize = 0;
    while buf.len() - start >= PCM_SAMPLES_PER_BLOCK
        invariant
            buf@ == all,
            start <= buf@.len(),
            start == 480 * out@.len(),
            forall|i: int| 0 <= i < out@.len() ==> (#[trigger] out@[i]).0@ == all.subrange(480 * i, 480 * i + 240)
                && out@[i].1@ == all.subrange(480 * i + 240, 480 * i + 480),
        decreases buf@.len() - start,
    {
        let a = pcm_range(buf, start, start + PCM_SAMPLES_PER_FRAME);
        let b = pcm_range(buf, start + PCM_SAMPLES_PER_FRAME, start + PCM_SAMPLES_PER_BLOCK);
        out.push((a, b));
        start = start + PCM_SAMPLES_PER_BLOCK;
    }
    let rest = pcm_range(buf, start, buf.len());
    proof {
        let m = out@.len() as int;
        let len = all.len() as int;
        assert(len / 480 == m) by (nonlinear_arith)
            requires
                480 * m <= len,
                len - 480 * m < 480,
                0 <= m,
        ;
        assert(rest@ =~= all.skip(480 * m));
    }
    *buf = rest;
    out
}

/// Bit `i` of a byte string, most-significant bit of each byte first.
pub open spec fn bit_at(bytes: Seq<u8>, i: int) -> bool {
    (bytes[i / 8] >> ((7 - i % 8) as u8)) & 1 == 1
}

/// Bit `j` of the TMD block that packs frames `a` and `b`: the 137 coded bits of `a`, then
/// those of `b`, then zero padding.
pub open spec fn tmd_bit(a: Seq<u8>, b: Seq<u8>, j: int) -> bool {
    if j < CODED_BITS_PER_FRAME {
        bit_at(a, j)
    } else if j < TMD_BITS_PER_BLOCK {
        bit_at(b, j - CODED_BITS_PER_FRAME)
    } else {
        false
    }
}

/// Bit `i` of a coded frame taken from a TMD block at `base`: its 137 bits, then zeros.
pub open spec fn frame_bit(tmd: Seq<u8>, base: int, i: int) -> bool {
    if i < CODED_BITS_PER_FRAME {
        bit_at(tmd, base + i)
    } else {
        false
    }
}

/// One byte from its eight bits, most significant first.
fn byte_from_bits(b0: bool, b1: bool, b2: bool, b3: bool, b4: bool, b5: bool, b6: bool, b7: bool) -> (r: u8)
    ensures
        ((r >> 7u8) & 1 == 1) == b0,
        ((r >> 6u8) & 1 == 1) == b1,
        ((r >> 5u8) & 1 == 1) == b2,
        ((r >> 4u8) & 1 == 1) == b3,
        ((r >> 3u8) & 1 == 1) == b4,
        ((r >> 2u8) & 1 == 1) == b5,
        ((r >> 1u8) & 1 == 1) == b6,
        ((r >> 0u8) & 1 == 1) == b7,
{
    let v0: u8 = if b0 { 1 } else { 0 };
    let v1: u8 = if b1 { 1 } else { 0 };
    let v2: u8 = if b2 { 1 } else { 0 };
    let v3: u8 = if b3 { 1 } else { 0 };
    let v4: u8 = if b4 { 1 } else { 0 };
    let v5: u8 = if b5 { 1 } else { 0 };
    let v6: u8 = if b6 { 1 } else { 0 };
    let v7: u8 = if b7 { 1 } else { 0 };
    let r: u8 = (v0 << 7u8) | (v1 << 6u8) | (v2 << 5u8) | (v3 << 4u8) | (v4 << 3u8) | (v5 << 2u8) | (v6 << 1u8) | v7;
    assert(((r >> 7u8) & 1 == 1) == (v0 == 1) && ((r >> 6u8) & 1 == 1) == (v1 == 1) && ((r >> 5u8) & 1 == 1) == (v2 == 1)
        && ((r >> 4u8) & 1 == 1) == (v3 == 1) && ((r >> 3u8) & 1 == 1) == (v4 == 1) && ((r >> 2u8) & 1 == 1) == (v5 == 1)
        && ((r >> 1u8) & 1 == 1) == (v6 == 1) && ((r >> 0u8) & 1 == 1) == (v7 == 1)) by (bit_vector)
        requires
            v0 <= 1, v1 <= 1, v2 <= 1, v3 <= 1, v4 <= 1, v5 <= 1, v6 <= 1, v7 <= 1,
            r == (v0 << 7u8) | (v1 << 6u8) | (v2 << 5u8) | (v3 << 4u8) | (v4 << 3u8) | (v5 << 2u8) | (v6 << 1u8) | v7;
    r
}

/// Bit `m` (most significant first) of a byte built by [`byte_from_bits`] is its `m`-th
/// argument.
proof fn lemma_byte_bit(byte: u8, m: int, bit: bool, b0: bool, b1: bool, b2: bool, b3: bool, b4: bool, b5: bool, b6: bool, b7: bool)
    requires
        0 <= m < 8,
        bit == ((byte >> ((7 - m) as u8)) & 1 == 1),
        ((byte >> 7u8) & 1 == 1) == b0,
        ((byte >> 6u8) & 1 == 1) == b1,
        ((byte >> 5u8) & 1 == 1) == b2,
        ((byte >> 4u8) & 1 == 1) == b3,
        ((byte >> 3u8) & 1 == 1) == b4,
        ((byte >> 2u8) & 1 == 1) == b5,
        ((byte >> 1u8) & 1 == 1) == b6,
        ((byte >> 0u8) & 1 == 1) == b7,
    ensures
        bit == seq![b0, b1, b2, b3, b4, b5, b6, b7][m],
{
    if m == 0 {
        assert((7 - m) as u8 == 7u8);
    } else if m == 1 {
        assert((7 - m) as u8 == 6u8);
    } else if m == 2 {
        assert((7 - m) as u8 == 5u8);
    } else if m == 3 {
        assert((7 - m) as u8 == 4u8);
    } else if m == 4 {
        assert((7 - m) as u8 == 3u8);
    } else if m == 5 {
        assert((7 - m) as u8 == 2u8);
    } else if m == 6 {
        assert((7 - m) as u8 == 1u8);
    } else {
        assert((7 - m) as u8 == 0u8);
    }
}

/// The `m`-th of eight values that are `f` at `base`, `base + 1`, ... is `f(base + m)`.
proof fn lemma_pick(m: int, base: int, f: spec_fn(int) -> bool, b0: bool, b1: bool, b2: bool, b3: bool, b4: bool, b5: bool, b6: bool, b7: bool)
    requires
        0 <= m < 8,
        b0 == f(base),
        b1 == f(base + 1),
        b2 == f(base + 2),
        b3 == f(base + 3),
        b4 == f(base + 4),
        b5 == f(base + 5),
        b6 == f(base + 6),
        b7 == f(base + 7),
    ensures
        seq![b0, b1, b2, b3, b4, b5, b6, b7][m] == f(base + m),
{
}

/// Bit `i` of a byte string.
fn get_bit(bytes: &[u8], i: usize) -> (r: bool)
    requires
        i / 8 < bytes@.len(),
    ensures
        r == bit_at(bytes@, i as int),
{
    let byte = bytes[i / 8];
    let sh = (7 - i % 8) as u8;
    (byte >> sh) & 1 == 1
}

/// Bit `j` of the packed block of `a` and `b` (see [`tmd_bit`]).
fn tmd_bit_exec(a: &[u8], b: &[u8], j: usize) -> (r: bool)
    requires
        a@.len() == CODED_BYTES_PER_FRAME,
        b@.len() == CODED_BYTES_PER_FRAME,
    ensures
        r == tmd_bit(a@, b@, j as int),
{
    if j < CODED_BITS_PER_FRAME {
        get_bit(a, j)
    } else if j < TMD_BITS_PER_BLOCK {
        get_bit(b, j - CODED_BITS_PER_FRAME)
    } else {
        false
    }
}

/// Two coded frames packed into one TMD block (see [`tmd_bit`]).
#[verifier::spinoff_prover]
#[verifier::rlimit(40)]
pub fn pack_tmd_block(a: &[u8; 18], b: &[u8; 18]) -> (r: Vec<u8>)
    ensures
        r@.len() == TMD_PACKED_BYTES,
        forall|j: int| 0 <= j < 8 * TMD_PACKED_BYTES ==> bit_at(r@, j) == tmd_bit(a@, b@, j),
{
    let a = a.as_slice();
    let b = b.as_slice();
    let mut out: Vec<u8> = Vec::new();
    let mut k: usize = 0;
    while k < TMD_PACKED_BYTES
        invariant
            k <= TMD_PACKED_BYTES,
            a@.len() == CODED_BYTES_PER_FRAME,
            b@.len() == CODED_BYTES_PER_FRAME,
            out@.len() == k,
            forall|j: int| 0 <= j < 8 * k ==> bit_at(out@, j) == tmd_bit(a@, b@, j),
        decreases TMD_PACKED_BYTES - k,
    {
        let base = 8 * k;
        let t0 = tmd_bit_exec(a, b, base);
        let t1 = tmd_bit_exec(a, b, base + 1);
        let t2 = tmd_bit_exec(a, b, base + 2);
        let t3 = tmd_bit_exec(a, b, base + 3);
        let t4 = tmd_bit_exec(a, b, base + 4);
        let t5 = tmd_bit_exec(a, b, base + 5);
        let t6 = tmd_bit_exec(a, b, base + 6);
        let t7 = tmd_bit_exec(a, b, base + 7);
        let byte = byte_from_bits(t0, t1, t2, t3, t4, t5, t6, t7);
        let ghost prev = out@;
        out.push(byte);
        assert forall|j: int| 0 <= j < 8 * (k + 1) implies bit_at(out@, j) == tmd_bit(a@, b@, j) by {
            if j < 8 * k {
                assert(j / 8 < k);
                assert(out@[j / 8] == prev[j / 8]);
                assert(bit_at(prev, j) == tmd_bit(a@, b@, j));
                assert(bit_at(out@, j) == bit_at(prev, j));
            } else {
                assert(j / 8 == k);
                assert(out@[j / 8] == byte);
                let m = j % 8;
                assert(j == base + m);
                assert(bit_at(out@, j) == ((byte >> ((7 - m) as u8)) & 1 == 1));
                lemma_byte_bit(byte, m, bit_at(out@, j), t0, t1, t2, t3, t4, t5, t6, t7);
                assert(t1 == tmd_bit(a@, b@, base + 1));
                lemma_pick(m, base as int, |x: int| tmd_bit(a@, b@, x), t0, t1, t2, t3, t4, t5, t6, t7);
                assert(seq![t0, t1, t2, t3, t4, t5, t6, t7][m] == tmd_bit(a@, b@, base + m));
                assert(bit_at(out@, j) == tmd_bit(a@, b@, j));
            }
        }
        k += 1;
    }
    out
}

/// One coded frame taken from a TMD block at bit `base` (see [`frame_bit`]).
#[verifier::spinoff_prover]
#[verifier::rlimit(40)]
fn frame_from_tmd(tmd: &[u8], base: usize) -> (r: [u8; 18])
    requires
        base <= CODED_BITS_PER_FRAME,
        tmd@.len() >= TMD_PACKED_BYTES,
    ensures
        forall|i: int| 0 <= i < 8 * CODED_BYTES_PER_FRAME ==> bit_at(r@, i) == frame_bit(tmd@, base as int, i),
{
    let mut out = [0u8; 18];
    let mut k: usize = 0;
    while k < CODED_BYTES_PER_FRAME
        invariant
            k <= CODED_BYTES_PER_FRAME,
            base <= CODED_BITS_PER_FRAME,
            tmd@.len() >= TMD_PACKED_BYTES,
            out@.len() == CODED_BYTES_PER_FRAME,
            forall|i: int| 0 <= i < 8 * k ==> bit_at(out@, i) == frame_bit(tmd@, base as int, i),
        decreases CODED_BYTES_PER_FRAME - k,
    {
        let i0 = 8 * k;
        let f0 = if i0 < CODED_BITS_PER_FRAME { get_bit(tmd, base + i0) } else { false };
        let f1 = if i0 + 1 < CODED_BITS_PER_FRAME { get_bit(tmd, base + i0 + 1) } else { false };
        let f2 = if i0 + 2 < CODED_BITS_PER_FRAME { get_bit(tmd, base + i0 + 2) } else { false };
        let f3 = if i0 + 3 < CODED_BITS_PER_FRAME { get_bit(tmd, base + i0 + 3) } else { false };
        let f4 = if i0 + 4 < CODED_BITS_PER_FRAME { get_bit(tmd, base + i0 + 4) } else { false };
        let f5 = if i0 + 5 < CODED_BITS_PER_FRAME { get_bit(tmd, base + i0 + 5) } else { false };
        let f6 = if i0 + 6 < CODED_BITS_PER_FRAME { get_bit(tmd, base + i0 + 6) } else { false };
        let f7 = if i0 + 7 < CODED_BITS_PER_FRAME { get_bit(tmd, base + i0 + 7) } else { false };
        let byte = byte_from_bits(f0, f1, f2, f3, f4, f5, f6, f7);
        let ghost prev = out@;
        out[k] = byte;
        assert forall|i: int| 0 <= i < 8 * (k + 1) implies bit_at(out@, i) == frame_bit(tmd@, base as int, i) by {
            if i < 8 * k {
                assert(i / 8 < k);
                assert(out@[i / 8] == prev[i / 8]);
                assert(bit_at(prev, i) == frame_bit(tmd@, base as int, i));
                assert(bit_at(out@, i) == bit_at(prev, i));
            } else {
                assert(i / 8 == k);
                assert(out@[i / 8] == byte);
                let m = i % 8;
                assert(i == i0 + m);
                lemma_byte_bit(byte, m, bit_at(out@, i), f0, f1, f2, f3, f4, f5, f6, f7);
                lemma_pick(m, i0 as int, |x: int| frame_bit(tmd@, base as int, x), f0, f1, f2, f3, f4, f5, f6, f7);
            }
        }
        k += 1;
    }
    out
}

/// The two coded frames of a TMD block (see [`frame_bit`]); none when the block is shorter
/// than 35 bytes.
pub fn split_tmd(tmd: &[u8]) -> (r: Option<([u8; 18], [u8; 18])>)
    ensures
        tmd@.len() < TMD_PACKED_BYTES ==> r is None,
        tmd@.len() >= TMD_PACKED_BYTES ==> (r matches Some((a, b)) && (forall|i: int|
            0 <= i < 8 * CODED_BYTES_PER_FRAME ==> bit_at(a@, i) == frame_bit(tmd@, 0, i) && bit_at(b@, i)
                == frame_bit(tmd@, CODED_BITS_PER_FRAME as int, i))),
{
    if tmd.len() < TMD_PACKED_BYTES {
        return None;
    }
    let a = frame_from_tmd(tmd, 0);
    let b = frame_from_tmd(tmd, CODED_BITS_PER_FRAME);
    Some((a, b))
}

} // verus!
