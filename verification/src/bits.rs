//! Bit-level PDU buffer: MSB-first fields read from and written at a cursor.
use vstd::prelude::*;

verus! {

/// `2^n`.
pub open spec fn pow2n(n: nat) -> nat
    decreases n,
{
    if n == 0 {
        1
    } else {
        2 * pow2n((n - 1) as nat)
    }
}

/// Value of a bit string read most-significant bit first.
pub open spec fn bits_value(s: Seq<bool>) -> nat
    decreases s.len(),
{
    if s.len() == 0 {
        0
    } else {
        2 * bits_value(s.drop_last()) + (if s.last() {
            1nat
        } else {
            0nat
        })
    }
}

/// The `n` low bits of `v`, most-significant bit first.
pub open spec fn to_bits(v: nat, n: nat) -> Seq<bool>
    decreases n,
{
    if n == 0 {
        Seq::empty()
    } else {
        to_bits(v / 2, (n - 1) as nat).push(v % 2 == 1)
    }
}

/// `bits` with `w` written from position `pos` on, growing it where `w` runs past its end.
pub open spec fn overwrite(bits: Seq<bool>, pos: int, w: Seq<bool>) -> Seq<bool> {
    if pos + w.len() < bits.len() {
        bits.take(pos) + w + bits.skip(pos + w.len())
    } else {
        bits.take(pos) + w
    }
}

/// The field of `n` bits at `pos`, if the buffer holds that many.
pub open spec fn field_at(bits: Seq<bool>, pos: int, n: nat) -> Option<nat> {
    if 0 <= pos && pos + n <= bits.len() {
        Some(bits_value(bits.subrange(pos, pos + n)))
    } else {
        None
    }
}

/// `n` bits hold every value below `2^n`, and reading back what was written gives it back.
pub proof fn lemma_to_bits(v: nat, n: nat)
    requires
        v < pow2n(n),
    ensures
        to_bits(v, n).len() == n,
        bits_value(to_bits(v, n)) == v,
    decreases n,
{
    if n > 0 {
        lemma_to_bits(v / 2, (n - 1) as nat);
        assert(to_bits(v, n).drop_last() =~= to_bits(v / 2, (n - 1) as nat));
    }
}

/// A bit string of length `n` has a value below `2^n`.
pub proof fn lemma_bits_value_bound(s: Seq<bool>)
    ensures
        bits_value(s) < pow2n(s.len()),
    decreases s.len(),
{
    if s.len() > 0 {
        lemma_bits_value_bound(s.drop_last());
    }
}

/// A field of `n` bits holds a value below `2^n`.
pub proof fn lemma_field_bound(bits: Seq<bool>, pos: int, n: nat)
    ensures
        field_at(bits, pos, n) matches Some(v) ==> v < pow2n(n),
{
    if 0 <= pos && pos + n <= bits.len() {
        lemma_bits_value_bound(bits.subrange(pos, pos + n));
    }
}

/// Reading, at the place it was written, a field written into any buffer gives the value back.
pub proof fn lemma_write_then_read(bits: Seq<bool>, pos: int, v: nat, n: nat)
    requires
        0 <= pos <= bits.len(),
        v < pow2n(n),
    ensures
        field_at(overwrite(bits, pos, to_bits(v, n)), pos, n) == Some(v),
        overwrite(bits, pos, to_bits(v, n)).len() >= pos + n,
{
    lemma_to_bits(v, n);
    let w = to_bits(v, n);
    assert(overwrite(bits, pos, w).subrange(pos, pos + n) =~= w);
}

/// `2^24` and `2^64`, the widths the PDU fields use.
pub proof fn lemma_pow2_widths()
    ensures
        pow2n(1) == 2,
        pow2n(24) == 0x100_0000,
        pow2n(64) == 0x1_0000_0000_0000_0000,
{
    reveal_with_fuel(pow2n, 65);
}

/// Why a PDU could not be read or written.
#[derive(Debug, Clone, Copy, PartialEq, Eq)]
pub enum PduParseErr {
    /// A field holds a value its width or its meaning does not admit.
    InvalidValue { field: &'static str, value: u64 },
    /// The buffer ended before the named field.
    BufferEnded { field: &'static str },
}

/// A growable bit buffer with a read/write cursor.
pub struct BitBuffer {
    bits: Vec<bool>,
    pos: usize,
}

impl View for BitBuffer {
    /// The bits held and the cursor position.
    type V = (Seq<bool>, nat);

    closed spec fn view(&self) -> (Seq<bool>, nat) {
        (self.bits@, self.pos as nat)
    }
}

impl BitBuffer {
    #[verifier::type_invariant]
    spec fn cursor_in_range(self) -> bool {
        self.pos <= self.bits.len()
    }

    /// An empty buffer that grows as it is written; `capacity` bits are reserved up front.
    pub fn new_autoexpand(capacity: usize) -> (r: Self)
        ensures
            r@.0 == Seq::<bool>::empty(),
            r@.1 == 0,
    {
        BitBuffer { bits: Vec::with_capacity(capacity), pos: 0 }
    }

    /// A buffer holding `bits`, with the cursor at the start.
    pub fn from_bits(bits: Vec<bool>) -> (r: Self)
        ensures
            r@.0 == bits@,
            r@.1 == 0,
    {
        BitBuffer { bits, pos: 0 }
    }

    /// Number of bits held.
    pub fn get_len(&self) -> (r: usize)
        ensures
            r == self@.0.len(),
            self@.1 <= r,
    {
        proof {
            use_type_invariant(self);
        }
        self.bits.len()
    }

    /// Cursor position.
    pub fn get_pos(&self) -> (r: usize)
        ensures
            r == self@.1,
            r <= self@.0.len(),
    {
        proof {
            use_type_invariant(self);
        }
        self.pos
    }

    /// Bits left between the cursor and the end.
    pub fn remaining(&self) -> (r: usize)
        ensures
            r == self@.0.len() - self@.1,
    {
        proof {
            use_type_invariant(self);
        }
        self.bits.len() - self.pos
    }

    /// Move the cursor.
    pub fn seek(&mut self, pos: usize)
        requires
            pos <= old(self)@.0.len(),
        ensures
            final(self)@.0 == old(self)@.0,
            final(self)@.1 == pos,
    {
        self.pos = pos;
    }

    /// A copy of the bits held.
    pub fn to_bits_vec(&self) -> (r: Vec<bool>)
        ensures
            r@ == self@.0,
    {
        self.bits.clone()
    }

    /// Read an `n`-bit field MSB first and advance past it. When fewer than `n` bits remain
    /// the buffer is left as it was and the error names `field`.
    pub fn read_field(&mut self, n: usize, field: &'static str) -> (r: Result<u64, PduParseErr>)
        requires
            n <= 64,
        ensures
            match field_at(old(self)@.0, old(self)@.1 as int, n as nat) {
                Some(v) => r == Ok::<u64, PduParseErr>(v as u64) && final(self)@.0 == old(self)@.0
                    && final(self)@.1 == old(self)@.1 + n,
                None => r == Err::<u64, PduParseErr>(PduParseErr::BufferEnded { field })
                    && final(self)@ == old(self)@,
            },
    {
        proof {
            use_type_invariant(&*self);
        }
        if self.bits.len() - self.pos < n {
            return Err(PduParseErr::BufferEnded { field });
        }
        let ghost s = self.bits@.subrange(self.pos as int, self.pos + n);
        let mut acc: u64 = 0;
        let mut i: usize = 0;
        while i < n
            invariant
                i <= n <= 64,
                self.pos + n <= self.bits.len(),
                s == self.bits@.subrange(self.pos as int, self.pos + n),
                acc == bits_value(s.take(i as int)),
            decreases n - i,
        {
            proof {
                lemma_bits_value_bound(s.take(i as int));
                lemma_pow2_widths();
                assert(pow2n(i as nat) <= pow2n(63)) by {
                    lemma_pow2_mono(i as nat, 63);
                }
                assert(s.take(i + 1).drop_last() =~= s.take(i as int));
            }
            let b = self.bits[self.pos + i];
            acc = if b {
                acc * 2 + 1
            } else {
                acc * 2
            };
            i += 1;
        }
        assert(s.take(n as int) =~= s);
        self.pos = self.pos + n;
        Ok(acc)
    }

    /// Write the `n` low bits of `v` MSB first at the cursor and advance past them, growing the
    /// buffer where they run past its end.
    pub fn write_bits(&mut self, v: u64, n: usize)
        requires
            n <= 64,
            v < pow2n(n as nat),
        ensures
            final(self)@.0 == overwrite(old(self)@.0, old(self)@.1 as int, to_bits(v as nat, n as nat)),
            final(self)@.1 == old(self)@.1 + n,
    {
        proof {
            use_type_invariant(&*self);
            lemma_to_bits(v as nat, n as nat);
        }
        let mut w: Vec<bool> = Vec::new();
        push_bits(&mut w, v, n);
        assert(w@ =~= to_bits(v as nat, n as nat));
        let p0 = self.pos;
        let ghost b0 = self.bits@;
        self.pos = 0;
        let mut bits: Vec<bool> = Vec::new();
        std::mem::swap(&mut bits, &mut self.bits);
        let mut pos = p0;
        let mut i: usize = 0;
        while i < w.len()
            invariant
                i <= w.len(),
                p0 <= b0.len(),
                pos == p0 + i,
                pos <= bits.len(),
                bits@ == overwrite(b0, p0 as int, w@.take(i as int)),
            decreases w.len() - i,
        {
            if pos < bits.len() {
                bits.set(pos, w[i]);
            } else {
                bits.push(w[i]);
            }
            assert(pos < bits.len());
            proof {
                let wi = w@.take(i as int);
                let wn = w@.take(i + 1);
                assert(wn =~= wi.push(w@[i as int]));
                assert(bits@ =~= overwrite(b0, p0 as int, wn));
            }
            pos = pos + 1;
            i += 1;
        }
        *self = BitBuffer { bits, pos };
        assert(w@.take(w.len() as int) =~= w@);
    }
}

/// `2^i <= 2^j` for `i <= j`.
pub proof fn lemma_pow2_mono(i: nat, j: nat)
    requires
        i <= j,
    ensures
        pow2n(i) <= pow2n(j),
    decreases j,
{
    if i < j {
        lemma_pow2_mono(i, (j - 1) as nat);
    }
}

/// Append the `n` low bits of `v` to `out`, most-significant bit first.
fn push_bits(out: &mut Vec<bool>, v: u64, n: usize)
    requires
        n <= 64,
    ensures
        final(out)@ == old(out)@ + to_bits(v as nat, n as nat),
    decreases n,
{
    if n > 0 {
        push_bits(out, v / 2, n - 1);
        out.push(v % 2 == 1);
        assert(to_bits(v as nat, n as nat) == to_bits((v / 2) as nat, (n - 1) as nat).push(v % 2 == 1));
    } else {
        assert(old(out)@ + Seq::<bool>::empty() =~= old(out)@);
    }
}

} // verus!
