//! Group deassignment IE of the DGNA DEASSIGN PDU.
//!
//! Layout:
//! ```text
//!   Group SSI               24b  M
//!   Group extension present  1b  M
//!   Group extension         24b  C  (only if present = 1)
//! ```
use vstd::prelude::*;
use crate::text::{append_chars, chars_of, dec, push_dec, string_of};
use crate::bits::{
    field_at, lemma_field_bound, lemma_pow2_widths, lemma_write_then_read, overwrite, pow2n, to_bits, BitBuffer,
    PduParseErr,
};

verus! {

/// Group deassignment IE. It names the group only; the action (detach vs. remove) is decided
/// by the MS and reported back in the DEASSIGN ACK.
#[derive(Debug, Clone, PartialEq, Eq)]
pub struct GroupDeassignment {
    /// Group SSI (GSSI), 24 bits.
    pub group_ssi: u32,
    /// Group extension, 24 bits. `Some` sets the present bit.
    pub group_extension: Option<u32>,
}

/// Outcome of reading the IE at `pos` of `bits`: the IE or the error, and where the cursor
/// stops.
pub open spec fn spec_read_deassignment(bits: Seq<bool>, pos: int) -> (
    Result<GroupDeassignment, PduParseErr>,
    int,
) {
    match field_at(bits, pos, 24) {
        None => (Err(PduParseErr::BufferEnded { field: "group_ssi" }), pos),
        Some(ssi) => match field_at(bits, pos + 24, 1) {
            None => (Err(PduParseErr::BufferEnded { field: "group_extension_present" }), pos + 24),
            Some(present) => if present == 1 {
                match field_at(bits, pos + 25, 24) {
                    None => (Err(PduParseErr::BufferEnded { field: "group_extension" }), pos + 25),
                    Some(ext) => (
                        Ok(GroupDeassignment { group_ssi: ssi as u32, group_extension: Some(ext as u32) }),
                        pos + 49,
                    ),
                }
            } else {
                (Ok(GroupDeassignment { group_ssi: ssi as u32, group_extension: None }), pos + 25)
            },
        },
    }
}

/// The mandatory part written at `pos`: the GSSI and the extension-present bit.
pub open spec fn spec_write_head(bits: Seq<bool>, pos: int, g: GroupDeassignment) -> Seq<bool> {
    let b1 = overwrite(bits, pos, to_bits(g.group_ssi as nat, 24));
    overwrite(b1, pos + 24, to_bits(if g.group_extension is Some { 1 } else { 0 }, 1))
}

/// The whole IE written at `pos`.
pub open spec fn spec_write_deassignment(bits: Seq<bool>, pos: int, g: GroupDeassignment) -> Seq<
    bool,
> {
    let head = spec_write_head(bits, pos, g);
    match g.group_extension {
        Some(ext) => overwrite(head, pos + 25, to_bits(ext as nat, 24)),
        None => head,
    }
}

/// Encoded length of the IE in bits.
pub open spec fn deassignment_len(g: GroupDeassignment) -> int {
    if g.group_extension is Some {
        49
    } else {
        25
    }
}

/// Both 24-bit fields fit their width.
pub open spec fn deassignment_fits(g: GroupDeassignment) -> bool {
    &&& g.group_ssi <= 0xFF_FFFF
    &&& match g.group_extension {
        Some(ext) => ext <= 0xFF_FFFF,
        None => true,
    }
}

impl GroupDeassignment {
    /// Read the IE at the cursor.
    pub fn from_bitbuf(buf: &mut BitBuffer) -> (r: Result<Self, PduParseErr>)
        ensures
            r == spec_read_deassignment(old(buf)@.0, old(buf)@.1 as int).0,
            final(buf)@.0 == old(buf)@.0,
            final(buf)@.1 == spec_read_deassignment(old(buf)@.0, old(buf)@.1 as int).1,
    {
        proof {
            lemma_pow2_widths();
        }
        let ghost b = old(buf)@.0;
        let ghost p = old(buf)@.1 as int;
        proof {
            lemma_field_bound(b, p, 24);
            lemma_field_bound(b, p + 24, 1);
            lemma_field_bound(b, p + 25, 24);
        }
        let group_ssi = match buf.read_field(24, "group_ssi") {
            Ok(v) => v,
            Err(e) => return Err(e),
        };
        let ext_present = match buf.read_field(1, "group_extension_present") {
            Ok(v) => v == 1,
            Err(e) => return Err(e),
        };
        let group_extension = if ext_present {
            match buf.read_field(24, "group_extension") {
                Ok(v) => Some(v as u32),
                Err(e) => return Err(e),
            }
        } else {
            None
        };
        Ok(GroupDeassignment { group_ssi: group_ssi as u32, group_extension })
    }

    /// Write the IE at the cursor. A field wider than 24 bits is refused as `InvalidValue`;
    /// the GSSI is checked before anything is written, the extension after the mandatory part.
    pub fn to_bitbuf(&self, buf: &mut BitBuffer) -> (r: Result<(), PduParseErr>)
        requires
            old(buf)@.1 <= old(buf)@.0.len(),
        ensures
            self.group_ssi > 0xFF_FFFF ==> r == Err::<(), PduParseErr>(
                PduParseErr::InvalidValue { field: "group_ssi", value: self.group_ssi as u64 },
            ) && final(buf)@ == old(buf)@,
            self.group_ssi <= 0xFF_FFFF ==> match self.group_extension {
                Some(ext) if ext > 0xFF_FFFF => r == Err::<(), PduParseErr>(
                    PduParseErr::InvalidValue { field: "group_extension", value: ext as u64 },
                ) && final(buf)@.0 == spec_write_head(old(buf)@.0, old(buf)@.1 as int, *self)
                    && final(buf)@.1 == old(buf)@.1 + 25,
                _ => r == Ok::<(), PduParseErr>(()) && final(buf)@.0 == spec_write_deassignment(
                    old(buf)@.0,
                    old(buf)@.1 as int,
                    *self,
                ) && final(buf)@.1 == old(buf)@.1 + deassignment_len(*self),
            },
    {
        proof {
            lemma_pow2_widths();
        }
        if self.group_ssi > 0xFF_FFFF {
            return Err(PduParseErr::InvalidValue { field: "group_ssi", value: self.group_ssi as u64 });
        }
        buf.write_bits(self.group_ssi as u64, 24);
        let present: u64 = if self.group_extension.is_some() {
            1
        } else {
            0
        };
        buf.write_bits(present, 1);
        if let Some(ext) = self.group_extension {
            if ext > 0xFF_FFFF {
                return Err(PduParseErr::InvalidValue { field: "group_extension", value: ext as u64 });
            }
            buf.write_bits(ext as u64, 24);
        }
        Ok(())
    }
}

/// Writing into a buffer leaves a field that ends at or before the write untouched.
pub proof fn lemma_field_before_write(bits: Seq<bool>, q: int, w: Seq<bool>, p: int, n: nat)
    requires
        0 <= p,
        p + n <= q <= bits.len(),
    ensures
        field_at(overwrite(bits, q, w), p, n) == field_at(bits, p, n),
{
    assert(overwrite(bits, q, w).subrange(p, p + n) =~= bits.subrange(p, p + n));
}

/// Written at any cursor of any buffer, an IE whose fields fit their widths reads back as
/// itself, and reading stops right after it.
pub proof fn lemma_deassignment_round_trip(bits: Seq<bool>, pos: int, g: GroupDeassignment)
    requires
        0 <= pos <= bits.len(),
        deassignment_fits(g),
    ensures
        spec_read_deassignment(spec_write_deassignment(bits, pos, g), pos) == (
            Ok::<GroupDeassignment, PduParseErr>(g),
            pos + deassignment_len(g),
        ),
{
    lemma_pow2_widths();
    let present: nat = if g.group_extension is Some { 1 } else { 0 };
    let b1 = overwrite(bits, pos, to_bits(g.group_ssi as nat, 24));
    lemma_write_then_read(bits, pos, g.group_ssi as nat, 24);
    let b2 = spec_write_head(bits, pos, g);
    lemma_write_then_read(b1, pos + 24, present, 1);
    lemma_field_before_write(b1, pos + 24, to_bits(present, 1), pos, 24);
    match g.group_extension {
        Some(ext) => {
            lemma_write_then_read(b2, pos + 25, ext as nat, 24);
            lemma_field_before_write(b2, pos + 25, to_bits(ext as nat, 24), pos, 24);
            lemma_field_before_write(b2, pos + 25, to_bits(ext as nat, 24), pos + 24, 1);
        },
        None => {},
    }
}


/// `{:?}` of an optional number: `Some(n)` or `None`.
pub open spec fn opt_debug(o: Option<u32>) -> Seq<char> {
    match o {
        Some(v) => "Some("@ + dec(v as nat) + ")"@,
        None => "None"@,
    }
}

/// The text form of the IE:
/// `GroupDeassignment { group_ssi: <gssi> group_extension: <Some(n) or None> }`.
pub open spec fn spec_deassignment_text(g: GroupDeassignment) -> Seq<char> {
    "GroupDeassignment { group_ssi: "@ + dec(g.group_ssi as nat) + " group_extension: "@ + opt_debug(
        g.group_extension,
    ) + " }"@
}

impl GroupDeassignment {
    /// The text form (see [`spec_deassignment_text`]).
    pub fn to_string(&self) -> (r: String)
        ensures
            r@ == spec_deassignment_text(*self),
    {
        let mut v: Vec<char> = Vec::new();
        append_chars(&mut v, chars_of("GroupDeassignment { group_ssi: ").as_slice());
        push_dec(&mut v, self.group_ssi as u64);
        append_chars(&mut v, chars_of(" group_extension: ").as_slice());
        match self.group_extension {
            Some(e) => {
                append_chars(&mut v, chars_of("Some(").as_slice());
                push_dec(&mut v, e as u64);
                append_chars(&mut v, chars_of(")").as_slice());
            },
            None => {
                append_chars(&mut v, chars_of("None").as_slice());
            },
        }
        append_chars(&mut v, chars_of(" }").as_slice());
        assert(v@ =~= spec_deassignment_text(*self));
        string_of(v.as_slice())
    }
}

} // verus!
