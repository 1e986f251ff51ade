//! Dual-carrier switch in `[cell_info]` and the Soapy passband helpers.
//!
//! Enabling dual carrier is a config-file operation applied via controlled restart. The
//! secondary carrier number is remembered across OFF; `dual_carrier_enabled` is the
//! operational switch.
use vstd::prelude::*;
use crate::text::{
    all_digits, append_chars, clean_line, has_char, lemma_lines_of_join, lemma_split_no_newline,
    lemma_split_tail_empty, split_state, strip_cr, join_lines, ends_with, bool_chars, bool_text, chars_eq, chars_of, concat, contains,
    copy_chars, dec, dec_chars, has_line, lines, occurs_at, parse_uint, parse_uint_exec,
    split_lines, starts_with, starts_with_exec, string_of, trim, trim_exec, trim_start, trim_start_exec,
    views,
};
use crate::toml_lines::{
    active_value, active_value_exec, append_section, append_section_exec, finish_body,
    finish_body_exec, is_header, is_header_exec, lemma_contains_trans, lemma_finish_contains,
};
use crate::ota_channel::{before_char, before_char_exec, lemma_contains_self};
use crate::update_check::opt_view;

verus! {

/// Current dual-carrier configuration as read from the TOML text.
#[derive(Debug, Clone, Copy, PartialEq, Eq, Structural)]
pub struct DualCarrierState {
    /// The `dual_carrier_enabled` switch (absent = true for backward compatibility).
    pub enabled: bool,
    /// The configured `secondary_carrier` number, if any (preserved even while disabled).
    pub secondary_carrier: Option<u16>,
}

impl DualCarrierState {
    /// Dual carrier is operationally active only when switched on AND a carrier is configured.
    pub fn active(&self) -> (r: bool)
        ensures
            r == (self.enabled && self.secondary_carrier is Some),
    {
        self.enabled && self.secondary_carrier.is_some()
    }
}

/// `dual_carrier_enabled = <enabled>`.
pub open spec fn enabled_line(enabled: bool) -> Seq<char> {
    "dual_carrier_enabled = "@ + bool_text(enabled)
}

/// `secondary_carrier = <c>`.
pub open spec fn secondary_line(c: u16) -> Seq<char> {
    "secondary_carrier = "@ + dec(c as nat)
}

/// Scan state: output, inside `[cell_info]`, section seen, switch written, carrier written.
pub type DualScan = (Seq<Seq<char>>, bool, bool, bool, bool);

/// The keys still owed when leaving the section.
pub open spec fn dual_flush(out: Seq<Seq<char>>, we: bool, ws: bool, e: Seq<char>, s: Option<Seq<char>>) -> Seq<Seq<char>> {
    let o1 = if !we { out.push(e) } else { out };
    if !ws && s is Some { o1.push(s->0) } else { o1 }
}

/// One input line of the rewrite.
pub open spec fn dual_step(st: DualScan, raw: Seq<char>, e: Seq<char>, s: Option<Seq<char>>) -> DualScan {
    let (out, in_cell, seen, we, ws) = st;
    let t = trim_start(raw);
    if is_header(t) {
        let o1 = if in_cell { dual_flush(out, we, ws, e, s) } else { out };
        let we1 = we || in_cell;
        let ws1 = ws || in_cell;
        let in1 = starts_with(t, "[cell_info]"@);
        (o1.push(raw), in1, seen || in1, we1, ws1)
    } else if in_cell && !we && active_value(t, "dual_carrier_enabled"@) is Some {
        (out.push(e), in_cell, seen, true, ws)
    } else if in_cell && !ws && active_value(t, "secondary_carrier"@) is Some {
        (if s is Some { out.push(s->0) } else { out }, in_cell, seen, we, true)
    } else {
        (out.push(raw), in_cell, seen, we, ws)
    }
}

/// The scan over all lines.
pub open spec fn dual_scan(ls: Seq<Seq<char>>, e: Seq<char>, s: Option<Seq<char>>) -> DualScan
    decreases ls.len(),
{
    if ls.len() == 0 {
        (Seq::empty(), false, false, false, s is None)
    } else {
        dual_step(dual_scan(ls.drop_last(), e, s), ls.last(), e, s)
    }
}

/// The lines of a `[cell_info]` section created from scratch.
pub open spec fn dual_new_section(e: Seq<char>, s: Option<Seq<char>>) -> Seq<Seq<char>> {
    if s is Some {
        seq!["[cell_info]"@, e, s->0]
    } else {
        seq!["[cell_info]"@, e]
    }
}

/// `compute_toml(original, enabled, secondary)`: inside `[cell_info]`, the first active
/// `dual_carrier_enabled` line becomes the switch line and (when a carrier is given) the
/// first active `secondary_carrier` line becomes the carrier line; keys the section lacks
/// are added at its end; without a `[cell_info]` section one is appended. Everything else
/// is kept as it was.
pub open spec fn spec_compute_toml(original: Seq<char>, enabled: bool, secondary: Option<u16>) -> Seq<char> {
    let e = enabled_line(enabled);
    let s = match secondary {
        Some(c) => Some(secondary_line(c)),
        None => None,
    };
    finish_body(original, dual_rewrite_lines(lines(original), e, s), false)
}

/// The rewritten lines of [`spec_compute_toml`], before they are joined.
pub open spec fn dual_rewrite_lines(ls: Seq<Seq<char>>, e: Seq<char>, s: Option<Seq<char>>) -> Seq<Seq<char>> {
    let (out, in_cell, seen, we, ws) = dual_scan(ls, e, s);
    let out2 = if in_cell { dual_flush(out, we, ws, e, s) } else { out };
    if !seen { append_section(out2, dual_new_section(e, s)) } else { out2 }
}

/// Produce a new TOML body with `dual_carrier_enabled` (and, when `secondary_carrier` is
/// `Some`, the active `secondary_carrier` key) set inside `[cell_info]`, preserving
/// everything else including comments.
pub fn compute_toml(original: &str, enabled: bool, secondary_carrier: Option<u16>) -> (r: String)
    ensures
        r@ == spec_compute_toml(original@, enabled, secondary_carrier),
{
    let e = concat(chars_of("dual_carrier_enabled = ").as_slice(), bool_chars(enabled).as_slice());
    let s: Option<Vec<char>> = match secondary_carrier {
        Some(c) => Some(concat(chars_of("secondary_carrier = ").as_slice(), dec_chars(c as u64).as_slice())),
        None => None,
    };
    let ghost gs = match secondary_carrier {
        Some(c) => Some(secondary_line(c)),
        None => None,
    };
    assert(match s { Some(v) => gs == Some(v@), None => gs is None });
    let orig = chars_of(original);
    let ls = split_lines(orig.as_slice());
    let cell = chars_of("[cell_info]");
    let k_en = chars_of("dual_carrier_enabled");
    let k_sec = chars_of("secondary_carrier");
    let mut out: Vec<Vec<char>> = Vec::new();
    let mut in_cell = false;
    let mut seen = false;
    let mut we = false;
    let mut ws = s.is_none();
    let mut i: usize = 0;
    while i < ls.len()
        invariant
            i <= ls.len(),
            views(ls@) == lines(orig@),
            cell@ == "[cell_info]"@,
            k_en@ == "dual_carrier_enabled"@,
            k_sec@ == "secondary_carrier"@,
            e@ == enabled_line(enabled),
            match s { Some(v) => gs == Some(v@), None => gs is None },
            (views(out@), in_cell, seen, we, ws) == dual_scan(views(ls@).take(i as int), e@, gs),
        decreases ls.len() - i,
    {
        let raw = &ls[i];
        let ghost pre = (views(out@), in_cell, seen, we, ws);
        assert(views(ls@).take(i + 1).drop_last() =~= views(ls@).take(i as int));
        assert(views(ls@).take(i + 1).last() == raw@);
        let t = trim_start_exec(raw.as_slice());
        if is_header_exec(t.as_slice()) {
            if in_cell {
                flush(&mut out, &mut we, &mut ws, &e, &s, Ghost(gs));
            }
            in_cell = starts_with_exec(t.as_slice(), cell.as_slice());
            if in_cell {
                seen = true;
            }
            out.push(copy_chars(raw.as_slice()));
        } else if in_cell && !we && active_value_exec(t.as_slice(), k_en.as_slice()).is_some() {
            out.push(copy_chars(e.as_slice()));
            we = true;
        } else if in_cell && !ws && active_value_exec(t.as_slice(), k_sec.as_slice()).is_some() {
            if let Some(ref v) = s {
                out.push(copy_chars(v.as_slice()));
            }
            ws = true;
        } else {
            out.push(copy_chars(raw.as_slice()));
        }
        assert((views(out@), in_cell, seen, we, ws) == dual_step(pre, raw@, e@, gs)) by {
            assert(views(out@) =~= dual_step(pre, raw@, e@, gs).0);
        }
        i += 1;
    }
    assert(views(ls@).take(ls.len() as int) =~= views(ls@));
    if in_cell {
        flush(&mut out, &mut we, &mut ws, &e, &s, Ghost(gs));
    }
    if !seen {
        let mut section: Vec<Vec<char>> = Vec::new();
        section.push(cell);
        section.push(copy_chars(e.as_slice()));
        if let Some(ref v) = s {
            section.push(copy_chars(v.as_slice()));
        }
        assert(views(section@) =~= dual_new_section(e@, gs));
        append_section_exec(&mut out, section);
    }
    finish_body_exec(orig.as_slice(), &out, false)
}

/// Emits the keys still owed when a `[cell_info]` section ends.
fn flush(out: &mut Vec<Vec<char>>, we: &mut bool, ws: &mut bool, e: &Vec<char>, s: &Option<Vec<char>>, Ghost(gs): Ghost<Option<Seq<char>>>)
    requires
        match *s { Some(v) => gs == Some(v@), None => gs is None },
    ensures
        views(final(out)@) == dual_flush(views(old(out)@), *old(we), *old(ws), e@, gs),
        *final(we),
        *final(ws),
{
    let ghost o0 = views(out@);
    if !*we {
        out.push(copy_chars(e.as_slice()));
        *we = true;
    }
    let ghost o1 = views(out@);
    assert(o1 =~= if !*old(we) { o0.push(e@) } else { o0 });
    if !*ws {
        if let Some(v) = s {
            out.push(copy_chars(v.as_slice()));
        }
        *ws = true;
    }
    assert(views(out@) =~= dual_flush(o0, *old(we), *old(ws), e@, gs));
}

/// A key and its value as written: `key = value`.
pub type KeyValue = (Seq<char>, Seq<char>);

/// `key = value`.
pub open spec fn kv_line(kv: KeyValue) -> Seq<char> {
    kv.0 + " = "@ + kv.1
}

/// The lines of the keys not yet written, in key order.
pub open spec fn pending_lines(keys: Seq<KeyValue>, wrote: Seq<bool>) -> Seq<Seq<char>>
    decreases keys.len(),
{
    if keys.len() == 0 || wrote.len() == 0 {
        Seq::empty()
    } else {
        pending_lines(keys.drop_last(), wrote.drop_last()) + if !wrote.last() {
            seq![kv_line(keys.last())]
        } else {
            Seq::empty()
        }
    }
}

/// The first key from `i` on that is not yet written and that the line assigns.
pub open spec fn first_match_from(t: Seq<char>, keys: Seq<KeyValue>, wrote: Seq<bool>, i: int) -> Option<int>
    decreases keys.len() - i,
{
    if i < 0 || i >= keys.len() {
        None
    } else if !wrote[i] && active_value(t, keys[i].0) is Some {
        Some(i)
    } else {
        first_match_from(t, keys, wrote, i + 1)
    }
}

/// Scan state: output, inside `[phy_io.soapysdr]`, section seen, which keys are written.
pub type SoapyScan = (Seq<Seq<char>>, bool, bool, Seq<bool>);

/// Every key marked written.
pub open spec fn all_written(n: nat) -> Seq<bool> {
    Seq::new(n, |i: int| true)
}

/// One input line of the upsert: leaving the section writes the keys it still lacks;
/// inside it, the first active assignment of a key not yet written becomes `key = value`.
pub open spec fn soapy_step(st: SoapyScan, raw: Seq<char>, keys: Seq<KeyValue>) -> SoapyScan {
    let (out, in_soapy, seen, wrote) = st;
    let t = trim_start(raw);
    if is_header(t) {
        let o1 = if in_soapy { out + pending_lines(keys, wrote) } else { out };
        let w1 = if in_soapy { all_written(keys.len()) } else { wrote };
        let in1 = starts_with(t, "[phy_io.soapysdr]"@);
        (o1.push(raw), in1, seen || in1, w1)
    } else if in_soapy && first_match_from(t, keys, wrote, 0) is Some {
        let i = first_match_from(t, keys, wrote, 0)->0;
        (out.push(kv_line(keys[i])), in_soapy, seen, wrote.update(i, true))
    } else {
        (out.push(raw), in_soapy, seen, wrote)
    }
}

/// The scan over all lines.
pub open spec fn soapy_scan(ls: Seq<Seq<char>>, keys: Seq<KeyValue>) -> SoapyScan
    decreases ls.len(),
{
    if ls.len() == 0 {
        (Seq::empty(), false, false, Seq::new(keys.len(), |i: int| false))
    } else {
        soapy_step(soapy_scan(ls.drop_last(), keys), ls.last(), keys)
    }
}

/// Upsert scalar keys inside `[phy_io.soapysdr]`: the first active assignment of each key
/// in the section is replaced, keys the section lacks are added at its end, and without
/// the section one is appended; everything else is kept. No keys: the text is unchanged.
pub open spec fn spec_upsert_soapysdr_keys(original: Seq<char>, keys: Seq<KeyValue>) -> Seq<char> {
    if keys.len() == 0 {
        original
    } else {
        let (out, in_soapy, seen, wrote) = soapy_scan(lines(original), keys);
        let out2 = if in_soapy { out + pending_lines(keys, wrote) } else { out };
        let w2 = if in_soapy { all_written(keys.len()) } else { wrote };
        let out3 = if !seen {
            append_section(out2, seq!["[phy_io.soapysdr]"@] + pending_lines(keys, w2))
        } else {
            out2
        };
        finish_body(original, out3, false)
    }
}

/// The views of key/value pairs.
pub open spec fn kv_views(v: Seq<(String, String)>) -> Seq<KeyValue> {
    v.map_values(|p: (String, String)| (p.0@, p.1@))
}

/// The lines of the keys not yet written, appended in key order; every key is then
/// written.
fn flush_keys(out: &mut Vec<Vec<char>>, keys: &Vec<(String, String)>, wrote: &mut Vec<bool>)
    requires
        old(wrote)@.len() == keys@.len(),
    ensures
        views(final(out)@) == views(old(out)@) + pending_lines(kv_views(keys@), old(wrote)@),
        final(wrote)@ == all_written(keys@.len() as nat),
{
    let ghost kv = kv_views(keys@);
    let ghost w0 = wrote@;
    let ghost o0 = views(out@);
    let mut i: usize = 0;
    assert(kv.take(0) =~= Seq::<KeyValue>::empty());
    assert(o0 + pending_lines(kv.take(0), w0.take(0)) =~= o0);
    while i < keys.len()
        invariant
            i <= keys.len() == wrote.len() == w0.len(),
            kv == kv_views(keys@),
            forall|k: int| 0 <= k < i ==> wrote@[k],
            forall|k: int| i <= k < keys.len() ==> wrote@[k] == w0[k],
            views(out@) == o0 + pending_lines(kv.take(i as int), w0.take(i as int)),
        decreases keys.len() - i,
    {
        assert(kv.take(i + 1).drop_last() =~= kv.take(i as int));
        assert(w0.take(i + 1).drop_last() =~= w0.take(i as int));
        assert(kv.take(i + 1).last() == (keys@[i as int].0@, keys@[i as int].1@));
        let ghost before = views(out@);
        if !wrote[i] {
            let mut l = chars_of(keys[i].0.as_str());
            append_chars(&mut l, chars_of(" = ").as_slice());
            append_chars(&mut l, chars_of(keys[i].1.as_str()).as_slice());
            out.push(l);
            assert(views(out@) =~= before + seq![kv_line(kv[i as int])]);
        } else {
            assert(views(out@) =~= before + Seq::<Seq<char>>::empty());
        }
        wrote.set(i, true);
        i += 1;
    }
    assert(kv.take(keys.len() as int) =~= kv);
    assert(w0.take(keys.len() as int) =~= w0);
    assert(wrote@ =~= all_written(keys@.len() as nat));
}

/// Upsert scalar keys inside `[phy_io.soapysdr]` (create the section if missing).
pub fn upsert_soapysdr_keys(original: &str, keys: &Vec<(String, String)>) -> (r: String)
    ensures
        r@ == spec_upsert_soapysdr_keys(original@, kv_views(keys@)),
{
    if keys.len() == 0 {
        return string_of(chars_of(original).as_slice());
    }
    let ghost kv = kv_views(keys@);
    let orig = chars_of(original);
    let ls = split_lines(orig.as_slice());
    let hdr = chars_of("[phy_io.soapysdr]");
    let mut out: Vec<Vec<char>> = Vec::new();
    let mut in_soapy = false;
    let mut seen = false;
    let mut wrote: Vec<bool> = Vec::new();
    let mut k: usize = 0;
    while k < keys.len()
        invariant
            k <= keys.len(),
            wrote@ =~= Seq::new(k as nat, |i: int| false),
        decreases keys.len() - k,
    {
        wrote.push(false);
        k += 1;
    }
    let mut i: usize = 0;
    assert(views(ls@).take(0) =~= Seq::<Seq<char>>::empty());
    assert(views(out@) =~= Seq::<Seq<char>>::empty());
    while i < ls.len()
        invariant
            i <= ls.len(),
            views(ls@) == lines(orig@),
            orig@ == original@,
            hdr@ == "[phy_io.soapysdr]"@,
            kv == kv_views(keys@),
            wrote@.len() == keys@.len(),
            (views(out@), in_soapy, seen, wrote@) == soapy_scan(views(ls@).take(i as int), kv),
        decreases ls.len() - i,
    {
        let raw = &ls[i];
        let ghost pre = (views(out@), in_soapy, seen, wrote@);
        assert(views(ls@).take(i + 1).drop_last() =~= views(ls@).take(i as int));
        assert(views(ls@).take(i + 1).last() == raw@);
        let t = trim_start_exec(raw.as_slice());
        if is_header_exec(t.as_slice()) {
            if in_soapy {
                flush_keys(&mut out, keys, &mut wrote);
            }
            in_soapy = starts_with_exec(t.as_slice(), hdr.as_slice());
            if in_soapy {
                seen = true;
            }
            out.push(copy_chars(raw.as_slice()));
            assert((views(out@), in_soapy, seen, wrote@) == soapy_step(pre, raw@, kv)) by {
                assert(views(out@) =~= soapy_step(pre, raw@, kv).0);
            }
        } else {
            let mut found: Option<usize> = None;
            if in_soapy {
                let mut j: usize = 0;
                while j < keys.len() && found.is_none()
                    invariant
                        j <= keys.len() == wrote.len(),
                        kv == kv_views(keys@),
                        found matches Some(x) ==> x < keys.len() && first_match_from(t@, kv, wrote@, 0) == Some(x as int),
                        found is None ==> first_match_from(t@, kv, wrote@, 0) == first_match_from(t@, kv, wrote@, j as int),
                    decreases keys.len() - j,
                {
                    assert(kv[j as int].0 == keys@[j as int].0@);
                    if !wrote[j] && active_value_exec(t.as_slice(), chars_of(keys[j].0.as_str()).as_slice()).is_some() {
                        found = Some(j);
                    }
                    j += 1;
                }
                proof {
                    if found is None {
                        assert(first_match_from(t@, kv, wrote@, j as int) is None);
                    }
                }
            }
            match found {
                Some(j) => {
                    let mut l = chars_of(keys[j].0.as_str());
                    append_chars(&mut l, chars_of(" = ").as_slice());
                    append_chars(&mut l, chars_of(keys[j].1.as_str()).as_slice());
                    assert(l@ == kv_line(kv[j as int]));
                    out.push(l);
                    wrote.set(j, true);
                },
                None => {
                    out.push(copy_chars(raw.as_slice()));
                },
            }
            assert((views(out@), in_soapy, seen, wrote@) == soapy_step(pre, raw@, kv)) by {
                assert(views(out@) =~= soapy_step(pre, raw@, kv).0);
            }
        }
        i += 1;
    }
    assert(views(ls@).take(ls.len() as int) =~= views(ls@));
    if in_soapy {
        flush_keys(&mut out, keys, &mut wrote);
    }
    if !seen {
        let mut section: Vec<Vec<char>> = Vec::new();
        section.push(hdr);
        let ghost w2 = wrote@;
        flush_keys(&mut section, keys, &mut wrote);
        assert(views(section@) =~= seq!["[phy_io.soapysdr]"@] + pending_lines(kv, w2));
        append_section_exec(&mut out, section);
    }
    finish_body_exec(orig.as_slice(), &out, false)
}

/// Law: after the rewrite the file holds the switch line and, when a carrier is given,
/// the carrier line.
pub proof fn lemma_compute_toml_sets_keys(original: Seq<char>, enabled: bool, secondary: Option<u16>)
    ensures
        contains(spec_compute_toml(original, enabled, secondary), enabled_line(enabled)),
        secondary matches Some(c) ==> contains(spec_compute_toml(original, enabled, secondary), secondary_line(c)),
{
    let e = enabled_line(enabled);
    let s = match secondary {
        Some(c) => Some(secondary_line(c)),
        None => None,
    };
    lemma_dual_scan_inv(lines(original), e, s);
    let (out, in_cell, seen, we, ws) = dual_scan(lines(original), e, s);
    let out2 = if in_cell { dual_flush(out, we, ws, e, s) } else { out };
    let out3 = if !seen { append_section(out2, dual_new_section(e, s)) } else { out2 };
    assert(has_line(out2, e) && (s is Some ==> has_line(out2, s->0)) || !seen) by {
        if in_cell {
            let o1 = if !we { out.push(e) } else { out };
            if !we {
                assert(o1[out.len() as int] == e);
            } else {
                let j = choose|j: int| 0 <= j < out.len() && out[j] == e;
                assert(o1[j] == e);
            }
            assert(has_line(o1, e));
            if s is Some {
                if !ws {
                    assert(out2[o1.len() as int] == s->0);
                } else {
                    let j = choose|j: int| 0 <= j < out.len() && out[j] == s->0;
                    assert(o1[j] == s->0);
                }
            }
            let j = choose|j: int| 0 <= j < o1.len() && o1[j] == e;
            assert(out2[j] == e);
        }
    }
    if !seen {
        let sec = dual_new_section(e, s);
        let base = out3.len() - sec.len();
        assert(out3[base + 1] == e);
        assert(has_line(out3, e));
        if s is Some {
            assert(out3[base + 2] == s->0);
            assert(has_line(out3, s->0));
        }
    }
    lemma_finish_contains(original, out3, false, e);
    if let Some(c) = secondary {
        lemma_finish_contains(original, out3, false, secondary_line(c));
    }
}

/// Scan invariant: a seen section has its keys written or is still open; written keys
/// are output lines.
proof fn lemma_dual_scan_inv(ls: Seq<Seq<char>>, e: Seq<char>, s: Option<Seq<char>>)
    ensures
        ({
            let (out, in_cell, seen, we, ws) = dual_scan(ls, e, s);
            &&& seen ==> (we && ws) || in_cell
            &&& we ==> has_line(out, e)
            &&& (s is Some && ws) ==> has_line(out, s->0)
        }),
    decreases ls.len(),
{
    if ls.len() > 0 {
        lemma_dual_scan_inv(ls.drop_last(), e, s);
        let st = dual_scan(ls.drop_last(), e, s);
        let (out, in_cell, seen, we, ws) = st;
        let (out2, in2, seen2, we2, ws2) = dual_step(st, ls.last(), e, s);
        assert(forall|j: int| 0 <= j < out.len() ==> out2.len() >= out.len() && #[trigger] out2[j] == out[j]) by {
            let t = trim_start(ls.last());
            if is_header(t) && in_cell {
                let o1 = if !we { out.push(e) } else { out };
                assert(forall|j: int| 0 <= j < out.len() ==> #[trigger] o1[j] == out[j]);
            }
        }
        if we2 && !we {
            let t = trim_start(ls.last());
            if is_header(t) {
                assert(out2[out.len() as int] == e);
            } else {
                assert(out2[out.len() as int] == e);
            }
        } else if we2 {
            let j = choose|j: int| 0 <= j < out.len() && out[j] == e;
            assert(out2[j] == e);
        }
        if s is Some && ws2 {
            if ws {
                let j = choose|j: int| 0 <= j < out.len() && out[j] == s->0;
                assert(out2[j] == s->0);
            } else {
                let t = trim_start(ls.last());
                if is_header(t) {
                    let o1 = if !we { out.push(e) } else { out };
                    assert(out2[o1.len() as int] == s->0);
                } else {
                    assert(out2[out.len() as int] == s->0);
                }
            }
        }
    }
}

/// The written lines are what a second rewrite recognises and keeps: the switch line is an
/// active `dual_carrier_enabled` assignment, the carrier line an active
/// `secondary_carrier` one, neither a header nor the other key, each a clean line.
pub open spec fn dual_lines_ok(e: Seq<char>, s: Option<Seq<char>>) -> bool {
    &&& !is_header(trim_start(e)) && active_value(trim_start(e), "dual_carrier_enabled"@) is Some
    &&& !starts_with(trim_start(e), "secondary_carrier"@)
    &&& clean_line(e) && e.len() > 0
    &&& s matches Some(l) ==> (!is_header(trim_start(l)) && active_value(trim_start(l), "secondary_carrier"@)
        is Some && active_value(trim_start(l), "dual_carrier_enabled"@) is None && clean_line(l) && l.len() > 0)
}

/// The switch and carrier lines this module writes are recognised as such.
proof fn lemma_dual_lines_ok(enabled: bool, secondary: Option<u16>)
    ensures
        dual_lines_ok(enabled_line(enabled), match secondary {
            Some(c) => Some(secondary_line(c)),
            None => None,
        }),
{
    reveal_strlit("dual_carrier_enabled = ");
    reveal_strlit("dual_carrier_enabled");
    reveal_strlit("secondary_carrier = ");
    reveal_strlit("secondary_carrier");
    reveal_strlit("true");
    reveal_strlit("false");
    let e = enabled_line(enabled);
    let bt = bool_text(enabled);
    assert(trim_start(e) == e);
    assert(e.take(20) =~= "dual_carrier_enabled"@);
    assert(e.skip(20).drop_first() =~= seq!['=', ' '] + bt);
    assert(trim_start(e.skip(20)) == seq!['=', ' '] + bt) by {
        reveal_with_fuel(trim_start, 2);
    }
    assert((seq!['=', ' '] + bt).take(1) =~= seq!['=']);
    assert(!has_char(e, '\n')) by {
        assert forall|i: int| 0 <= i < e.len() implies e[i] != '\n' by {
            if i >= 23 {
                assert(e[i] == bt[i - 23]);
            }
        }
    }
    assert(e.last() != '\r');
    if let Some(c) = secondary {
        let l = secondary_line(c);
        let d = dec(c as nat);
        crate::update_check::lemma_dec_digits(c as nat);
        assert(trim_start(l) == l);
        assert(l.take(17) =~= "secondary_carrier"@);
        assert(l.skip(17).drop_first() =~= seq!['=', ' '] + d);
        assert(trim_start(l.skip(17)) == seq!['=', ' '] + d) by {
            reveal_with_fuel(trim_start, 2);
        }
        assert((seq!['=', ' '] + d).take(1) =~= seq!['=']);
        assert(!starts_with(l, "dual_carrier_enabled"@)) by {
            assert(l.take(20)[0] != "dual_carrier_enabled"@[0]);
        }
        assert(!has_char(l, '\n')) by {
            assert forall|i: int| 0 <= i < l.len() implies l[i] != '\n' by {
                if i >= 20 {
                    assert(l[i] == d[i - 20]);
                    assert(crate::text::is_digit(d[i - 20]));
                }
            }
        }
        assert(crate::text::is_digit(d[d.len() - 1]));
        assert(l.last() == d.last());
        assert(!starts_with(l, seq!['#'])) by {
            assert(l.take(1)[0] == 's');
            assert(seq!['#'][0] == '#');
        }
        assert(starts_with(l, "secondary_carrier"@));
        assert(active_value(trim_start(l), "secondary_carrier"@) is Some);
    }
    assert(!starts_with(e, "secondary_carrier"@)) by {
        assert(e.take(17)[0] != "secondary_carrier"@[0]);
    }
    assert(!is_header(trim_start(e)));
    assert(active_value(trim_start(e), "dual_carrier_enabled"@) is Some);
    assert(clean_line(e));
}

/// Scanning one more line is one more step.
proof fn lemma_dual_scan_push(o: Seq<Seq<char>>, y: Seq<char>, e: Seq<char>, s: Option<Seq<char>>)
    ensures
        dual_scan(o.push(y), e, s) == dual_step(dual_scan(o, e, s), y, e, s),
{
    assert(o.push(y).drop_last() =~= o);
}

/// The scan's flags: without a carrier nothing is owed for it, the open section was seen,
/// and before any `[cell_info]` nothing has been written.
proof fn lemma_dual_flags(ls: Seq<Seq<char>>, e: Seq<char>, s: Option<Seq<char>>)
    ensures
        ({
            let (out, in_cell, seen, we, ws) = dual_scan(ls, e, s);
            &&& s is None ==> ws
            &&& in_cell ==> seen
            &&& !seen ==> !we && ws == (s is None)
        }),
    decreases ls.len(),
{
    if ls.len() > 0 {
        lemma_dual_flags(ls.drop_last(), e, s);
    }
}

/// Scanning the rewritten lines again ends in the same state: every line the rewrite wrote
/// is recognised and written the same way.
proof fn lemma_dual_rescan(ls: Seq<Seq<char>>, e: Seq<char>, s: Option<Seq<char>>)
    requires
        dual_lines_ok(e, s),
    ensures
        dual_scan(dual_scan(ls, e, s).0, e, s) == dual_scan(ls, e, s),
    decreases ls.len(),
{
    if ls.len() > 0 {
        let ls1 = ls.drop_last();
        let x = ls.last();
        lemma_dual_rescan(ls1, e, s);
        lemma_dual_flags(ls1, e, s);
        let st = dual_scan(ls1, e, s);
        let (out, in_cell, seen, we, ws) = st;
        let t = trim_start(x);
        if is_header(t) {
            let oa = if !we { out.push(e) } else { out };
            let o1 = if in_cell { dual_flush(out, we, ws, e, s) } else { out };
            if in_cell {
                if !we {
                    lemma_dual_scan_push(out, e, e, s);
                }
                assert(dual_scan(oa, e, s) == (oa, in_cell, seen, true, ws));
                if !ws && s is Some {
                    lemma_dual_scan_push(oa, s->0, e, s);
                }
                assert(dual_scan(o1, e, s) == (o1, in_cell, seen, true, true));
            }
            assert(dual_scan(o1, e, s) == (o1, in_cell, seen, we || in_cell, ws || in_cell));
            lemma_dual_scan_push(o1, x, e, s);
        } else if in_cell && !we && active_value(t, "dual_carrier_enabled"@) is Some {
            lemma_dual_scan_push(out, e, e, s);
        } else if in_cell && !ws && active_value(t, "secondary_carrier"@) is Some {
            lemma_dual_scan_push(out, s->0, e, s);
        } else {
            lemma_dual_scan_push(out, x, e, s);
        }
    }
}

/// The rewritten lines are clean when the input lines are, and the last one is the last
/// input line, the switch line or the carrier line.
proof fn lemma_dual_out_lines(ls: Seq<Seq<char>>, e: Seq<char>, s: Option<Seq<char>>)
    requires
        dual_lines_ok(e, s),
        forall|i: int| 0 <= i < ls.len() ==> clean_line(#[trigger] ls[i]),
    ensures
        ({
            let out = dual_scan(ls, e, s).0;
            &&& forall|j: int| 0 <= j < out.len() ==> clean_line(#[trigger] out[j])
            &&& ls.len() > 0 ==> out.len() > 0 && (out.last() == ls.last() || out.last() == e || s == Some(out.last()))
        }),
    decreases ls.len(),
{
    if ls.len() > 0 {
        let ls1 = ls.drop_last();
        let x = ls.last();
        assert(clean_line(ls[ls.len() - 1]));
        assert forall|i: int| 0 <= i < ls1.len() implies clean_line(#[trigger] ls1[i]) by {
            assert(ls1[i] == ls[i]);
        }
        lemma_dual_out_lines(ls1, e, s);
        lemma_dual_flags(ls1, e, s);
        let (out, in_cell, seen, we, ws) = dual_scan(ls1, e, s);
        let out2 = dual_scan(ls, e, s).0;
        assert(out2.len() > 0 && (out2.last() == x || out2.last() == e || s == Some(out2.last())));
        let t = trim_start(x);
        if is_header(t) && in_cell {
            let oa = if !we { out.push(e) } else { out };
            assert forall|j: int| 0 <= j < oa.len() implies clean_line(#[trigger] oa[j]) by {
                if j < out.len() {
                    assert(oa[j] == out[j]);
                }
            }
            let o1 = dual_flush(out, we, ws, e, s);
            assert forall|j: int| 0 <= j < o1.len() implies clean_line(#[trigger] o1[j]) by {
                if j < oa.len() {
                    assert(o1[j] == oa[j]);
                }
            }
            assert forall|j: int| 0 <= j < out2.len() implies clean_line(#[trigger] out2[j]) by {
                if j < o1.len() {
                    assert(out2[j] == o1[j]);
                }
            }
        } else {
            assert forall|j: int| 0 <= j < out2.len() implies clean_line(#[trigger] out2[j]) by {
                if j < out.len() {
                    assert(out2[j] == out[j]);
                }
            }
        }
    }
}

/// Flushing the owed keys of an open `[cell_info]` section and scanning them again leaves
/// nothing owed.
proof fn lemma_dual_flush_rescan(out: Seq<Seq<char>>, seen: bool, we: bool, ws: bool, e: Seq<char>, s: Option<Seq<char>>)
    requires
        dual_lines_ok(e, s),
        dual_scan(out, e, s) == (out, true, seen, we, ws),
        s is None ==> ws,
    ensures
        dual_scan(dual_flush(out, we, ws, e, s), e, s) == (dual_flush(out, we, ws, e, s), true, seen, true, true),
{
    let oa = if !we { out.push(e) } else { out };
    if !we {
        lemma_dual_scan_push(out, e, e, s);
    }
    assert(dual_scan(oa, e, s) == (oa, true, seen, true, ws));
    if !ws && s is Some {
        lemma_dual_scan_push(oa, s->0, e, s);
    }
}

/// `[cell_info]` is a clean header line that opens that section.
proof fn lemma_cell_header()
    ensures
        trim_start("[cell_info]"@) == "[cell_info]"@,
        is_header("[cell_info]"@),
        starts_with("[cell_info]"@, "[cell_info]"@),
        clean_line("[cell_info]"@),
{
    let h = "[cell_info]"@;
    reveal_strlit("[cell_info]");
    assert(h.len() == 11);
    assert(!crate::text::is_ws(h[0]));
    assert(h.take(1) =~= seq!['[']);
    assert(h[10] == ']');
    assert(has_char(h, ']'));
    assert(h.take(11) =~= h);
    assert forall|i: int| 0 <= i < h.len() implies h[i] != '\n' by {}
    assert(h.last() != '\r');
}

/// Rewriting rewritten lines again gives them back.
proof fn lemma_rewrite_lines_fixed(ls: Seq<Seq<char>>, e: Seq<char>, s: Option<Seq<char>>)
    requires
        dual_lines_ok(e, s),
    ensures
        dual_rewrite_lines(dual_rewrite_lines(ls, e, s), e, s) == dual_rewrite_lines(ls, e, s),
{
    lemma_dual_flags(ls, e, s);
    lemma_dual_rescan(ls, e, s);
    lemma_cell_header();
    let (out, in_cell, seen, we, ws) = dual_scan(ls, e, s);
    let out3 = dual_rewrite_lines(ls, e, s);
    let h = "[cell_info]"@;
    let empty = Seq::<char>::empty();
    assert(trim_start(empty) == empty && !is_header(empty));
    if seen {
        if in_cell {
            lemma_dual_flush_rescan(out, seen, we, ws, e, s);
        }
    } else {
        let base = if out.len() > 0 && out.last().len() > 0 { out.push(empty) } else { out };
        if out.len() > 0 && out.last().len() > 0 {
            lemma_dual_scan_push(out, empty, e, s);
        }
        assert(dual_scan(base, e, s) == (base, false, false, false, ws));
        lemma_dual_scan_push(base, h, e, s);
        lemma_dual_scan_push(base.push(h), e, e, s);
        if let Some(l) = s {
            lemma_dual_scan_push(base.push(h).push(e), l, e, s);
            assert(out3 =~= base.push(h).push(e).push(l));
        } else {
            assert(out3 =~= base.push(h).push(e));
        }
        assert(dual_scan(out3, e, s) == (out3, true, true, true, true));
    }
}

/// Rewritten clean lines are clean, there is at least one, and the last is not empty when
/// the last input line was not.
proof fn lemma_rewrite_lines_clean(ls: Seq<Seq<char>>, e: Seq<char>, s: Option<Seq<char>>)
    requires
        dual_lines_ok(e, s),
        forall|i: int| 0 <= i < ls.len() ==> clean_line(#[trigger] ls[i]),
    ensures
        ({
            let out3 = dual_rewrite_lines(ls, e, s);
            &&& forall|j: int| 0 <= j < out3.len() ==> clean_line(#[trigger] out3[j])
            &&& out3.len() > 0
            &&& (ls.len() == 0 || ls.last().len() > 0) ==> out3.last().len() > 0
        }),
{
    lemma_dual_flags(ls, e, s);
    lemma_dual_out_lines(ls, e, s);
    lemma_cell_header();
    let (out, in_cell, seen, we, ws) = dual_scan(ls, e, s);
    let out3 = dual_rewrite_lines(ls, e, s);
    let empty = Seq::<char>::empty();
    assert(clean_line(empty));
    let oa = if !we { out.push(e) } else { out };
    let out2 = if in_cell { dual_flush(out, we, ws, e, s) } else { out };
    assert forall|j: int| 0 <= j < out2.len() implies clean_line(#[trigger] out2[j]) by {
        if in_cell && j < oa.len() {
            if j < out.len() {
                assert(oa[j] == out[j]);
            }
            assert(out2[j] == oa[j]);
        }
    }
    if !seen {
        let sec = dual_new_section(e, s);
        let base = if out2.len() > 0 && out2.last().len() > 0 { out2.push(empty) } else { out2 };
        assert(out3 =~= base + sec);
        assert forall|j: int| 0 <= j < out3.len() implies clean_line(#[trigger] out3[j]) by {
            if j < base.len() {
                if j < out2.len() {
                    assert(base[j] == out2[j]);
                }
                assert(out3[j] == base[j]);
            } else {
                assert(out3[j] == sec[j - base.len()]);
            }
        }
        assert(out3.last() == sec.last());
    } else {
        assert(ls.len() > 0);
    }
}

/// Joined clean lines end with `'\n'` exactly when one was added after them.
proof fn lemma_join_ends_with_newline(ls: Seq<Seq<char>>, nl: bool)
    requires
        ls.len() > 0,
        forall|i: int| 0 <= i < ls.len() ==> clean_line(#[trigger] ls[i]),
        !nl ==> ls.last().len() > 0,
    ensures
        ends_with(if nl { join_lines(ls).push('\n') } else { join_lines(ls) }, seq!['\n']) == nl,
{
    let j = join_lines(ls);
    if nl {
        assert(j.push('\n').skip(j.push('\n').len() - 1) =~= seq!['\n']);
    } else {
        let last = ls.last();
        assert(clean_line(ls[ls.len() - 1]));
        if ls.len() > 1 {
            assert(j == join_lines(ls.drop_last()) + seq!['\n'] + last);
        }
        assert(j.last() == last.last());
        assert(last[last.len() - 1] != '\n');
        assert(j.skip(j.len() - 1) =~= seq![j.last()]);
        assert(seq![j.last()][0] != seq!['\n'][0]);
    }
}

/// The lines that set `key` (the line, leading whitespace aside, starts with it), in order.
pub open spec fn key_lines(ls: Seq<Seq<char>>, key: Seq<char>) -> Seq<Seq<char>> {
    ls.filter(sets_key(key))
}

/// The line, leading whitespace aside, starts with `key`.
pub open spec fn sets_key(key: Seq<char>) -> spec_fn(Seq<char>) -> bool {
    |l: Seq<char>| starts_with(trim_start(l), key)
}

/// Keeping the lines of `key` after one more line.
proof fn lemma_key_lines_push(o: Seq<Seq<char>>, y: Seq<char>, key: Seq<char>)
    ensures
        key_lines(o.push(y), key) == if starts_with(trim_start(y), key) {
            key_lines(o, key).push(y)
        } else {
            key_lines(o, key)
        },
{
    let f = sets_key(key);
    reveal(Seq::filter);
    assert(o.push(y).drop_last() =~= o);
    assert(o.push(y).last() == y);
    assert(f(y) == starts_with(trim_start(y), key));
    assert(o.push(y).filter(f) == if f(y) { o.filter(f).push(y) } else { o.filter(f) });
}

/// A line that assigns `dual_carrier_enabled` does not start with `secondary_carrier`.
proof fn lemma_dual_key_not_carrier(t: Seq<char>)
    requires
        starts_with(t, "dual_carrier_enabled"@),
    ensures
        !starts_with(t, "secondary_carrier"@),
{
    reveal_strlit("dual_carrier_enabled");
    reveal_strlit("secondary_carrier");
    assert(t.take(20)[0] == t[0]);
    if starts_with(t, "secondary_carrier"@) {
        assert(t.take(17)[0] == t[0]);
    }
}

/// Without a carrier to write, the scan keeps the `secondary_carrier` lines as they were.
proof fn lemma_dual_scan_keeps_carrier_lines(ls: Seq<Seq<char>>, e: Seq<char>)
    requires
        dual_lines_ok(e, None),
    ensures
        key_lines(dual_scan(ls, e, None).0, "secondary_carrier"@) == key_lines(ls, "secondary_carrier"@),
    decreases ls.len(),
{
    let sk = "secondary_carrier"@;
    if ls.len() > 0 {
        let ls1 = ls.drop_last();
        let x = ls.last();
        lemma_dual_scan_keeps_carrier_lines(ls1, e);
        lemma_dual_flags(ls1, e, None);
        lemma_key_lines_push(ls1, x, sk);
        assert(ls1.push(x) =~= ls);
        let (out, in_cell, seen, we, ws) = dual_scan(ls1, e, None);
        let t = trim_start(x);
        if is_header(t) {
            let o1 = if in_cell { dual_flush(out, we, ws, e, None) } else { out };
            if in_cell && !we {
                lemma_key_lines_push(out, e, sk);
            }
            assert(key_lines(o1, sk) == key_lines(out, sk));
            lemma_key_lines_push(o1, x, sk);
        } else if in_cell && !we && active_value(t, "dual_carrier_enabled"@) is Some {
            lemma_dual_key_not_carrier(t);
            lemma_key_lines_push(out, e, sk);
        } else {
            lemma_key_lines_push(out, x, sk);
        }
    }
}

/// Without a carrier to write, the rewrite keeps the `secondary_carrier` lines as they were.
proof fn lemma_rewrite_keeps_carrier_lines(ls: Seq<Seq<char>>, e: Seq<char>)
    requires
        dual_lines_ok(e, None),
    ensures
        key_lines(dual_rewrite_lines(ls, e, None), "secondary_carrier"@) == key_lines(ls, "secondary_carrier"@),
{
    let sk = "secondary_carrier"@;
    lemma_dual_scan_keeps_carrier_lines(ls, e);
    lemma_dual_flags(ls, e, None);
    lemma_cell_header();
    reveal_strlit("secondary_carrier");
    reveal_strlit("[cell_info]");
    let (out, in_cell, seen, we, ws) = dual_scan(ls, e, None);
    let out2 = if in_cell { dual_flush(out, we, ws, e, None) } else { out };
    if in_cell && !we {
        lemma_key_lines_push(out, e, sk);
    }
    assert(key_lines(out2, sk) == key_lines(out, sk));
    if !seen {
        let h = "[cell_info]"@;
        let empty = Seq::<char>::empty();
        assert(!starts_with(trim_start(empty), sk));
        assert(!starts_with(h, sk)) by {
            assert(h.len() < sk.len());
        }
        let base = if out2.len() > 0 && out2.last().len() > 0 { out2.push(empty) } else { out2 };
        if out2.len() > 0 && out2.last().len() > 0 {
            lemma_key_lines_push(out2, empty, sk);
        }
        lemma_key_lines_push(base, h, sk);
        lemma_key_lines_push(base.push(h), e, sk);
        assert(dual_rewrite_lines(ls, e, None) =~= base.push(h).push(e));
    }
}

/// Law: rewriting a second time with the same switch and carrier changes nothing, so no
/// key is ever written twice; without a carrier to write, the `secondary_carrier` lines are
/// kept exactly as they were. Both hold of every file none of whose lines ends in a
/// carriage return (a line ending in two is cut differently once rewritten).
pub proof fn lemma_compute_toml_idempotent(original: Seq<char>, enabled: bool, secondary: Option<u16>)
    requires
        forall|i: int| 0 <= i < lines(original).len() ==> strip_cr(#[trigger] lines(original)[i]) == lines(original)[i],
    ensures
        spec_compute_toml(spec_compute_toml(original, enabled, secondary), enabled, secondary) == spec_compute_toml(
            original,
            enabled,
            secondary,
        ),
        secondary is None ==> key_lines(lines(spec_compute_toml(original, enabled, secondary)), "secondary_carrier"@)
            == key_lines(lines(original), "secondary_carrier"@),
{
    let e = enabled_line(enabled);
    let s = match secondary {
        Some(c) => Some(secondary_line(c)),
        None => None,
    };
    lemma_dual_lines_ok(enabled, secondary);
    let ls = lines(original);
    lemma_split_no_newline(original);
    lemma_split_tail_empty(original);
    assert forall|i: int| 0 <= i < ls.len() implies clean_line(#[trigger] ls[i]) by {
        let (done, cur) = split_state(original);
        if i < done.len() {
            assert(ls[i] == done[i]);
        }
    }
    let nl = ends_with(original, seq!['\n']);
    assert(nl == (original.len() > 0 && original.last() == '\n')) by {
        if original.len() > 0 {
            assert(original.skip(original.len() - 1) =~= seq![original.last()]);
            assert(seq![original.last()][0] == original.last());
            assert(seq!['\n'][0] == '\n');
        }
    }
    assert(!nl ==> ls.len() == 0 || ls.last().len() > 0);
    lemma_rewrite_lines_clean(ls, e, s);
    lemma_rewrite_lines_fixed(ls, e, s);
    let out3 = dual_rewrite_lines(ls, e, s);
    lemma_lines_of_join(out3, nl);
    lemma_join_ends_with_newline(out3, nl);
    if secondary is None {
        lemma_rewrite_keeps_carrier_lines(ls, e);
    }
}

// ---------------------------------------------------------------------------
// Reading the switch back
// ---------------------------------------------------------------------------

/// Parse state: inside `[cell_info]`, switch value, carrier value.
pub type DualRead = (bool, bool, Option<u16>);

/// One line of the read-back scan: the last active value of each key wins.
pub open spec fn read_step(st: DualRead, raw: Seq<char>) -> DualRead {
    let (in_cell, enabled, sec) = st;
    let t = trim_start(raw);
    if is_header(t) {
        (starts_with(t, "[cell_info]"@), enabled, sec)
    } else if !in_cell || starts_with(t, seq!['#']) {
        st
    } else if active_value(t, "secondary_carrier"@) is Some {
        let v = active_value(t, "secondary_carrier"@)->0;
        (in_cell, enabled, match parse_uint(trim(before_char(v, '#')), 65535) {
            Some(n) => Some(n as u16),
            None => None,
        })
    } else if active_value(t, "dual_carrier_enabled"@) is Some {
        let v = active_value(t, "dual_carrier_enabled"@)->0;
        (in_cell, trim(before_char(v, '#')) == "true"@, sec)
    } else {
        st
    }
}

/// The part of `x + rest` before the first `c`, when `x` holds no `c`: `x` followed by the
/// part of `rest` before its first `c`.
proof fn lemma_before_char_prefix(x: Seq<char>, c: char, rest: Seq<char>)
    requires
        !has_char(x, c),
    ensures
        before_char(x + rest, c) == x + before_char(rest, c),
    decreases x.len(),
{
    if x.len() == 0 {
        assert(x + rest =~= rest);
        assert(x + before_char(rest, c) =~= before_char(rest, c));
    } else {
        assert((x + rest)[0] == x[0]);
        assert((x + rest).drop_first() =~= x.drop_first() + rest);
        assert(!has_char(x.drop_first(), c)) by {
            assert forall|i: int| 0 <= i < x.drop_first().len() implies x.drop_first()[i] != c by {
                assert(x.drop_first()[i] == x[i + 1]);
            }
        }
        lemma_before_char_prefix(x.drop_first(), c, rest);
        assert(seq![x[0]] + (x.drop_first() + before_char(rest, c)) =~= x + before_char(rest, c));
    }
}

/// The `dual_carrier_enabled` line of `[cell_info]` with value text `w`: read as on
/// exactly when `w` cut at its first `#` and trimmed is `true`.
proof fn lemma_read_enabled_line(st: DualRead, w: Seq<char>)
    requires
        st.0,
    ensures
        read_step(st, "dual_carrier_enabled = "@ + w) == (true, trim(before_char(trim(w), '#')) == "true"@, st.2),
{
    reveal_strlit("dual_carrier_enabled = ");
    reveal_strlit("dual_carrier_enabled");
    reveal_strlit("secondary_carrier");
    let l = "dual_carrier_enabled = "@ + w;
    assert(l[0] == 'd');
    assert(trim_start(l) == l);
    assert(!is_header(l)) by {
        assert(l.take(1)[0] == 'd');
    }
    assert(!starts_with(l, seq!['#'])) by {
        assert(l.take(1)[0] == 'd');
    }
    assert(!starts_with(l, "secondary_carrier"@)) by {
        assert(l.take(17)[0] == 'd');
    }
    assert(l.take(20) =~= "dual_carrier_enabled"@);
    assert(l.skip(20) =~= seq![' ', '=', ' '] + w);
    assert(l.skip(20).drop_first() =~= seq!['=', ' '] + w);
    assert(trim_start(l.skip(20)) == seq!['=', ' '] + w) by {
        reveal_with_fuel(trim_start, 2);
    }
    assert((seq!['=', ' '] + w).take(1) =~= seq!['=']);
    assert((seq!['=', ' '] + w).drop_first() =~= seq![' '] + w);
    assert((seq![' '] + w).drop_first() =~= w);
    assert(trim_start(seq![' '] + w) == trim_start(w));
    assert(active_value(l, "dual_carrier_enabled"@) == Some(trim(seq![' '] + w)));
    assert(trim(seq![' '] + w) == trim(w));
}

/// Law: `[cell_info]`'s switch line `dual_carrier_enabled = <v>` turns dual carrier on
/// exactly when `<v>` trimmed is `true`, and a trailing `# comment` after the value never
/// changes what is read (the carrier read so far is kept either way).
pub proof fn lemma_read_enabled_ignores_comment(st: DualRead, v: Seq<char>, comment: Seq<char>)
    requires
        st.0,
        !has_char(v, '#'),
    ensures
        read_step(st, "dual_carrier_enabled = "@ + v) == (true, trim(v) == "true"@, st.2),
        read_step(st, "dual_carrier_enabled = "@ + v + seq!['#'] + comment) == (true, trim(v) == "true"@, st.2),
{
    let h = seq!['#'];
    assert(!crate::text::is_ws('#'));
    // Without a comment.
    lemma_read_enabled_line(st, v);
    crate::text::lemma_trim_chars(v, '#');
    lemma_before_char_prefix(trim(v), '#', Seq::empty());
    assert(trim(v) + Seq::<char>::empty() =~= trim(v));
    assert(before_char(Seq::<char>::empty(), '#') =~= Seq::<char>::empty());
    crate::text::lemma_trim_idempotent(v);
    // With one.
    let w = v + h + comment;
    assert("dual_carrier_enabled = "@ + v + h + comment =~= "dual_carrier_enabled = "@ + w);
    lemma_read_enabled_line(st, w);
    crate::text::lemma_trim_start_before(v, '#', comment);
    let x = trim_start(v);
    crate::text::lemma_trim_start_suffix(v);
    assert(!has_char(x, '#')) by {
        assert forall|i: int| 0 <= i < x.len() implies x[i] != '#' by {
            assert(x[i] == v[v.len() - x.len() + i]);
        }
    }
    crate::text::lemma_trim_end_after(x, '#', comment);
    let tw = x + h + crate::text::trim_end(comment);
    assert(trim(w) == tw);
    assert(tw =~= x + (h + crate::text::trim_end(comment)));
    lemma_before_char_prefix(x, '#', h + crate::text::trim_end(comment));
    assert((h + crate::text::trim_end(comment))[0] == '#');
    assert(before_char(h + crate::text::trim_end(comment), '#') =~= Seq::<char>::empty());
    assert(before_char(trim(w), '#') =~= x);
}

/// The scan over all lines.
pub open spec fn read_scan(ls: Seq<Seq<char>>) -> DualRead
    decreases ls.len(),
{
    if ls.len() == 0 {
        (false, true, None)
    } else {
        read_step(read_scan(ls.drop_last()), ls.last())
    }
}

/// The dual-carrier state that a `config.toml` text describes.
pub open spec fn spec_parse_dual_carrier(config: Seq<char>) -> DualCarrierState {
    let (_, enabled, sec) = read_scan(lines(config));
    DualCarrierState { enabled, secondary_carrier: sec }
}

/// Read the dual-carrier switch + configured secondary carrier from TOML text.
pub fn parse_dual_carrier(config: &str) -> (r: DualCarrierState)
    ensures
        r == spec_parse_dual_carrier(config@),
{
    let ls = split_lines(chars_of(config).as_slice());
    let cell = chars_of("[cell_info]");
    let k_en = chars_of("dual_carrier_enabled");
    let k_sec = chars_of("secondary_carrier");
    let tru = chars_of("true");
    let hash = vec!['#'];
    assert(hash@ =~= seq!['#']);
    let mut in_cell = false;
    let mut enabled = true;
    let mut sec: Option<u16> = None;
    let mut i: usize = 0;
    while i < ls.len()
        invariant
            i <= ls.len(),
            views(ls@) == lines(config@),
            cell@ == "[cell_info]"@,
            k_en@ == "dual_carrier_enabled"@,
            k_sec@ == "secondary_carrier"@,
            tru@ == "true"@,
            hash@ == seq!['#'],
            (in_cell, enabled, sec) == read_scan(views(ls@).take(i as int)),
        decreases ls.len() - i,
    {
        assert(views(ls@).take(i + 1).drop_last() =~= views(ls@).take(i as int));
        assert(views(ls@).take(i + 1).last() == ls@[i as int]@);
        let t = trim_start_exec(ls[i].as_slice());
        if is_header_exec(t.as_slice()) {
            in_cell = starts_with_exec(t.as_slice(), cell.as_slice());
        } else if !in_cell || starts_with_exec(t.as_slice(), hash.as_slice()) {
        } else if let Some(v) = active_value_exec(t.as_slice(), k_sec.as_slice()) {
            let tok = trim_exec(before_char_exec(v.as_slice(), '#').as_slice());
            sec = match parse_uint_exec(tok.as_slice(), 65535) {
                Some(n) => Some(n as u16),
                None => None,
            };
        } else if let Some(v) = active_value_exec(t.as_slice(), k_en.as_slice()) {
            let tok = trim_exec(before_char_exec(v.as_slice(), '#').as_slice());
            enabled = chars_eq(tok.as_slice(), tru.as_slice());
        }
        i += 1;
    }
    assert(views(ls@).take(ls.len() as int) =~= views(ls@));
    DualCarrierState { enabled, secondary_carrier: sec }
}

// ---------------------------------------------------------------------------
// The configured sample rate
// ---------------------------------------------------------------------------

/// Scan state: inside `[phy_io.soapysdr]`, and the `sample_rate` value found so far.
pub type RateRead = (bool, Option<Seq<char>>);

/// One line of the sample-rate scan: the first active `sample_rate` of the section wins.
pub open spec fn rate_step(st: RateRead, raw: Seq<char>) -> RateRead {
    let (in_soapy, found) = st;
    let t = trim_start(raw);
    if found is Some {
        st
    } else if is_header(t) {
        (starts_with(t, "[phy_io.soapysdr]"@), None)
    } else if !in_soapy || starts_with(t, seq!['#']) {
        st
    } else {
        match active_value(t, "sample_rate"@) {
            Some(v) => (in_soapy, Some(trim(before_char(v, '#')))),
            None => st,
        }
    }
}

/// The scan over all lines.
pub open spec fn rate_scan(ls: Seq<Seq<char>>) -> RateRead
    decreases ls.len(),
{
    if ls.len() == 0 {
        (false, None)
    } else {
        rate_step(rate_scan(ls.drop_last()), ls.last())
    }
}

/// The text of the first active `sample_rate` value in `[phy_io.soapysdr]` (its inline
/// comment and surrounding whitespace cut), if there is one.
pub open spec fn spec_sample_rate_token(config: Seq<char>) -> Option<Seq<char>> {
    rate_scan(lines(config)).1
}

/// The configured `sample_rate` text of `[phy_io.soapysdr]` (see
/// [`spec_sample_rate_token`]); the caller reads it as a number.
pub fn sample_rate_token(config: &str) -> (r: Option<String>)
    ensures
        opt_view(r) == spec_sample_rate_token(config@),
{
    let ls = split_lines(chars_of(config).as_slice());
    let soapy = chars_of("[phy_io.soapysdr]");
    let key = chars_of("sample_rate");
    let hash = vec!['#'];
    assert(hash@ =~= seq!['#']);
    let mut in_soapy = false;
    let mut found: Option<Vec<char>> = None;
    let mut i: usize = 0;
    while i < ls.len()
        invariant
            i <= ls.len(),
            views(ls@) == lines(config@),
            soapy@ == "[phy_io.soapysdr]"@,
            key@ == "sample_rate"@,
            hash@ == seq!['#'],
            (in_soapy, opt_vec_view(found)) == rate_scan(views(ls@).take(i as int)),
        decreases ls.len() - i,
    {
        assert(views(ls@).take(i + 1).drop_last() =~= views(ls@).take(i as int));
        assert(views(ls@).take(i + 1).last() == ls@[i as int]@);
        let t = trim_start_exec(ls[i].as_slice());
        if found.is_some() {
        } else if is_header_exec(t.as_slice()) {
            in_soapy = starts_with_exec(t.as_slice(), soapy.as_slice());
        } else if !in_soapy || starts_with_exec(t.as_slice(), hash.as_slice()) {
        } else {
            match active_value_exec(t.as_slice(), key.as_slice()) {
                Some(v) => {
                    found = Some(trim_exec(before_char_exec(v.as_slice(), '#').as_slice()));
                },
                None => {},
            }
        }
        i += 1;
    }
    assert(views(ls@).take(ls.len() as int) =~= views(ls@));
    match found {
        Some(v) => Some(string_of(v.as_slice())),
        None => None,
    }
}

/// The text of an optional character vector.
pub open spec fn opt_vec_view(s: Option<Vec<char>>) -> Option<Seq<char>> {
    match s {
        Some(v) => Some(v@),
        None => None,
    }
}

// ---------------------------------------------------------------------------
// Passband clamp
// ---------------------------------------------------------------------------

/// The carrier that `clamp_secondary_carrier_within` picks.
pub open spec fn spec_clamp_secondary(main: int, want: int, max_d: int) -> int {
    let lo = if main - max_d > 0 { main - max_d } else { 0 };
    let hi = if main + max_d < 3999 { main + max_d } else { 3999 };
    if lo >= hi {
        if main < 3999 { main + 1 } else { main - 1 }
    } else {
        let s = if want == main {
            if main + 1 <= hi { main + 1 } else { main - 1 }
        } else {
            want
        };
        if s < lo { lo } else if s > hi { hi } else { s }
    }
}

/// Clamp a requested secondary carrier into `[main - max_d, main + max_d] ∩ [0, 3999]`.
/// Prefers `main + 1` when the request equals main, and never returns `main` except when
/// `main` is the top carrier 3999 and the request lies above it.
pub fn clamp_secondary_carrier_within(main: u16, want: u16, max_d: u16) -> (r: u16)
    ensures
        r as int == spec_clamp_secondary(main as int, want as int, max_d as int),
        !(main == 3999 && want > 3999) ==> r != main,
{
    let m: i32 = main as i32;
    let d: i32 = max_d as i32;
    let lo: i32 = if m - d > 0 { m - d } else { 0 };
    let hi: i32 = if m + d < 3999 { m + d } else { 3999 };
    if lo >= hi {
        return if m < 3999 { (m + 1) as u16 } else { (m - 1) as u16 };
    }
    let mut s: i32 = want as i32;
    if s == m {
        s = if m + 1 <= hi { m + 1 } else { m - 1 };
    }
    let r = if s < lo { lo } else if s > hi { hi } else { s };
    r as u16
}

} // verus!
