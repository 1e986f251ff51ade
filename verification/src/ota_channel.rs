//! `[dashboard].ota_channel` (`stable` | `beta`) in `config.toml`.
//!
//! Line-oriented edit that preserves comments and unrelated keys. Default when absent is
//! `stable`.
use vstd::prelude::*;
use crate::core_info::{
    normalize_ota_channel, ota_branch_for_channel, spec_normalize_ota_channel,
    spec_ota_branch_for_channel,
};
use crate::text::{
    chars_eq, chars_of, concat, contains, copy_chars, has_line, lines, occurs_at, split_lines,
    starts_with, starts_with_exec, string_of, trim, trim_exec, trim_start, trim_start_exec, views,
};
use crate::toml_lines::{
    active_value, active_value_exec, append_section, append_section_exec, finish_body,
    finish_body_exec, indent_exec, indent_of, is_header, is_header_exec, lemma_contains_trans,
    lemma_finish_contains,
};

verus! {

/// The line written for a channel: `ota_channel = "<channel>"`.
pub open spec fn ota_line(channel: Seq<char>) -> Seq<char> {
    "ota_channel = \""@ + channel + "\""@
}

/// Scan state: output lines, inside `[dashboard]`, channel line written, section seen.
pub type OtaScan = (Seq<Seq<char>>, bool, bool, bool);

/// One input line of the rewrite.
pub open spec fn ota_step(st: OtaScan, raw: Seq<char>, line: Seq<char>) -> OtaScan {
    let (out, in_dash, wrote, saw) = st;
    let t = trim_start(raw);
    if is_header(t) {
        let out1 = if in_dash && !wrote { out.push(line) } else { out };
        let wrote1 = wrote || in_dash;
        let in1 = starts_with(t, "[dashboard]"@);
        (out1.push(raw), in1, wrote1, saw || in1)
    } else if in_dash && active_value(t, "ota_channel"@) is Some {
        if !wrote {
            (out.push(indent_of(raw) + line), in_dash, true, saw)
        } else {
            st
        }
    } else {
        (out.push(raw), in_dash, wrote, saw)
    }
}

/// The scan over all lines.
pub open spec fn ota_scan(ls: Seq<Seq<char>>, line: Seq<char>) -> OtaScan
    decreases ls.len(),
{
    if ls.len() == 0 {
        (Seq::empty(), false, false, false)
    } else {
        ota_step(ota_scan(ls.drop_last(), line), ls.last(), line)
    }
}

/// The rewritten file for a (normalized) channel line.
pub open spec fn ota_rewrite(original: Seq<char>, line: Seq<char>) -> Seq<char> {
    let (out, in_dash, wrote, saw) = ota_scan(lines(original), line);
    let out2 = if in_dash && !wrote { out.push(line) } else { out };
    let out3 = if !saw { append_section(out2, seq!["[dashboard]"@, line]) } else { out2 };
    finish_body(original, out3, true)
}

/// `compute_toml(original, channel)`: every active `ota_channel` line of the first
/// `[dashboard]` stretch is replaced by (or, when there is none, the section receives)
/// the normalized channel line; a missing section is appended.
pub open spec fn spec_compute_toml(original: Seq<char>, channel: Seq<char>) -> Seq<char> {
    ota_rewrite(original, ota_line(spec_normalize_ota_channel(channel)))
}

/// A TOML scalar value with a trailing `# comment` removed and whitespace trimmed.
pub open spec fn value_token(v: Seq<char>) -> Seq<char> {
    trim(before_char(v, '#'))
}

/// The part of `s` before the first `c` (all of `s` when `c` does not occur).
pub open spec fn before_char(s: Seq<char>, c: char) -> Seq<char>
    decreases s.len(),
{
    if s.len() == 0 || s[0] == c {
        Seq::empty()
    } else {
        seq![s[0]] + before_char(s.drop_first(), c)
    }
}

/// `s` with every leading and trailing `c` removed (`str::trim_matches`).
pub open spec fn trim_matches(s: Seq<char>, c: char) -> Seq<char>
    decreases s.len(),
{
    if s.len() > 0 && s[0] == c {
        trim_matches(s.drop_first(), c)
    } else if s.len() > 0 && s.last() == c {
        trim_matches(s.drop_last(), c)
    } else {
        s
    }
}

/// The value of the first active `ota_channel` line inside a `[dashboard]` section.
pub open spec fn ota_find(ls: Seq<Seq<char>>, in_dash: bool) -> Option<Seq<char>>
    decreases ls.len(),
{
    if ls.len() == 0 {
        None
    } else {
        let t = trim_start(ls[0]);
        if is_header(t) {
            ota_find(ls.drop_first(), starts_with(t, "[dashboard]"@))
        } else if !in_dash || starts_with(t, seq!['#']) {
            ota_find(ls.drop_first(), in_dash)
        } else {
            match active_value(t, "ota_channel"@) {
                Some(v) => Some(v),
                None => ota_find(ls.drop_first(), in_dash),
            }
        }
    }
}

/// The configured channel: the normalized first `[dashboard].ota_channel` value, unquoted;
/// `"stable"` when there is none.
pub open spec fn spec_parse_ota_channel(config: Seq<char>) -> Seq<char> {
    match ota_find(lines(config), false) {
        Some(v) => spec_normalize_ota_channel(trim_matches(trim_matches(value_token(v), '"'), '\'')),
        None => "stable"@,
    }
}

/// JSON describing the channel, its branch and the selectable channels, each listed with
/// the branch it follows.
pub open spec fn spec_channel_json(channel: Seq<char>) -> Seq<char> {
    "{\"channel\":\""@ + channel + "\",\"branch\":\""@ + spec_ota_branch_for_channel(channel)
        + "\",\"channels\":[{\"id\":\"stable\",\"branch\":\""@ + spec_ota_branch_for_channel("stable"@)
        + "\",\"label\":\"Estable (Bost)\"},{\"id\":\"beta\",\"branch\":\""@ + spec_ota_branch_for_channel("beta"@)
        + "\",\"label\":\"Beta\"}]}"@
}

/// `before_char` for a slice.
pub fn before_char_exec(s: &[char], c: char) -> (r: Vec<char>)
    ensures
        r@ == before_char(s@, c),
{
    let mut r: Vec<char> = Vec::new();
    let mut i: usize = 0;
    assert(s@.skip(0) =~= s@);
    assert(Seq::<char>::empty() + before_char(s@, c) =~= before_char(s@, c));
    while i < s.len() && s[i] != c
        invariant
            i <= s.len(),
            before_char(s@, c) == r@ + before_char(s@.skip(i as int), c),
        decreases s.len() - i,
    {
        assert(s@.skip(i as int).drop_first() =~= s@.skip(i + 1));
        assert(r@ + (seq![s@[i as int]] + before_char(s@.skip(i + 1), c)) =~= r@.push(s@[i as int])
            + before_char(s@.skip(i + 1), c));
        r.push(s[i]);
        i += 1;
    }
    assert(before_char(s@.skip(i as int), c) =~= Seq::<char>::empty());
    assert(r@ + Seq::<char>::empty() =~= r@);
    r
}

/// `trim_matches` for a slice.
pub fn trim_matches_exec(s: &[char], c: char) -> (r: Vec<char>)
    ensures
        r@ == trim_matches(s@, c),
{
    let mut lo: usize = 0;
    let mut hi: usize = s.len();
    assert(s@.subrange(0, s.len() as int) =~= s@);
    while lo < hi && s[lo] == c
        invariant
            lo <= hi <= s.len(),
            hi == s.len(),
            trim_matches(s@, c) == trim_matches(s@.subrange(lo as int, hi as int), c),
        decreases hi - lo,
    {
        assert(s@.subrange(lo as int, hi as int).drop_first() =~= s@.subrange(lo + 1, hi as int));
        lo += 1;
    }
    while lo < hi && s[hi - 1] == c
        invariant
            lo <= hi <= s.len(),
            lo == hi || s@[lo as int] != c,
            trim_matches(s@, c) == trim_matches(s@.subrange(lo as int, hi as int), c),
        decreases hi - lo,
    {
        assert(s@.subrange(lo as int, hi as int).drop_last() =~= s@.subrange(lo as int, hi - 1));
        hi -= 1;
    }
    copy_slice_range(s, lo, hi)
}

/// Characters `lo..hi` of `s`.
fn copy_slice_range(s: &[char], lo: usize, hi: usize) -> (r: Vec<char>)
    requires
        lo <= hi <= s.len(),
    ensures
        r@ == s@.subrange(lo as int, hi as int),
{
    crate::text::copy_slice(s, lo, hi)
}

/// Testable TOML rewrite: set `[dashboard].ota_channel` to the normalized `channel`.
pub fn compute_toml(original: &str, channel: &str) -> (r: String)
    ensures
        r@ == spec_compute_toml(original@, channel@),
{
    let ch = normalize_ota_channel(channel);
    let line = concat(concat(chars_of("ota_channel = \"").as_slice(), chars_of(ch).as_slice()).as_slice(),
        chars_of("\"").as_slice());
    let orig = chars_of(original);
    let r = rewrite(orig.as_slice(), line);
    r
}

/// The scan and finish of `ota_rewrite`.
fn rewrite(orig: &[char], line: Vec<char>) -> (r: String)
    ensures
        r@ == ota_rewrite(orig@, line@),
{
    let ls = split_lines(orig);
    let dash = chars_of("[dashboard]");
    let key = chars_of("ota_channel");
    let mut out: Vec<Vec<char>> = Vec::new();
    let mut in_dash = false;
    let mut wrote = false;
    let mut saw = false;
    let mut i: usize = 0;
    while i < ls.len()
        invariant
            i <= ls.len(),
            views(ls@) == lines(orig@),
            dash@ == "[dashboard]"@,
            key@ == "ota_channel"@,
            (views(out@), in_dash, wrote, saw) == ota_scan(views(ls@).take(i as int), line@),
        decreases ls.len() - i,
    {
        let raw = &ls[i];
        let ghost pre = (views(out@), in_dash, wrote, saw);
        assert(views(ls@).take(i + 1).drop_last() =~= views(ls@).take(i as int));
        assert(views(ls@).take(i + 1).last() == raw@);
        let t = trim_start_exec(raw.as_slice());
        if is_header_exec(t.as_slice()) {
            if in_dash && !wrote {
                out.push(copy_chars(line.as_slice()));
                wrote = true;
            }
            in_dash = starts_with_exec(t.as_slice(), dash.as_slice());
            if in_dash {
                saw = true;
            }
            out.push(copy_chars(raw.as_slice()));
        } else if in_dash && active_value_exec(t.as_slice(), key.as_slice()).is_some() {
            if !wrote {
                let ind = indent_exec(raw.as_slice());
                out.push(concat(ind.as_slice(), line.as_slice()));
                wrote = true;
            }
        } else {
            out.push(copy_chars(raw.as_slice()));
        }
        assert((views(out@), in_dash, wrote, saw) == ota_step(pre, raw@, line@)) by {
            assert(views(out@) =~= ota_step(pre, raw@, line@).0);
        }
        i += 1;
    }
    assert(views(ls@).take(ls.len() as int) =~= views(ls@));
    let ghost out1 = views(out@);
    if in_dash && !wrote {
        out.push(copy_chars(line.as_slice()));
        assert(views(out@) =~= out1.push(line@));
    }
    if !saw {
        let mut section: Vec<Vec<char>> = Vec::new();
        section.push(dash);
        section.push(copy_chars(line.as_slice()));
        assert(views(section@) =~= seq!["[dashboard]"@, line@]);
        append_section_exec(&mut out, section);
    }
    finish_body_exec(orig, &out, true)
}

/// The configured OTA channel (`"stable"` or `"beta"`) in the text of a `config.toml`.
pub fn parse_ota_channel(config: &str) -> (r: &'static str)
    ensures
        r@ == spec_parse_ota_channel(config@),
{
    let ls = split_lines(chars_of(config).as_slice());
    let dash = chars_of("[dashboard]");
    let key = chars_of("ota_channel");
    let hash = vec!['#'];
    assert(hash@ =~= seq!['#']);
    let mut in_dash = false;
    let mut i: usize = 0;
    assert(views(ls@).skip(0) =~= views(ls@));
    while i < ls.len()
        invariant
            i <= ls.len(),
            views(ls@) == lines(config@),
            dash@ == "[dashboard]"@,
            key@ == "ota_channel"@,
            hash@ == seq!['#'],
            ota_find(lines(config@), false) == ota_find(views(ls@).skip(i as int), in_dash),
        decreases ls.len() - i,
    {
        assert(views(ls@).skip(i as int).drop_first() =~= views(ls@).skip(i + 1));
        assert(views(ls@).skip(i as int)[0] == ls@[i as int]@);
        let t = trim_start_exec(ls[i].as_slice());
        if is_header_exec(t.as_slice()) {
            in_dash = starts_with_exec(t.as_slice(), dash.as_slice());
        } else if in_dash && !starts_with_exec(t.as_slice(), hash.as_slice()) {
            if let Some(v) = active_value_exec(t.as_slice(), key.as_slice()) {
                let tok = trim_exec(before_char_exec(v.as_slice(), '#').as_slice());
                let a = trim_matches_exec(tok.as_slice(), '"');
                let b = trim_matches_exec(a.as_slice(), '\'');
                let s = string_of(b.as_slice());
                return normalize_ota_channel(s.as_str());
            }
        }
        i += 1;
    }
    proof {
        assert(views(ls@).skip(i as int).len() == 0);
        reveal_strlit("stable");
    }
    "stable"
}

/// JSON for the dashboard: the configured channel, its branch and the choices.
pub fn channel_json(config: &str) -> (r: String)
    ensures
        r@ == spec_channel_json(spec_parse_ota_channel(config@)),
{
    let channel = parse_ota_channel(config);
    let branch = ota_branch_for_channel(channel);
    let mut v = chars_of("{\"channel\":\"");
    crate::text::append_chars(&mut v, chars_of(channel).as_slice());
    crate::text::append_chars(&mut v, chars_of("\",\"branch\":\"").as_slice());
    crate::text::append_chars(&mut v, chars_of(branch).as_slice());
    crate::text::append_chars(&mut v, chars_of("\",\"channels\":[{\"id\":\"stable\",\"branch\":\"").as_slice());
    crate::text::append_chars(&mut v, chars_of(ota_branch_for_channel("stable")).as_slice());
    crate::text::append_chars(&mut v, chars_of("\",\"label\":\"Estable (Bost)\"},{\"id\":\"beta\",\"branch\":\"").as_slice());
    crate::text::append_chars(&mut v, chars_of(ota_branch_for_channel("beta")).as_slice());
    crate::text::append_chars(&mut v, chars_of("\",\"label\":\"Beta\"}]}").as_slice());
    proof {
        assert(v@ =~= spec_channel_json(spec_parse_ota_channel(config@)));
    }
    string_of(v.as_slice())
}

/// Scan invariant: once the section has been seen, the line has been written or the scan
/// is still inside the section; anything written is an output line holding `line`.
proof fn lemma_ota_scan_inv(ls: Seq<Seq<char>>, line: Seq<char>)
    ensures
        ({
            let (out, in_dash, wrote, saw) = ota_scan(ls, line);
            &&& saw ==> wrote || in_dash
            &&& wrote ==> exists|i: int| 0 <= i < out.len() && contains(out[i], line)
        }),
    decreases ls.len(),
{
    if ls.len() > 0 {
        lemma_ota_scan_inv(ls.drop_last(), line);
        let st = ota_scan(ls.drop_last(), line);
        let (out, in_dash, wrote, saw) = st;
        let raw = ls.last();
        let t = trim_start(raw);
        let (out2, in2, wrote2, saw2) = ota_step(st, raw, line);
        lemma_contains_self(line);
        if wrote2 {
            if wrote {
                let i = choose|i: int| 0 <= i < out.len() && contains(out[i], line);
                assert(out2[i] == out[i]);
            } else if is_header(t) {
                assert(out2[out.len() as int] == line);
            } else {
                let l = indent_of(raw) + line;
                assert(out2[out.len() as int] == l);
                assert(occurs_at(l, line, indent_of(raw).len() as int)) by {
                    assert(l.subrange(indent_of(raw).len() as int, l.len() as int) =~= line);
                }
            }
        }
    }
}

/// Every sequence contains itself.
pub proof fn lemma_contains_self(s: Seq<char>)
    ensures
        contains(s, s),
{
    assert(s.subrange(0, s.len() as int) =~= s);
    assert(occurs_at(s, s, 0));
}

/// Law: after the rewrite the file holds the requested (normalized) channel line.
pub proof fn lemma_compute_toml_sets_channel(original: Seq<char>, channel: Seq<char>)
    ensures
        contains(spec_compute_toml(original, channel), ota_line(spec_normalize_ota_channel(channel))),
{
    let line = ota_line(spec_normalize_ota_channel(channel));
    let ls = lines(original);
    lemma_ota_scan_inv(ls, line);
    let (out, in_dash, wrote, saw) = ota_scan(ls, line);
    let out2 = if in_dash && !wrote { out.push(line) } else { out };
    let out3 = if !saw { append_section(out2, seq!["[dashboard]"@, line]) } else { out2 };
    lemma_contains_self(line);
    let k: int = if !saw {
        assert(out3.last() == line);
        out3.len() - 1
    } else if in_dash && !wrote {
        assert(out3[out.len() as int] == line);
        out.len() as int
    } else {
        choose|i: int| 0 <= i < out.len() && contains(out[i], line)
    };
    assert(0 <= k < out3.len() && contains(out3[k], line));
    assert(has_line(out3, out3[k]));
    lemma_finish_contains(original, out3, true, out3[k]);
    lemma_contains_trans(finish_body(original, out3, true), out3[k], line);
}

} // verus!
