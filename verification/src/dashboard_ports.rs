//! Migrate legacy dashboard ports (HTTP 8080 / HTTPS 8443) → 80 / 443.
//!
//! Line-oriented edit of `config.toml`: preserves comments.
use vstd::prelude::*;
use crate::text::{
    chars_eq, chars_of, concat, copy_chars, copy_slice, lines, split_lines, starts_with,
    starts_with_exec, trim, trim_exec, trim_start, trim_start_exec, views,
};
use crate::toml_lines::{
    active_value, active_value_exec, finish_body, finish_body_exec, indent_exec, indent_of,
    is_header, is_header_exec,
};
use crate::ota_channel::{trim_matches, trim_matches_exec};

verus! {

/// Previous HTTP default before HTTPS-canonical dashboard.
pub const LEGACY_HTTP_PORT: u16 = 8080;

/// Previous HTTPS sidecar default.
pub const LEGACY_HTTPS_PORT: u16 = 8443;

/// The part of `s` before the first `a` or `b`.
pub open spec fn before_either(s: Seq<char>, a: char, b: char) -> Seq<char>
    decreases s.len(),
{
    if s.len() == 0 || s[0] == a || s[0] == b {
        Seq::empty()
    } else {
        seq![s[0]] + before_either(s.drop_first(), a, b)
    }
}

/// A port value without inline comment, whitespace and quotes.
pub open spec fn port_token(v: Seq<char>) -> Seq<char> {
    trim_matches(trim_matches(trim(before_either(v, '#', '\r')), '"'), '\'')
}

/// Scan state: output lines, inside `[dashboard]`, `https_port` line kept or written.
pub type PortScan = (Seq<Seq<char>>, bool, bool);

/// One input line of the migration.
pub open spec fn port_step(st: PortScan, raw: Seq<char>) -> PortScan {
    let (out, in_dash, wrote) = st;
    let t = trim_start(raw);
    if is_header(t) {
        let out1 = if in_dash && !wrote { out.push("https_port = 443"@) } else { out };
        (out1.push(raw), starts_with(t, "[dashboard]"@), wrote || in_dash)
    } else if in_dash && active_value(t, "port"@) is Some {
        if port_token(active_value(t, "port"@)->0) == "8080"@ {
            (out.push(indent_of(raw) + "port = 80"@), in_dash, wrote)
        } else {
            (out.push(raw), in_dash, wrote)
        }
    } else if in_dash && active_value(t, "https_port"@) is Some {
        if !wrote {
            (out.push(raw), in_dash, true)
        } else {
            st
        }
    } else {
        (out.push(raw), in_dash, wrote)
    }
}

/// The scan over all lines.
pub open spec fn port_scan(ls: Seq<Seq<char>>) -> PortScan
    decreases ls.len(),
{
    if ls.len() == 0 {
        (Seq::empty(), false, false)
    } else {
        port_step(port_scan(ls.drop_last()), ls.last())
    }
}

/// The migrated file: inside `[dashboard]`, an active `port` whose value is `8080`
/// becomes `port = 80` (indentation kept), the first active `https_port` line is kept and
/// later ones are dropped, and a section without one receives `https_port = 443`.
pub open spec fn spec_compute_toml(original: Seq<char>) -> Seq<char> {
    let (out, in_dash, wrote) = port_scan(lines(original));
    let out2 = if in_dash && !wrote { out.push("https_port = 443"@) } else { out };
    finish_body(original, out2, true)
}

/// `before_either` for a slice.
pub fn before_either_exec(s: &[char], a: char, b: char) -> (r: Vec<char>)
    ensures
        r@ == before_either(s@, a, b),
{
    let mut i: usize = 0;
    assert(s@.skip(0) =~= s@);
    assert(s@.take(0) + before_either(s@, a, b) =~= before_either(s@, a, b));
    while i < s.len() && s[i] != a && s[i] != b
        invariant
            i <= s.len(),
            before_either(s@, a, b) == s@.take(i as int) + before_either(s@.skip(i as int), a, b),
        decreases s.len() - i,
    {
        assert(s@.skip(i as int).drop_first() =~= s@.skip(i + 1));
        assert(s@.take(i as int) + (seq![s@[i as int]] + before_either(s@.skip(i + 1), a, b))
            =~= s@.take(i + 1) + before_either(s@.skip(i + 1), a, b));
        i += 1;
    }
    proof {
        assert(s@.skip(0) =~= s@);
        assert(before_either(s@.skip(i as int), a, b) =~= Seq::<char>::empty());
        assert(s@.take(i as int) + Seq::<char>::empty() =~= s@.take(i as int));
    }
    copy_slice(s, 0, i)
}

/// Testable TOML rewrite of the legacy dashboard ports.
pub fn compute_toml(original: &str) -> (r: String)
    ensures
        r@ == spec_compute_toml(original@),
{
    let orig = chars_of(original);
    let ls = split_lines(orig.as_slice());
    let dash = chars_of("[dashboard]");
    let k_port = chars_of("port");
    let k_https = chars_of("https_port");
    let legacy = chars_of("8080");
    let https_line = chars_of("https_port = 443");
    let port80 = chars_of("port = 80");
    let mut out: Vec<Vec<char>> = Vec::new();
    let mut in_dash = false;
    let mut wrote = false;
    let mut i: usize = 0;
    while i < ls.len()
        invariant
            i <= ls.len(),
            views(ls@) == lines(orig@),
            dash@ == "[dashboard]"@,
            k_port@ == "port"@,
            k_https@ == "https_port"@,
            legacy@ == "8080"@,
            https_line@ == "https_port = 443"@,
            port80@ == "port = 80"@,
            (views(out@), in_dash, wrote) == port_scan(views(ls@).take(i as int)),
        decreases ls.len() - i,
    {
        let raw = &ls[i];
        let ghost pre = (views(out@), in_dash, wrote);
        assert(views(ls@).take(i + 1).drop_last() =~= views(ls@).take(i as int));
        assert(views(ls@).take(i + 1).last() == raw@);
        let t = trim_start_exec(raw.as_slice());
        if is_header_exec(t.as_slice()) {
            if in_dash && !wrote {
                out.push(copy_chars(https_line.as_slice()));
                wrote = true;
            }
            in_dash = starts_with_exec(t.as_slice(), dash.as_slice());
            out.push(copy_chars(raw.as_slice()));
        } else {
            let pv = if in_dash { active_value_exec(t.as_slice(), k_port.as_slice()) } else { None };
            if let Some(v) = pv {
                let a = trim_exec(before_either_exec(v.as_slice(), '#', '\r').as_slice());
                let b = trim_matches_exec(a.as_slice(), '"');
                let tok = trim_matches_exec(b.as_slice(), '\'');
                if chars_eq(tok.as_slice(), legacy.as_slice()) {
                    let ind = indent_exec(raw.as_slice());
                    out.push(concat(ind.as_slice(), port80.as_slice()));
                } else {
                    out.push(copy_chars(raw.as_slice()));
                }
            } else if in_dash && active_value_exec(t.as_slice(), k_https.as_slice()).is_some() {
                if !wrote {
                    out.push(copy_chars(raw.as_slice()));
                    wrote = true;
                }
            } else {
                out.push(copy_chars(raw.as_slice()));
            }
        }
        assert((views(out@), in_dash, wrote) == port_step(pre, raw@)) by {
            assert(views(out@) =~= port_step(pre, raw@).0);
        }
        i += 1;
    }
    assert(views(ls@).take(ls.len() as int) =~= views(ls@));
    let ghost out1 = views(out@);
    if in_dash && !wrote {
        out.push(copy_chars(https_line.as_slice()));
        assert(views(out@) =~= out1.push("https_port = 443"@));
    }
    finish_body_exec(orig.as_slice(), &out, true)
}

} // verus!
