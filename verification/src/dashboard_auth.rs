//! Dashboard-editable `[dashboard]` username / password.
//!
//! Single-account model: both keys are set together. The TOML is patched surgically so
//! comments and unrelated keys stay intact.
use vstd::prelude::*;
use crate::text::{
    append_chars, chars_of, contains, copy_chars, has_line, lines, split_lines, starts_with,
    starts_with_exec, string_of, trim_start, trim_start_exec, views,
};
use crate::toml_lines::{
    append_section, append_section_exec, finish_body, finish_body_exec, is_header, is_header_exec,
    lemma_finish_contains,
};

verus! {

/// One character escaped for a TOML basic string.
pub open spec fn escape_char(c: char) -> Seq<char> {
    if c == '\\' {
        seq!['\\', '\\']
    } else if c == '"' {
        seq!['\\', '"']
    } else {
        seq![c]
    }
}

/// `s` escaped for a TOML double-quoted literal: `\` → `\\`, `"` → `\"`.
pub open spec fn escape_toml(s: Seq<char>) -> Seq<char>
    decreases s.len(),
{
    if s.len() == 0 {
        Seq::empty()
    } else {
        escape_toml(s.drop_last()) + escape_char(s.last())
    }
}

/// `username = "<escaped>"`.
pub open spec fn user_line(u: Seq<char>) -> Seq<char> {
    "username = \""@ + escape_toml(u) + "\""@
}

/// `password = "<escaped>"`.
pub open spec fn pass_line(p: Seq<char>) -> Seq<char> {
    "password = \""@ + escape_toml(p) + "\""@
}

/// Scan state: output, inside a `[dashboard]` section, a `[dashboard]` header seen.
pub type AuthScan = (Seq<Seq<char>>, bool, bool);

/// An active (uncommented) line that starts with `key`.
pub open spec fn is_active_key(t: Seq<char>, key: Seq<char>) -> bool {
    !starts_with(t, seq!['#']) && starts_with(t, key)
}

/// The lines `rest`, up to the next section header, hold an active line for `key`.
pub open spec fn section_has(rest: Seq<Seq<char>>, key: Seq<char>) -> bool
    decreases rest.len(),
{
    if rest.len() == 0 {
        false
    } else if is_header(trim_start(rest[0])) {
        false
    } else if is_active_key(trim_start(rest[0]), key) {
        true
    } else {
        section_has(rest.drop_first(), key)
    }
}

/// Line `i` of `ls` in the patch. At the first `[dashboard]` header, the credential lines
/// that its section lacks are added just after the header; inside `[dashboard]`, active
/// `username…` / `password…` lines are replaced. Commented examples are kept.
pub open spec fn auth_step(st: AuthScan, ls: Seq<Seq<char>>, i: int, ul: Seq<char>, pl: Seq<char>) -> AuthScan {
    let (out, in_dash, seen) = st;
    let raw = ls[i];
    let rest = ls.skip(i + 1);
    let t = trim_start(raw);
    if is_header(t) {
        if starts_with(t, "[dashboard]"@) {
            let o1 = out.push(raw);
            let o2 = if !seen && !section_has(rest, "username"@) { o1.push(ul) } else { o1 };
            let o3 = if !seen && !section_has(rest, "password"@) { o2.push(pl) } else { o2 };
            (o3, true, true)
        } else {
            (out.push(raw), false, seen)
        }
    } else if in_dash && is_active_key(t, "username"@) {
        (out.push(ul), in_dash, seen)
    } else if in_dash && is_active_key(t, "password"@) {
        (out.push(pl), in_dash, seen)
    } else {
        (out.push(raw), in_dash, seen)
    }
}

/// The scan over the first `n` lines of `ls`.
pub open spec fn auth_scan(ls: Seq<Seq<char>>, n: nat, ul: Seq<char>, pl: Seq<char>) -> AuthScan
    decreases n,
{
    if n == 0 {
        (Seq::empty(), false, false)
    } else {
        auth_step(auth_scan(ls, (n - 1) as nat, ul, pl), ls, n - 1, ul, pl)
    }
}

/// The patched file: inside `[dashboard]`, every active `username…` / `password…` line is
/// replaced by the new credential line, and keys the section lacks are added just after
/// its header; a file without a `[dashboard]` section gets one appended with just the two
/// keys.
pub open spec fn spec_patch_dashboard_credentials(original: Seq<char>, username: Seq<char>, password: Seq<char>) -> Seq<char> {
    let ul = user_line(username);
    let pl = pass_line(password);
    let ls = lines(original);
    let (out, _, seen) = auth_scan(ls, ls.len(), ul, pl);
    let out3 = if !seen { append_section(out, seq!["[dashboard]"@, ul, pl]) } else { out };
    finish_body(original, out3, false)
}

/// One step of [`section_has`] at line `i`.
proof fn lemma_section_has_step(ls: Seq<Seq<char>>, i: int, key: Seq<char>)
    requires
        0 <= i < ls.len(),
    ensures
        section_has(ls.skip(i), key) == if is_header(trim_start(ls[i])) {
            false
        } else if is_active_key(trim_start(ls[i]), key) {
            true
        } else {
            section_has(ls.skip(i + 1), key)
        },
{
    assert(ls.skip(i)[0] == ls[i]);
    assert(ls.skip(i).drop_first() =~= ls.skip(i + 1));
}

/// [`section_has`] of the lines of `ls` from `from` on.
fn section_has_exec(ls: &Vec<Vec<char>>, from: usize, key: &[char]) -> (r: bool)
    requires
        from <= ls.len(),
    ensures
        r == section_has(views(ls@).skip(from as int), key@),
{
    let hash = vec!['#'];
    assert(hash@ =~= seq!['#']);
    let mut j = from;
    while j < ls.len()
        invariant
            from <= j <= ls.len(),
            hash@ == seq!['#'],
            section_has(views(ls@).skip(from as int), key@) == section_has(views(ls@).skip(j as int), key@),
        decreases ls.len() - j,
    {
        proof {
            lemma_section_has_step(views(ls@), j as int, key@);
        }
        let t = trim_start_exec(ls[j].as_slice());
        if is_header_exec(t.as_slice()) {
            return false;
        }
        if !starts_with_exec(t.as_slice(), hash.as_slice()) && starts_with_exec(t.as_slice(), key) {
            return true;
        }
        j += 1;
    }
    assert(views(ls@).skip(ls.len() as int) =~= Seq::<Seq<char>>::empty());
    false
}

/// Escape a string for a TOML double-quoted literal.
pub fn escape_toml_exec(s: &[char]) -> (r: Vec<char>)
    ensures
        r@ == escape_toml(s@),
{
    let mut r: Vec<char> = Vec::new();
    let mut i: usize = 0;
    while i < s.len()
        invariant
            i <= s.len(),
            r@ == escape_toml(s@.take(i as int)),
        decreases s.len() - i,
    {
        let c = s[i];
        if c == '\\' {
            r.push('\\');
            r.push('\\');
        } else if c == '"' {
            r.push('\\');
            r.push('"');
        } else {
            r.push(c);
        }
        assert(s@.take(i + 1).drop_last() =~= s@.take(i as int));
        assert(r@ =~= escape_toml(s@.take(i + 1)));
        i += 1;
    }
    assert(s@.take(s.len() as int) =~= s@);
    r
}

/// Rewrite (or insert) `username` / `password` under `[dashboard]` in `original`.
///
/// - If `[dashboard]` exists, replace active `username` / `password` lines or add them
///   just after the section header when missing.
/// - If no `[dashboard]` section exists, append a minimal one with only those two keys.
pub fn patch_dashboard_credentials(original: &str, username: &str, password: &str) -> (r: String)
    ensures
        r@ == spec_patch_dashboard_credentials(original@, username@, password@),
{
    let mut ul = chars_of("username = \"");
    append_chars(&mut ul, escape_toml_exec(chars_of(username).as_slice()).as_slice());
    append_chars(&mut ul, chars_of("\"").as_slice());
    let mut pl = chars_of("password = \"");
    append_chars(&mut pl, escape_toml_exec(chars_of(password).as_slice()).as_slice());
    append_chars(&mut pl, chars_of("\"").as_slice());
    let orig = chars_of(original);
    let ls = split_lines(orig.as_slice());
    let dash = chars_of("[dashboard]");
    let k_user = chars_of("username");
    let k_pass = chars_of("password");
    let hash = vec!['#'];
    assert(hash@ =~= seq!['#']);
    let mut out: Vec<Vec<char>> = Vec::new();
    let mut in_dash = false;
    let mut seen = false;
    let mut i: usize = 0;
    while i < ls.len()
        invariant
            i <= ls.len(),
            views(ls@) == lines(orig@),
            dash@ == "[dashboard]"@,
            k_user@ == "username"@,
            k_pass@ == "password"@,
            hash@ == seq!['#'],
            ul@ == user_line(username@),
            pl@ == pass_line(password@),
            (views(out@), in_dash, seen) == auth_scan(views(ls@), i as nat, ul@, pl@),
        decreases ls.len() - i,
    {
        let raw = &ls[i];
        let ghost pre = (views(out@), in_dash, seen);
        assert(views(ls@)[i as int] == raw@);
        let t = trim_start_exec(raw.as_slice());
        if is_header_exec(t.as_slice()) {
            if starts_with_exec(t.as_slice(), dash.as_slice()) {
                let ghost o0 = views(out@);
                out.push(copy_chars(raw.as_slice()));
                if !seen && !section_has_exec(&ls, i + 1, k_user.as_slice()) {
                    out.push(copy_chars(ul.as_slice()));
                }
                if !seen && !section_has_exec(&ls, i + 1, k_pass.as_slice()) {
                    out.push(copy_chars(pl.as_slice()));
                }
                in_dash = true;
                seen = true;
            } else {
                out.push(copy_chars(raw.as_slice()));
                in_dash = false;
            }
        } else if in_dash && !starts_with_exec(t.as_slice(), hash.as_slice())
            && starts_with_exec(t.as_slice(), k_user.as_slice()) {
            out.push(copy_chars(ul.as_slice()));
        } else if in_dash && !starts_with_exec(t.as_slice(), hash.as_slice())
            && starts_with_exec(t.as_slice(), k_pass.as_slice()) {
            out.push(copy_chars(pl.as_slice()));
        } else {
            out.push(copy_chars(raw.as_slice()));
        }
        assert((views(out@), in_dash, seen) == auth_step(pre, views(ls@), i as int, ul@, pl@)) by {
            assert(views(out@) =~= auth_step(pre, views(ls@), i as int, ul@, pl@).0);
        }
        i += 1;
    }
    if !seen {
        let mut section: Vec<Vec<char>> = Vec::new();
        section.push(dash);
        section.push(copy_chars(ul.as_slice()));
        section.push(copy_chars(pl.as_slice()));
        assert(views(section@) =~= seq!["[dashboard]"@, ul@, pl@]);
        append_section_exec(&mut out, section);
    }
    finish_body_exec(orig.as_slice(), &out, false)
}

/// Scan invariant: once a `[dashboard]` header has been seen, each credential line is an
/// output line or still to come as a replacement inside the open section; lines once
/// written stay.
proof fn lemma_auth_scan_inv(ls: Seq<Seq<char>>, n: nat, ul: Seq<char>, pl: Seq<char>)
    requires
        n <= ls.len(),
    ensures
        ({
            let (out, in_dash, seen) = auth_scan(ls, n, ul, pl);
            &&& seen ==> has_line(out, ul) || (in_dash && section_has(ls.skip(n as int), "username"@))
            &&& seen ==> has_line(out, pl) || (in_dash && section_has(ls.skip(n as int), "password"@))
        }),
    decreases n,
{
    if n > 0 {
        let i = n - 1;
        lemma_auth_scan_inv(ls, i as nat, ul, pl);
        let st = auth_scan(ls, i as nat, ul, pl);
        let (out, in_dash, seen) = st;
        let (out2, in2, seen2) = auth_step(st, ls, i, ul, pl);
        let t = trim_start(ls[i]);
        lemma_section_has_step(ls, i, "username"@);
        lemma_section_has_step(ls, i, "password"@);
        reveal_strlit("username");
        reveal_strlit("password");
        assert("username"@[0] == 'u' && "password"@[0] == 'p');
        if starts_with(t, "username"@) {
            assert(t[0] == 'u');
            assert(!starts_with(t, "password"@));
        }
        assert(forall|j: int| 0 <= j < out.len() ==> out2.len() > j && #[trigger] out2[j] == out[j]);
        if has_line(out, ul) {
            let j = choose|j: int| 0 <= j < out.len() && out[j] == ul;
            assert(out2[j] == ul);
        }
        if has_line(out, pl) {
            let j = choose|j: int| 0 <= j < out.len() && out[j] == pl;
            assert(out2[j] == pl);
        }
        if is_header(t) && starts_with(t, "[dashboard]"@) && !seen {
            let o1 = out.push(ls[i]);
            let o2 = if !section_has(ls.skip(i + 1), "username"@) { o1.push(ul) } else { o1 };
            if !section_has(ls.skip(i + 1), "username"@) {
                assert(o2[o1.len() as int] == ul);
                assert(out2[o1.len() as int] == ul);
            }
            if !section_has(ls.skip(i + 1), "password"@) {
                assert(out2[o2.len() as int] == pl);
            }
        } else if !is_header(t) && in_dash && is_active_key(t, "username"@) {
            assert(out2[out.len() as int] == ul);
        } else if !is_header(t) && in_dash && is_active_key(t, "password"@) {
            assert(out2[out.len() as int] == pl);
        }
    }
}

/// Law: after the patch the file holds the new username and password lines.
pub proof fn lemma_patch_sets_credentials(original: Seq<char>, username: Seq<char>, password: Seq<char>)
    ensures
        contains(spec_patch_dashboard_credentials(original, username, password), user_line(username)),
        contains(spec_patch_dashboard_credentials(original, username, password), pass_line(password)),
{
    let ul = user_line(username);
    let pl = pass_line(password);
    let ls = lines(original);
    lemma_auth_scan_inv(ls, ls.len(), ul, pl);
    assert(ls.skip(ls.len() as int) =~= Seq::<Seq<char>>::empty());
    let (out, in_dash, seen) = auth_scan(ls, ls.len(), ul, pl);
    let out3 = if !seen { append_section(out, seq!["[dashboard]"@, ul, pl]) } else { out };
    if !seen {
        let base = out3.len() - 3;
        assert(out3[base + 1] == ul);
        assert(out3[base + 2] == pl);
    }
    assert(has_line(out3, ul));
    assert(has_line(out3, pl));
    lemma_finish_contains(original, out3, false, ul);
    lemma_finish_contains(original, out3, false, pl);
}

} // verus!
