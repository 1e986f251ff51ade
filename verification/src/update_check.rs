//! Update check for the dashboard: version parsing, CHANGELOG notes, and the JSON report.
//!
//! The network requests themselves are made by the caller; everything decided from their
//! answers lives here.
use vstd::prelude::*;
use crate::core_info::{
    lemma_normalize_idempotent, normalize_ota_channel, ota_branch_for_channel,
    spec_normalize_ota_channel, spec_ota_branch_for_channel, PRODUCT_REPO_URL,
};
use crate::dashboard_ports::{before_either, before_either_exec};
use crate::ota_channel::{before_char, before_char_exec, trim_matches, trim_matches_exec};
use crate::text::{
    after_char, after_char_exec, chars_of, dec, dec_chars, has_char, parse_uint, parse_uint_exec,
    trim, trim_end_char, trim_end_char_exec, trim_exec, trim_start_char, trim_start_char_exec,
    append_chars, find_char, all_digits, is_digit, is_ws, is_ws_char, trim_start, trim_start_exec, chars_eq, ends_with, ends_with_exec, lines, split_lines,
    starts_with, starts_with_exec, string_of, views, digits, digit_val, digits_value, trim_end, uint_digits,
};

verus! {

/// Largest `u32`.
pub open spec fn u32_max() -> nat {
    0xFFFF_FFFF
}

/// A parsed semantic version (major.minor.patch).
#[derive(Debug, Clone, Copy, PartialEq, Eq, Structural, PartialOrd, Ord)]
pub struct SemVer {
    pub major: u32,
    pub minor: u32,
    pub patch: u32,
}

/// `s` without one leading `v` or `V`.
pub open spec fn strip_v(s: Seq<char>) -> Seq<char> {
    if s.len() > 0 && (s[0] == 'v' || s[0] == 'V') {
        s.drop_first()
    } else {
        s
    }
}

/// The `major.minor.patch` part of a version text: trimmed, without a `v`/`V` prefix, cut
/// at the first `-` or `+` (a git suffix or build metadata), without the brackets of a
/// Keep-a-Changelog header.
pub open spec fn version_core(s: Seq<char>) -> Seq<char> {
    trim_end_char(trim_start_char(before_either(strip_v(trim(s)), '-', '+'), '['), ']')
}

/// Dot-separated piece `k` (0, 1 or 2) of `s`, if `s` has that many pieces.
pub open spec fn dot_piece(s: Seq<char>, k: nat) -> Option<Seq<char>> {
    if k == 0 {
        Some(before_char(s, '.'))
    } else if !has_char(s, '.') {
        None
    } else if k == 1 {
        Some(before_char(after_char(s, '.'), '.'))
    } else if !has_char(after_char(s, '.'), '.') {
        None
    } else {
        Some(before_char(after_char(after_char(s, '.'), '.'), '.'))
    }
}

/// A minor or patch component: a missing or unparsable piece counts as 0.
pub open spec fn component_or_zero(p: Option<Seq<char>>) -> u32 {
    match p {
        Some(t) => match parse_uint(trim(t), u32_max()) {
            Some(v) => v as u32,
            None => 0,
        },
        None => 0,
    }
}

/// The version a text names: the major component must parse as a `u32`; minor and patch
/// default to 0.
pub open spec fn spec_parse_semver(s: Seq<char>) -> Option<SemVer> {
    let core = version_core(s);
    match parse_uint(trim(before_char(core, '.')), u32_max()) {
        Some(major) => Some(
            SemVer {
                major: major as u32,
                minor: component_or_zero(dot_piece(core, 1)),
                patch: component_or_zero(dot_piece(core, 2)),
            },
        ),
        None => None,
    }
}

/// `a` is a strictly later version than `b` (components compared in order).
pub open spec fn semver_gt(a: SemVer, b: SemVer) -> bool {
    ||| a.major > b.major
    ||| a.major == b.major && a.minor > b.minor
    ||| a.major == b.major && a.minor == b.minor && a.patch > b.patch
}

/// `M.m.p`.
pub open spec fn semver_text(v: SemVer) -> Seq<char> {
    dec(v.major as nat) + "."@ + dec(v.minor as nat) + "."@ + dec(v.patch as nat)
}

/// Each character is a decimal digit or a dot.
pub open spec fn digits_or_dots(s: Seq<char>) -> bool {
    forall|i: int| 0 <= i < s.len() ==> is_digit(#[trigger] s[i]) || s[i] == '.'
}

proof fn lemma_digit_chars(k: int)
    requires
        0 <= k < 10,
    ensures
        is_digit(digits()[k]),
        digit_val(digits()[k]) == k,
{
    assert(digits()[0] == '0' && digits()[1] == '1' && digits()[2] == '2' && digits()[3] == '3');
    assert(digits()[4] == '4' && digits()[5] == '5' && digits()[6] == '6' && digits()[7] == '7');
    assert(digits()[8] == '8' && digits()[9] == '9');
}

/// The decimal text of `n` is a non-empty run of digits worth `n`.
pub(crate) proof fn lemma_dec_digits(n: nat)
    ensures
        dec(n).len() > 0,
        all_digits(dec(n)),
        digits_value(dec(n)) == n,
    decreases n,
{
    if n < 10 {
        lemma_digit_chars(n as int);
        let s = dec(n);
        assert(s.drop_last() =~= Seq::<char>::empty());
        assert(digits_value(s) == digits_value(s.drop_last()) * 10 + digit_val(s.last()));
    } else {
        lemma_dec_digits(n / 10);
        lemma_digit_chars((n % 10) as int);
        let s = dec(n);
        assert(s.drop_last() =~= dec(n / 10));
        assert(s.last() == digits()[(n % 10) as int]);
        assert(digits_value(s) == digits_value(s.drop_last()) * 10 + digit_val(s.last()));
        assert(n == (n / 10) * 10 + n % 10) by (nonlinear_arith);
    }
}

/// Splitting `x`, `c`, `y` at the first `c`, when `x` has none.
proof fn lemma_split_at_sep(x: Seq<char>, y: Seq<char>, c: char)
    requires
        forall|i: int| 0 <= i < x.len() ==> x[i] != c,
    ensures
        before_char(x + seq![c] + y, c) == x,
        after_char(x + seq![c] + y, c) == y,
        has_char(x + seq![c] + y, c),
    decreases x.len(),
{
    let s = x + seq![c] + y;
    assert(s[x.len() as int] == c);
    if x.len() == 0 {
        assert(s =~= seq![c] + y);
        assert(s.drop_first() =~= y);
    } else {
        assert(s[0] == x[0]);
        assert(s.drop_first() =~= x.drop_first() + seq![c] + y);
        lemma_split_at_sep(x.drop_first(), y, c);
        assert(seq![x[0]] + x.drop_first() =~= x);
    }
}

/// Cutting at a character that does not occur keeps everything.
proof fn lemma_before_absent(x: Seq<char>, c: char, d: char)
    requires
        forall|i: int| 0 <= i < x.len() ==> x[i] != c && x[i] != d,
    ensures
        before_char(x, c) == x,
        before_either(x, c, d) == x,
        !has_char(x, c),
    decreases x.len(),
{
    if x.len() > 0 {
        lemma_before_absent(x.drop_first(), c, d);
        assert(seq![x[0]] + x.drop_first() =~= x);
    }
}

/// Text made of digits and dots, starting and ending with a digit, is its own version core.
proof fn lemma_version_core_plain(s: Seq<char>)
    requires
        s.len() > 0,
        digits_or_dots(s),
        is_digit(s[0]),
        is_digit(s.last()),
    ensures
        version_core(s) == s,
{
    assert(trim_start(s) == s);
    assert(trim_end(s) == s);
    assert(strip_v(s) == s);
    lemma_before_absent(s, '-', '+');
    assert(trim_start_char(s, '[') == s);
    assert(trim_end_char(s, ']') == s);
}

/// A run of digits reads back as its value.
proof fn lemma_parse_dec(n: nat)
    requires
        n <= u32_max(),
    ensures
        parse_uint(trim(dec(n)), u32_max()) == Some(n),
        forall|i: int| 0 <= i < dec(n).len() ==> #[trigger] dec(n)[i] != '.',
{
    lemma_dec_digits(n);
    let s = dec(n);
    assert(is_digit(s[0]));
    assert(is_digit(s.last()));
    assert(trim_start(s) == s);
    assert(trim_end(s) == s);
    assert(uint_digits(s) == s);
}

/// A version's text form (`M.m.p`) reads back as that version.
pub proof fn lemma_semver_text_round_trip(v: SemVer)
    ensures
        spec_parse_semver(semver_text(v)) == Some(v),
{
    reveal_strlit(".");
    let a = dec(v.major as nat);
    let b = dec(v.minor as nat);
    let c = dec(v.patch as nat);
    lemma_parse_dec(v.major as nat);
    lemma_parse_dec(v.minor as nat);
    lemma_parse_dec(v.patch as nat);
    lemma_dec_digits(v.major as nat);
    lemma_dec_digits(v.minor as nat);
    lemma_dec_digits(v.patch as nat);
    let s = semver_text(v);
    let rest = b + seq!['.'] + c;
    assert(s =~= a + seq!['.'] + rest);
    assert(digits_or_dots(s)) by {
        assert forall|i: int| 0 <= i < s.len() implies is_digit(#[trigger] s[i]) || s[i] == '.' by {
            if i < a.len() {
                assert(s[i] == a[i]);
            } else if i == a.len() {
            } else if i < a.len() + 1 + b.len() {
                assert(s[i] == b[i - a.len() - 1]);
            } else if i == a.len() + 1 + b.len() {
            } else {
                assert(s[i] == c[i - a.len() - 2 - b.len()]);
            }
        }
    }
    assert(s[0] == a[0]);
    assert(s.last() == c.last());
    lemma_version_core_plain(s);
    lemma_split_at_sep(a, rest, '.');
    lemma_split_at_sep(b, c, '.');
    lemma_before_absent(c, '.', '.');
}

/// `strip_v` of a slice.
fn strip_v_exec(s: &[char]) -> (r: Vec<char>)
    ensures
        r@ == strip_v(s@),
{
    if s.len() > 0 && (s[0] == 'v' || s[0] == 'V') {
        crate::text::copy_slice(s, 1, s.len())
    } else {
        crate::text::copy_chars(s)
    }
}

/// A minor or patch component of a slice piece.
fn component_exec(p: Option<Vec<char>>) -> (r: u32)
    ensures
        r == component_or_zero(match p {
            Some(v) => Some(v@),
            None => None,
        }),
{
    match p {
        Some(t) => {
            let t = trim_exec(t.as_slice());
            match parse_uint_exec(t.as_slice(), 0xFFFF_FFFF) {
                Some(v) => v as u32,
                None => 0,
            }
        },
        None => 0,
    }
}

impl SemVer {
    /// Parse `0.2.5`, `v0.1.0-2aad62c8` or `[0.1.54]`.
    pub fn parse(s: &str) -> (r: Option<Self>)
        ensures
            r == spec_parse_semver(s@),
    {
        SemVer::parse_chars(chars_of(s).as_slice())
    }

    /// `parse` for a character slice.
    pub fn parse_chars(s: &[char]) -> (r: Option<Self>)
        ensures
            r == spec_parse_semver(s@),
    {
        let t = trim_exec(s);
        let t = strip_v_exec(t.as_slice());
        let t = before_either_exec(t.as_slice(), '-', '+');
        let t = trim_start_char_exec(t.as_slice(), '[');
        let core = trim_end_char_exec(t.as_slice(), ']');
        let p0 = trim_exec(before_char_exec(core.as_slice(), '.').as_slice());
        let major = match parse_uint_exec(p0.as_slice(), 0xFFFF_FFFF) {
            Some(v) => v as u32,
            None => return None,
        };
        let (p1, p2) = match find_char(core.as_slice(), '.') {
            None => (None, None),
            Some(_) => {
                let r1 = after_char_exec(core.as_slice(), '.');
                let p1 = before_char_exec(r1.as_slice(), '.');
                match find_char(r1.as_slice(), '.') {
                    None => (Some(p1), None),
                    Some(_) => {
                        let r2 = after_char_exec(r1.as_slice(), '.');
                        (Some(p1), Some(before_char_exec(r2.as_slice(), '.')))
                    },
                }
            },
        };
        let minor = component_exec(p1);
        let patch = component_exec(p2);
        Some(SemVer { major, minor, patch })
    }

    /// `M.m.p`.
    pub fn display(self) -> (r: String)
        ensures
            r@ == semver_text(self),
    {
        let mut m = dec_chars(self.major as u64);
        m.push('.');
        append_chars(&mut m, dec_chars(self.minor as u64).as_slice());
        m.push('.');
        append_chars(&mut m, dec_chars(self.patch as u64).as_slice());
        proof {
            reveal_strlit(".");
            assert(m@ =~= semver_text(self));
        }
        crate::text::string_of(m.as_slice())
    }

    /// `self` is a strictly later version than `other`.
    pub fn is_newer_than(&self, other: &SemVer) -> (r: bool)
        ensures
            r == semver_gt(*self, *other),
    {
        self.major > other.major || (self.major == other.major && self.minor > other.minor) || (
        self.major == other.major && self.minor == other.minor && self.patch > other.patch)
    }
}

/// One commit line for the technical fallback list.
#[derive(Debug, Clone)]
pub struct ChangelogEntry {
    pub sha: String,
    pub title: String,
}

/// Where `release_notes` came from (for UI hints).
#[derive(Debug, Clone, Copy, PartialEq, Eq, Structural)]
pub enum NotesSource {
    Empty,
    Changelog,
    Release,
    Commits,
}

/// The name of a notes source in the JSON report.
pub open spec fn notes_source_text(n: NotesSource) -> Seq<char> {
    match n {
        NotesSource::Empty => "none"@,
        NotesSource::Changelog => "changelog"@,
        NotesSource::Release => "release"@,
        NotesSource::Commits => "commits"@,
    }
}

impl NotesSource {
    /// The name used in the JSON report.
    pub fn as_str(self) -> (r: &'static str)
        ensures
            r@ == notes_source_text(self),
    {
        match self {
            NotesSource::Empty => "none",
            NotesSource::Changelog => "changelog",
            NotesSource::Release => "release",
            NotesSource::Commits => "commits",
        }
    }
}

/// Result of an update check, serialised to JSON for the dashboard.
#[derive(Debug, Clone)]
pub struct UpdateCheck {
    pub current: String,
    pub latest: Option<String>,
    pub update_available: bool,
    pub release_url: Option<String>,
    pub check_failed: bool,
    pub channel: String,
    pub branch: String,
    pub remote_version: Option<String>,
    pub changelog: Vec<ChangelogEntry>,
    pub changelog_truncated: bool,
    /// Human-readable notes (CHANGELOG / Release body), plain text with `- ` bullets.
    pub release_notes: Option<String>,
    pub notes_source: NotesSource,
}

/// The view of an optional string.
pub open spec fn opt_view(o: Option<String>) -> Option<Seq<char>> {
    match o {
        Some(s) => Some(s@),
        None => None,
    }
}

/// One character escaped for a JSON string.
pub open spec fn json_escape_char(c: char) -> Seq<char> {
    if c == '\\' {
        seq!['\\', '\\']
    } else if c == '"' {
        seq!['\\', '"']
    } else if c == '\n' {
        seq!['\\', 'n']
    } else if c == '\r' {
        seq!['\\', 'r']
    } else {
        seq![c]
    }
}

/// `s` with `\`, `"`, newline and carriage return escaped for a JSON string.
pub open spec fn json_escape(s: Seq<char>) -> Seq<char>
    decreases s.len(),
{
    if s.len() == 0 {
        Seq::empty()
    } else {
        json_escape(s.drop_last()) + json_escape_char(s.last())
    }
}

/// A quoted, escaped JSON string, or `null`.
pub open spec fn opt_str_json(s: Option<Seq<char>>) -> Seq<char> {
    match s {
        Some(t) => "\""@ + json_escape(t) + "\""@,
        None => "null"@,
    }
}

/// One changelog entry as a JSON object.
pub open spec fn entry_json(e: ChangelogEntry) -> Seq<char> {
    "{\"sha\":\""@ + json_escape(e.sha@) + "\",\"title\":\""@ + json_escape(e.title@) + "\"}"@
}

/// The entries as JSON objects separated by commas.
pub open spec fn entries_json(es: Seq<ChangelogEntry>) -> Seq<char>
    decreases es.len(),
{
    if es.len() == 0 {
        Seq::empty()
    } else if es.len() == 1 {
        entry_json(es[0])
    } else {
        entries_json(es.drop_last()) + ","@ + entry_json(es.last())
    }
}

/// `"true"` / `"false"`.
pub open spec fn bool_json(b: bool) -> Seq<char> {
    if b {
        "true"@
    } else {
        "false"@
    }
}

/// The JSON report of an update check.
pub open spec fn spec_update_json(u: UpdateCheck) -> Seq<char> {
    "{\"current\":\""@ + json_escape(u.current@) + "\",\"latest\":"@ + opt_str_json(opt_view(u.latest))
        + ",\"update_available\":"@ + bool_json(u.update_available) + ",\"release_url\":"@
        + opt_str_json(opt_view(u.release_url)) + ",\"check_failed\":"@ + bool_json(u.check_failed)
        + ",\"channel\":\""@ + json_escape(u.channel@) + "\",\"branch\":\""@ + json_escape(u.branch@)
        + "\",\"remote_version\":"@ + opt_str_json(opt_view(u.remote_version)) + ",\"changelog\":["@
        + entries_json(u.changelog@) + "],\"changelog_truncated\":"@ + bool_json(u.changelog_truncated)
        + ",\"release_notes\":"@ + opt_str_json(opt_view(u.release_notes)) + ",\"notes_source\":\""@
        + notes_source_text(u.notes_source) + "\"}"@
}

/// Appends `json_escape(s)`.
fn push_json_escaped(out: &mut Vec<char>, s: &str)
    ensures
        final(out)@ == old(out)@ + json_escape(s@),
{
    let cs = chars_of(s);
    let mut i: usize = 0;
    while i < cs.len()
        invariant
            i <= cs.len(),
            cs@ == s@,
            out@ == old(out)@ + json_escape(cs@.take(i as int)),
        decreases cs.len() - i,
    {
        let c = cs[i];
        if c == '\\' {
            out.push('\\');
            out.push('\\');
        } else if c == '"' {
            out.push('\\');
            out.push('"');
        } else if c == '\n' {
            out.push('\\');
            out.push('n');
        } else if c == '\r' {
            out.push('\\');
            out.push('r');
        } else {
            out.push(c);
        }
        assert(cs@.take(i + 1).drop_last() =~= cs@.take(i as int));
        assert(out@ =~= old(out)@ + json_escape(cs@.take(i + 1)));
        i += 1;
    }
    assert(cs@.take(cs.len() as int) =~= cs@);
}

/// Appends `opt_str_json(s)`.
fn push_opt_str_json(out: &mut Vec<char>, s: &Option<String>)
    ensures
        final(out)@ == old(out)@ + opt_str_json(opt_view(*s)),
{
    match s {
        Some(t) => {
            out.push('"');
            push_json_escaped(out, t.as_str());
            out.push('"');
            proof {
                reveal_strlit("\"");
                assert(final(out)@ =~= old(out)@ + opt_str_json(opt_view(*s)));
            }
        },
        None => {
            append_chars(out, chars_of("null").as_slice());
        },
    }
}

/// Appends `bool_json(b)`.
fn push_bool_json(out: &mut Vec<char>, b: bool)
    ensures
        final(out)@ == old(out)@ + bool_json(b),
{
    if b {
        append_chars(out, chars_of("true").as_slice());
    } else {
        append_chars(out, chars_of("false").as_slice());
    }
}

/// Appends a literal.
fn push_lit(out: &mut Vec<char>, s: &str)
    ensures
        final(out)@ == old(out)@ + s@,
{
    append_chars(out, chars_of(s).as_slice());
}

/// Appends `entries_json(es)`.
fn push_entries_json(out: &mut Vec<char>, es: &Vec<ChangelogEntry>)
    ensures
        final(out)@ == old(out)@ + entries_json(es@),
{
    let mut i: usize = 0;
    while i < es.len()
        invariant
            i <= es.len(),
            out@ == old(out)@ + entries_json(es@.take(i as int)),
        decreases es.len() - i,
    {
        let ghost before = out@;
        assert(es@.take(i + 1).drop_last() =~= es@.take(i as int));
        if i > 0 {
            push_lit(out, ",");
        }
        push_lit(out, "{\"sha\":\"");
        push_json_escaped(out, es[i].sha.as_str());
        push_lit(out, "\",\"title\":\"");
        push_json_escaped(out, es[i].title.as_str());
        push_lit(out, "\"}");
        proof {
            let e = es@[i as int];
            assert(es@.take(i + 1).last() == e);
            if i > 0 {
                assert(out@ =~= before + ","@ + entry_json(e));
            } else {
                assert(out@ =~= before + entry_json(e));
                assert(entries_json(es@.take(i as int)) =~= Seq::<char>::empty());
            }
            assert(out@ =~= old(out)@ + entries_json(es@.take(i + 1)));
        }
        i += 1;
    }
    assert(es@.take(es.len() as int) =~= es@);
}

impl UpdateCheck {
    /// The report when the check could not be made.
    pub fn unknown(current: &str, channel: &str, branch: &str) -> (r: Self)
        ensures
            r.current@ == current@,
            r.latest is None,
            !r.update_available,
            r.release_url is None,
            r.check_failed,
            r.channel@ == channel@,
            r.branch@ == branch@,
            r.remote_version is None,
            r.changelog@.len() == 0,
            !r.changelog_truncated,
            r.release_notes is None,
            r.notes_source == NotesSource::Empty,
    {
        UpdateCheck {
            current: crate::text::string_of(chars_of(current).as_slice()),
            latest: None,
            update_available: false,
            release_url: None,
            check_failed: true,
            channel: crate::text::string_of(chars_of(channel).as_slice()),
            branch: crate::text::string_of(chars_of(branch).as_slice()),
            remote_version: None,
            changelog: Vec::new(),
            changelog_truncated: false,
            release_notes: None,
            notes_source: NotesSource::Empty,
        }
    }

    /// The JSON report for the dashboard.
    pub fn to_json(&self) -> (r: String)
        ensures
            r@ == spec_update_json(*self),
    {
        let mut o: Vec<char> = Vec::new();
        push_lit(&mut o, "{\"current\":\"");
        push_json_escaped(&mut o, self.current.as_str());
        push_lit(&mut o, "\",\"latest\":");
        push_opt_str_json(&mut o, &self.latest);
        push_lit(&mut o, ",\"update_available\":");
        push_bool_json(&mut o, self.update_available);
        push_lit(&mut o, ",\"release_url\":");
        push_opt_str_json(&mut o, &self.release_url);
        push_lit(&mut o, ",\"check_failed\":");
        push_bool_json(&mut o, self.check_failed);
        push_lit(&mut o, ",\"channel\":\"");
        push_json_escaped(&mut o, self.channel.as_str());
        push_lit(&mut o, "\",\"branch\":\"");
        push_json_escaped(&mut o, self.branch.as_str());
        push_lit(&mut o, "\",\"remote_version\":");
        push_opt_str_json(&mut o, &self.remote_version);
        push_lit(&mut o, ",\"changelog\":[");
        push_entries_json(&mut o, &self.changelog);
        push_lit(&mut o, "],\"changelog_truncated\":");
        push_bool_json(&mut o, self.changelog_truncated);
        push_lit(&mut o, ",\"release_notes\":");
        push_opt_str_json(&mut o, &self.release_notes);
        push_lit(&mut o, ",\"notes_source\":\"");
        push_lit(&mut o, self.notes_source.as_str());
        push_lit(&mut o, "\"}");
        assert(o@ =~= spec_update_json(*self));
        crate::text::string_of(o.as_slice())
    }
}

/// The part of `s` after its last `c` (all of `s` when `c` does not occur), as
/// `s.rsplit(c).next()` yields it.
pub open spec fn after_last_char(s: Seq<char>, c: char) -> Seq<char>
    decreases s.len(),
{
    if s.len() == 0 {
        Seq::empty()
    } else if s.last() == c {
        Seq::empty()
    } else {
        after_last_char(s.drop_last(), c).push(s.last())
    }
}

/// `h` without a `-modified` suffix.
pub open spec fn strip_modified(h: Seq<char>) -> Seq<char> {
    if ends_with(h, "-modified"@) {
        h.take(h.len() - 9)
    } else {
        h
    }
}

/// The commit hash of this build: the build's git hash (without `-modified`) when it is
/// known, else the suffix after the last `-` of the version text, unless that is empty or
/// only digits.
pub open spec fn spec_local_git_hash(git_hash: Seq<char>, current_version: Seq<char>) -> Option<
    Seq<char>,
> {
    let h = strip_modified(git_hash);
    if h.len() > 0 && h != "unknown"@ {
        Some(h)
    } else {
        let hash = trim(after_last_char(strip_v(trim(current_version)), '-'));
        if hash.len() == 0 || all_digits(hash) {
            None
        } else {
            Some(hash)
        }
    }
}

/// `after_last_char` of a slice.
fn after_last_char_exec(s: &[char], c: char) -> (r: Vec<char>)
    ensures
        r@ == after_last_char(s@, c),
{
    let mut k: usize = s.len();
    assert(s@.take(k as int) =~= s@);
    assert(s@.take(k as int).skip(k as int) =~= Seq::<char>::empty());
    while k > 0 && s[k - 1] != c
        invariant
            k <= s.len(),
            after_last_char(s@, c) == after_last_char(s@.take(k as int), c) + s@.skip(k as int),
        decreases k,
    {
        assert(s@.take(k as int).drop_last() =~= s@.take(k - 1));
        assert(after_last_char(s@.take(k - 1), c).push(s@[k - 1]) + s@.skip(k as int)
            =~= after_last_char(s@.take(k - 1), c) + s@.skip(k - 1));
        k -= 1;
    }
    assert(after_last_char(s@.take(k as int), c) =~= Seq::<char>::empty());
    assert(Seq::<char>::empty() + s@.skip(k as int) =~= s@.skip(k as int));
    crate::text::copy_slice(s, k, s.len())
}

/// The commit hash of this build (see [`spec_local_git_hash`]); `git_hash` is the hash the
/// build was stamped with.
pub fn local_git_hash(git_hash: &str, current_version: &str) -> (r: Option<String>)
    ensures
        opt_view(r) == spec_local_git_hash(git_hash@, current_version@),
{
    let g = chars_of(git_hash);
    let suffix = chars_of("-modified");
    proof {
        reveal_strlit("-modified");
    }
    let h = if ends_with_exec(g.as_slice(), suffix.as_slice()) {
        crate::text::copy_slice(g.as_slice(), 0, g.len() - 9)
    } else {
        g
    };
    assert(h@ == strip_modified(git_hash@));
    if h.len() > 0 && !chars_eq(h.as_slice(), chars_of("unknown").as_slice()) {
        return Some(string_of(h.as_slice()));
    }
    let t = trim_exec(chars_of(current_version).as_slice());
    let t = strip_v_exec(t.as_slice());
    let hash = trim_exec(after_last_char_exec(t.as_slice(), '-').as_slice());
    if hash.len() == 0 {
        return None;
    }
    let mut all = true;
    let mut i: usize = 0;
    while i < hash.len()
        invariant
            i <= hash.len(),
            all == all_digits(hash@.take(i as int)),
        decreases hash.len() - i,
    {
        let c = hash[i];
        assert(hash@.take(i + 1) =~= hash@.take(i as int).push(c));
        all = all && '0' <= c && c <= '9';
        assert(all == all_digits(hash@.take(i + 1))) by {
            let t = hash@.take(i + 1);
            if all_digits(t) {
                assert forall|k: int| 0 <= k < i implies is_digit(#[trigger] hash@.take(i as int)[k]) by {
                    assert(t[k] == hash@.take(i as int)[k]);
                }
                assert(is_digit(t[i as int]));
            }
        }
        i += 1;
    }
    assert(hash@.take(hash.len() as int) =~= hash@);
    if all {
        None
    } else {
        Some(string_of(hash.as_slice()))
    }
}

/// What one line of `tetra-core`'s `lib.rs` says of the release line: nothing (go on to the
/// next line), a value, or a `BOST_VERSION` line without `=` (the search stops empty-handed).
pub open spec fn bost_line(line: Seq<char>) -> Option<Option<Seq<char>>> {
    let t = trim(line);
    if !starts_with(t, "pub const BOST_VERSION"@) {
        None
    } else if !has_char(t, '=') {
        Some(None)
    } else {
        let rest = trim(trim_end_char(trim(before_char(after_char(t, '='), '=')), ';'));
        let v = trim(trim_matches(trim_matches(rest, '"'), '\''));
        if v.len() > 0 {
            Some(Some(v))
        } else {
            None
        }
    }
}

/// The first value found by [`bost_line`] in `ls`.
pub open spec fn bost_scan(ls: Seq<Seq<char>>) -> Option<Seq<char>>
    decreases ls.len(),
{
    if ls.len() == 0 {
        None
    } else {
        match bost_line(ls[0]) {
            None => bost_scan(ls.drop_first()),
            Some(r) => r,
        }
    }
}

/// The `BOST_VERSION` value declared in the text of `tetra-core`'s `lib.rs`.
pub fn parse_bost_version_from_lib_rs(src: &str) -> (r: Option<String>)
    ensures
        opt_view(r) == bost_scan(lines(src@)),
{
    let ls = split_lines(chars_of(src).as_slice());
    let key = chars_of("pub const BOST_VERSION");
    let mut i: usize = 0;
    assert(lines(src@).skip(0) =~= lines(src@));
    while i < ls.len()
        invariant
            i <= ls.len(),
            views(ls@) == lines(src@),
            key@ == "pub const BOST_VERSION"@,
            bost_scan(lines(src@)) == bost_scan(lines(src@).skip(i as int)),
        decreases ls.len() - i,
    {
        assert(lines(src@).skip(i as int)[0] == ls@[i as int]@);
        assert(lines(src@).skip(i as int).drop_first() =~= lines(src@).skip(i + 1));
        let t = trim_exec(ls[i].as_slice());
        if starts_with_exec(t.as_slice(), key.as_slice()) {
            if find_char(t.as_slice(), '=').is_none() {
                return None;
            }
            let piece = before_char_exec(after_char_exec(t.as_slice(), '=').as_slice(), '=');
            let rest = trim_exec(piece.as_slice());
            let rest = trim_end_char_exec(rest.as_slice(), ';');
            let rest = trim_exec(rest.as_slice());
            let v = trim_matches_exec(rest.as_slice(), '"');
            let v = trim_matches_exec(v.as_slice(), '\'');
            let v = trim_exec(v.as_slice());
            if v.len() > 0 {
                return Some(string_of(v.as_slice()));
            }
        }
        i += 1;
    }
    None
}

/// Longest commit title kept, in characters.
pub const COMMIT_TITLE_MAX: usize = 160;

/// The first line of a commit message, trimmed and cut to 160 characters.
pub open spec fn spec_commit_title(message: Seq<char>) -> Seq<char> {
    let first = if lines(message).len() > 0 {
        lines(message)[0]
    } else {
        Seq::empty()
    };
    let t = trim(first);
    if t.len() > COMMIT_TITLE_MAX {
        t.take(COMMIT_TITLE_MAX as int)
    } else {
        t
    }
}

/// The first line of a commit message, trimmed and cut to 160 characters.
pub fn commit_title(message: &str) -> (r: String)
    ensures
        r@ == spec_commit_title(message@),
{
    let ls = split_lines(chars_of(message).as_slice());
    let first: Vec<char> = if ls.len() > 0 {
        crate::text::copy_chars(ls[0].as_slice())
    } else {
        Vec::new()
    };
    assert(ls.len() > 0 ==> ls@[0]@ == lines(message@)[0]);
    let t = trim_exec(first.as_slice());
    let cut = if t.len() > COMMIT_TITLE_MAX {
        crate::text::copy_slice(t.as_slice(), 0, COMMIT_TITLE_MAX)
    } else {
        t
    };
    string_of(cut.as_slice())
}

/// A CHANGELOG section: its version and its trimmed text.
pub type Section = (SemVer, Seq<char>);

/// Characters stripped from both ends of a heading's version token.
pub open spec fn is_token_trim(c: char) -> bool {
    c == '[' || c == ']' || c == ',' || c == ':'
}

/// `s` without leading and trailing `[`, `]`, `,` and `:`.
pub open spec fn trim_token(s: Seq<char>) -> Seq<char>
    decreases s.len(),
{
    if s.len() > 0 && is_token_trim(s[0]) {
        trim_token(s.drop_first())
    } else if s.len() > 0 && is_token_trim(s.last()) {
        trim_token(s.drop_last())
    } else {
        s
    }
}

/// The part of `s` before its first whitespace character.
pub open spec fn before_ws(s: Seq<char>) -> Seq<char>
    decreases s.len(),
{
    if s.len() == 0 || is_ws(s[0]) {
        Seq::empty()
    } else {
        seq![s[0]] + before_ws(s.drop_first())
    }
}

/// The first whitespace-separated token of `s` (empty when there is none).
pub open spec fn first_token(s: Seq<char>) -> Seq<char> {
    before_ws(trim_start(s))
}

/// Scan state: finished sections, the version of the open section, its body so far.
pub type ChangelogScan = (Seq<Section>, Option<SemVer>, Seq<char>);

/// Close the open section: it is kept when its trimmed body is not empty.
pub open spec fn cl_flush(st: ChangelogScan) -> ChangelogScan {
    match st.1 {
        Some(v) => {
            let text = trim(st.2);
            (if text.len() > 0 {
                st.0.push((v, text))
            } else {
                st.0
            }, None, Seq::empty())
        },
        None => (st.0, None, Seq::empty()),
    }
}

/// One line of the CHANGELOG: a `## ` heading closes the open section and opens one for
/// the version its first token names (none if it names none); other lines go into the
/// open section's body.
pub open spec fn cl_step(st: ChangelogScan, line: Seq<char>) -> ChangelogScan {
    let t = trim_start(line);
    if starts_with(t, "## "@) {
        (cl_flush(st).0, spec_parse_semver(trim_token(first_token(t.skip(3)))), Seq::empty())
    } else if st.1 is Some {
        (st.0, st.1, if st.2.len() > 0 {
            st.2 + seq!['\n'] + line
        } else {
            line
        })
    } else {
        st
    }
}

/// The scan state after the lines `ls`.
pub open spec fn cl_scan(ls: Seq<Seq<char>>) -> ChangelogScan
    decreases ls.len(),
{
    if ls.len() == 0 {
        (Seq::empty(), None, Seq::empty())
    } else {
        cl_step(cl_scan(ls.drop_last()), ls.last())
    }
}

/// The versioned sections of a CHANGELOG with a non-empty body, in file order.
pub open spec fn spec_changelog_sections(md: Seq<char>) -> Seq<Section> {
    cl_flush(cl_scan(lines(md))).0
}

/// The views of sections held as character vectors.
pub open spec fn sec_views(v: Seq<(SemVer, Vec<char>)>) -> Seq<Section> {
    v.map_values(|p: (SemVer, Vec<char>)| (p.0, p.1@))
}

/// The views of sections held as strings.
pub open spec fn sec_string_views(v: Seq<(SemVer, String)>) -> Seq<Section> {
    v.map_values(|p: (SemVer, String)| (p.0, p.1@))
}

/// `before_ws` of a slice.
fn before_ws_exec(s: &[char]) -> (r: Vec<char>)
    ensures
        r@ == before_ws(s@),
{
    let mut r: Vec<char> = Vec::new();
    let mut i: usize = 0;
    assert(s@.skip(0) =~= s@);
    assert(Seq::<char>::empty() + before_ws(s@) =~= before_ws(s@));
    while i < s.len() && !is_ws_char(s[i])
        invariant
            i <= s.len(),
            before_ws(s@) == r@ + before_ws(s@.skip(i as int)),
        decreases s.len() - i,
    {
        assert(s@.skip(i as int).drop_first() =~= s@.skip(i + 1));
        assert(r@ + (seq![s@[i as int]] + before_ws(s@.skip(i + 1))) =~= r@.push(s@[i as int])
            + before_ws(s@.skip(i + 1)));
        r.push(s[i]);
        i += 1;
    }
    assert(before_ws(s@.skip(i as int)) =~= Seq::<char>::empty());
    assert(r@ + Seq::<char>::empty() =~= r@);
    r
}

/// `trim_token` of a slice.
fn trim_token_exec(s: &[char]) -> (r: Vec<char>)
    ensures
        r@ == trim_token(s@),
{
    let mut lo: usize = 0;
    let mut hi: usize = s.len();
    assert(s@.subrange(0, s.len() as int) =~= s@);
    while lo < hi && (s[lo] == '[' || s[lo] == ']' || s[lo] == ',' || s[lo] == ':')
        invariant
            lo <= hi <= s.len(),
            hi == s.len(),
            trim_token(s@) == trim_token(s@.subrange(lo as int, hi as int)),
        decreases hi - lo,
    {
        assert(s@.subrange(lo as int, hi as int).drop_first() =~= s@.subrange(lo + 1, hi as int));
        lo += 1;
    }
    while lo < hi && (s[hi - 1] == '[' || s[hi - 1] == ']' || s[hi - 1] == ',' || s[hi - 1] == ':')
        invariant
            lo <= hi <= s.len(),
            lo == hi || !is_token_trim(s@[lo as int]),
            trim_token(s@) == trim_token(s@.subrange(lo as int, hi as int)),
        decreases hi - lo,
    {
        assert(s@.subrange(lo as int, hi as int).drop_last() =~= s@.subrange(lo as int, hi - 1));
        hi -= 1;
    }
    crate::text::copy_slice(s, lo, hi)
}

/// Close the open section (see [`cl_flush`]).
fn flush_section(secs: &mut Vec<(SemVer, Vec<char>)>, cur: &mut Option<SemVer>, body: &mut Vec<char>)
    ensures
        (sec_views(final(secs)@), *final(cur), final(body)@) == cl_flush(
            (sec_views(old(secs)@), *old(cur), old(body)@),
        ),
{
    if let Some(v) = *cur {
        let text = trim_exec(body.as_slice());
        if text.len() > 0 {
            secs.push((v, text));
            assert(sec_views(secs@) =~= sec_views(old(secs)@).push((v, trim(old(body)@))));
        }
    }
    *cur = None;
    *body = Vec::new();
}

/// The sections of a CHANGELOG, as character vectors.
fn changelog_sections_chars(md: &str) -> (r: Vec<(SemVer, Vec<char>)>)
    ensures
        sec_views(r@) == spec_changelog_sections(md@),
{
    let ls = split_lines(chars_of(md).as_slice());
    let hdr = chars_of("## ");
    proof {
        reveal_strlit("## ");
    }
    let mut secs: Vec<(SemVer, Vec<char>)> = Vec::new();
    let mut cur: Option<SemVer> = None;
    let mut body: Vec<char> = Vec::new();
    let mut i: usize = 0;
    assert(sec_views(secs@) =~= Seq::<Section>::empty());
    assert(lines(md@).take(0) =~= Seq::<Seq<char>>::empty());
    while i < ls.len()
        invariant
            i <= ls.len(),
            views(ls@) == lines(md@),
            hdr@ == "## "@,
            hdr@.len() == 3,
            (sec_views(secs@), cur, body@) == cl_scan(lines(md@).take(i as int)),
        decreases ls.len() - i,
    {
        let ghost pre = lines(md@).take(i as int);
        assert(lines(md@).take(i + 1).drop_last() =~= pre);
        assert(lines(md@).take(i + 1).last() == ls@[i as int]@);
        let line = ls[i].as_slice();
        let t = trim_start_exec(line);
        if starts_with_exec(t.as_slice(), hdr.as_slice()) {
            flush_section(&mut secs, &mut cur, &mut body);
            let rest = crate::text::copy_slice(t.as_slice(), 3, t.len());
            assert(rest@ =~= t@.skip(3));
            let tok = trim_token_exec(before_ws_exec(trim_start_exec(rest.as_slice()).as_slice()).as_slice());
            cur = SemVer::parse_chars(tok.as_slice());
        } else if cur.is_some() {
            let ghost b0 = body@;
            if body.len() > 0 {
                body.push('\n');
            }
            append_chars(&mut body, line);
            proof {
                if b0.len() > 0 {
                    assert(body@ =~= b0 + seq!['\n'] + line@);
                } else {
                    assert(body@ =~= line@);
                }
            }
        }
        i += 1;
    }
    assert(lines(md@).take(ls.len() as int) =~= lines(md@));
    flush_section(&mut secs, &mut cur, &mut body);
    secs
}

/// Parse `## v0.1.54` / `## [0.1.54] - date` headings and collect each body up to the next
/// `## `; sections whose heading names no version, or whose body is blank, are dropped.
pub fn parse_changelog_sections(md: &str) -> (r: Vec<(SemVer, String)>)
    ensures
        sec_string_views(r@) == spec_changelog_sections(md@),
{
    let secs = changelog_sections_chars(md);
    let mut out: Vec<(SemVer, String)> = Vec::new();
    let mut i: usize = 0;
    while i < secs.len()
        invariant
            i <= secs.len(),
            sec_string_views(out@) == sec_views(secs@).take(i as int),
        decreases secs.len() - i,
    {
        let ghost prev = out@;
        let text = string_of(secs[i].1.as_slice());
        out.push((secs[i].0, text));
        assert(sec_string_views(out@) =~= sec_string_views(prev).push((secs@[i as int].0, secs@[i as int].1@)));
        assert(sec_views(secs@).take(i + 1) =~= sec_views(secs@).take(i as int).push((secs@[i as int].0, secs@[i as int].1@)));
        i += 1;
    }
    assert(sec_views(secs@).take(secs.len() as int) =~= sec_views(secs@));
    out
}

/// A section belongs in the notes for an update to `remote`: not newer than `remote`, and
/// newer than `local` (or, with no local version, exactly `remote`).
pub open spec fn keep_section(v: SemVer, local: Option<SemVer>, remote: SemVer) -> bool {
    &&& !semver_gt(v, remote)
    &&& match local {
        Some(l) => semver_gt(v, l),
        None => v == remote,
    }
}

/// The sections kept for the notes, in file order.
pub open spec fn select_sections(secs: Seq<Section>, local: Option<SemVer>, remote: SemVer) -> Seq<
    Section,
>
    decreases secs.len(),
{
    if secs.len() == 0 {
        Seq::empty()
    } else {
        let r = select_sections(secs.drop_last(), local, remote);
        if keep_section(secs.last().0, local, remote) {
            r.push(secs.last())
        } else {
            r
        }
    }
}

/// `x` placed into `sorted` (newest first) after every section at least as new.
pub open spec fn insert_desc(sorted: Seq<Section>, x: Section) -> Seq<Section>
    decreases sorted.len(),
{
    if sorted.len() == 0 {
        seq![x]
    } else if semver_gt(x.0, sorted.last().0) {
        insert_desc(sorted.drop_last(), x).push(sorted.last())
    } else {
        sorted.push(x)
    }
}

/// Stable sort, newest version first: sections of equal version keep their file order.
pub open spec fn sort_desc(s: Seq<Section>) -> Seq<Section>
    decreases s.len(),
{
    if s.len() == 0 {
        Seq::empty()
    } else {
        insert_desc(sort_desc(s.drop_last()), s.last())
    }
}

/// One section of the notes: `## vM.m.p`, a newline, and its text.
pub open spec fn section_note(x: Section) -> Seq<char> {
    "## v"@ + semver_text(x.0) + seq!['\n'] + trim(x.1)
}

/// The notes of the sections, separated by a blank line.
pub open spec fn notes_text(s: Seq<Section>) -> Seq<char>
    decreases s.len(),
{
    if s.len() == 0 {
        Seq::empty()
    } else if s.len() == 1 {
        section_note(s[0])
    } else {
        notes_text(s.drop_last()) + "\n\n"@ + section_note(s.last())
    }
}

/// Release notes from a CHANGELOG: the sections with `local < v <= remote`, newest first;
/// none when there is no remote version or no such section.
pub open spec fn spec_notes_from_changelog(md: Seq<char>, local: Option<SemVer>, remote: Option<SemVer>) -> Option<
    Seq<char>,
> {
    match remote {
        None => None,
        Some(r) => {
            let sel = select_sections(spec_changelog_sections(md), local, r);
            if sel.len() == 0 {
                None
            } else {
                Some(notes_text(sort_desc(sel)))
            }
        },
    }
}

/// Newest version first: no section is newer than one before it.
pub open spec fn newest_first(s: Seq<Section>) -> bool {
    forall|i: int, j: int| 0 <= i < j < s.len() ==> !semver_gt(#[trigger] s[j].0, #[trigger] s[i].0)
}

proof fn lemma_insert_desc(s: Seq<Section>, x: Section)
    requires
        newest_first(s),
    ensures
        newest_first(insert_desc(s, x)),
        insert_desc(s, x).to_multiset() =~= s.to_multiset().insert(x),
    decreases s.len(),
{
    broadcast use vstd::seq_lib::group_to_multiset_ensures;
    if s.len() == 0 {
        assert(seq![x] =~= Seq::<Section>::empty().push(x));
    } else if semver_gt(x.0, s.last().0) {
        let d = s.drop_last();
        let l = s.last();
        assert(newest_first(d)) by {
            assert forall|i: int, j: int| 0 <= i < j < d.len() implies !semver_gt(#[trigger] d[j].0, #[trigger] d[i].0) by {
                assert(d[i] == s[i] && d[j] == s[j]);
            }
        }
        lemma_insert_desc(d, x);
        let r1 = insert_desc(d, x);
        let r = r1.push(l);
        assert forall|i: int, j: int| 0 <= i < j < r.len() implies !semver_gt(#[trigger] r[j].0, #[trigger] r[i].0) by {
            if j == r.len() - 1 {
                assert(r[j] == l);
                assert(r[i] == r1[i]);
                assert(r1.contains(r1[i]));
                assert(r1.to_multiset().count(r1[i]) > 0);
                if r1[i] != x {
                    assert(d.to_multiset().count(r1[i]) > 0);
                    assert(d.contains(r1[i]));
                    let k = choose|k: int| 0 <= k < d.len() && d[k] == r1[i];
                    assert(s[k] == d[k]);
                    assert(!semver_gt(s[s.len() - 1].0, s[k].0));
                }
            } else {
                assert(r[i] == r1[i] && r[j] == r1[j]);
            }
        }
        assert(s =~= d.push(l));
    } else {
        assert forall|i: int, j: int| 0 <= i < j < s.push(x).len() implies !semver_gt(#[trigger] s.push(x)[j].0, #[trigger] s.push(x)[i].0) by {
            if j == s.len() {
                assert(s.push(x)[i] == s[i]);
                if i < s.len() - 1 {
                    assert(!semver_gt(s[s.len() - 1].0, s[i].0));
                }
            } else {
                assert(s.push(x)[i] == s[i] && s.push(x)[j] == s[j]);
            }
        }
    }
}

proof fn lemma_sort_desc(s: Seq<Section>)
    ensures
        newest_first(sort_desc(s)),
        sort_desc(s).to_multiset() =~= s.to_multiset(),
    decreases s.len(),
{
    broadcast use vstd::seq_lib::group_to_multiset_ensures;
    if s.len() > 0 {
        lemma_sort_desc(s.drop_last());
        lemma_insert_desc(sort_desc(s.drop_last()), s.last());
        assert(s =~= s.drop_last().push(s.last()));
    } else {
        assert(s.to_multiset() =~= vstd::multiset::Multiset::<Section>::empty());
        assert(Seq::<Section>::empty().to_multiset() =~= vstd::multiset::Multiset::<Section>::empty());
    }
}

proof fn lemma_select_sections_kept(secs: Seq<Section>, local: Option<SemVer>, remote: SemVer)
    ensures
        forall|i: int| 0 <= i < select_sections(secs, local, remote).len()
            ==> keep_section(#[trigger] select_sections(secs, local, remote)[i].0, local, remote),
    decreases secs.len(),
{
    if secs.len() > 0 {
        lemma_select_sections_kept(secs.drop_last(), local, remote);
        let r = select_sections(secs.drop_last(), local, remote);
        let out = select_sections(secs, local, remote);
        assert forall|i: int| 0 <= i < out.len() implies keep_section(#[trigger] out[i].0, local, remote) by {
            if i < r.len() {
                assert(out[i] == r[i]);
            }
        }
    }
}

/// Release notes list the CHANGELOG sections in the update's range, newest first: the
/// sections rendered are exactly those with `local < v <= remote` (each once, as often as
/// the file has it), ordered so that none is newer than one before it.
pub proof fn lemma_notes_newest_first(md: Seq<char>, local: Option<SemVer>, remote: SemVer)
    ensures
        ({
            let sel = select_sections(spec_changelog_sections(md), local, remote);
            let shown = sort_desc(sel);
            &&& newest_first(shown)
            &&& shown.to_multiset() =~= sel.to_multiset()
            &&& forall|i: int| 0 <= i < shown.len() ==> keep_section(#[trigger] shown[i].0, local, remote)
            &&& spec_notes_from_changelog(md, local, Some(remote)) == if sel.len() == 0 {
                None
            } else {
                Some(notes_text(shown))
            }
        }),
{
    broadcast use vstd::seq_lib::group_to_multiset_ensures;
    let sel = select_sections(spec_changelog_sections(md), local, remote);
    lemma_sort_desc(sel);
    lemma_select_sections_kept(spec_changelog_sections(md), local, remote);
    let shown = sort_desc(sel);
    assert forall|i: int| 0 <= i < shown.len() implies keep_section(#[trigger] shown[i].0, local, remote) by {
        assert(shown.contains(shown[i]));
        assert(sel.to_multiset().count(shown[i]) > 0);
        assert(sel.contains(shown[i]));
    }
}

/// `insert_desc` puts `x` at the first position `j` from which on every section is older.
proof fn lemma_insert_desc_at(s: Seq<Section>, x: Section, j: int)
    requires
        0 <= j <= s.len(),
        forall|k: int| j <= k < s.len() ==> semver_gt(x.0, #[trigger] s[k].0),
        j == 0 || !semver_gt(x.0, s[j - 1].0),
    ensures
        insert_desc(s, x) == s.take(j).push(x) + s.skip(j),
    decreases s.len(),
{
    if s.len() == 0 {
        assert(s.take(j).push(x) + s.skip(j) =~= seq![x]);
    } else if semver_gt(x.0, s.last().0) {
        assert(j < s.len());
        let d = s.drop_last();
        assert forall|k: int| j <= k < d.len() implies semver_gt(x.0, #[trigger] d[k].0) by {
            assert(d[k] == s[k]);
        }
        lemma_insert_desc_at(d, x, j);
        assert((d.take(j).push(x) + d.skip(j)).push(s.last()) =~= s.take(j).push(x) + s.skip(j));
    } else {
        assert(j == s.len()) by {
            if j < s.len() {
                assert(semver_gt(x.0, s[s.len() - 1].0));
            }
        }
        assert(s.take(j).push(x) + s.skip(j) =~= s.push(x));
    }
}

/// Sections with version `local < v <= remote`, newest first, as release notes.
pub fn notes_from_changelog(md: &str, local: Option<SemVer>, remote: Option<SemVer>) -> (r: Option<
    String,
>)
    ensures
        opt_view(r) == spec_notes_from_changelog(md@, local, remote),
{
    let remote = match remote {
        Some(v) => v,
        None => return None,
    };
    let secs = changelog_sections_chars(md);
    let ghost all = sec_views(secs@);
    // Select, in file order.
    let mut sel: Vec<(SemVer, Vec<char>)> = Vec::new();
    let mut i: usize = 0;
    assert(all.take(0) =~= Seq::<Section>::empty());
    assert(sec_views(sel@) =~= Seq::<Section>::empty());
    while i < secs.len()
        invariant
            i <= secs.len(),
            all == sec_views(secs@),
            sec_views(sel@) == select_sections(all.take(i as int), local, remote),
        decreases secs.len() - i,
    {
        assert(all.take(i + 1).drop_last() =~= all.take(i as int));
        assert(all.take(i + 1).last() == (secs@[i as int].0, secs@[i as int].1@));
        let v = secs[i].0;
        let keep = !v.is_newer_than(&remote) && match local {
            Some(l) => v.is_newer_than(&l),
            None => v == remote,
        };
        if keep {
            let ghost prev = sel@;
            sel.push((v, crate::text::copy_chars(secs[i].1.as_slice())));
            assert(sec_views(sel@) =~= sec_views(prev).push((v, secs@[i as int].1@)));
        }
        i += 1;
    }
    assert(all.take(secs.len() as int) =~= all);
    if sel.len() == 0 {
        return None;
    }
    // Stable insertion sort, newest first.
    let ghost sv = sec_views(sel@);
    let mut sorted: Vec<(SemVer, Vec<char>)> = Vec::new();
    let mut n: usize = 0;
    assert(sv.take(0) =~= Seq::<Section>::empty());
    assert(sec_views(sorted@) =~= Seq::<Section>::empty());
    while n < sel.len()
        invariant
            n <= sel.len(),
            sv == sec_views(sel@),
            sec_views(sorted@) == sort_desc(sv.take(n as int)),
        decreases sel.len() - n,
    {
        assert(sv.take(n + 1).drop_last() =~= sv.take(n as int));
        let x = (sel[n].0, crate::text::copy_chars(sel[n].1.as_slice()));
        let ghost xv = (x.0, x.1@);
        assert(sv.take(n + 1).last() == xv);
        let ghost cur = sec_views(sorted@);
        let mut j: usize = sorted.len();
        while j > 0 && x.0.is_newer_than(&sorted[j - 1].0)
            invariant
                j <= sorted.len(),
                cur == sec_views(sorted@),
                xv.0 == x.0,
                forall|k: int| j <= k < cur.len() ==> semver_gt(xv.0, #[trigger] cur[k].0),
            decreases j,
        {
            assert(cur[j - 1].0 == sorted@[j - 1].0);
            j -= 1;
        }
        proof {
            lemma_insert_desc_at(cur, xv, j as int);
        }
        sorted.insert(j, x);
        assert(sec_views(sorted@) =~= cur.take(j as int).push(xv) + cur.skip(j as int));
        n += 1;
    }
    assert(sv.take(sel.len() as int) =~= sv);
    // Format.
    let ghost ss = sec_views(sorted@);
    let mut out: Vec<char> = Vec::new();
    let mut k: usize = 0;
    assert(ss.take(0) =~= Seq::<Section>::empty());
    while k < sorted.len()
        invariant
            k <= sorted.len(),
            ss == sec_views(sorted@),
            out@ == notes_text(ss.take(k as int)),
        decreases sorted.len() - k,
    {
        let ghost before = out@;
        assert(ss.take(k + 1).drop_last() =~= ss.take(k as int));
        assert(ss.take(k + 1).last() == (sorted@[k as int].0, sorted@[k as int].1@));
        if k > 0 {
            push_lit(&mut out, "\n\n");
        }
        push_lit(&mut out, "## v");
        let ver = sorted[k].0.display();
        append_chars(&mut out, chars_of(ver.as_str()).as_slice());
        out.push('\n');
        let text = trim_exec(sorted[k].1.as_slice());
        append_chars(&mut out, text.as_slice());
        proof {
            let x = (sorted@[k as int].0, sorted@[k as int].1@);
            if k > 0 {
                assert(out@ =~= before + "\n\n"@ + section_note(x));
            } else {
                assert(out@ =~= section_note(x));
            }
        }
        k += 1;
    }
    assert(ss.take(sorted.len() as int) =~= ss);
    Some(string_of(out.as_slice()))
}

/// The first eight characters of a commit hash (all of it when shorter).
pub open spec fn short_sha(sha: Seq<char>) -> Seq<char> {
    if sha.len() > 8 {
        sha.take(8)
    } else {
        sha
    }
}

/// The branch tip `sha` is another commit than the local build `local`: neither hash is a
/// prefix of the other (the tip compared by its first eight characters). Without a local
/// hash no update is claimed.
pub open spec fn spec_branch_update_available(sha: Seq<char>, local: Option<Seq<char>>) -> bool {
    match local {
        Some(l) => !starts_with(sha, l) && !starts_with(l, short_sha(sha)),
        None => false,
    }
}

/// Whether the branch tip `sha` differs from the local build (see
/// [`spec_branch_update_available`]).
pub fn branch_update_available(sha: &str, local: Option<&str>) -> (r: bool)
    ensures
        r == spec_branch_update_available(sha@, match local {
            Some(l) => Some(l@),
            None => None,
        }),
{
    match local {
        Some(l) => {
            let s = chars_of(sha);
            let lc = chars_of(l);
            let short = if s.len() > 8 {
                crate::text::copy_slice(s.as_slice(), 0, 8)
            } else {
                crate::text::copy_chars(s.as_slice())
            };
            !starts_with_exec(s.as_slice(), lc.as_slice()) && !starts_with_exec(
                lc.as_slice(),
                short.as_slice(),
            )
        },
        None => false,
    }
}

/// `s` trimmed, or nothing when that is empty.
pub open spec fn spec_nonblank(s: Seq<char>) -> Option<Seq<char>> {
    if trim(s).len() > 0 {
        Some(trim(s))
    } else {
        None
    }
}

/// `s` trimmed, or `None` when that is empty (how a release body is taken).
pub fn nonblank_trimmed(s: &str) -> (r: Option<String>)
    ensures
        opt_view(r) == spec_nonblank(s@),
{
    let t = trim_exec(chars_of(s).as_slice());
    if t.len() > 0 {
        Some(string_of(t.as_slice()))
    } else {
        None
    }
}

/// The release tag of a version: the version itself when it starts with `v` or `V`, else
/// with `v` in front.
pub open spec fn spec_release_tag(version: Seq<char>) -> Seq<char> {
    if version.len() > 0 && (version[0] == 'v' || version[0] == 'V') {
        version
    } else {
        seq!['v'] + version
    }
}

/// The release tag of a version.
pub fn release_tag(version: &str) -> (r: String)
    ensures
        r@ == spec_release_tag(version@),
{
    let v = chars_of(version);
    if v.len() > 0 && (v[0] == 'v' || v[0] == 'V') {
        string_of(v.as_slice())
    } else {
        let mut t: Vec<char> = Vec::new();
        t.push('v');
        append_chars(&mut t, v.as_slice());
        assert(t@ =~= seq!['v'] + version@);
        string_of(t.as_slice())
    }
}

/// One commit of the compare API, as the `(sha, message)` it reports.
pub type CommitInfo = (Seq<char>, Seq<char>);

/// Most commits listed in the technical changelog.
pub const CHANGELOG_LIMIT: usize = 10;

/// The first eight characters of a commit hash (all of it when shorter), as listed.
pub open spec fn sha8(sha: Seq<char>) -> Seq<char> {
    short_sha(sha)
}

/// The changelog entries of `cs` (newest commit last, as the API lists them): the last
/// ten commits, newest first, each as its 8-character hash and its title; commits whose
/// title is blank are left out.
pub open spec fn commit_entries(cs: Seq<CommitInfo>) -> Seq<(Seq<char>, Seq<char>)> {
    let newest = cs.reverse();
    let window = if newest.len() > CHANGELOG_LIMIT {
        newest.take(CHANGELOG_LIMIT as int)
    } else {
        newest
    };
    entries_of(window)
}

/// The entries of `w`, in order, without the commits whose title is blank.
pub open spec fn entries_of(w: Seq<CommitInfo>) -> Seq<(Seq<char>, Seq<char>)>
    decreases w.len(),
{
    if w.len() == 0 {
        Seq::empty()
    } else {
        let r = entries_of(w.drop_last());
        let title = spec_commit_title(w.last().1);
        if title.len() == 0 {
            r
        } else {
            r.push((sha8(w.last().0), title))
        }
    }
}

/// The views of changelog entries.
pub open spec fn entry_views(v: Seq<ChangelogEntry>) -> Seq<(Seq<char>, Seq<char>)> {
    v.map_values(|e: ChangelogEntry| (e.sha@, e.title@))
}

/// The views of compare-API commits.
pub open spec fn commit_views(v: Seq<(String, String)>) -> Seq<CommitInfo> {
    v.map_values(|c: (String, String)| (c.0@, c.1@))
}

/// The technical changelog from a compare-API answer (`None` when the request or its
/// JSON failed) and whether it is truncated: a failed request and a list left empty both
/// count as truncated.
pub fn changelog_from_commits(commits: Option<Vec<(String, String)>>) -> (r: (Vec<ChangelogEntry>, bool))
    ensures
        match commits {
            None => r.0@.len() == 0 && r.1,
            Some(cs) => entry_views(r.0@) == commit_entries(commit_views(cs@)) && r.1 == (
            r.0@.len() == 0),
        },
{
    let cs = match commits {
        Some(cs) => cs,
        None => return (Vec::new(), true),
    };
    let ghost all = commit_views(cs@);
    let ghost newest = all.reverse();
    let ghost window = if newest.len() > CHANGELOG_LIMIT {
        newest.take(CHANGELOG_LIMIT as int)
    } else {
        newest
    };
    let n: usize = if cs.len() > CHANGELOG_LIMIT {
        CHANGELOG_LIMIT
    } else {
        cs.len()
    };
    assert(window.len() == n);
    let mut entries: Vec<ChangelogEntry> = Vec::new();
    let mut i: usize = 0;
    assert(window.take(0) =~= Seq::<CommitInfo>::empty());
    assert(entry_views(entries@) =~= Seq::<(Seq<char>, Seq<char>)>::empty());
    while i < n
        invariant
            i <= n <= cs.len(),
            all == commit_views(cs@),
            newest == all.reverse(),
            window.len() == n,
            forall|k: int| 0 <= k < n ==> #[trigger] window[k] == newest[k],
            entry_views(entries@) == entries_of(window.take(i as int)),
        decreases n - i,
    {
        let c = &cs[cs.len() - 1 - i];
        assert(window[i as int] == (c.0@, c.1@));
        assert(window.take(i + 1).drop_last() =~= window.take(i as int));
        let sha = chars_of(c.0.as_str());
        let sha8v = if sha.len() > 8 {
            crate::text::copy_slice(sha.as_slice(), 0, 8)
        } else {
            sha
        };
        let title = commit_title(c.1.as_str());
        if title.as_str().unicode_len() > 0 {
            let ghost prev = entries@;
            entries.push(ChangelogEntry { sha: string_of(sha8v.as_slice()), title });
            assert(entry_views(entries@) =~= entry_views(prev).push(
                (sha8(c.0@), spec_commit_title(c.1@)),
            ));
        }
        i += 1;
    }
    assert(window.take(n as int) =~= window);
    let truncated = entries.len() == 0;
    (entries, truncated)
}

/// Release notes from the commit list: `- title (sha)` per entry, one per line; none for
/// an empty list.
pub open spec fn spec_commit_notes(es: Seq<(Seq<char>, Seq<char>)>) -> Option<Seq<char>> {
    if es.len() == 0 {
        None
    } else {
        Some(commit_lines(es))
    }
}

/// `- title (sha)` per entry, joined with newlines.
pub open spec fn commit_lines(es: Seq<(Seq<char>, Seq<char>)>) -> Seq<char>
    decreases es.len(),
{
    if es.len() == 0 {
        Seq::empty()
    } else if es.len() == 1 {
        commit_line(es[0])
    } else {
        commit_lines(es.drop_last()) + seq!['\n'] + commit_line(es.last())
    }
}

/// `- title (sha)`.
pub open spec fn commit_line(e: (Seq<char>, Seq<char>)) -> Seq<char> {
    "- "@ + e.1 + " ("@ + e.0 + ")"@
}

/// Release notes from the commit list (see [`spec_commit_notes`]).
pub fn commit_notes(commits: &Vec<ChangelogEntry>) -> (r: Option<String>)
    ensures
        opt_view(r) == spec_commit_notes(entry_views(commits@)),
{
    if commits.len() == 0 {
        return None;
    }
    let ghost ev = entry_views(commits@);
    let mut out: Vec<char> = Vec::new();
    let mut i: usize = 0;
    assert(ev.take(0) =~= Seq::<(Seq<char>, Seq<char>)>::empty());
    while i < commits.len()
        invariant
            i <= commits.len(),
            ev == entry_views(commits@),
            out@ == commit_lines(ev.take(i as int)),
        decreases commits.len() - i,
    {
        let ghost before = out@;
        assert(ev.take(i + 1).drop_last() =~= ev.take(i as int));
        assert(ev.take(i + 1).last() == (commits@[i as int].sha@, commits@[i as int].title@));
        let nonempty = i > 0;
        if nonempty {
            out.push('\n');
        }
        push_lit(&mut out, "- ");
        append_chars(&mut out, chars_of(commits[i].title.as_str()).as_slice());
        push_lit(&mut out, " (");
        append_chars(&mut out, chars_of(commits[i].sha.as_str()).as_slice());
        push_lit(&mut out, ")");
        proof {
            let e = (commits@[i as int].sha@, commits@[i as int].title@);
            if nonempty {
                assert(out@ =~= before + seq!['\n'] + commit_line(e));
            } else {
                assert(out@ =~= commit_line(e));
            }
        }
        i += 1;
    }
    assert(ev.take(commits.len() as int) =~= ev);
    Some(string_of(out.as_slice()))
}

/// The notes shown with an update, by preference: CHANGELOG sections, then the release
/// body, then the commit list.
pub open spec fn spec_pick_notes(
    changelog: Option<Seq<char>>,
    release: Option<Seq<char>>,
    commits: Option<Seq<char>>,
) -> (Option<Seq<char>>, NotesSource) {
    if changelog is Some {
        (changelog, NotesSource::Changelog)
    } else if release is Some {
        (release, NotesSource::Release)
    } else if commits is Some {
        (commits, NotesSource::Commits)
    } else {
        (None, NotesSource::Empty)
    }
}

/// The next move in gathering release notes for an update.
#[derive(Debug)]
pub enum NotesStep {
    /// Fetch the branch's `CHANGELOG.md`.
    FetchChangelog,
    /// Fetch the body of the GitHub release of `version`.
    FetchRelease { version: String },
    /// The notes, and where they came from.
    Done { notes: Option<String>, source: NotesSource },
}

/// An optional optional text, viewed.
pub open spec fn opt_opt_view(o: Option<Option<String>>) -> Option<Option<Seq<char>>> {
    match o {
        Some(a) => Some(opt_view(a)),
        None => None,
    }
}

/// The version a remote version text names, if any.
pub open spec fn opt_semver(v: Option<Seq<char>>) -> Option<SemVer> {
    match v {
        Some(t) => spec_parse_semver(t),
        None => None,
    }
}

/// The notes step is `Done` with these notes and source.
pub open spec fn notes_done(r: NotesStep, n: (Option<Seq<char>>, NotesSource)) -> bool {
    r matches NotesStep::Done { notes, source } && opt_view(notes) == n.0 && source == n.1
}

/// Gathering release notes, given what was fetched so far (`None`: not asked yet;
/// `Some(answer)`: asked, `None` inside when the request failed): first the CHANGELOG
/// sections between this build and the remote version; without those, the remote
/// version's GitHub release body (not blank); without that, the commit titles.
pub open spec fn notes_step_ok(
    changelog_md: Option<Option<Seq<char>>>,
    release_body: Option<Option<Seq<char>>>,
    current_version: Seq<char>,
    remote_version: Option<Seq<char>>,
    commits: Seq<(Seq<char>, Seq<char>)>,
    r: NotesStep,
) -> bool {
    match changelog_md {
        None => r is FetchChangelog,
        Some(md) => {
            let cl = match md {
                Some(m) => spec_notes_from_changelog(m, spec_parse_semver(current_version), opt_semver(remote_version)),
                None => None,
            };
            if cl is Some {
                notes_done(r, (cl, NotesSource::Changelog))
            } else {
                match remote_version {
                    None => notes_done(r, spec_pick_notes(None, None, spec_commit_notes(commits))),
                    Some(v) => match release_body {
                        None => r matches NotesStep::FetchRelease { version } && version@ == v,
                        Some(b) => notes_done(
                            r,
                            spec_pick_notes(
                                None,
                                match b {
                                    Some(t) => spec_nonblank(t),
                                    None => None,
                                },
                                spec_commit_notes(commits),
                            ),
                        ),
                    },
                }
            }
        },
    }
}

/// The next move in gathering release notes (see [`notes_step_ok`]).
pub fn notes_step(
    changelog_md: Option<Option<String>>,
    release_body: Option<Option<String>>,
    current_version: &str,
    remote_version: Option<String>,
    commits: &Vec<ChangelogEntry>,
) -> (r: NotesStep)
    ensures
        notes_step_ok(
            opt_opt_view(changelog_md),
            opt_opt_view(release_body),
            current_version@,
            opt_view(remote_version),
            entry_views(commits@),
            r,
        ),
{
    let md = match changelog_md {
        None => return NotesStep::FetchChangelog,
        Some(md) => md,
    };
    let remote = match &remote_version {
        Some(v) => SemVer::parse(v.as_str()),
        None => None,
    };
    let cl = match md {
        Some(m) => notes_from_changelog(m.as_str(), SemVer::parse(current_version), remote),
        None => None,
    };
    if cl.is_some() {
        let (notes, source) = pick_notes(cl, None, None);
        return NotesStep::Done { notes, source };
    }
    match remote_version {
        None => {
            let (notes, source) = pick_notes(None, None, commit_notes(commits));
            NotesStep::Done { notes, source }
        },
        Some(v) => match release_body {
            None => NotesStep::FetchRelease { version: v },
            Some(b) => {
                let rel = match b {
                    Some(t) => nonblank_trimmed(t.as_str()),
                    None => None,
                };
                let (notes, source) = pick_notes(None, rel, commit_notes(commits));
                NotesStep::Done { notes, source }
            },
        },
    }
}

/// Choose the notes shown with an update and say where they came from.
pub fn pick_notes(changelog: Option<String>, release: Option<String>, commits: Option<String>) -> (r: (
    Option<String>,
    NotesSource,
))
    ensures
        (opt_view(r.0), r.1) == spec_pick_notes(opt_view(changelog), opt_view(release), opt_view(commits)),
{
    if changelog.is_some() {
        (changelog, NotesSource::Changelog)
    } else if release.is_some() {
        (release, NotesSource::Release)
    } else if commits.is_some() {
        (commits, NotesSource::Commits)
    } else {
        (None, NotesSource::Empty)
    }
}

/// The channel a dashboard value selects and that channel's branch.
pub open spec fn channel_and_branch(channel: Seq<char>) -> (Seq<char>, Seq<char>) {
    let ch = spec_normalize_ota_channel(channel);
    (ch, spec_ota_branch_for_channel(ch))
}

/// The web page of a branch of the product repository.
pub open spec fn branch_page(branch: Seq<char>) -> Seq<char> {
    PRODUCT_REPO_URL@ + "/tree/"@ + branch
}

/// `s` as a new `String`.
fn owned(s: &str) -> (r: String)
    ensures
        r@ == s@,
{
    string_of(chars_of(s).as_slice())
}

/// The report when the tip of the channel's branch was read: `sha` is the tip, `local` the
/// local build's hash, and the other arguments are what was fetched for an update (they
/// are ignored when there is none).
pub fn report_from_branch_tip(
    current_version: &str,
    channel: &str,
    sha: &str,
    local: Option<String>,
    remote_version: Option<String>,
    changelog: (Vec<ChangelogEntry>, bool),
    notes: (Option<String>, NotesSource),
) -> (r: UpdateCheck)
    ensures
        ({
            let (ch, br) = channel_and_branch(channel@);
            let ua = spec_branch_update_available(sha@, opt_view(local));
            &&& r.current@ == current_version@
            &&& opt_view(r.latest) == Some(br + "@"@ + short_sha(sha@))
            &&& r.update_available == ua
            &&& opt_view(r.release_url) == Some(branch_page(br))
            &&& !r.check_failed
            &&& r.channel@ == ch
            &&& r.branch@ == br
            &&& opt_view(r.remote_version) == opt_view(remote_version)
            &&& ua ==> r.changelog@ == changelog.0@ && opt_view(r.release_notes) == opt_view(notes.0)
                && r.notes_source == notes.1 && r.changelog_truncated == (changelog.1 || (
            notes.0 is None && changelog.0@.len() == 0))
            &&& !ua ==> r.changelog@.len() == 0 && !r.changelog_truncated && r.release_notes is None
                && r.notes_source == NotesSource::Empty
        }),
{
    let ch = normalize_ota_channel(channel);
    let br = ota_branch_for_channel(ch);
    proof {
        lemma_normalize_idempotent(channel@);
    }
    let ua = branch_update_available(sha, match &local {
        Some(l) => Some(l.as_str()),
        None => None,
    });
    let s = chars_of(sha);
    let short = if s.len() > 8 {
        crate::text::copy_slice(s.as_slice(), 0, 8)
    } else {
        s
    };
    let mut latest = chars_of(br);
    latest.push('@');
    append_chars(&mut latest, short.as_slice());
    assert(latest@ =~= br@ + "@"@ + short_sha(sha@)) by {
        reveal_strlit("@");
    }
    let mut page = chars_of(PRODUCT_REPO_URL);
    push_lit(&mut page, "/tree/");
    append_chars(&mut page, chars_of(br).as_slice());
    assert(page@ =~= branch_page(br@));
    let (entries, truncated, release_notes, notes_source) = if ua {
        let t = changelog.1 || (notes.0.is_none() && changelog.0.len() == 0);
        (changelog.0, t, notes.0, notes.1)
    } else {
        (Vec::new(), false, None, NotesSource::Empty)
    };
    UpdateCheck {
        current: owned(current_version),
        latest: Some(string_of(latest.as_slice())),
        update_available: ua,
        release_url: Some(string_of(page.as_slice())),
        check_failed: false,
        channel: owned(ch),
        branch: owned(br),
        remote_version,
        changelog: entries,
        changelog_truncated: truncated,
        release_notes,
        notes_source,
    }
}

/// Whether the latest release `tag` is newer than the running version; false when either
/// does not parse.
pub open spec fn release_is_newer(current_version: Seq<char>, tag: Seq<char>) -> bool {
    match (spec_parse_semver(current_version), spec_parse_semver(tag)) {
        (Some(cur), Some(latest)) => semver_gt(latest, cur),
        _ => false,
    }
}

/// Law: a release is reported as an update exactly when both versions read and the tag's
/// (major, minor, patch) comes strictly later in lexicographic order than the running
/// version's: a later major, or the same major and a later minor, or the same major and
/// minor and a later patch, as [`SemVer::is_newer_than`] decides. Versions written as
/// `M.m.p` are compared by those numbers.
pub proof fn lemma_release_update_order(current_version: Seq<char>, tag: Seq<char>, cur: SemVer, latest: SemVer)
    ensures
        (spec_parse_semver(current_version) == Some(cur) && spec_parse_semver(tag) == Some(latest)) ==> (
        release_is_newer(current_version, tag) == (latest.major > cur.major || (latest.major == cur.major
            && latest.minor > cur.minor) || (latest.major == cur.major && latest.minor == cur.minor && latest.patch
            > cur.patch))),
        spec_parse_semver(current_version) is None || spec_parse_semver(tag) is None ==> !release_is_newer(
            current_version,
            tag,
        ),
        release_is_newer(semver_text(cur), semver_text(latest)) == (latest.major > cur.major || (latest.major
            == cur.major && latest.minor > cur.minor) || (latest.major == cur.major && latest.minor == cur.minor
            && latest.patch > cur.patch)),
        release_is_newer(semver_text(cur), semver_text(latest)) == semver_gt(latest, cur),
{
    lemma_semver_text_round_trip(cur);
    lemma_semver_text_round_trip(latest);
}

/// The report from the latest GitHub release, used when the branch tip could not be read:
/// `tag`, `html_url` and `body` are the release's fields (`None` where missing). Without a
/// tag the check counts as failed.
pub fn report_from_latest_release(
    current_version: &str,
    channel: &str,
    tag: Option<String>,
    html_url: Option<String>,
    body: Option<String>,
) -> (r: UpdateCheck)
    ensures
        ({
            let (ch, br) = channel_and_branch(channel@);
            &&& r.current@ == current_version@
            &&& r.channel@ == ch
            &&& r.branch@ == br
            &&& r.changelog@.len() == 0
            &&& match tag {
                None => r.check_failed && r.latest is None && !r.update_available
                    && r.release_url is None && r.remote_version is None && !r.changelog_truncated
                    && r.release_notes is None && r.notes_source == NotesSource::Empty,
                Some(t) => {
                    let ua = release_is_newer(current_version@, t@);
                    let notes = match body {
                        Some(b) => spec_nonblank(b@),
                        None => None,
                    };
                    &&& !r.check_failed
                    &&& opt_view(r.latest) == Some(t@)
                    &&& r.update_available == ua
                    &&& opt_view(r.release_url) == opt_view(html_url)
                    &&& opt_view(r.remote_version) == match spec_parse_semver(t@) {
                        Some(v) => Some(semver_text(v)),
                        None => None,
                    }
                    &&& (ua && notes is Some) ==> opt_view(r.release_notes) == notes
                        && r.notes_source == NotesSource::Release
                    &&& !(ua && notes is Some) ==> r.release_notes is None && r.notes_source
                        == NotesSource::Empty
                    &&& r.changelog_truncated == (ua && notes is None)
                },
            }
        }),
{
    let ch = normalize_ota_channel(channel);
    let br = ota_branch_for_channel(ch);
    proof {
        lemma_normalize_idempotent(channel@);
    }
    let t = match tag {
        Some(t) => t,
        None => return UpdateCheck::unknown(current_version, ch, br),
    };
    let cur = SemVer::parse(current_version);
    let latest = SemVer::parse(t.as_str());
    let ua = match (cur, latest) {
        (Some(c), Some(l)) => l.is_newer_than(&c),
        _ => false,
    };
    let remote_version = match latest {
        Some(v) => Some(v.display()),
        None => None,
    };
    let notes = match body {
        Some(b) => nonblank_trimmed(b.as_str()),
        None => None,
    };
    let (release_notes, notes_source) = if ua && notes.is_some() {
        (notes, NotesSource::Release)
    } else {
        (None, NotesSource::Empty)
    };
    let truncated = ua && release_notes.is_none();
    UpdateCheck {
        current: owned(current_version),
        latest: Some(t),
        update_available: ua,
        release_url: html_url,
        check_failed: false,
        channel: owned(ch),
        branch: owned(br),
        remote_version,
        changelog: Vec::new(),
        changelog_truncated: truncated,
        release_notes,
        notes_source,
    }
}

} // verus!
