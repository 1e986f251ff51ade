//! Character-sequence helpers shared by the configuration editors and parsers.
//!
//! Every exec function here works on `Vec<char>` / `&[char]` and is specified over the
//! `Seq<char>` it holds, so callers can state their contracts over plain sequences.
use vstd::prelude::*;

verus! {

// ---------------------------------------------------------------------------
// Specifications
// ---------------------------------------------------------------------------

/// Unicode `White_Space`, exactly the set that `char::is_whitespace` accepts.
pub open spec fn is_ws(c: char) -> bool {
    ||| c == '\t' || c == '\n' || c == '\u{0B}' || c == '\u{0C}' || c == '\r' || c == ' '
    ||| c == '\u{85}' || c == '\u{A0}' || c == '\u{1680}'
    ||| ('\u{2000}' <= c && c <= '\u{200A}')
    ||| c == '\u{2028}' || c == '\u{2029}' || c == '\u{202F}' || c == '\u{205F}' || c == '\u{3000}'
}

/// `s` without its leading whitespace.
pub open spec fn trim_start(s: Seq<char>) -> Seq<char>
    decreases s.len(),
{
    if s.len() > 0 && is_ws(s[0]) {
        trim_start(s.drop_first())
    } else {
        s
    }
}

/// `s` without its trailing whitespace.
pub open spec fn trim_end(s: Seq<char>) -> Seq<char>
    decreases s.len(),
{
    if s.len() > 0 && is_ws(s.last()) {
        trim_end(s.drop_last())
    } else {
        s
    }
}

/// `s` without leading and trailing whitespace.
pub open spec fn trim(s: Seq<char>) -> Seq<char> {
    trim_end(trim_start(s))
}

/// ASCII lower-casing of one character (other characters are unchanged).
pub open spec fn lower_char(c: char) -> char {
    if 'A' <= c && c <= 'Z' {
        ((c as u32) + 32) as char
    } else {
        c
    }
}

/// ASCII lower-casing of a sequence.
pub open spec fn lower(s: Seq<char>) -> Seq<char> {
    s.map_values(|c: char| lower_char(c))
}

/// `p` is a prefix of `s`.
pub open spec fn starts_with(s: Seq<char>, p: Seq<char>) -> bool {
    p.len() <= s.len() && s.take(p.len() as int) == p
}

/// `p` is a suffix of `s`.
pub open spec fn ends_with(s: Seq<char>, p: Seq<char>) -> bool {
    p.len() <= s.len() && s.skip(s.len() - p.len()) == p
}

/// `p` occurs in `s` at position `i`.
pub open spec fn occurs_at(s: Seq<char>, p: Seq<char>, i: int) -> bool {
    0 <= i && i + p.len() <= s.len() && s.subrange(i, i + p.len()) == p
}

/// `p` occurs somewhere in `s`.
pub open spec fn contains(s: Seq<char>, p: Seq<char>) -> bool {
    exists|i: int| occurs_at(s, p, i)
}

/// `c` occurs in `s`.
pub open spec fn has_char(s: Seq<char>, c: char) -> bool {
    exists|i: int| 0 <= i < s.len() && s[i] == c
}

/// A line as `str::lines` yields it: one trailing `'\r'` removed.
pub open spec fn strip_cr(s: Seq<char>) -> Seq<char> {
    if s.len() > 0 && s.last() == '\r' {
        s.drop_last()
    } else {
        s
    }
}

/// Finished lines and the unfinished tail after reading `s` from left to right.
pub open spec fn split_state(s: Seq<char>) -> (Seq<Seq<char>>, Seq<char>)
    decreases s.len(),
{
    if s.len() == 0 {
        (Seq::empty(), Seq::empty())
    } else {
        let (done, cur) = split_state(s.drop_last());
        if s.last() == '\n' {
            (done.push(strip_cr(cur)), Seq::empty())
        } else {
            (done, cur.push(s.last()))
        }
    }
}

/// The lines of `s` exactly as `str::lines` returns them: split at `'\n'`, one `'\r'`
/// before each `'\n'` dropped, and no empty line after a final `'\n'`.
pub open spec fn lines(s: Seq<char>) -> Seq<Seq<char>> {
    let (done, cur) = split_state(s);
    if cur.len() == 0 {
        done
    } else {
        done.push(cur)
    }
}

/// The lines joined with `'\n'` between them (`[..].join("\n")`).
pub open spec fn join_lines(ls: Seq<Seq<char>>) -> Seq<char>
    decreases ls.len(),
{
    if ls.len() == 0 {
        Seq::empty()
    } else if ls.len() == 1 {
        ls[0]
    } else {
        join_lines(ls.drop_last()) + seq!['\n'] + ls.last()
    }
}

/// The pieces joined with `sep` between them (`[..].join(sep)`).
pub open spec fn join_with(ls: Seq<Seq<char>>, sep: Seq<char>) -> Seq<char>
    decreases ls.len(),
{
    if ls.len() == 0 {
        Seq::empty()
    } else if ls.len() == 1 {
        ls[0]
    } else {
        join_with(ls.drop_last(), sep) + sep + ls.last()
    }
}

/// The views of a sequence of string slices.
pub open spec fn strs(a: Seq<&str>) -> Seq<Seq<char>> {
    a.map_values(|s: &str| s@)
}

/// The line sequence `ls` holds `l` as one of its lines.
pub open spec fn has_line(ls: Seq<Seq<char>>, l: Seq<char>) -> bool {
    exists|i: int| 0 <= i < ls.len() && ls[i] == l
}

/// The views of a vector of lines.
pub open spec fn views(v: Seq<Vec<char>>) -> Seq<Seq<char>> {
    v.map_values(|l: Vec<char>| l@)
}

/// The ten decimal digits.
pub open spec fn digits() -> Seq<char> {
    seq!['0', '1', '2', '3', '4', '5', '6', '7', '8', '9']
}

/// Decimal representation of `n` (as `format!("{}", n)` prints an unsigned integer).
pub open spec fn dec(n: nat) -> Seq<char>
    decreases n,
{
    if n < 10 {
        seq![digits()[n as int]]
    } else {
        dec(n / 10).push(digits()[(n % 10) as int])
    }
}

/// An ASCII decimal digit.
pub open spec fn is_digit(c: char) -> bool {
    '0' <= c && c <= '9'
}

/// The value of an ASCII decimal digit.
pub open spec fn digit_val(c: char) -> nat {
    ((c as u32) - ('0' as u32)) as nat
}

/// The value of a sequence of decimal digits.
pub open spec fn digits_value(s: Seq<char>) -> nat
    decreases s.len(),
{
    if s.len() == 0 {
        0
    } else {
        digits_value(s.drop_last()) * 10 + digit_val(s.last())
    }
}

/// All characters are ASCII decimal digits.
pub open spec fn all_digits(s: Seq<char>) -> bool {
    forall|i: int| 0 <= i < s.len() ==> is_digit(#[trigger] s[i])
}

/// The digit part of an unsigned integer literal: without one leading `+`.
pub open spec fn uint_digits(s: Seq<char>) -> Seq<char> {
    if s.len() > 0 && s[0] == '+' { s.drop_first() } else { s }
}

/// Unsigned integer parsing as `str::parse` does it for a type whose largest value is
/// `max`: an optional `+`, then at least one decimal digit, and a value that fits.
pub open spec fn parse_uint(s: Seq<char>, max: nat) -> Option<nat> {
    let d = uint_digits(s);
    if d.len() > 0 && all_digits(d) && digits_value(d) <= max {
        Some(digits_value(d))
    } else {
        None
    }
}

/// `"true"` or `"false"`.
pub open spec fn bool_text(b: bool) -> Seq<char> {
    if b {
        "true"@
    } else {
        "false"@
    }
}

// ---------------------------------------------------------------------------
// Conversions
// ---------------------------------------------------------------------------

/// Appends the decimal representation of `n`.
pub fn push_dec(v: &mut Vec<char>, n: u64)
    ensures
        final(v)@ == old(v)@ + dec(n as nat),
    decreases n,
{
    let table = vec!['0', '1', '2', '3', '4', '5', '6', '7', '8', '9'];
    assert(table@ =~= digits());
    if n >= 10 {
        push_dec(v, n / 10);
    }
    let d = (n % 10) as usize;
    v.push(table[d]);
    proof {
        if n < 10 {
            assert(old(v)@ + dec(n as nat) =~= old(v)@.push(digits()[n as int]));
        } else {
            assert(old(v)@ + dec(n as nat) =~= (old(v)@ + dec((n / 10) as nat)).push(
                digits()[(n % 10) as int],
            ));
        }
    }
}

/// Decimal representation of `n`.
pub fn dec_chars(n: u64) -> (r: Vec<char>)
    ensures
        r@ == dec(n as nat),
{
    let mut v: Vec<char> = Vec::new();
    push_dec(&mut v, n);
    assert(Seq::<char>::empty() + dec(n as nat) =~= dec(n as nat));
    v
}

/// `parse_uint` for a slice and a bound that fits in `u64`.
pub fn parse_uint_exec(s: &[char], max: u64) -> (r: Option<u64>)
    ensures
        r is Some <==> parse_uint(s@, max as nat) is Some,
        r matches Some(v) ==> parse_uint(s@, max as nat) == Some(v as nat),
{
    let start: usize = if s.len() > 0 && s[0] == '+' { 1 } else { 0 };
    let ghost d = uint_digits(s@);
    assert(d =~= s@.skip(start as int));
    if start >= s.len() {
        return None;
    }
    let mut acc: u64 = 0;
    let mut over = false;
    let mut i: usize = start;
    assert(d.take(0) =~= Seq::<char>::empty());
    while i < s.len()
        invariant
            start <= i <= s.len(),
            d =~= s@.skip(start as int),
            d == uint_digits(s@),
            all_digits(d.take(i - start)),
            !over ==> acc as nat == digits_value(d.take(i - start)) && acc <= max,
            over ==> digits_value(d.take(i - start)) > max,
        decreases s.len() - i,
    {
        let c = s[i];
        if !('0' <= c && c <= '9') {
            assert(!is_digit(d[i - start]));
            assert(!all_digits(d));
            assert(parse_uint(s@, max as nat) is None);
            return None;
        }
        let ghost prev = digits_value(d.take(i - start));
        assert(d.take(i - start + 1).drop_last() =~= d.take(i - start));
        assert(d.take(i - start + 1).last() == c);
        let ghost next = digits_value(d.take(i - start + 1));
        assert(next == prev * 10 + digit_val(c));
        let dv: u64 = (c as u32 - '0' as u32) as u64;
        assert(dv as nat == digit_val(c));
        if !over {
            if dv > max {
                assert(next >= digit_val(c)) by (nonlinear_arith)
                    requires
                        next == prev * 10 + digit_val(c);
                over = true;
            } else if acc > (max - dv) / 10 {
                assert(acc * 10 + dv > max) by (nonlinear_arith)
                    requires
                        acc > (max - dv) / 10,
                        dv <= max || dv > max,
                        dv <= 9;
                over = true;
            } else {
                assert(acc * 10 + dv <= max) by (nonlinear_arith)
                    requires
                        acc <= (max - dv) / 10,
                        dv <= max;
                acc = acc * 10 + dv;
            }
        } else {
            assert(next >= prev) by (nonlinear_arith)
                requires
                    next == prev * 10 + digit_val(c);
        }
        assert forall|k: int| 0 <= k < d.take(i - start + 1).len() implies is_digit(
            #[trigger] d.take(i - start + 1)[k],
        ) by {
            if k < i - start {
                assert(d.take(i - start + 1)[k] == d.take(i - start)[k]);
            }
        }
        i += 1;
    }
    assert(d.take(i - start) =~= d);
    assert(d.len() > 0);
    assert(all_digits(d));
    if over {
        assert(digits_value(d) > max);
        None
    } else {
        assert(acc as nat == digits_value(d));
        Some(acc)
    }
}

/// `"true"` or `"false"`.
pub fn bool_chars(b: bool) -> (r: Vec<char>)
    ensures
        r@ == bool_text(b),
{
    if b {
        chars_of("true")
    } else {
        chars_of("false")
    }
}

/// The characters of `s`, in order.
pub fn chars_of(s: &str) -> (r: Vec<char>)
    ensures
        r@ == s@,
{
    let mut r: Vec<char> = Vec::new();
    for c in it: s.chars()
        invariant
            r@ == it.seq().take(it.index() as int),
    {
        r.push(c);
    }
    r
}

/// `String::push`: appends one character.
#[verifier::external_body]
pub fn push_char(s: &mut String, c: char)
    ensures
        final(s)@ == old(s)@.push(c),
{
    s.push(c);
}

/// Builds a `String` holding exactly the characters of `v`.
pub fn string_of(v: &[char]) -> (r: String)
    ensures
        r@ == v@,
{
    let mut r = String::new();
    let mut i: usize = 0;
    while i < v.len()
        invariant
            i <= v.len(),
            r@ == v@.take(i as int),
        decreases v.len() - i,
    {
        push_char(&mut r, v[i]);
        assert(v@.take(i as int).push(v@[i as int]) =~= v@.take(i + 1));
        i += 1;
    }
    assert(v@.take(v.len() as int) =~= v@);
    r
}

/// Appends all of `b` to `a`.
pub fn append_chars(a: &mut Vec<char>, b: &[char])
    ensures
        final(a)@ == old(a)@ + b@,
{
    let mut i: usize = 0;
    while i < b.len()
        invariant
            i <= b.len(),
            a@ == old(a)@ + b@.take(i as int),
        decreases b.len() - i,
    {
        a.push(b[i]);
        assert(b@.take(i as int).push(b@[i as int]) =~= b@.take(i + 1));
        i += 1;
    }
    assert(b@.take(b.len() as int) =~= b@);
}

/// `a` followed by `b`, as a new vector.
pub fn concat(a: &[char], b: &[char]) -> (r: Vec<char>)
    ensures
        r@ == a@ + b@,
{
    let mut r: Vec<char> = Vec::new();
    append_chars(&mut r, a);
    append_chars(&mut r, b);
    assert(Seq::<char>::empty() + a@ + b@ =~= a@ + b@);
    r
}

/// A copy of `a`.
pub fn copy_chars(a: &[char]) -> (r: Vec<char>)
    ensures
        r@ == a@,
{
    let mut r: Vec<char> = Vec::new();
    append_chars(&mut r, a);
    assert(Seq::<char>::empty() + a@ =~= a@);
    r
}

// ---------------------------------------------------------------------------
// Character classes
// ---------------------------------------------------------------------------

/// `char::is_whitespace`.
pub fn is_ws_char(c: char) -> (b: bool)
    ensures
        b == is_ws(c),
{
    c == '\t' || c == '\n' || c == '\u{0B}' || c == '\u{0C}' || c == '\r' || c == ' '
        || c == '\u{85}' || c == '\u{A0}' || c == '\u{1680}' || ('\u{2000}' <= c && c
        <= '\u{200A}') || c == '\u{2028}' || c == '\u{2029}' || c == '\u{202F}' || c
        == '\u{205F}' || c == '\u{3000}'
}

/// `char::to_ascii_lowercase`.
pub fn lower_char_exec(c: char) -> (r: char)
    ensures
        r == lower_char(c),
{
    if 'A' <= c && c <= 'Z' {
        let u: u32 = c as u32;
        char_from_u32_ascii(u + 32)
    } else {
        c
    }
}

/// The character with ASCII code `u` (`'a'..='z'`).
fn char_from_u32_ascii(u: u32) -> (c: char)
    requires
        0x61 <= u <= 0x7a,
    ensures
        c == u as char,
{
    // Walk the lower-case alphabet: a closed table keeps the cast out of exec code.
    let table: [char; 26] = [
        'a', 'b', 'c', 'd', 'e', 'f', 'g', 'h', 'i', 'j', 'k', 'l', 'm', 'n', 'o', 'p', 'q',
        'r', 's', 't', 'u', 'v', 'w', 'x', 'y', 'z',
    ];
    let i: usize = (u - 0x61) as usize;
    let c = table[i];
    assert(c == u as char) by {
        assert(table@ == seq![
            'a', 'b', 'c', 'd', 'e', 'f', 'g', 'h', 'i', 'j', 'k', 'l', 'm', 'n', 'o', 'p', 'q',
            'r', 's', 't', 'u', 'v', 'w', 'x', 'y', 'z',
        ]);
    }
    c
}

// ---------------------------------------------------------------------------
// Sequence operations
// ---------------------------------------------------------------------------

/// ASCII lower-case copy of `s`.
pub fn to_lower(s: &[char]) -> (r: Vec<char>)
    ensures
        r@ == lower(s@),
{
    let mut r: Vec<char> = Vec::new();
    let mut i: usize = 0;
    while i < s.len()
        invariant
            i <= s.len(),
            r@ == lower(s@.take(i as int)),
        decreases s.len() - i,
    {
        let c = lower_char_exec(s[i]);
        r.push(c);
        assert(lower(s@.take(i + 1)) =~= lower(s@.take(i as int)).push(lower_char(s@[i as int])));
        i += 1;
    }
    assert(s@.take(s.len() as int) =~= s@);
    r
}

/// Index of the first non-whitespace character (or `s.len()`).
pub fn trim_start_index(s: &[char]) -> (k: usize)
    ensures
        k <= s.len(),
        trim_start(s@) == s@.skip(k as int),
{
    let mut k: usize = 0;
    assert(s@.skip(0) =~= s@);
    while k < s.len() && is_ws_char(s[k])
        invariant
            k <= s.len(),
            trim_start(s@) == trim_start(s@.skip(k as int)),
        decreases s.len() - k,
    {
        assert(s@.skip(k as int).drop_first() =~= s@.skip(k + 1));
        k += 1;
    }
    k
}

/// `trim_start` of `s`.
pub fn trim_start_exec(s: &[char]) -> (r: Vec<char>)
    ensures
        r@ == trim_start(s@),
{
    let k = trim_start_index(s);
    copy_slice(s, k, s.len())
}

/// Index one past the last non-whitespace character (or 0).
pub fn trim_end_index(s: &[char]) -> (k: usize)
    ensures
        k <= s.len(),
        trim_end(s@) == s@.take(k as int),
{
    let mut k: usize = s.len();
    assert(s@.take(k as int) =~= s@);
    while k > 0 && is_ws_char(s[k - 1])
        invariant
            k <= s.len(),
            trim_end(s@) == trim_end(s@.take(k as int)),
        decreases k,
    {
        assert(s@.take(k as int).drop_last() =~= s@.take(k - 1));
        k -= 1;
    }
    k
}

/// Characters `from..to` of `s`, as a new vector.
pub fn copy_slice(s: &[char], from: usize, to: usize) -> (r: Vec<char>)
    requires
        from <= to <= s.len(),
    ensures
        r@ == s@.subrange(from as int, to as int),
{
    let mut r: Vec<char> = Vec::new();
    let mut i: usize = from;
    while i < to
        invariant
            from <= i <= to <= s.len(),
            r@ == s@.subrange(from as int, i as int),
        decreases to - i,
    {
        r.push(s[i]);
        assert(s@.subrange(from as int, i as int).push(s@[i as int]) =~= s@.subrange(
            from as int,
            i + 1,
        ));
        i += 1;
    }
    r
}

/// `trim` of `s`.
pub fn trim_exec(s: &[char]) -> (r: Vec<char>)
    ensures
        r@ == trim(s@),
{
    let a = trim_start_exec(s);
    let k = trim_end_index(a.as_slice());
    copy_slice(a.as_slice(), 0, k)
}

/// Equality of two character sequences.
pub fn chars_eq(a: &[char], b: &[char]) -> (r: bool)
    ensures
        r == (a@ == b@),
{
    if a.len() != b.len() {
        return false;
    }
    let mut i: usize = 0;
    while i < a.len()
        invariant
            i <= a.len(),
            a.len() == b.len(),
            a@.take(i as int) == b@.take(i as int),
        decreases a.len() - i,
    {
        if a[i] != b[i] {
            assert(a@[i as int] != b@[i as int]);
            return false;
        }
        assert(a@.take(i + 1) =~= a@.take(i as int).push(a@[i as int]));
        assert(b@.take(i + 1) =~= b@.take(i as int).push(b@[i as int]));
        i += 1;
    }
    assert(a@ =~= a@.take(a.len() as int));
    assert(b@ =~= b@.take(b.len() as int));
    true
}

/// `p` occurs in `s` at position `i`.
pub fn occurs_at_exec(s: &[char], p: &[char], i: usize) -> (r: bool)
    ensures
        r == occurs_at(s@, p@, i as int),
{
    if i > s.len() || p.len() > s.len() - i {
        return false;
    }
    let mut j: usize = 0;
    while j < p.len()
        invariant
            j <= p.len(),
            i + p.len() <= s.len(),
            s@.subrange(i as int, i + j) == p@.take(j as int),
        decreases p.len() - j,
    {
        if s[i + j] != p[j] {
            assert(s@.subrange(i as int, i + p.len())[j as int] != p@[j as int]);
            return false;
        }
        assert(s@.subrange(i as int, i + j + 1) =~= s@.subrange(i as int, i + j).push(
            s@[i + j],
        ));
        assert(p@.take(j + 1) =~= p@.take(j as int).push(p@[j as int]));
        j += 1;
    }
    assert(p@ =~= p@.take(p.len() as int));
    true
}

/// `starts_with` for slices.
pub fn starts_with_exec(s: &[char], p: &[char]) -> (r: bool)
    ensures
        r == starts_with(s@, p@),
{
    let r = occurs_at_exec(s, p, 0);
    assert(r == starts_with(s@, p@)) by {
        assert(s@.subrange(0, p@.len() as int) =~= s@.take(p@.len() as int));
    }
    r
}

/// `ends_with` for slices.
pub fn ends_with_exec(s: &[char], p: &[char]) -> (r: bool)
    ensures
        r == ends_with(s@, p@),
{
    if p.len() > s.len() {
        return false;
    }
    let r = occurs_at_exec(s, p, s.len() - p.len());
    assert(s@.subrange(s.len() - p.len(), s.len() as int) =~= s@.skip(s.len() - p.len()));
    r
}

/// First position at which `p` occurs in `s`, if any.
pub fn find(s: &[char], p: &[char]) -> (r: Option<usize>)
    ensures
        r is None <==> !contains(s@, p@),
        r matches Some(i) ==> occurs_at(s@, p@, i as int) && forall|j: int|
            0 <= j < i ==> !occurs_at(s@, p@, j),
{
    let mut i: usize = 0;
    loop
        invariant_except_break
            i <= s.len(),
            forall|j: int| 0 <= j < i ==> !occurs_at(s@, p@, j),
        ensures
            forall|j: int| 0 <= j <= s.len() ==> !occurs_at(s@, p@, j),
        decreases s.len() - i,
    {
        if occurs_at_exec(s, p, i) {
            return Some(i);
        }
        if i == s.len() {
            break;
        }
        i += 1;
    }
    assert forall|j: int| !occurs_at(s@, p@, j) by {
        if 0 <= j && j <= s.len() {
        } else if j > s.len() {
            assert(j + p@.len() > s@.len());
        }
    }
    None
}

/// `contains` for slices.
pub fn contains_exec(s: &[char], p: &[char]) -> (r: bool)
    ensures
        r == contains(s@, p@),
{
    find(s, p).is_some()
}

/// `c` occurs in `s`.
pub fn has_char_exec(s: &[char], c: char) -> (r: bool)
    ensures
        r == has_char(s@, c),
{
    let mut i: usize = 0;
    while i < s.len()
        invariant
            i <= s.len(),
            forall|j: int| 0 <= j < i ==> s@[j] != c,
        decreases s.len() - i,
    {
        if s[i] == c {
            return true;
        }
        i += 1;
    }
    false
}

// ---------------------------------------------------------------------------
// Lines
// ---------------------------------------------------------------------------

/// `strip_cr` for a vector.
fn strip_cr_exec(mut v: Vec<char>) -> (r: Vec<char>)
    ensures
        r@ == strip_cr(v@),
{
    if v.len() > 0 && v[v.len() - 1] == '\r' {
        v.pop();
    }
    v
}

/// The lines of `s`, as `str::lines` yields them.
pub fn split_lines(s: &[char]) -> (r: Vec<Vec<char>>)
    ensures
        views(r@) == lines(s@),
{
    let mut done: Vec<Vec<char>> = Vec::new();
    let mut cur: Vec<char> = Vec::new();
    let mut i: usize = 0;
    while i < s.len()
        invariant
            i <= s.len(),
            (views(done@), cur@) == split_state(s@.take(i as int)),
        decreases s.len() - i,
    {
        let c = s[i];
        assert(s@.take(i + 1).drop_last() =~= s@.take(i as int));
        if c == '\n' {
            let line = strip_cr_exec(cur);
            done.push(line);
            cur = Vec::new();
            assert(views(done@) =~= split_state(s@.take(i + 1)).0);
        } else {
            cur.push(c);
        }
        i += 1;
    }
    assert(s@.take(s.len() as int) =~= s@);
    if cur.len() > 0 {
        done.push(cur);
        assert(views(done@) =~= lines(s@));
    }
    done
}

/// String slices joined with `sep`.
pub fn join_strs(a: &[&str], sep: &[char]) -> (r: Vec<char>)
    ensures
        r@ == join_with(strs(a@), sep@),
{
    let mut r: Vec<char> = Vec::new();
    let mut i: usize = 0;
    while i < a.len()
        invariant
            i <= a.len(),
            r@ == join_with(strs(a@).take(i as int), sep@),
        decreases a.len() - i,
    {
        assert(strs(a@).take(i + 1).drop_last() =~= strs(a@).take(i as int));
        assert(strs(a@).take(i + 1).last() == a@[i as int]@);
        if i > 0 {
            append_chars(&mut r, sep);
        }
        append_chars(&mut r, chars_of(a[i]).as_slice());
        assert(r@ =~= join_with(strs(a@).take(i + 1), sep@));
        i += 1;
    }
    assert(strs(a@).take(a.len() as int) =~= strs(a@));
    r
}

/// The lines joined with `'\n'`.
pub fn join_lines_exec(ls: &Vec<Vec<char>>) -> (r: Vec<char>)
    ensures
        r@ == join_lines(views(ls@)),
{
    let mut r: Vec<char> = Vec::new();
    let mut i: usize = 0;
    while i < ls.len()
        invariant
            i <= ls.len(),
            r@ == join_lines(views(ls@).take(i as int)),
        decreases ls.len() - i,
    {
        let ghost before = views(ls@).take(i as int);
        assert(views(ls@).take(i + 1).drop_last() =~= before);
        if i > 0 {
            r.push('\n');
        }
        append_chars(&mut r, ls[i].as_slice());
        assert(r@ =~= join_lines(views(ls@).take(i + 1)));
        i += 1;
    }
    assert(views(ls@).take(ls.len() as int) =~= views(ls@));
    r
}

// ---------------------------------------------------------------------------
// Splitting at a character
// ---------------------------------------------------------------------------

/// The part of `s` after the first `c` (empty when `c` does not occur).
pub open spec fn after_char(s: Seq<char>, c: char) -> Seq<char>
    decreases s.len(),
{
    if s.len() == 0 {
        Seq::empty()
    } else if s[0] == c {
        s.drop_first()
    } else {
        after_char(s.drop_first(), c)
    }
}

/// `s` with every leading `c` removed (`str::trim_start_matches`).
pub open spec fn trim_start_char(s: Seq<char>, c: char) -> Seq<char>
    decreases s.len(),
{
    if s.len() > 0 && s[0] == c {
        trim_start_char(s.drop_first(), c)
    } else {
        s
    }
}

/// `s` with every trailing `c` removed (`str::trim_end_matches`).
pub open spec fn trim_end_char(s: Seq<char>, c: char) -> Seq<char>
    decreases s.len(),
{
    if s.len() > 0 && s.last() == c {
        trim_end_char(s.drop_last(), c)
    } else {
        s
    }
}

/// Index of the first `c` in `s`, if any.
pub fn find_char(s: &[char], c: char) -> (r: Option<usize>)
    ensures
        r is Some <==> has_char(s@, c),
        r matches Some(i) ==> i < s.len() && s@[i as int] == c && forall|k: int|
            0 <= k < i ==> s@[k] != c,
{
    let mut i: usize = 0;
    while i < s.len()
        invariant
            i <= s.len(),
            forall|k: int| 0 <= k < i ==> s@[k] != c,
        decreases s.len() - i,
    {
        if s[i] == c {
            return Some(i);
        }
        i += 1;
    }
    None
}

/// `after_char` of a slice.
pub fn after_char_exec(s: &[char], c: char) -> (r: Vec<char>)
    ensures
        r@ == after_char(s@, c),
{
    let mut i: usize = 0;
    assert(s@.skip(0) =~= s@);
    while i < s.len() && s[i] != c
        invariant
            i <= s.len(),
            after_char(s@, c) == after_char(s@.skip(i as int), c),
        decreases s.len() - i,
    {
        assert(s@.skip(i as int).drop_first() =~= s@.skip(i + 1));
        i += 1;
    }
    if i < s.len() {
        assert(s@.skip(i as int).drop_first() =~= s@.skip(i + 1));
        copy_slice(s, i + 1, s.len())
    } else {
        Vec::new()
    }
}

/// `trim_start_char` of a slice.
pub fn trim_start_char_exec(s: &[char], c: char) -> (r: Vec<char>)
    ensures
        r@ == trim_start_char(s@, c),
{
    let mut i: usize = 0;
    assert(s@.skip(0) =~= s@);
    while i < s.len() && s[i] == c
        invariant
            i <= s.len(),
            trim_start_char(s@, c) == trim_start_char(s@.skip(i as int), c),
        decreases s.len() - i,
    {
        assert(s@.skip(i as int).drop_first() =~= s@.skip(i + 1));
        i += 1;
    }
    copy_slice(s, i, s.len())
}

/// `trim_end_char` of a slice.
pub fn trim_end_char_exec(s: &[char], c: char) -> (r: Vec<char>)
    ensures
        r@ == trim_end_char(s@, c),
{
    let mut k: usize = s.len();
    assert(s@.take(k as int) =~= s@);
    while k > 0 && s[k - 1] == c
        invariant
            k <= s.len(),
            trim_end_char(s@, c) == trim_end_char(s@.take(k as int), c),
        decreases k,
    {
        assert(s@.take(k as int).drop_last() =~= s@.take(k - 1));
        k -= 1;
    }
    copy_slice(s, 0, k)
}


/// A line as [`lines`] can give it back from joined text: no `'\n'` in it and no `'\r'`
/// at its end.
pub open spec fn clean_line(l: Seq<char>) -> bool {
    !has_char(l, '\n') && strip_cr(l) == l
}

/// The lines read so far hold no `'\n'`, nor does the unfinished tail.
pub proof fn lemma_split_no_newline(s: Seq<char>)
    ensures
        forall|i: int| 0 <= i < split_state(s).0.len() ==> !has_char(#[trigger] split_state(s).0[i], '\n'),
        !has_char(split_state(s).1, '\n'),
    decreases s.len(),
{
    if s.len() > 0 {
        lemma_split_no_newline(s.drop_last());
        let (done, cur) = split_state(s.drop_last());
        if s.last() == '\n' {
            let c2 = strip_cr(cur);
            assert(!has_char(c2, '\n')) by {
                if cur.len() > 0 && cur.last() == '\r' {
                    assert forall|i: int| 0 <= i < c2.len() implies c2[i] != '\n' by {
                        assert(c2[i] == cur[i]);
                    }
                }
            }
            assert forall|i: int| 0 <= i < done.push(c2).len() implies !has_char(#[trigger] done.push(c2)[i], '\n') by {
                if i < done.len() {
                    assert(done.push(c2)[i] == done[i]);
                }
            }
            assert(!has_char(Seq::<char>::empty(), '\n'));
        } else {
            let c2 = cur.push(s.last());
            assert forall|i: int| 0 <= i < c2.len() implies c2[i] != '\n' by {
                if i < cur.len() {
                    assert(c2[i] == cur[i]);
                }
            }
        }
    }
}

/// The unfinished tail is empty exactly when the text is empty or ends with `'\n'`.
pub proof fn lemma_split_tail_empty(s: Seq<char>)
    ensures
        (split_state(s).1.len() == 0) == (s.len() == 0 || s.last() == '\n'),
{
}

/// Reading a line without `'\n'` after a finished line leaves it as the unfinished tail.
pub proof fn lemma_split_append_line(p: Seq<char>, l: Seq<char>)
    requires
        split_state(p).1.len() == 0,
        !has_char(l, '\n'),
    ensures
        split_state(p + l) == (split_state(p).0, l),
    decreases l.len(),
{
    if l.len() == 0 {
        assert(p + l =~= p);
    } else {
        assert((p + l).drop_last() =~= p + l.drop_last());
        assert(!has_char(l.drop_last(), '\n')) by {
            assert forall|i: int| 0 <= i < l.drop_last().len() implies l.drop_last()[i] != '\n' by {
                assert(l.drop_last()[i] == l[i]);
            }
        }
        lemma_split_append_line(p, l.drop_last());
        assert(l[l.len() - 1] != '\n');
        assert(l.drop_last().push(l.last()) =~= l);
    }
}

/// Joined clean lines split back into the same lines (the last one as the tail).
pub proof fn lemma_split_join(ls: Seq<Seq<char>>)
    requires
        ls.len() > 0,
        forall|i: int| 0 <= i < ls.len() ==> clean_line(#[trigger] ls[i]),
    ensures
        split_state(join_lines(ls)) == (ls.drop_last(), ls.last()),
    decreases ls.len(),
{
    assert(clean_line(ls[ls.len() - 1]));
    if ls.len() == 1 {
        assert(Seq::<char>::empty() + ls[0] =~= ls[0]);
        lemma_split_append_line(Seq::empty(), ls[0]);
        assert(ls.drop_last() =~= Seq::<Seq<char>>::empty());
    } else {
        let init = ls.drop_last();
        assert forall|i: int| 0 <= i < init.len() implies clean_line(#[trigger] init[i]) by {
            assert(init[i] == ls[i]);
        }
        lemma_split_join(init);
        let j = join_lines(init);
        assert(clean_line(init.last()));
        assert((j + seq!['\n']).drop_last() =~= j);
        assert(init.drop_last().push(init.last()) =~= init);
        assert(split_state(j + seq!['\n']) == (init, Seq::<char>::empty()));
        lemma_split_append_line(j + seq!['\n'], ls.last());
    }
}

/// The lines of joined clean lines, with or without a final `'\n'`, are those lines (a
/// last line left without `'\n'` must not be empty).
pub proof fn lemma_lines_of_join(ls: Seq<Seq<char>>, nl: bool)
    requires
        ls.len() > 0,
        forall|i: int| 0 <= i < ls.len() ==> clean_line(#[trigger] ls[i]),
        !nl ==> ls.last().len() > 0,
    ensures
        lines(if nl { join_lines(ls).push('\n') } else { join_lines(ls) }) == ls,
{
    lemma_split_join(ls);
    let j = join_lines(ls);
    assert(ls.drop_last().push(ls.last()) =~= ls);
    if nl {
        assert(j.push('\n').drop_last() =~= j);
        assert(clean_line(ls[ls.len() - 1]));
    }
}

/// `trim_start` drops a prefix: what is left is a suffix that is empty or starts with a
/// non-whitespace character, and trimming it again changes nothing.
pub(crate) proof fn lemma_trim_start_suffix(s: Seq<char>)
    ensures
        trim_start(s) == s.skip(s.len() - trim_start(s).len()),
        trim_start(s).len() <= s.len(),
        trim_start(s).len() == 0 || !is_ws(trim_start(s)[0]),
        trim_start(trim_start(s)) == trim_start(s),
    decreases s.len(),
{
    if s.len() > 0 && is_ws(s[0]) {
        lemma_trim_start_suffix(s.drop_first());
        assert(s.drop_first().skip(s.drop_first().len() - trim_start(s).len()) =~= s.skip(s.len() - trim_start(s).len()));
    } else {
        assert(s.skip(0) =~= s);
    }
}

/// `trim_end` keeps a prefix that is empty or ends with a non-whitespace character, and
/// trimming it again changes nothing.
pub(crate) proof fn lemma_trim_end_prefix(s: Seq<char>)
    ensures
        trim_end(s) == s.take(trim_end(s).len() as int),
        trim_end(s).len() <= s.len(),
        trim_end(s).len() == 0 || !is_ws(trim_end(s).last()),
        trim_end(trim_end(s)) == trim_end(s),
    decreases s.len(),
{
    if s.len() > 0 && is_ws(s.last()) {
        lemma_trim_end_prefix(s.drop_last());
        assert(s.drop_last().take(trim_end(s).len() as int) =~= s.take(trim_end(s).len() as int));
    } else {
        assert(s.take(s.len() as int) =~= s);
    }
}

/// Trimming twice is trimming once.
pub(crate) proof fn lemma_trim_idempotent(s: Seq<char>)
    ensures
        trim(trim(s)) == trim(s),
        trim(trim_start(s)) == trim(s),
{
    lemma_trim_start_suffix(s);
    let x = trim_start(s);
    lemma_trim_end_prefix(x);
    let y = trim_end(x);
    if y.len() > 0 {
        assert(y[0] == x[0]);
    }
    assert(trim_start(y) == y);
}

/// Every character of `trim(s)` is a character of `s`.
pub(crate) proof fn lemma_trim_chars(s: Seq<char>, c: char)
    requires
        !has_char(s, c),
    ensures
        !has_char(trim(s), c),
{
    lemma_trim_start_suffix(s);
    let x = trim_start(s);
    lemma_trim_end_prefix(x);
    let y = trim_end(x);
    assert forall|i: int| 0 <= i < y.len() implies y[i] != c by {
        assert(y[i] == x[i]);
        assert(x[i] == s[s.len() - x.len() + i]);
    }
}

/// Leading whitespace is trimmed before a `sep` that follows `v` (which holds none).
pub(crate) proof fn lemma_trim_start_before(v: Seq<char>, sep: char, rest: Seq<char>)
    requires
        !has_char(v, sep),
        !is_ws(sep),
    ensures
        trim_start(v + seq![sep] + rest) == trim_start(v) + seq![sep] + rest,
    decreases v.len(),
{
    if v.len() == 0 {
        assert(v + seq![sep] + rest =~= seq![sep] + rest);
        assert((seq![sep] + rest)[0] == sep);
        assert(trim_start(v) + seq![sep] + rest =~= seq![sep] + rest);
    } else {
        assert((v + seq![sep] + rest)[0] == v[0]);
        if is_ws(v[0]) {
            assert((v + seq![sep] + rest).drop_first() =~= v.drop_first() + seq![sep] + rest);
            assert(!has_char(v.drop_first(), sep)) by {
                assert forall|i: int| 0 <= i < v.drop_first().len() implies v.drop_first()[i] != sep by {
                    assert(v.drop_first()[i] == v[i + 1]);
                }
            }
            lemma_trim_start_before(v.drop_first(), sep, rest);
        }
    }
}

/// Trailing whitespace after a `sep` is trimmed from the part after it only.
pub(crate) proof fn lemma_trim_end_after(x: Seq<char>, sep: char, rest: Seq<char>)
    requires
        !is_ws(sep),
    ensures
        trim_end(x + seq![sep] + rest) == x + seq![sep] + trim_end(rest),
    decreases rest.len(),
{
    if rest.len() == 0 {
        assert(x + seq![sep] + rest =~= x.push(sep));
        assert(x + seq![sep] + trim_end(rest) =~= x.push(sep));
    } else {
        assert((x + seq![sep] + rest).last() == rest.last());
        if is_ws(rest.last()) {
            assert((x + seq![sep] + rest).drop_last() =~= x + seq![sep] + rest.drop_last());
            lemma_trim_end_after(x, sep, rest.drop_last());
        }
    }
}
} // verus!
