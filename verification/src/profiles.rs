//! Visual configurator profiles (Cell × Brew).
//!
//! Cell profiles store RF and network/cell identity, Brew profiles the optional backhaul.
//! Profiles live as JSON files next to the configuration; the caller reads and writes
//! them, this module decides names, listings, and what is stored and shown.
use vstd::prelude::*;
use crate::host_network::{lemma_name_lt_irreflexive, lemma_name_lt_total, lemma_name_lt_transitive, name_lt, name_lt_exec};
use crate::update_check::opt_view;
use crate::json::{keys_sorted, lemma_member_first, member, obj_get, obj_remove, obj_set, Json};
use crate::text::{chars_eq, chars_of, contains, contains_exec, has_char, has_char_exec, string_of, trim, trim_exec};

verus! {

/// Which Cell and Brew profiles are applied (`profiles/active.json`).
#[derive(Debug, Clone)]
pub struct ActiveProfiles {
    pub cell: String,
    /// `None` (JSON null) is offline: no `[brew]` section.
    pub brew: Option<String>,
}

impl Default for ActiveProfiles {
    fn default() -> (r: Self)
        ensures
            r.cell@ == "Default"@,
            r.brew is None,
    {
        ActiveProfiles { cell: string_of(chars_of("Default").as_slice()), brew: None }
    }
}

/// One profile in a listing.
#[derive(Debug, Clone)]
pub struct ProfileListItem {
    pub name: String,
    pub active: bool,
}

/// Bytes the UTF-8 encoding of `c` takes.
pub open spec fn utf8_width(c: char) -> nat {
    if (c as u32) < 0x80 {
        1
    } else if (c as u32) < 0x800 {
        2
    } else if (c as u32) < 0x10000 {
        3
    } else {
        4
    }
}

/// Bytes the UTF-8 encoding of `s` takes (what `str::len` counts).
pub open spec fn utf8_len(s: Seq<char>) -> nat
    decreases s.len(),
{
    if s.len() == 0 {
        0
    } else {
        utf8_len(s.drop_last()) + utf8_width(s.last())
    }
}

/// A character a profile name may hold: an ASCII letter or digit, space, `.`, `_` or `-`.
pub open spec fn name_char_ok(c: char) -> bool {
    ||| ('a' <= c && c <= 'z')
    ||| ('A' <= c && c <= 'Z')
    ||| ('0' <= c && c <= '9')
    ||| c == ' ' || c == '-' || c == '_' || c == '.'
}

/// A profile name, trimmed, or why it is refused: empty, longer than 64 bytes, holding
/// `..`, `/`, `\` or NUL, or holding any character other than those of [`name_char_ok`].
pub open spec fn spec_sanitize_name(name: Seq<char>) -> Result<Seq<char>, Seq<char>> {
    let t = trim(name);
    if t.len() == 0 {
        Err("profile name is empty"@)
    } else if utf8_len(t) > 64 {
        Err("profile name too long (max 64)"@)
    } else if contains(t, ".."@) || has_char(t, '/') || has_char(t, '\\') || has_char(t, '\0') {
        Err("profile name contains illegal characters"@)
    } else if !(forall|i: int| 0 <= i < t.len() ==> name_char_ok(#[trigger] t[i])) {
        Err("profile name may only contain letters, digits, space, ._-"@)
    } else {
        Ok(t)
    }
}

proof fn lemma_utf8_len_take(s: Seq<char>, i: int)
    requires
        0 <= i < s.len(),
    ensures
        utf8_len(s.take(i + 1)) == utf8_len(s.take(i)) + utf8_width(s[i]),
{
    assert(s.take(i + 1).drop_last() =~= s.take(i));
}

proof fn lemma_utf8_len_mono(s: Seq<char>, i: int)
    requires
        0 <= i <= s.len(),
    ensures
        utf8_len(s.take(i)) <= utf8_len(s),
    decreases s.len() - i,
{
    if i < s.len() {
        lemma_utf8_len_take(s, i);
        lemma_utf8_len_mono(s, i + 1);
    } else {
        assert(s.take(i) =~= s);
    }
}

fn utf8_width_exec(c: char) -> (r: u64)
    ensures
        r == utf8_width(c),
{
    let v = c as u32;
    if v < 0x80 {
        1
    } else if v < 0x800 {
        2
    } else if v < 0x10000 {
        3
    } else {
        4
    }
}

/// `utf8_len(s) > max`, counting no further than needed.
fn utf8_longer_than(s: &[char], max: u64) -> (r: bool)
    requires
        max <= 4096,
    ensures
        r == (utf8_len(s@) > max),
{
    let mut total: u64 = 0;
    let mut i: usize = 0;
    assert(s@.take(0) =~= Seq::<char>::empty());
    while i < s.len()
        invariant
            i <= s.len(),
            total == utf8_len(s@.take(i as int)),
            total <= max,
            max <= 4096,
        decreases s.len() - i,
    {
        proof {
            lemma_utf8_len_take(s@, i as int);
        }
        total = total + utf8_width_exec(s[i]);
        if total > max {
            proof {
                lemma_utf8_len_mono(s@, i + 1);
            }
            return true;
        }
        i += 1;
    }
    assert(s@.take(s.len() as int) =~= s@);
    false
}

fn name_char_ok_exec(c: char) -> (r: bool)
    ensures
        r == name_char_ok(c),
{
    ('a' <= c && c <= 'z') || ('A' <= c && c <= 'Z') || ('0' <= c && c <= '9') || c == ' ' || c == '-' || c == '_'
        || c == '.'
}

fn err_text(m: &str) -> (r: Result<String, String>)
    ensures
        r matches Err(e) && e@ == m@,
{
    Err(string_of(chars_of(m).as_slice()))
}

/// A profile name, trimmed, or why it is refused (see [`spec_sanitize_name`]).
pub fn sanitize_name(name: &str) -> (r: Result<String, String>)
    ensures
        match r {
            Ok(n) => spec_sanitize_name(name@) == Ok::<Seq<char>, Seq<char>>(n@),
            Err(e) => spec_sanitize_name(name@) == Err::<Seq<char>, Seq<char>>(e@),
        },
{
    let t = trim_exec(chars_of(name).as_slice());
    if t.len() == 0 {
        return err_text("profile name is empty");
    }
    if utf8_longer_than(t.as_slice(), 64) {
        return err_text("profile name too long (max 64)");
    }
    let dots = chars_of("..");
    if contains_exec(t.as_slice(), dots.as_slice()) || has_char_exec(t.as_slice(), '/') || has_char_exec(
        t.as_slice(),
        '\\',
    ) || has_char_exec(t.as_slice(), '\0') {
        return err_text("profile name contains illegal characters");
    }
    let mut i: usize = 0;
    while i < t.len()
        invariant
            i <= t.len(),
            t@ == trim(name@),
            t@.len() > 0,
            !(utf8_len(t@) > 64),
            !(contains(t@, ".."@) || has_char(t@, '/') || has_char(t@, '\\') || has_char(t@, '\0')),
            forall|k: int| 0 <= k < i ==> name_char_ok(#[trigger] t@[k]),
        decreases t.len() - i,
    {
        if !name_char_ok_exec(t[i]) {
            assert(!name_char_ok(t@[i as int]));
            return err_text("profile name may only contain letters, digits, space, ._-");
        }
        i += 1;
    }
    Ok(string_of(t.as_slice()))
}

// ---------------------------------------------------------------------------
// Listings
// ---------------------------------------------------------------------------

/// `x` placed into `sorted` after every name it does not sort before.
pub open spec fn insert_name(sorted: Seq<Seq<char>>, x: Seq<char>) -> Seq<Seq<char>>
    decreases sorted.len(),
{
    if sorted.len() == 0 {
        seq![x]
    } else if name_lt(x, sorted.last()) {
        insert_name(sorted.drop_last(), x).push(sorted.last())
    } else {
        sorted.push(x)
    }
}

/// Names in ascending order (by character codes, as strings compare).
pub open spec fn sort_names(s: Seq<Seq<char>>) -> Seq<Seq<char>>
    decreases s.len(),
{
    if s.len() == 0 {
        Seq::empty()
    } else {
        insert_name(sort_names(s.drop_last()), s.last())
    }
}

proof fn lemma_insert_name_at(s: Seq<Seq<char>>, x: Seq<char>, j: int)
    requires
        0 <= j <= s.len(),
        forall|k: int| j <= k < s.len() ==> name_lt(x, #[trigger] s[k]),
        j == 0 || !name_lt(x, s[j - 1]),
    ensures
        insert_name(s, x) == s.take(j).push(x) + s.skip(j),
    decreases s.len(),
{
    if s.len() == 0 {
        assert(s.take(j).push(x) + s.skip(j) =~= seq![x]);
    } else if name_lt(x, s.last()) {
        assert(j < s.len());
        let d = s.drop_last();
        assert forall|k: int| j <= k < d.len() implies name_lt(x, #[trigger] d[k]) by {
            assert(d[k] == s[k]);
        }
        lemma_insert_name_at(d, x, j);
        assert((d.take(j).push(x) + d.skip(j)).push(s.last()) =~= s.take(j).push(x) + s.skip(j));
    } else {
        assert(j == s.len()) by {
            if j < s.len() {
                assert(name_lt(x, s[s.len() - 1]));
            }
        }
        assert(s.take(j).push(x) + s.skip(j) =~= s.push(x));
    }
}

/// No name comes before one that sorts before it.
pub open spec fn names_ascending(s: Seq<Seq<char>>) -> bool {
    forall|i: int, j: int| 0 <= i < j < s.len() ==> !name_lt(#[trigger] s[j], #[trigger] s[i])
}

proof fn lemma_insert_name_sorted(s: Seq<Seq<char>>, x: Seq<char>)
    requires
        names_ascending(s),
    ensures
        names_ascending(insert_name(s, x)),
        insert_name(s, x).to_multiset() == s.to_multiset().insert(x),
    decreases s.len(),
{
    broadcast use vstd::seq_lib::group_to_multiset_ensures;
    if s.len() == 0 {
        assert(seq![x] =~= Seq::<Seq<char>>::empty().push(x));
    } else if name_lt(x, s.last()) {
        let d = s.drop_last();
        let l = s.last();
        assert(names_ascending(d)) by {
            assert forall|i: int, j: int| 0 <= i < j < d.len() implies !name_lt(#[trigger] d[j], #[trigger] d[i]) by {
                assert(d[i] == s[i] && d[j] == s[j]);
            }
        }
        lemma_insert_name_sorted(d, x);
        let r1 = insert_name(d, x);
        assert(s =~= d.push(l));
        assert forall|e: Seq<char>| r1.contains(e) implies !name_lt(l, e) by {
            assert(r1.to_multiset().count(e) > 0);
            if e == x {
                if name_lt(l, x) {
                    lemma_name_lt_transitive(l, x, l);
                    lemma_name_lt_irreflexive(l);
                }
            } else {
                assert(d.to_multiset().count(e) > 0);
                let i = choose|i: int| 0 <= i < d.len() && d[i] == e;
                assert(s[i] == e && s[s.len() - 1] == l);
            }
        }
        let r = r1.push(l);
        assert forall|i: int, j: int| 0 <= i < j < r.len() implies !name_lt(#[trigger] r[j], #[trigger] r[i]) by {
            if j == r.len() - 1 {
                assert(r1.contains(r1[i]));
            } else {
                assert(r[i] == r1[i] && r[j] == r1[j]);
            }
        }
    } else {
        let l = s.last();
        let r = s.push(x);
        assert forall|i: int, j: int| 0 <= i < j < r.len() implies !name_lt(#[trigger] r[j], #[trigger] r[i]) by {
            if j == r.len() - 1 {
                let si = s[i];
                if name_lt(x, si) {
                    if si == l {
                    } else {
                        assert(s[s.len() - 1] == l);
                        if i < s.len() - 1 {
                            assert(!name_lt(l, si));
                            lemma_name_lt_total(si, l);
                            lemma_name_lt_transitive(x, si, l);
                        }
                    }
                }
            } else {
                assert(r[i] == s[i] && r[j] == s[j]);
            }
        }
    }
}

/// Listings are sorted: [`sort_names`] puts the names in ascending order, each as often as
/// it was given.
pub proof fn lemma_sort_names_sorted(s: Seq<Seq<char>>)
    ensures
        names_ascending(sort_names(s)),
        sort_names(s).to_multiset() == s.to_multiset(),
    decreases s.len(),
{
    broadcast use vstd::seq_lib::group_to_multiset_ensures;
    if s.len() > 0 {
        lemma_sort_names_sorted(s.drop_last());
        lemma_insert_name_sorted(sort_names(s.drop_last()), s.last());
        assert(s =~= s.drop_last().push(s.last()));
    }
}

/// The views of a vector of strings.
pub open spec fn name_views(v: Seq<String>) -> Seq<Seq<char>> {
    v.map_values(|s: String| s@)
}

/// The names in ascending order, as `sort` orders strings.
pub fn sorted_names(names: &Vec<String>) -> (r: Vec<String>)
    ensures
        name_views(r@) == sort_names(name_views(names@)),
        names_ascending(name_views(r@)),
        name_views(r@).to_multiset() == name_views(names@).to_multiset(),
{
    proof {
        lemma_sort_names_sorted(name_views(names@));
    }
    let ghost nv = name_views(names@);
    let mut sorted: Vec<String> = Vec::new();
    let mut i: usize = 0;
    assert(name_views(sorted@) =~= Seq::<Seq<char>>::empty());
    assert(nv.take(0) =~= Seq::<Seq<char>>::empty());
    while i < names.len()
        invariant
            i <= names.len(),
            nv == name_views(names@),
            name_views(sorted@) == sort_names(nv.take(i as int)),
        decreases names.len() - i,
    {
        assert(nv.take(i + 1).drop_last() =~= nv.take(i as int));
        assert(nv.take(i + 1).last() == nv[i as int]);
        let x = chars_of(names[i].as_str());
        let ghost cur = name_views(sorted@);
        let mut j: usize = sorted.len();
        while j > 0 && name_lt_exec(x.as_slice(), chars_of(sorted[j - 1].as_str()).as_slice())
            invariant
                j <= sorted.len(),
                cur == name_views(sorted@),
                x@ == nv[i as int],
                forall|k: int| j <= k < cur.len() ==> name_lt(x@, #[trigger] cur[k]),
            decreases j,
        {
            assert(cur[j - 1] == sorted@[j - 1]@);
            j -= 1;
        }
        proof {
            if j > 0 {
                assert(cur[j - 1] == sorted@[j - 1]@);
            }
            lemma_insert_name_at(cur, x@, j as int);
        }
        sorted.insert(j, string_of(x.as_slice()));
        assert(name_views(sorted@) =~= cur.take(j as int).push(x@) + cur.skip(j as int));
        i += 1;
    }
    assert(nv.take(names.len() as int) =~= nv);
    sorted
}

/// A listing as (name, active) pairs.
pub open spec fn item_views(v: Seq<ProfileListItem>) -> Seq<(Seq<char>, bool)> {
    v.map_values(|it: ProfileListItem| (it.name@, it.active))
}

/// The Cell profiles, by name, each marked when it is the active one.
pub open spec fn spec_cell_listing(names: Seq<Seq<char>>, active_cell: Seq<char>) -> Seq<(Seq<char>, bool)> {
    sort_names(names).map_values(|n: Seq<char>| (n, n == active_cell))
}

/// The Brew profiles, by name, each marked when it is the active one.
pub open spec fn spec_brew_listing(names: Seq<Seq<char>>, active_brew: Option<Seq<char>>) -> Seq<(Seq<char>, bool)> {
    sort_names(names).map_values(|n: Seq<char>| (n, active_brew == Some(n)))
}

/// The Cell profile listing, from the names of the profile files (without `.json`) and the
/// active selection.
pub fn list_cell_profiles(names: &Vec<String>, active: &ActiveProfiles) -> (r: Vec<ProfileListItem>)
    ensures
        item_views(r@) == spec_cell_listing(name_views(names@), active.cell@),
{
    let sorted = sorted_names(names);
    let ac = chars_of(active.cell.as_str());
    let mut out: Vec<ProfileListItem> = Vec::new();
    let mut i: usize = 0;
    while i < sorted.len()
        invariant
            i <= sorted.len(),
            ac@ == active.cell@,
            item_views(out@) == name_views(sorted@).take(i as int).map_values(|n: Seq<char>| (n, n == active.cell@)),
        decreases sorted.len() - i,
    {
        let n = chars_of(sorted[i].as_str());
        let is_active = chars_eq(n.as_slice(), ac.as_slice());
        let ghost prev = item_views(out@);
        out.push(ProfileListItem { name: string_of(n.as_slice()), active: is_active });
        assert(item_views(out@) =~= prev.push((sorted@[i as int]@, is_active)));
        assert(name_views(sorted@).take(i + 1).map_values(|n: Seq<char>| (n, n == active.cell@)) =~= name_views(
            sorted@,
        ).take(i as int).map_values(|n: Seq<char>| (n, n == active.cell@)).push((sorted@[i as int]@, is_active)));
        i += 1;
    }
    assert(name_views(sorted@).take(sorted.len() as int) =~= name_views(sorted@));
    out
}

/// The Brew profile listing, from the names of the profile files (without `.json`) and the
/// active selection.
pub fn list_brew_profiles(names: &Vec<String>, active: &ActiveProfiles) -> (r: Vec<ProfileListItem>)
    ensures
        item_views(r@) == spec_brew_listing(name_views(names@), opt_view(active.brew)),
{
    let ghost ab: Option<Seq<char>> = opt_view(active.brew);
    let sorted = sorted_names(names);
    let mut out: Vec<ProfileListItem> = Vec::new();
    let mut i: usize = 0;
    while i < sorted.len()
        invariant
            i <= sorted.len(),
            ab == opt_view(active.brew),
            item_views(out@) == name_views(sorted@).take(i as int).map_values(|n: Seq<char>| (n, ab == Some(n))),
        decreases sorted.len() - i,
    {
        let n = chars_of(sorted[i].as_str());
        let is_active = match &active.brew {
            Some(b) => chars_eq(n.as_slice(), chars_of(b.as_str()).as_slice()),
            None => false,
        };
        let ghost prev = item_views(out@);
        out.push(ProfileListItem { name: string_of(n.as_slice()), active: is_active });
        assert(item_views(out@) =~= prev.push((sorted@[i as int]@, is_active)));
        assert(name_views(sorted@).take(i + 1).map_values(|n: Seq<char>| (n, ab == Some(n))) =~= name_views(
            sorted@,
        ).take(i as int).map_values(|n: Seq<char>| (n, ab == Some(n))).push((sorted@[i as int]@, is_active)));
        i += 1;
    }
    assert(name_views(sorted@).take(sorted.len() as int) =~= name_views(sorted@));
    out
}

// ---------------------------------------------------------------------------
// Profile bodies
// ---------------------------------------------------------------------------

/// What a stored password is shown as.
pub const MASKED_PASSWORD: &'static str = "••••••••";

/// The text of a string member, if the member is a string.
pub open spec fn str_member(fields: Seq<(String, Json)>, key: Seq<char>) -> Option<Seq<char>> {
    match member(fields, key) {
        Some(Json::Str(p)) => Some(p@),
        _ => None,
    }
}

/// `j` is a string with text `t`.
pub open spec fn is_str(j: Option<Json>, t: Seq<char>) -> bool {
    j matches Some(Json::Str(s)) && s@ == t
}

/// Every member of `nf` but those named `a` and `b` is that of `of`.
pub open spec fn same_except(nf: Seq<(String, Json)>, of: Seq<(String, Json)>, a: Seq<char>, b: Seq<char>) -> bool {
    forall|k: Seq<char>| k != a && k != b ==> #[trigger] member(nf, k) == member(of, k)
}

/// An object value whose members are sorted by key (as a parsed JSON object holds them).
pub open spec fn sorted_object(j: Json) -> bool {
    j matches Json::Object(f) ==> keys_sorted(f@)
}

/// A Brew profile as shown to the dashboard: a non-empty password is shown masked and
/// `password_set` says whether one is stored; other members are unchanged.
pub open spec fn brew_masked(v: Json, r: Json) -> bool {
    match v {
        Json::Object(fields) => r matches Json::Object(nf) && keys_sorted(nf@) && same_except(
            nf@,
            fields@,
            "password"@,
            "password_set"@,
        ) && match str_member(fields@, "password"@) {
            None => member(nf@, "password"@) == member(fields@, "password"@) && member(nf@, "password_set"@)
                == member(fields@, "password_set"@),
            Some(p) => if p.len() > 0 {
                is_str(member(nf@, "password"@), MASKED_PASSWORD@) && member(nf@, "password_set"@) == Some(
                    Json::Bool(true),
                )
            } else {
                member(nf@, "password"@) == member(fields@, "password"@) && member(nf@, "password_set"@) == Some(
                    Json::Bool(false),
                )
            },
        },
        _ => r == v,
    }
}

fn owned(s: &str) -> (r: String)
    ensures
        r@ == s@,
{
    string_of(chars_of(s).as_slice())
}

/// A Brew profile with its secret masked for display (see [`brew_masked`]).
pub fn mask_brew_password(v: Json) -> (r: Json)
    requires
        sorted_object(v),
    ensures
        brew_masked(v, r),
{
    match v {
        Json::Object(fields) => {
            let ghost f0 = fields@;
            let mut fields = fields;
            let nonempty = match obj_get(&fields, "password") {
                Some(Json::Str(p)) => Some(!p.as_str().is_empty()),
                _ => None,
            };
            proof {
                reveal_strlit("password");
                reveal_strlit("password_set");
                assert("password"@.len() != "password_set"@.len());
                if nonempty is Some {
                    assert(str_member(f0, "password"@) is Some);
                } else {
                    assert(str_member(f0, "password"@) is None);
                }
            }
            match nonempty {
                Some(true) => {
                    obj_set(&mut fields, owned("password"), Json::Str(owned(MASKED_PASSWORD)));
                    obj_set(&mut fields, owned("password_set"), Json::Bool(true));
                },
                Some(false) => {
                    obj_set(&mut fields, owned("password_set"), Json::Bool(false));
                },
                None => {},
            }
            Json::Object(fields)
        },
        other => other,
    }
}

/// `cell_info` as a Cell profile stores it: without `sds_command_control` (station-wide
/// control, not part of a Cell profile).
pub open spec fn stripped(old: Option<Json>, new: Option<Json>) -> bool {
    match old {
        None => new is None,
        Some(Json::Object(cf)) => new matches Some(Json::Object(nf)) && keys_sorted(nf@) && forall|k: Seq<char>|
            #[trigger] member(nf@, k) == if k == "sds_command_control"@ {
                None
            } else {
                member(cf@, k)
            },
        Some(other) => new == Some(other),
    }
}

/// A Cell profile body whose members, and those of its `cell_info`, are sorted by key.
pub open spec fn cell_body_sorted(j: Json) -> bool {
    &&& sorted_object(j)
    &&& j matches Json::Object(f) ==> match member(f@, "cell_info"@) {
        Some(ci) => sorted_object(ci),
        None => true,
    }
}

fn strip_sds_command_control(ci: Json) -> (r: Json)
    requires
        sorted_object(ci),
    ensures
        stripped(Some(ci), Some(r)),
{
    match ci {
        Json::Object(cf) => {
            let mut cf = cf;
            let _ = obj_remove(&mut cf, "sds_command_control");
            Json::Object(cf)
        },
        other => other,
    }
}

/// A Cell profile body as stored: `cell_info` stripped (see [`stripped`]), every other
/// member unchanged.
pub open spec fn cell_stored(f: Seq<(String, Json)>, nf: Seq<(String, Json)>) -> bool {
    &&& keys_sorted(nf)
    &&& same_except(nf, f, "cell_info"@, "cell_info"@)
    &&& stripped(member(f, "cell_info"@), member(nf, "cell_info"@))
}

/// The outcome of storing `body` as Cell profile `name`: the sanitized name and the body
/// as stored, or why it is refused (a bad name, a body that is not an object, or one
/// without `phy_io`, `net_info` or `cell_info`).
pub open spec fn put_cell_outcome(name: Seq<char>, body: Json, r: Result<(String, Json), String>) -> bool {
    match spec_sanitize_name(name) {
        Err(e) => r matches Err(m) && m@ == e,
        Ok(n) => match body {
            Json::Object(f) => if member(f@, "phy_io"@) is None && member(f@, "net_info"@) is None && member(
                f@,
                "cell_info"@,
            ) is None {
                r matches Err(m) && m@ == "cell profile must include phy_io, net_info and/or cell_info"@
            } else {
                r matches Ok((rn, Json::Object(nf))) && rn@ == n && cell_stored(f@, nf@)
            },
            _ => r matches Err(m) && m@ == "cell profile body must be a JSON object"@,
        },
    }
}

/// Validate and clean a Cell profile body before it is stored under `name` (see
/// [`put_cell_outcome`]); the caller writes the file.
pub fn put_cell_profile(name: &str, body: Json) -> (r: Result<(String, Json), String>)
    requires
        cell_body_sorted(body),
    ensures
        put_cell_outcome(name@, body, r),
{
    let n = match sanitize_name(name) {
        Ok(n) => n,
        Err(e) => return Err(e),
    };
    match body {
        Json::Object(f) => {
            let ghost f0 = f@;
            let mut f = f;
            if obj_get(&f, "phy_io").is_none() && obj_get(&f, "net_info").is_none() && obj_get(&f, "cell_info").is_none() {
                return Err(owned("cell profile must include phy_io, net_info and/or cell_info"));
            }
            match obj_remove(&mut f, "cell_info") {
                Some(ci) => {
                    let ci2 = strip_sds_command_control(ci);
                    obj_set(&mut f, owned("cell_info"), ci2);
                },
                None => {},
            }
            Ok((n, Json::Object(f)))
        },
        _ => Err(owned("cell profile body must be a JSON object")),
    }
}

/// `p` is how a password comes back from the dashboard when the user did not retype it:
/// bullets only (the masked text, or nothing at all).
pub open spec fn is_masked(p: Seq<char>) -> bool {
    forall|i: int| 0 <= i < p.len() ==> p[i] == '•'
}

fn is_masked_exec(p: &str) -> (r: bool)
    ensures
        r == is_masked(p@),
{
    let cs = chars_of(p);
    let mut i: usize = 0;
    while i < cs.len()
        invariant
            i <= cs.len(),
            cs@ == p@,
            forall|k: int| 0 <= k < i ==> cs@[k] == '•',
        decreases cs.len() - i,
    {
        if cs[i] != '•' {
            return false;
        }
        i += 1;
    }
    true
}

/// The trimmed text of a string member; empty when it is missing or not a string.
pub open spec fn trimmed_str(f: Seq<(String, Json)>, key: Seq<char>) -> Seq<char> {
    match str_member(f, key) {
        Some(h) => trim(h),
        None => Seq::empty(),
    }
}

/// The outcome of storing `body` as Brew profile `name`, `existing` being the profile
/// stored under that name if it could be read: the sanitized name and the body as stored,
/// or why it is refused (a bad name, a body that is not an object, no host, or a masked
/// password with no stored profile to take the real one from). A masked password is
/// replaced by the stored one (when the stored profile has a string password);
/// `password_set` is dropped; every other member is unchanged.
pub open spec fn put_brew_outcome(
    name: Seq<char>,
    body: Json,
    existing: Option<Json>,
    r: Result<(String, Json), String>,
) -> bool {
    match spec_sanitize_name(name) {
        Err(e) => r matches Err(m) && m@ == e,
        Ok(n) => match body {
            Json::Object(f) => {
                let masked = match str_member(f@, "password"@) {
                    Some(p) => is_masked(p),
                    None => false,
                };
                if trimmed_str(f@, "host"@).len() == 0 {
                    r matches Err(m) && m@ == "brew.host is required"@
                } else if masked && existing is None {
                    r matches Err(m) && m@
                        == "password is masked; re-enter the password when creating a new brew profile"@
                } else {
                    r matches Ok((rn, Json::Object(nf))) && rn@ == n && keys_sorted(nf@) && same_except(
                        nf@,
                        f@,
                        "password"@,
                        "password_set"@,
                    ) && member(nf@, "password_set"@) is None && member(nf@, "password"@) == if masked
                        && crate::json::json_get(existing->0, "password"@) matches Some(Json::Str(_)) {
                        crate::json::json_get(existing->0, "password"@)
                    } else {
                        member(f@, "password"@)
                    }
                }
            },
            _ => r matches Err(m) && m@ == "brew profile body must be a JSON object"@,
        },
    }
}

/// Validate a Brew profile body before it is stored under `name` (see
/// [`put_brew_outcome`]); the caller reads the stored profile and writes the file.
pub fn put_brew_profile(name: &str, body: Json, existing: Option<Json>) -> (r: Result<(String, Json), String>)
    requires
        sorted_object(body),
    ensures
        put_brew_outcome(name@, body, existing, r),
{
    let n = match sanitize_name(name) {
        Ok(n) => n,
        Err(e) => return Err(e),
    };
    match body {
        Json::Object(f) => {
            let ghost f0 = f@;
            let mut f = f;
            let host_empty = match obj_get(&f, "host") {
                Some(Json::Str(h)) => trim_exec(chars_of(h.as_str()).as_slice()).len() == 0,
                _ => true,
            };
            if host_empty {
                return Err(owned("brew.host is required"));
            }
            let masked = match obj_get(&f, "password") {
                Some(Json::Str(p)) => is_masked_exec(p.as_str()),
                _ => false,
            };
            if masked {
                match &existing {
                    Some(ex) => {
                        match crate::json::get(ex, "password") {
                            Some(Json::Str(stored)) => {
                                obj_set(&mut f, owned("password"), Json::Str(stored.clone()));
                            },
                            _ => {},
                        }
                    },
                    None => {
                        return Err(owned("password is masked; re-enter the password when creating a new brew profile"));
                    },
                }
            }
            proof {
                reveal_strlit("password");
                reveal_strlit("password_set");
                assert("password"@.len() != "password_set"@.len());
            }
            let _ = obj_remove(&mut f, "password_set");
            Ok((n, Json::Object(f)))
        },
        _ => Err(owned("brew profile body must be a JSON object")),
    }
}

/// Copy Cell profile `name` to `new_name`: `src` is what reading `name` gave (its text as
/// JSON, or the read error). The name is checked first, then the read, then the copy is
/// validated as a new profile (see [`put_cell_outcome`]).
pub fn duplicate_cell_profile(name: &str, new_name: &str, src: Result<Json, String>) -> (r: Result<(String, Json), String>)
    requires
        src matches Ok(j) ==> cell_body_sorted(j),
    ensures
        match spec_sanitize_name(name@) {
            Err(e) => r matches Err(m) && m@ == e,
            Ok(_) => match src {
                Err(e) => r matches Err(m) && m@ == e@,
                Ok(j) => put_cell_outcome(new_name@, j, r),
            },
        },
{
    match sanitize_name(name) {
        Ok(_) => {},
        Err(e) => return Err(e),
    }
    match src {
        Ok(j) => put_cell_profile(new_name, j),
        Err(e) => Err(e),
    }
}

/// Copy Brew profile `name` to `new_name`: `src` is what reading `name` gave, `existing`
/// the profile already stored under `new_name` if it could be read (see
/// [`put_brew_outcome`]).
pub fn duplicate_brew_profile(
    name: &str,
    new_name: &str,
    src: Result<Json, String>,
    existing: Option<Json>,
) -> (r: Result<(String, Json), String>)
    requires
        src matches Ok(j) ==> sorted_object(j),
    ensures
        match spec_sanitize_name(name@) {
            Err(e) => r matches Err(m) && m@ == e,
            Ok(_) => match src {
                Err(e) => r matches Err(m) && m@ == e@,
                Ok(j) => put_brew_outcome(new_name@, j, existing, r),
            },
        },
{
    match sanitize_name(name) {
        Ok(_) => {},
        Err(e) => return Err(e),
    }
    match src {
        Ok(j) => put_brew_profile(new_name, j, existing),
        Err(e) => Err(e),
    }
}

/// Whether Cell profile `name` may be deleted: not the active one, and not the last one
/// (`count` profiles exist). The sanitized name of the file to remove, or why not.
pub fn delete_cell_profile(name: &str, active: &ActiveProfiles, count: usize) -> (r: Result<String, String>)
    ensures
        match spec_sanitize_name(name@) {
            Err(e) => r matches Err(m) && m@ == e,
            Ok(n) => if active.cell@ == n {
                r matches Err(m) && m@ == "cannot delete the active cell profile"@
            } else if count <= 1 {
                r matches Err(m) && m@ == "cannot delete the last cell profile"@
            } else {
                r matches Ok(rn) && rn@ == n
            },
        },
{
    let n = match sanitize_name(name) {
        Ok(n) => n,
        Err(e) => return Err(e),
    };
    if chars_eq(chars_of(active.cell.as_str()).as_slice(), chars_of(n.as_str()).as_slice()) {
        return Err(owned("cannot delete the active cell profile"));
    }
    if count <= 1 {
        return Err(owned("cannot delete the last cell profile"));
    }
    Ok(n)
}

/// Whether Brew profile `name` may be deleted: not the active one. The sanitized name of the
/// file to remove, or why not.
pub fn delete_brew_profile(name: &str, active: &ActiveProfiles) -> (r: Result<String, String>)
    ensures
        match spec_sanitize_name(name@) {
            Err(e) => r matches Err(m) && m@ == e,
            Ok(n) => if opt_view(active.brew) == Some(n) {
                r matches Err(m) && m@ == "cannot delete the active brew profile"@
            } else {
                r matches Ok(rn) && rn@ == n
            },
        },
{
    let n = match sanitize_name(name) {
        Ok(n) => n,
        Err(e) => return Err(e),
    };
    let is_active = match &active.brew {
        Some(b) => chars_eq(chars_of(b.as_str()).as_slice(), chars_of(n.as_str()).as_slice()),
        None => false,
    };
    if is_active {
        return Err(owned("cannot delete the active brew profile"));
    }
    Ok(n)
}

/// The ISSIs of a whitelist array: each member that is a non-negative integer fitting in
/// 64 bits, cut to its low 32 bits; other members are skipped.
pub open spec fn issis_of(items: Seq<Json>) -> Seq<u32>
    decreases items.len(),
{
    if items.len() == 0 {
        Seq::empty()
    } else {
        let rest = issis_of(items.drop_last());
        match items.last() {
            Json::Number { as_u64: Some(n), text: _ } => rest.push((n % 4294967296) as u32),
            _ => rest,
        }
    }
}

/// `security.issi_whitelist` of a Cell profile; none when a level is missing or the list
/// is not an array (a legacy profile).
pub open spec fn spec_issi_whitelist(cell: Json) -> Option<Seq<u32>> {
    match crate::json::json_get(cell, "security"@) {
        Some(sec) => match crate::json::json_get(sec, "issi_whitelist"@) {
            Some(Json::Array(items)) => Some(issis_of(items@)),
            _ => None,
        },
        None => None,
    }
}

/// Read `security.issi_whitelist` from a Cell profile (see [`spec_issi_whitelist`]).
pub fn extract_issi_whitelist(cell: &Json) -> (r: Option<Vec<u32>>)
    ensures
        match r {
            Some(v) => spec_issi_whitelist(*cell) == Some(v@),
            None => spec_issi_whitelist(*cell) is None,
        },
{
    let sec = match crate::json::get(cell, "security") {
        Some(s) => s,
        None => return None,
    };
    let items = match crate::json::get(sec, "issi_whitelist") {
        Some(Json::Array(items)) => items,
        _ => return None,
    };
    let mut out: Vec<u32> = Vec::new();
    let mut i: usize = 0;
    assert(items@.take(0) =~= Seq::<Json>::empty());
    while i < items.len()
        invariant
            i <= items.len(),
            out@ == issis_of(items@.take(i as int)),
        decreases items.len() - i,
    {
        assert(items@.take(i + 1).drop_last() =~= items@.take(i as int));
        assert(items@.take(i + 1).last() == items@[i as int]);
        match &items[i] {
            Json::Number { as_u64: Some(n), text: _ } => {
                out.push((*n % 4294967296) as u32);
            },
            _ => {},
        }
        i += 1;
    }
    assert(items@.take(items.len() as int) =~= items@);
    Some(out)
}

/// `j` is the JSON number `n`.
pub open spec fn is_number(j: Json, n: nat) -> bool {
    j matches Json::Number { as_u64, text } && as_u64 == Some(n as u64) && text@ == crate::text::dec(n)
}

/// `security` as a whitelist patch writes it: an object whose one member is
/// `issi_whitelist`, the list.
pub open spec fn is_whitelist_security(j: Option<Json>, list: Seq<u32>) -> bool {
    j matches Some(Json::Object(sf)) && sf@.len() == 1 && sf@[0].0@ == "issi_whitelist"@ && (
    sf@[0].1 matches Json::Array(items) && items@.len() == list.len() && forall|i: int|
        0 <= i < list.len() ==> is_number(#[trigger] items@[i], list[i] as nat))
}

/// A Cell profile with only its ISSI whitelist replaced (`security` becomes the list); an
/// error when the profile is not an object.
pub fn set_cell_whitelist(cell: Json, list: &[u32]) -> (r: Result<Json, String>)
    requires
        sorted_object(cell),
    ensures
        match cell {
            Json::Object(f) => r matches Ok(Json::Object(nf)) && keys_sorted(nf@) && same_except(
                nf@,
                f@,
                "security"@,
                "security"@,
            ) && is_whitelist_security(member(nf@, "security"@), list@),
            _ => r matches Err(m) && m@ == "cell profile is not an object"@,
        },
{
    match cell {
        Json::Object(f) => {
            let mut f = f;
            let mut items: Vec<Json> = Vec::new();
            let mut i: usize = 0;
            while i < list.len()
                invariant
                    i <= list.len(),
                    items@.len() == i,
                    forall|k: int| 0 <= k < i ==> is_number(#[trigger] items@[k], list@[k] as nat),
                decreases list.len() - i,
            {
                let v = list[i];
                items.push(Json::Number { as_u64: Some(v as u64), text: string_of(crate::text::dec_chars(v as u64).as_slice()) });
                i += 1;
            }
            let mut sf: Vec<(String, Json)> = Vec::new();
            sf.push((owned("issi_whitelist"), Json::Array(items)));
            obj_set(&mut f, owned("security"), Json::Object(sf));
            Ok(Json::Object(f))
        },
        _ => Err(owned("cell profile is not an object")),
    }
}

/// A Cell profile captured from the visual form `f`: `config_version`, `stack_mode`,
/// `phy_io` and `net_info` as given, `cell_info` stripped (see [`stripped`]), `security`
/// as given or else an empty whitelist (open network for this Cell), and nothing else.
pub open spec fn visual_cell(f: Seq<(String, Json)>, nf: Seq<(String, Json)>) -> bool {
    &&& keys_sorted(nf)
    &&& forall|k: Seq<char>|
        k != "cell_info"@ && k != "security"@ ==> #[trigger] member(nf, k) == if k == "config_version"@ || k
            == "stack_mode"@ || k == "phy_io"@ || k == "net_info"@ {
            member(f, k)
        } else {
            None
        }
    &&& stripped(member(f, "cell_info"@), member(nf, "cell_info"@))
    &&& match member(f, "security"@) {
        Some(v) => member(nf, "security"@) == Some(v),
        None => is_whitelist_security(member(nf, "security"@), Seq::empty()),
    }
}

/// Move member `key` of `from`, if any, into `to`.
fn move_member(from: &mut Vec<(String, Json)>, to: &mut Vec<(String, Json)>, key: &str)
    requires
        keys_sorted(old(from)@),
        keys_sorted(old(to)@),
    ensures
        keys_sorted(final(from)@),
        keys_sorted(final(to)@),
        forall|k: Seq<char>| #[trigger] member(final(from)@, k) == if k == key@ {
            None
        } else {
            member(old(from)@, k)
        },
        forall|k: Seq<char>| #[trigger] member(final(to)@, k) == if k == key@ && member(old(from)@, key@) is Some {
            member(old(from)@, key@)
        } else {
            member(old(to)@, k)
        },
{
    match obj_remove(from, key) {
        Some(v) => obj_set(to, owned(key), v),
        None => {},
    }
}

proof fn lemma_stripped_twice(a: Option<Json>, b: Option<Json>, c: Option<Json>)
    requires
        stripped(a, b),
        stripped(b, c),
    ensures
        stripped(a, c),
{
    match a {
        Some(Json::Object(cf)) => {
            let b1 = b->0;
            let c1 = c->0;
            assert forall|k: Seq<char>| #[trigger] member(c1->Object_0@, k) == if k == "sds_command_control"@ {
                None
            } else {
                member(cf@, k)
            } by {
                assert(member(c1->Object_0@, k) == if k == "sds_command_control"@ {
                    None
                } else {
                    member(b1->Object_0@, k)
                });
            }
        },
        _ => {},
    }
}

/// Capture the visual form as Cell profile `name` (see [`visual_cell`]); refused when the
/// form is not an object, the name is bad, or the form has none of `phy_io`, `net_info` and
/// `cell_info`. The caller writes the file.
pub fn save_cell_from_visual(name: &str, visual: Json) -> (r: Result<(String, Json), String>)
    requires
        cell_body_sorted(visual),
    ensures
        match visual {
            Json::Object(f) => match spec_sanitize_name(name@) {
                Err(e) => r matches Err(m) && m@ == e,
                Ok(n) => if member(f@, "phy_io"@) is None && member(f@, "net_info"@) is None && member(
                    f@,
                    "cell_info"@,
                ) is None {
                    r matches Err(m) && m@ == "cell profile must include phy_io, net_info and/or cell_info"@
                } else {
                    r matches Ok((rn, Json::Object(nf))) && rn@ == n && visual_cell(f@, nf@)
                },
            },
            _ => r matches Err(m) && m@ == "body must be a JSON object"@,
        },
{
    match visual {
        Json::Object(f) => {
            let ghost f0 = f@;
            proof {
                reveal_strlit("config_version");
                reveal_strlit("stack_mode");
                reveal_strlit("phy_io");
                reveal_strlit("net_info");
                reveal_strlit("cell_info");
                reveal_strlit("security");
                assert("config_version"@.len() == 14 && "stack_mode"@.len() == 10 && "phy_io"@.len() == 6);
                assert("net_info"@.len() == 8 && "cell_info"@.len() == 9 && "security"@.len() == 8);
                assert("net_info"@[0] != "security"@[0]);
            }
            let mut f = f;
            let mut cell: Vec<(String, Json)> = Vec::new();
            move_member(&mut f, &mut cell, "config_version");
            move_member(&mut f, &mut cell, "stack_mode");
            move_member(&mut f, &mut cell, "phy_io");
            move_member(&mut f, &mut cell, "net_info");
            match obj_remove(&mut f, "cell_info") {
                Some(ci) => {
                    let ci2 = strip_sds_command_control(ci);
                    obj_set(&mut cell, owned("cell_info"), ci2);
                },
                None => {},
            }
            match obj_remove(&mut f, "security") {
                Some(v) => obj_set(&mut cell, owned("security"), v),
                None => {
                    let mut sf: Vec<(String, Json)> = Vec::new();
                    sf.push((owned("issi_whitelist"), Json::Array(Vec::new())));
                    obj_set(&mut cell, owned("security"), Json::Object(sf));
                },
            }
            let ghost c0 = cell@;
            assert(visual_cell(f0, c0));
            let r = put_cell_profile(name, Json::Object(cell));
            proof {
                if r is Ok {
                    let nf = r->Ok_0.1->Object_0@;
                    lemma_stripped_twice(member(f0, "cell_info"@), member(c0, "cell_info"@), member(nf, "cell_info"@));
                    assert(member(nf, "security"@) == member(c0, "security"@));
                }
            }
            r
        },
        _ => Err(owned("body must be a JSON object")),
    }
}

/// Capture the `brew` member of the visual form as Brew profile `name` (see
/// [`put_brew_outcome`]; `existing` is the profile stored under that name if it could be
/// read); refused when the form has no `brew`.
pub fn save_brew_from_visual(name: &str, visual: Json, existing: Option<Json>) -> (r: Result<(String, Json), String>)
    requires
        sorted_object(visual),
        visual matches Json::Object(f) ==> match member(f@, "brew"@) {
            Some(b) => sorted_object(b),
            None => true,
        },
    ensures
        match crate::json::json_get(visual, "brew"@) {
            Some(b) => put_brew_outcome(name@, b, existing, r),
            None => r matches Err(m) && m@ == "missing brew object"@,
        },
{
    match visual {
        Json::Object(f) => {
            let mut f = f;
            match obj_remove(&mut f, "brew") {
                Some(b) => put_brew_profile(name, b, existing),
                None => Err(owned("missing brew object")),
            }
        },
        _ => Err(owned("missing brew object")),
    }
}

/// What a rename does.
#[derive(Debug)]
pub enum RenamePlan {
    /// Old and new name are the same: nothing to do.
    Unchanged,
    /// Move the profile file `from` to `to` (sanitized names).
    Move { from: String, to: String },
}

/// The outcome of renaming a profile of `kind` ("cell" or "brew"), given whether files exist
/// for the sanitized old and new names.
pub open spec fn rename_outcome(
    kind: Seq<char>,
    old_name: Seq<char>,
    new_name: Seq<char>,
    from_exists: bool,
    to_exists: bool,
    r: Result<RenamePlan, String>,
) -> bool {
    match spec_sanitize_name(old_name) {
        Err(e) => r matches Err(m) && m@ == e,
        Ok(o) => match spec_sanitize_name(new_name) {
            Err(e) => r matches Err(m) && m@ == e,
            Ok(n) => if o == n {
                r matches Ok(RenamePlan::Unchanged)
            } else if !from_exists {
                r matches Err(m) && m@ == kind + " profile '"@ + o + "' not found"@
            } else if to_exists {
                r matches Err(m) && m@ == kind + " profile '"@ + n + "' already exists"@
            } else {
                r matches Ok(RenamePlan::Move { from, to }) && from@ == o && to@ == n
            },
        },
    }
}

fn rename_profile(kind: &str, old_name: &str, new_name: &str, from_exists: bool, to_exists: bool) -> (r: Result<
    RenamePlan,
    String,
>)
    ensures
        rename_outcome(kind@, old_name@, new_name@, from_exists, to_exists, r),
{
    let o = match sanitize_name(old_name) {
        Ok(o) => o,
        Err(e) => return Err(e),
    };
    let n = match sanitize_name(new_name) {
        Ok(n) => n,
        Err(e) => return Err(e),
    };
    if chars_eq(chars_of(o.as_str()).as_slice(), chars_of(n.as_str()).as_slice()) {
        return Ok(RenamePlan::Unchanged);
    }
    if !from_exists {
        let mut m = chars_of(kind);
        crate::text::append_chars(&mut m, chars_of(" profile '").as_slice());
        crate::text::append_chars(&mut m, chars_of(o.as_str()).as_slice());
        crate::text::append_chars(&mut m, chars_of("' not found").as_slice());
        return Err(string_of(m.as_slice()));
    }
    if to_exists {
        let mut m = chars_of(kind);
        crate::text::append_chars(&mut m, chars_of(" profile '").as_slice());
        crate::text::append_chars(&mut m, chars_of(n.as_str()).as_slice());
        crate::text::append_chars(&mut m, chars_of("' already exists").as_slice());
        return Err(string_of(m.as_slice()));
    }
    Ok(RenamePlan::Move { from: o, to: n })
}

/// Rename a Cell profile (see [`rename_outcome`]); `from_exists` and `to_exists` tell
/// whether files exist for the sanitized old and new names.
pub fn rename_cell_profile(old_name: &str, new_name: &str, from_exists: bool, to_exists: bool) -> (r: Result<
    RenamePlan,
    String,
>)
    ensures
        rename_outcome("cell"@, old_name@, new_name@, from_exists, to_exists, r),
{
    rename_profile("cell", old_name, new_name, from_exists, to_exists)
}

/// Rename a Brew profile (see [`rename_outcome`]).
pub fn rename_brew_profile(old_name: &str, new_name: &str, from_exists: bool, to_exists: bool) -> (r: Result<
    RenamePlan,
    String,
>)
    ensures
        rename_outcome("brew"@, old_name@, new_name@, from_exists, to_exists, r),
{
    rename_profile("brew", old_name, new_name, from_exists, to_exists)
}

/// The active selection after Cell profile `from` was renamed to `to`, and whether it
/// changed (it does when `from` was the active Cell).
pub fn active_after_cell_rename(active: ActiveProfiles, from: &str, to: &str) -> (r: (ActiveProfiles, bool))
    ensures
        r.1 == (active.cell@ == from@),
        r.1 ==> r.0.cell@ == to@ && opt_view(r.0.brew) == opt_view(active.brew),
        !r.1 ==> r.0.cell@ == active.cell@ && opt_view(r.0.brew) == opt_view(active.brew),
{
    if chars_eq(chars_of(active.cell.as_str()).as_slice(), chars_of(from).as_slice()) {
        (ActiveProfiles { cell: owned(to), brew: active.brew }, true)
    } else {
        (active, false)
    }
}

/// The active selection after Brew profile `from` was renamed to `to`, and whether it
/// changed (it does when `from` was the active Brew).
pub fn active_after_brew_rename(active: ActiveProfiles, from: &str, to: &str) -> (r: (ActiveProfiles, bool))
    ensures
        r.1 == (opt_view(active.brew) == Some(from@)),
        r.1 ==> opt_view(r.0.brew) == Some(to@) && r.0.cell@ == active.cell@,
        !r.1 ==> opt_view(r.0.brew) == opt_view(active.brew) && r.0.cell@ == active.cell@,
{
    let hit = match &active.brew {
        Some(b) => chars_eq(chars_of(b.as_str()).as_slice(), chars_of(from).as_slice()),
        None => false,
    };
    if hit {
        (ActiveProfiles { cell: active.cell, brew: Some(owned(to)) }, true)
    } else {
        (active, false)
    }
}

// ---------------------------------------------------------------------------
// Merging profiles into the live configuration
// ---------------------------------------------------------------------------

/// What a Cell profile sets in the live configuration.
#[derive(Debug)]
pub struct CellApply {
    /// Sections deep-merged into the configuration, in order (see [`apply_keys`]).
    pub merges: Vec<(String, Json)>,
    /// `stack_mode`, when the profile sets it.
    pub stack_mode: Option<Json>,
    /// `config_version`: the profile's when it is a string, else `0.6`.
    pub config_version: String,
}

/// `[k]` when `f` has member `k`, else nothing.
pub open spec fn if_present(f: Seq<(String, Json)>, k: Seq<char>) -> Seq<Seq<char>> {
    if member(f, k) is Some {
        seq![k]
    } else {
        Seq::empty()
    }
}

/// The sections a Cell profile merges, in order: `phy_io`, `net_info`, `cell_info` and
/// `security`, each when it has them. A Cell without `security` leaves the live access
/// control as it is until that Cell is updated.
pub open spec fn apply_keys(f: Seq<(String, Json)>) -> Seq<Seq<char>> {
    if_present(f, "phy_io"@) + if_present(f, "net_info"@) + if_present(f, "cell_info"@) + if_present(f, "security"@)
}

/// What is merged for section `k` of Cell profile `f`: the member as it is, `cell_info`
/// stripped (see [`stripped`]).
pub open spec fn merge_value(f: Seq<(String, Json)>, k: Seq<char>, v: Json) -> bool {
    if k == "cell_info"@ {
        stripped(member(f, k), Some(v))
    } else {
        member(f, k) == Some(v)
    }
}

/// The merges match keys `ks`, each with its value.
pub open spec fn merges_match(f: Seq<(String, Json)>, merges: Seq<(String, Json)>, ks: Seq<Seq<char>>) -> bool {
    &&& merges.len() == ks.len()
    &&& forall|i: int| 0 <= i < ks.len() ==> (#[trigger] merges[i]).0@ == ks[i] && merge_value(f, ks[i], merges[i].1)
}

proof fn lemma_apply_literals()
    ensures
        "phy_io"@ != "net_info"@,
        "phy_io"@ != "cell_info"@,
        "phy_io"@ != "security"@,
        "phy_io"@ != "stack_mode"@,
        "phy_io"@ != "config_version"@,
        "net_info"@ != "cell_info"@,
        "net_info"@ != "security"@,
        "net_info"@ != "stack_mode"@,
        "net_info"@ != "config_version"@,
        "cell_info"@ != "security"@,
        "cell_info"@ != "stack_mode"@,
        "cell_info"@ != "config_version"@,
        "security"@ != "stack_mode"@,
        "security"@ != "config_version"@,
        "stack_mode"@ != "config_version"@,
{
    reveal_strlit("phy_io");
    reveal_strlit("net_info");
    reveal_strlit("cell_info");
    reveal_strlit("security");
    reveal_strlit("stack_mode");
    reveal_strlit("config_version");
    assert("phy_io"@.len() == 6 && "net_info"@.len() == 8 && "cell_info"@.len() == 9);
    assert("security"@.len() == 8 && "stack_mode"@.len() == 10 && "config_version"@.len() == 14);
    assert("net_info"@[0] != "security"@[0]);
}

/// Move member `key` of `f`, if any, to the end of `merges` (stripped for `cell_info`).
fn take_section(f: &mut Vec<(String, Json)>, merges: &mut Vec<(String, Json)>, key: &str)
    requires
        keys_sorted(old(f)@),
        key@ == "cell_info"@ ==> match member(old(f)@, key@) {
            Some(ci) => sorted_object(ci),
            None => true,
        },
    ensures
        keys_sorted(final(f)@),
        forall|k: Seq<char>| #[trigger] member(final(f)@, k) == if k == key@ {
            None
        } else {
            member(old(f)@, k)
        },
        member(old(f)@, key@) is None ==> final(merges)@ == old(merges)@,
        member(old(f)@, key@) is Some ==> {
            &&& final(merges)@.len() == old(merges)@.len() + 1
            &&& final(merges)@.take(old(merges)@.len() as int) == old(merges)@
            &&& final(merges)@.last().0@ == key@
            &&& if key@ == "cell_info"@ {
                stripped(member(old(f)@, key@), Some(final(merges)@.last().1))
            } else {
                member(old(f)@, key@) == Some(final(merges)@.last().1)
            }
        },
{
    match obj_remove(f, key) {
        Some(v) => {
            let is_cell = chars_eq(chars_of(key).as_slice(), chars_of("cell_info").as_slice());
            let v2 = if is_cell {
                strip_sds_command_control(v)
            } else {
                v
            };
            let ghost before = merges@;
            merges.push((owned(key), v2));
            assert(merges@.take(before.len() as int) =~= before);
        },
        None => {},
    }
}

/// What Cell profile `cell` sets in the live configuration (see [`CellApply`]); refused
/// when the profile is not an object.
pub fn apply_cell_sections(cell: Json) -> (r: Result<CellApply, String>)
    requires
        cell_body_sorted(cell),
    ensures
        match cell {
            Json::Object(f) => r matches Ok(a) && merges_match(f@, a.merges@, apply_keys(f@)) && a.stack_mode
                == member(f@, "stack_mode"@) && a.config_version@ == match str_member(f@, "config_version"@) {
                Some(v) => v,
                None => "0.6"@,
            },
            _ => r matches Err(m) && m@ == "cell profile is not an object"@,
        },
{
    match cell {
        Json::Object(f) => {
            let ghost f0 = f@;
            proof {
                lemma_apply_literals();
            }
            let mut f = f;
            let mut merges: Vec<(String, Json)> = Vec::new();
            take_section(&mut f, &mut merges, "phy_io");
            let ghost m1 = merges@;
            take_section(&mut f, &mut merges, "net_info");
            let ghost m2 = merges@;
            take_section(&mut f, &mut merges, "cell_info");
            let ghost m3 = merges@;
            take_section(&mut f, &mut merges, "security");
            let stack_mode = obj_remove(&mut f, "stack_mode");
            let config_version = match obj_get(&f, "config_version") {
                Some(Json::Str(v)) => v.clone(),
                _ => owned("0.6"),
            };
            proof {
                let ks = apply_keys(f0);
                let k1 = if_present(f0, "phy_io"@);
                let k2 = if_present(f0, "net_info"@);
                let k3 = if_present(f0, "cell_info"@);
                assert(m1.len() == k1.len());
                assert(m2.len() == k1.len() + k2.len());
                assert(m3.len() == k1.len() + k2.len() + k3.len());
                assert forall|i: int| 0 <= i < ks.len() implies (#[trigger] merges@[i]).0@ == ks[i] && merge_value(
                    f0,
                    ks[i],
                    merges@[i].1,
                ) by {
                    if i < m1.len() {
                        assert(merges@[i] == m3[i] && m3[i] == m2[i] && m2[i] == m1[i]);
                        assert(ks[i] == "phy_io"@);
                    } else if i < m2.len() {
                        assert(merges@[i] == m3[i] && m3[i] == m2[i]);
                        assert(ks[i] == "net_info"@);
                    } else if i < m3.len() {
                        assert(merges@[i] == m3[i]);
                        assert(ks[i] == "cell_info"@);
                    } else {
                        assert(ks[i] == "security"@);
                    }
                }
            }
            Ok(CellApply { merges, stack_mode, config_version })
        },
        _ => Err(owned("cell profile is not an object")),
    }
}

// ---------------------------------------------------------------------------
// Applying a Cell × Brew selection to the live configuration
// ---------------------------------------------------------------------------

/// An object whose members, and those of each member that is an object, are sorted by
/// key (a configuration section and its sub-tables).
pub open spec fn nested_sorted(j: Json) -> bool {
    &&& sorted_object(j)
    &&& j matches Json::Object(f) ==> forall|k: Seq<char>| #[trigger] member(f@, k) matches Some(v) ==> sorted_object(v)
}

/// Every member of `f` is [`nested_sorted`].
pub open spec fn members_nested_sorted(f: Seq<(String, Json)>) -> bool {
    forall|k: Seq<char>| #[trigger] member(f, k) matches Some(v) ==> nested_sorted(v)
}

/// `x` is the object of `a`'s members with those of `b` written over them.
pub open spec fn shallow_merged(a: Seq<(String, Json)>, b: Seq<(String, Json)>, x: Json) -> bool {
    x matches Json::Object(xf) && keys_sorted(xf@) && forall|k: Seq<char>| #[trigger] member(xf@, k) == if member(
        b,
        k,
    ) is Some {
        member(b, k)
    } else {
        member(a, k)
    }
}

/// Member `k` after a section `sf` is merged key by key into the live section `df`: a
/// sub-table over a live sub-table is merged into it, any other value replaces the live
/// one, and members `sf` lacks stay.
pub open spec fn merged_member(df: Seq<(String, Json)>, sf: Seq<(String, Json)>, k: Seq<char>, m: Option<Json>) -> bool {
    match member(sf, k) {
        Some(sv) => match (member(df, k), sv) {
            (Some(Json::Object(dv)), Json::Object(svf)) => m matches Some(x) && shallow_merged(dv@, svf@, x),
            _ => m == Some(sv),
        },
        None => m == member(df, k),
    }
}

/// `r` is section `inc` merged into the live section `live`: key by key when both are
/// tables (see [`merged_member`]), else `inc` replaces it.
pub open spec fn deep_merged(live: Option<Json>, inc: Json, r: Json) -> bool {
    match (live, inc) {
        (Some(Json::Object(df)), Json::Object(sf)) => r matches Json::Object(rf) && keys_sorted(rf@) && forall|
            k: Seq<char>,
        | #[trigger] member(rf@, k) == member(rf@, k) && merged_member(df@, sf@, k, member(rf@, k)),
        _ => r == inc,
    }
}

/// `a`'s members with those of `b` written over them.
fn shallow_merge(a: Vec<(String, Json)>, b: Vec<(String, Json)>) -> (r: Json)
    requires
        keys_sorted(a@),
        keys_sorted(b@),
    ensures
        shallow_merged(a@, b@, r),
{
    let ghost b0 = b@;
    let mut out = a;
    let mut rest = b;
    while rest.len() > 0
        invariant
            keys_sorted(out@),
            keys_sorted(rest@),
            forall|k: Seq<char>| #[trigger] member(out@, k) == if member(rest@, k) is Some {
                member(a@, k)
            } else if member(b0, k) is Some {
                member(b0, k)
            } else {
                member(a@, k)
            },
            forall|k: Seq<char>| member(rest@, k) is Some ==> #[trigger] member(b0, k) == member(rest@, k),
        decreases rest.len(),
    {
        proof {
            lemma_member_first(rest@);
        }
        let ghost r0 = rest@;
        let (k, v) = rest.remove(0);
        assert(rest@ =~= r0.drop_first());
        obj_set(&mut out, k, v);
    }
    Json::Object(out)
}

/// Section `inc` merged into the live section `live` (see [`deep_merged`]).
fn deep_merge(live: Option<Json>, inc: Json) -> (r: Json)
    requires
        live matches Some(d) ==> nested_sorted(d),
        nested_sorted(inc),
    ensures
        deep_merged(live, inc, r),
{
    match (live, inc) {
        (Some(Json::Object(df)), Json::Object(sf)) => {
            let ghost d0 = df@;
            let ghost s0 = sf@;
            let mut out = df;
            let mut rest = sf;
            while rest.len() > 0
                invariant
                    keys_sorted(out@),
                    keys_sorted(rest@),
                    forall|k: Seq<char>| #[trigger] member(d0, k) matches Some(v) ==> sorted_object(v),
                    forall|k: Seq<char>| #[trigger] member(s0, k) matches Some(v) ==> sorted_object(v),
                    forall|k: Seq<char>| member(rest@, k) is Some ==> #[trigger] member(s0, k) == member(rest@, k),
                    forall|k: Seq<char>| #[trigger] member(out@, k) == member(out@, k) && if member(rest@, k) is Some {
                        member(out@, k) == member(d0, k)
                    } else {
                        merged_member(d0, s0, k, member(out@, k))
                    },
                decreases rest.len(),
            {
                proof {
                    lemma_member_first(rest@);
                }
                let ghost r0 = rest@;
                let (k, v) = rest.remove(0);
                assert(rest@ =~= r0.drop_first());
                let ghost kv = k@;
                assert(member(s0, kv) == Some(v));
                let cur = obj_remove(&mut out, k.as_str());
                assert(cur == member(d0, kv));
                let nv = match (cur, v) {
                    (Some(Json::Object(d)), Json::Object(s)) => shallow_merge(d, s),
                    (_, v) => v,
                };
                obj_set(&mut out, k, nv);
                assert forall|k2: Seq<char>| #[trigger] member(out@, k2) == member(out@, k2) && if member(rest@, k2) is Some {
                    member(out@, k2) == member(d0, k2)
                } else {
                    merged_member(d0, s0, k2, member(out@, k2))
                } by {
                    if k2 != kv {
                        assert(member(rest@, k2) == member(r0, k2));
                    }
                }
            }
            let r = Json::Object(out);
            assert forall|k: Seq<char>| #[trigger] member(out@, k) == member(out@, k) && merged_member(
                d0,
                s0,
                k,
                member(out@, k),
            ) by {
                assert(member(rest@, k) is None);
            }
            r
        },
        (_, inc) => inc,
    }
}

/// The `[brew]` table written for Brew profile `b`: its table without the dashboard's
/// `enabled` and `password_set` flags, or an empty table when the profile is no table.
pub open spec fn brew_table(b: Json, x: Json) -> bool {
    match b {
        Json::Object(bf) => x matches Json::Object(nf) && keys_sorted(nf@) && same_except(
            nf@,
            bf@,
            "enabled"@,
            "password_set"@,
        ) && member(nf@, "enabled"@) is None && member(nf@, "password_set"@) is None,
        _ => x matches Json::Object(nf) && nf@.len() == 0,
    }
}

/// Section `k` of the live configuration `live` after Cell profile `f` is merged into it:
/// the profile's section (as [`merge_value`] takes it) merged key by key (see
/// [`deep_merged`]).
pub open spec fn section_applied(live: Seq<(String, Json)>, f: Seq<(String, Json)>, k: Seq<char>, x: Json) -> bool {
    exists|v: Json| #[trigger] merge_value(f, k, v) && deep_merged(member(live, k), v, x)
}

/// Member `k` of the live configuration after applying Cell profile `f` and the Brew
/// selection `brew`:
/// - the Cell's `phy_io`, `net_info`, `cell_info` (without its SDS command control, which
///   is station-wide) and `security` are merged key by key into the live sections; a
///   section the Cell lacks stays as it is, so a Cell without `security` leaves the live
///   access control alone;
/// - `stack_mode` is the Cell's when it has one, `config_version` the Cell's when it is a
///   string, else `0.6`;
/// - `brew` is the Brew profile's table (see [`brew_table`]), or gone when offline;
/// - every other member stays.
pub open spec fn applied_member(
    live: Seq<(String, Json)>,
    f: Seq<(String, Json)>,
    brew: Option<Json>,
    k: Seq<char>,
    m: Option<Json>,
) -> bool {
    if k == "brew"@ {
        match brew {
            Some(b) => m matches Some(x) && brew_table(b, x),
            None => m is None,
        }
    } else if k == "config_version"@ {
        is_str(
            m,
            match str_member(f, k) {
                Some(v) => v,
                None => "0.6"@,
            },
        )
    } else if k == "stack_mode"@ {
        m == if member(f, k) is Some {
            member(f, k)
        } else {
            member(live, k)
        }
    } else if (k == "phy_io"@ || k == "net_info"@ || k == "cell_info"@ || k == "security"@) && member(f, k) is Some {
        m matches Some(x) && section_applied(live, f, k, x)
    } else {
        m == member(live, k)
    }
}

proof fn lemma_section_applied_same(
    live1: Seq<(String, Json)>,
    f1: Seq<(String, Json)>,
    live2: Seq<(String, Json)>,
    f2: Seq<(String, Json)>,
    k: Seq<char>,
    x: Json,
)
    requires
        section_applied(live1, f1, k, x),
        member(live1, k) == member(live2, k),
        member(f1, k) == member(f2, k),
    ensures
        section_applied(live2, f2, k, x),
{
    let v = choose|v: Json| #[trigger] merge_value(f1, k, v) && deep_merged(member(live1, k), v, x);
    assert(merge_value(f2, k, v));
}

/// Merge section `key` of Cell profile `f` (if it has it) into the live members `t`.
fn merge_from(f: &mut Vec<(String, Json)>, t: &mut Vec<(String, Json)>, key: &str)
    requires
        keys_sorted(old(f)@),
        keys_sorted(old(t)@),
        members_nested_sorted(old(f)@),
        members_nested_sorted(old(t)@),
    ensures
        keys_sorted(final(f)@),
        keys_sorted(final(t)@),
        forall|k: Seq<char>| #[trigger] member(final(f)@, k) == if k == key@ {
            None
        } else {
            member(old(f)@, k)
        },
        forall|k: Seq<char>| k != key@ ==> #[trigger] member(final(t)@, k) == member(old(t)@, k),
        member(old(f)@, key@) is None ==> member(final(t)@, key@) == member(old(t)@, key@),
        member(old(f)@, key@) is Some ==> (member(final(t)@, key@) matches Some(x) && section_applied(
            old(t)@,
            old(f)@,
            key@,
            x,
        )),
        members_nested_sorted(final(f)@),
        forall|k: Seq<char>| k != key@ ==> (#[trigger] member(final(t)@, k) matches Some(v) ==> nested_sorted(v)),
{
    let ghost f0 = f@;
    let ghost t0 = t@;
    match obj_remove(f, key) {
        Some(v) => {
            let is_cell = chars_eq(chars_of(key).as_slice(), chars_of("cell_info").as_slice());
            assert(nested_sorted(v));
            let ghost gv = v;
            let v2 = if is_cell {
                strip_sds_command_control(v)
            } else {
                v
            };
            proof {
                if is_cell {
                    if let Json::Object(cf) = gv {
                        let nf = v2->Object_0;
                        assert forall|k: Seq<char>| #[trigger] member(nf@, k) is Some implies sorted_object(
                            member(nf@, k)->0,
                        ) by {
                            assert(member(nf@, k) == if k == "sds_command_control"@ { None } else { member(cf@, k) });
                        }
                    }
                }
                assert(nested_sorted(v2));
                assert(merge_value(f0, key@, v2));
            }
            let cur = obj_remove(t, key);
            let m = deep_merge(cur, v2);
            obj_set(t, owned(key), m);
            proof {
                assert(member(t@, key@) == Some(m));
                assert(merge_value(f0, key@, v2) && deep_merged(member(t0, key@), v2, m));
                assert(section_applied(t0, f0, key@, m));
            }
        },
        None => {},
    }
}

/// The live `cell_info.sds_command_control`, if `cell_info` is a table that has one.
pub open spec fn live_sds_command_control(live: Seq<(String, Json)>) -> Option<Json> {
    match member(live, "cell_info"@) {
        Some(Json::Object(cf)) => member(cf@, "sds_command_control"@),
        _ => None,
    }
}

/// SDS command control is station-wide: whenever `cell_info` is a table after a Cell is
/// applied, its `sds_command_control` is the live one (absent when the live one is).
pub proof fn lemma_apply_keeps_sds_command_control(
    live: Seq<(String, Json)>,
    f: Seq<(String, Json)>,
    brew: Option<Json>,
    m: Option<Json>,
)
    requires
        applied_member(live, f, brew, "cell_info"@, m),
    ensures
        m matches Some(Json::Object(rf)) ==> member(rf@, "sds_command_control"@) == live_sds_command_control(live),
{
    lemma_apply_literals();
    reveal_strlit("brew");
    reveal_strlit("cell_info");
    assert("brew"@.len() == 4 && "cell_info"@.len() == 9);
    let k = "cell_info"@;
    let s = "sds_command_control"@;
    if member(f, k) is Some {
        let x = m->0;
        let v = choose|v: Json| #[trigger] merge_value(f, k, v) && deep_merged(member(live, k), v, x);
        assert(stripped(member(f, k), Some(v)));
        match (member(live, k), v) {
            (Some(Json::Object(df)), Json::Object(sf)) => {
                assert(member(sf@, s) is None);
            },
            _ => {
                if let Json::Object(sf) = v {
                    assert(member(sf@, s) is None);
                }
            },
        }
    }
}

/// A Cell without `security` leaves the live `[security]` (the whitelist in force) as it
/// is until that Cell is updated.
pub proof fn lemma_apply_keeps_security_without_cell_security(
    live: Seq<(String, Json)>,
    f: Seq<(String, Json)>,
    brew: Option<Json>,
    m: Option<Json>,
)
    requires
        applied_member(live, f, brew, "security"@, m),
        member(f, "security"@) is None,
    ensures
        m == member(live, "security"@),
{
    lemma_apply_literals();
    reveal_strlit("brew");
    reveal_strlit("security");
    assert("brew"@.len() == 4 && "security"@.len() == 8);
}

/// The live configuration's top-level members (as JSON) after applying Cell profile `cell`
/// and the Brew selection `brew` (see [`applied_member`]); refused when the Cell profile is
/// not an object.
pub fn apply_plan(live: Vec<(String, Json)>, cell: Json, brew: Option<Json>) -> (r: Result<Vec<(String, Json)>, String>)
    requires
        keys_sorted(live@),
        members_nested_sorted(live@),
        sorted_object(cell),
        cell matches Json::Object(f) ==> members_nested_sorted(f@),
        brew matches Some(b) ==> sorted_object(b),
    ensures
        match cell {
            Json::Object(f) => r matches Ok(nf) && keys_sorted(nf@) && forall|k: Seq<char>|
                #[trigger] member(nf@, k) == member(nf@, k) && applied_member(live@, f@, brew, k, member(nf@, k)),
            _ => r matches Err(m) && m@ == "cell profile is not an object"@,
        },
{
    proof {
        lemma_apply_literals();
        reveal_strlit("brew");
        reveal_strlit("phy_io");
        reveal_strlit("net_info");
        reveal_strlit("cell_info");
        reveal_strlit("security");
        reveal_strlit("stack_mode");
        reveal_strlit("config_version");
        assert("brew"@.len() == 4 && "phy_io"@.len() == 6 && "net_info"@.len() == 8 && "cell_info"@.len() == 9);
        assert("security"@.len() == 8 && "config_version"@.len() == 14 && "stack_mode"@.len() == 10);
        assert("brew"@[0] != "security"@[0] && "brew"@[0] != "net_info"@[0]);
    }
    match cell {
        Json::Object(f) => {
            let ghost f0 = f@;
            let ghost l0 = live@;
            let mut f = f;
            let mut t = live;
            merge_from(&mut f, &mut t, "phy_io");
            let ghost t1 = t@;
            let ghost f1 = f@;
            merge_from(&mut f, &mut t, "net_info");
            let ghost t2 = t@;
            let ghost f2 = f@;
            merge_from(&mut f, &mut t, "cell_info");
            let ghost t3 = t@;
            let ghost f3 = f@;
            merge_from(&mut f, &mut t, "security");
            let ghost t4 = t@;
            let ghost f4 = f@;
            proof {
                let ks = seq!["phy_io"@, "net_info"@, "cell_info"@, "security"@];
                assert forall|k: Seq<char>|
                    (k == "phy_io"@ || k == "net_info"@ || k == "cell_info"@ || k == "security"@) && member(f0, k) is Some
                        implies (#[trigger] member(t4, k) matches Some(x) && section_applied(l0, f0, k, x)) by {
                    if k == "phy_io"@ {
                        let x = member(t1, k)->0;
                        lemma_section_applied_same(l0, f0, l0, f0, k, x);
                    } else if k == "net_info"@ {
                        let x = member(t2, k)->0;
                        lemma_section_applied_same(t1, f1, l0, f0, k, x);
                    } else if k == "cell_info"@ {
                        let x = member(t3, k)->0;
                        lemma_section_applied_same(t2, f2, l0, f0, k, x);
                    } else {
                        let x = member(t4, k)->0;
                        lemma_section_applied_same(t3, f3, l0, f0, k, x);
                    }
                }
                assert forall|k: Seq<char>|
                    !((k == "phy_io"@ || k == "net_info"@ || k == "cell_info"@ || k == "security"@) && member(f0, k) is Some)
                        implies #[trigger] member(t4, k) == member(l0, k) by {}
                assert(member(f4, "stack_mode"@) == member(f0, "stack_mode"@));
                assert(member(f4, "config_version"@) == member(f0, "config_version"@));
            }
            match obj_remove(&mut f, "stack_mode") {
                Some(v) => obj_set(&mut t, owned("stack_mode"), v),
                None => {},
            }
            let cv = match obj_get(&f, "config_version") {
                Some(Json::Str(v)) => v.clone(),
                _ => owned("0.6"),
            };
            obj_set(&mut t, owned("config_version"), Json::Str(cv));
            match brew {
                Some(b) => {
                    let bt = match brew_section(b) {
                        Json::Object(nf) => Json::Object(nf),
                        _ => Json::Object(Vec::new()),
                    };
                    obj_set(&mut t, owned("brew"), bt);
                },
                None => {
                    let _ = obj_remove(&mut t, "brew");
                },
            }
            proof {
                assert forall|k: Seq<char>| #[trigger] member(t@, k) == member(t@, k) && applied_member(
                    l0,
                    f0,
                    brew,
                    k,
                    member(t@, k),
                ) by {
                    if k != "brew"@ && k != "config_version"@ && k != "stack_mode"@ {
                        assert(member(t@, k) == member(t4, k));
                    }
                }
            }
            Ok(t)
        },
        _ => Err(owned("cell profile is not an object")),
    }
}

/// The `[brew]` table a Brew profile becomes: without the dashboard's `enabled` and
/// `password_set` flags.
pub fn brew_section(brew: Json) -> (r: Json)
    requires
        sorted_object(brew),
    ensures
        match brew {
            Json::Object(f) => r matches Json::Object(nf) && keys_sorted(nf@) && same_except(
                nf@,
                f@,
                "enabled"@,
                "password_set"@,
            ) && member(nf@, "enabled"@) is None && member(nf@, "password_set"@) is None,
            _ => r == brew,
        },
{
    match brew {
        Json::Object(f) => {
            let mut f = f;
            let _ = obj_remove(&mut f, "enabled");
            let _ = obj_remove(&mut f, "password_set");
            Json::Object(f)
        },
        other => other,
    }
}

/// What the visual form does to `[brew]`.
#[derive(Debug)]
pub enum BrewAction {
    /// The form has no `brew`: the section stays as it is.
    Untouched,
    /// Backhaul switched off: the section goes.
    Remove,
    /// The section becomes this table.
    Write(Json),
}

/// A visual-config write: the sections to deep-merge, in order, and what happens to
/// `[brew]` (or why the form's `brew` is refused).
#[derive(Debug)]
pub struct VisualWrite {
    pub merges: Vec<(String, Json)>,
    pub brew: Result<BrewAction, String>,
}

/// The sections a visual form merges, in order: `phy_io`, `net_info`, `cell_info` and
/// `security`, each when the form has it.
pub open spec fn visual_keys(f: Seq<(String, Json)>) -> Seq<Seq<char>> {
    if_present(f, "phy_io"@) + if_present(f, "net_info"@) + if_present(f, "cell_info"@) + if_present(f, "security"@)
}

/// `[brew]` written from the form's Brew object `bf` while backhaul is on: the form's members
/// without `enabled` and `password_set`, and a masked (or missing) password replaced by the
/// one stored in the live configuration, when there is one.
pub open spec fn brew_written(bf: Seq<(String, Json)>, live_password: Option<Seq<char>>, nf: Seq<(String, Json)>) -> bool {
    let incoming = match str_member(bf, "password"@) {
        Some(p) => p,
        None => Seq::empty(),
    };
    &&& keys_sorted(nf)
    &&& forall|k: Seq<char>|
        k != "enabled"@ && k != "password_set"@ && k != "password"@ ==> #[trigger] member(nf, k) == member(bf, k)
    &&& member(nf, "enabled"@) is None
    &&& member(nf, "password_set"@) is None
    &&& if is_masked(incoming) && live_password is Some {
        is_str(member(nf, "password"@), live_password->0)
    } else {
        member(nf, "password"@) == member(bf, "password"@)
    }
}

/// What the form's `brew` member does (see [`BrewAction`]): none leaves `[brew]`; an object
/// whose `enabled` is `false` removes it; any other object writes it (see
/// [`brew_written`]); anything else is refused.
pub open spec fn brew_action_ok(b: Option<Json>, live_password: Option<Seq<char>>, r: Result<BrewAction, String>) -> bool {
    match b {
        None => r matches Ok(BrewAction::Untouched),
        Some(Json::Object(bf)) => if member(bf@, "enabled"@) == Some(Json::Bool(false)) {
            r matches Ok(BrewAction::Remove)
        } else {
            r matches Ok(BrewAction::Write(Json::Object(nf))) && brew_written(bf@, live_password, nf@)
        },
        Some(_) => r matches Err(m) && m@ == "brew must be an object"@,
    }
}

/// Plan a visual-config write of form `body` (see [`VisualWrite`]); `live_password` is the
/// password of the live `[brew]` section, when it has a string one. Refused when the form
/// is not an object.
pub fn visual_write_plan(body: Json, live_password: Option<String>) -> (r: Result<VisualWrite, String>)
    requires
        cell_body_sorted(body),
        body matches Json::Object(f) ==> match member(f@, "brew"@) {
            Some(b) => sorted_object(b),
            None => true,
        },
    ensures
        match body {
            Json::Object(f) => r matches Ok(w) && merges_match(f@, w.merges@, visual_keys(f@)) && brew_action_ok(
                member(f@, "brew"@),
                opt_view(live_password),
                w.brew,
            ),
            _ => r matches Err(m) && m@ == "body must be a JSON object"@,
        },
{
    match body {
        Json::Object(f) => {
            let ghost f0 = f@;
            proof {
                lemma_apply_literals();
                reveal_strlit("phy_io");
                reveal_strlit("net_info");
                reveal_strlit("cell_info");
                reveal_strlit("security");
                reveal_strlit("brew");
                reveal_strlit("enabled");
                reveal_strlit("password");
                reveal_strlit("password_set");
                assert("brew"@.len() == 4 && "enabled"@.len() == 7 && "password"@.len() == 8);
                assert("password_set"@.len() == 12);
                assert("brew"@ != "phy_io"@ && "brew"@ != "net_info"@ && "brew"@ != "cell_info"@ && "brew"@ != "security"@);
                assert("password"@[0] != "security"@[0] && "password"@[0] != "net_info"@[0]);
            }
            let mut f = f;
            let mut merges: Vec<(String, Json)> = Vec::new();
            take_section(&mut f, &mut merges, "phy_io");
            let ghost m1 = merges@;
            take_section(&mut f, &mut merges, "net_info");
            let ghost m2 = merges@;
            take_section(&mut f, &mut merges, "cell_info");
            let ghost m3 = merges@;
            take_section(&mut f, &mut merges, "security");
            proof {
                let ks = visual_keys(f0);
                let k1 = if_present(f0, "phy_io"@);
                let k2 = if_present(f0, "net_info"@);
                let k3 = if_present(f0, "cell_info"@);
                assert(m1.len() == k1.len());
                assert(m2.len() == k1.len() + k2.len());
                assert(m3.len() == k1.len() + k2.len() + k3.len());
                assert forall|i: int| 0 <= i < ks.len() implies (#[trigger] merges@[i]).0@ == ks[i] && merge_value(
                    f0,
                    ks[i],
                    merges@[i].1,
                ) by {
                    if i < m1.len() {
                        assert(merges@[i] == m3[i] && m3[i] == m2[i] && m2[i] == m1[i]);
                        assert(ks[i] == "phy_io"@);
                    } else if i < m2.len() {
                        assert(merges@[i] == m3[i] && m3[i] == m2[i]);
                        assert(ks[i] == "net_info"@);
                    } else if i < m3.len() {
                        assert(merges@[i] == m3[i]);
                        assert(ks[i] == "cell_info"@);
                    } else {
                        assert(ks[i] == "security"@);
                    }
                }
            }
            let brew = match obj_remove(&mut f, "brew") {
                None => Ok(BrewAction::Untouched),
                Some(Json::Object(bf)) => {
                    let ghost b0 = bf@;
                    let mut bf = bf;
                    let enabled = match obj_get(&bf, "enabled") {
                        Some(Json::Bool(b)) => *b,
                        _ => true,
                    };
                    if !enabled {
                        Ok(BrewAction::Remove)
                    } else {
                        let masked = match obj_get(&bf, "password") {
                            Some(Json::Str(p)) => is_masked_exec(p.as_str()),
                            _ => is_masked_exec(""),
                        };
                        proof {
                            reveal_strlit("");
                        }
                        let _ = obj_remove(&mut bf, "enabled");
                        let _ = obj_remove(&mut bf, "password_set");
                        if masked {
                            match live_password {
                                Some(p) => obj_set(&mut bf, owned("password"), Json::Str(p)),
                                None => {},
                            }
                        }
                        Ok(BrewAction::Write(Json::Object(bf)))
                    }
                },
                Some(_) => Err(owned("brew must be an object")),
            };
            Ok(VisualWrite { merges, brew })
        },
        _ => Err(owned("body must be a JSON object")),
    }
}

/// Writing the visual form or applying a Cell profile merges only the RF, network, cell and
/// access-control sections: no other section of the live configuration (the dashboard's,
/// the integrations') is among the merges.
pub proof fn lemma_merges_touch_only_cell_sections(f: Seq<(String, Json)>, k: Seq<char>)
    requires
        k != "phy_io"@,
        k != "net_info"@,
        k != "cell_info"@,
        k != "security"@,
    ensures
        !visual_keys(f).contains(k),
        !apply_keys(f).contains(k),
{
    let a = if_present(f, "phy_io"@);
    let b = if_present(f, "net_info"@);
    let c = if_present(f, "cell_info"@);
    let d = if_present(f, "security"@);
    assert forall|i: int| 0 <= i < visual_keys(f).len() implies visual_keys(f)[i] != k by {
        let s = visual_keys(f);
        if i < a.len() {
            assert(s[i] == a[i]);
        } else if i < a.len() + b.len() {
            assert(s[i] == b[i - a.len()]);
        } else if i < a.len() + b.len() + c.len() {
            assert(s[i] == c[i - a.len() - b.len()]);
        } else {
            assert(s[i] == d[i - a.len() - b.len() - c.len()]);
        }
    }
    assert forall|i: int| 0 <= i < apply_keys(f).len() implies apply_keys(f)[i] != k by {
        let s = apply_keys(f);
        if i < a.len() {
            assert(s[i] == a[i]);
        } else if i < a.len() + b.len() {
            assert(s[i] == b[i - a.len()]);
        } else if i < a.len() + b.len() + c.len() {
            assert(s[i] == c[i - a.len() - b.len()]);
        } else {
            assert(s[i] == "security"@);
        }
    }
}

/// The password of the live `[brew]`, when it has a string one.
pub open spec fn live_brew_password(live: Seq<(String, Json)>) -> Option<Seq<char>> {
    match member(live, "brew"@) {
        Some(Json::Object(bf)) => str_member(bf@, "password"@),
        _ => None,
    }
}

/// Member `k` of the live configuration after the visual form `f` is written into it: the
/// form's `phy_io`, `net_info`, `cell_info` (without SDS command control) and `security`
/// merged key by key into the live sections when the form has them; `brew` as the form's
/// Brew object says (see [`brew_action_ok`]: left, removed, or written with a masked
/// password replaced by the live one); every other member stays.
pub open spec fn visual_applied_member(live: Seq<(String, Json)>, f: Seq<(String, Json)>, k: Seq<char>, m: Option<Json>) -> bool {
    if k == "brew"@ {
        match member(f, k) {
            None => m == member(live, k),
            Some(Json::Object(bf)) => if member(bf@, "enabled"@) == Some(Json::Bool(false)) {
                m is None
            } else {
                m matches Some(Json::Object(nf)) && brew_written(bf@, live_brew_password(live), nf@)
            },
            Some(_) => false,
        }
    } else if (k == "phy_io"@ || k == "net_info"@ || k == "cell_info"@ || k == "security"@) && member(f, k) is Some {
        m matches Some(x) && section_applied(live, f, k, x)
    } else {
        m == member(live, k)
    }
}

/// The live configuration's top-level members (as JSON) after the visual form `body` is
/// written into them (see [`visual_applied_member`]); refused when the form is not an
/// object or its `brew` is not an object.
pub fn visual_apply(live: Vec<(String, Json)>, body: Json) -> (r: Result<Vec<(String, Json)>, String>)
    requires
        keys_sorted(live@),
        members_nested_sorted(live@),
        sorted_object(body),
        body matches Json::Object(f) ==> members_nested_sorted(f@),
    ensures
        match body {
            Json::Object(f) => match member(f@, "brew"@) {
                Some(b) if !(b is Object) => r matches Err(m) && m@ == "brew must be an object"@,
                _ => r matches Ok(nf) && keys_sorted(nf@) && forall|k: Seq<char>|
                    #[trigger] member(nf@, k) == member(nf@, k) && visual_applied_member(live@, f@, k, member(nf@, k)),
            },
            _ => r matches Err(m) && m@ == "body must be a JSON object"@,
        },
{
    proof {
        lemma_apply_literals();
        reveal_strlit("brew");
        reveal_strlit("phy_io");
        reveal_strlit("net_info");
        reveal_strlit("cell_info");
        reveal_strlit("security");
        reveal_strlit("password");
        assert("brew"@.len() == 4 && "phy_io"@.len() == 6 && "net_info"@.len() == 8 && "cell_info"@.len() == 9);
        assert("security"@.len() == 8);
        assert("brew"@[0] != "security"@[0] && "brew"@[0] != "net_info"@[0]);
    }
    match body {
        Json::Object(f) => {
            let ghost f0 = f@;
            let ghost l0 = live@;
            let live_pw = match obj_get(&live, "brew") {
                Some(Json::Object(bf)) => match obj_get(bf, "password") {
                    Some(Json::Str(p)) => Some(p.clone()),
                    _ => None,
                },
                _ => None,
            };
            assert(opt_view(live_pw) == live_brew_password(l0));
            let mut f = f;
            let mut t = live;
            merge_from(&mut f, &mut t, "phy_io");
            let ghost t1 = t@;
            let ghost f1 = f@;
            merge_from(&mut f, &mut t, "net_info");
            let ghost t2 = t@;
            let ghost f2 = f@;
            merge_from(&mut f, &mut t, "cell_info");
            let ghost t3 = t@;
            let ghost f3 = f@;
            merge_from(&mut f, &mut t, "security");
            let ghost t4 = t@;
            proof {
                assert forall|k: Seq<char>|
                    (k == "phy_io"@ || k == "net_info"@ || k == "cell_info"@ || k == "security"@) && member(f0, k) is Some
                        implies (#[trigger] member(t4, k) matches Some(x) && section_applied(l0, f0, k, x)) by {
                    if k == "phy_io"@ {
                        let x = member(t1, k)->0;
                        lemma_section_applied_same(l0, f0, l0, f0, k, x);
                    } else if k == "net_info"@ {
                        let x = member(t2, k)->0;
                        lemma_section_applied_same(t1, f1, l0, f0, k, x);
                    } else if k == "cell_info"@ {
                        let x = member(t3, k)->0;
                        lemma_section_applied_same(t2, f2, l0, f0, k, x);
                    } else {
                        let x = member(t4, k)->0;
                        lemma_section_applied_same(t3, f3, l0, f0, k, x);
                    }
                }
                assert(member(f@, "brew"@) == member(f0, "brew"@));
                assert(member(f@, "cell_info"@) is None);
                assert(member(t4, "brew"@) == member(l0, "brew"@));
            }
            let plan = visual_write_plan(Json::Object(f), live_pw);
            let action = match plan {
                Ok(w) => w.brew,
                Err(m) => Err(m),
            };
            match action {
                Ok(BrewAction::Untouched) => {},
                Ok(BrewAction::Remove) => {
                    let _ = obj_remove(&mut t, "brew");
                },
                Ok(BrewAction::Write(b)) => {
                    obj_set(&mut t, owned("brew"), b);
                },
                Err(m) => {
                    return Err(m);
                },
            }
            proof {
                assert forall|k: Seq<char>| #[trigger] member(t@, k) == member(t@, k) && visual_applied_member(
                    l0,
                    f0,
                    k,
                    member(t@, k),
                ) by {
                    if k != "brew"@ {
                        assert(member(t@, k) == member(t4, k));
                    }
                }
            }
            Ok(t)
        },
        _ => Err(owned("body must be a JSON object")),
    }
}

/// `f` has no members but those named in `ks`.
pub open spec fn only_keys(f: Seq<(String, Json)>, ks: Seq<Seq<char>>) -> bool {
    forall|k: Seq<char>| !ks.contains(k) ==> #[trigger] member(f, k) is None
}

/// `j` is the JSON string `t`, or null when `t` is none.
pub open spec fn is_opt_str(j: Option<Json>, t: Option<Seq<char>>) -> bool {
    match t {
        Some(v) => is_str(j, v),
        None => j == Some(Json::Null),
    }
}

/// `active.json` as the visual form receives it: `{"brew": …, "cell": …}`.
pub open spec fn is_active_json(j: Option<Json>, active: ActiveProfiles) -> bool {
    j matches Some(Json::Object(af)) && keys_sorted(af@) && only_keys(af@, seq!["brew"@, "cell"@]) && is_opt_str(
        member(af@, "brew"@),
        opt_view(active.brew),
    ) && is_str(member(af@, "cell"@), active.cell@)
}

/// The Brew form shown when the live configuration has no `[brew]`: backhaul off and the
/// defaults of a new Brew connection.
pub open spec fn is_default_brew(j: Option<Json>) -> bool {
    j matches Some(Json::Object(bf)) && keys_sorted(bf@) && only_keys(
        bf@,
        seq![
            "enabled"@,
            "host"@,
            "port"@,
            "tls"@,
            "username"@,
            "password"@,
            "password_set"@,
            "reconnect_delay_secs"@,
            "feature_sds_enabled"@,
            "feature_rssi_export"@,
        ],
    ) && member(bf@, "enabled"@) == Some(Json::Bool(false))
        && is_str(member(bf@, "host"@), Seq::empty())
        && (member(bf@, "port"@) matches Some(n) && is_number(n, 3003))
        && member(bf@, "tls"@) == Some(Json::Bool(true))
        && (member(bf@, "username"@) matches Some(n) && is_number(n, 0))
        && is_str(member(bf@, "password"@), Seq::empty())
        && member(bf@, "password_set"@) == Some(Json::Bool(false))
        && (member(bf@, "reconnect_delay_secs"@) matches Some(n) && is_number(n, 15))
        && member(bf@, "feature_sds_enabled"@) == Some(Json::Bool(true))
        && member(bf@, "feature_rssi_export"@) == Some(Json::Bool(false))
}

/// The live `[brew]` as the form shows it: a stored password masked, `password_set` saying
/// whether one is stored, and backhaul shown as on.
pub open spec fn brew_shown(live: Json, shown: Json) -> bool {
    match live {
        Json::Object(f) => shown matches Json::Object(nf) && keys_sorted(nf@) && (forall|k: Seq<char>|
            k != "password"@ && k != "password_set"@ && k != "enabled"@ ==> #[trigger] member(nf@, k) == member(
                f@,
                k,
            )) && member(nf@, "enabled"@) == Some(Json::Bool(true)) && match str_member(f@, "password"@) {
            Some(p) => if p.len() > 0 {
                is_str(member(nf@, "password"@), MASKED_PASSWORD@) && member(nf@, "password_set"@) == Some(
                    Json::Bool(true),
                )
            } else {
                member(nf@, "password"@) == member(f@, "password"@) && member(nf@, "password_set"@) == Some(
                    Json::Bool(false),
                )
            },
            None => member(nf@, "password"@) == member(f@, "password"@) && member(nf@, "password_set"@) == Some(
                Json::Bool(false),
            ),
        },
        _ => shown == live,
    }
}

/// The visual form's view of the live configuration `f` (as JSON): `config_version`,
/// `stack_mode`, `phy_io`, `net_info` and `cell_info` as they are, `security` as it is or an
/// empty whitelist, `brew` as shown (see [`brew_shown`]) or the defaults, and the active
/// selection.
pub open spec fn visual_shown(f: Seq<(String, Json)>, active: ActiveProfiles, nf: Seq<(String, Json)>) -> bool {
    &&& keys_sorted(nf)
    &&& forall|k: Seq<char>|
        k != "security"@ && k != "brew"@ && k != "active"@ ==> #[trigger] member(nf, k) == if k == "config_version"@
            || k == "stack_mode"@ || k == "phy_io"@ || k == "net_info"@ || k == "cell_info"@ {
            member(f, k)
        } else {
            None
        }
    &&& match member(f, "security"@) {
        Some(v) => member(nf, "security"@) == Some(v),
        None => is_whitelist_security(member(nf, "security"@), Seq::empty()),
    }
    &&& match member(f, "brew"@) {
        Some(b) => member(nf, "brew"@) matches Some(sb) && brew_shown(b, sb),
        None => is_default_brew(member(nf, "brew"@)),
    }
    &&& is_active_json(member(nf, "active"@), active)
}

fn number(n: u64) -> (r: Json)
    ensures
        is_number(r, n as nat),
{
    Json::Number { as_u64: Some(n), text: string_of(crate::text::dec_chars(n).as_slice()) }
}

fn default_brew_form() -> (r: Json)
    ensures
        is_default_brew(Some(r)),
{
    proof {
        reveal_strlit("enabled");
        reveal_strlit("host");
        reveal_strlit("port");
        reveal_strlit("tls");
        reveal_strlit("username");
        reveal_strlit("password");
        reveal_strlit("password_set");
        reveal_strlit("reconnect_delay_secs");
        reveal_strlit("feature_sds_enabled");
        reveal_strlit("feature_rssi_export");
        assert("enabled"@.len() == 7 && "host"@.len() == 4 && "port"@.len() == 4 && "tls"@.len() == 3);
        assert("username"@.len() == 8 && "password"@.len() == 8 && "password_set"@.len() == 12);
        assert("reconnect_delay_secs"@.len() == 20 && "feature_sds_enabled"@.len() == 19);
        assert("feature_rssi_export"@.len() == 19);
        assert("host"@[0] != "port"@[0] && "username"@[0] != "password"@[0]);
        assert("feature_sds_enabled"@[8] != "feature_rssi_export"@[8]);
    }
    let ghost ks = seq![
        "enabled"@,
        "host"@,
        "port"@,
        "tls"@,
        "username"@,
        "password"@,
        "password_set"@,
        "reconnect_delay_secs"@,
        "feature_sds_enabled"@,
        "feature_rssi_export"@,
    ];
    let mut bf: Vec<(String, Json)> = Vec::new();
    assert forall|k: Seq<char>| #[trigger] member(bf@, k) is None by {}
    obj_set(&mut bf, owned("enabled"), Json::Bool(false));
    obj_set(&mut bf, owned("host"), Json::Str(String::new()));
    obj_set(&mut bf, owned("port"), number(3003));
    obj_set(&mut bf, owned("tls"), Json::Bool(true));
    obj_set(&mut bf, owned("username"), number(0));
    let ghost b5 = bf@;
    assert(member(b5, "enabled"@) == Some(Json::Bool(false)));
    assert(is_str(member(b5, "host"@), Seq::empty()));
    assert(member(b5, "port"@) matches Some(n) && is_number(n, 3003));
    assert(member(b5, "tls"@) == Some(Json::Bool(true)));
    assert(member(b5, "username"@) matches Some(n) && is_number(n, 0));
    assert forall|k: Seq<char>|
        k != "enabled"@ && k != "host"@ && k != "port"@ && k != "tls"@ && k != "username"@ implies #[trigger] member(
        b5,
        k,
    ) is None by {}
    obj_set(&mut bf, owned("password"), Json::Str(String::new()));
    obj_set(&mut bf, owned("password_set"), Json::Bool(false));
    obj_set(&mut bf, owned("reconnect_delay_secs"), number(15));
    obj_set(&mut bf, owned("feature_sds_enabled"), Json::Bool(true));
    obj_set(&mut bf, owned("feature_rssi_export"), Json::Bool(false));
    proof {
        let b = bf@;
        assert(ks[0] == "enabled"@ && ks[1] == "host"@ && ks[2] == "port"@ && ks[3] == "tls"@ && ks[4] == "username"@);
        assert(ks[5] == "password"@ && ks[6] == "password_set"@ && ks[7] == "reconnect_delay_secs"@);
        assert(ks[8] == "feature_sds_enabled"@ && ks[9] == "feature_rssi_export"@);
        assert forall|k: Seq<char>| !ks.contains(k) implies #[trigger] member(b, k) is None by {
            assert(k != ks[0] && k != ks[1] && k != ks[2] && k != ks[3] && k != ks[4]);
            assert(k != ks[5] && k != ks[6] && k != ks[7] && k != ks[8] && k != ks[9]);
        }
    }
    Json::Object(bf)
}

fn shown_brew(b: Json) -> (r: Json)
    requires
        sorted_object(b),
    ensures
        brew_shown(b, r),
{
    proof {
        reveal_strlit("password");
        reveal_strlit("password_set");
        reveal_strlit("enabled");
        assert("password"@.len() == 8 && "password_set"@.len() == 12 && "enabled"@.len() == 7);
    }
    match b {
        Json::Object(bf) => {
            let mut bf = bf;
            let set = match obj_get(&bf, "password") {
                Some(Json::Str(p)) => !p.as_str().is_empty(),
                _ => false,
            };
            if set {
                obj_set(&mut bf, owned("password"), Json::Str(owned(MASKED_PASSWORD)));
            }
            obj_set(&mut bf, owned("password_set"), Json::Bool(set));
            obj_set(&mut bf, owned("enabled"), Json::Bool(true));
            Json::Object(bf)
        },
        other => other,
    }
}

/// `active.json` as JSON (see [`is_active_json`]).
pub fn active_json(active: &ActiveProfiles) -> (r: Json)
    ensures
        is_active_json(Some(r), *active),
{
    proof {
        reveal_strlit("brew");
        reveal_strlit("cell");
        assert("brew"@[0] != "cell"@[0]);
    }
    let mut af: Vec<(String, Json)> = Vec::new();
    assert forall|k: Seq<char>| #[trigger] member(af@, k) is None by {}
    let b = match &active.brew {
        Some(n) => Json::Str(n.clone()),
        None => Json::Null,
    };
    obj_set(&mut af, owned("brew"), b);
    obj_set(&mut af, owned("cell"), Json::Str(active.cell.clone()));
    proof {
        let ks = seq!["brew"@, "cell"@];
        assert(ks[0] == "brew"@ && ks[1] == "cell"@);
        assert forall|k: Seq<char>| !ks.contains(k) implies #[trigger] member(af@, k) is None by {
            assert(k != ks[0] && k != ks[1]);
        }
    }
    Json::Object(af)
}

/// The visual form's view of the live configuration, from its top-level members (as JSON)
/// and the active selection (see [`visual_shown`]).
pub fn visual_config(live: Vec<(String, Json)>, active: &ActiveProfiles) -> (r: Json)
    requires
        keys_sorted(live@),
        match member(live@, "brew"@) {
            Some(b) => sorted_object(b),
            None => true,
        },
    ensures
        r matches Json::Object(nf) && visual_shown(live@, *active, nf@),
{
    proof {
        reveal_strlit("config_version");
        reveal_strlit("stack_mode");
        reveal_strlit("phy_io");
        reveal_strlit("net_info");
        reveal_strlit("cell_info");
        reveal_strlit("security");
        reveal_strlit("brew");
        reveal_strlit("active");
        assert("config_version"@.len() == 14 && "stack_mode"@.len() == 10 && "phy_io"@.len() == 6);
        assert("net_info"@.len() == 8 && "cell_info"@.len() == 9 && "security"@.len() == 8);
        assert("brew"@.len() == 4 && "active"@.len() == 6);
        assert("net_info"@[0] != "security"@[0] && "phy_io"@[0] != "active"@[0]);
    }
    let ghost f0 = live@;
    let mut f = live;
    let mut out: Vec<(String, Json)> = Vec::new();
    assert forall|k: Seq<char>| #[trigger] member(out@, k) is None by {}
    move_member(&mut f, &mut out, "config_version");
    move_member(&mut f, &mut out, "stack_mode");
    move_member(&mut f, &mut out, "phy_io");
    move_member(&mut f, &mut out, "net_info");
    move_member(&mut f, &mut out, "cell_info");
    let ghost o5 = out@;
    let ghost f5 = f@;
    assert forall|k: Seq<char>|
        k != "config_version"@ && k != "stack_mode"@ && k != "phy_io"@ && k != "net_info"@ && k != "cell_info"@ implies #[trigger] member(
        o5,
        k,
    ) is None by {}
    assert(member(f5, "security"@) == member(f0, "security"@));
    assert(member(f5, "brew"@) == member(f0, "brew"@));
    let sec = match obj_remove(&mut f, "security") {
        Some(v) => v,
        None => {
            let mut sf: Vec<(String, Json)> = Vec::new();
            sf.push((owned("issi_whitelist"), Json::Array(Vec::new())));
            Json::Object(sf)
        },
    };
    obj_set(&mut out, owned("security"), sec);
    let brew = match obj_remove(&mut f, "brew") {
        Some(b) => shown_brew(b),
        None => default_brew_form(),
    };
    obj_set(&mut out, owned("brew"), brew);
    obj_set(&mut out, owned("active"), active_json(active));
    Json::Object(out)
}


// ---------------------------------------------------------------------------
// First start: profiles seeded from the live configuration
// ---------------------------------------------------------------------------

/// The live members the `Default` Cell profile is seeded with.
pub open spec fn seed_cell_keys() -> Seq<Seq<char>> {
    seq!["phy_io"@, "net_info"@, "cell_info"@, "security"@, "config_version"@, "stack_mode"@]
}

/// The Brew profile body seeded from the live `brew` value `b`: the table itself, or a
/// value that is not a table kept under `value`.
pub open spec fn seed_brew_body(b: Json, body: Json) -> bool {
    match b {
        Json::Object(_) => body == b,
        _ => body matches Json::Object(vf) && keys_sorted(vf@) && forall|k: Seq<char>| #[trigger] member(vf@, k)
            == if k == "value"@ {
            Some(b)
        } else {
            None::<Json>
        },
    }
}

/// The name of the Brew profile seeded on first start.
pub const SEED_BREW_NAME: &'static str = "Default Brew";

/// What the first start stores: the `Default` Cell profile, and a Brew profile (its name
/// and body) when the live configuration has `brew`.
#[derive(Debug)]
pub struct SeedProfiles {
    pub cell: Json,
    pub brew: Option<(String, Json)>,
}

/// The profiles seeded from the live configuration's top-level members (as JSON): the
/// `Default` Cell profile holds those of [`seed_cell_keys`] that are there; a live `brew`
/// becomes the Brew profile [`SEED_BREW_NAME`] (see [`seed_brew_body`]).
pub fn seed_profiles(live: Vec<(String, Json)>) -> (r: SeedProfiles)
    requires
        keys_sorted(live@),
    ensures
        r.cell matches Json::Object(cf) && keys_sorted(cf@) && forall|k: Seq<char>| #[trigger] member(cf@, k)
            == if seed_cell_keys().contains(k) {
            member(live@, k)
        } else {
            None
        },
        match member(live@, "brew"@) {
            None => r.brew is None,
            Some(b) => r.brew matches Some(p) && p.0@ == SEED_BREW_NAME@ && seed_brew_body(b, p.1),
        },
{
    proof {
        lemma_apply_literals();
        reveal_strlit("brew");
        reveal_strlit("value");
        reveal_strlit("phy_io");
        reveal_strlit("net_info");
        reveal_strlit("cell_info");
        reveal_strlit("security");
        reveal_strlit("config_version");
        reveal_strlit("stack_mode");
        assert("brew"@.len() == 4 && "phy_io"@.len() == 6 && "net_info"@.len() == 8 && "cell_info"@.len() == 9);
        assert("security"@.len() == 8 && "config_version"@.len() == 14 && "stack_mode"@.len() == 10);
        assert("brew"@[0] != "security"@[0] && "brew"@[0] != "net_info"@[0]);
    }
    let ghost f0 = live@;
    let mut f = live;
    let mut cf: Vec<(String, Json)> = Vec::new();
    assert forall|k: Seq<char>| #[trigger] member(cf@, k) is None by {}
    move_member(&mut f, &mut cf, "phy_io");
    move_member(&mut f, &mut cf, "net_info");
    move_member(&mut f, &mut cf, "cell_info");
    move_member(&mut f, &mut cf, "security");
    move_member(&mut f, &mut cf, "config_version");
    move_member(&mut f, &mut cf, "stack_mode");
    proof {
        let ks = seed_cell_keys();
        assert(ks[0] == "phy_io"@ && ks[1] == "net_info"@ && ks[2] == "cell_info"@);
        assert(ks[3] == "security"@ && ks[4] == "config_version"@ && ks[5] == "stack_mode"@);
        assert forall|k: Seq<char>| #[trigger] member(cf@, k) == if ks.contains(k) {
            member(f0, k)
        } else {
            None
        } by {
            if !ks.contains(k) {
                assert(k != ks[0] && k != ks[1] && k != ks[2] && k != ks[3] && k != ks[4] && k != ks[5]);
            }
        }
        assert(member(f@, "brew"@) == member(f0, "brew"@));
    }
    let brew = match obj_remove(&mut f, "brew") {
        None => None,
        Some(b) => {
            let name = owned(SEED_BREW_NAME);
            let body = match b {
                Json::Object(bf) => Json::Object(bf),
                other => {
                    let mut vf: Vec<(String, Json)> = Vec::new();
                    assert forall|k: Seq<char>| #[trigger] member(vf@, k) is None by {}
                    obj_set(&mut vf, owned("value"), other);
                    Json::Object(vf)
                },
            };
            Some((name, body))
        },
    };
    SeedProfiles { cell: Json::Object(cf), brew }
}

// ---------------------------------------------------------------------------
// Dual carrier in the active Cell profile
// ---------------------------------------------------------------------------

/// The members of an object value, none for anything else or nothing.
pub open spec fn fields_of(j: Option<Json>) -> Seq<(String, Json)> {
    match j {
        Some(Json::Object(f)) => f@,
        _ => Seq::empty(),
    }
}

/// Nothing, or an object.
pub open spec fn object_or_absent(j: Option<Json>) -> bool {
    match j {
        None => true,
        Some(Json::Object(_)) => true,
        Some(_) => false,
    }
}

/// `cell_info` after the sync: `old`'s members with `dual_carrier_enabled` set and, when
/// given, `secondary_carrier`.
pub open spec fn cell_synced(old: Option<Json>, enabled: bool, secondary: Option<u16>, new: Option<Json>) -> bool {
    new matches Some(Json::Object(nf)) && keys_sorted(nf@) && (forall|k: Seq<char>|
        k != "dual_carrier_enabled"@ && k != "secondary_carrier"@ ==> #[trigger] member(nf@, k) == member(
            fields_of(old),
            k,
        )) && member(nf@, "dual_carrier_enabled"@) == Some(Json::Bool(enabled)) && match secondary {
        Some(s) => member(nf@, "secondary_carrier"@) matches Some(x) && is_number(x, s as nat),
        None => member(nf@, "secondary_carrier"@) == member(fields_of(old), "secondary_carrier"@),
    }
}

/// `v` when given, else what `old` has under `k`.
pub open spec fn given_or_kept(old: Seq<(String, Json)>, k: Seq<char>, v: Option<Json>) -> Option<Json> {
    match v {
        Some(x) => Some(x),
        None => member(old, k),
    }
}

/// `phy_io.soapysdr` after the sync: `old`'s members with `sample_rate`, `tx_center_freq`
/// and `rx_center_freq` set to those given.
pub open spec fn soapy_synced(old: Option<Json>, fs: Option<Json>, tx: Option<Json>, rx: Option<Json>, new: Option<Json>) -> bool {
    new matches Some(Json::Object(nf)) && keys_sorted(nf@) && (forall|k: Seq<char>|
        k != "sample_rate"@ && k != "tx_center_freq"@ && k != "rx_center_freq"@ ==> #[trigger] member(nf@, k)
            == member(fields_of(old), k)) && member(nf@, "sample_rate"@) == given_or_kept(fields_of(old), "sample_rate"@, fs)
        && member(nf@, "tx_center_freq"@) == given_or_kept(fields_of(old), "tx_center_freq"@, tx) && member(
        nf@,
        "rx_center_freq"@,
    ) == given_or_kept(fields_of(old), "rx_center_freq"@, rx)
}

/// `phy_io` after the sync: `old`'s members (or, without one, `backend = "SoapySdr"`)
/// with `soapysdr` synced (see [`soapy_synced`]).
pub open spec fn phy_synced(old: Option<Json>, fs: Option<Json>, tx: Option<Json>, rx: Option<Json>, new: Option<Json>) -> bool {
    new matches Some(Json::Object(nf)) && keys_sorted(nf@) && soapy_synced(
        member(fields_of(old), "soapysdr"@),
        fs,
        tx,
        rx,
        member(nf@, "soapysdr"@),
    ) && match old {
        Some(_) => forall|k: Seq<char>| k != "soapysdr"@ ==> #[trigger] member(nf@, k) == member(fields_of(old), k),
        None => is_str(member(nf@, "backend"@), "SoapySdr"@) && forall|k: Seq<char>|
            k != "soapysdr"@ && k != "backend"@ ==> #[trigger] member(nf@, k) is None,
    }
}

/// The members a dual-carrier sync reads are sorted objects where they are objects.
pub open spec fn dual_sync_sorted(root: Json) -> bool {
    &&& sorted_object(root)
    &&& root matches Json::Object(f) ==> {
        &&& match member(f@, "cell_info"@) {
            Some(c) => sorted_object(c),
            None => true,
        }
        &&& match member(f@, "phy_io"@) {
            Some(p) => sorted_object(p) && (p matches Json::Object(pf) ==> match member(pf@, "soapysdr"@) {
                Some(s) => sorted_object(s),
                None => true,
            }),
            None => true,
        }
    }
}

/// The outcome of syncing the dual-carrier switch into Cell profile `root`: refused when
/// the profile, its `cell_info`, or (switching on) its `phy_io` or `phy_io.soapysdr` is not
/// an object; else the profile with `cell_info` synced (see [`cell_synced`]) and, switching
/// on, `phy_io` synced with the RF keys (see [`phy_synced`]).
pub open spec fn dual_sync_outcome(
    root: Json,
    enabled: bool,
    secondary: Option<u16>,
    fs: Option<Json>,
    tx: Option<Json>,
    rx: Option<Json>,
    r: Result<Json, String>,
) -> bool {
    match root {
        Json::Object(f) => {
            let ci = member(f@, "cell_info"@);
            let phy = member(f@, "phy_io"@);
            if !object_or_absent(ci) {
                r matches Err(m) && m@ == "cell_info must be an object"@
            } else if enabled && !object_or_absent(phy) {
                r matches Err(m) && m@ == "phy_io must be an object"@
            } else if enabled && !object_or_absent(member(fields_of(phy), "soapysdr"@)) {
                r matches Err(m) && m@ == "soapysdr must be an object"@
            } else {
                r matches Ok(Json::Object(nf)) && keys_sorted(nf@) && (forall|k: Seq<char>|
                    k != "cell_info"@ && k != "phy_io"@ ==> #[trigger] member(nf@, k) == member(f@, k)) && cell_synced(
                    ci,
                    enabled,
                    secondary,
                    member(nf@, "cell_info"@),
                ) && if enabled {
                    phy_synced(phy, fs, tx, rx, member(nf@, "phy_io"@))
                } else {
                    member(nf@, "phy_io"@) == phy
                }
            }
        },
        _ => r matches Err(m) && m@ == "cell profile root must be an object"@,
    }
}

fn set_if_given(fields: &mut Vec<(String, Json)>, key: &str, v: Option<Json>)
    requires
        keys_sorted(old(fields)@),
    ensures
        keys_sorted(final(fields)@),
        forall|k: Seq<char>| #[trigger] member(final(fields)@, k) == if k == key@ {
            given_or_kept(old(fields)@, k, v)
        } else {
            member(old(fields)@, k)
        },
{
    match v {
        Some(x) => obj_set(fields, owned(key), x),
        None => {},
    }
}

/// Sync the dual-carrier switch, the secondary carrier and (switching on) the SDR's sample
/// rate and centre frequencies, each given as the JSON number to store, into Cell profile
/// `root` (see [`dual_sync_outcome`]).
pub fn sync_cell_dual_carrier(
    root: Json,
    enabled: bool,
    secondary: Option<u16>,
    sample_rate: Option<Json>,
    tx_center: Option<Json>,
    rx_center: Option<Json>,
) -> (r: Result<Json, String>)
    requires
        dual_sync_sorted(root),
    ensures
        dual_sync_outcome(root, enabled, secondary, sample_rate, tx_center, rx_center, r),
{
    proof {
        reveal_strlit("cell_info");
        reveal_strlit("phy_io");
        reveal_strlit("soapysdr");
        reveal_strlit("backend");
        reveal_strlit("dual_carrier_enabled");
        reveal_strlit("secondary_carrier");
        reveal_strlit("sample_rate");
        reveal_strlit("tx_center_freq");
        reveal_strlit("rx_center_freq");
        assert("cell_info"@.len() == 9 && "phy_io"@.len() == 6 && "soapysdr"@.len() == 8 && "backend"@.len() == 7);
        assert("dual_carrier_enabled"@.len() == 20 && "secondary_carrier"@.len() == 17);
        assert("sample_rate"@.len() == 11 && "tx_center_freq"@.len() == 14 && "rx_center_freq"@.len() == 14);
        assert("tx_center_freq"@[0] != "rx_center_freq"@[0]);
    }
    let ghost g = sample_rate;
    let ghost gt = tx_center;
    let ghost gr = rx_center;
    let mut f = match root {
        Json::Object(f) => f,
        _ => return Err(owned("cell profile root must be an object")),
    };
    let ghost f0 = f@;
    let ghost ci0 = member(f0, "cell_info"@);
    let mut cf = match obj_remove(&mut f, "cell_info") {
        None => Vec::new(),
        Some(Json::Object(cf)) => cf,
        Some(_) => return Err(owned("cell_info must be an object")),
    };
    assert(cf@ == fields_of(ci0));
    obj_set(&mut cf, owned("dual_carrier_enabled"), Json::Bool(enabled));
    match secondary {
        Some(s) => obj_set(&mut cf, owned("secondary_carrier"), number(s as u64)),
        None => {},
    }
    obj_set(&mut f, owned("cell_info"), Json::Object(cf));
    if enabled {
        let ghost f1 = f@;
        let ghost phy0 = member(f0, "phy_io"@);
        assert(member(f1, "phy_io"@) == phy0);
        let mut pf = match obj_remove(&mut f, "phy_io") {
            None => {
                let mut d: Vec<(String, Json)> = Vec::new();
                assert forall|k: Seq<char>| #[trigger] member(d@, k) is None by {}
                obj_set(&mut d, owned("backend"), Json::Str(owned("SoapySdr")));
                d
            },
            Some(Json::Object(pf)) => pf,
            Some(_) => return Err(owned("phy_io must be an object")),
        };
        let ghost pf0 = pf@;
        assert(member(pf0, "soapysdr"@) == member(fields_of(phy0), "soapysdr"@));
        let mut sf = match obj_remove(&mut pf, "soapysdr") {
            None => Vec::new(),
            Some(Json::Object(sf)) => sf,
            Some(_) => return Err(owned("soapysdr must be an object")),
        };
        let ghost sf0 = sf@;
        set_if_given(&mut sf, "sample_rate", sample_rate);
        set_if_given(&mut sf, "tx_center_freq", tx_center);
        set_if_given(&mut sf, "rx_center_freq", rx_center);
        obj_set(&mut pf, owned("soapysdr"), Json::Object(sf));
        obj_set(&mut f, owned("phy_io"), Json::Object(pf));
    }
    Ok(Json::Object(f))
}

} // verus!
