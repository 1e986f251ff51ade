//! A plain model of a parsed JSON value, as the request handlers read it.
use vstd::prelude::*;
use crate::text::{append_chars, chars_eq, chars_of};
use crate::host_network::{lemma_name_lt_irreflexive, lemma_name_lt_total, lemma_name_lt_transitive, name_lt, name_lt_exec};

verus! {

/// A JSON value.
#[derive(Debug)]
pub enum Json {
    Null,
    Bool(bool),
    /// A number: its value when it is a non-negative integer that fits in `u64`, and its
    /// text as JSON prints it.
    Number { as_u64: Option<u64>, text: String },
    Str(String),
    Array(Vec<Json>),
    /// An object's members, in order, each key once.
    Object(Vec<(String, Json)>),
}

/// The member `key` of an object (the first one with that key); nothing for other values.
pub open spec fn json_get(j: Json, key: Seq<char>) -> Option<Json> {
    match j {
        Json::Object(fields) => member(fields@, key),
        _ => None,
    }
}

/// The first member named `key`.
pub open spec fn member(fields: Seq<(String, Json)>, key: Seq<char>) -> Option<Json>
    decreases fields.len(),
{
    if fields.len() == 0 {
        None
    } else if fields[0].0@ == key {
        Some(fields[0].1)
    } else {
        member(fields.drop_first(), key)
    }
}

/// The member `key` of an object, if it is there.
pub fn get<'a>(j: &'a Json, key: &str) -> (r: Option<&'a Json>)
    ensures
        match r {
            Some(v) => json_get(*j, key@) == Some(*v),
            None => json_get(*j, key@) is None,
        },
{
    match j {
        Json::Object(fields) => {
            let k = chars_of(key);
            let mut i: usize = 0;
            assert(fields@.skip(0) =~= fields@);
            while i < fields.len()
                invariant
                    i <= fields.len(),
                    *j == Json::Object(*fields),
                    k@ == key@,
                    member(fields@, key@) == member(fields@.skip(i as int), key@),
                decreases fields.len() - i,
            {
                assert(fields@.skip(i as int)[0] == fields@[i as int]);
                assert(fields@.skip(i as int).drop_first() =~= fields@.skip(i + 1));
                if crate::text::chars_eq(chars_of(fields[i].0.as_str()).as_slice(), k.as_slice()) {
                    assert(member(fields@.skip(i as int), key@) == Some(fields@[i as int].1));
                    assert(json_get(*j, key@) == Some(fields@[i as int].1));
                    return Some(&fields[i].1);
                }
                i += 1;
            }
            None
        },
        _ => None,
    }
}

/// Keys strictly ascending, as a JSON object map (a `BTreeMap`) holds them; so each key
/// occurs once.
pub open spec fn keys_sorted(fields: Seq<(String, Json)>) -> bool {
    forall|i: int, j: int| 0 <= i < j < fields.len() ==> name_lt(#[trigger] fields[i].0@, #[trigger] fields[j].0@)
}

proof fn lemma_member_append(a: Seq<(String, Json)>, b: Seq<(String, Json)>, k: Seq<char>)
    ensures
        member(a + b, k) == if member(a, k) is Some {
            member(a, k)
        } else {
            member(b, k)
        },
    decreases a.len(),
{
    if a.len() == 0 {
        assert(a + b =~= b);
    } else {
        assert((a + b).drop_first() =~= a.drop_first() + b);
        assert((a + b)[0] == a[0]);
        lemma_member_append(a.drop_first(), b, k);
    }
}

proof fn lemma_member_single(e: (String, Json), k: Seq<char>)
    ensures
        member(seq![e], k) == if e.0@ == k {
            Some(e.1)
        } else {
            None::<Json>
        },
{
    let s1 = seq![e];
    assert(s1.len() == 1);
    assert(s1[0] == e);
    assert(s1.drop_first() =~= Seq::<(String, Json)>::empty());
    assert(member(Seq::<(String, Json)>::empty(), k) is None);
}

proof fn lemma_member_absent(a: Seq<(String, Json)>, k: Seq<char>)
    requires
        forall|i: int| 0 <= i < a.len() ==> (#[trigger] a[i]).0@ != k,
    ensures
        member(a, k) is None,
    decreases a.len(),
{
    if a.len() > 0 {
        assert forall|i: int| 0 <= i < a.drop_first().len() implies (#[trigger] a.drop_first()[i]).0@ != k by {
            assert(a.drop_first()[i] == a[i + 1]);
        }
        lemma_member_absent(a.drop_first(), k);
    }
}

/// Of members sorted by key: the first member is found by its key, and the rest are sorted
/// and hold every other member.
pub proof fn lemma_member_first(s: Seq<(String, Json)>)
    requires
        keys_sorted(s),
        s.len() > 0,
    ensures
        member(s, s[0].0@) == Some(s[0].1),
        keys_sorted(s.drop_first()),
        forall|k: Seq<char>| #[trigger] member(s.drop_first(), k) == if k == s[0].0@ {
            None
        } else {
            member(s, k)
        },
{
    let d = s.drop_first();
    assert forall|i: int| 0 <= i < d.len() implies (#[trigger] d[i]).0@ != s[0].0@ by {
        assert(d[i] == s[i + 1]);
        assert(name_lt(s[0].0@, s[i + 1].0@));
        lemma_name_lt_irreflexive(s[0].0@);
    }
    lemma_member_absent(d, s[0].0@);
    assert forall|i: int, j: int| 0 <= i < j < d.len() implies name_lt(#[trigger] d[i].0@, #[trigger] d[j].0@) by {
        assert(d[i] == s[i + 1] && d[j] == s[j + 1]);
    }
}

/// Set member `key` of an object's members to `v`, keeping the keys sorted: an existing
/// member is replaced in place, a new one goes where its key sorts (as `Map::insert` does).
pub fn obj_set(fields: &mut Vec<(String, Json)>, key: String, v: Json)
    requires
        keys_sorted(old(fields)@),
    ensures
        keys_sorted(final(fields)@),
        forall|k: Seq<char>| #[trigger] member(final(fields)@, k) == if k == key@ {
            Some(v)
        } else {
            member(old(fields)@, k)
        },
{
    let ghost old_f = fields@;
    let ghost kv = key@;
    let kc = chars_of(key.as_str());
    let mut j: usize = 0;
    while j < fields.len() && name_lt_exec(chars_of(fields[j].0.as_str()).as_slice(), kc.as_slice())
        invariant
            j <= fields.len(),
            fields@ == old_f,
            kc@ == kv,
            forall|i: int| 0 <= i < j ==> name_lt(#[trigger] old_f[i].0@, kv),
        decreases fields.len() - j,
    {
        j += 1;
    }
    let replace = j < fields.len() && chars_eq(chars_of(fields[j].0.as_str()).as_slice(), kc.as_slice());
    let ghost pre = old_f.take(j as int);
    let ghost post = if replace { old_f.skip(j + 1) } else { old_f.skip(j as int) };
    proof {
        assert forall|i: int| 0 <= i < pre.len() implies (#[trigger] pre[i]).0@ != kv by {
            lemma_name_lt_irreflexive(kv);
        }
        lemma_member_absent(pre, kv);
        if replace {
            assert(old_f.skip(j as int) =~= seq![old_f[j as int]] + post);
        }
        if j < old_f.len() && !replace {
            lemma_name_lt_total(old_f[j as int].0@, kv);
        }
    }
    if replace {
        fields.remove(j);
    }
    fields.insert(j, (key, v));
    assert(fields@ =~= pre + seq![(key, v)] + post);
    proof {
        assert(old_f =~= pre + old_f.skip(j as int));
        assert forall|k: Seq<char>| #[trigger] member(fields@, k) == if k == kv {
            Some(v)
        } else {
            member(old_f, k)
        } by {
            lemma_member_append(pre + seq![(key, v)], post, k);
            lemma_member_append(pre, seq![(key, v)], k);
            lemma_member_append(pre, old_f.skip(j as int), k);
            lemma_member_single((key, v), k);
            if replace {
                lemma_member_append(seq![old_f[j as int]], post, k);
                lemma_member_single(old_f[j as int], k);
                assert(member(old_f.skip(j as int), k) == member(seq![old_f[j as int]] + post, k));
            } else {
                assert(post == old_f.skip(j as int));
            }
            if k == kv {
                assert(member(pre, k) is None);
                assert(member(pre + seq![(key, v)], k) == Some(v));
            } else {
                assert(member(pre + seq![(key, v)], k) == member(pre, k));
                assert(member(old_f, k) == member(pre + old_f.skip(j as int), k));
            }
        }
        let nf = fields@;
        assert forall|a: int, b: int| 0 <= a < b < nf.len() implies name_lt(#[trigger] nf[a].0@, #[trigger] nf[b].0@) by {
            let pl = pre.len() as int;
            if b < pl {
                assert(nf[a] == old_f[a] && nf[b] == old_f[b]);
            } else if b == pl {
                assert(nf[a] == old_f[a]);
            } else if a == pl {
                let ob = if replace { b } else { b - 1 };
                assert(nf[b] == old_f[ob]);
                if replace {
                    assert(name_lt(old_f[j as int].0@, old_f[ob].0@));
                } else {
                    assert(!name_lt(old_f[j as int].0@, kv));
                    assert(name_lt(kv, old_f[j as int].0@));
                    if ob > j {
                        lemma_name_lt_transitive(kv, old_f[j as int].0@, old_f[ob].0@);
                    }
                }
            } else if a < pl {
                let ob = if replace { b } else { b - 1 };
                assert(nf[a] == old_f[a] && nf[b] == old_f[ob]);
            } else {
                let oa = if replace { a } else { a - 1 };
                let ob = if replace { b } else { b - 1 };
                assert(nf[a] == old_f[oa] && nf[b] == old_f[ob]);
            }
        }
    }
}

/// Remove member `key` of an object's members, if there is one, and hand it back.
pub fn obj_remove(fields: &mut Vec<(String, Json)>, key: &str) -> (r: Option<Json>)
    requires
        keys_sorted(old(fields)@),
    ensures
        r == member(old(fields)@, key@),
        keys_sorted(final(fields)@),
        forall|k: Seq<char>| #[trigger] member(final(fields)@, k) == if k == key@ {
            None
        } else {
            member(old(fields)@, k)
        },
{
    let ghost old_f = fields@;
    let kc = chars_of(key);
    let mut j: usize = 0;
    while j < fields.len() && !chars_eq(chars_of(fields[j].0.as_str()).as_slice(), kc.as_slice())
        invariant
            j <= fields.len(),
            fields@ == old_f,
            kc@ == key@,
            forall|i: int| 0 <= i < j ==> (#[trigger] old_f[i]).0@ != key@,
        decreases fields.len() - j,
    {
        j += 1;
    }
    if j == fields.len() {
        proof {
            lemma_member_absent(old_f, key@);
        }
        return None;
    }
    let ghost pre = old_f.take(j as int);
    let ghost post = old_f.skip(j + 1);
    let (_, removed) = fields.remove(j);
    assert(fields@ =~= pre + post);
    proof {
        assert(old_f =~= pre + (seq![old_f[j as int]] + post));
        assert forall|i: int| 0 <= i < post.len() implies (#[trigger] post[i]).0@ != key@ by {
            assert(post[i] == old_f[j + 1 + i]);
            lemma_name_lt_irreflexive(key@);
        }
        assert forall|i: int| 0 <= i < pre.len() implies (#[trigger] pre[i]).0@ != key@ by {
            assert(pre[i] == old_f[i]);
        }
        lemma_member_absent(pre, key@);
        lemma_member_absent(post, key@);
        assert forall|k: Seq<char>| #[trigger] member(fields@, k) == if k == key@ {
            None
        } else {
            member(old_f, k)
        } by {
            lemma_member_append(pre, post, k);
            lemma_member_append(pre, seq![old_f[j as int]] + post, k);
            lemma_member_append(seq![old_f[j as int]], post, k);
            lemma_member_single(old_f[j as int], k);
            assert(member(old_f, k) == member(pre + (seq![old_f[j as int]] + post), k));
        }
        let nf = fields@;
        assert forall|a: int, b: int| 0 <= a < b < nf.len() implies name_lt(#[trigger] nf[a].0@, #[trigger] nf[b].0@) by {
            let oa = if a < j { a } else { a + 1 };
            let ob = if b < j { b } else { b + 1 };
            assert(nf[a] == old_f[oa] && nf[b] == old_f[ob]);
        }
        lemma_member_append(pre, seq![old_f[j as int]] + post, key@);
        lemma_member_append(seq![old_f[j as int]], post, key@);
        lemma_member_single(old_f[j as int], key@);
        assert(member(old_f, key@) == member(pre + (seq![old_f[j as int]] + post), key@));
    }
    Some(removed)
}

/// Member `key` of an object's members, if there is one.
pub fn obj_get<'a>(fields: &'a Vec<(String, Json)>, key: &str) -> (r: Option<&'a Json>)
    ensures
        match r {
            Some(v) => member(fields@, key@) == Some(*v),
            None => member(fields@, key@) is None,
        },
{
    let k = chars_of(key);
    let mut i: usize = 0;
    assert(fields@.skip(0) =~= fields@);
    while i < fields.len()
        invariant
            i <= fields.len(),
            k@ == key@,
            member(fields@, key@) == member(fields@.skip(i as int), key@),
        decreases fields.len() - i,
    {
        assert(fields@.skip(i as int)[0] == fields@[i as int]);
        assert(fields@.skip(i as int).drop_first() =~= fields@.skip(i + 1));
        if chars_eq(chars_of(fields[i].0.as_str()).as_slice(), k.as_slice()) {
            return Some(&fields[i].1);
        }
        i += 1;
    }
    None
}

/// The four lowercase hex digits of a code below `0x10000`.
pub open spec fn hex4(v: nat) -> Seq<char> {
    seq![hex_digit(v / 4096 % 16), hex_digit(v / 256 % 16), hex_digit(v / 16 % 16), hex_digit(v % 16)]
}

/// The sixteen lowercase hex digits.
pub open spec fn hex_digits() -> Seq<char> {
    seq!['0', '1', '2', '3', '4', '5', '6', '7', '8', '9', 'a', 'b', 'c', 'd', 'e', 'f']
}

/// A lowercase hex digit.
pub open spec fn hex_digit(d: nat) -> char {
    hex_digits()[d as int]
}

/// One character escaped as JSON prints it in a string.
pub open spec fn json_char(c: char) -> Seq<char> {
    if c == '"' {
        seq!['\\', '"']
    } else if c == '\\' {
        seq!['\\', '\\']
    } else if c == '\n' {
        seq!['\\', 'n']
    } else if c == '\r' {
        seq!['\\', 'r']
    } else if c == '\t' {
        seq!['\\', 't']
    } else if c == '\u{08}' {
        seq!['\\', 'b']
    } else if c == '\u{0C}' {
        seq!['\\', 'f']
    } else if (c as u32) < 0x20 {
        seq!['\\', 'u'] + hex4((c as u32) as nat)
    } else {
        seq![c]
    }
}

/// A string literal as JSON prints it.
pub open spec fn json_string(s: Seq<char>) -> Seq<char> {
    seq!['"'] + json_chars(s) + seq!['"']
}

/// The escaped characters of a string.
pub open spec fn json_chars(s: Seq<char>) -> Seq<char>
    decreases s.len(),
{
    if s.len() == 0 {
        Seq::empty()
    } else {
        json_chars(s.drop_last()) + json_char(s.last())
    }
}

/// A JSON value printed compactly.
pub open spec fn json_text(j: Json) -> Seq<char>
    decreases j,
{
    match j {
        Json::Null => "null"@,
        Json::Bool(b) => if b {
            "true"@
        } else {
            "false"@
        },
        Json::Number { as_u64: _, text } => text@,
        Json::Str(s) => json_string(s@),
        Json::Array(items) => seq!['['] + items_text(items@) + seq![']'],
        Json::Object(fields) => seq!['{'] + fields_text(fields@) + seq!['}'],
    }
}

/// Array items printed and separated by commas.
pub open spec fn items_text(items: Seq<Json>) -> Seq<char>
    decreases items,
{
    if items.len() == 0 {
        Seq::empty()
    } else if items.len() == 1 {
        json_text(items[0])
    } else {
        items_text(items.drop_last()) + seq![','] + json_text(items.last())
    }
}

/// Object members printed as `"key":value` and separated by commas.
pub open spec fn fields_text(fields: Seq<(String, Json)>) -> Seq<char>
    decreases fields,
{
    if fields.len() == 0 {
        Seq::empty()
    } else if fields.len() == 1 {
        json_string(fields[0].0@) + seq![':'] + json_text(fields[0].1)
    } else {
        fields_text(fields.drop_last()) + seq![','] + json_string(fields.last().0@) + seq![':']
            + json_text(fields.last().1)
    }
}

/// Appends `json_char(c)`.
fn push_json_char(out: &mut Vec<char>, c: char)
    ensures
        final(out)@ == old(out)@ + json_char(c),
{
    if c == '"' {
        out.push('\\');
        out.push('"');
    } else if c == '\\' {
        out.push('\\');
        out.push('\\');
    } else if c == '\n' {
        out.push('\\');
        out.push('n');
    } else if c == '\r' {
        out.push('\\');
        out.push('r');
    } else if c == '\t' {
        out.push('\\');
        out.push('t');
    } else if c == '\u{08}' {
        out.push('\\');
        out.push('b');
    } else if c == '\u{0C}' {
        out.push('\\');
        out.push('f');
    } else if (c as u32) < 0x20 {
        let v = c as u32;
        let table = vec!['0', '1', '2', '3', '4', '5', '6', '7', '8', '9', 'a', 'b', 'c', 'd', 'e', 'f'];
        out.push('\\');
        out.push('u');
        out.push('0');
        out.push('0');
        out.push(table[(v / 16) as usize]);
        out.push(table[(v % 16) as usize]);
        proof {
            let n = v as nat;
            assert(table@ =~= hex_digits());
            assert(n / 4096 % 16 == 0);
            assert(n / 256 % 16 == 0);
            assert(n / 16 % 16 == v / 16);
            assert(hex_digit(0) == '0');
            assert(hex4(n) =~= seq!['0', '0', table@[(v / 16) as int], table@[(v % 16) as int]]);
        }
    } else {
        out.push(c);
    }
    assert(final(out)@ =~= old(out)@ + json_char(c));
}

/// Appends `json_string(s)`.
fn push_json_string(out: &mut Vec<char>, s: &str)
    ensures
        final(out)@ == old(out)@ + json_string(s@),
{
    let cs = chars_of(s);
    out.push('"');
    let ghost start = out@;
    let mut i: usize = 0;
    assert(cs@.take(0) =~= Seq::<char>::empty());
    assert(start + json_chars(cs@.take(0)) =~= start);
    while i < cs.len()
        invariant
            i <= cs.len(),
            cs@ == s@,
            out@ == start + json_chars(cs@.take(i as int)),
        decreases cs.len() - i,
    {
        let ghost before = out@;
        push_json_char(out, cs[i]);
        assert(cs@.take(i + 1).drop_last() =~= cs@.take(i as int));
        assert(out@ =~= start + json_chars(cs@.take(i + 1)));
        i += 1;
    }
    assert(cs@.take(cs.len() as int) =~= cs@);
    out.push('"');
    assert(out@ =~= old(out)@ + json_string(s@));
}

/// Appends `json_text(j)`.
pub fn push_json_text(out: &mut Vec<char>, j: &Json)
    ensures
        final(out)@ == old(out)@ + json_text(*j),
    decreases j,
{
    match j {
        Json::Null => append_chars(out, chars_of("null").as_slice()),
        Json::Bool(b) => {
            if *b {
                append_chars(out, chars_of("true").as_slice());
            } else {
                append_chars(out, chars_of("false").as_slice());
            }
        },
        Json::Number { as_u64: _, text } => append_chars(out, chars_of(text.as_str()).as_slice()),
        Json::Str(s) => push_json_string(out, s.as_str()),
        Json::Array(items) => {
            out.push('[');
            let ghost start = out@;
            let mut i: usize = 0;
            assert(items@.take(0) =~= Seq::<Json>::empty());
            assert(start + items_text(items@.take(0)) =~= start);
            while i < items.len()
                invariant
                    i <= items.len(),
                    *j == Json::Array(*items),
                    out@ == start + items_text(items@.take(i as int)),
                decreases items.len() - i,
            {
                let ghost before = out@;
                assert(items@.take(i + 1).drop_last() =~= items@.take(i as int));
                if i > 0 {
                    out.push(',');
                }
                proof {
                    assert(decreases_to!(*items => items@));
                    assert(decreases_to!(items@ => items@[i as int]));
                    assert(*items == (*j)->Array_0);
                    assert(decreases_to!(*j => (*j)->Array_0));
                }
                push_json_text(out, &items[i]);
                proof {
                    if i > 0 {
                        assert(out@ =~= start + (items_text(items@.take(i as int)) + seq![','] + json_text(items@[i as int])));
                    } else {
                        assert(out@ =~= start + json_text(items@[i as int]));
                    }
                }
                i += 1;
            }
            assert(items@.take(items.len() as int) =~= items@);
            out.push(']');
            assert(out@ =~= old(out)@ + json_text(*j));
        },
        Json::Object(fields) => {
            out.push('{');
            let ghost start = out@;
            let mut i: usize = 0;
            assert(fields@.take(0) =~= Seq::<(String, Json)>::empty());
            assert(start + fields_text(fields@.take(0)) =~= start);
            while i < fields.len()
                invariant
                    i <= fields.len(),
                    *j == Json::Object(*fields),
                    out@ == start + fields_text(fields@.take(i as int)),
                decreases fields.len() - i,
            {
                let ghost before = out@;
                assert(fields@.take(i + 1).drop_last() =~= fields@.take(i as int));
                if i > 0 {
                    out.push(',');
                }
                push_json_string(out, fields[i].0.as_str());
                out.push(':');
                proof {
                    assert(decreases_to!(*fields => fields@));
                    assert(decreases_to!(fields@ => fields@[i as int]));
                    assert(decreases_to!(fields@[i as int] => fields@[i as int].1));
                    assert(*fields == (*j)->Object_0);
                    assert(decreases_to!(*j => (*j)->Object_0));
                }
                push_json_text(out, &fields[i].1);
                proof {
                    let f = fields@[i as int];
                    if i > 0 {
                        assert(out@ =~= start + (fields_text(fields@.take(i as int)) + seq![','] + json_string(f.0@) + seq![':'] + json_text(f.1)));
                    } else {
                        assert(out@ =~= start + (json_string(f.0@) + seq![':'] + json_text(f.1)));
                    }
                }
                i += 1;
            }
            assert(fields@.take(fields.len() as int) =~= fields@);
            out.push('}');
            assert(out@ =~= old(out)@ + json_text(*j));
        },
    }
}

} // verus!
