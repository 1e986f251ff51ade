//! Line-level view of a `config.toml` used by the surgical editors.
//!
//! The editors never parse TOML: they walk the lines, recognise section headers and
//! active `key = value` assignments, and rewrite only what they own, so comments and
//! unrelated keys survive untouched.
use vstd::prelude::*;
use crate::text::{
    append_chars, contains, has_line, copy_chars, copy_slice, ends_with, ends_with_exec, has_char, has_char_exec,
    join_lines, join_lines_exec, occurs_at, starts_with, starts_with_exec, string_of, trim,
    trim_exec, trim_start, trim_start_exec, trim_start_index, views,
};

verus! {

/// A line (already stripped of leading whitespace) that opens a section: `[..]`.
pub open spec fn is_header(trimmed: Seq<char>) -> bool {
    starts_with(trimmed, seq!['[']) && has_char(trimmed, ']')
}

/// For an active (uncommented) `key = value` line, the trimmed value part.
pub open spec fn active_value(trimmed: Seq<char>, key: Seq<char>) -> Option<Seq<char>> {
    if starts_with(trimmed, seq!['#']) || !starts_with(trimmed, key) {
        None
    } else {
        let rest = trim_start(trimmed.skip(key.len() as int));
        if starts_with(rest, seq!['=']) {
            Some(trim(rest.drop_first()))
        } else {
            None
        }
    }
}

/// The leading whitespace of a raw line.
pub open spec fn indent_of(raw: Seq<char>) -> Seq<char> {
    raw.take(raw.len() - trim_start(raw).len())
}

/// Lines to append for a section that the file does not have yet: a blank separator
/// unless the output already ends with one (or is empty), then the given lines.
pub open spec fn append_section(out: Seq<Seq<char>>, section: Seq<Seq<char>>) -> Seq<Seq<char>> {
    if out.len() > 0 && out.last().len() > 0 {
        out.push(Seq::empty()) + section
    } else {
        out + section
    }
}

/// Joins the edited lines and restores the final newline of the original. With `guarded`
/// the newline is added only when the joined body does not already end with one.
pub open spec fn finish_body(original: Seq<char>, out: Seq<Seq<char>>, guarded: bool) -> Seq<char> {
    let body = join_lines(out);
    if ends_with(original, seq!['\n']) && !(guarded && ends_with(body, seq!['\n'])) {
        body.push('\n')
    } else {
        body
    }
}

/// `is_header` for a slice.
pub fn is_header_exec(trimmed: &[char]) -> (r: bool)
    ensures
        r == is_header(trimmed@),
{
    let open = vec!['['];
    assert(open@ =~= seq!['[']);
    starts_with_exec(trimmed, open.as_slice()) && has_char_exec(trimmed, ']')
}

/// `active_value` for slices.
pub fn active_value_exec(trimmed: &[char], key: &[char]) -> (r: Option<Vec<char>>)
    ensures
        match r {
            Some(v) => active_value(trimmed@, key@) == Some(v@),
            None => active_value(trimmed@, key@) is None,
        },
{
    let hash = vec!['#'];
    assert(hash@ =~= seq!['#']);
    if starts_with_exec(trimmed, hash.as_slice()) || !starts_with_exec(trimmed, key) {
        return None;
    }
    let tail = copy_slice(trimmed, key.len(), trimmed.len());
    assert(tail@ =~= trimmed@.skip(key@.len() as int));
    let rest = trim_start_exec(tail.as_slice());
    let eq = vec!['='];
    assert(eq@ =~= seq!['=']);
    if !starts_with_exec(rest.as_slice(), eq.as_slice()) {
        return None;
    }
    let after = copy_slice(rest.as_slice(), 1, rest.len());
    assert(after@ =~= rest@.drop_first());
    Some(trim_exec(after.as_slice()))
}

/// `indent_of` for a slice.
pub fn indent_exec(raw: &[char]) -> (r: Vec<char>)
    ensures
        r@ == indent_of(raw@),
{
    let k = trim_start_index(raw);
    copy_slice(raw, 0, k)
}

/// `append_section` on a vector of lines.
pub fn append_section_exec(out: &mut Vec<Vec<char>>, section: Vec<Vec<char>>)
    ensures
        views(final(out)@) == append_section(views(old(out)@), views(section@)),
{
    if out.len() > 0 && out[out.len() - 1].len() > 0 {
        out.push(Vec::new());
    }
    let ghost mid = views(out@);
    let mut i: usize = 0;
    let mut section = section;
    while i < section.len()
        invariant
            i <= section.len(),
            views(out@) == mid + views(section@).take(i as int),
        decreases section.len() - i,
    {
        let l = copy_chars(section[i].as_slice());
        let ghost pre = out@;
        out.push(l);
        assert(out@ =~= pre.push(l));
        assert(views(out@) =~= views(pre).push(section@[i as int]@));
        assert(views(section@).take(i + 1) =~= views(section@).take(i as int).push(
            section@[i as int]@,
        ));
        assert(views(out@) =~= mid + views(section@).take(i + 1));
        i += 1;
    }
    assert(views(section@).take(section.len() as int) =~= views(section@));
    proof {
        if views(old(out)@).len() > 0 && views(old(out)@).last().len() > 0 {
            assert(mid =~= views(old(out)@).push(Seq::empty()));
        } else {
            assert(mid =~= views(old(out)@));
        }
    }
}

/// `finish_body` as a `String`.
pub fn finish_body_exec(original: &[char], out: &Vec<Vec<char>>, guarded: bool) -> (r: String)
    ensures
        r@ == finish_body(original@, views(out@), guarded),
{
    let mut body = join_lines_exec(out);
    let nl = vec!['\n'];
    assert(nl@ =~= seq!['\n']);
    if ends_with_exec(original, nl.as_slice()) && !(guarded && ends_with_exec(body.as_slice(), nl.as_slice())) {
        body.push('\n');
    }
    string_of(body.as_slice())
}

/// A joined text contains each of its lines.
pub proof fn lemma_join_contains_line(ls: Seq<Seq<char>>, i: int)
    requires
        0 <= i < ls.len(),
    ensures
        contains(join_lines(ls), ls[i]),
    decreases ls.len(),
{
    if ls.len() == 1 {
        assert(occurs_at(join_lines(ls), ls[i], 0)) by {
            assert(join_lines(ls).subrange(0, ls[0].len() as int) =~= ls[0]);
        }
    } else if i == ls.len() - 1 {
        let pre = join_lines(ls.drop_last()) + seq!['\n'];
        let k = pre.len() as int;
        assert(occurs_at(join_lines(ls), ls[i], k)) by {
            assert(join_lines(ls).subrange(k, k + ls[i].len()) =~= ls[i]);
        }
    } else {
        lemma_join_contains_line(ls.drop_last(), i);
        let j = choose|j: int| occurs_at(join_lines(ls.drop_last()), ls[i], j);
        assert(occurs_at(join_lines(ls), ls[i], j)) by {
            assert(join_lines(ls).subrange(j, j + ls[i].len()) =~= join_lines(
                ls.drop_last(),
            ).subrange(j, j + ls[i].len()));
        }
    }
}

/// A text that ends with `suffix` after a final newline is appended still contains it.
pub proof fn lemma_contains_push(s: Seq<char>, p: Seq<char>, c: char)
    requires
        contains(s, p),
    ensures
        contains(s.push(c), p),
{
    let j = choose|j: int| occurs_at(s, p, j);
    assert(s.push(c).subrange(j, j + p.len()) =~= s.subrange(j, j + p.len()));
    assert(occurs_at(s.push(c), p, j));
}

/// A sequence containing `q`, where `q` contains `p`, contains `p`.
pub proof fn lemma_contains_trans(s: Seq<char>, q: Seq<char>, p: Seq<char>)
    requires
        contains(s, q),
        contains(q, p),
    ensures
        contains(s, p),
{
    let j = choose|j: int| occurs_at(s, q, j);
    let k = choose|k: int| occurs_at(q, p, k);
    assert(s.subrange(j + k, j + k + p.len()) =~= q.subrange(k, k + p.len()));
    assert(occurs_at(s, p, j + k));
}

/// `finish_body` keeps every output line as a substring of the text.
pub proof fn lemma_finish_contains(original: Seq<char>, out: Seq<Seq<char>>, guarded: bool, l: Seq<char>)
    requires
        has_line(out, l),
    ensures
        contains(finish_body(original, out, guarded), l),
{
    let i = choose|i: int| 0 <= i < out.len() && out[i] == l;
    lemma_join_contains_line(out, i);
    if finish_body(original, out, guarded) != join_lines(out) {
        lemma_contains_push(join_lines(out), l, '\n');
    }
}

} // verus!
