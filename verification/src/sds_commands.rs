//! Dashboard-editable SDS command control (U-STATUS → ISSI 9999).
//!
//! Lives under `[cell_info.sds_command_control]` in the TOML. A runtime override applies
//! edits immediately; the nested TOML section is rewritten surgically so the rest of the
//! file (and Cell/Brew profiles) stay untouched.
use vstd::prelude::*;
use crate::text::{
    append_chars, bool_chars, bool_text, chars_of, contains, dec, dec_chars, ends_with, has_char,
    join_lines, join_lines_exec, join_with, lines, split_lines, starts_with, starts_with_exec,
    string_of, trim, trim_exec, trim_start, trim_start_exec, views, has_char_exec, ends_with_exec,
    chars_eq, lower, parse_uint, parse_uint_exec, to_lower,
};
use crate::json::{fields_text, get, member, items_text, json_chars, json_get, json_string, json_text, push_json_text, Json};

verus! {

/// One configured command: a U-STATUS code and the action it triggers.
#[derive(Debug)]
pub struct CfgSdsCommandEntry {
    pub status_code: u16,
    pub action: String,
}

/// `[cell_info.sds_command_control]` as configured.
#[derive(Debug)]
pub struct CfgSdsCommandControl {
    pub authorized_issis: Vec<u32>,
    pub commands: Vec<CfgSdsCommandEntry>,
}

/// The command control the dashboard applies at run time.
#[derive(Debug)]
pub struct SdsCommandRuntimeOverride {
    pub enabled: bool,
    pub authorized_issis: Vec<u32>,
    pub commands: Vec<CfgSdsCommandEntry>,
}

impl Default for SdsCommandRuntimeOverride {
    fn default() -> (r: Self)
        ensures
            !r.enabled,
            r.authorized_issis@.len() == 0,
            r.commands@.len() == 0,
    {
        SdsCommandRuntimeOverride { enabled: false, authorized_issis: Vec::new(), commands: Vec::new() }
    }
}

/// A command as (status code, action).
pub type CommandView = (u16, Seq<char>);

/// The views of commands.
pub open spec fn command_views(v: Seq<CfgSdsCommandEntry>) -> Seq<CommandView> {
    v.map_values(|c: CfgSdsCommandEntry| (c.status_code, c.action@))
}

/// A copy of a list of commands.
fn copy_commands(v: &Vec<CfgSdsCommandEntry>) -> (r: Vec<CfgSdsCommandEntry>)
    ensures
        command_views(r@) == command_views(v@),
{
    let mut r: Vec<CfgSdsCommandEntry> = Vec::new();
    let mut i: usize = 0;
    while i < v.len()
        invariant
            i <= v.len(),
            command_views(r@) == command_views(v@).take(i as int),
        decreases v.len() - i,
    {
        let ghost prev = r@;
        r.push(CfgSdsCommandEntry {
            status_code: v[i].status_code,
            action: string_of(chars_of(v[i].action.as_str()).as_slice()),
        });
        assert(command_views(r@) =~= command_views(prev).push((v@[i as int].status_code, v@[i as int].action@)));
        assert(command_views(v@).take(i + 1) =~= command_views(v@).take(i as int).push(
            (v@[i as int].status_code, v@[i as int].action@),
        ));
        i += 1;
    }
    assert(command_views(v@).take(v.len() as int) =~= command_views(v@));
    r
}

/// A copy of a list of ISSIs.
fn copy_u32s(v: &Vec<u32>) -> (r: Vec<u32>)
    ensures
        r@ == v@,
{
    let mut r: Vec<u32> = Vec::new();
    let mut i: usize = 0;
    while i < v.len()
        invariant
            i <= v.len(),
            r@ == v@.take(i as int),
        decreases v.len() - i,
    {
        r.push(v[i]);
        assert(v@.take(i + 1) =~= v@.take(i as int).push(v@[i as int]));
        i += 1;
    }
    assert(v@.take(v.len() as int) =~= v@);
    r
}

/// Snapshot of the effective configuration, for a GET before any runtime override: the
/// configured control enabled as it is, or control off when none is configured.
pub fn from_cfg(ctrl: Option<&CfgSdsCommandControl>) -> (r: SdsCommandRuntimeOverride)
    ensures
        match ctrl {
            Some(c) => r.enabled && r.authorized_issis@ == c.authorized_issis@ && command_views(
                r.commands@,
            ) == command_views(c.commands@),
            None => !r.enabled && r.authorized_issis@.len() == 0 && r.commands@.len() == 0,
        },
{
    match ctrl {
        Some(c) => SdsCommandRuntimeOverride {
            enabled: true,
            authorized_issis: copy_u32s(&c.authorized_issis),
            commands: copy_commands(&c.commands),
        },
        None => SdsCommandRuntimeOverride { enabled: false, authorized_issis: Vec::new(), commands: Vec::new() },
    }
}

/// `s` with `\` and `"` escaped.
pub open spec fn quote_escape(s: Seq<char>) -> Seq<char>
    decreases s.len(),
{
    if s.len() == 0 {
        Seq::empty()
    } else {
        quote_escape(s.drop_last()) + if s.last() == '\\' {
            seq!['\\', '\\']
        } else if s.last() == '"' {
            seq!['\\', '"']
        } else {
            seq![s.last()]
        }
    }
}

/// Decimal texts of the numbers joined with `sep`.
pub open spec fn numbers_joined(v: Seq<u32>, sep: Seq<char>) -> Seq<char> {
    join_with(v.map_values(|n: u32| dec(n as nat)), sep)
}

/// One command as a JSON object.
pub open spec fn command_json(c: CommandView) -> Seq<char> {
    "{\"status_code\":"@ + dec(c.0 as nat) + ",\"action\":\""@ + quote_escape(c.1) + "\"}"@
}

/// The runtime override as the JSON the dashboard reads.
pub open spec fn spec_override_json(enabled: bool, issis: Seq<u32>, cmds: Seq<CommandView>) -> Seq<char> {
    "{\"enabled\":"@ + bool_text(enabled) + ",\"authorized_issis\":["@ + numbers_joined(issis, seq![','])
        + "],\"commands\":["@ + join_with(cmds.map_values(|c: CommandView| command_json(c)), seq![','])
        + "],\"control_issi\":9999}"@
}

/// Appends `quote_escape(s)`.
fn push_quote_escaped(out: &mut Vec<char>, s: &str)
    ensures
        final(out)@ == old(out)@ + quote_escape(s@),
{
    let cs = chars_of(s);
    let mut i: usize = 0;
    while i < cs.len()
        invariant
            i <= cs.len(),
            cs@ == s@,
            out@ == old(out)@ + quote_escape(cs@.take(i as int)),
        decreases cs.len() - i,
    {
        let c = cs[i];
        if c == '\\' {
            out.push('\\');
            out.push('\\');
        } else if c == '"' {
            out.push('\\');
            out.push('"');
        } else {
            out.push(c);
        }
        assert(cs@.take(i + 1).drop_last() =~= cs@.take(i as int));
        assert(out@ =~= old(out)@ + quote_escape(cs@.take(i + 1)));
        i += 1;
    }
    assert(cs@.take(cs.len() as int) =~= cs@);
}

/// Appends the numbers joined with `sep`.
fn push_numbers(out: &mut Vec<char>, v: &Vec<u32>, sep: &[char])
    ensures
        final(out)@ == old(out)@ + numbers_joined(v@, sep@),
{
    let ghost ds = v@.map_values(|n: u32| dec(n as nat));
    let mut i: usize = 0;
    assert(ds.take(0) =~= Seq::<Seq<char>>::empty());
    assert(old(out)@ + join_with(ds.take(0), sep@) =~= old(out)@);
    while i < v.len()
        invariant
            i <= v.len(),
            ds == v@.map_values(|n: u32| dec(n as nat)),
            out@ == old(out)@ + join_with(ds.take(i as int), sep@),
        decreases v.len() - i,
    {
        let ghost before = out@;
        assert(ds.take(i + 1).drop_last() =~= ds.take(i as int));
        assert(ds.take(i + 1).last() == dec(v@[i as int] as nat));
        if i > 0 {
            append_chars(out, sep);
        }
        append_chars(out, dec_chars(v[i] as u64).as_slice());
        proof {
            if i > 0 {
                assert(out@ =~= old(out)@ + (join_with(ds.take(i as int), sep@) + sep@ + dec(v@[i as int] as nat)));
            } else {
                assert(out@ =~= old(out)@ + dec(v@[i as int] as nat));
            }
        }
        i += 1;
    }
    assert(ds.take(v.len() as int) =~= ds);
}

/// Appends a literal.
fn push_lit(out: &mut Vec<char>, s: &str)
    ensures
        final(out)@ == old(out)@ + s@,
{
    append_chars(out, chars_of(s).as_slice());
}

/// The runtime override as the JSON the dashboard reads.
pub fn override_to_json(ov: &SdsCommandRuntimeOverride) -> (r: String)
    ensures
        r@ == spec_override_json(ov.enabled, ov.authorized_issis@, command_views(ov.commands@)),
{
    let mut o: Vec<char> = Vec::new();
    push_lit(&mut o, "{\"enabled\":");
    append_chars(&mut o, bool_chars(ov.enabled).as_slice());
    push_lit(&mut o, ",\"authorized_issis\":[");
    let comma = vec![','];
    push_numbers(&mut o, &ov.authorized_issis, comma.as_slice());
    push_lit(&mut o, "],\"commands\":[");
    let ghost cv = command_views(ov.commands@);
    let ghost js = cv.map_values(|c: CommandView| command_json(c));
    let ghost head = o@;
    let mut i: usize = 0;
    assert(js.take(0) =~= Seq::<Seq<char>>::empty());
    assert(head + join_with(js.take(0), seq![',']) =~= head);
    while i < ov.commands.len()
        invariant
            i <= ov.commands.len(),
            cv == command_views(ov.commands@),
            js == cv.map_values(|c: CommandView| command_json(c)),
            o@ == head + join_with(js.take(i as int), seq![',']),
        decreases ov.commands.len() - i,
    {
        let ghost before = o@;
        assert(js.take(i + 1).drop_last() =~= js.take(i as int));
        let c = &ov.commands[i];
        assert(js.take(i + 1).last() == command_json((c.status_code, c.action@)));
        if i > 0 {
            o.push(',');
        }
        push_lit(&mut o, "{\"status_code\":");
        append_chars(&mut o, dec_chars(c.status_code as u64).as_slice());
        push_lit(&mut o, ",\"action\":\"");
        push_quote_escaped(&mut o, c.action.as_str());
        push_lit(&mut o, "\"}");
        proof {
            let x = command_json((c.status_code, c.action@));
            if i > 0 {
                assert(o@ =~= head + (join_with(js.take(i as int), seq![',']) + seq![','] + x));
            } else {
                assert(o@ =~= head + x);
            }
        }
        i += 1;
    }
    assert(js.take(ov.commands.len() as int) =~= js);
    push_lit(&mut o, "],\"control_issi\":9999}");
    proof {
        assert(comma@ =~= seq![',']);
        assert(o@ =~= spec_override_json(ov.enabled, ov.authorized_issis@, cv));
    }
    string_of(o.as_slice())
}

/// The lines of the TOML section for an override.
pub open spec fn section_lines(issis: Seq<u32>, cmds: Seq<CommandView>) -> Seq<Seq<char>>
    decreases cmds.len(),
{
    if cmds.len() == 0 {
        seq![
            "[cell_info.sds_command_control]"@,
            "authorized_issis = ["@ + numbers_joined(issis, ", "@) + "]"@,
        ]
    } else {
        let c = cmds.last();
        section_lines(issis, cmds.drop_last()) + seq![
            Seq::empty(),
            "[[cell_info.sds_command_control.commands]]"@,
            "status_code = "@ + dec(c.0 as nat),
            "action = \""@ + c.1 + "\""@,
        ]
    }
}

/// Each line followed by a newline.
pub open spec fn lines_text(ls: Seq<Seq<char>>) -> Seq<char>
    decreases ls.len(),
{
    if ls.len() == 0 {
        Seq::empty()
    } else {
        lines_text(ls.drop_last()) + ls.last() + seq!['\n']
    }
}

/// The section's lines as character vectors.
fn section_lines_exec(ov: &SdsCommandRuntimeOverride) -> (r: Vec<Vec<char>>)
    ensures
        views(r@) == section_lines(ov.authorized_issis@, command_views(ov.commands@)),
{
    let mut r: Vec<Vec<char>> = Vec::new();
    r.push(chars_of("[cell_info.sds_command_control]"));
    let mut l = chars_of("authorized_issis = [");
    let sep = chars_of(", ");
    push_numbers(&mut l, &ov.authorized_issis, sep.as_slice());
    push_lit(&mut l, "]");
    r.push(l);
    let ghost cv = command_views(ov.commands@);
    assert(cv.take(0) =~= Seq::<CommandView>::empty());
    assert(views(r@) =~= section_lines(ov.authorized_issis@, cv.take(0)));
    let mut i: usize = 0;
    while i < ov.commands.len()
        invariant
            i <= ov.commands.len(),
            cv == command_views(ov.commands@),
            views(r@) == section_lines(ov.authorized_issis@, cv.take(i as int)),
        decreases ov.commands.len() - i,
    {
        let c = &ov.commands[i];
        assert(cv.take(i + 1).drop_last() =~= cv.take(i as int));
        assert(cv.take(i + 1).last() == (c.status_code, c.action@));
        let ghost prev = views(r@);
        r.push(Vec::new());
        r.push(chars_of("[[cell_info.sds_command_control.commands]]"));
        let mut sc = chars_of("status_code = ");
        append_chars(&mut sc, dec_chars(c.status_code as u64).as_slice());
        r.push(sc);
        let mut ac = chars_of("action = \"");
        append_chars(&mut ac, chars_of(c.action.as_str()).as_slice());
        push_lit(&mut ac, "\"");
        r.push(ac);
        assert(views(r@) =~= prev + seq![
            Seq::<char>::empty(),
            "[[cell_info.sds_command_control.commands]]"@,
            "status_code = "@ + dec(c.status_code as nat),
            "action = \""@ + c.action@ + "\""@,
        ]);
        i += 1;
    }
    assert(cv.take(ov.commands.len() as int) =~= cv);
    r
}

/// The TOML section for an override, each line ending in a newline.
pub fn render_section(ov: &SdsCommandRuntimeOverride) -> (r: String)
    ensures
        r@ == lines_text(section_lines(ov.authorized_issis@, command_views(ov.commands@))),
{
    let ls = section_lines_exec(ov);
    let ghost lv = views(ls@);
    let mut out: Vec<char> = Vec::new();
    let mut i: usize = 0;
    assert(lv.take(0) =~= Seq::<Seq<char>>::empty());
    while i < ls.len()
        invariant
            i <= ls.len(),
            lv == views(ls@),
            out@ == lines_text(lv.take(i as int)),
        decreases ls.len() - i,
    {
        assert(lv.take(i + 1).drop_last() =~= lv.take(i as int));
        assert(lv.take(i + 1).last() == ls@[i as int]@);
        append_chars(&mut out, ls[i].as_slice());
        out.push('\n');
        i += 1;
    }
    assert(lv.take(ls.len() as int) =~= lv);
    string_of(out.as_slice())
}

/// A line (without leading whitespace) that opens the command-control section or one of
/// its command tables.
pub open spec fn spec_is_sds_command_header(t: Seq<char>) -> bool {
    starts_with(t, "[cell_info.sds_command_control]"@) || starts_with(
        t,
        "[[cell_info.sds_command_control.commands]]"@,
    )
}

/// A line (without leading whitespace) that opens any other section.
pub open spec fn spec_is_other_section_header(t: Seq<char>) -> bool {
    starts_with(t, seq!['[']) && has_char(t, ']') && !spec_is_sds_command_header(t)
}

/// Whether a line opens the command-control section or one of its command tables.
pub fn is_sds_command_header(trimmed: &str) -> (r: bool)
    ensures
        r == spec_is_sds_command_header(trimmed@),
{
    let t = chars_of(trimmed);
    starts_with_exec(t.as_slice(), chars_of("[cell_info.sds_command_control]").as_slice())
        || starts_with_exec(t.as_slice(), chars_of("[[cell_info.sds_command_control.commands]]").as_slice())
}

/// Whether a line opens a section other than the command-control ones.
pub fn is_other_section_header(trimmed: &str) -> (r: bool)
    ensures
        r == spec_is_other_section_header(trimmed@),
{
    let t = chars_of(trimmed);
    let open = vec!['['];
    assert(open@ =~= seq!['[']);
    if !(starts_with_exec(t.as_slice(), open.as_slice()) && has_char_exec(t.as_slice(), ']')) {
        return false;
    }
    !is_sds_command_header(trimmed)
}

/// Scan state of the rewrite: kept lines, and whether the lines being read belong to the
/// command-control section.
pub type SdsScan = (Seq<Seq<char>>, bool);

/// One line of the rewrite: the command-control section and its command tables are
/// dropped up to the next other section header.
pub open spec fn sds_step(st: SdsScan, line: Seq<char>) -> SdsScan {
    let t = trim_start(line);
    if spec_is_sds_command_header(t) {
        (st.0, true)
    } else if st.1 && !spec_is_other_section_header(t) {
        (st.0, true)
    } else {
        (st.0.push(line), false)
    }
}

/// The scan state after the lines `ls`.
pub open spec fn sds_scan(ls: Seq<Seq<char>>) -> SdsScan
    decreases ls.len(),
{
    if ls.len() == 0 {
        (Seq::empty(), false)
    } else {
        sds_step(sds_scan(ls.drop_last()), ls.last())
    }
}

/// `ls` without its trailing blank lines.
pub open spec fn drop_blank_tail(ls: Seq<Seq<char>>) -> Seq<Seq<char>>
    decreases ls.len(),
{
    if ls.len() > 0 && trim(ls.last()).len() == 0 {
        drop_blank_tail(ls.drop_last())
    } else {
        ls
    }
}

/// The config text with the command-control section removed and, when the override is
/// enabled, rendered anew at the end after a blank line; it always ends with a newline.
pub open spec fn spec_sds_compute_toml(original: Seq<char>, enabled: bool, issis: Seq<u32>, cmds: Seq<CommandView>) -> Seq<
    char,
> {
    let kept = drop_blank_tail(sds_scan(lines(original)).0);
    let out = if enabled {
        kept.push(Seq::empty()) + section_lines(issis, cmds)
    } else {
        kept
    };
    let body = join_lines(out);
    if ends_with(body, seq!['\n']) {
        body
    } else {
        body.push('\n')
    }
}

/// Rewrite or remove `[cell_info.sds_command_control]` (with its command tables) in the
/// config text. When `enabled` is false the section is removed entirely (control off).
pub fn compute_toml(original: &str, ov: &SdsCommandRuntimeOverride) -> (r: String)
    ensures
        r@ == spec_sds_compute_toml(original@, ov.enabled, ov.authorized_issis@, command_views(ov.commands@)),
{
    let ls = split_lines(chars_of(original).as_slice());
    let mut out: Vec<Vec<char>> = Vec::new();
    let mut skipping = false;
    let mut i: usize = 0;
    assert(lines(original@).take(0) =~= Seq::<Seq<char>>::empty());
    assert(views(out@) =~= Seq::<Seq<char>>::empty());
    while i < ls.len()
        invariant
            i <= ls.len(),
            views(ls@) == lines(original@),
            (views(out@), skipping) == sds_scan(lines(original@).take(i as int)),
        decreases ls.len() - i,
    {
        assert(lines(original@).take(i + 1).drop_last() =~= lines(original@).take(i as int));
        assert(lines(original@).take(i + 1).last() == ls@[i as int]@);
        let t = string_of(trim_start_exec(ls[i].as_slice()).as_slice());
        if is_sds_command_header(t.as_str()) {
            skipping = true;
        } else if skipping && !is_other_section_header(t.as_str()) {
        } else {
            let ghost prev = views(out@);
            out.push(crate::text::copy_chars(ls[i].as_slice()));
            assert(views(out@) =~= prev.push(ls@[i as int]@));
            skipping = false;
        }
        i += 1;
    }
    assert(lines(original@).take(ls.len() as int) =~= lines(original@));
    let ghost scanned = views(out@);
    while out.len() > 0 && trim_exec(out[out.len() - 1].as_slice()).len() == 0
        invariant
            drop_blank_tail(views(out@)) == drop_blank_tail(scanned),
        decreases out.len(),
    {
        let ghost prev = views(out@);
        out.pop();
        assert(views(out@) =~= prev.drop_last());
    }
    assert(views(out@) == drop_blank_tail(scanned));
    if ov.enabled {
        let ghost kept = views(out@);
        out.push(Vec::new());
        let sec = section_lines_exec(ov);
        let ghost mid = views(out@);
        assert(mid =~= kept.push(Seq::empty()));
        let mut k: usize = 0;
        while k < sec.len()
            invariant
                k <= sec.len(),
                views(out@) == mid + views(sec@).take(k as int),
            decreases sec.len() - k,
        {
            let ghost prev = views(out@);
            out.push(crate::text::copy_chars(sec[k].as_slice()));
            assert(views(out@) =~= prev.push(sec@[k as int]@));
            assert(views(sec@).take(k + 1) =~= views(sec@).take(k as int).push(sec@[k as int]@));
            k += 1;
        }
        assert(views(sec@).take(sec.len() as int) =~= views(sec@));
    }
    let mut body = join_lines_exec(&out);
    let nl = vec!['\n'];
    assert(nl@ =~= seq!['\n']);
    if !ends_with_exec(body.as_slice(), nl.as_slice()) {
        body.push('\n');
    }
    string_of(body.as_slice())
}

/// Actions the command handler accepts.
pub open spec fn allowed_action(a: Seq<char>) -> bool {
    a == "ip"@ || a == "temp"@ || a == "info"@ || a == "restart"@ || a == "shutdown"@ || a
        == "kick_all"@
}

/// The number of an ISSI list entry: a non-negative integer, or a string holding one.
pub open spec fn issi_number(item: Json) -> Result<u64, Seq<char>> {
    match item {
        Json::Number { as_u64: Some(u), text: _ } => Ok(u),
        Json::Str(s) => match parse_uint(trim(s@), 0xFFFF_FFFF_FFFF_FFFF) {
            Some(v) => Ok(v as u64),
            None => Err("invalid ISSI '"@ + s@ + "'"@),
        },
        _ => Err("invalid ISSI entry: "@ + json_text(item)),
    }
}

/// An ISSI list entry checked against the 24-bit ISSI range (1..=16777215).
pub open spec fn check_issi(item: Json) -> Result<u32, Seq<char>> {
    match issi_number(item) {
        Err(e) => Err(e),
        Ok(n) => if n == 0 || n > 0xFF_FFFF {
            Err("ISSI "@ + dec(n as nat) + " out of range (1..=16777215)"@)
        } else {
            Ok(n as u32)
        },
    }
}

/// The ISSI list, or the error of its first bad entry.
pub open spec fn parse_issis(items: Seq<Json>) -> Result<Seq<u32>, Seq<char>>
    decreases items.len(),
{
    if items.len() == 0 {
        Ok(Seq::empty())
    } else {
        match parse_issis(items.drop_last()) {
            Err(e) => Err(e),
            Ok(v) => match check_issi(items.last()) {
                Err(e) => Err(e),
                Ok(n) => Ok(v.push(n)),
            },
        }
    }
}

/// A JSON value's number, when it is a non-negative integer.
pub open spec fn json_u64(j: Option<Json>) -> Option<u64> {
    match j {
        Some(Json::Number { as_u64: Some(u), text: _ }) => Some(u),
        _ => None,
    }
}

/// A JSON value's string.
pub open spec fn json_str(j: Option<Json>) -> Option<Seq<char>> {
    match j {
        Some(Json::Str(s)) => Some(s@),
        _ => None,
    }
}

/// One command entry: a `status_code` that fits 16 bits and an allowed `action`
/// (trimmed and lower-cased).
pub open spec fn check_command(item: Json) -> Result<CommandView, Seq<char>> {
    match json_u64(json_get(item, "status_code"@)) {
        None => Err("command missing status_code"@),
        Some(sc) => if sc > 0xFFFF {
            Err("status_code "@ + dec(sc as nat) + " out of range (0..=65535)"@)
        } else {
            match json_str(json_get(item, "action"@)) {
                None => Err("command missing action"@),
                Some(a) => {
                    let act = lower(trim(a));
                    if allowed_action(act) {
                        Ok((sc as u16, act))
                    } else {
                        Err(
                            "unknown action '"@ + act
                                + "' (allowed: ip, temp, info, restart, shutdown, kick_all)"@,
                        )
                    }
                },
            }
        },
    }
}

/// The command list, or the error of its first bad entry.
pub open spec fn parse_commands(items: Seq<Json>) -> Result<Seq<CommandView>, Seq<char>>
    decreases items.len(),
{
    if items.len() == 0 {
        Ok(Seq::empty())
    } else {
        match parse_commands(items.drop_last()) {
            Err(e) => Err(e),
            Ok(v) => match check_command(items.last()) {
                Err(e) => Err(e),
                Ok(c) => Ok(v.push(c)),
            },
        }
    }
}

/// `d` is the status code of two different commands.
pub open spec fn is_dup(cmds: Seq<CommandView>, d: u16) -> bool {
    exists|i: int, j: int| 0 <= i < j < cmds.len() && #[trigger] cmds[i].0 == d && #[trigger] cmds[j].0 == d
}

/// The smallest status code shared by two commands, if any.
pub open spec fn min_dup(cmds: Seq<CommandView>) -> Option<u16> {
    if exists|d: u16| is_dup(cmds, d) {
        Some(choose|d: u16| is_dup(cmds, d) && forall|e: u16| e < d ==> !is_dup(cmds, e))
    } else {
        None
    }
}

/// What a POST body says: `(enabled, ISSIs as listed, commands)`, or the error. `enabled`
/// defaults to true; a missing list is empty; duplicate status codes are ambiguous and
/// refused.
pub open spec fn spec_sds_body(parsed: Result<Json, Seq<char>>) -> Result<(bool, Seq<u32>, Seq<CommandView>), Seq<char>> {
    match parsed {
        Err(e) => Err("invalid JSON: "@ + e),
        Ok(v) => {
            let enabled = match json_get(v, "enabled"@) {
                Some(Json::Bool(b)) => b,
                _ => true,
            };
            let issis = match json_get(v, "authorized_issis"@) {
                Some(Json::Array(a)) => parse_issis(a@),
                _ => Ok(Seq::empty()),
            };
            match issis {
                Err(e) => Err(e),
                Ok(is) => {
                    let cmds = match json_get(v, "commands"@) {
                        Some(Json::Array(a)) => parse_commands(a@),
                        _ => Ok(Seq::empty()),
                    };
                    match cmds {
                        Err(e) => Err(e),
                        Ok(cs) => match min_dup(cs) {
                            Some(d) => Err("duplicate status_code "@ + dec(d as nat)),
                            None => Ok((enabled, is, cs)),
                        },
                    }
                },
            }
        },
    }
}

/// Strictly increasing.
pub open spec fn strictly_increasing(v: Seq<u32>) -> bool {
    forall|i: int, j: int| 0 <= i < j < v.len() ==> v[i] < v[j]
}

/// `check_issi` of one entry.
fn check_issi_exec(item: &Json) -> (r: Result<u32, String>)
    ensures
        match check_issi(*item) {
            Ok(n) => r == Ok::<u32, String>(n),
            Err(e) => r matches Err(m) && m@ == e,
        },
{
    let n: u64 = match item {
        Json::Number { as_u64: Some(u), text: _ } => *u,
        Json::Str(s) => {
            let t = trim_exec(chars_of(s.as_str()).as_slice());
            match parse_uint_exec(t.as_slice(), 0xFFFF_FFFF_FFFF_FFFF) {
                Some(v) => v,
                None => {
                    let mut m = chars_of("invalid ISSI '");
                    append_chars(&mut m, chars_of(s.as_str()).as_slice());
                    push_lit(&mut m, "'");
                    return Err(string_of(m.as_slice()));
                },
            }
        },
        _ => {
            let mut m = chars_of("invalid ISSI entry: ");
            push_json_text(&mut m, item);
            return Err(string_of(m.as_slice()));
        },
    };
    if n == 0 || n > 0xFF_FFFF {
        let mut m = chars_of("ISSI ");
        append_chars(&mut m, dec_chars(n).as_slice());
        push_lit(&mut m, " out of range (1..=16777215)");
        return Err(string_of(m.as_slice()));
    }
    Ok(n as u32)
}

/// `check_command` of one entry.
fn check_command_exec(item: &Json) -> (r: Result<CfgSdsCommandEntry, String>)
    ensures
        match check_command(*item) {
            Ok(c) => r matches Ok(e) && (e.status_code, e.action@) == c,
            Err(e) => r matches Err(m) && m@ == e,
        },
{
    let sc: u64 = match get(item, "status_code") {
        Some(Json::Number { as_u64: Some(u), text: _ }) => *u,
        _ => return Err(string_of(chars_of("command missing status_code").as_slice())),
    };
    if sc > 0xFFFF {
        let mut m = chars_of("status_code ");
        append_chars(&mut m, dec_chars(sc).as_slice());
        push_lit(&mut m, " out of range (0..=65535)");
        return Err(string_of(m.as_slice()));
    }
    let a = match get(item, "action") {
        Some(Json::Str(a)) => a,
        _ => return Err(string_of(chars_of("command missing action").as_slice())),
    };
    let act = to_lower(trim_exec(chars_of(a.as_str()).as_slice()).as_slice());
    let ok = chars_eq(act.as_slice(), chars_of("ip").as_slice()) || chars_eq(act.as_slice(), chars_of("temp").as_slice())
        || chars_eq(act.as_slice(), chars_of("info").as_slice()) || chars_eq(act.as_slice(), chars_of("restart").as_slice())
        || chars_eq(act.as_slice(), chars_of("shutdown").as_slice()) || chars_eq(act.as_slice(), chars_of("kick_all").as_slice());
    if !ok {
        let mut m = chars_of("unknown action '");
        append_chars(&mut m, act.as_slice());
        push_lit(&mut m, "' (allowed: ip, temp, info, restart, shutdown, kick_all)");
        return Err(string_of(m.as_slice()));
    }
    Ok(CfgSdsCommandEntry { status_code: sc as u16, action: string_of(act.as_slice()) })
}

/// Insert `x` into a strictly increasing list unless it is there already.
fn insert_sorted_unique(v: &mut Vec<u32>, x: u32)
    requires
        strictly_increasing(old(v)@),
    ensures
        strictly_increasing(final(v)@),
        final(v)@.to_set() == old(v)@.to_set().insert(x),
{
    let mut j: usize = 0;
    while j < v.len() && v[j] < x
        invariant
            j <= v.len(),
            v@ == old(v)@,
            forall|k: int| 0 <= k < j ==> v@[k] < x,
        decreases v.len() - j,
    {
        j += 1;
    }
    if j < v.len() && v[j] == x {
        assert(v@[j as int] == x);
        assert(v@.to_set() =~= old(v)@.to_set().insert(x));
        return;
    }
    let ghost old_v = v@;
    v.insert(j, x);
    assert(v@ =~= old_v.take(j as int).push(x) + old_v.skip(j as int));
    assert forall|a: int, b: int| 0 <= a < b < v@.len() implies v@[a] < v@[b] by {
        if b < j {
        } else if a < j && b == j {
        } else if a < j {
            assert(old_v[a] < old_v[b - 1]);
        } else if a == j {
            assert(x < old_v[j as int]);
            if b - 1 > j {
                assert(old_v[j as int] < old_v[b - 1]);
            }
        } else {
            assert(old_v[a - 1] < old_v[b - 1]);
        }
    }
    assert forall|y: u32| #[trigger] v@.contains(y) <==> (old_v.contains(y) || y == x) by {
        if v@.contains(y) {
            let k = choose|k: int| 0 <= k < v@.len() && v@[k] == y;
            if k < j {
                assert(old_v[k] == y);
            } else if k > j {
                assert(old_v[k - 1] == y);
            }
        }
        if old_v.contains(y) {
            let k = choose|k: int| 0 <= k < old_v.len() && old_v[k] == y;
            if k < j {
                assert(v@[k] == y);
            } else {
                assert(v@[k + 1] == y);
            }
        }
        if y == x {
            assert(v@[j as int] == x);
        }
    }
    assert(v@.to_set() =~= old_v.to_set().insert(x));
}

/// The ISSIs of a list, sorted without repeats, or the error of its first bad entry.
fn collect_issis(items: &Vec<Json>) -> (r: Result<Vec<u32>, String>)
    ensures
        match parse_issis(items@) {
            Err(e) => r matches Err(m) && m@ == e,
            Ok(listed) => r matches Ok(v) && strictly_increasing(v@) && v@.to_set() == listed.to_set(),
        },
{
    let mut issis: Vec<u32> = Vec::new();
    let ghost mut listed: Seq<u32> = Seq::empty();
    let mut i: usize = 0;
    assert(items@.take(0) =~= Seq::<Json>::empty());
    while i < items.len()
        invariant
            i <= items.len(),
            parse_issis(items@.take(i as int)) == Ok::<Seq<u32>, Seq<char>>(listed),
            strictly_increasing(issis@),
            issis@.to_set() == listed.to_set(),
        decreases items.len() - i,
    {
        assert(items@.take(i + 1).drop_last() =~= items@.take(i as int));
        assert(items@.take(i + 1).last() == items@[i as int]);
        let n = match check_issi_exec(&items[i]) {
            Ok(n) => n,
            Err(m) => {
                proof {
                    lemma_parse_issis_err(items@, i as int);
                }
                return Err(m);
            },
        };
        insert_sorted_unique(&mut issis, n);
        proof {
            assert(listed.push(n).to_set() =~= listed.to_set().insert(n)) by {
                assert forall|x: u32| #[trigger] listed.push(n).contains(x) <==> (listed.contains(x) || x == n) by {
                    if listed.push(n).contains(x) {
                        let k = choose|k: int| 0 <= k < listed.push(n).len() && listed.push(n)[k] == x;
                        if k < listed.len() {
                            assert(listed[k] == x);
                        }
                    }
                    if listed.contains(x) {
                        let k = choose|k: int| 0 <= k < listed.len() && listed[k] == x;
                        assert(listed.push(n)[k] == x);
                    }
                    if x == n {
                        assert(listed.push(n)[listed.len() as int] == x);
                    }
                }
            }
            listed = listed.push(n);
        }
        i += 1;
    }
    assert(items@.take(items.len() as int) =~= items@);
    Ok(issis)
}

/// The commands of a list, in order, or the error of its first bad entry.
fn collect_commands(items: &Vec<Json>) -> (r: Result<Vec<CfgSdsCommandEntry>, String>)
    ensures
        match parse_commands(items@) {
            Err(e) => r matches Err(m) && m@ == e,
            Ok(cs) => r matches Ok(v) && command_views(v@) == cs,
        },
{
    let mut commands: Vec<CfgSdsCommandEntry> = Vec::new();
    let mut i: usize = 0;
    assert(items@.take(0) =~= Seq::<Json>::empty());
    assert(command_views(commands@) =~= Seq::<CommandView>::empty());
    while i < items.len()
        invariant
            i <= items.len(),
            parse_commands(items@.take(i as int)) == Ok::<Seq<CommandView>, Seq<char>>(command_views(commands@)),
        decreases items.len() - i,
    {
        assert(items@.take(i + 1).drop_last() =~= items@.take(i as int));
        assert(items@.take(i + 1).last() == items@[i as int]);
        let c = match check_command_exec(&items[i]) {
            Ok(c) => c,
            Err(m) => {
                proof {
                    lemma_parse_commands_err(items@, i as int);
                }
                return Err(m);
            },
        };
        let ghost prev = commands@;
        let ghost cv = (c.status_code, c.action@);
        commands.push(c);
        assert(command_views(commands@) =~= command_views(prev).push(cv));
        i += 1;
    }
    assert(items@.take(items.len() as int) =~= items@);
    Ok(commands)
}

/// The smallest status code shared by two commands, if any.
fn min_dup_exec(commands: &Vec<CfgSdsCommandEntry>) -> (r: Option<u16>)
    ensures
        r == min_dup(command_views(commands@)),
{
    let ghost cs = command_views(commands@);
    let mut dup: Option<u16> = None;
    let mut i: usize = 0;
    while i < commands.len()
        invariant
            i <= commands.len(),
            cs == command_views(commands@),
            dup matches Some(d) ==> is_dup(cs, d),
            forall|a: int, b: int| 0 <= a < i && a < b < cs.len() && #[trigger] cs[a].0 == #[trigger] cs[b].0
                ==> (dup matches Some(d) && d <= cs[a].0),
        decreases commands.len() - i,
    {
        let mut k: usize = i + 1;
        while k < commands.len()
            invariant
                i < k <= commands.len(),
                cs == command_views(commands@),
                dup matches Some(d) ==> is_dup(cs, d),
                forall|a: int, b: int| 0 <= a < i && a < b < cs.len() && #[trigger] cs[a].0 == #[trigger] cs[b].0
                    ==> (dup matches Some(d) && d <= cs[a].0),
                forall|b: int| i < b < k && #[trigger] cs[b].0 == cs[i as int].0
                    ==> (dup matches Some(d) && d <= cs[i as int].0),
            decreases commands.len() - k,
        {
            let a = commands[i].status_code;
            assert(cs[i as int].0 == a);
            assert(cs[k as int].0 == commands@[k as int].status_code);
            if a == commands[k].status_code {
                let better = match dup {
                    Some(d) => a < d,
                    None => true,
                };
                if better {
                    assert(is_dup(cs, a));
                    dup = Some(a);
                }
            }
            k += 1;
        }
        i += 1;
    }
    proof {
        match dup {
            Some(d) => {
                assert forall|e: u16| e < d implies !is_dup(cs, e) by {
                    if is_dup(cs, e) {
                        let (a, b) = choose|a: int, b: int| 0 <= a < b < cs.len() && #[trigger] cs[a].0 == e && #[trigger] cs[b].0 == e;
                        assert(cs[a].0 == cs[b].0);
                    }
                }
                let c = choose|x: u16| is_dup(cs, x) && forall|e: u16| e < x ==> !is_dup(cs, e);
                assert(is_dup(cs, c) && forall|e: u16| e < c ==> !is_dup(cs, e));
                assert(c == d);
            },
            None => {
                assert forall|e: u16| !is_dup(cs, e) by {
                    if is_dup(cs, e) {
                        let (a, b) = choose|a: int, b: int| 0 <= a < b < cs.len() && #[trigger] cs[a].0 == e && #[trigger] cs[b].0 == e;
                        assert(cs[a].0 == cs[b].0);
                    }
                }
            },
        }
    }
    dup
}

/// Parse a POST body into a runtime override. `parsed` is the body (trimmed) read as
/// JSON, or the parser's message when it is not JSON. Expected:
/// `{"enabled": true, "authorized_issis": [2144485], "commands": [{"status_code": 61000, "action": "ip"}]}`.
/// ISSIs may be numbers or numeric strings; the list comes back sorted without repeats.
pub fn parse_body(parsed: Result<Json, String>) -> (r: Result<SdsCommandRuntimeOverride, String>)
    ensures
        match spec_sds_body(match parsed {
            Ok(j) => Ok(j),
            Err(e) => Err(e@),
        }) {
            Err(e) => r matches Err(m) && m@ == e,
            Ok((en, is, cs)) => r matches Ok(ov) && ov.enabled == en && command_views(ov.commands@) == cs
                && strictly_increasing(ov.authorized_issis@) && ov.authorized_issis@.to_set() == is.to_set(),
        },
{
    let v = match parsed {
        Ok(v) => v,
        Err(e) => {
            let mut m = chars_of("invalid JSON: ");
            append_chars(&mut m, chars_of(e.as_str()).as_slice());
            return Err(string_of(m.as_slice()));
        },
    };
    let enabled = match get(&v, "enabled") {
        Some(Json::Bool(b)) => *b,
        _ => true,
    };
    let issis = match get(&v, "authorized_issis") {
        Some(Json::Array(items)) => match collect_issis(items) {
            Ok(is) => is,
            Err(m) => return Err(m),
        },
        _ => Vec::new(),
    };
    let commands = match get(&v, "commands") {
        Some(Json::Array(items)) => match collect_commands(items) {
            Ok(cs) => cs,
            Err(m) => return Err(m),
        },
        _ => Vec::new(),
    };
    if let Some(d) = min_dup_exec(&commands) {
        let mut m = chars_of("duplicate status_code ");
        append_chars(&mut m, dec_chars(d as u64).as_slice());
        return Err(string_of(m.as_slice()));
    }
    Ok(SdsCommandRuntimeOverride { enabled, authorized_issis: issis, commands })
}

/// The first bad ISSI entry is the one reported.
proof fn lemma_parse_issis_err(items: Seq<Json>, i: int)
    requires
        0 <= i < items.len(),
        parse_issis(items.take(i)) is Ok,
        check_issi(items[i]) is Err,
    ensures
        parse_issis(items) == Err::<Seq<u32>, Seq<char>>(check_issi(items[i])->Err_0),
    decreases items.len(),
{
    if i == items.len() - 1 {
        assert(items.drop_last() =~= items.take(i));
    } else {
        assert(items.drop_last().take(i) =~= items.take(i));
        lemma_parse_issis_err(items.drop_last(), i);
    }
}

/// The first bad command entry is the one reported.
proof fn lemma_parse_commands_err(items: Seq<Json>, i: int)
    requires
        0 <= i < items.len(),
        parse_commands(items.take(i)) is Ok,
        check_command(items[i]) is Err,
    ensures
        parse_commands(items) == Err::<Seq<CommandView>, Seq<char>>(check_command(items[i])->Err_0),
    decreases items.len(),
{
    if i == items.len() - 1 {
        assert(items.drop_last() =~= items.take(i));
    } else {
        assert(items.drop_last().take(i) =~= items.take(i));
        lemma_parse_commands_err(items.drop_last(), i);
    }
}


/// Law: a command entry whose `status_code` fits 16 bits and whose action, trimmed and
/// lower-cased, is one of `ip`, `temp`, `info`, `restart`, `shutdown`, `kick_all` is
/// accepted as that status code and that action; any other action is refused.
pub proof fn lemma_command_entry_accepted(item: Json, sc: u64, a: Seq<char>)
    requires
        json_u64(json_get(item, "status_code"@)) == Some(sc),
        sc <= 0xFFFF,
        json_str(json_get(item, "action"@)) == Some(a),
    ensures
        ({
            let act = lower(trim(a));
            &&& (act == "ip"@ || act == "temp"@ || act == "info"@ || act == "restart"@ || act == "shutdown"@
                || act == "kick_all"@) ==> check_command(item) == Ok::<CommandView, Seq<char>>((sc as u16, act))
            &&& !(act == "ip"@ || act == "temp"@ || act == "info"@ || act == "restart"@ || act == "shutdown"@
                || act == "kick_all"@) ==> check_command(item) is Err
        }),
{
}

/// `item` is the number `n` as JSON writes it: its value and its decimal text.
pub open spec fn number_value(item: Json, n: nat) -> bool {
    item matches Json::Number { as_u64: Some(u), text } && u == n && text@ == dec(n)
}

/// `item` is command `c` as [`override_to_json`] writes it: `{"status_code":…,"action":"…"}`.
pub open spec fn command_value(item: Json, c: CommandView) -> bool {
    &&& item matches Json::Object(f)
    &&& f@.len() == 2
    &&& f@[0].0@ == "status_code"@ && number_value(f@[0].1, c.0 as nat)
    &&& f@[1].0@ == "action"@ && (f@[1].1 matches Json::Str(a) && a@ == c.1)
}

/// `v` is the JSON value whose text [`override_to_json`] writes for the override
/// `(enabled, issis, cmds)`: its four members in order, numbers in decimal.
pub open spec fn override_value(v: Json, enabled: bool, issis: Seq<u32>, cmds: Seq<CommandView>) -> bool {
    &&& v matches Json::Object(f)
    &&& f@.len() == 4
    &&& f@[0].0@ == "enabled"@ && f@[0].1 == Json::Bool(enabled)
    &&& f@[1].0@ == "authorized_issis"@ && (f@[1].1 matches Json::Array(a) && a@.len() == issis.len()
        && forall|i: int| 0 <= i < issis.len() ==> number_value(#[trigger] a@[i], issis[i] as nat))
    &&& f@[2].0@ == "commands"@ && (f@[2].1 matches Json::Array(c) && c@.len() == cmds.len()
        && forall|i: int| 0 <= i < cmds.len() ==> command_value(#[trigger] c@[i], cmds[i]))
    &&& f@[3].0@ == "control_issi"@ && number_value(f@[3].1, 9999)
}

/// An allowed action is its own trimmed, lower-cased form.
proof fn lemma_allowed_canonical(a: Seq<char>)
    requires
        allowed_action(a),
    ensures
        lower(trim(a)) == a,
{
    reveal_strlit("ip");
    reveal_strlit("temp");
    reveal_strlit("info");
    reveal_strlit("restart");
    reveal_strlit("shutdown");
    reveal_strlit("kick_all");
    assert(trim_start(a) == a) by { reveal_with_fuel(crate::text::trim_start, 2); }
    assert(crate::text::trim_end(a) == a) by { reveal_with_fuel(crate::text::trim_end, 2); }
    assert(lower(a) =~= a);
}

/// The ISSIs written as numbers read back as themselves.
proof fn lemma_parse_issis_back(a: Seq<Json>, issis: Seq<u32>)
    requires
        a.len() == issis.len(),
        forall|i: int| 0 <= i < issis.len() ==> number_value(#[trigger] a[i], issis[i] as nat),
        forall|i: int| 0 <= i < issis.len() ==> 1 <= #[trigger] issis[i] <= 0xFF_FFFF,
    ensures
        parse_issis(a) == Ok::<Seq<u32>, Seq<char>>(issis),
    decreases a.len(),
{
    if a.len() > 0 {
        let n = a.len() - 1;
        assert(number_value(a[n], issis[n] as nat));
        assert(1 <= issis[n] <= 0xFF_FFFF);
        assert(check_issi(a.last()) == Ok::<u32, Seq<char>>(issis[n]));
        lemma_parse_issis_back(a.drop_last(), issis.drop_last());
        assert(issis.drop_last().push(issis[n]) =~= issis);
    } else {
        assert(issis =~= Seq::<u32>::empty());
    }
}

/// The commands written as objects read back as themselves.
proof fn lemma_parse_commands_back(c: Seq<Json>, cmds: Seq<CommandView>)
    requires
        c.len() == cmds.len(),
        forall|i: int| 0 <= i < cmds.len() ==> command_value(#[trigger] c[i], cmds[i]),
        forall|i: int| 0 <= i < cmds.len() ==> allowed_action(#[trigger] cmds[i].1),
    ensures
        parse_commands(c) == Ok::<Seq<CommandView>, Seq<char>>(cmds),
    decreases c.len(),
{
    if c.len() > 0 {
        let n = c.len() - 1;
        let item = c[n];
        let cv = cmds[n];
        assert(command_value(item, cv));
        assert(allowed_action(cmds[n].1));
        lemma_allowed_canonical(cv.1);
        reveal_strlit("status_code");
        reveal_strlit("action");
        if let Json::Object(f) = item {
            assert(f@.drop_first()[0] == f@[1]);
            assert(json_get(item, "status_code"@) == Some(f@[0].1));
            assert("status_code"@.len() != "action"@.len());
            assert(member(f@.drop_first(), "action"@) == Some(f@[1].1));
            assert(json_get(item, "action"@) == Some(f@[1].1));
        }
        assert(check_command(item) == Ok::<CommandView, Seq<char>>(cv));
        lemma_parse_commands_back(c.drop_last(), cmds.drop_last());
        assert(cmds.drop_last().push(cv) =~= cmds);
    } else {
        assert(cmds =~= Seq::<CommandView>::empty());
    }
}

/// Two strictly increasing lists with the same members are the same list.
proof fn lemma_increasing_same_members(w: Seq<u32>, v: Seq<u32>)
    requires
        strictly_increasing(w),
        strictly_increasing(v),
        w.to_set() == v.to_set(),
    ensures
        w == v,
    decreases w.len() + v.len(),
{
    if w.len() == 0 || v.len() == 0 {
        if w.len() > 0 {
            assert(w.to_set().contains(w[0]));
            assert(!v.to_set().contains(w[0]));
        }
        if v.len() > 0 {
            assert(v.to_set().contains(v[0]));
            assert(!w.to_set().contains(v[0]));
        }
        assert(w =~= v);
    } else {
        assert(w.to_set().contains(w[0]));
        assert(v.to_set().contains(w[0]));
        let j = choose|j: int| 0 <= j < v.len() && v[j] == w[0];
        assert(v.to_set().contains(v[0]));
        assert(w.to_set().contains(v[0]));
        let i = choose|i: int| 0 <= i < w.len() && w[i] == v[0];
        assert(w[0] == v[0]) by {
            if j > 0 {
                assert(v[0] < v[j]);
            }
            if i > 0 {
                assert(w[0] < w[i]);
            }
        }
        let w1 = w.drop_first();
        let v1 = v.drop_first();
        assert forall|x: u32| w1.to_set().contains(x) == v1.to_set().contains(x) by {
            if w1.to_set().contains(x) {
                let k = choose|k: int| 0 <= k < w1.len() && w1[k] == x;
                assert(w[k + 1] == x && w[0] < w[k + 1]);
                assert(w.to_set().contains(x));
                assert(v.to_set().contains(x));
                let m = choose|m: int| 0 <= m < v.len() && v[m] == x;
                assert(m != 0);
                assert(v1[m - 1] == x);
            }
            if v1.to_set().contains(x) {
                let k = choose|k: int| 0 <= k < v1.len() && v1[k] == x;
                assert(v[k + 1] == x && v[0] < v[k + 1]);
                assert(v.to_set().contains(x));
                assert(w.to_set().contains(x));
                let m = choose|m: int| 0 <= m < w.len() && w[m] == x;
                assert(m != 0);
                assert(w1[m - 1] == x);
            }
        }
        assert(w1.to_set() =~= v1.to_set());
        lemma_increasing_same_members(w1, v1);
        assert(w =~= v) by {
            assert forall|k: int| 0 <= k < w.len() implies w[k] == v[k] by {
                if k > 0 {
                    assert(w[k] == w1[k - 1]);
                    assert(v[k] == v1[k - 1]);
                }
            }
        }
    }
}

/// A character JSON and the quote escaping both write as itself.
pub open spec fn plain_char(c: char) -> bool {
    c != '"' && c != '\\' && (c as u32) >= 0x20
}

/// Text of plain characters is written unescaped.
proof fn lemma_plain_text(s: Seq<char>)
    requires
        forall|i: int| 0 <= i < s.len() ==> plain_char(#[trigger] s[i]),
    ensures
        json_chars(s) == s,
        quote_escape(s) == s,
    decreases s.len(),
{
    if s.len() > 0 {
        lemma_plain_text(s.drop_last());
        assert(plain_char(s[s.len() - 1]));
        assert(s.drop_last().push(s.last()) =~= s);
    }
}

/// The member names and the allowed actions are plain text.
proof fn lemma_names_plain(a: Seq<char>)
    requires
        allowed_action(a) || a == "enabled"@ || a == "authorized_issis"@ || a == "commands"@
            || a == "control_issi"@ || a == "status_code"@ || a == "action"@,
    ensures
        json_chars(a) == a,
        quote_escape(a) == a,
{
    reveal_strlit("ip");
    reveal_strlit("temp");
    reveal_strlit("info");
    reveal_strlit("restart");
    reveal_strlit("shutdown");
    reveal_strlit("kick_all");
    reveal_strlit("enabled");
    reveal_strlit("authorized_issis");
    reveal_strlit("commands");
    reveal_strlit("control_issi");
    reveal_strlit("status_code");
    reveal_strlit("action");
    assert forall|i: int| 0 <= i < a.len() implies plain_char(#[trigger] a[i]) by {
        assert(a[i] != '"' && a[i] != '\\' && (a[i] as u32) >= 0x20);
    }
    lemma_plain_text(a);
}

/// The ISSI numbers print as the decimal list.
proof fn lemma_issis_text(a: Seq<Json>, issis: Seq<u32>)
    requires
        a.len() == issis.len(),
        forall|i: int| 0 <= i < issis.len() ==> number_value(#[trigger] a[i], issis[i] as nat),
    ensures
        items_text(a) == numbers_joined(issis, seq![',']),
    decreases a.len(),
{
    let ds = issis.map_values(|n: u32| dec(n as nat));
    if a.len() == 1 {
        assert(number_value(a[0], issis[0] as nat));
        assert(json_text(a[0]) == ds[0]);
    } else if a.len() > 1 {
        let n = a.len() - 1;
        assert(number_value(a[n], issis[n] as nat));
        assert(json_text(a.last()) == ds.last());
        lemma_issis_text(a.drop_last(), issis.drop_last());
        assert(issis.drop_last().map_values(|n: u32| dec(n as nat)) =~= ds.drop_last());
    }
}

/// One command object prints as [`command_json`] writes it.
proof fn lemma_command_text(item: Json, c: CommandView)
    requires
        command_value(item, c),
        allowed_action(c.1),
    ensures
        json_text(item) == command_json(c),
{
    lemma_names_plain("status_code"@);
    lemma_names_plain("action"@);
    lemma_names_plain(c.1);
    reveal_strlit("status_code");
    reveal_strlit("action");
    reveal_strlit("{\"status_code\":");
    reveal_strlit(",\"action\":\"");
    reveal_strlit("\"}");
    if let Json::Object(f) = item {
        let fs = f@;
        assert(fs.drop_last().len() == 1 && fs.drop_last()[0] == fs[0]);
        let first = json_string(fs[0].0@) + seq![':'] + json_text(fs[0].1);
        assert(fields_text(fs.drop_last()) == first);
        assert(json_text(fs[0].1) == dec(c.0 as nat));
        assert(json_text(fs[1].1) == json_string(c.1));
        assert(fields_text(fs) == first + seq![','] + json_string(fs[1].0@)
            + seq![':'] + json_text(fs[1].1));
        assert(json_text(item) == seq!['{'] + fields_text(fs) + seq!['}']);
        assert(json_text(item) =~= command_json(c));
    }
}

/// The command objects print as the comma-separated [`command_json`] list.
proof fn lemma_commands_text(c: Seq<Json>, cmds: Seq<CommandView>)
    requires
        c.len() == cmds.len(),
        forall|i: int| 0 <= i < cmds.len() ==> command_value(#[trigger] c[i], cmds[i]),
        forall|i: int| 0 <= i < cmds.len() ==> allowed_action(#[trigger] cmds[i].1),
    ensures
        items_text(c) == join_with(cmds.map_values(|x: CommandView| command_json(x)), seq![',']),
    decreases c.len(),
{
    let js = cmds.map_values(|x: CommandView| command_json(x));
    if c.len() > 0 {
        let n = c.len() - 1;
        assert(command_value(c[n], cmds[n]));
        assert(allowed_action(cmds[n].1));
        lemma_command_text(c[n], cmds[n]);
        if c.len() > 1 {
            lemma_commands_text(c.drop_last(), cmds.drop_last());
            assert(cmds.drop_last().map_values(|x: CommandView| command_json(x)) =~= js.drop_last());
        }
    }
}

/// Member `i` of an object as it prints after the first: `,"key":value`.
pub open spec fn member_text(s: Seq<(String, Json)>, i: int) -> Seq<char> {
    seq![','] + json_string(s[i].0@) + seq![':'] + json_text(s[i].1)
}

/// An object of four members prints as its members in order.
proof fn lemma_four_fields(s: Seq<(String, Json)>)
    requires
        s.len() == 4,
    ensures
        fields_text(s) == json_string(s[0].0@) + seq![':'] + json_text(s[0].1) + member_text(s, 1)
            + member_text(s, 2) + member_text(s, 3),
{
    let t1 = fields_text(s.take(1));
    assert(s.take(1).len() == 1 && s.take(1)[0] == s[0]);
    assert(t1 == json_string(s[0].0@) + seq![':'] + json_text(s[0].1));
    assert(s.take(2).drop_last() =~= s.take(1));
    assert(fields_text(s.take(2)) =~= t1 + member_text(s, 1));
    assert(s.take(3).drop_last() =~= s.take(2));
    assert(fields_text(s.take(3)) =~= fields_text(s.take(2)) + member_text(s, 2));
    assert(s.take(4).drop_last() =~= s.take(3));
    assert(fields_text(s.take(4)) =~= fields_text(s.take(3)) + member_text(s, 3));
    assert(s.take(4) =~= s);
}

/// The fixed pieces of [`spec_override_json`], spelled out around the member names.
proof fn lemma_override_literals()
    ensures
        "{\"enabled\":"@ =~= seq!['{', '"'] + "enabled"@ + seq!['"', ':'],
        ",\"authorized_issis\":["@ =~= seq![',', '"'] + "authorized_issis"@ + seq!['"', ':', '['],
        "],\"commands\":["@ =~= seq![']', ',', '"'] + "commands"@ + seq!['"', ':', '['],
        "],\"control_issi\":9999}"@ =~= seq![']', ',', '"'] + "control_issi"@ + seq!['"', ':', '9', '9', '9', '9', '}'],
{
    reveal_strlit("{\"enabled\":");
    reveal_strlit("enabled");
    reveal_strlit(",\"authorized_issis\":[");
    reveal_strlit("authorized_issis");
    reveal_strlit("],\"commands\":[");
    reveal_strlit("commands");
    reveal_strlit("],\"control_issi\":9999}");
    reveal_strlit("control_issi");
}

/// Pieces that line up give the same text.
proof fn lemma_assemble(
    p0: Seq<char>,
    p1: Seq<char>,
    p2: Seq<char>,
    p3: Seq<char>,
    l0: Seq<char>,
    l1: Seq<char>,
    l2: Seq<char>,
    l3: Seq<char>,
    bt: Seq<char>,
    nj: Seq<char>,
    cj: Seq<char>,
)
    requires
        seq!['{'] + p0 == l0 + bt,
        p1 == l1 + nj + seq![']'],
        seq![']'] + p2 == l2 + cj + seq![']'],
        seq![']'] + p3 + seq!['}'] == l3,
    ensures
        seq!['{'] + (p0 + p1 + p2 + p3) + seq!['}'] == l0 + bt + l1 + nj + l2 + cj + l3,
{
    let x = l0 + bt;
    let y = l1 + nj;
    let z = l2 + cj;
    let c = seq![']'];
    assert(seq!['{'] + (p0 + p1 + p2 + p3) + seq!['}'] =~= (seq!['{'] + p0) + (p1 + (p2 + (p3 + seq!['}']))));
    assert(p1 + (p2 + (p3 + seq!['}'])) =~= y + ((c + p2) + (p3 + seq!['}'])));
    assert((c + p2) + (p3 + seq!['}']) =~= z + ((c + p3) + seq!['}']));
    assert(l0 + bt + l1 + nj + l2 + cj + l3 =~= x + (y + (z + l3)));
}

/// The members of an override value print as [`spec_override_json`] writes them.
#[verifier::spinoff_prover]
proof fn lemma_override_text(s: Seq<(String, Json)>, enabled: bool, issis: Seq<u32>, cmds: Seq<CommandView>)
    requires
        s.len() == 4,
        s[0].0@ == "enabled"@ && s[0].1 == Json::Bool(enabled),
        s[1].0@ == "authorized_issis"@ && (s[1].1 matches Json::Array(a) && a@.len() == issis.len()
            && forall|i: int| 0 <= i < issis.len() ==> number_value(#[trigger] a@[i], issis[i] as nat)),
        s[2].0@ == "commands"@ && (s[2].1 matches Json::Array(c) && c@.len() == cmds.len()
            && forall|i: int| 0 <= i < cmds.len() ==> command_value(#[trigger] c@[i], cmds[i])),
        s[3].0@ == "control_issi"@ && number_value(s[3].1, 9999),
        forall|i: int| 0 <= i < cmds.len() ==> allowed_action(#[trigger] cmds[i].1),
    ensures
        seq!['{'] + fields_text(s) + seq!['}'] == spec_override_json(enabled, issis, cmds),
{
    let q = seq!['"'];
    let bt = bool_text(enabled);
    let nj = numbers_joined(issis, seq![',']);
    let cj = join_with(cmds.map_values(|x: CommandView| command_json(x)), seq![',']);
    let l0 = "{\"enabled\":"@;
    let l1 = ",\"authorized_issis\":["@;
    let l2 = "],\"commands\":["@;
    let l3 = "],\"control_issi\":9999}"@;
    let p0 = json_string(s[0].0@) + seq![':'] + json_text(s[0].1);
    let p1 = member_text(s, 1);
    let p2 = member_text(s, 2);
    let p3 = member_text(s, 3);
    lemma_four_fields(s);
    lemma_override_literals();
    assert(seq!['{'] + p0 =~= l0 + bt) by {
        lemma_names_plain("enabled"@);
        assert(json_text(s[0].1) == bt) by {
            reveal_strlit("true");
            reveal_strlit("false");
        }
    }
    assert(p1 =~= l1 + nj + seq![']']) by {
        lemma_names_plain("authorized_issis"@);
        if let Json::Array(a) = s[1].1 {
            lemma_issis_text(a@, issis);
        }
    }
    assert(seq![']'] + p2 =~= l2 + cj + seq![']']) by {
        lemma_names_plain("commands"@);
        if let Json::Array(c) = s[2].1 {
            lemma_commands_text(c@, cmds);
        }
    }
    assert(seq![']'] + p3 + seq!['}'] =~= l3) by {
        lemma_names_plain("control_issi"@);
        assert(dec(9999) == seq!['9', '9', '9', '9']) by { reveal_with_fuel(dec, 5); }
    }
    lemma_assemble(p0, p1, p2, p3, l0, l1, l2, l3, bt, nj, cj);
}

/// Reading back what [`override_to_json`] writes gives the override again: the value that
/// text denotes is read by [`parse_body`] as the same switch, the same ISSI list and the
/// same commands, for an override that parsing could have produced (ISSIs strictly
/// increasing in 1..=16777215, status codes distinct, actions allowed).
pub proof fn lemma_override_json_read_back(v: Json, enabled: bool, issis: Seq<u32>, cmds: Seq<CommandView>)
    requires
        override_value(v, enabled, issis, cmds),
        strictly_increasing(issis),
        forall|i: int| 0 <= i < issis.len() ==> 1 <= #[trigger] issis[i] <= 0xFF_FFFF,
        forall|i: int, j: int| 0 <= i < j < cmds.len() ==> #[trigger] cmds[i].0 != #[trigger] cmds[j].0,
        forall|i: int| 0 <= i < cmds.len() ==> allowed_action(#[trigger] cmds[i].1),
    ensures
        json_text(v) == spec_override_json(enabled, issis, cmds),
        spec_sds_body(Ok(v)) == Ok::<(bool, Seq<u32>, Seq<CommandView>), Seq<char>>((enabled, issis, cmds)),
        forall|w: Seq<u32>| strictly_increasing(w) && w.to_set() == issis.to_set() ==> w == issis,
{
    reveal_strlit("enabled");
    reveal_strlit("authorized_issis");
    reveal_strlit("commands");
    if let Json::Object(f) = v {
        let s = f@;
        lemma_override_text(s, enabled, issis, cmds);
        assert(json_text(v) == seq!['{'] + fields_text(s) + seq!['}']);
        assert(s.drop_first()[0] == s[1]);
        assert(s.drop_first().drop_first()[0] == s[2]);
        assert("enabled"@.len() != "authorized_issis"@.len());
        assert("enabled"@.len() != "commands"@.len());
        assert("authorized_issis"@.len() != "commands"@.len());
        assert(json_get(v, "enabled"@) == Some(s[0].1));
        assert(member(s.drop_first(), "authorized_issis"@) == Some(s[1].1));
        assert(json_get(v, "authorized_issis"@) == Some(s[1].1));
        assert(member(s.drop_first().drop_first(), "commands"@) == Some(s[2].1));
        assert(member(s.drop_first(), "commands"@) == Some(s[2].1));
        assert(json_get(v, "commands"@) == Some(s[2].1));
        if let Json::Array(a) = s[1].1 {
            lemma_parse_issis_back(a@, issis);
        }
        if let Json::Array(c) = s[2].1 {
            lemma_parse_commands_back(c@, cmds);
        }
        assert(!exists|d: u16| is_dup(cmds, d));
    }
    assert forall|w: Seq<u32>| strictly_increasing(w) && w.to_set() == issis.to_set() implies w == issis by {
        lemma_increasing_same_members(w, issis);
    }
}

} // verus!
