//! Host LAN overview and Ethernet profiles, from what NetworkManager (`nmcli`) prints.
//!
//! The caller runs `nmcli` and hands its output here; this module parses the terse
//! output, assembles the overview for the dashboard and the one-line U-STATUS summary.
use vstd::prelude::*;
use crate::ota_channel::{before_char, before_char_exec};
use crate::update_check::opt_view;
use crate::text::{
    after_char, after_char_exec, append_chars, chars_eq, chars_of, dec, find_char, has_char, lines,
    split_lines, string_of, trim, trim_exec, views,
};

verus! {

/// Why an `nmcli` query failed.
#[derive(Debug)]
pub enum NetworkError {
    /// `nmcli` is not installed.
    NotAvailable,
    /// `nmcli` ran and reported a failure.
    Failed(String),
    /// `nmcli` could not be run or read.
    Io(String),
    /// `nmcli` did not finish in time.
    Timeout,
}

/// The message shown for an error.
pub open spec fn network_error_text(e: NetworkError) -> Seq<char> {
    match e {
        NetworkError::NotAvailable => "NetworkManager (nmcli) not installed"@,
        NetworkError::Failed(s) => "nmcli failed: "@ + s@,
        NetworkError::Io(s) => "nmcli exec error: "@ + s@,
        NetworkError::Timeout => "nmcli timed out"@,
    }
}

/// `s` as a new `String`.
fn owned(s: &str) -> (r: String)
    ensures
        r@ == s@,
{
    string_of(chars_of(s).as_slice())
}

impl NetworkError {
    /// The message shown for this error.
    pub fn message(&self) -> (r: String)
        ensures
            r@ == network_error_text(*self),
    {
        match self {
            NetworkError::NotAvailable => owned("NetworkManager (nmcli) not installed"),
            NetworkError::Failed(s) => {
                let mut m = chars_of("nmcli failed: ");
                append_chars(&mut m, chars_of(s.as_str()).as_slice());
                string_of(m.as_slice())
            },
            NetworkError::Io(s) => {
                let mut m = chars_of("nmcli exec error: ");
                append_chars(&mut m, chars_of(s.as_str()).as_slice());
                string_of(m.as_slice())
            },
            NetworkError::Timeout => owned("nmcli timed out"),
        }
    }
}

/// Decimal text of a signed exit code.
pub open spec fn signed_dec(v: int) -> Seq<char> {
    if v < 0 {
        seq!['-'] + dec((-v) as nat)
    } else {
        dec(v as nat)
    }
}

/// The result of an `nmcli` run that finished: its standard output on success, else the
/// trimmed standard error, or `exit code N` (-1 when killed by a signal) when that is empty.
pub open spec fn spec_nmcli_outcome(success: bool, code: Option<i32>, stdout: Seq<char>, stderr: Seq<char>) -> Result<
    Seq<char>,
    Seq<char>,
> {
    if success {
        Ok(stdout)
    } else if trim(stderr).len() == 0 {
        Err("exit code "@ + signed_dec(match code {
            Some(c) => c as int,
            None => -1,
        }))
    } else {
        Err(trim(stderr))
    }
}

/// The outcome of a finished `nmcli` run (see [`spec_nmcli_outcome`]); a failure is
/// `NetworkError::Failed`.
pub fn nmcli_outcome(success: bool, code: Option<i32>, stdout: String, stderr: &str) -> (r: Result<
    String,
    NetworkError,
>)
    ensures
        match spec_nmcli_outcome(success, code, stdout@, stderr@) {
            Ok(o) => r matches Ok(s) && s@ == o,
            Err(m) => r matches Err(NetworkError::Failed(s)) && s@ == m,
        },
{
    if success {
        return Ok(stdout);
    }
    let e = trim_exec(chars_of(stderr).as_slice());
    if e.len() > 0 {
        return Err(NetworkError::Failed(string_of(e.as_slice())));
    }
    let c: i32 = match code {
        Some(c) => c,
        None => -1,
    };
    let mut m = chars_of("exit code ");
    if c < 0 {
        m.push('-');
        let mag: u64 = if c == i32::MIN {
            2147483648u64
        } else {
            (-c) as u64
        };
        append_chars(&mut m, crate::text::dec_chars(mag).as_slice());
        assert(m@ =~= "exit code "@ + signed_dec(c as int));
    } else {
        append_chars(&mut m, crate::text::dec_chars(c as u64).as_slice());
    }
    Err(NetworkError::Failed(string_of(m.as_slice())))
}

/// Interface type as NetworkManager names it.
#[derive(Debug, Clone, Copy, PartialEq, Eq, Structural)]
pub enum IfaceKind {
    Ethernet,
    Wifi,
    Other,
}

/// The kind an `nmcli` TYPE field names.
pub open spec fn spec_iface_kind(t: Seq<char>) -> IfaceKind {
    if t == "ethernet"@ {
        IfaceKind::Ethernet
    } else if t == "wifi"@ {
        IfaceKind::Wifi
    } else {
        IfaceKind::Other
    }
}

/// Sort rank: ethernet first, then wifi, then the rest.
pub open spec fn spec_kind_rank(k: IfaceKind) -> u8 {
    match k {
        IfaceKind::Ethernet => 0,
        IfaceKind::Wifi => 1,
        IfaceKind::Other => 2,
    }
}

impl IfaceKind {
    /// The kind an `nmcli` TYPE field names.
    pub fn from_nmcli(t: &str) -> (r: Self)
        ensures
            r == spec_iface_kind(t@),
    {
        let c = chars_of(t);
        if chars_eq(c.as_slice(), chars_of("ethernet").as_slice()) {
            IfaceKind::Ethernet
        } else if chars_eq(c.as_slice(), chars_of("wifi").as_slice()) {
            IfaceKind::Wifi
        } else {
            IfaceKind::Other
        }
    }
}

/// Sort rank of an interface kind.
pub fn kind_rank(k: IfaceKind) -> (r: u8)
    ensures
        r == spec_kind_rank(k),
{
    match k {
        IfaceKind::Ethernet => 0,
        IfaceKind::Wifi => 1,
        IfaceKind::Other => 2,
    }
}

/// Reading state of a terse line: finished fields, the field being read, and whether the
/// previous character was an escaping `\`.
pub type TerseScan = (Seq<Seq<char>>, Seq<char>, bool);

/// The state after reading `s`.
pub open spec fn terse_scan(s: Seq<char>) -> TerseScan
    decreases s.len(),
{
    if s.len() == 0 {
        (Seq::empty(), Seq::empty(), false)
    } else {
        let (done, cur, esc) = terse_scan(s.drop_last());
        let c = s.last();
        if esc {
            (done, cur.push(c), false)
        } else if c == '\\' {
            (done, cur, true)
        } else if c == ':' {
            (done.push(cur), Seq::empty(), false)
        } else {
            (done, cur.push(c), false)
        }
    }
}

/// The fields of an `nmcli -t` line: split at `:`, where `\` makes the next character
/// literal (a trailing lone `\` is dropped).
pub open spec fn spec_terse_fields(s: Seq<char>) -> Seq<Seq<char>> {
    let (done, cur, _) = terse_scan(s);
    done.push(cur)
}

/// The fields of an `nmcli -t` line, as character vectors.
fn terse_fields(line: &[char]) -> (r: Vec<Vec<char>>)
    ensures
        views(r@) == spec_terse_fields(line@),
{
    let mut done: Vec<Vec<char>> = Vec::new();
    let mut cur: Vec<char> = Vec::new();
    let mut esc = false;
    let mut i: usize = 0;
    while i < line.len()
        invariant
            i <= line.len(),
            (views(done@), cur@, esc) == terse_scan(line@.take(i as int)),
        decreases line.len() - i,
    {
        assert(line@.take(i + 1).drop_last() =~= line@.take(i as int));
        let c = line[i];
        if esc {
            cur.push(c);
            esc = false;
        } else if c == '\\' {
            esc = true;
        } else if c == ':' {
            let f = cur;
            let ghost prev = done@;
            done.push(f);
            assert(views(done@) =~= views(prev).push(f@));
            cur = Vec::new();
        } else {
            cur.push(c);
        }
        i += 1;
    }
    assert(line@.take(line.len() as int) =~= line@);
    let ghost prev = done@;
    let f = cur;
    done.push(f);
    assert(views(done@) =~= views(prev).push(f@));
    done
}

/// The views of a vector of strings.
pub open spec fn string_views(v: Seq<String>) -> Seq<Seq<char>> {
    v.map_values(|s: String| s@)
}

/// Strings holding the given character vectors.
fn strings_of(v: &Vec<Vec<char>>) -> (r: Vec<String>)
    ensures
        string_views(r@) == views(v@),
{
    let mut r: Vec<String> = Vec::new();
    let mut i: usize = 0;
    while i < v.len()
        invariant
            i <= v.len(),
            string_views(r@) == views(v@).take(i as int),
        decreases v.len() - i,
    {
        let ghost prev = r@;
        r.push(string_of(v[i].as_slice()));
        assert(string_views(r@) =~= string_views(prev).push(v@[i as int]@));
        assert(views(v@).take(i + 1) =~= views(v@).take(i as int).push(v@[i as int]@));
        i += 1;
    }
    assert(views(v@).take(v.len() as int) =~= views(v@));
    r
}

/// Split an `nmcli -t` line into its fields (see [`spec_terse_fields`]).
pub fn parse_terse_line(line: &str) -> (r: Vec<String>)
    ensures
        string_views(r@) == spec_terse_fields(line@),
{
    let f = terse_fields(chars_of(line).as_slice());
    strings_of(&f)
}

/// A saved connection profile.
#[derive(Debug)]
pub struct EthernetProfile {
    pub uuid: String,
    pub name: String,
    pub active: bool,
}

/// The Ethernet profile a line of `nmcli -t -f UUID,NAME,TYPE,ACTIVE connection show`
/// describes, if it describes one.
pub open spec fn profile_of_line(line: Seq<char>) -> Option<(Seq<char>, Seq<char>, bool)> {
    let f = spec_terse_fields(line);
    if f.len() < 4 || f[2] != "802-3-ethernet"@ {
        None
    } else {
        Some((f[0], f[1], f[3] == "yes"@))
    }
}

/// The Ethernet profiles the lines describe, in order.
pub open spec fn profiles_of(ls: Seq<Seq<char>>) -> Seq<(Seq<char>, Seq<char>, bool)>
    decreases ls.len(),
{
    if ls.len() == 0 {
        Seq::empty()
    } else {
        match profile_of_line(ls.last()) {
            Some(p) => profiles_of(ls.drop_last()).push(p),
            None => profiles_of(ls.drop_last()),
        }
    }
}

/// The views of Ethernet profiles.
pub open spec fn profile_views(v: Seq<EthernetProfile>) -> Seq<(Seq<char>, Seq<char>, bool)> {
    v.map_values(|p: EthernetProfile| (p.uuid@, p.name@, p.active))
}

/// The `nmcli` arguments that bring up saved Ethernet profile `uuid` (waiting up to 12 s).
pub fn ethernet_up(uuid: &str) -> (r: Vec<String>)
    ensures
        string_views(r@) == seq!["--wait"@, "12"@, "connection"@, "up"@, "uuid"@, uuid@],
{
    let mut r: Vec<String> = Vec::new();
    r.push(owned("--wait"));
    r.push(owned("12"));
    r.push(owned("connection"));
    r.push(owned("up"));
    r.push(owned("uuid"));
    r.push(owned(uuid));
    assert(string_views(r@) =~= seq!["--wait"@, "12"@, "connection"@, "up"@, "uuid"@, uuid@]);
    r
}

/// The `nmcli` arguments that bring down saved Ethernet profile `uuid` (it stays saved).
pub fn ethernet_down(uuid: &str) -> (r: Vec<String>)
    ensures
        string_views(r@) == seq!["connection"@, "down"@, "uuid"@, uuid@],
{
    let mut r: Vec<String> = Vec::new();
    r.push(owned("connection"));
    r.push(owned("down"));
    r.push(owned("uuid"));
    r.push(owned(uuid));
    assert(string_views(r@) =~= seq!["connection"@, "down"@, "uuid"@, uuid@]);
    r
}

/// The saved Ethernet profiles (`802-3-ethernet`) in the output of
/// `nmcli -t -f UUID,NAME,TYPE,ACTIVE connection show`; a failed run is passed on.
pub fn list_ethernet_saved(nmcli_out: Result<String, NetworkError>) -> (r: Result<
    Vec<EthernetProfile>,
    NetworkError,
>)
    ensures
        match nmcli_out {
            Ok(out) => r matches Ok(ps) && profile_views(ps@) == profiles_of(lines(out@)),
            Err(_) => r is Err,
        },
{
    let out = match nmcli_out {
        Ok(o) => o,
        Err(e) => return Err(e),
    };
    let ls = split_lines(chars_of(out.as_str()).as_slice());
    let eth = chars_of("802-3-ethernet");
    let yes = chars_of("yes");
    let mut profiles: Vec<EthernetProfile> = Vec::new();
    let mut i: usize = 0;
    assert(lines(out@).take(0) =~= Seq::<Seq<char>>::empty());
    assert(profile_views(profiles@) =~= Seq::<(Seq<char>, Seq<char>, bool)>::empty());
    while i < ls.len()
        invariant
            i <= ls.len(),
            views(ls@) == lines(out@),
            eth@ == "802-3-ethernet"@,
            yes@ == "yes"@,
            profile_views(profiles@) == profiles_of(lines(out@).take(i as int)),
        decreases ls.len() - i,
    {
        assert(lines(out@).take(i + 1).drop_last() =~= lines(out@).take(i as int));
        assert(lines(out@).take(i + 1).last() == ls@[i as int]@);
        let f = terse_fields(ls[i].as_slice());
        if f.len() >= 4 && chars_eq(f[2].as_slice(), eth.as_slice()) {
            let ghost prev = profiles@;
            let p = EthernetProfile {
                uuid: string_of(f[0].as_slice()),
                name: string_of(f[1].as_slice()),
                active: chars_eq(f[3].as_slice(), yes.as_slice()),
            };
            profiles.push(p);
            assert(profile_views(profiles@) =~= profile_views(prev).push((f@[0]@, f@[1]@, f@[3]@ == "yes"@)));
        }
        i += 1;
    }
    assert(lines(out@).take(ls.len() as int) =~= lines(out@));
    Ok(profiles)
}

/// The IPv4 address a line of `nmcli -t -f IP4.ADDRESS device show` holds: the text
/// between its first and second `:`, without a `/prefix`, trimmed.
pub open spec fn ipv4_of_line(line: Seq<char>) -> Option<Seq<char>> {
    if !has_char(line, ':') {
        None
    } else {
        let rest = before_char(after_char(line, ':'), ':');
        let ip = trim(before_char(rest, '/'));
        if rest.len() == 0 || ip.len() == 0 {
            None
        } else {
            Some(ip)
        }
    }
}

/// The addresses the lines hold, in order.
pub open spec fn ipv4s_of(ls: Seq<Seq<char>>) -> Seq<Seq<char>>
    decreases ls.len(),
{
    if ls.len() == 0 {
        Seq::empty()
    } else {
        match ipv4_of_line(ls.last()) {
            Some(ip) => ipv4s_of(ls.drop_last()).push(ip),
            None => ipv4s_of(ls.drop_last()),
        }
    }
}

/// The IPv4 addresses in the output of `nmcli -t -f IP4.ADDRESS device show DEV`; a failed
/// run is passed on.
pub fn ipv4_for_device(nmcli_out: Result<String, NetworkError>) -> (r: Result<Vec<String>, NetworkError>)
    ensures
        match nmcli_out {
            Ok(out) => r matches Ok(ips) && string_views(ips@) == ipv4s_of(lines(out@)),
            Err(_) => r is Err,
        },
{
    let out = match nmcli_out {
        Ok(o) => o,
        Err(e) => return Err(e),
    };
    let ls = split_lines(chars_of(out.as_str()).as_slice());
    let mut ips: Vec<String> = Vec::new();
    let mut i: usize = 0;
    assert(lines(out@).take(0) =~= Seq::<Seq<char>>::empty());
    assert(string_views(ips@) =~= Seq::<Seq<char>>::empty());
    while i < ls.len()
        invariant
            i <= ls.len(),
            views(ls@) == lines(out@),
            string_views(ips@) == ipv4s_of(lines(out@).take(i as int)),
        decreases ls.len() - i,
    {
        assert(lines(out@).take(i + 1).drop_last() =~= lines(out@).take(i as int));
        assert(lines(out@).take(i + 1).last() == ls@[i as int]@);
        let line = ls[i].as_slice();
        if find_char(line, ':').is_some() {
            let rest = before_char_exec(after_char_exec(line, ':').as_slice(), ':');
            let ip = trim_exec(before_char_exec(rest.as_slice(), '/').as_slice());
            if rest.len() > 0 && ip.len() > 0 {
                let ghost prev = ips@;
                ips.push(string_of(ip.as_slice()));
                assert(string_views(ips@) =~= string_views(prev).push(ip@));
            }
        }
        i += 1;
    }
    assert(lines(out@).take(ls.len() as int) =~= lines(out@));
    Ok(ips)
}

/// A device line of `nmcli -t -f DEVICE,TYPE,STATE,CONNECTION device status`.
#[derive(Debug)]
pub struct DeviceRow {
    pub name: String,
    pub kind: IfaceKind,
    pub state: String,
    /// Active connection profile name, if any (`--` or empty → none).
    pub connection: Option<String>,
}

/// A device: name, kind, state, active connection.
pub type RowView = (Seq<char>, IfaceKind, Seq<char>, Option<Seq<char>>);

/// The views of device rows.
pub open spec fn row_views(v: Seq<DeviceRow>) -> Seq<RowView> {
    v.map_values(|r: DeviceRow| (r.name@, r.kind, r.state@, opt_view(r.connection)))
}

/// The device a status line describes; lines with fewer than four fields and the
/// loopback device are skipped.
pub open spec fn device_of_line(line: Seq<char>) -> Option<RowView> {
    let f = spec_terse_fields(line);
    if f.len() < 4 || f[0] == "lo"@ || f[1] == "loopback"@ {
        None
    } else {
        Some(
            (f[0], spec_iface_kind(f[1]), f[2], if f[3].len() == 0 || f[3] == "--"@ {
                None
            } else {
                Some(f[3])
            }),
        )
    }
}

/// The devices the lines describe, in order.
pub open spec fn devices_of(ls: Seq<Seq<char>>) -> Seq<RowView>
    decreases ls.len(),
{
    if ls.len() == 0 {
        Seq::empty()
    } else {
        match device_of_line(ls.last()) {
            Some(d) => devices_of(ls.drop_last()).push(d),
            None => devices_of(ls.drop_last()),
        }
    }
}

/// The devices in the output of `nmcli -t -f DEVICE,TYPE,STATE,CONNECTION device status`;
/// a failed run is passed on. Their addresses are read next, one `nmcli` run per device.
pub fn status_devices(nmcli_out: Result<String, NetworkError>) -> (r: Result<Vec<DeviceRow>, NetworkError>)
    ensures
        match nmcli_out {
            Ok(out) => r matches Ok(rows) && row_views(rows@) == devices_of(lines(out@)),
            Err(e) => r == Err::<Vec<DeviceRow>, NetworkError>(e),
        },
{
    let out = match nmcli_out {
        Ok(o) => o,
        Err(e) => return Err(e),
    };
    let ls = split_lines(chars_of(out.as_str()).as_slice());
    let lo = chars_of("lo");
    let loopback = chars_of("loopback");
    let dashes = chars_of("--");
    let mut rows: Vec<DeviceRow> = Vec::new();
    let mut i: usize = 0;
    assert(lines(out@).take(0) =~= Seq::<Seq<char>>::empty());
    assert(row_views(rows@) =~= Seq::<RowView>::empty());
    while i < ls.len()
        invariant
            i <= ls.len(),
            views(ls@) == lines(out@),
            lo@ == "lo"@,
            loopback@ == "loopback"@,
            dashes@ == "--"@,
            row_views(rows@) == devices_of(lines(out@).take(i as int)),
        decreases ls.len() - i,
    {
        assert(lines(out@).take(i + 1).drop_last() =~= lines(out@).take(i as int));
        assert(lines(out@).take(i + 1).last() == ls@[i as int]@);
        let f = terse_fields(ls[i].as_slice());
        if f.len() >= 4 && !chars_eq(f[0].as_slice(), lo.as_slice()) && !chars_eq(
            f[1].as_slice(),
            loopback.as_slice(),
        ) {
            let kind = IfaceKind::from_nmcli(string_of(f[1].as_slice()).as_str());
            let connection = if f[3].len() == 0 || chars_eq(f[3].as_slice(), dashes.as_slice()) {
                None
            } else {
                Some(string_of(f[3].as_slice()))
            };
            let row = DeviceRow {
                name: string_of(f[0].as_slice()),
                kind,
                state: string_of(f[2].as_slice()),
                connection,
            };
            let ghost prev = rows@;
            let ghost rv = (row.name@, row.kind, row.state@, opt_view(row.connection));
            rows.push(row);
            assert(row_views(rows@) =~= row_views(prev).push(rv));
        }
        i += 1;
    }
    assert(lines(out@).take(ls.len() as int) =~= lines(out@));
    Ok(rows)
}

/// One interface of the overview.
#[derive(Debug)]
pub struct IfaceLink {
    pub name: String,
    pub kind: IfaceKind,
    pub state: String,
    /// Active connection profile name, if any (`--` → empty).
    pub connection: Option<String>,
    pub ipv4: Vec<String>,
    /// True when one of `ipv4` equals the default-route address.
    pub is_default: bool,
}

/// The host's interfaces and the default-route address.
#[derive(Debug)]
pub struct NetworkStatus {
    pub interfaces: Vec<IfaceLink>,
    pub primary_ip: Option<String>,
}

/// An interface: name, kind, state, connection, IPv4 addresses, default-route mark.
pub type LinkView = (Seq<char>, IfaceKind, Seq<char>, Option<Seq<char>>, Seq<Seq<char>>, bool);

/// The views of interfaces.
pub open spec fn link_views(v: Seq<IfaceLink>) -> Seq<LinkView> {
    v.map_values(
        |l: IfaceLink| (l.name@, l.kind, l.state@, opt_view(l.connection), string_views(l.ipv4@), l.is_default),
    )
}

/// One of the addresses is the default-route address.
pub open spec fn holds_primary(ips: Seq<Seq<char>>, primary: Option<Seq<char>>) -> bool {
    match primary {
        Some(p) => ips.contains(p),
        None => false,
    }
}

/// The overview's interfaces in device order: every device with its addresses, except an
/// interface of another kind than ethernet or wifi that has none.
pub open spec fn links_of(rows: Seq<RowView>, ipv4s: Seq<Seq<Seq<char>>>, primary: Option<Seq<char>>) -> Seq<
    LinkView,
>
    decreases rows.len(),
{
    if rows.len() == 0 || ipv4s.len() == 0 {
        Seq::empty()
    } else {
        let r = links_of(rows.drop_last(), ipv4s.drop_last(), primary);
        let d = rows.last();
        let ips = ipv4s.last();
        if d.1 == IfaceKind::Other && ips.len() == 0 {
            r
        } else {
            r.push((d.0, d.1, d.2, d.3, ips, holds_primary(ips, primary)))
        }
    }
}

/// `a` sorts before `b` as Rust orders strings (by code point, a prefix first).
pub open spec fn name_lt(a: Seq<char>, b: Seq<char>) -> bool
    decreases a.len(),
{
    if a.len() == 0 {
        b.len() > 0
    } else if b.len() == 0 {
        false
    } else if a[0] != b[0] {
        (a[0] as u32) < (b[0] as u32)
    } else {
        name_lt(a.drop_first(), b.drop_first())
    }
}

/// No name sorts before itself.
pub proof fn lemma_name_lt_irreflexive(a: Seq<char>)
    ensures
        !name_lt(a, a),
    decreases a.len(),
{
    if a.len() > 0 {
        lemma_name_lt_irreflexive(a.drop_first());
    }
}

/// Sorting before is transitive.
pub proof fn lemma_name_lt_transitive(a: Seq<char>, b: Seq<char>, c: Seq<char>)
    requires
        name_lt(a, b),
        name_lt(b, c),
    ensures
        name_lt(a, c),
    decreases a.len(),
{
    if a.len() > 0 && b.len() > 0 && c.len() > 0 && a[0] == b[0] && b[0] == c[0] {
        lemma_name_lt_transitive(a.drop_first(), b.drop_first(), c.drop_first());
    }
}

/// Of two different names one sorts before the other.
pub proof fn lemma_name_lt_total(a: Seq<char>, b: Seq<char>)
    requires
        a != b,
    ensures
        name_lt(a, b) || name_lt(b, a),
    decreases a.len(),
{
    if a.len() == 0 && b.len() == 0 {
        assert(a =~= b);
    } else if a.len() > 0 && b.len() > 0 && a[0] == b[0] {
        if a.drop_first() =~= b.drop_first() {
            assert forall|i: int| 0 <= i < a.len() implies a[i] == b[i] by {
                if i > 0 {
                    assert(a[i] == a.drop_first()[i - 1]);
                    assert(b[i] == b.drop_first()[i - 1]);
                }
            }
            assert(a =~= b);
        } else {
            lemma_name_lt_total(a.drop_first(), b.drop_first());
        }
    } else if a.len() > 0 && b.len() > 0 {
        lemma_char_code(a[0]);
        lemma_char_code(b[0]);
    }
}

proof fn lemma_char_code(c: char)
    ensures
        (c as u32) as int == c as int,
{
    assert(0 <= c as int <= 0x10FFFF);
}

/// `x` sorts strictly before `y`: by kind rank, then by name.
pub open spec fn link_before(x: LinkView, y: LinkView) -> bool {
    ||| spec_kind_rank(x.1) < spec_kind_rank(y.1)
    ||| spec_kind_rank(x.1) == spec_kind_rank(y.1) && name_lt(x.0, y.0)
}

/// `x` placed into `sorted` after every interface it does not sort before.
pub open spec fn insert_link(sorted: Seq<LinkView>, x: LinkView) -> Seq<LinkView>
    decreases sorted.len(),
{
    if sorted.len() == 0 {
        seq![x]
    } else if link_before(x, sorted.last()) {
        insert_link(sorted.drop_last(), x).push(sorted.last())
    } else {
        sorted.push(x)
    }
}

/// Stable sort: ethernet first, then wifi, then other; by name within a kind.
pub open spec fn sort_links(s: Seq<LinkView>) -> Seq<LinkView>
    decreases s.len(),
{
    if s.len() == 0 {
        Seq::empty()
    } else {
        insert_link(sort_links(s.drop_last()), s.last())
    }
}

/// No interface comes before one that sorts before it.
pub open spec fn links_ascending(s: Seq<LinkView>) -> bool {
    forall|i: int, j: int| 0 <= i < j < s.len() ==> !link_before(#[trigger] s[j], #[trigger] s[i])
}

proof fn lemma_name_not_lt_trans(a: Seq<char>, b: Seq<char>, c: Seq<char>)
    requires
        !name_lt(a, b),
        !name_lt(b, c),
    ensures
        !name_lt(a, c),
{
    if name_lt(a, c) {
        if a != b {
            lemma_name_lt_total(a, b);
            lemma_name_lt_transitive(b, a, c);
        }
    }
}

proof fn lemma_link_order(a: LinkView, b: LinkView, c: LinkView)
    ensures
        link_before(a, b) ==> !link_before(b, a),
        !link_before(a, b) && !link_before(b, c) ==> !link_before(a, c),
{
    if link_before(a, b) && link_before(b, a) {
        lemma_name_lt_transitive(a.0, b.0, a.0);
        lemma_name_lt_irreflexive(a.0);
    }
    if !link_before(a, b) && !link_before(b, c) && spec_kind_rank(a.1) == spec_kind_rank(b.1) && spec_kind_rank(b.1)
        == spec_kind_rank(c.1) {
        lemma_name_not_lt_trans(a.0, b.0, c.0);
    }
}

proof fn lemma_insert_link_sorted(s: Seq<LinkView>, x: LinkView)
    requires
        links_ascending(s),
    ensures
        links_ascending(insert_link(s, x)),
        insert_link(s, x).to_multiset() == s.to_multiset().insert(x),
    decreases s.len(),
{
    broadcast use vstd::seq_lib::group_to_multiset_ensures;
    if s.len() == 0 {
        assert(seq![x] =~= Seq::<LinkView>::empty().push(x));
    } else if link_before(x, s.last()) {
        let d = s.drop_last();
        let l = s.last();
        assert(links_ascending(d)) by {
            assert forall|i: int, j: int| 0 <= i < j < d.len() implies !link_before(#[trigger] d[j], #[trigger] d[i]) by {
                assert(d[i] == s[i] && d[j] == s[j]);
            }
        }
        lemma_insert_link_sorted(d, x);
        let r1 = insert_link(d, x);
        assert(s =~= d.push(l));
        assert forall|e: LinkView| r1.contains(e) implies !link_before(l, e) by {
            assert(r1.to_multiset().count(e) > 0);
            if e == x {
                lemma_link_order(x, l, l);
            } else {
                assert(d.to_multiset().count(e) > 0);
                let i = choose|i: int| 0 <= i < d.len() && d[i] == e;
                assert(s[i] == e && s[s.len() - 1] == l);
            }
        }
        let r = r1.push(l);
        assert forall|i: int, j: int| 0 <= i < j < r.len() implies !link_before(#[trigger] r[j], #[trigger] r[i]) by {
            if j == r.len() - 1 {
                assert(r1.contains(r1[i]));
            } else {
                assert(r[i] == r1[i] && r[j] == r1[j]);
            }
        }
    } else {
        let l = s.last();
        let r = s.push(x);
        assert forall|i: int, j: int| 0 <= i < j < r.len() implies !link_before(#[trigger] r[j], #[trigger] r[i]) by {
            if j == r.len() - 1 {
                assert(s[s.len() - 1] == l);
                if i < s.len() - 1 {
                    assert(!link_before(l, s[i]));
                }
                lemma_link_order(x, l, s[i]);
            } else {
                assert(r[i] == s[i] && r[j] == s[j]);
            }
        }
    }
}

/// The interface list is sorted: [`sort_links`] puts the interfaces in order (ethernet,
/// wifi, other; by name within a kind), each as often as it was given.
pub proof fn lemma_sort_links_sorted(s: Seq<LinkView>)
    ensures
        links_ascending(sort_links(s)),
        sort_links(s).to_multiset() == s.to_multiset(),
    decreases s.len(),
{
    broadcast use vstd::seq_lib::group_to_multiset_ensures;
    if s.len() > 0 {
        lemma_sort_links_sorted(s.drop_last());
        lemma_insert_link_sorted(sort_links(s.drop_last()), s.last());
        assert(s =~= s.drop_last().push(s.last()));
    }
}

/// `insert_link` puts `x` at the first position from which on it sorts before every
/// interface.
proof fn lemma_insert_link_at(s: Seq<LinkView>, x: LinkView, j: int)
    requires
        0 <= j <= s.len(),
        forall|k: int| j <= k < s.len() ==> link_before(x, #[trigger] s[k]),
        j == 0 || !link_before(x, s[j - 1]),
    ensures
        insert_link(s, x) == s.take(j).push(x) + s.skip(j),
    decreases s.len(),
{
    if s.len() == 0 {
        assert(s.take(j).push(x) + s.skip(j) =~= seq![x]);
    } else if link_before(x, s.last()) {
        assert(j < s.len());
        let d = s.drop_last();
        assert forall|k: int| j <= k < d.len() implies link_before(x, #[trigger] d[k]) by {
            assert(d[k] == s[k]);
        }
        lemma_insert_link_at(d, x, j);
        assert((d.take(j).push(x) + d.skip(j)).push(s.last()) =~= s.take(j).push(x) + s.skip(j));
    } else {
        assert(j == s.len()) by {
            if j < s.len() {
                assert(link_before(x, s[s.len() - 1]));
            }
        }
        assert(s.take(j).push(x) + s.skip(j) =~= s.push(x));
    }
}

/// `name_lt` of two slices.
pub fn name_lt_exec(a: &[char], b: &[char]) -> (r: bool)
    ensures
        r == name_lt(a@, b@),
{
    let mut i: usize = 0;
    assert(a@.skip(0) =~= a@);
    assert(b@.skip(0) =~= b@);
    while i < a.len() && i < b.len() && a[i] == b[i]
        invariant
            i <= a.len(),
            i <= b.len(),
            name_lt(a@, b@) == name_lt(a@.skip(i as int), b@.skip(i as int)),
        decreases a.len() - i,
    {
        assert(a@.skip(i as int).drop_first() =~= a@.skip(i + 1));
        assert(b@.skip(i as int).drop_first() =~= b@.skip(i + 1));
        i += 1;
    }
    if i == a.len() {
        i < b.len()
    } else if i == b.len() {
        false
    } else {
        (a[i] as u32) < (b[i] as u32)
    }
}

/// A copy of a vector of strings.
fn copy_strings(v: &Vec<String>) -> (r: Vec<String>)
    ensures
        string_views(r@) == string_views(v@),
{
    let mut r: Vec<String> = Vec::new();
    let mut i: usize = 0;
    while i < v.len()
        invariant
            i <= v.len(),
            string_views(r@) == string_views(v@).take(i as int),
        decreases v.len() - i,
    {
        let ghost prev = r@;
        r.push(string_of(chars_of(v[i].as_str()).as_slice()));
        assert(string_views(r@) =~= string_views(prev).push(v@[i as int]@));
        assert(string_views(v@).take(i + 1) =~= string_views(v@).take(i as int).push(v@[i as int]@));
        i += 1;
    }
    assert(string_views(v@).take(v.len() as int) =~= string_views(v@));
    r
}

/// One of `ips` equals `p`.
fn contains_string(ips: &Vec<String>, p: &String) -> (r: bool)
    ensures
        r == string_views(ips@).contains(p@),
{
    let pc = chars_of(p.as_str());
    let mut i: usize = 0;
    while i < ips.len()
        invariant
            i <= ips.len(),
            pc@ == p@,
            forall|k: int| 0 <= k < i ==> string_views(ips@)[k] != p@,
        decreases ips.len() - i,
    {
        if chars_eq(chars_of(ips[i].as_str()).as_slice(), pc.as_slice()) {
            assert(string_views(ips@)[i as int] == p@);
            return true;
        }
        i += 1;
    }
    false
}

/// The overview from the devices of [`status_devices`], the addresses read for each (in
/// the same order; an empty list where reading failed) and the default-route address.
pub fn status(rows: Vec<DeviceRow>, ipv4s: Vec<Vec<String>>, primary_ip: Option<String>) -> (r: NetworkStatus)
    requires
        rows.len() == ipv4s.len(),
    ensures
        link_views(r.interfaces@) == sort_links(
            links_of(row_views(rows@), ipv4s@.map_values(|v: Vec<String>| string_views(v@)), opt_view(primary_ip)),
        ),
        opt_view(r.primary_ip) == opt_view(primary_ip),
        links_ascending(link_views(r.interfaces@)),
{
    let ghost rv = row_views(rows@);
    let ghost iv = ipv4s@.map_values(|v: Vec<String>| string_views(v@));
    let ghost pv = opt_view(primary_ip);
    proof {
        lemma_sort_links_sorted(links_of(rv, iv, pv));
    }
    let mut sorted: Vec<IfaceLink> = Vec::new();
    let mut i: usize = 0;
    assert(link_views(sorted@) =~= Seq::<LinkView>::empty());
    assert(rv.take(0) =~= Seq::<RowView>::empty());
    while i < rows.len()
        invariant
            i <= rows.len() == ipv4s.len(),
            rv == row_views(rows@),
            iv == ipv4s@.map_values(|v: Vec<String>| string_views(v@)),
            pv == opt_view(primary_ip),
            link_views(sorted@) == sort_links(links_of(rv.take(i as int), iv.take(i as int), pv)),
        decreases rows.len() - i,
    {
        assert(rv.take(i + 1).drop_last() =~= rv.take(i as int));
        assert(iv.take(i + 1).drop_last() =~= iv.take(i as int));
        assert(rv.take(i + 1).last() == rv[i as int]);
        assert(iv.take(i + 1).last() == iv[i as int]);
        let row = &rows[i];
        let ips = &ipv4s[i];
        if !(row.kind == IfaceKind::Other && ips.len() == 0) {
            let is_default = match &primary_ip {
                Some(p) => contains_string(ips, p),
                None => false,
            };
            let link = IfaceLink {
                name: string_of(chars_of(row.name.as_str()).as_slice()),
                kind: row.kind,
                state: string_of(chars_of(row.state.as_str()).as_slice()),
                connection: match &row.connection {
                    Some(c) => Some(string_of(chars_of(c.as_str()).as_slice())),
                    None => None,
                },
                ipv4: copy_strings(ips),
                is_default,
            };
            let ghost xv = (link.name@, link.kind, link.state@, opt_view(link.connection), string_views(link.ipv4@), link.is_default);
            assert(xv == (rv[i as int].0, rv[i as int].1, rv[i as int].2, rv[i as int].3, iv[i as int], holds_primary(iv[i as int], pv)));
            let ghost cur = link_views(sorted@);
            let name = chars_of(link.name.as_str());
            let rank = kind_rank(link.kind);
            let mut j: usize = sorted.len();
            while j > 0 && (rank < kind_rank(sorted[j - 1].kind) || (rank == kind_rank(sorted[j - 1].kind)
                && name_lt_exec(name.as_slice(), chars_of(sorted[j - 1].name.as_str()).as_slice())))
                invariant
                    j <= sorted.len(),
                    cur == link_views(sorted@),
                    name@ == xv.0,
                    rank == spec_kind_rank(xv.1),
                    forall|k: int| j <= k < cur.len() ==> link_before(xv, #[trigger] cur[k]),
                decreases j,
            {
                assert(cur[j - 1].0 == sorted@[j - 1].name@);
                assert(cur[j - 1].1 == sorted@[j - 1].kind);
                j -= 1;
            }
            proof {
                if j > 0 {
                    assert(cur[j - 1].0 == sorted@[j - 1].name@);
                    assert(cur[j - 1].1 == sorted@[j - 1].kind);
                }
                lemma_insert_link_at(cur, xv, j as int);
            }
            sorted.insert(j, link);
            assert(link_views(sorted@) =~= cur.take(j as int).push(xv) + cur.skip(j as int));
            proof {
                let prevl = links_of(rv.take(i as int), iv.take(i as int), pv);
                assert(links_of(rv.take(i + 1), iv.take(i + 1), pv) == prevl.push(xv));
                assert(prevl.push(xv).drop_last() =~= prevl);
            }
        } else {
            assert(links_of(rv.take(i + 1), iv.take(i + 1), pv) == links_of(rv.take(i as int), iv.take(i as int), pv));
        }
        i += 1;
    }
    assert(rv.take(rows.len() as int) =~= rv);
    assert(iv.take(rows.len() as int) =~= iv);
    NetworkStatus { interfaces: sorted, primary_ip }
}

/// `name=ip` for each address, with `*` after the default-route address.
pub open spec fn ip_parts(name: Seq<char>, ips: Seq<Seq<char>>, primary: Option<Seq<char>>) -> Seq<
    Seq<char>,
>
    decreases ips.len(),
{
    if ips.len() == 0 {
        Seq::empty()
    } else {
        ip_parts(name, ips.drop_last(), primary).push(
            name + seq!['='] + ips.last() + if primary == Some(ips.last()) {
                seq!['*']
            } else {
                Seq::empty()
            },
        )
    }
}

/// The summary parts of the ethernet and wifi interfaces, in order.
pub open spec fn status_parts(links: Seq<LinkView>, primary: Option<Seq<char>>) -> Seq<Seq<char>>
    decreases links.len(),
{
    if links.len() == 0 {
        Seq::empty()
    } else {
        let l = links.last();
        status_parts(links.drop_last(), primary) + if l.1 == IfaceKind::Ethernet || l.1
            == IfaceKind::Wifi {
            ip_parts(l.0, l.4, primary)
        } else {
            Seq::empty()
        }
    }
}

/// `p`, or `n/a` when there is none.
pub open spec fn or_na(p: Option<Seq<char>>) -> Seq<char> {
    match p {
        Some(s) => s,
        None => "n/a"@,
    }
}

/// The one-line summary: the parts separated by spaces, or the default-route address (or
/// `n/a`) when there are none.
pub open spec fn spec_ip_summary(links: Seq<LinkView>, primary: Option<Seq<char>>) -> Seq<char> {
    let parts = status_parts(links, primary);
    if parts.len() == 0 {
        or_na(primary)
    } else {
        crate::text::join_with(parts, seq![' '])
    }
}

/// Appends one summary part (a space first unless it is the first part).
fn push_part(out: &mut Vec<char>, part: &Vec<char>, Ghost(ps): Ghost<Seq<Seq<char>>>)
    requires
        old(out)@ == crate::text::join_with(ps, seq![' ']),
        ps.len() == 0 <==> old(out)@.len() == 0,
        part@.len() > 0,
    ensures
        final(out)@ == crate::text::join_with(ps.push(part@), seq![' ']),
        final(out)@.len() > 0,
{
    if out.len() > 0 {
        out.push(' ');
    }
    append_chars(out, part.as_slice());
    proof {
        let q = ps.push(part@);
        assert(q.drop_last() =~= ps);
        if ps.len() == 0 {
            assert(final(out)@ =~= part@);
        } else {
            assert(final(out)@ =~= crate::text::join_with(ps, seq![' ']) + seq![' '] + part@);
        }
    }
}

/// Compact one-line summary for U-STATUS, e.g. `eth0=10.0.1.212* wlan0=10.0.1.228`, where
/// `*` marks the default-route address. `st` is the overview (or why it could not be
/// read); when it could not, the summary is `primary_on_error`, the default-route address
/// read on its own (or `n/a`).
pub fn format_ip_status_line(st: &Result<NetworkStatus, NetworkError>, primary_on_error: Option<String>) -> (r: String)
    ensures
        match st {
            Ok(s) => r@ == spec_ip_summary(link_views(s.interfaces@), opt_view(s.primary_ip)),
            Err(_) => r@ == or_na(opt_view(primary_on_error)),
        },
{
    let s = match st {
        Ok(s) => s,
        Err(_) => {
            return match primary_on_error {
                Some(p) => p,
                None => string_of(chars_of("n/a").as_slice()),
            };
        },
    };
    let ghost lv = link_views(s.interfaces@);
    let ghost pv = opt_view(s.primary_ip);
    let mut out: Vec<char> = Vec::new();
    let ghost mut ps: Seq<Seq<char>> = Seq::empty();
    let mut i: usize = 0;
    assert(lv.take(0) =~= Seq::<LinkView>::empty());
    while i < s.interfaces.len()
        invariant
            i <= s.interfaces.len(),
            lv == link_views(s.interfaces@),
            pv == opt_view(s.primary_ip),
            ps == status_parts(lv.take(i as int), pv),
            out@ == crate::text::join_with(ps, seq![' ']),
            ps.len() == 0 <==> out@.len() == 0,
        decreases s.interfaces.len() - i,
    {
        assert(lv.take(i + 1).drop_last() =~= lv.take(i as int));
        assert(lv.take(i + 1).last() == lv[i as int]);
        let iface = &s.interfaces[i];
        let ghost before = ps;
        if iface.kind == IfaceKind::Ethernet || iface.kind == IfaceKind::Wifi {
            let name = chars_of(iface.name.as_str());
            let ghost ips = string_views(iface.ipv4@);
            let mut k: usize = 0;
            assert(ips.take(0) =~= Seq::<Seq<char>>::empty());
            assert(before + ip_parts(name@, ips.take(0), pv) =~= before);
            while k < iface.ipv4.len()
                invariant
                    k <= iface.ipv4.len(),
                    ips == string_views(iface.ipv4@),
                    ps == before + ip_parts(name@, ips.take(k as int), pv),
                    out@ == crate::text::join_with(ps, seq![' ']),
                    ps.len() == 0 <==> out@.len() == 0,
                    pv == opt_view(s.primary_ip),
                decreases iface.ipv4.len() - k,
            {
                assert(ips.take(k + 1).drop_last() =~= ips.take(k as int));
                assert(ips.take(k + 1).last() == iface.ipv4@[k as int]@);
                let ip = chars_of(iface.ipv4[k].as_str());
                let mut part = crate::text::copy_chars(name.as_slice());
                part.push('=');
                append_chars(&mut part, ip.as_slice());
                let star = match &s.primary_ip {
                    Some(p) => chars_eq(chars_of(p.as_str()).as_slice(), ip.as_slice()),
                    None => false,
                };
                if star {
                    part.push('*');
                }
                assert(part@ =~= name@ + seq!['='] + ip@ + if pv == Some(ip@) {
                    seq!['*']
                } else {
                    Seq::<char>::empty()
                });
                push_part(&mut out, &part, Ghost(ps));
                proof {
                    assert(before + ip_parts(name@, ips.take(k + 1), pv) =~= ps.push(part@));
                    ps = ps.push(part@);
                }
                k += 1;
            }
            assert(ips.take(iface.ipv4.len() as int) =~= ips);
        } else {
            assert(before + Seq::<Seq<char>>::empty() =~= before);
        }
        assert(ps == status_parts(lv.take(i + 1), pv));
        i += 1;
    }
    assert(lv.take(s.interfaces.len() as int) =~= lv);
    if out.len() == 0 {
        match &s.primary_ip {
            Some(p) => string_of(chars_of(p.as_str()).as_slice()),
            None => string_of(chars_of("n/a").as_slice()),
        }
    } else {
        string_of(out.as_slice())
    }
}

} // verus!
