//! Dashboard HTTP / HTTPS server configuration.
use vstd::prelude::*;
use crate::text::{append_chars, chars_eq, chars_of, lower, string_of, to_lower, trim, trim_exec};

verus! {

/// Dashboard server configuration. Canonical access is HTTPS on `https_port`; `port` is a
/// cleartext listener that only redirects to HTTPS.
#[derive(Debug, Clone)]
pub struct CfgDashboard {
    pub port: u16,
    pub https_port: u16,
    pub bind: String,
    pub source_dir: Option<String>,
    pub ota_channel: String,
    pub username: Option<String>,
    pub password: Option<String>,
    pub public_overview: bool,
    pub show_dgna_attachment_mode_picker: bool,
}

impl Default for CfgDashboard {
    fn default() -> (r: Self)
        ensures
            r.port == 80,
            r.https_port == 443,
            r.bind@ == "0.0.0.0"@,
            r.source_dir is None,
            r.ota_channel@ == "stable"@,
            r.username is None,
            r.password is None,
            !r.public_overview,
            !r.show_dgna_attachment_mode_picker,
    {
        CfgDashboard {
            port: 80,
            https_port: 443,
            bind: string_of(chars_of("0.0.0.0").as_slice()),
            source_dir: None,
            ota_channel: string_of(chars_of("stable").as_slice()),
            username: None,
            password: None,
            public_overview: false,
            show_dgna_attachment_mode_picker: false,
        }
    }
}

/// The `[dashboard]` table as read from TOML.
#[derive(Debug, Clone)]
pub struct CfgDashboardDto {
    pub port: u16,
    pub https_port: u16,
    pub bind: String,
    pub source_dir: Option<String>,
    pub ota_channel: String,
    pub username: Option<String>,
    pub password: Option<String>,
    pub public_overview: bool,
    pub show_dgna_attachment_mode_picker: bool,
}

/// Default cleartext port.
pub fn default_port() -> (r: u16)
    ensures
        r == 80,
{
    80
}

/// Default HTTPS port.
pub fn default_https_port() -> (r: u16)
    ensures
        r == 443,
{
    443
}

/// Default bind address: all interfaces.
pub fn default_bind() -> (r: String)
    ensures
        r@ == "0.0.0.0"@,
{
    string_of(chars_of("0.0.0.0").as_slice())
}

/// Default OTA channel.
pub fn default_ota_channel() -> (r: String)
    ensures
        r@ == "stable"@,
{
    string_of(chars_of("stable").as_slice())
}

/// What the configured `source_dir` path is on disk.
#[derive(Debug, Clone, Copy, PartialEq, Eq, Structural)]
pub enum PathKind {
    Directory,
    NotDirectory,
    Missing,
}

/// The first configuration error, if any, in the order the checks run.
pub open spec fn spec_dashboard_error(
    port: u16,
    https_port: u16,
    source_dir: Option<Seq<char>>,
    kind: PathKind,
    username: Option<Seq<char>>,
    password: Option<Seq<char>>,
    ota: Seq<char>,
) -> Option<Seq<char>> {
    let o = lower(trim(ota));
    if port == 0 {
        Some("dashboard: port cannot be 0"@)
    } else if https_port == 0 {
        Some("dashboard: https_port cannot be 0"@)
    } else if port == https_port {
        Some("dashboard: port and https_port must differ"@)
    } else if source_dir is Some && trim(source_dir->0).len() == 0 {
        Some("dashboard: source_dir cannot be empty (omit the field instead)"@)
    } else if source_dir is Some && kind == PathKind::Missing {
        Some("dashboard: source_dir '"@ + source_dir->0 + "' does not exist"@)
    } else if source_dir is Some && kind == PathKind::NotDirectory {
        Some("dashboard: source_dir '"@ + source_dir->0 + "' is not a directory"@)
    } else if username is Some && password is Some && trim(username->0).len() == 0 {
        Some("dashboard: username cannot be empty"@)
    } else if username is Some && password is Some && password->0.len() == 0 {
        Some("dashboard: password cannot be empty"@)
    } else if username is Some != password is Some {
        Some("dashboard: set both 'username' and 'password', or neither"@)
    } else if o != "stable"@ && o != "beta"@ && o.len() != 0 {
        Some("dashboard: ota_channel must be \"stable\" or \"beta\" (got '"@ + o + "')"@)
    } else {
        None
    }
}

/// The channel a valid `ota_channel` value selects (empty means `stable`).
pub open spec fn spec_dashboard_channel(ota: Seq<char>) -> Seq<char> {
    if lower(trim(ota)).len() == 0 {
        "stable"@
    } else {
        lower(trim(ota))
    }
}

/// The view of an optional string.
pub open spec fn ov(o: Option<String>) -> Option<Seq<char>> {
    match o {
        Some(s) => Some(s@),
        None => None,
    }
}

/// `String` from text.
fn owned(s: &str) -> (r: String)
    ensures
        r@ == s@,
{
    string_of(chars_of(s).as_slice())
}

/// Validate the DTO and build the dashboard configuration. `source_dir_kind` is what the
/// configured `source_dir` is on disk (ignored when no `source_dir` is set).
pub fn apply_dashboard_patch(src: CfgDashboardDto, source_dir_kind: PathKind) -> (r: Result<CfgDashboard, String>)
    ensures
        match r {
            Err(m) => spec_dashboard_error(
                src.port,
                src.https_port,
                ov(src.source_dir),
                source_dir_kind,
                ov(src.username),
                ov(src.password),
                src.ota_channel@,
            ) == Some(m@),
            Ok(c) => {
                &&& spec_dashboard_error(
                    src.port,
                    src.https_port,
                    ov(src.source_dir),
                    source_dir_kind,
                    ov(src.username),
                    ov(src.password),
                    src.ota_channel@,
                ) is None
                &&& c.port == src.port
                &&& c.https_port == src.https_port
                &&& c.bind == src.bind
                &&& c.source_dir == src.source_dir
                &&& c.ota_channel@ == spec_dashboard_channel(src.ota_channel@)
                &&& c.username == src.username
                &&& c.password == src.password
                &&& c.public_overview == src.public_overview
                &&& c.show_dgna_attachment_mode_picker == src.show_dgna_attachment_mode_picker
            },
        },
{
    if src.port == 0 {
        return Err(owned("dashboard: port cannot be 0"));
    }
    if src.https_port == 0 {
        return Err(owned("dashboard: https_port cannot be 0"));
    }
    if src.port == src.https_port {
        return Err(owned("dashboard: port and https_port must differ"));
    }
    if let Some(sd) = &src.source_dir {
        if trim_exec(chars_of(sd.as_str()).as_slice()).len() == 0 {
            return Err(owned("dashboard: source_dir cannot be empty (omit the field instead)"));
        }
        match source_dir_kind {
            PathKind::Missing => {
                let mut v = chars_of("dashboard: source_dir '");
                append_chars(&mut v, chars_of(sd.as_str()).as_slice());
                append_chars(&mut v, chars_of("' does not exist").as_slice());
                return Err(string_of(v.as_slice()));
            },
            PathKind::NotDirectory => {
                let mut v = chars_of("dashboard: source_dir '");
                append_chars(&mut v, chars_of(sd.as_str()).as_slice());
                append_chars(&mut v, chars_of("' is not a directory").as_slice());
                return Err(string_of(v.as_slice()));
            },
            PathKind::Directory => {},
        }
    }
    match (&src.username, &src.password) {
        (Some(u), Some(p)) => {
            if trim_exec(chars_of(u.as_str()).as_slice()).len() == 0 {
                return Err(owned("dashboard: username cannot be empty"));
            }
            if chars_of(p.as_str()).len() == 0 {
                return Err(owned("dashboard: password cannot be empty"));
            }
        },
        (None, None) => {},
        _ => {
            return Err(owned("dashboard: set both 'username' and 'password', or neither"));
        },
    }
    let o = to_lower(trim_exec(chars_of(src.ota_channel.as_str()).as_slice()).as_slice());
    let ota_channel = if chars_eq(o.as_slice(), chars_of("stable").as_slice()) || chars_eq(
        o.as_slice(),
        chars_of("beta").as_slice(),
    ) {
        string_of(o.as_slice())
    } else if o.len() == 0 {
        owned("stable")
    } else {
        let mut v = chars_of("dashboard: ota_channel must be \"stable\" or \"beta\" (got '");
        append_chars(&mut v, o.as_slice());
        append_chars(&mut v, chars_of("')").as_slice());
        return Err(string_of(v.as_slice()));
    };
    proof {
        reveal_strlit("stable");
        reveal_strlit("beta");
    }
    assert(spec_dashboard_error(
        src.port,
        src.https_port,
        ov(src.source_dir),
        source_dir_kind,
        ov(src.username),
        ov(src.password),
        src.ota_channel@,
    ) is None);
    Ok(CfgDashboard {
        port: src.port,
        https_port: src.https_port,
        bind: src.bind,
        source_dir: src.source_dir,
        ota_channel,
        username: src.username,
        password: src.password,
        public_overview: src.public_overview,
        show_dgna_attachment_mode_picker: src.show_dgna_attachment_mode_picker,
    })
}

} // verus!
