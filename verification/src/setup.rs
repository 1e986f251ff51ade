//! First-run / setup wizard: persisted state, and the decisions around the privileged
//! helper (`bost-setup-helper.sh`) and `systemctl`.
//!
//! The dashboard never runs free-form shell: the caller runs exactly the helper arguments
//! decided here and hands back what the helper printed.
use vstd::prelude::*;
use crate::text::{append_chars, chars_eq, chars_of, lower, string_of, to_lower, trim, trim_exec};
use crate::update_check::opt_view;

verus! {

/// `setup.json`, next to `config.toml`.
#[derive(Debug, Clone, Copy, PartialEq, Eq, Structural)]
pub struct SetupState {
    pub setup_complete: bool,
    pub skipped: bool,
    pub completed_at: Option<u64>,
    pub skipped_at: Option<u64>,
    pub version: u32,
}

impl Default for SetupState {
    fn default() -> (r: Self)
        ensures
            r == (SetupState {
                setup_complete: false,
                skipped: false,
                completed_at: None,
                skipped_at: None,
                version: 1,
            }),
    {
        SetupState { setup_complete: false, skipped: false, completed_at: None, skipped_at: None, version: 1 }
    }
}

/// Record that the wizard was finished (or skipped) at `now` (Unix seconds): the setup
/// counts as complete either way, and the matching timestamp is set.
pub fn mark_complete(state: SetupState, skipped: bool, now: u64) -> (r: SetupState)
    ensures
        r.setup_complete,
        r.skipped == skipped,
        r.version == state.version,
        skipped ==> r.skipped_at == Some(now) && r.completed_at == state.completed_at,
        !skipped ==> r.completed_at == Some(now) && r.skipped_at == state.skipped_at,
{
    let mut s = state;
    s.setup_complete = true;
    s.skipped = skipped;
    if skipped {
        s.skipped_at = Some(now);
    } else {
        s.completed_at = Some(now);
    }
    s
}

/// `Path::parent` of a path given as text.
pub uninterp spec fn path_parent_of(p: Seq<char>) -> Option<Seq<char>>;

/// `Path::join` of two paths given as text, as it is on Unix: an absolute `name` replaces
/// `base`; otherwise a `/` separates them unless `base` is empty or already ends with one.
pub open spec fn path_joined(base: Seq<char>, name: Seq<char>) -> Seq<char> {
    if name.len() > 0 && name[0] == '/' {
        name
    } else if base.len() > 0 && base.last() != '/' {
        base + seq!['/'] + name
    } else {
        base + name
    }
}

/// `std::path::Path::parent`: the path without its final component, `None` for a root
/// or an empty path. The result is named, not described.
#[verifier::external_body]
fn path_parent(p: &str) -> (r: Option<String>)
    ensures
        opt_view(r) == path_parent_of(p@),
{
    std::path::Path::new(p).parent().map(|q| q.to_string_lossy().into_owned())
}

/// `std::path::Path::join` (Unix rules, see [`path_joined`]): `name` appended to `base`
/// with a separator, or `name` alone when it is absolute.
#[verifier::external_body]
fn path_join(base: &str, name: &str) -> (r: String)
    ensures
        r@ == path_joined(base@, name@),
{
    std::path::Path::new(base).join(name).to_string_lossy().into_owned()
}

/// Where `setup.json` is kept: in the directory of the config file (`.` when the path
/// has no parent).
pub open spec fn spec_setup_json_path(config_path: Seq<char>) -> Seq<char> {
    path_joined(
        match path_parent_of(config_path) {
            Some(d) => d,
            None => "."@,
        },
        "setup.json"@,
    )
}

/// Path of `setup.json` for a config file.
pub fn setup_json_path(config_path: &str) -> (r: String)
    ensures
        r@ == spec_setup_json_path(config_path@),
{
    let dir = match path_parent(config_path) {
        Some(d) => d,
        None => string_of(chars_of(".").as_slice()),
    };
    path_join(dir.as_str(), "setup.json")
}

/// A supported SDR driver, by its trimmed, lower-cased name.
pub open spec fn spec_driver(driver: Seq<char>) -> Option<Seq<char>> {
    let d = lower(trim(driver));
    if d == "sx"@ || d == "lime"@ {
        Some(d)
    } else {
        None
    }
}

/// The helper arguments that install a driver (`install-driver sx` or `install-driver
/// lime`), or why the driver is refused.
pub fn install_driver(driver: &str) -> (r: Result<Vec<String>, String>)
    ensures
        match spec_driver(driver@) {
            Some(d) => r matches Ok(args) && args@.len() == 2 && args@[0]@ == "install-driver"@
                && args@[1]@ == d,
            None => r matches Err(m) && m@ == "unsupported driver (use sx or lime)"@,
        },
{
    let d = to_lower(trim_exec(chars_of(driver).as_slice()).as_slice());
    if chars_eq(d.as_slice(), chars_of("sx").as_slice()) || chars_eq(d.as_slice(), chars_of("lime").as_slice()) {
        let mut args: Vec<String> = Vec::new();
        args.push(string_of(chars_of("install-driver").as_slice()));
        args.push(string_of(d.as_slice()));
        Ok(args)
    } else {
        Err(string_of(chars_of("unsupported driver (use sx or lime)").as_slice()))
    }
}

/// What the wizard may ask of the service.
#[derive(Debug, Clone, Copy, PartialEq, Eq, Structural)]
pub enum SystemdAction {
    Enable,
    Restart,
    Status,
}

/// The service action a request names (trimmed, lower-cased).
pub open spec fn spec_systemd_action(action: Seq<char>) -> Option<SystemdAction> {
    let a = lower(trim(action));
    if a == "enable"@ || a == "enable-service"@ {
        Some(SystemdAction::Enable)
    } else if a == "restart"@ || a == "restart-service"@ {
        Some(SystemdAction::Restart)
    } else if a == "status"@ {
        Some(SystemdAction::Status)
    } else {
        None
    }
}

/// The service action a request names, or why it is refused.
pub fn parse_systemd_action(action: &str) -> (r: Result<SystemdAction, String>)
    ensures
        match spec_systemd_action(action@) {
            Some(a) => r == Ok::<SystemdAction, String>(a),
            None => r matches Err(m) && m@ == "unsupported systemd action (enable|restart|status)"@,
        },
{
    let a = to_lower(trim_exec(chars_of(action).as_slice()).as_slice());
    let a = a.as_slice();
    if chars_eq(a, chars_of("enable").as_slice()) || chars_eq(a, chars_of("enable-service").as_slice()) {
        Ok(SystemdAction::Enable)
    } else if chars_eq(a, chars_of("restart").as_slice()) || chars_eq(a, chars_of("restart-service").as_slice()) {
        Ok(SystemdAction::Restart)
    } else if chars_eq(a, chars_of("status").as_slice()) {
        Ok(SystemdAction::Status)
    } else {
        Err(string_of(chars_of("unsupported systemd action (enable|restart|status)").as_slice()))
    }
}

/// What a finished helper run means: on success its output (or, when that is empty, its
/// error output); on failure its error output, else its output, else `helper exited
/// <status>`. Both outputs are trimmed.
pub open spec fn spec_helper_result(success: bool, stdout: Seq<char>, stderr: Seq<char>, status: Seq<char>) -> Result<
    Seq<char>,
    Seq<char>,
> {
    let out = trim(stdout);
    let err = trim(stderr);
    if success {
        Ok(if out.len() > 0 {
            out
        } else {
            err
        })
    } else if err.len() > 0 {
        Err(err)
    } else if out.len() > 0 {
        Err(out)
    } else {
        Err("helper exited "@ + status)
    }
}

/// The result of a finished helper run (see [`spec_helper_result`]); `status` is the exit
/// status as printed.
pub fn helper_result(success: bool, stdout: &str, stderr: &str, status: &str) -> (r: Result<String, String>)
    ensures
        match spec_helper_result(success, stdout@, stderr@, status@) {
            Ok(o) => r matches Ok(s) && s@ == o,
            Err(e) => r matches Err(s) && s@ == e,
        },
{
    let out = trim_exec(chars_of(stdout).as_slice());
    let err = trim_exec(chars_of(stderr).as_slice());
    if success {
        if out.len() > 0 {
            Ok(string_of(out.as_slice()))
        } else {
            Ok(string_of(err.as_slice()))
        }
    } else if err.len() > 0 {
        Err(string_of(err.as_slice()))
    } else if out.len() > 0 {
        Err(string_of(out.as_slice()))
    } else {
        let mut m = chars_of("helper exited ");
        append_chars(&mut m, chars_of(status).as_slice());
        Err(string_of(m.as_slice()))
    }
}

} // verus!
