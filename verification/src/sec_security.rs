//! Access control: the ISSI whitelist and how its mode is interpreted.
use vstd::prelude::*;
use crate::text::{append_chars, chars_eq, chars_of, dec, dec_chars, lower, string_of, to_lower, trim, trim_exec};

verus! {

/// How `issi_whitelist` is interpreted. A bare list cannot express "deny everyone": an
/// operator who empties the list to lock the cell down actually opens it under the legacy
/// semantics. This makes the posture explicit.
#[derive(Debug, Clone, Copy, PartialEq, Eq, Structural)]
pub enum WhitelistMode {
    /// No mode configured — legacy semantics: an empty list means "open network", a
    /// non-empty list is an allow-list.
    Auto,
    /// Access control off: every ISSI is allowed whatever the list holds.
    Open,
    /// The list is authoritative. An EMPTY list therefore means DENY-ALL.
    Enforce,
}

impl Default for WhitelistMode {
    fn default() -> (r: Self)
        ensures
            r == WhitelistMode::Auto,
    {
        WhitelistMode::Auto
    }
}

/// The mode a configured text names, matched ASCII-case-insensitively after trimming.
pub open spec fn spec_parse_mode(s: Seq<char>) -> Option<WhitelistMode> {
    let k = lower(trim(s));
    if k == "auto"@ {
        Some(WhitelistMode::Auto)
    } else if k == "open"@ || k == "off"@ || k == "disabled"@ {
        Some(WhitelistMode::Open)
    } else if k == "enforce"@ || k == "strict"@ {
        Some(WhitelistMode::Enforce)
    } else {
        None
    }
}

impl WhitelistMode {
    /// Parse a configured mode name (`auto`, `open`/`off`/`disabled`, `enforce`/`strict`).
    pub fn parse(s: &str) -> (r: Option<Self>)
        ensures
            r == spec_parse_mode(s@),
    {
        let k = to_lower(trim_exec(chars_of(s).as_slice()).as_slice());
        let k = k.as_slice();
        if chars_eq(k, chars_of("auto").as_slice()) {
            Some(WhitelistMode::Auto)
        } else if chars_eq(k, chars_of("open").as_slice()) || chars_eq(k, chars_of("off").as_slice())
            || chars_eq(k, chars_of("disabled").as_slice()) {
            Some(WhitelistMode::Open)
        } else if chars_eq(k, chars_of("enforce").as_slice()) || chars_eq(
            k,
            chars_of("strict").as_slice(),
        ) {
            Some(WhitelistMode::Enforce)
        } else {
            None
        }
    }
}

/// Default cap on the MM client registry.
pub const DEFAULT_MAX_REGISTERED_CLIENTS: usize = 2048;

/// Default accepted registrations per minute, per source ISSI.
pub const DEFAULT_REGISTRATION_RATE_LIMIT_PER_MIN: u32 = 30;

/// Access control / security configuration.
#[derive(Debug, Clone)]
pub struct CfgSecurity {
    /// ISSI whitelist. Interpretation depends on `whitelist_mode`.
    pub issi_whitelist: Vec<u32>,
    /// See [`WhitelistMode`].
    pub whitelist_mode: WhitelistMode,
    /// Honour an unauthenticated U-ITSI-DETACH / migrating location update as a teardown of
    /// the claimed ISSI.
    pub honour_unauthenticated_detach: bool,
    /// Hard cap on the MM client registry (0 = unlimited).
    pub max_registered_clients: usize,
    /// Accepted registrations per minute per source ISSI (0 = disabled).
    pub registration_rate_limit_per_min: u32,
}

impl Default for CfgSecurity {
    fn default() -> (r: Self)
        ensures
            r.issi_whitelist@ == Seq::<u32>::empty(),
            r.whitelist_mode == WhitelistMode::Auto,
            r.honour_unauthenticated_detach,
            r.max_registered_clients == DEFAULT_MAX_REGISTERED_CLIENTS,
            r.registration_rate_limit_per_min == DEFAULT_REGISTRATION_RATE_LIMIT_PER_MIN,
    {
        CfgSecurity {
            issi_whitelist: Vec::new(),
            whitelist_mode: WhitelistMode::Auto,
            honour_unauthenticated_detach: true,
            max_registered_clients: DEFAULT_MAX_REGISTERED_CLIENTS,
            registration_rate_limit_per_min: DEFAULT_REGISTRATION_RATE_LIMIT_PER_MIN,
        }
    }
}

/// The whitelist decision: `Open` admits everyone, `Auto` admits everyone on an empty
/// list and otherwise the listed ISSIs, `Enforce` admits exactly the listed ISSIs.
pub open spec fn spec_allows(mode: WhitelistMode, list: Seq<u32>, issi: u32) -> bool {
    match mode {
        WhitelistMode::Open => true,
        WhitelistMode::Auto => list.len() == 0 || list.contains(issi),
        WhitelistMode::Enforce => list.contains(issi),
    }
}

/// The posture line for a mode and list length.
pub open spec fn spec_posture(mode: WhitelistMode, n: nat) -> Seq<char> {
    match mode {
        WhitelistMode::Open => "OPEN — access control disabled (whitelist_mode = \"open\")"@,
        WhitelistMode::Auto => if n == 0 {
            "OPEN — no issi_whitelist configured; ANY ISSI may register (set whitelist_mode = \"enforce\" to lock down)"@
        } else {
            "ALLOW-LIST — "@ + dec(n) + " ISSI(s) may register"@
        },
        WhitelistMode::Enforce => if n == 0 {
            "DENY-ALL — whitelist_mode = \"enforce\" with an empty issi_whitelist"@
        } else {
            "ALLOW-LIST (enforced) — "@ + dec(n) + " ISSI(s) may register"@
        },
    }
}

/// `issi` is in `list`.
fn list_contains(list: &[u32], issi: u32) -> (r: bool)
    ensures
        r == list@.contains(issi),
{
    let mut i: usize = 0;
    while i < list.len()
        invariant
            i <= list.len(),
            forall|j: int| 0 <= j < i ==> list@[j] != issi,
        decreases list.len() - i,
    {
        if list[i] == issi {
            assert(list@[i as int] == issi);
            return true;
        }
        i += 1;
    }
    false
}

impl CfgSecurity {
    /// Returns true if the given ISSI is allowed to register.
    pub fn is_issi_allowed(&self, issi: u32) -> (r: bool)
        ensures
            r == spec_allows(self.whitelist_mode, self.issi_whitelist@, issi),
    {
        self.allows(issi, None)
    }

    /// Whitelist decision honouring an optional runtime (dashboard) override list, which
    /// replaces the configured list. The mode applies to whichever list is effective.
    pub fn allows(&self, issi: u32, override_list: Option<&[u32]>) -> (r: bool)
        ensures
            r == spec_allows(
                self.whitelist_mode,
                match override_list {
                    Some(l) => l@,
                    None => self.issi_whitelist@,
                },
                issi,
            ),
    {
        let list: &[u32] = match override_list {
            Some(l) => l,
            None => self.issi_whitelist.as_slice(),
        };
        match self.whitelist_mode {
            WhitelistMode::Open => true,
            WhitelistMode::Auto => list.len() == 0 || list_contains(list, issi),
            WhitelistMode::Enforce => list_contains(list, issi),
        }
    }

    /// One-line description of the effective access-control posture, for the startup log.
    pub fn access_control_posture(&self) -> (r: String)
        ensures
            r@ == spec_posture(self.whitelist_mode, self.issi_whitelist@.len()),
    {
        let n = self.issi_whitelist.len();
        match self.whitelist_mode {
            WhitelistMode::Open => string_of(
                chars_of("OPEN — access control disabled (whitelist_mode = \"open\")").as_slice(),
            ),
            WhitelistMode::Auto => if n == 0 {
                string_of(
                    chars_of(
                        "OPEN — no issi_whitelist configured; ANY ISSI may register (set whitelist_mode = \"enforce\" to lock down)",
                    ).as_slice(),
                )
            } else {
                let mut v = chars_of("ALLOW-LIST — ");
                append_chars(&mut v, dec_chars(n as u64).as_slice());
                append_chars(&mut v, chars_of(" ISSI(s) may register").as_slice());
                string_of(v.as_slice())
            },
            WhitelistMode::Enforce => if n == 0 {
                string_of(
                    chars_of(
                        "DENY-ALL — whitelist_mode = \"enforce\" with an empty issi_whitelist",
                    ).as_slice(),
                )
            } else {
                let mut v = chars_of("ALLOW-LIST (enforced) — ");
                append_chars(&mut v, dec_chars(n as u64).as_slice());
                append_chars(&mut v, chars_of(" ISSI(s) may register").as_slice());
                string_of(v.as_slice())
            },
        }
    }
}

/// The `[security]` table as read from TOML (every key optional).
#[derive(Debug, Clone)]
pub struct CfgSecurityDto {
    pub issi_whitelist: Vec<u32>,
    pub whitelist_mode: Option<String>,
    pub honour_unauthenticated_detach: Option<bool>,
    pub max_registered_clients: Option<usize>,
    pub registration_rate_limit_per_min: Option<u32>,
}

impl Default for CfgSecurityDto {
    fn default() -> (r: Self)
        ensures
            r.issi_whitelist@ == Seq::<u32>::empty(),
            r.whitelist_mode is None,
            r.honour_unauthenticated_detach is None,
            r.max_registered_clients is None,
            r.registration_rate_limit_per_min is None,
    {
        CfgSecurityDto {
            issi_whitelist: Vec::new(),
            whitelist_mode: None,
            honour_unauthenticated_detach: None,
            max_registered_clients: None,
            registration_rate_limit_per_min: None,
        }
    }
}

/// The mode a DTO selects: an unrecognised or absent name falls back to `Auto`.
pub open spec fn spec_dto_mode(m: Option<String>) -> WhitelistMode {
    match m {
        Some(s) => match spec_parse_mode(s@) {
            Some(mode) => mode,
            None => WhitelistMode::Auto,
        },
        None => WhitelistMode::Auto,
    }
}

/// Convert the TOML DTO into the stack configuration, filling defaults.
pub fn apply_security_patch(dto: CfgSecurityDto) -> (r: CfgSecurity)
    ensures
        r.issi_whitelist@ == dto.issi_whitelist@,
        r.whitelist_mode == spec_dto_mode(dto.whitelist_mode),
        r.honour_unauthenticated_detach == match dto.honour_unauthenticated_detach {
            Some(b) => b,
            None => true,
        },
        r.max_registered_clients == match dto.max_registered_clients {
            Some(n) => n,
            None => DEFAULT_MAX_REGISTERED_CLIENTS,
        },
        r.registration_rate_limit_per_min == match dto.registration_rate_limit_per_min {
            Some(n) => n,
            None => DEFAULT_REGISTRATION_RATE_LIMIT_PER_MIN,
        },
{
    let whitelist_mode = match &dto.whitelist_mode {
        Some(s) => match WhitelistMode::parse(s.as_str()) {
            Some(m) => m,
            None => WhitelistMode::Auto,
        },
        None => WhitelistMode::Auto,
    };
    CfgSecurity {
        issi_whitelist: dto.issi_whitelist,
        whitelist_mode,
        honour_unauthenticated_detach: match dto.honour_unauthenticated_detach {
            Some(b) => b,
            None => true,
        },
        max_registered_clients: match dto.max_registered_clients {
            Some(n) => n,
            None => DEFAULT_MAX_REGISTERED_CLIENTS,
        },
        registration_rate_limit_per_min: match dto.registration_rate_limit_per_min {
            Some(n) => n,
            None => DEFAULT_REGISTRATION_RATE_LIMIT_PER_MIN,
        },
    }
}

/// Law: an empty list under `Enforce` denies every ISSI, `Open` admits every ISSI
/// whatever the list, and under `Auto` an empty list admits every ISSI.
pub proof fn lemma_whitelist_postures(list: Seq<u32>, issi: u32)
    ensures
        list.len() == 0 ==> !spec_allows(WhitelistMode::Enforce, list, issi),
        list.len() == 0 ==> spec_allows(WhitelistMode::Auto, list, issi),
        spec_allows(WhitelistMode::Open, list, issi),
        list.contains(issi) ==> spec_allows(WhitelistMode::Enforce, list, issi) && spec_allows(
            WhitelistMode::Auto,
            list,
            issi,
        ),
        list.len() > 0 ==> (spec_allows(WhitelistMode::Auto, list, issi) == spec_allows(
            WhitelistMode::Enforce,
            list,
            issi,
        )),
{
}

} // verus!
