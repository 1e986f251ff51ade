//! Driver-aware SoapySDR gain/antenna key checks.
//!
//! Does not invent dB limits (probe-dependent). It only rejects stage and antenna names
//! that belong to another SDR family — the failure mode that bricks RF open.
use vstd::prelude::*;
use crate::text::{
    append_chars, chars_eq, chars_of, contains, contains_exec, join_strs, join_with, lower,
    string_of, strs, to_lower, trim, trim_exec,
};

verus! {

/// Coarse SDR family inferred from `phy_io.soapysdr.device`.
#[derive(Debug, Clone, Copy, PartialEq, Eq, Structural)]
pub enum SoapyDriverFamily {
    Sxceiver,
    Lime,
    Pluto,
    Usrp,
    /// Unknown / empty device — do not invent stage rules.
    Unknown,
}

/// The family a (lower-cased) device argument names, tested in this order: empty,
/// `sx`/`sxceiver`, `lime`, `pluto`, `usrp`/`b200`/`b210`/`uhd`.
pub open spec fn spec_family(device: Seq<char>) -> SoapyDriverFamily {
    let d = lower(device);
    if d.len() == 0 {
        SoapyDriverFamily::Unknown
    } else if contains(d, "sx"@) || contains(d, "sxceiver"@) {
        SoapyDriverFamily::Sxceiver
    } else if contains(d, "lime"@) {
        SoapyDriverFamily::Lime
    } else if contains(d, "pluto"@) {
        SoapyDriverFamily::Pluto
    } else if contains(d, "usrp"@) || contains(d, "b200"@) || contains(d, "b210"@) || contains(d, "uhd"@) {
        SoapyDriverFamily::Usrp
    } else {
        SoapyDriverFamily::Unknown
    }
}

/// TX gain stages per family.
pub open spec fn spec_tx_stages(f: SoapyDriverFamily) -> Option<Seq<Seq<char>>> {
    match f {
        SoapyDriverFamily::Sxceiver => Some(seq!["dac"@, "mixer"@]),
        SoapyDriverFamily::Lime => Some(seq!["pad"@, "iamp"@]),
        SoapyDriverFamily::Pluto | SoapyDriverFamily::Usrp => Some(seq!["pga"@]),
        SoapyDriverFamily::Unknown => None,
    }
}

/// RX gain stages per family.
pub open spec fn spec_rx_stages(f: SoapyDriverFamily) -> Option<Seq<Seq<char>>> {
    match f {
        SoapyDriverFamily::Sxceiver => Some(seq!["lna"@, "pga"@]),
        SoapyDriverFamily::Lime => Some(seq!["lna"@, "tia"@, "pga"@]),
        SoapyDriverFamily::Pluto | SoapyDriverFamily::Usrp => Some(seq!["pga"@]),
        SoapyDriverFamily::Unknown => None,
    }
}

/// RX antennas per family.
pub open spec fn spec_rx_antennas(f: SoapyDriverFamily) -> Option<Seq<Seq<char>>> {
    match f {
        SoapyDriverFamily::Sxceiver => Some(seq!["RX"@]),
        SoapyDriverFamily::Lime => Some(seq!["LNAL"@, "LNAH"@, "LNAW"@]),
        SoapyDriverFamily::Pluto => Some(seq!["A_BALANCED"@, "A_N"@, "A_P"@]),
        SoapyDriverFamily::Usrp => Some(seq!["TX/RX"@, "RX2"@]),
        SoapyDriverFamily::Unknown => None,
    }
}

/// TX antennas per family.
pub open spec fn spec_tx_antennas(f: SoapyDriverFamily) -> Option<Seq<Seq<char>>> {
    match f {
        SoapyDriverFamily::Sxceiver => Some(seq!["TX"@]),
        SoapyDriverFamily::Lime => Some(seq!["BAND1"@, "BAND2"@]),
        SoapyDriverFamily::Pluto => Some(seq!["A"@]),
        SoapyDriverFamily::Usrp => Some(seq!["TX/RX"@]),
        SoapyDriverFamily::Unknown => None,
    }
}

/// Views of an optional static list.
pub open spec fn opt_strs(r: Option<&'static [&'static str]>) -> Option<Seq<Seq<char>>> {
    match r {
        Some(a) => Some(strs(a@)),
        None => None,
    }
}

impl SoapyDriverFamily {
    /// Infer the family from the `device=` argument string.
    pub fn from_device_arg(device: Option<&str>) -> (r: Self)
        ensures
            r == spec_family(match device {
                Some(d) => d@,
                None => Seq::empty(),
            }),
    {
        let raw = match device {
            Some(d) => chars_of(d),
            None => Vec::new(),
        };
        let d = to_lower(raw.as_slice());
        let d = d.as_slice();
        if d.len() == 0 {
            return SoapyDriverFamily::Unknown;
        }
        if contains_exec(d, chars_of("sx").as_slice()) || contains_exec(d, chars_of("sxceiver").as_slice()) {
            return SoapyDriverFamily::Sxceiver;
        }
        if contains_exec(d, chars_of("lime").as_slice()) {
            return SoapyDriverFamily::Lime;
        }
        if contains_exec(d, chars_of("pluto").as_slice()) {
            return SoapyDriverFamily::Pluto;
        }
        if contains_exec(d, chars_of("usrp").as_slice()) || contains_exec(d, chars_of("b200").as_slice())
            || contains_exec(d, chars_of("b210").as_slice()) || contains_exec(d, chars_of("uhd").as_slice()) {
            return SoapyDriverFamily::Usrp;
        }
        SoapyDriverFamily::Unknown
    }

    /// TX gain stage names this family accepts (`None`: no rule).
    pub fn allowed_tx_stages(self) -> (r: Option<&'static [&'static str]>)
        ensures
            opt_strs(r) == spec_tx_stages(self),
    {
        match self {
            SoapyDriverFamily::Sxceiver => Some(&["dac", "mixer"]),
            SoapyDriverFamily::Lime => Some(&["pad", "iamp"]),
            SoapyDriverFamily::Pluto | SoapyDriverFamily::Usrp => Some(&["pga"]),
            SoapyDriverFamily::Unknown => None,
        }
    }

    /// RX gain stage names this family accepts (`None`: no rule).
    pub fn allowed_rx_stages(self) -> (r: Option<&'static [&'static str]>)
        ensures
            opt_strs(r) == spec_rx_stages(self),
    {
        match self {
            SoapyDriverFamily::Sxceiver => Some(&["lna", "pga"]),
            SoapyDriverFamily::Lime => Some(&["lna", "tia", "pga"]),
            SoapyDriverFamily::Pluto | SoapyDriverFamily::Usrp => Some(&["pga"]),
            SoapyDriverFamily::Unknown => None,
        }
    }

    /// RX antenna names this family accepts (`None`: no rule).
    pub fn allowed_rx_antennas(self) -> (r: Option<&'static [&'static str]>)
        ensures
            opt_strs(r) == spec_rx_antennas(self),
    {
        match self {
            SoapyDriverFamily::Sxceiver => Some(&["RX"]),
            SoapyDriverFamily::Lime => Some(&["LNAL", "LNAH", "LNAW"]),
            SoapyDriverFamily::Pluto => Some(&["A_BALANCED", "A_N", "A_P"]),
            SoapyDriverFamily::Usrp => Some(&["TX/RX", "RX2"]),
            SoapyDriverFamily::Unknown => None,
        }
    }

    /// TX antenna names this family accepts (`None`: no rule).
    pub fn allowed_tx_antennas(self) -> (r: Option<&'static [&'static str]>)
        ensures
            opt_strs(r) == spec_tx_antennas(self),
    {
        match self {
            SoapyDriverFamily::Sxceiver => Some(&["TX"]),
            SoapyDriverFamily::Lime => Some(&["BAND1", "BAND2"]),
            SoapyDriverFamily::Pluto => Some(&["A"]),
            SoapyDriverFamily::Usrp => Some(&["TX/RX"]),
            SoapyDriverFamily::Unknown => None,
        }
    }
}

/// The SoapySDR keys the driver check reads: the device argument, the antenna names and
/// the names of the configured gain stages (their dB values play no part in the check).
#[derive(Debug, Clone)]
pub struct CfgSoapySdr {
    pub device: Option<String>,
    pub rx_ant: Option<String>,
    pub tx_ant: Option<String>,
    /// Names of the configured RX gain stages, in the map's iteration order.
    pub rx_gain_stages: Vec<String>,
    /// Names of the configured TX gain stages, in the map's iteration order.
    pub tx_gain_stages: Vec<String>,
}

/// `name` equals one of `allowed`, ASCII-case-insensitively.
pub open spec fn name_in(allowed: Seq<Seq<char>>, name: Seq<char>) -> bool {
    exists|i: int| 0 <= i < allowed.len() && lower(allowed[i]) == lower(name)
}

/// A stage name is allowed when it matches one of the family's stages ignoring case.
pub open spec fn stage_ok(allowed: Seq<Seq<char>>, name: Seq<char>) -> bool {
    name_in(allowed, lower(name))
}

/// An antenna is allowed when it is blank or matches one of the family's antennas
/// (trimmed, ignoring case).
pub open spec fn antenna_ok(allowed: Seq<Seq<char>>, name: Seq<char>) -> bool {
    trim(name).len() == 0 || name_in(allowed, trim(name))
}

/// Index of the first stage name that `allowed` rejects.
pub open spec fn first_bad_stage(allowed: Seq<Seq<char>>, names: Seq<Seq<char>>) -> Option<int> {
    if exists|i: int| 0 <= i < names.len() && !stage_ok(allowed, names[i]) {
        Some(choose|i: int| 0 <= i < names.len() && !stage_ok(allowed, names[i]) && forall|j: int|
            0 <= j < i ==> stage_ok(allowed, names[j]))
    } else {
        None
    }
}

/// The views of a vector of strings.
pub open spec fn string_views(v: Seq<String>) -> Seq<Seq<char>> {
    v.map_values(|s: String| s@)
}

/// The views of an optional string.
pub open spec fn opt_view(o: Option<String>) -> Option<Seq<char>> {
    match o {
        Some(s) => Some(s@),
        None => None,
    }
}

/// The device label used in messages.
pub open spec fn device_label(device: Option<Seq<char>>) -> Seq<char> {
    match device {
        Some(d) => d,
        None => "(no device=)"@,
    }
}

/// Message for a rejected gain stage (`kind` is `TX` or `RX`).
pub open spec fn stage_msg(kind: Seq<char>, stage: Seq<char>, label: Seq<char>, allowed: Seq<Seq<char>>) -> Seq<char> {
    kind + " gain stage '"@ + stage + "' is not valid for device '"@ + label + "' (allowed: "@
        + join_with(allowed, ", "@)
        + "). Clear the field or use Setup to pick the matching SDR."@
}

/// Message for a rejected antenna (`kind` is `TX` or `RX`).
pub open spec fn antenna_msg(kind: Seq<char>, ant: Seq<char>, label: Seq<char>, allowed: Seq<Seq<char>>) -> Seq<char> {
    kind + " antenna '"@ + ant + "' is not valid for device '"@ + label + "' (allowed: "@
        + join_with(allowed, ", "@) + ")."@
}

/// The outcome of the driver check: the first failing rule, in the order TX stages,
/// RX stages, RX antenna, TX antenna; `Ok` when none fails.
pub open spec fn spec_validate(
    device: Option<Seq<char>>,
    rx_ant: Option<Seq<char>>,
    tx_ant: Option<Seq<char>>,
    rx_stages: Seq<Seq<char>>,
    tx_stages: Seq<Seq<char>>,
) -> Result<(), Seq<char>> {
    let f = spec_family(device_label_or_empty(device));
    let label = device_label(device);
    if spec_tx_stages(f) is Some && first_bad_stage(spec_tx_stages(f)->0, tx_stages) is Some {
        Err(stage_msg("TX"@, tx_stages[first_bad_stage(spec_tx_stages(f)->0, tx_stages)->0], label, spec_tx_stages(f)->0))
    } else if spec_rx_stages(f) is Some && first_bad_stage(spec_rx_stages(f)->0, rx_stages) is Some {
        Err(stage_msg("RX"@, rx_stages[first_bad_stage(spec_rx_stages(f)->0, rx_stages)->0], label, spec_rx_stages(f)->0))
    } else if spec_rx_antennas(f) is Some && rx_ant is Some && !antenna_ok(spec_rx_antennas(f)->0, rx_ant->0) {
        Err(antenna_msg("RX"@, rx_ant->0, label, spec_rx_antennas(f)->0))
    } else if spec_tx_antennas(f) is Some && tx_ant is Some && !antenna_ok(spec_tx_antennas(f)->0, tx_ant->0) {
        Err(antenna_msg("TX"@, tx_ant->0, label, spec_tx_antennas(f)->0))
    } else {
        Ok(())
    }
}

/// The device text the family is inferred from (empty when absent).
pub open spec fn device_label_or_empty(device: Option<Seq<char>>) -> Seq<char> {
    match device {
        Some(d) => d,
        None => Seq::empty(),
    }
}

/// `name_in` for a static list and a lower-cased name.
fn name_in_exec(allowed: &[&str], lname: &[char]) -> (r: bool)
    ensures
        r == name_in(strs(allowed@), lname@),
{
    let mut i: usize = 0;
    while i < allowed.len()
        invariant
            i <= allowed.len(),
            forall|j: int| 0 <= j < i ==> lower(strs(allowed@)[j]) != lower(lname@),
        decreases allowed.len() - i,
    {
        let a = to_lower(chars_of(allowed[i]).as_slice());
        let n = to_lower(lname);
        if chars_eq(a.as_slice(), n.as_slice()) {
            assert(lower(strs(allowed@)[i as int]) == lower(lname@));
            return true;
        }
        i += 1;
    }
    false
}

/// Whether a gain stage name is accepted by `allowed`.
fn stage_allowed(allowed: &[&str], name: &str) -> (r: bool)
    ensures
        r == stage_ok(strs(allowed@), name@),
{
    let n = to_lower(chars_of(name).as_slice());
    name_in_exec(allowed, n.as_slice())
}

/// Whether an antenna name is accepted by `allowed` (blank names always are).
fn antenna_allowed(allowed: &[&str], name: &str) -> (r: bool)
    ensures
        r == antenna_ok(strs(allowed@), name@),
{
    let n = trim_exec(chars_of(name).as_slice());
    if n.len() == 0 {
        return true;
    }
    name_in_exec(allowed, n.as_slice())
}

/// The first rejected stage, if any.
fn find_bad_stage(allowed: &[&str], names: &Vec<String>) -> (r: Option<usize>)
    ensures
        match r {
            Some(i) => first_bad_stage(strs(allowed@), string_views(names@)) == Some(i as int),
            None => first_bad_stage(strs(allowed@), string_views(names@)) is None,
        },
        r matches Some(i) ==> i < names.len() && string_views(names@)[i as int] == names@[i as int]@,
{
    let ghost ns = string_views(names@);
    let mut i: usize = 0;
    while i < names.len()
        invariant
            i <= names.len(),
            ns == string_views(names@),
            forall|j: int| 0 <= j < i ==> stage_ok(strs(allowed@), #[trigger] ns[j]),
        decreases names.len() - i,
    {
        if !stage_allowed(allowed, names[i].as_str()) {
            assert(!stage_ok(strs(allowed@), ns[i as int]));
            let ghost w = choose|k: int| 0 <= k < ns.len() && !stage_ok(strs(allowed@), ns[k]) && forall|j: int|
                0 <= j < k ==> stage_ok(strs(allowed@), ns[j]);
            assert(w == i) by {
                if w < i {
                    assert(stage_ok(strs(allowed@), ns[w]));
                } else if w > i {
                    assert(stage_ok(strs(allowed@), ns[i as int]));
                }
            }
            return Some(i);
        }
        i += 1;
    }
    None
}

/// The stage rejection message.
fn stage_message(kind: &str, stage: &str, label: &str, allowed: &[&str]) -> (r: String)
    ensures
        r@ == stage_msg(kind@, stage@, label@, strs(allowed@)),
{
    let mut v = chars_of(kind);
    append_chars(&mut v, chars_of(" gain stage '").as_slice());
    append_chars(&mut v, chars_of(stage).as_slice());
    append_chars(&mut v, chars_of("' is not valid for device '").as_slice());
    append_chars(&mut v, chars_of(label).as_slice());
    append_chars(&mut v, chars_of("' (allowed: ").as_slice());
    append_chars(&mut v, join_strs(allowed, chars_of(", ").as_slice()).as_slice());
    append_chars(&mut v, chars_of("). Clear the field or use Setup to pick the matching SDR.").as_slice());
    string_of(v.as_slice())
}

/// The antenna rejection message.
fn antenna_message(kind: &str, ant: &str, label: &str, allowed: &[&str]) -> (r: String)
    ensures
        r@ == antenna_msg(kind@, ant@, label@, strs(allowed@)),
{
    let mut v = chars_of(kind);
    append_chars(&mut v, chars_of(" antenna '").as_slice());
    append_chars(&mut v, chars_of(ant).as_slice());
    append_chars(&mut v, chars_of("' is not valid for device '").as_slice());
    append_chars(&mut v, chars_of(label).as_slice());
    append_chars(&mut v, chars_of("' (allowed: ").as_slice());
    append_chars(&mut v, join_strs(allowed, chars_of(", ").as_slice()).as_slice());
    append_chars(&mut v, chars_of(").").as_slice());
    string_of(v.as_slice())
}

/// Reject gain/antenna keys that this device family cannot apply.
#[verifier::spinoff_prover]
#[verifier::rlimit(60)]
pub fn validate_soapysdr_driver_keys(cfg: &CfgSoapySdr) -> (r: Result<(), String>)
    ensures
        match r {
            Ok(()) => spec_validate(
                opt_view(cfg.device),
                opt_view(cfg.rx_ant),
                opt_view(cfg.tx_ant),
                string_views(cfg.rx_gain_stages@),
                string_views(cfg.tx_gain_stages@),
            ) == Ok::<(), Seq<char>>(()),
            Err(m) => spec_validate(
                opt_view(cfg.device),
                opt_view(cfg.rx_ant),
                opt_view(cfg.tx_ant),
                string_views(cfg.rx_gain_stages@),
                string_views(cfg.tx_gain_stages@),
            ) == Err::<(), Seq<char>>(m@),
        },
{
    let device: Option<&str> = match &cfg.device {
        Some(d) => Some(d.as_str()),
        None => None,
    };
    let family = SoapyDriverFamily::from_device_arg(device);
    let label: &str = match device {
        Some(d) => d,
        None => "(no device=)",
    };
    assert(label@ == device_label(opt_view(cfg.device)));
    assert(family == spec_family(device_label_or_empty(opt_view(cfg.device))));
    if let Some(allowed) = family.allowed_tx_stages() {
        if let Some(i) = find_bad_stage(allowed, &cfg.tx_gain_stages) {
            return Err(stage_message("TX", cfg.tx_gain_stages[i].as_str(), label, allowed));
        }
    }
    if let Some(allowed) = family.allowed_rx_stages() {
        if let Some(i) = find_bad_stage(allowed, &cfg.rx_gain_stages) {
            return Err(stage_message("RX", cfg.rx_gain_stages[i].as_str(), label, allowed));
        }
    }
    if let Some(allowed) = family.allowed_rx_antennas() {
        if let Some(ant) = &cfg.rx_ant {
            if !antenna_allowed(allowed, ant.as_str()) {
                return Err(antenna_message("RX", ant.as_str(), label, allowed));
            }
        }
    }
    if let Some(allowed) = family.allowed_tx_antennas() {
        if let Some(ant) = &cfg.tx_ant {
            if !antenna_allowed(allowed, ant.as_str()) {
                return Err(antenna_message("TX", ant.as_str(), label, allowed));
            }
        }
    }
    Ok(())
}

} // verus!
