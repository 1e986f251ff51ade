//! Local Site Trunking (LST) web dispatch console configuration.
use vstd::prelude::*;

verus! {

/// LST dispatch console: cell-local operator, never Brew.
#[derive(Debug, Clone, Copy, PartialEq, Eq, Structural)]
pub struct CfgLstDispatch {
    /// When true, start the dispatch entity (requires no Brew).
    pub enabled: bool,
    /// Synthetic operator ISSI shown on the air as the dispatcher.
    pub operator_issi: u32,
    /// Optional default GSSI to preselect in the UI (0 = none).
    pub default_gssi: u32,
}

impl Default for CfgLstDispatch {
    fn default() -> (r: Self)
        ensures
            !r.enabled,
            r.operator_issi == 9_990_001,
            r.default_gssi == 0,
    {
        CfgLstDispatch { enabled: false, operator_issi: 9_990_001, default_gssi: 0 }
    }
}

/// The `[lst_dispatch]` table as read from TOML.
#[derive(Debug, Clone, Copy, PartialEq, Eq, Structural)]
pub struct CfgLstDispatchDto {
    pub enabled: bool,
    pub operator_issi: u32,
    pub default_gssi: u32,
}

/// Default dispatcher ISSI.
pub fn default_operator_issi() -> (r: u32)
    ensures
        r == 9_990_001,
{
    9_990_001
}

impl Default for CfgLstDispatchDto {
    fn default() -> (r: Self)
        ensures
            !r.enabled,
            r.operator_issi == 9_990_001,
            r.default_gssi == 0,
    {
        CfgLstDispatchDto { enabled: false, operator_issi: default_operator_issi(), default_gssi: 0 }
    }
}

/// `v` clamped into `1..=16_777_214`.
pub open spec fn clamp_issi(v: u32) -> u32 {
    if v < 1 { 1 } else if v > 16_777_214 { 16_777_214 } else { v }
}

/// Convert the DTO: the operator ISSI is clamped into `1..=16_777_214`, a non-zero default
/// GSSI likewise, and 0 stays "no default".
pub fn apply_lst_dispatch_patch(dto: CfgLstDispatchDto) -> (r: CfgLstDispatch)
    ensures
        r.enabled == dto.enabled,
        r.operator_issi == clamp_issi(dto.operator_issi),
        r.default_gssi == if dto.default_gssi == 0 { 0 } else { clamp_issi(dto.default_gssi) },
{
    let op = if dto.operator_issi < 1 { 1 } else if dto.operator_issi > 16_777_214 { 16_777_214 } else { dto.operator_issi };
    let g = if dto.default_gssi == 0 {
        0
    } else if dto.default_gssi > 16_777_214 {
        16_777_214
    } else {
        dto.default_gssi
    };
    CfgLstDispatch { enabled: dto.enabled, operator_issi: op, default_gssi: g }
}

} // verus!
