//! Brew protocol (TetraPack/BrandMeister) backhaul configuration.
use vstd::prelude::*;
use crate::text::{chars_of, dec, dec_chars, string_of};

verus! {

/// Brew backhaul configuration as the stack uses it.
#[derive(Debug, Clone)]
pub struct CfgBrew {
    /// TetraPack server hostname or IP.
    pub host: String,
    /// TetraPack server port.
    pub port: u16,
    /// Use TLS (wss:// / https://).
    pub tls: bool,
    /// Optional username for HTTP Digest auth.
    pub username: Option<String>,
    /// Optional password for HTTP Digest auth.
    pub password: Option<String>,
    /// Reconnection delay in seconds.
    pub reconnect_delay_secs: u64,
    /// Extra initial jitter playout delay in frames.
    pub jitter_initial_latency_frames: u8,
    /// SDS between local and Brew clients is enabled.
    pub feature_sds_enabled: bool,
    /// RSSI measurements are exported to the Brew server.
    pub feature_rssi_export: bool,
    /// UL LIP SDS is re-forwarded to Brew at `lip_forward_issi`.
    pub feature_lip_forward: bool,
    /// Brew destination ISSI for sniffed LIP reports (a valid 24-bit ISSI or none).
    pub lip_forward_issi: Option<u32>,
    /// If present, restrict Brew call to these remote SSIs.
    pub whitelisted_ssis: Option<Vec<u32>>,
    /// PBX gateway ISSIs routable over Brew.
    pub pbx_gateway_issis: Option<Vec<u32>>,
    /// Seconds the transport must stay down before site-trunking is advertised (0..=60).
    pub backhaul_hysteresis_secs: u64,
}

/// The `[brew]` table as read from TOML.
#[derive(Debug, Clone)]
pub struct CfgBrewDto {
    pub host: String,
    pub port: u16,
    pub tls: bool,
    pub username: u32,
    pub password: String,
    pub reconnect_delay_secs: u64,
    pub jitter_initial_latency_frames: u8,
    pub whitelisted_ssis: Option<Vec<u32>>,
    pub feature_sds_enabled: bool,
    pub feature_rssi_export: bool,
    pub feature_lip_forward: bool,
    pub lip_forward_issi: Option<u32>,
    pub pbx_gateway_issis: Option<Vec<u32>>,
    pub backhaul_hysteresis_secs: u64,
}

/// Default Brew server port.
pub fn default_brew_port() -> (r: u16)
    ensures
        r == 443,
{
    443
}

/// Default reconnection delay in seconds.
pub fn default_brew_reconnect_delay() -> (r: u64)
    ensures
        r == 15,
{
    15
}

/// SDS forwarding is on unless configured otherwise.
pub fn default_brew_feature_sds_enabled() -> (r: bool)
    ensures
        r,
{
    true
}

/// Default backhaul hysteresis in seconds.
pub fn default_brew_backhaul_hysteresis_secs() -> (r: u64)
    ensures
        r == 3,
{
    3
}

impl CfgBrewDto {
    /// A DTO holding the mandatory keys and the defaults of every optional one.
    pub fn with_required(host: String, tls: bool, username: u32, password: String) -> (r: Self)
        ensures
            r.host == host,
            r.tls == tls,
            r.username == username,
            r.password == password,
            r.port == 443,
            r.reconnect_delay_secs == 15,
            r.jitter_initial_latency_frames == 0,
            r.whitelisted_ssis is None,
            r.feature_sds_enabled,
            !r.feature_rssi_export,
            !r.feature_lip_forward,
            r.lip_forward_issi is None,
            r.pbx_gateway_issis is None,
            r.backhaul_hysteresis_secs == 3,
    {
        CfgBrewDto {
            host,
            port: default_brew_port(),
            tls,
            username,
            password,
            reconnect_delay_secs: default_brew_reconnect_delay(),
            jitter_initial_latency_frames: 0,
            whitelisted_ssis: None,
            feature_sds_enabled: default_brew_feature_sds_enabled(),
            feature_rssi_export: false,
            feature_lip_forward: false,
            lip_forward_issi: None,
            pbx_gateway_issis: None,
            backhaul_hysteresis_secs: default_brew_backhaul_hysteresis_secs(),
        }
    }
}

/// A LIP forward target is kept only when it is a valid 24-bit ISSI (`1..=0xFFFFFF`).
pub open spec fn spec_lip_target(i: Option<u32>) -> Option<u32> {
    match i {
        Some(n) => if 0 < n && n <= 0xFF_FFFF { Some(n) } else { None },
        None => None,
    }
}

/// Convert a CfgBrewDto (from TOML) into a CfgBrew (used in the stack config).
pub fn apply_brew_patch(src: CfgBrewDto) -> (r: CfgBrew)
    ensures
        r.host == src.host,
        r.port == src.port,
        r.tls == src.tls,
        r.username matches Some(u) && u@ == dec(src.username as nat),
        r.password == Some(src.password),
        r.reconnect_delay_secs == src.reconnect_delay_secs,
        r.jitter_initial_latency_frames == src.jitter_initial_latency_frames,
        r.feature_sds_enabled == src.feature_sds_enabled,
        r.feature_rssi_export == src.feature_rssi_export,
        r.feature_lip_forward == src.feature_lip_forward,
        r.lip_forward_issi == spec_lip_target(src.lip_forward_issi),
        r.whitelisted_ssis == src.whitelisted_ssis,
        r.pbx_gateway_issis == src.pbx_gateway_issis,
        r.backhaul_hysteresis_secs == if src.backhaul_hysteresis_secs > 60 { 60 } else { src.backhaul_hysteresis_secs },
{
    let username = string_of(dec_chars(src.username as u64).as_slice());
    let lip = match src.lip_forward_issi {
        Some(n) => if 0 < n && n <= 0xFF_FFFF { Some(n) } else { None },
        None => None,
    };
    CfgBrew {
        host: src.host,
        port: src.port,
        tls: src.tls,
        username: Some(username),
        password: Some(src.password),
        reconnect_delay_secs: src.reconnect_delay_secs,
        jitter_initial_latency_frames: src.jitter_initial_latency_frames,
        feature_sds_enabled: src.feature_sds_enabled,
        feature_rssi_export: src.feature_rssi_export,
        feature_lip_forward: src.feature_lip_forward,
        lip_forward_issi: lip,
        whitelisted_ssis: src.whitelisted_ssis,
        pbx_gateway_issis: src.pbx_gateway_issis,
        backhaul_hysteresis_secs: if src.backhaul_hysteresis_secs > 60 { 60 } else { src.backhaul_hysteresis_secs },
    }
}

} // verus!
