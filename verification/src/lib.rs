//! Verified core logic of a software-defined TETRA base station.
use vstd::prelude::*;

pub mod text;
pub mod toml_lines;
pub mod core_info;
pub mod ota_channel;
pub mod dual_carrier;
pub mod dashboard_ports;
pub mod dashboard_auth;
pub mod sec_security;
pub mod soapy_driver;
pub mod sec_brew;
pub mod sec_lst_dispatch;
pub mod sec_dashboard;
pub mod framing;
pub mod bits;
pub mod group_deassignment;
pub mod granting_delay;
pub mod update_check;
pub mod rf_status;
pub mod host_network;
pub mod message_queue;
pub mod sds_commands;
pub mod json;
pub mod setup;
pub mod lst_dispatch;
pub mod lst_session;
pub mod lst_shared;
pub mod lst_media;
pub mod health;
pub mod transport;
pub mod profiles;
pub mod dashboard_tls;
pub mod telemetry;

pub use core_info::{normalize_ota_channel, ota_branch_for_channel, is_product_repo_url};

verus! {
} // verus!
