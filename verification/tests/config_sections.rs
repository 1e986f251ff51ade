use flowstation::sec_brew::{apply_brew_patch, CfgBrewDto};
use flowstation::sec_lst_dispatch::{apply_lst_dispatch_patch, CfgLstDispatchDto};
use flowstation::sec_security::{CfgSecurity, WhitelistMode};
use flowstation::soapy_driver::{validate_soapysdr_driver_keys, CfgSoapySdr, SoapyDriverFamily};

fn soapy(device: &str, tx: &[&str], rx: &[&str]) -> CfgSoapySdr {
    CfgSoapySdr {
        device: Some(device.into()),
        rx_ant: None,
        tx_ant: None,
        rx_gain_stages: rx.iter().map(|k| k.to_string()).collect(),
        tx_gain_stages: tx.iter().map(|k| k.to_string()).collect(),
    }
}

#[test]
fn empty_whitelist_semantics_depend_on_mode() {
    let mut cfg = CfgSecurity::default();
    assert!(cfg.is_issi_allowed(1234), "empty list under auto = open network");

    cfg.whitelist_mode = WhitelistMode::Enforce;
    assert!(!cfg.is_issi_allowed(1234), "empty list under enforce = deny-all");

    cfg.issi_whitelist = vec![1234];
    assert!(cfg.is_issi_allowed(1234));
    assert!(!cfg.is_issi_allowed(5678));

    cfg.whitelist_mode = WhitelistMode::Open;
    assert!(cfg.is_issi_allowed(5678), "open ignores the list entirely");
}

#[test]
fn override_list_follows_the_configured_mode() {
    let mut cfg = CfgSecurity::default();
    cfg.issi_whitelist = vec![1];
    assert!(cfg.allows(2, Some(&[2])), "override list is authoritative");
    assert!(!cfg.allows(1, Some(&[2])), "config list is ignored when overridden");
    assert!(cfg.allows(9, Some(&[])), "empty override under auto = open");

    cfg.whitelist_mode = WhitelistMode::Enforce;
    assert!(!cfg.allows(9, Some(&[])), "empty override under enforce = deny-all");
}

#[test]
fn sx_rejects_pad() {
    let cfg = soapy("driver=sx", &["pad"], &[]);
    let err = validate_soapysdr_driver_keys(&cfg).unwrap_err();
    assert!(err.contains("pad"), "{err}");
}

#[test]
fn sx_accepts_dac() {
    let cfg = soapy("driver=sx", &["dac"], &["lna"]);
    validate_soapysdr_driver_keys(&cfg).unwrap();
}

#[test]
fn lime_accepts_pad() {
    let cfg = soapy("driver=lime", &["pad"], &["tia"]);
    validate_soapysdr_driver_keys(&cfg).unwrap();
}

#[test]
fn unknown_device_skips_stage_rules() {
    let cfg = soapy("driver=custom", &["pad"], &[]);
    validate_soapysdr_driver_keys(&cfg).unwrap();
}

#[test]
fn sx_rejects_lime_antenna() {
    let mut cfg = soapy("driver=sx", &[], &[]);
    cfg.rx_ant = Some("LNAL".into());
    let err = validate_soapysdr_driver_keys(&cfg).unwrap_err();
    assert!(err.contains("LNAL"), "{err}");
}

#[test]
fn empty_maps_ok() {
    let cfg = soapy("driver=sx", &[], &[]);
    validate_soapysdr_driver_keys(&cfg).unwrap();
}

#[test]
fn backhaul_hysteresis_defaults_and_clamps() {
    let dto = CfgBrewDto::with_required("x".to_string(), false, 1, "p".to_string());
    let c = apply_brew_patch(dto);
    assert_eq!(c.backhaul_hysteresis_secs, 3);

    let mut dto = CfgBrewDto::with_required("x".to_string(), false, 1, "p".to_string());
    dto.backhaul_hysteresis_secs = 999;
    assert_eq!(apply_brew_patch(dto).backhaul_hysteresis_secs, 60);
}

#[test]
fn defaults() {
    let c = apply_lst_dispatch_patch(CfgLstDispatchDto::default());
    assert!(!c.enabled);
    assert_eq!(c.operator_issi, 9_990_001);
}

#[test]
fn whitelist_mode_names_parse() {
    assert_eq!(WhitelistMode::parse(" Strict "), Some(WhitelistMode::Enforce));
    assert_eq!(WhitelistMode::parse("off"), Some(WhitelistMode::Open));
    assert_eq!(WhitelistMode::parse("AUTO"), Some(WhitelistMode::Auto));
    assert_eq!(WhitelistMode::parse("deny"), None);
}

#[test]
fn driver_family_from_device_args() {
    assert_eq!(SoapyDriverFamily::from_device_arg(Some("driver=sx,serial=1")), SoapyDriverFamily::Sxceiver);
    assert_eq!(SoapyDriverFamily::from_device_arg(Some("DRIVER=LIME")), SoapyDriverFamily::Lime);
    assert_eq!(SoapyDriverFamily::from_device_arg(None), SoapyDriverFamily::Unknown);
    assert!(SoapyDriverFamily::from_device_arg(Some("driver=custom")).allowed_tx_stages().is_none());
}

#[test]
fn posture_text_names_the_mode() {
    let mut cfg = CfgSecurity::default();
    assert!(cfg.access_control_posture().starts_with("OPEN"));
    cfg.whitelist_mode = WhitelistMode::Enforce;
    assert!(cfg.access_control_posture().starts_with("DENY-ALL"));
    cfg.issi_whitelist = vec![1, 2];
    assert_eq!(cfg.access_control_posture(), "ALLOW-LIST (enforced) — 2 ISSI(s) may register");
}
