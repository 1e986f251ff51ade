use flowstation::dashboard_tls::{
    cert_fingerprint, digest_hex, fingerprint_from_openssl, status_after_load, tls_status, DashboardTlsStatus, ReadPrefix,
    DASHBOARD_HTTPS_PORT,
};
use flowstation::framing::{drain_length_prefixed, frame_message};
use flowstation::host_network::{ethernet_down, ethernet_up};
use flowstation::json::Json;
use flowstation::profiles::{
    active_after_brew_rename, active_after_cell_rename, delete_brew_profile, delete_cell_profile, duplicate_brew_profile,
    duplicate_cell_profile, extract_issi_whitelist, list_brew_profiles, list_cell_profiles, mask_brew_password,
    put_brew_profile, put_cell_profile, rename_cell_profile, sanitize_name, save_brew_from_visual, save_cell_from_visual,
    set_cell_whitelist, ActiveProfiles, RenamePlan, MASKED_PASSWORD,
};
use flowstation::profiles::{
    active_json, apply_cell_sections, apply_plan, brew_section, seed_profiles, visual_apply, sync_cell_dual_carrier, visual_config, visual_write_plan,
    BrewAction,
};
use flowstation::transport::{server_name, socket_addr_text, NetworkAddress, NetworkError, QuicChannelType, ReliableRx};

fn s(v: &str) -> String {
    v.to_string()
}

fn js(v: &str) -> Json {
    Json::Str(s(v))
}

fn num(n: u64) -> Json {
    Json::Number { as_u64: Some(n), text: n.to_string() }
}

/// An object with its members sorted by key, as a parsed JSON object holds them.
fn obj(mut fields: Vec<(&str, Json)>) -> Json {
    fields.sort_by(|a, b| a.0.cmp(b.0));
    Json::Object(fields.into_iter().map(|(k, v)| (k.to_string(), v)).collect())
}

fn member<'a>(j: &'a Json, key: &str) -> Option<&'a Json> {
    match j {
        Json::Object(f) => f.iter().find(|(k, _)| k == key).map(|(_, v)| v),
        _ => None,
    }
}

fn str_of(j: Option<&Json>) -> Option<&str> {
    match j {
        Some(Json::Str(t)) => Some(t.as_str()),
        _ => None,
    }
}

fn keys(j: &Json) -> Vec<String> {
    match j {
        Json::Object(f) => f.iter().map(|(k, _)| k.clone()).collect(),
        _ => vec![],
    }
}

// ---------------------------------------------------------------------------
// Profile names and listings
// ---------------------------------------------------------------------------

#[test]
fn profile_names_are_sanitized() {
    assert_eq!(sanitize_name("  Home Cell  ").unwrap(), "Home Cell");
    assert_eq!(sanitize_name("   ").unwrap_err(), "profile name is empty");
    assert_eq!(sanitize_name(&"a".repeat(65)).unwrap_err(), "profile name too long (max 64)");
    assert_eq!(sanitize_name(&"a".repeat(64)).unwrap(), "a".repeat(64));
    assert_eq!(sanitize_name("../etc").unwrap_err(), "profile name contains illegal characters");
    assert_eq!(sanitize_name("a/b").unwrap_err(), "profile name contains illegal characters");
    assert_eq!(sanitize_name("a\\b").unwrap_err(), "profile name contains illegal characters");
    assert_eq!(
        sanitize_name("cell#1").unwrap_err(),
        "profile name may only contain letters, digits, space, ._-"
    );
    assert_eq!(sanitize_name("v1.2_x-y").unwrap(), "v1.2_x-y");
    // Length counts bytes: 33 two-byte characters are too long before they are refused.
    assert_eq!(sanitize_name(&"é".repeat(33)).unwrap_err(), "profile name too long (max 64)");
    assert_eq!(
        sanitize_name(&"é".repeat(32)).unwrap_err(),
        "profile name may only contain letters, digits, space, ._-"
    );
}

#[test]
fn listings_are_sorted_and_mark_the_active_profile() {
    let names = vec![s("Zulu"), s("Default"), s("alpha"), s("Beta")];
    let active = ActiveProfiles { cell: s("Beta"), brew: Some(s("alpha")) };
    let cells = list_cell_profiles(&names, &active);
    let got: Vec<(&str, bool)> = cells.iter().map(|i| (i.name.as_str(), i.active)).collect();
    assert_eq!(got, vec![("Beta", true), ("Default", false), ("Zulu", false), ("alpha", false)]);
    let brews = list_brew_profiles(&names, &active);
    let got: Vec<(&str, bool)> = brews.iter().map(|i| (i.name.as_str(), i.active)).collect();
    assert_eq!(got, vec![("Beta", false), ("Default", false), ("Zulu", false), ("alpha", true)]);
    let offline = ActiveProfiles::default();
    assert_eq!(offline.cell, "Default");
    assert!(offline.brew.is_none());
    assert!(list_brew_profiles(&names, &offline).iter().all(|i| !i.active));
}

// ---------------------------------------------------------------------------
// Profile bodies
// ---------------------------------------------------------------------------

#[test]
fn stored_brew_password_is_masked_for_display() {
    let v = obj(vec![("host", js("core.example")), ("password", js("secret"))]);
    let m = mask_brew_password(v);
    assert_eq!(str_of(member(&m, "password")), Some(MASKED_PASSWORD));
    assert!(matches!(member(&m, "password_set"), Some(Json::Bool(true))));
    assert_eq!(str_of(member(&m, "host")), Some("core.example"));
    assert_eq!(keys(&m), vec!["host", "password", "password_set"]);

    let empty = mask_brew_password(obj(vec![("host", js("h")), ("password", js(""))]));
    assert_eq!(str_of(member(&empty, "password")), Some(""));
    assert!(matches!(member(&empty, "password_set"), Some(Json::Bool(false))));

    let none = mask_brew_password(obj(vec![("host", js("h"))]));
    assert!(member(&none, "password_set").is_none());
}

#[test]
fn cell_profile_is_validated_and_loses_sds_command_control() {
    let body = obj(vec![
        ("cell_info", obj(vec![("colour_code", num(1)), ("sds_command_control", obj(vec![("enabled", Json::Bool(true))]))])),
        ("net_info", obj(vec![("mcc", num(204))])),
    ]);
    let (name, stored) = put_cell_profile(" Home ", body).unwrap();
    assert_eq!(name, "Home");
    let ci = member(&stored, "cell_info").unwrap();
    assert!(member(ci, "sds_command_control").is_none());
    assert!(matches!(member(ci, "colour_code"), Some(Json::Number { as_u64: Some(1), .. })));
    assert!(member(&stored, "net_info").is_some());

    assert_eq!(
        put_cell_profile("x", obj(vec![("security", obj(vec![]))])).unwrap_err(),
        "cell profile must include phy_io, net_info and/or cell_info"
    );
    assert_eq!(put_cell_profile("x", js("nope")).unwrap_err(), "cell profile body must be a JSON object");
    assert_eq!(put_cell_profile("", obj(vec![])).unwrap_err(), "profile name is empty");
}

#[test]
fn brew_profile_rehydrates_a_masked_password() {
    let body = obj(vec![("host", js("core")), ("password", js(MASKED_PASSWORD)), ("password_set", Json::Bool(true))]);
    let existing = obj(vec![("host", js("core")), ("password", js("hunter2"))]);
    let (name, stored) = put_brew_profile("Core", body, Some(existing)).unwrap();
    assert_eq!(name, "Core");
    assert_eq!(str_of(member(&stored, "password")), Some("hunter2"));
    assert!(member(&stored, "password_set").is_none());

    let masked_new = obj(vec![("host", js("core")), ("password", js("••"))]);
    assert_eq!(
        put_brew_profile("New", masked_new, None).unwrap_err(),
        "password is masked; re-enter the password when creating a new brew profile"
    );
    let typed = obj(vec![("host", js("core")), ("password", js("pw"))]);
    let (_, stored) = put_brew_profile("New", typed, None).unwrap();
    assert_eq!(str_of(member(&stored, "password")), Some("pw"));
    assert_eq!(
        put_brew_profile("New", obj(vec![("host", js("   "))]), None).unwrap_err(),
        "brew.host is required"
    );
    assert_eq!(put_brew_profile("New", Json::Null, None).unwrap_err(), "brew profile body must be a JSON object");
}

#[test]
fn duplicates_check_the_source_name_then_the_copy() {
    let src = obj(vec![("phy_io", obj(vec![]))]);
    let (n, _) = duplicate_cell_profile("Default", "Copy", Ok(src)).unwrap();
    assert_eq!(n, "Copy");
    assert_eq!(duplicate_cell_profile("a/b", "Copy", Ok(Json::Null)).unwrap_err(), "profile name contains illegal characters");
    assert_eq!(duplicate_cell_profile("Default", "Copy", Err(s("cell profile 'Default': gone"))).unwrap_err(), "cell profile 'Default': gone");
    let brew = obj(vec![("host", js("h")), ("password", js("p"))]);
    let (n, b) = duplicate_brew_profile("A", "B", Ok(brew), None).unwrap();
    assert_eq!(n, "B");
    assert_eq!(str_of(member(&b, "password")), Some("p"));
}

#[test]
fn deleting_guards_the_active_and_the_last_profile() {
    let active = ActiveProfiles { cell: s("Default"), brew: Some(s("Core")) };
    assert_eq!(delete_cell_profile("Default", &active, 3).unwrap_err(), "cannot delete the active cell profile");
    assert_eq!(delete_cell_profile("Other", &active, 1).unwrap_err(), "cannot delete the last cell profile");
    assert_eq!(delete_cell_profile(" Other ", &active, 2).unwrap(), "Other");
    assert_eq!(delete_brew_profile("Core", &active).unwrap_err(), "cannot delete the active brew profile");
    assert_eq!(delete_brew_profile("Spare", &active).unwrap(), "Spare");
}

#[test]
fn renames_check_existence_and_follow_the_active_selection() {
    assert!(matches!(rename_cell_profile("A", " A ", true, false), Ok(RenamePlan::Unchanged)));
    assert_eq!(rename_cell_profile("A", "B", false, false).unwrap_err(), "cell profile 'A' not found");
    assert_eq!(rename_cell_profile("A", "B", true, true).unwrap_err(), "cell profile 'B' already exists");
    match rename_cell_profile("A", "B", true, false) {
        Ok(RenamePlan::Move { from, to }) => assert_eq!((from.as_str(), to.as_str()), ("A", "B")),
        _ => panic!("expected a move"),
    }
    let active = ActiveProfiles { cell: s("A"), brew: Some(s("X")) };
    let (a2, changed) = active_after_cell_rename(active, "A", "B");
    assert!(changed);
    assert_eq!(a2.cell, "B");
    let (a3, changed) = active_after_brew_rename(a2, "Y", "Z");
    assert!(!changed);
    assert_eq!(a3.brew.as_deref(), Some("X"));
    let (a4, changed) = active_after_brew_rename(a3, "X", "Z");
    assert!(changed);
    assert_eq!(a4.brew.as_deref(), Some("Z"));
}

#[test]
fn whitelist_is_read_and_patched() {
    let cell = obj(vec![
        ("security", obj(vec![("issi_whitelist", Json::Array(vec![num(1001), js("x"), num(4294967297)]))])),
        ("phy_io", obj(vec![])),
    ]);
    assert_eq!(extract_issi_whitelist(&cell), Some(vec![1001, 1]));
    assert_eq!(extract_issi_whitelist(&obj(vec![("phy_io", obj(vec![]))])), None);

    let patched = set_cell_whitelist(cell, &[7, 8]).unwrap();
    assert_eq!(extract_issi_whitelist(&patched), Some(vec![7, 8]));
    assert!(member(&patched, "phy_io").is_some());
    assert_eq!(set_cell_whitelist(Json::Null, &[1]).unwrap_err(), "cell profile is not an object");
}

#[test]
fn visual_form_is_captured_as_cell_and_brew_profiles() {
    let visual = obj(vec![
        ("config_version", js("0.6")),
        ("phy_io", obj(vec![("backend", js("SoapySdr"))])),
        ("cell_info", obj(vec![("sds_command_control", obj(vec![])), ("main_carrier", num(1521))])),
        ("brew", obj(vec![("host", js("core")), ("password", js("pw")), ("enabled", Json::Bool(true))])),
        ("unrelated", Json::Bool(true)),
    ]);
    let (name, cell) = save_cell_from_visual("Home", visual).unwrap();
    assert_eq!(name, "Home");
    assert_eq!(keys(&cell), vec!["cell_info", "config_version", "phy_io", "security"]);
    assert!(member(member(&cell, "cell_info").unwrap(), "sds_command_control").is_none());
    assert_eq!(extract_issi_whitelist(&cell), Some(vec![]));

    let visual2 = obj(vec![("brew", obj(vec![("host", js("core")), ("password", js("pw"))]))]);
    let (_, brew) = save_brew_from_visual("Core", visual2, None).unwrap();
    assert_eq!(str_of(member(&brew, "host")), Some("core"));
    assert_eq!(save_brew_from_visual("Core", obj(vec![]), None).unwrap_err(), "missing brew object");
    assert_eq!(save_cell_from_visual("Home", Json::Null).unwrap_err(), "body must be a JSON object");
}

#[test]
fn applying_a_cell_profile_merges_its_sections_and_keeps_live_access_without_security() {
    let cell = obj(vec![
        ("cell_info", obj(vec![("colour_code", num(1)), ("sds_command_control", obj(vec![("enabled", Json::Bool(true))]))])),
        ("phy_io", obj(vec![("backend", js("SoapySdr"))])),
        ("stack_mode", js("Bs")),
    ]);
    let a = apply_cell_sections(cell).unwrap();
    let names: Vec<&str> = a.merges.iter().map(|(k, _)| k.as_str()).collect();
    assert_eq!(names, vec!["phy_io", "cell_info"]);
    assert!(member(&a.merges[1].1, "sds_command_control").is_none());
    assert!(matches!(member(&a.merges[1].1, "colour_code"), Some(Json::Number { as_u64: Some(1), .. })));
    assert_eq!(str_of(a.stack_mode.as_ref()), Some("Bs"));
    assert_eq!(a.config_version, "0.6");

    let with_security = obj(vec![
        ("config_version", js("0.7")),
        ("net_info", obj(vec![("mcc", num(204))])),
        ("security", obj(vec![("issi_whitelist", Json::Array(vec![num(1001)]))])),
    ]);
    let a = apply_cell_sections(with_security).unwrap();
    let names: Vec<&str> = a.merges.iter().map(|(k, _)| k.as_str()).collect();
    assert_eq!(names, vec!["net_info", "security"]);
    assert!(matches!(member(&a.merges[1].1, "issi_whitelist"), Some(Json::Array(v)) if v.len() == 1));
    assert!(a.stack_mode.is_none());
    assert_eq!(a.config_version, "0.7");

    // A non-string version falls back to the current schema.
    let a = apply_cell_sections(obj(vec![("config_version", num(7))])).unwrap();
    assert_eq!(a.config_version, "0.6");
    assert_eq!(apply_cell_sections(js("x")).unwrap_err(), "cell profile is not an object");
}

#[test]
fn brew_section_drops_the_dashboard_flags() {
    let b = obj(vec![
        ("enabled", Json::Bool(true)),
        ("host", js("core")),
        ("password", js("pw")),
        ("password_set", Json::Bool(true)),
    ]);
    let t = brew_section(b);
    assert_eq!(keys(&t), vec!["host", "password"]);
    assert_eq!(str_of(member(&t, "password")), Some("pw"));
    assert!(matches!(brew_section(Json::Null), Json::Null));
}

#[test]
fn visual_write_plans_sections_and_brew() {
    let body = obj(vec![
        ("cell_info", obj(vec![("main_carrier", num(1521)), ("sds_command_control", obj(vec![]))])),
        ("security", obj(vec![("issi_whitelist", Json::Array(vec![]))])),
        ("brew", obj(vec![
            ("enabled", Json::Bool(true)),
            ("host", js("core")),
            ("password", js(MASKED_PASSWORD)),
            ("password_set", Json::Bool(true)),
        ])),
        ("unrelated", Json::Bool(true)),
    ]);
    let w = visual_write_plan(body, Some(s("hunter2"))).unwrap();
    let names: Vec<&str> = w.merges.iter().map(|(k, _)| k.as_str()).collect();
    assert_eq!(names, vec!["cell_info", "security"]);
    assert!(member(&w.merges[0].1, "sds_command_control").is_none());
    match w.brew {
        Ok(BrewAction::Write(t)) => {
            assert_eq!(keys(&t), vec!["host", "password"]);
            assert_eq!(str_of(member(&t, "password")), Some("hunter2"));
        }
        other => panic!("expected a write, got {:?}", other),
    }

    // A typed password is kept; a masked one with nothing stored stays as sent.
    let typed = obj(vec![("brew", obj(vec![("host", js("core")), ("password", js("new"))]))]);
    match visual_write_plan(typed, Some(s("old"))).unwrap().brew {
        Ok(BrewAction::Write(t)) => assert_eq!(str_of(member(&t, "password")), Some("new")),
        other => panic!("expected a write, got {:?}", other),
    }
    let masked = obj(vec![("brew", obj(vec![("host", js("core")), ("password", js(MASKED_PASSWORD))]))]);
    match visual_write_plan(masked, None).unwrap().brew {
        Ok(BrewAction::Write(t)) => assert_eq!(str_of(member(&t, "password")), Some(MASKED_PASSWORD)),
        other => panic!("expected a write, got {:?}", other),
    }

    let off = obj(vec![("brew", obj(vec![("enabled", Json::Bool(false)), ("host", js("core"))]))]);
    assert!(matches!(visual_write_plan(off, None).unwrap().brew, Ok(BrewAction::Remove)));
    let none = obj(vec![("phy_io", obj(vec![]))]);
    let w = visual_write_plan(none, None).unwrap();
    assert!(matches!(w.brew, Ok(BrewAction::Untouched)));
    assert_eq!(w.merges.len(), 1);
    let bad = obj(vec![("brew", js("x"))]);
    assert_eq!(visual_write_plan(bad, None).unwrap().brew.unwrap_err(), "brew must be an object");
    assert_eq!(visual_write_plan(Json::Null, None).unwrap_err(), "body must be a JSON object");
}

#[test]
fn visual_config_shows_the_live_configuration() {
    let active = ActiveProfiles { cell: s("Home"), brew: None };
    let live = match obj(vec![
        ("config_version", js("0.6")),
        ("phy_io", obj(vec![("backend", js("SoapySdr"))])),
        ("brew", obj(vec![("host", js("core")), ("password", js("secret"))])),
        ("unrelated", Json::Bool(true)),
    ]) {
        Json::Object(f) => f,
        _ => unreachable!(),
    };
    let v = visual_config(live, &active);
    assert_eq!(keys(&v), vec!["active", "brew", "config_version", "phy_io", "security"]);
    let brew = member(&v, "brew").unwrap();
    assert_eq!(str_of(member(brew, "password")), Some(MASKED_PASSWORD));
    assert!(matches!(member(brew, "password_set"), Some(Json::Bool(true))));
    assert!(matches!(member(brew, "enabled"), Some(Json::Bool(true))));
    assert_eq!(keys(member(&v, "security").unwrap()), vec!["issi_whitelist"]);
    let a = member(&v, "active").unwrap();
    assert_eq!(str_of(member(a, "cell")), Some("Home"));
    assert!(matches!(member(a, "brew"), Some(Json::Null)));

    // Without [brew] the form gets a switched-off default connection.
    let v = visual_config(vec![], &active);
    let brew = member(&v, "brew").unwrap();
    assert!(matches!(member(brew, "enabled"), Some(Json::Bool(false))));
    assert!(matches!(member(brew, "port"), Some(Json::Number { as_u64: Some(3003), .. })));
    assert!(matches!(member(brew, "reconnect_delay_secs"), Some(Json::Number { as_u64: Some(15), .. })));
    assert!(matches!(member(brew, "tls"), Some(Json::Bool(true))));
    assert_eq!(keys(brew).len(), 10);
}

#[test]
fn active_selection_as_json() {
    let j = active_json(&ActiveProfiles { cell: s("Default"), brew: Some(s("Core")) });
    assert_eq!(keys(&j), vec!["brew", "cell"]);
    assert_eq!(str_of(member(&j, "brew")), Some("Core"));
    assert_eq!(str_of(member(&j, "cell")), Some("Default"));
}

fn fields(j: Json) -> Vec<(String, Json)> {
    match j {
        Json::Object(f) => f,
        _ => panic!("not an object"),
    }
}

#[test]
fn first_start_seeds_a_default_cell_and_a_default_brew() {
    let live = fields(obj(vec![
        ("config_version", js("0.6")),
        ("stack_mode", js("Bs")),
        ("phy_io", obj(vec![("backend", js("SoapySdr"))])),
        ("net_info", obj(vec![("mcc", num(204))])),
        ("cell_info", obj(vec![("main_carrier", num(1521))])),
        ("brew", obj(vec![("host", js("core.example")), ("password", js("secret")), ("port", num(3003))])),
        ("dashboard", obj(vec![])),
    ]));
    let seed = seed_profiles(live);
    assert_eq!(keys(&seed.cell), vec!["cell_info", "config_version", "net_info", "phy_io", "stack_mode"]);
    let (name, body) = seed.brew.unwrap();
    assert_eq!(name, "Default Brew");
    assert_eq!(keys(&body), vec!["host", "password", "port"]);
    assert_eq!(str_of(member(&body, "password")), Some("secret"));

    let live = fields(obj(vec![("brew", obj(vec![("port", num(1))])), ("security", obj(vec![]))]));
    let seed = seed_profiles(live);
    assert_eq!(keys(&seed.cell), vec!["security"]);
    assert_eq!(seed.brew.unwrap().0, "Default Brew");
    // A `brew` that is no table is kept under `value`.
    let seed = seed_profiles(fields(obj(vec![("brew", Json::Bool(true))])));
    let (name, body) = seed.brew.unwrap();
    assert_eq!(name, "Default Brew");
    assert!(matches!(member(&body, "value"), Some(Json::Bool(true))));
    // Offline: no Brew profile.
    assert!(seed_profiles(vec![]).brew.is_none());
}

#[test]
fn dual_carrier_sync_writes_the_cell_and_rf_keys() {
    let profile = obj(vec![
        ("cell_info", obj(vec![("main_carrier", num(1521))])),
        ("net_info", obj(vec![("mcc", num(204))])),
    ]);
    let fs = Json::Number { as_u64: None, text: s("600000.0") };
    let out = sync_cell_dual_carrier(profile, true, Some(1523), Some(fs), None, None).unwrap();
    assert_eq!(keys(&out), vec!["cell_info", "net_info", "phy_io"]);
    let ci = member(&out, "cell_info").unwrap();
    assert!(matches!(member(ci, "dual_carrier_enabled"), Some(Json::Bool(true))));
    assert!(matches!(member(ci, "secondary_carrier"), Some(Json::Number { as_u64: Some(1523), .. })));
    assert!(matches!(member(ci, "main_carrier"), Some(Json::Number { as_u64: Some(1521), .. })));
    let phy = member(&out, "phy_io").unwrap();
    assert_eq!(str_of(member(phy, "backend")), Some("SoapySdr"));
    let soapy = member(phy, "soapysdr").unwrap();
    assert_eq!(keys(soapy), vec!["sample_rate"]);
    assert!(matches!(member(soapy, "sample_rate"), Some(Json::Number { text, .. }) if text == "600000.0"));

    // Switching off touches only the cell, and keeps the secondary carrier when none is given.
    let profile = obj(vec![
        ("cell_info", obj(vec![("secondary_carrier", num(1530))])),
        ("phy_io", js("not a table")),
    ]);
    let out = sync_cell_dual_carrier(profile, false, None, None, None, None).unwrap();
    let ci = member(&out, "cell_info").unwrap();
    assert!(matches!(member(ci, "dual_carrier_enabled"), Some(Json::Bool(false))));
    assert!(matches!(member(ci, "secondary_carrier"), Some(Json::Number { as_u64: Some(1530), .. })));
    assert_eq!(str_of(member(&out, "phy_io")), Some("not a table"));

    assert_eq!(sync_cell_dual_carrier(js("x"), true, None, None, None, None).unwrap_err(), "cell profile root must be an object");
    assert_eq!(
        sync_cell_dual_carrier(obj(vec![("cell_info", num(1))]), false, None, None, None, None).unwrap_err(),
        "cell_info must be an object"
    );
    assert_eq!(
        sync_cell_dual_carrier(obj(vec![("phy_io", num(1))]), true, None, None, None, None).unwrap_err(),
        "phy_io must be an object"
    );
    assert_eq!(
        sync_cell_dual_carrier(obj(vec![("phy_io", obj(vec![("soapysdr", num(1))]))]), true, None, None, None, None)
            .unwrap_err(),
        "soapysdr must be an object"
    );
}

#[test]
fn applying_a_selection_merges_key_by_key_and_keeps_station_wide_settings() {
    let live = fields(obj(vec![
        ("config_version", js("0.5")),
        ("stack_mode", js("Bs")),
        ("dashboard", obj(vec![("port", num(80))])),
        ("security", obj(vec![("issi_whitelist", Json::Array(vec![num(1001)]))])),
        ("cell_info", obj(vec![
            ("main_carrier", num(1521)),
            ("neighbors", obj(vec![("a", num(1)), ("b", num(2))])),
            ("sds_command_control", obj(vec![("enabled", Json::Bool(true))])),
        ])),
        ("brew", obj(vec![("host", js("old"))])),
    ]));
    let cell = obj(vec![
        ("cell_info", obj(vec![
            ("main_carrier", num(1530)),
            ("neighbors", obj(vec![("b", num(20))])),
            ("sds_command_control", obj(vec![("enabled", Json::Bool(false))])),
        ])),
    ]);
    let out = Json::Object(apply_plan(live, cell, None).unwrap());
    // The Cell has no security: the live whitelist stays.
    let sec = member(&out, "security").unwrap();
    assert!(matches!(member(sec, "issi_whitelist"), Some(Json::Array(v)) if v.len() == 1));
    let ci = member(&out, "cell_info").unwrap();
    assert!(matches!(member(ci, "main_carrier"), Some(Json::Number { as_u64: Some(1530), .. })));
    let nb = member(ci, "neighbors").unwrap();
    assert!(matches!(member(nb, "a"), Some(Json::Number { as_u64: Some(1), .. })));
    assert!(matches!(member(nb, "b"), Some(Json::Number { as_u64: Some(20), .. })));
    // SDS command control is station-wide.
    assert!(matches!(member(member(ci, "sds_command_control").unwrap(), "enabled"), Some(Json::Bool(true))));
    assert!(member(&out, "brew").is_none());
    assert_eq!(str_of(member(&out, "config_version")), Some("0.6"));
    assert_eq!(str_of(member(&out, "stack_mode")), Some("Bs"));
    assert!(member(&out, "dashboard").is_some());

    let live = fields(obj(vec![("phy_io", js("flat"))]));
    let cell = obj(vec![
        ("phy_io", obj(vec![("backend", js("SoapySdr"))])),
        ("security", obj(vec![("issi_whitelist", Json::Array(vec![]))])),
        ("config_version", js("0.7")),
        ("stack_mode", js("Ms")),
    ]);
    let brew = obj(vec![("host", js("core")), ("enabled", Json::Bool(true)), ("password_set", Json::Bool(true))]);
    let out = Json::Object(apply_plan(live, cell, Some(brew)).unwrap());
    assert_eq!(str_of(member(member(&out, "phy_io").unwrap(), "backend")), Some("SoapySdr"));
    assert!(matches!(member(member(&out, "security").unwrap(), "issi_whitelist"), Some(Json::Array(v)) if v.is_empty()));
    assert_eq!(keys(member(&out, "brew").unwrap()), vec!["host"]);
    assert_eq!(str_of(member(&out, "config_version")), Some("0.7"));
    assert_eq!(str_of(member(&out, "stack_mode")), Some("Ms"));
    assert_eq!(apply_plan(vec![], js("x"), None).unwrap_err(), "cell profile is not an object");
}

#[test]
fn visual_form_is_merged_into_the_live_configuration() {
    let live = fields(obj(vec![
        ("net_info", obj(vec![("mcc", num(204)), ("mnc", num(1))])),
        ("brew", obj(vec![("host", js("core")), ("password", js("hunter2"))])),
        ("dashboard", obj(vec![])),
    ]));
    let body = obj(vec![
        ("net_info", obj(vec![("mnc", num(2))])),
        ("brew", obj(vec![("host", js("core2")), ("password", js(MASKED_PASSWORD)), ("enabled", Json::Bool(true))])),
        ("unrelated", Json::Bool(true)),
    ]);
    let out = Json::Object(visual_apply(live, body).unwrap());
    let ni = member(&out, "net_info").unwrap();
    assert!(matches!(member(ni, "mcc"), Some(Json::Number { as_u64: Some(204), .. })));
    assert!(matches!(member(ni, "mnc"), Some(Json::Number { as_u64: Some(2), .. })));
    let b = member(&out, "brew").unwrap();
    assert_eq!(str_of(member(b, "host")), Some("core2"));
    assert_eq!(str_of(member(b, "password")), Some("hunter2"));
    assert!(member(b, "enabled").is_none());
    assert!(member(&out, "unrelated").is_none());
    assert!(member(&out, "dashboard").is_some());

    let live = fields(obj(vec![("brew", obj(vec![("host", js("core"))]))]));
    let off = obj(vec![("brew", obj(vec![("enabled", Json::Bool(false))]))]);
    assert!(member(&Json::Object(visual_apply(live, off).unwrap()), "brew").is_none());
    assert_eq!(visual_apply(vec![], obj(vec![("brew", num(1))])).unwrap_err(), "brew must be an object");
    assert_eq!(visual_apply(vec![], js("x")).unwrap_err(), "body must be a JSON object");
}

// ---------------------------------------------------------------------------
// Transport
// ---------------------------------------------------------------------------

#[test]
fn quic_addresses_and_errors() {
    let tcp = NetworkAddress::Tcp { host: s("10.0.0.1"), port: 4433 };
    assert_eq!(socket_addr_text(&tcp).unwrap(), "10.0.0.1:4433");
    assert_eq!(server_name(&tcp).unwrap(), "10.0.0.1");
    let custom = NetworkAddress::Custom { scheme: s("ws"), address: s("x") };
    match socket_addr_text(&custom) {
        Err(NetworkError::ConnectionFailed(m)) => assert_eq!(m, "Custom addresses not supported for QUIC"),
        _ => panic!("custom address must be refused"),
    }
    match server_name(&custom) {
        Err(NetworkError::ConnectionFailed(m)) => assert_eq!(m, "Invalid address type"),
        _ => panic!("custom address must be refused"),
    }
    assert_eq!(NetworkError::SendFailed(s("x")).message(), "Send failed: x");
    assert_eq!(NetworkError::ReceiveFailed(s("detail")).message(), "Receive failed");
    assert_eq!(NetworkError::Timeout.message(), "Operation timed out");
    assert_ne!(QuicChannelType::Reliable, QuicChannelType::Unreliable);
}

#[test]
fn framed_messages_drain_back_in_order() {
    let mut buf = frame_message(&[1, 2, 3]);
    assert_eq!(buf[..4], [0, 0, 0, 3]);
    buf.extend(frame_message(&[]));
    buf.extend(frame_message(&[9]));
    buf.extend_from_slice(&[0, 0]);
    let frames = drain_length_prefixed(&mut buf).unwrap();
    assert_eq!(frames, vec![vec![1, 2, 3], vec![], vec![9]]);
    assert_eq!(buf, vec![0, 0]);
}

#[test]
fn reliable_stream_hands_out_one_frame_per_receive_across_split_reads() {
    let mut rx = ReliableRx::new();
    let mut wire = frame_message(&[1, 1]);
    wire.extend(frame_message(&[2]));
    wire.extend(frame_message(&[3, 3, 3]));
    let (a, b) = wire.split_at(5);
    assert_eq!(rx.receive_from_channel(Some(a)).unwrap(), None);
    assert_eq!(rx.receive_from_channel(Some(b)).unwrap(), Some(vec![1, 1]));
    assert_eq!(rx.pending_frame(), Some(vec![2]));
    assert_eq!(rx.receive_from_channel(None).unwrap(), Some(vec![3, 3, 3]));
    assert_eq!(rx.receive_from_channel(None).unwrap(), None);

    let mut bad = ReliableRx::new();
    match bad.receive_from_channel(Some(&[0xFF, 0xFF, 0xFF, 0xFF])) {
        Err(NetworkError::ReceiveFailed(m)) => assert!(m.starts_with("framing desync"), "{m}"),
        _ => panic!("desync must be reported"),
    }
    rx.close_reliable_stream();
    assert_eq!(rx.pending_frame(), None);
}

#[test]
fn ethernet_profile_commands() {
    assert_eq!(ethernet_up("u-1"), vec!["--wait", "12", "connection", "up", "uuid", "u-1"]);
    assert_eq!(ethernet_down("u-1"), vec!["connection", "down", "uuid", "u-1"]);
}

// ---------------------------------------------------------------------------
// Dashboard TLS
// ---------------------------------------------------------------------------

#[test]
fn tls_status_defaults_to_disabled() {
    let st = tls_status(None);
    assert_eq!(st.https_port, DASHBOARD_HTTPS_PORT);
    assert!(!st.enabled);
    assert!(st.cert_fingerprint.is_empty());
    let rec = DashboardTlsStatus { https_port: 8443, enabled: true, cert_fingerprint: s("ab") };
    assert_eq!(tls_status(Some(rec)).cert_fingerprint, "ab");
    assert!(status_after_load(Some(s("cd"))).enabled);
    assert!(!status_after_load(None).enabled);
}

#[test]
fn certificate_fingerprint_from_openssl_or_md5() {
    let hex: String = (0..32).map(|i| format!("{:02X}", i)).collect::<Vec<_>>().join(":");
    let out = format!("sha256 Fingerprint={hex}\n");
    let fp = fingerprint_from_openssl(&out).unwrap();
    assert_eq!(fp.len(), 64);
    assert!(fp.starts_with("000102030405"));
    assert!(fingerprint_from_openssl("no equals sign").is_none());
    assert!(fingerprint_from_openssl("Fingerprint=AB:CD").is_none());
    assert_eq!(cert_fingerprint(Some(&out), b"abc"), fp);
    // The digest of the certificate bytes, not the bytes themselves.
    assert_eq!(cert_fingerprint(None, b"abc"), "900150983cd24fb0d6963f7d28e17f72");
    assert_eq!(cert_fingerprint(Some("garbage"), b""), "d41d8cd98f00b204e9800998ecf8427e");
    assert_eq!(digest_hex(&[0x00, 0xAB, 0x10]), "00ab10");
}

#[test]
fn read_ahead_bytes_come_first() {
    let mut p = ReadPrefix::with_prefix(vec![1, 2, 3, 4, 5]);
    assert_eq!(p.read(2), Some(vec![1, 2]));
    assert_eq!(p.read(10), Some(vec![3, 4, 5]));
    assert_eq!(p.read(10), None);
    assert_eq!(ReadPrefix::new().read(4), None);
}
