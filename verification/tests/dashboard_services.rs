use flowstation::host_network::{
    format_ip_status_line, ipv4_for_device, list_ethernet_saved, nmcli_outcome, parse_terse_line,
    status, status_devices, IfaceKind, NetworkError,
};
use flowstation::json::Json;
use flowstation::rf_status::{RfRegistry, RfState, RfStatus};
use flowstation::sds_commands::{
    compute_toml, from_cfg, is_other_section_header, is_sds_command_header, override_to_json,
    parse_body, render_section, CfgSdsCommandControl, CfgSdsCommandEntry, SdsCommandRuntimeOverride,
};
use flowstation::setup::{
    helper_result, install_driver, mark_complete, parse_systemd_action, setup_json_path, SetupState,
    SystemdAction,
};

fn num(n: u64) -> Json {
    Json::Number { as_u64: Some(n), text: n.to_string() }
}

fn obj(fields: Vec<(&str, Json)>) -> Json {
    Json::Object(fields.into_iter().map(|(k, v)| (k.to_string(), v)).collect())
}

#[test]
fn parse_ok() {
    let body = obj(vec![
        ("enabled", Json::Bool(true)),
        ("authorized_issis", Json::Array(vec![num(2144485)])),
        ("commands", Json::Array(vec![obj(vec![("status_code", num(61000)), ("action", Json::Str("ip".into()))])])),
    ]);
    let ov = parse_body(Ok(body)).unwrap();
    assert!(ov.enabled);
    assert_eq!(ov.authorized_issis, vec![2144485]);
    assert_eq!(ov.commands[0].status_code, 61000);
    assert_eq!(ov.commands[0].action, "ip");
}

#[test]
fn reject_bad_action() {
    let body = obj(vec![
        ("enabled", Json::Bool(true)),
        ("authorized_issis", Json::Array(vec![num(1)])),
        ("commands", Json::Array(vec![obj(vec![("status_code", num(1)), ("action", Json::Str("boom".into()))])])),
    ]);
    assert!(parse_body(Ok(body)).is_err());
}

#[test]
fn parse_body_errors_and_normalisation() {
    assert_eq!(parse_body(Err("eof".into())).unwrap_err(), "invalid JSON: eof");
    let body = obj(vec![("authorized_issis", Json::Array(vec![num(5), Json::Str(" 3 ".into()), num(5)]))]);
    let ov = parse_body(Ok(body)).unwrap();
    assert!(ov.enabled);
    assert_eq!(ov.authorized_issis, vec![3, 5]);
    let body = obj(vec![("authorized_issis", Json::Array(vec![num(0)]))]);
    assert_eq!(parse_body(Ok(body)).unwrap_err(), "ISSI 0 out of range (1..=16777215)");
    let body = obj(vec![("authorized_issis", Json::Array(vec![Json::Str("x".into())]))]);
    assert_eq!(parse_body(Ok(body)).unwrap_err(), "invalid ISSI 'x'");
    let body = obj(vec![("authorized_issis", Json::Array(vec![Json::Array(vec![Json::Null, Json::Bool(false)])]))]);
    assert_eq!(parse_body(Ok(body)).unwrap_err(), "invalid ISSI entry: [null,false]");
    let body = obj(vec![("commands", Json::Array(vec![obj(vec![("action", Json::Str("ip".into()))])]))]);
    assert_eq!(parse_body(Ok(body)).unwrap_err(), "command missing status_code");
    let body = obj(vec![("commands", Json::Array(vec![obj(vec![("status_code", num(70000))])]))]);
    assert_eq!(parse_body(Ok(body)).unwrap_err(), "status_code 70000 out of range (0..=65535)");
    let cmd = |c: u64| obj(vec![("status_code", num(c)), ("action", Json::Str(" IP ".into()))]);
    let body = obj(vec![("commands", Json::Array(vec![cmd(9), cmd(4), cmd(9), cmd(4)]))]);
    assert_eq!(parse_body(Ok(body)).unwrap_err(), "duplicate status_code 4");
    let body = obj(vec![("enabled", Json::Bool(false)), ("commands", Json::Array(vec![cmd(9)]))]);
    let ov = parse_body(Ok(body)).unwrap();
    assert!(!ov.enabled);
    assert_eq!(ov.commands[0].action, "ip");
}

#[test]
fn sds_json_and_toml_rewrite() {
    let ov = SdsCommandRuntimeOverride {
        enabled: true,
        authorized_issis: vec![2144485, 7],
        commands: vec![CfgSdsCommandEntry { status_code: 61000, action: "ip".into() }],
    };
    assert_eq!(
        override_to_json(&ov),
        "{\"enabled\":true,\"authorized_issis\":[2144485,7],\"commands\":[{\"status_code\":61000,\"action\":\"ip\"}],\"control_issi\":9999}"
    );
    assert_eq!(
        render_section(&ov),
        "[cell_info.sds_command_control]\nauthorized_issis = [2144485, 7]\n\n[[cell_info.sds_command_control.commands]]\nstatus_code = 61000\naction = \"ip\"\n"
    );
    let original = "config_version = \"0.6\"\n\n[cell_info]\ncolour_code = 1\nlocation_area = 2\n";
    let out = compute_toml(original, &ov);
    assert!(out.contains("[cell_info.sds_command_control]"));
    assert!(out.contains("authorized_issis = [2144485, 7]"));
    assert!(out.contains("status_code = 61000"));
    assert!(out.contains("action = \"ip\""));
    let off = SdsCommandRuntimeOverride { enabled: false, ..Default::default() };
    let out2 = compute_toml(&out, &off);
    assert!(!out2.contains("sds_command_control"));
    assert_eq!(out2, "config_version = \"0.6\"\n\n[cell_info]\ncolour_code = 1\nlocation_area = 2\n");
    assert!(is_sds_command_header("[[cell_info.sds_command_control.commands]]"));
    assert!(is_other_section_header("[net_info]"));
    assert!(!is_other_section_header("[cell_info.sds_command_control]"));
    let cfg = CfgSdsCommandControl { authorized_issis: vec![1], commands: vec![] };
    assert!(from_cfg(Some(&cfg)).enabled);
    assert!(!from_cfg(None).enabled);
}

#[test]
fn terse_fields_and_profiles() {
    assert_eq!(parse_terse_line("a\\:b:c::"), vec!["a:b", "c", "", ""]);
    assert_eq!(parse_terse_line("x\\"), vec!["x"]);
    let out = "u1:Wired:802-3-ethernet:yes\nu2:Home:802-11-wireless:no\nshort:line\nu3:Lab:802-3-ethernet:no\n";
    let ps = list_ethernet_saved(Ok(out.to_string())).unwrap();
    assert_eq!(ps.len(), 2);
    assert_eq!((ps[0].uuid.as_str(), ps[0].name.as_str(), ps[0].active), ("u1", "Wired", true));
    assert!(!ps[1].active);
    assert!(list_ethernet_saved(Err(NetworkError::Timeout)).is_err());
    let ips = ipv4_for_device(Ok("IP4.ADDRESS[1]:192.168.1.42/24\nIP4.ADDRESS[2]:\nIP4.GATEWAY:10.0.0.1\n".into())).unwrap();
    assert_eq!(ips, vec!["192.168.1.42", "10.0.0.1"]);
    assert_eq!(NetworkError::Failed("x".into()).message(), "nmcli failed: x");
    assert_eq!(IfaceKind::from_nmcli("wifi"), IfaceKind::Wifi);
}

#[test]
fn overview_sorted_and_summarised() {
    let dev = "wlan0:wifi:connected:Home\nlo:loopback:unmanaged:--\neth1:ethernet:unavailable:--\neth0:ethernet:connected:Wired\ntun0:tun:connected:\n";
    let rows = status_devices(Ok(dev.into())).unwrap();
    assert_eq!(rows.len(), 4);
    let ipv4s = vec![vec!["10.0.1.228".to_string()], vec![], vec!["10.0.1.212".to_string()], vec![]];
    let st = status(rows, ipv4s, Some("10.0.1.212".into()));
    let names: Vec<&str> = st.interfaces.iter().map(|i| i.name.as_str()).collect();
    assert_eq!(names, vec!["eth0", "eth1", "wlan0"]);
    assert!(st.interfaces[0].is_default);
    assert_eq!(st.interfaces[1].connection, None);
    assert_eq!(format_ip_status_line(&Ok(st), None), "eth0=10.0.1.212* wlan0=10.0.1.228");
    assert_eq!(format_ip_status_line(&Err(NetworkError::NotAvailable), None), "n/a");
    assert_eq!(format_ip_status_line(&Err(NetworkError::NotAvailable), Some("1.2.3.4".into())), "1.2.3.4");
}

#[test]
fn nmcli_outcomes() {
    assert_eq!(nmcli_outcome(true, Some(0), "out".into(), "").unwrap(), "out");
    match nmcli_outcome(false, Some(8), String::new(), "  boom \n") {
        Err(NetworkError::Failed(m)) => assert_eq!(m, "boom"),
        _ => panic!("expected failure"),
    }
    match nmcli_outcome(false, None, String::new(), "") {
        Err(NetworkError::Failed(m)) => assert_eq!(m, "exit code -1"),
        _ => panic!("expected failure"),
    }
}

#[test]
fn rf_registry_tracks_the_radio() {
    let mut rf = RfRegistry::new();
    assert_eq!(rf.get().state, RfState::Starting);
    rf.set_starting("SoapySdr");
    let s = rf.get();
    assert_eq!((s.detail.as_str(), s.backend.as_str()), ("Opening SDR…", "SoapySdr"));
    rf.set_online("SoapySdr", "sx");
    assert_eq!(rf.get().state, RfState::Online);
    rf.set_offline("disabled");
    assert_eq!(rf.get().backend, "None");
    rf.set_error("SoapySdr", "open failed");
    assert_eq!(rf.get().state, RfState::Error);
    assert!(!rf.ota_rf_off_requested());
    rf.request_ota_rf_off();
    rf.set_online("SoapySdr", "back");
    assert!(rf.ota_rf_off_requested());
    let d = RfStatus::default();
    assert_eq!(d.detail, "RF not initialised yet");
}

#[test]
fn setup_decisions() {
    let s = mark_complete(SetupState::default(), true, 100);
    assert!(s.setup_complete && s.skipped);
    assert_eq!((s.skipped_at, s.completed_at, s.version), (Some(100), None, 1));
    let s = mark_complete(s, false, 200);
    assert_eq!(s.completed_at, Some(200));
    assert_eq!(install_driver(" SX ").unwrap(), vec!["install-driver", "sx"]);
    assert_eq!(install_driver("hackrf").unwrap_err(), "unsupported driver (use sx or lime)");
    assert_eq!(parse_systemd_action("Restart-Service").unwrap(), SystemdAction::Restart);
    assert!(parse_systemd_action("stop").is_err());
    assert_eq!(helper_result(true, " \n", " warn ", "exit 0").unwrap(), "warn");
    assert_eq!(helper_result(false, "", "", "exit status: 3").unwrap_err(), "helper exited exit status: 3");
    assert_eq!(setup_json_path("/etc/flowstation/config.toml"), "/etc/flowstation/setup.json");
    assert_eq!(setup_json_path("config.toml"), "setup.json");
}

#[test]
fn write_roundtrip_insert() {
    let original = "config_version = \"0.6\"\n\n[cell_info]\ncolour_code = 1\nlocation_area = 2\n";
    let ov = SdsCommandRuntimeOverride {
        enabled: true,
        authorized_issis: vec![2144485],
        commands: vec![CfgSdsCommandEntry { status_code: 61000, action: "ip".into() }],
    };
    let out = compute_toml(original, &ov);
    assert!(out.contains("[cell_info.sds_command_control]"));
    assert!(out.contains("authorized_issis = [2144485]"));
    assert!(out.contains("status_code = 61000"));
    assert!(out.contains("action = \"ip\""));

    let off = SdsCommandRuntimeOverride { enabled: false, ..Default::default() };
    let out2 = compute_toml(&out, &off);
    assert!(!out2.contains("sds_command_control"));
}

fn from_serde(v: &serde_json::Value) -> Json {
    match v {
        serde_json::Value::Null => Json::Null,
        serde_json::Value::Bool(b) => Json::Bool(*b),
        serde_json::Value::Number(n) => Json::Number { as_u64: n.as_u64(), text: n.to_string() },
        serde_json::Value::String(s) => Json::Str(s.clone()),
        serde_json::Value::Array(a) => Json::Array(a.iter().map(from_serde).collect()),
        serde_json::Value::Object(m) => Json::Object(m.iter().map(|(k, v)| (k.clone(), from_serde(v))).collect()),
    }
}

#[test]
fn override_json_reads_back_as_the_same_override() {
    let ov = SdsCommandRuntimeOverride {
        enabled: false,
        authorized_issis: vec![7, 2144485, 16777215],
        commands: vec![
            CfgSdsCommandEntry { status_code: 61000, action: "ip".into() },
            CfgSdsCommandEntry { status_code: 2, action: "kick_all".into() },
            CfgSdsCommandEntry { status_code: 65535, action: "shutdown".into() },
        ],
    };
    let text = override_to_json(&ov);
    let value: serde_json::Value = serde_json::from_str(&text).unwrap();
    let back = parse_body(Ok(from_serde(&value))).unwrap();
    assert_eq!(back.enabled, ov.enabled);
    assert_eq!(back.authorized_issis, ov.authorized_issis);
    assert_eq!(back.commands.len(), ov.commands.len());
    for (a, b) in back.commands.iter().zip(ov.commands.iter()) {
        assert_eq!(a.status_code, b.status_code);
        assert_eq!(a.action, b.action);
    }
    let mut printed = Vec::new();
    flowstation::json::push_json_text(&mut printed, &obj(vec![
        ("enabled", Json::Bool(false)),
        ("authorized_issis", Json::Array(vec![num(7), num(2144485), num(16777215)])),
        ("commands", Json::Array(vec![
            obj(vec![("status_code", num(61000)), ("action", Json::Str("ip".into()))]),
            obj(vec![("status_code", num(2)), ("action", Json::Str("kick_all".into()))]),
            obj(vec![("status_code", num(65535)), ("action", Json::Str("shutdown".into()))]),
        ])),
        ("control_issi", num(9999)),
    ]));
    assert_eq!(printed.into_iter().collect::<String>(), text);
}
