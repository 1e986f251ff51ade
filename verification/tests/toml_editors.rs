use flowstation::dashboard_auth::patch_dashboard_credentials;
use flowstation::dashboard_ports;
use flowstation::dual_carrier::{self, clamp_secondary_carrier_within, parse_dual_carrier, DualCarrierState};
use flowstation::ota_channel;
use flowstation::{is_product_repo_url, normalize_ota_channel, ota_branch_for_channel};

#[test]
fn replaces_existing_credentials() {
    let src = "\
[dashboard]
port = 8080
username = \"old\"
password = \"oldpass\"
";
    let out = patch_dashboard_credentials(src, "admin", "newpass");
    assert!(out.contains("username = \"admin\""));
    assert!(out.contains("password = \"newpass\""));
    assert!(!out.contains("oldpass"));
    assert!(out.contains("port = 8080"));
}

#[test]
fn inserts_into_dashboard_without_auth() {
    let src = "\
[dashboard]
port = 8080
bind = \"0.0.0.0\"
";
    let out = patch_dashboard_credentials(src, "admin", "1234");
    assert!(out.contains("[dashboard]"));
    assert!(out.contains("username = \"admin\""));
    assert!(out.contains("password = \"1234\""));
    assert!(out.contains("port = 8080"));
}

#[test]
fn appends_dashboard_when_missing() {
    let src = "config_version = \"0.6\"\n";
    let out = patch_dashboard_credentials(src, "u", "p");
    assert!(out.contains("[dashboard]"));
    assert!(out.contains("username = \"u\""));
    assert!(out.contains("password = \"p\""));
}

#[test]
fn escapes_quotes() {
    let src = "[dashboard]\n";
    let out = patch_dashboard_credentials(src, "a\"b", "c\\d");
    assert!(out.contains("username = \"a\\\"b\""));
    assert!(out.contains("password = \"c\\\\d\""));
}

#[test]
fn leaves_commented_examples() {
    let src = "\
[dashboard]
# username = \"example\"
# password = \"example\"
username = \"live\"
password = \"live\"
";
    let out = patch_dashboard_credentials(src, "admin", "x");
    assert!(out.contains("# username = \"example\""));
    assert!(out.contains("username = \"admin\""));
    assert_eq!(out.matches("username = \"admin\"").count(), 1);
}

#[test]
fn credentials_exact_output_with_following_section() {
    let out = patch_dashboard_credentials("[dashboard]\nport = 1\n[net]\nmcc = 1\n", "a", "b");
    assert_eq!(out, "[dashboard]\nusername = \"a\"\npassword = \"b\"\nport = 1\n[net]\nmcc = 1\n");
    let out = patch_dashboard_credentials("[dashboard]\nport = 8080\nbind = \"0.0.0.0\"\n", "admin", "1234");
    assert_eq!(out, "[dashboard]\nusername = \"admin\"\npassword = \"1234\"\nport = 8080\nbind = \"0.0.0.0\"\n");
    // Only the missing key is added after the header; the present one is replaced in place.
    let out = patch_dashboard_credentials("[dashboard]\nport = 1\npassword = \"x\"\n", "a", "b");
    assert_eq!(out, "[dashboard]\nusername = \"a\"\nport = 1\npassword = \"b\"\n");
    let out = patch_dashboard_credentials("mcc = 1", "a", "b");
    assert_eq!(out, "mcc = 1\n\n[dashboard]\nusername = \"a\"\npassword = \"b\"");
}

#[test]
fn migrates_8080_and_adds_https_port() {
    let src = "[dashboard]\nport = 8080\nusername = \"admin\"\n";
    let out = dashboard_ports::compute_toml(src);
    assert!(out.contains("port = 80"));
    assert!(!out.contains("port = 8080"));
    assert!(out.contains("https_port = 443"));
    assert!(out.contains("username = \"admin\""));
}

#[test]
fn leaves_custom_http_port() {
    let src = "[dashboard]\nport = 9080\n";
    let out = dashboard_ports::compute_toml(src);
    assert!(out.contains("port = 9080"));
    assert!(out.contains("https_port = 443"));
}

#[test]
fn keeps_existing_https_port() {
    let src = "[dashboard]\nport = 8080\nhttps_port = 9443\n";
    let out = dashboard_ports::compute_toml(src);
    assert!(out.contains("port = 80"));
    assert!(out.contains("https_port = 9443"));
    assert_eq!(out.matches("https_port").count(), 1);
}

#[test]
fn ports_quoted_and_indented_legacy_value() {
    let out = dashboard_ports::compute_toml("[dashboard]\n  port = \"8080\" # old\n[net]\n");
    assert_eq!(out, "[dashboard]\n  port = 80\nhttps_port = 443\n[net]\n");
    let unchanged = dashboard_ports::compute_toml("[net]\nport = 8080\n");
    assert_eq!(unchanged, "[net]\nport = 8080\n");
}

const SAMPLE: &str = "\
[net]
mcc = 1

[cell_info]
main_carrier = 1521                 # comment kept
# secondary_carrier = 1522          # optional, commented by default
duplex_spacing = 4

[phy_io.soapysdr]
tx_freq = 438025000.0
rx_freq = 433025000.0

[security]
issi_whitelist = []
";

#[test]
fn enable_inserts_both_keys_and_keeps_comments() {
    let out = dual_carrier::compute_toml(SAMPLE, true, Some(1522));
    assert!(out.contains("dual_carrier_enabled = true"));
    assert!(out.contains("secondary_carrier = 1522"));
    assert!(out.contains("# secondary_carrier = 1522          # optional, commented by default"));
    assert!(out.contains("[security]"));
    assert!(out.contains("main_carrier = 1521"));
    let cell_idx = out.find("[cell_info]").unwrap();
    let sec_idx = out.find("[security]").unwrap();
    let enabled_idx = out.find("dual_carrier_enabled = true").unwrap();
    assert!(cell_idx < enabled_idx && enabled_idx < sec_idx);
}

#[test]
fn disable_sets_flag_and_keeps_existing_secondary() {
    let enabled = dual_carrier::compute_toml(SAMPLE, true, Some(1522));
    let disabled = dual_carrier::compute_toml(&enabled, false, None);
    assert!(disabled.contains("dual_carrier_enabled = false"));
    assert!(!disabled.contains("dual_carrier_enabled = true"));
    assert!(disabled.contains("secondary_carrier = 1522"));
}

#[test]
fn toggling_is_idempotent_no_duplicate_keys() {
    let once = dual_carrier::compute_toml(SAMPLE, true, Some(1522));
    let twice = dual_carrier::compute_toml(&once, true, Some(1530));
    assert_eq!(twice.matches("dual_carrier_enabled =").count(), 1);
    assert_eq!(
        twice.lines().filter(|l| l.trim_start().starts_with("secondary_carrier =")).count(),
        1
    );
    assert!(twice.contains("secondary_carrier = 1530"));
}

#[test]
fn missing_cell_section_is_appended() {
    let out = dual_carrier::compute_toml("[net]\nmcc = 1\n", true, Some(1522));
    assert!(out.contains("[cell_info]"));
    assert!(out.contains("dual_carrier_enabled = true"));
    assert!(out.contains("secondary_carrier = 1522"));
}

#[test]
fn read_back_round_trips() {
    let st = parse_dual_carrier(&dual_carrier::compute_toml(SAMPLE, true, Some(1522)));
    assert_eq!(st, DualCarrierState { enabled: true, secondary_carrier: Some(1522) });
    assert!(st.active());
    let off = parse_dual_carrier(&dual_carrier::compute_toml(SAMPLE, false, None));
    assert_eq!(off, DualCarrierState { enabled: false, secondary_carrier: None });
    assert!(!off.active());
    let absent = parse_dual_carrier("[net]\nmcc = 1\n");
    assert_eq!(absent, DualCarrierState { enabled: true, secondary_carrier: None });
}

#[test]
fn clamp_keeps_secondary_in_passband() {
    let main = 1536u16;
    assert_eq!(clamp_secondary_carrier_within(main, 1537, 24), 1537);
    assert_eq!(clamp_secondary_carrier_within(main, 2000, 24), 1536 + 24);
    assert_eq!(clamp_secondary_carrier_within(main, 1000, 24), 1536 - 24);
    assert_ne!(clamp_secondary_carrier_within(main, main, 24), main);
    assert_eq!(clamp_secondary_carrier_within(3999, 3999, 24), 3998);
}

#[test]
fn default_stable() {
    assert_eq!(ota_channel::parse_ota_channel(""), "stable");
    assert_eq!(ota_channel::parse_ota_channel("[dashboard]\nota_channel = \"BETA\" # x\n"), "beta");
    assert_eq!(ota_channel::parse_ota_channel("[net]\nota_channel = \"beta\"\n"), "stable");
}

#[test]
fn insert_into_existing_dashboard() {
    let src = "[dashboard]\nport = 8080\n";
    let out = ota_channel::compute_toml(src, "beta");
    assert!(out.contains("ota_channel = \"beta\""));
    assert!(out.contains("port = 8080"));
}

#[test]
fn replace_existing() {
    let src = "[dashboard]\nota_channel = \"stable\"\n";
    let out = ota_channel::compute_toml(src, "beta");
    assert_eq!(out.matches("ota_channel").count(), 1);
    assert!(out.contains("ota_channel = \"beta\""));
}

#[test]
fn ota_channel_appends_section_and_normalizes() {
    assert_eq!(ota_channel::compute_toml("", "nightly"), "[dashboard]\nota_channel = \"stable\"");
    assert_eq!(ota_channel::compute_toml("a = 1\n", " Beta "), "a = 1\n\n[dashboard]\nota_channel = \"beta\"\n");
    let json = ota_channel::channel_json("[dashboard]\nota_channel = \"beta\"\n");
    assert!(json.starts_with("{\"channel\":\"beta\",\"branch\":\"beta\""));
    assert!(json.contains("{\"id\":\"stable\",\"branch\":\"main\""));
    assert!(json.contains("{\"id\":\"beta\",\"branch\":\"beta\""));
}

#[test]
fn channel_helpers() {
    assert_eq!(normalize_ota_channel("  BeTa\t"), "beta");
    assert_eq!(normalize_ota_channel("bost"), "stable");
    assert_eq!(ota_branch_for_channel("beta"), "beta");
    assert_eq!(ota_branch_for_channel("stable"), "main");
    assert!(is_product_repo_url("https://github.com/AITORRIO/Bost-FlowStation.git"));
    assert!(is_product_repo_url("git@github.com:aitorrio/ptbs"));
    assert!(!is_product_repo_url("https://github.com/other/repo"));
    assert!(is_product_repo_url("https://github.com/Aitorrio/bost-flowstation.git"));
    assert!(is_product_repo_url("https://github.com/aitorrio/PTBS"));
    assert!(is_product_repo_url("https://github.com/aitorrio/ptbs/"));
    assert!(!is_product_repo_url("https://github.com/razvanzeces/flowstation"));
    assert!(is_product_repo_url("https://github.com/Aitorrio/bost-flowstation/tree/bost"));
    assert!(is_product_repo_url("github.com/aitorrio/ptbs"));
    assert!(!is_product_repo_url("https://github.com/aitorrio/pt-bs"));
    assert!(!is_product_repo_url("aitorrio / ptbs"));
    assert!(!is_product_repo_url(""));
}

#[test]
fn sample_rate_is_read_from_the_soapysdr_section_only() {
    let src = "\
[phy_io]
sample_rate = 1

[phy_io.soapysdr]
# sample_rate = 2
  sample_rate = 600000.0   # device default
sample_rate = 3

[cell_info]
sample_rate = 4
";
    assert_eq!(dual_carrier::sample_rate_token(src).as_deref(), Some("600000.0"));
    assert_eq!(dual_carrier::sample_rate_token("[phy_io.soapysdr]\ntx_freq = 1\n"), None);
    assert_eq!(dual_carrier::sample_rate_token("sample_rate = 5\n"), None);
    // A value that is no number is still the one found; the caller reads it as a number.
    assert_eq!(dual_carrier::sample_rate_token("[phy_io.soapysdr]\nsample_rate = fast\nsample_rate = 7\n").as_deref(), Some("fast"));
}

#[test]
fn dual_carrier_rewrite_twice_is_rewrite_once() {
    let cases = [
        "",
        "[cell_info]\ncolour_code = 1\n",
        "a = 1\n[cell_info]\ndual_carrier_enabled = false\n# secondary_carrier = 9\nsecondary_carrier = 12\n[net_info]\nx = 2",
        "[net_info]\nsecondary_carrier = 3\n",
        "[cell_info]\r\nmain_carrier = 1\r\n",
    ];
    for original in cases {
        for secondary in [None, Some(7u16), Some(65535u16)] {
            for enabled in [true, false] {
                let once = dual_carrier::compute_toml(original, enabled, secondary);
                let twice = dual_carrier::compute_toml(&once, enabled, secondary);
                assert_eq!(twice, once, "{original:?} {enabled} {secondary:?}");
                assert_eq!(once.matches("dual_carrier_enabled").count(), original.matches("dual_carrier_enabled").count().max(1));
                if secondary.is_none() {
                    let carrier = |t: &str| {
                        t.lines().filter(|l| l.trim_start().starts_with("secondary_carrier")).map(String::from).collect::<Vec<_>>()
                    };
                    assert_eq!(carrier(&once), carrier(original));
                }
            }
        }
    }
}
