use flowstation::update_check::{
    branch_update_available, changelog_from_commits, commit_notes, commit_title, local_git_hash,
    nonblank_trimmed, notes_from_changelog, parse_bost_version_from_lib_rs, parse_changelog_sections,
    pick_notes, release_tag, report_from_branch_tip, report_from_latest_release, ChangelogEntry,
    NotesSource, SemVer, UpdateCheck,
};
use flowstation::update_check::{notes_step, NotesStep};

#[test]
fn parse_plain() {
    assert_eq!(SemVer::parse("0.2.5"), Some(SemVer { major: 0, minor: 2, patch: 5 }));
}

#[test]
fn parse_v_prefix_and_git_suffix() {
    assert_eq!(SemVer::parse("v0.1.0-2aad62c8"), Some(SemVer { major: 0, minor: 1, patch: 0 }));
}

#[test]
fn parse_bracket_header() {
    assert_eq!(SemVer::parse("[0.1.54]"), Some(SemVer { major: 0, minor: 1, patch: 54 }));
}

#[test]
fn notes_range_newest_first() {
    let md = r#"
# Changelog

## v0.1.54

- Feature A

## v0.1.53

- Fix B

## v0.1.52

- Fix C
"#;
    let local = SemVer::parse("0.1.52");
    let remote = SemVer::parse("0.1.54");
    let notes = notes_from_changelog(md, local, remote).unwrap();
    assert!(notes.contains("v0.1.54"));
    assert!(notes.contains("Feature A"));
    assert!(notes.contains("v0.1.53"));
    assert!(!notes.contains("Fix C"));
    assert!(notes.find("v0.1.54").unwrap() < notes.find("v0.1.53").unwrap());
}

#[test]
fn to_json_shape() {
    let u = UpdateCheck {
        current: "v0.1.0-abcd1234".into(),
        latest: Some("bost@ef012345".into()),
        update_available: true,
        release_url: Some("https://github.com/Aitorrio/bost-flowstation/tree/bost".to_string()),
        check_failed: false,
        channel: "stable".into(),
        branch: "bost".into(),
        remote_version: Some("0.1.54".into()),
        changelog: vec![ChangelogEntry { sha: "ef012345".into(), title: "Add OTA channels".into() }],
        changelog_truncated: false,
        release_notes: Some("## v0.1.54\n- Hello".into()),
        notes_source: NotesSource::Changelog,
    };
    let j = u.to_json();
    assert!(j.contains("\"notes_source\":\"changelog\""));
    assert!(j.contains("release_notes"));
    assert!(j.contains("Hello"));
}

#[test]
fn semver_edge_cases() {
    assert_eq!(SemVer::parse("  V3 "), Some(SemVer { major: 3, minor: 0, patch: 0 }));
    assert_eq!(SemVer::parse("1.x.7"), Some(SemVer { major: 1, minor: 0, patch: 7 }));
    assert_eq!(SemVer::parse("1.2.3+build.9"), Some(SemVer { major: 1, minor: 2, patch: 3 }));
    assert_eq!(SemVer::parse("x.1.2"), None);
    assert_eq!(SemVer::parse(""), None);
    assert_eq!(SemVer::parse("4294967296.0.0"), None);
    assert_eq!(SemVer { major: 0, minor: 1, patch: 54 }.display(), "0.1.54");
    let a = SemVer { major: 1, minor: 0, patch: 0 };
    let b = SemVer { major: 0, minor: 9, patch: 9 };
    assert!(a.is_newer_than(&b));
    assert!(!b.is_newer_than(&a));
    assert!(!a.is_newer_than(&a));
}

#[test]
fn unknown_report_and_full_json() {
    let u = UpdateCheck::unknown("v1", "beta", "beta");
    assert_eq!(
        u.to_json(),
        "{\"current\":\"v1\",\"latest\":null,\"update_available\":false,\"release_url\":null,\"check_failed\":true,\"channel\":\"beta\",\"branch\":\"beta\",\"remote_version\":null,\"changelog\":[],\"changelog_truncated\":false,\"release_notes\":null,\"notes_source\":\"none\"}"
    );
    assert_eq!(NotesSource::Commits.as_str(), "commits");
}

#[test]
fn json_escapes_quotes_and_newlines() {
    let mut u = UpdateCheck::unknown("a\"b\\c\nd\re", "stable", "main");
    u.changelog = vec![
        ChangelogEntry { sha: "1".into(), title: "x".into() },
        ChangelogEntry { sha: "2".into(), title: "y".into() },
    ];
    let j = u.to_json();
    assert!(j.starts_with("{\"current\":\"a\\\"b\\\\c\\nd\\re\""));
    assert!(j.contains("\"changelog\":[{\"sha\":\"1\",\"title\":\"x\"},{\"sha\":\"2\",\"title\":\"y\"}]"));
}

#[test]
fn local_hash_prefers_build_stamp() {
    assert_eq!(local_git_hash("2aad62c8-modified", "v0.1.0"), Some("2aad62c8".to_string()));
    assert_eq!(local_git_hash("unknown", "v0.1.0-abcd1234"), Some("abcd1234".to_string()));
    assert_eq!(local_git_hash("", "v0.1.0-1234"), None);
    assert_eq!(local_git_hash("", "0.3.24"), Some("0.3.24".to_string()));
}

#[test]
fn bost_version_from_lib_rs() {
    let src = "pub const PRODUCT_NAME: &str = \"x\";\n  pub const BOST_VERSION: &str = \"0.3.24\";\n";
    assert_eq!(parse_bost_version_from_lib_rs(src), Some("0.3.24".to_string()));
    assert_eq!(parse_bost_version_from_lib_rs("pub const BOST_VERSION"), None);
    assert_eq!(parse_bost_version_from_lib_rs("nothing here"), None);
}

#[test]
fn commit_titles_are_first_lines() {
    assert_eq!(commit_title("  Fix thing  \n\nBody"), "Fix thing");
    assert_eq!(commit_title(""), "");
    assert_eq!(commit_title(&"a".repeat(200)).len(), 160);
}

#[test]
fn changelog_sections_skip_blank_and_unversioned() {
    let md = "## v1.0.0\n\n## Unreleased\n- later\n## [0.9.0] - 2024\nbody\n";
    let secs = parse_changelog_sections(md);
    assert_eq!(secs, vec![(SemVer { major: 0, minor: 9, patch: 0 }, "body".to_string())]);
}

#[test]
fn notes_without_local_take_exactly_remote() {
    let md = "## v2.0.0\nnew\n## v1.0.0\nold\n";
    let notes = notes_from_changelog(md, None, SemVer::parse("1.0.0")).unwrap();
    assert_eq!(notes, "## v1.0.0\nold");
    assert_eq!(notes_from_changelog(md, None, None), None);
    assert_eq!(notes_from_changelog(md, SemVer::parse("2.0.0"), SemVer::parse("2.0.0")), None);
}

#[test]
fn branch_tip_comparison() {
    assert!(!branch_update_available("abcdef0123", Some("abcdef01")));
    assert!(!branch_update_available("abcdef0123", Some("abcdef0123456")));
    assert!(branch_update_available("abcdef0123", Some("12345678")));
    assert!(!branch_update_available("abcdef0123", None));
}

#[test]
fn commit_changelog_newest_first_and_capped() {
    let commits: Vec<(String, String)> = (0..12)
        .map(|i| (format!("{:012}", i), if i == 11 { String::new() } else { format!("commit {i}\nbody") }))
        .collect();
    let (entries, truncated) = changelog_from_commits(Some(commits));
    assert!(!truncated);
    assert_eq!(entries.len(), 9);
    assert_eq!(entries[0].title, "commit 10");
    assert_eq!(entries[0].sha, "00000000");
    let (none, t) = changelog_from_commits(None);
    assert!(none.is_empty() && t);
    let notes = commit_notes(&entries[..2].to_vec()).unwrap();
    assert_eq!(notes, "- commit 10 (00000000)\n- commit 9 (00000000)");
    assert_eq!(commit_notes(&Vec::new()), None);
}

#[test]
fn notes_preference_and_tags() {
    let (n, s) = pick_notes(None, Some("rel".into()), Some("c".into()));
    assert_eq!((n.as_deref(), s), (Some("rel"), NotesSource::Release));
    let (n, s) = pick_notes(None, None, None);
    assert_eq!((n, s), (None, NotesSource::Empty));
    assert_eq!(release_tag("0.1.2"), "v0.1.2");
    assert_eq!(release_tag("V0.1.2"), "V0.1.2");
    assert_eq!(nonblank_trimmed("  x \n"), Some("x".to_string()));
    assert_eq!(nonblank_trimmed(" \n"), None);
}

#[test]
fn reports_from_network_answers() {
    let r = report_from_branch_tip(
        "v0.1.0-abcd1234",
        "Beta",
        "ef0123456789",
        Some("abcd1234".into()),
        Some("0.1.54".into()),
        (Vec::new(), false),
        (None, NotesSource::Empty),
    );
    assert!(r.update_available && !r.check_failed && r.changelog_truncated);
    assert_eq!(r.latest.as_deref(), Some("beta@ef012345"));
    assert_eq!(r.release_url.as_deref(), Some("https://github.com/Aitorrio/bost-flowstation/tree/beta"));
    assert_eq!(r.channel, "beta");

    let r = report_from_latest_release("v0.1.0", "stable", Some("v0.2.0".into()), None, Some("  notes ".into()));
    assert!(r.update_available);
    assert_eq!(r.remote_version.as_deref(), Some("0.2.0"));
    assert_eq!(r.release_notes.as_deref(), Some("notes"));
    assert_eq!(r.notes_source, NotesSource::Release);
    assert_eq!(r.branch, "main");

    let r = report_from_latest_release("v0.1.0", "stable", None, None, None);
    assert!(r.check_failed);
}

#[test]
fn version_text_reads_back() {
    for v in [
        SemVer { major: 0, minor: 3, patch: 24 },
        SemVer { major: 10, minor: 0, patch: 7 },
        SemVer { major: 4294967295, minor: 4294967295, patch: 0 },
    ] {
        assert_eq!(SemVer::parse(&v.display()), Some(v));
    }
    assert_eq!(SemVer { major: 1, minor: 2, patch: 3 }.display(), "1.2.3");
}

#[test]
fn notes_are_gathered_changelog_then_release_then_commits() {
    let commits = vec![ChangelogEntry { sha: "abc".into(), title: "Fix".into() }];
    assert!(matches!(notes_step(None, None, "0.3.0", Some("0.3.2".into()), &commits), NotesStep::FetchChangelog));
    let md = "## [0.3.2]\n- two\n## [0.3.1]\n- one\n## [0.3.0]\n- zero\n".to_string();
    match notes_step(Some(Some(md)), None, "0.3.0", Some("0.3.2".into()), &commits) {
        NotesStep::Done { notes: Some(n), source: NotesSource::Changelog } => {
            assert!(n.contains("two") && n.contains("one") && !n.contains("zero"));
        }
        other => panic!("unexpected {:?}", other),
    }
    // No changelog: ask for the release body of the remote version.
    match notes_step(Some(None), None, "0.3.0", Some("0.3.2".into()), &commits) {
        NotesStep::FetchRelease { version } => assert_eq!(version, "0.3.2"),
        other => panic!("unexpected {:?}", other),
    }
    match notes_step(Some(None), Some(Some("  Notes  ".into())), "0.3.0", Some("0.3.2".into()), &commits) {
        NotesStep::Done { notes, source: NotesSource::Release } => assert_eq!(notes.as_deref(), Some("Notes")),
        other => panic!("unexpected {:?}", other),
    }
    // A blank body, or no remote version, falls back to the commits.
    assert!(matches!(
        notes_step(Some(None), Some(Some("  ".into())), "0.3.0", Some("0.3.2".into()), &commits),
        NotesStep::Done { source: NotesSource::Commits, .. }
    ));
    assert!(matches!(notes_step(Some(None), None, "0.3.0", None, &commits), NotesStep::Done { source: NotesSource::Commits, .. }));
    assert!(matches!(notes_step(Some(None), None, "0.3.0", None, &vec![]), NotesStep::Done { notes: None, source: NotesSource::Empty }));
}
