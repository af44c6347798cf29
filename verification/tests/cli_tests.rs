use epdrunner::cli::{chosen_suite, Cli, InbuiltEpd};

#[test]
fn suite_names_select_their_suites() {
    assert_eq!(InbuiltEpd::from_name("winatchess"), Some(InbuiltEpd::WinAtChess));
    assert_eq!(InbuiltEpd::from_name("wac"), Some(InbuiltEpd::WinAtChess));
    assert_eq!(InbuiltEpd::from_name("zugzwangs"), Some(InbuiltEpd::Zugzwangs));
    assert_eq!(InbuiltEpd::from_name("zugts"), Some(InbuiltEpd::Zugzwangs));
    assert_eq!(InbuiltEpd::from_name("tablebases"), Some(InbuiltEpd::Tablebases));
    assert_eq!(InbuiltEpd::from_name("tbs"), Some(InbuiltEpd::Tablebases));
    assert_eq!(InbuiltEpd::from_name("openings"), None);
    assert_eq!(InbuiltEpd::from_name(""), None);
}

#[test]
fn configuration_is_plain_data() {
    let cli = Cli {
        engine: "/usr/bin/some-engine".to_string(),
        inbuilt: Some(InbuiltEpd::WinAtChess),
        epdpath: None,
        option: vec!["Hash=64".to_string()],
        verbose: false,
        debug: false,
        go: Some("depth 10".to_string()),
        earlypass: true,
    };
    assert_eq!(cli.option.len(), 1);
    assert!(cli.earlypass);
}

#[test]
fn suite_defaults_to_win_at_chess() {
    assert_eq!(chosen_suite(&None), InbuiltEpd::WinAtChess);
    assert_eq!(
        chosen_suite(&Some(InbuiltEpd::Tablebases)),
        InbuiltEpd::Tablebases
    );
}
