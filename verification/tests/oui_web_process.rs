use nimbusdns::oui::{is_oui_format, OuiDb};
use nimbusdns::process::{
    has_capability, nice_to_set, other_instance_runs, parse_pid, signal_action, NimbusLogLevel,
    SignalAction,
};
use nimbusdns::web::{asset_name, mime_type};

const REGISTRY: &str = "\
OUI/MA-L                                                    Organization
# a comment
00-00-0C   (hex)\t\tCisco Systems, Inc
00000C     (base 16)\t\tCisco Systems, Inc
3C:22:FB   (hex)\t\tApple, Inc.
00-31-92   (hex)\t\tTP-Link Systems Inc
00-00-F0   (hex)\t\tSamsung Electronics Co.,Ltd\r
00-02-B3   (hex)\t\tIntel Corporation

00-02-B4   (hex)   \t
00-02-B5   (oct)\t\tNobody
";

#[test]
fn test_oui_format_check() {
    assert!(is_oui_format("00-00-00"));
    assert!(is_oui_format("AA-BB-CC"));
    assert!(is_oui_format("aa:bb:cc"));
    assert!(is_oui_format("3C:22:FB"));
    assert!(!is_oui_format(""));
    assert!(!is_oui_format("000000"));
    assert!(!is_oui_format("00-00-000"));
    assert!(!is_oui_format("xx-xx-xx"));
    assert!(!is_oui_format("00-00-0"));
}

#[test]
fn test_oui_basic_lookup() {
    let db = OuiDb::new(REGISTRY);
    let cisco = db.lookup(&[0x00, 0x00, 0x0C, 0x00, 0x00, 0x00]);
    assert!(cisco.is_some());
    assert!(cisco.unwrap().to_uppercase().contains("CISCO"));
    let apple = db.lookup(&[0x3C, 0x22, 0xFB, 0x00, 0x00, 0x00]);
    assert!(apple.is_some());
    assert!(apple.unwrap().to_uppercase().contains("APPLE"));
    let tplink = db.lookup(&[0x00, 0x31, 0x92, 0x00, 0x00, 0x00]);
    assert!(tplink.is_some());
    let tplink_name = tplink.unwrap().to_uppercase();
    assert!(
        tplink_name.contains("TPLINK")
            || tplink_name.contains("TP-LINK")
            || tplink_name.contains("TP LINK")
    );
    let samsung = db.lookup(&[0x00, 0x00, 0xF0, 0x00, 0x00, 0x00]);
    assert!(samsung.is_some());
    assert!(samsung.unwrap().to_uppercase().contains("SAMSUNG"));
    assert_eq!(samsung, Some("Samsung Electronics Co.,Ltd"));
    let intel = db.lookup(&[0x00, 0x02, 0xB3, 0x00, 0x00, 0x00]);
    assert!(intel.is_some());
    assert!(intel.unwrap().to_uppercase().contains("INTEL"));
    assert_eq!(db.lookup(&[0xFF, 0xFF, 0xFF, 0x00, 0x00, 0x00]), None);
    assert_eq!(db.lookup(&[0x00, 0x02, 0xB5, 1, 2, 3]), None);
    assert_eq!(db.len(), 5);
}

#[test]
fn test_oui_not_empty() {
    let db = OuiDb::new("00-00-0C   (hex)\t\tCisco Systems, Inc\n");
    assert!(!db.is_empty());
    assert!(db.len() > 0);
    assert!(OuiDb::new("# nothing\n").is_empty());
}

#[test]
fn lines_without_a_maker_are_passed_over() {
    let db = OuiDb::new("00-00-0C (hex)\n00-00-0D (base 16)   \n00-00-0 (hex) Short\n");
    assert!(db.is_empty());
    let db = OuiDb::new("00-00-0C (hex)\n00-00-0C (hex)\u{e9}clair \n");
    assert_eq!(db.lookup(&[0, 0, 0x0c, 0, 0, 0]), Some("\u{e9}clair"));
}

#[test]
fn the_first_line_of_a_prefix_counts() {
    let db = OuiDb::new("00-00-0C (hex) First\n00:00:0c (hex) Second\n00-00-0C (base 16) Third\n");
    assert_eq!(db.lookup(&[0, 0, 0x0c, 9, 9, 9]), Some("First"));
    assert_eq!(db.len(), 1);
    let db = OuiDb::new("00-00-0D (base 16) Maker");
    assert_eq!(db.lookup(&[0, 0, 0x0d, 0, 0, 0]), Some("Maker"));
}

#[test]
fn only_the_prefix_of_an_address_counts() {
    let db = OuiDb::new(REGISTRY);
    let (a, b) = (db.lookup(&[0x3c, 0x22, 0xfb, 1, 2, 3]), db.lookup(&[0x3c, 0x22, 0xfb, 9, 8, 7]));
    assert_eq!(a, b);
    assert_eq!(a, Some("Apple, Inc."));
    assert_eq!(db.lookup(&[0x3c, 0x22, 0xfc, 1, 2, 3]), None);
}

#[test]
fn test_mime_types() {
    assert_eq!(mime_type("index.html"), "text/html; charset=utf-8");
    assert_eq!(mime_type("style.css"), "text/css; charset=utf-8");
    assert_eq!(mime_type("app.js"), "application/javascript; charset=utf-8");
    assert_eq!(mime_type("logo.png"), "image/png");
    assert_eq!(mime_type("favicon.svg"), "image/svg+xml");
    assert_eq!(mime_type("favicon.ico"), "image/x-icon");
    assert_eq!(mime_type("data.bin"), "application/octet-stream");
}

#[test]
fn paths_name_files() {
    assert_eq!(asset_name(""), "index.html");
    assert_eq!(asset_name("/"), "index.html");
    assert_eq!(asset_name("index.html"), "index.html");
    assert_eq!(asset_name("//css/style.css"), "css/style.css");
    assert_eq!(asset_name("//"), "");
}

#[test]
fn test_check_other_instance() {
    assert!(!other_instance_runs(None, false), "missing pid file → no other instance");
    assert!(other_instance_runs(parse_pid("4321"), true), "a live PID must be detected");
    assert!(!other_instance_runs(parse_pid("999999999"), false));
    assert!(!other_instance_runs(parse_pid("not-a-pid"), true));
}

#[test]
fn process_numbers_are_read() {
    assert_eq!(parse_pid(" 1234\n"), Some(1234));
    assert_eq!(parse_pid("999999999"), Some(999999999));
    assert_eq!(parse_pid("-5"), Some(-5));
    assert_eq!(parse_pid("+5"), Some(5));
    assert_eq!(parse_pid("-+5"), None);
    assert_eq!(parse_pid("-"), None);
    assert_eq!(parse_pid("not-a-pid"), None);
    assert_eq!(parse_pid("2147483647"), Some(i32::MAX));
    assert_eq!(parse_pid("2147483648"), None);
    assert_eq!(parse_pid("-2147483648"), Some(i32::MIN));
    assert!(other_instance_runs(Some(1), true));
    assert!(!other_instance_runs(Some(1), false));
    assert!(!other_instance_runs(None, true));
}

#[test]
fn priorities_signals_and_levels() {
    assert_eq!(nice_to_set(-999), None);
    assert_eq!(nice_to_set(-10), Some(-10));
    assert!(has_capability(13));
    for s in [2, 3, 15] {
        assert_eq!(signal_action(s), SignalAction::Shutdown);
    }
    assert_eq!(signal_action(1), SignalAction::Reload);
    for s in [10, 12, 17, 99] {
        assert_eq!(signal_action(s), SignalAction::Ignore);
    }
    assert_eq!(NimbusLogLevel::Debug.as_str(), "DEBUG");
    assert_eq!(NimbusLogLevel::Info.as_str(), "INFO");
    assert_eq!(NimbusLogLevel::Warn.as_str(), "WARN");
    assert_eq!(NimbusLogLevel::Error.as_str(), "ERR");
    assert_eq!(NimbusLogLevel::Critical.as_str(), "CRIT");
}
