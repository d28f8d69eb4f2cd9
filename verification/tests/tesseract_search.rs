use iureocr::tesseract::{
    bundled_tessdata, candidates, exe_name, locate_next, locate_start, parse_languages, parse_version,
    platform_places_for, worth_probing, worth_probing_given, LocateAction,
};

#[test]
fn names_of_the_executable() {
    assert_eq!(exe_name(true), "tesseract.exe");
    assert_eq!(exe_name(false), "tesseract");
}

#[test]
fn order_of_candidates() {
    let platform = vec!["/usr/bin/tesseract".to_string(), "/usr/local/bin/tesseract".to_string()];
    let c = candidates(Some("/opt/t/tesseract"), Some("/app"), &platform, false);
    assert_eq!(
        c,
        vec![
            ("/opt/t/tesseract".to_string(), false),
            ("/app/resources/tesseract/tesseract".to_string(), true),
            ("/usr/bin/tesseract".to_string(), false),
            ("/usr/local/bin/tesseract".to_string(), false),
            ("tesseract".to_string(), false),
        ]
    );
    let c = candidates(Some("  "), None, &Vec::new(), true);
    assert_eq!(c, vec![("tesseract.exe".to_string(), false)]);
}

#[test]
fn bundled_models() {
    assert_eq!(bundled_tessdata(None), None);
    assert_eq!(bundled_tessdata(Some("/no-such-folder-iureocr")), None);
}

#[test]
fn probing() {
    assert!(worth_probing("tesseract"));
    assert!(!worth_probing("/no-such-folder-iureocr/tesseract"));
}

#[test]
fn version_answers() {
    assert_eq!(parse_version(b"tesseract 5.3.4\n leptonica-1.84.1\n", b"", true), Some("5.3.4".to_string()));
    assert_eq!(parse_version(b"", b"tesseract 4.1.1\r\n", true), Some("4.1.1".to_string()));
    assert_eq!(parse_version(b"", b"tesseract 4.1.1", false), None);
    assert_eq!(parse_version(b"v5\n", b"", false), Some("v5".to_string()));
    assert_eq!(parse_version(b"", b"", true), None);
}

#[test]
fn language_answers() {
    let out = b"List of available languages in \"/usr/share/tessdata/\" (3):\neng\nosd\nspa\n";
    assert_eq!(parse_languages(out, b""), vec!["eng", "osd", "spa"]);
    assert_eq!(parse_languages(b"", b"Error opening data\n  spa \n"), vec!["spa"]);
}

#[test]
fn search_stops_at_the_first_answer() {
    assert!(matches!(locate_start(0), LocateAction::NotFound));
    assert!(matches!(locate_start(3), LocateAction::Probe(0)));
    assert!(matches!(locate_next(3, 0, false), LocateAction::Probe(1)));
    assert!(matches!(locate_next(3, 1, true), LocateAction::Found(1)));
    assert!(matches!(locate_next(3, 2, false), LocateAction::NotFound));
}

#[test]
fn version_with_invalid_utf8() {
    assert_eq!(parse_version(&[0x74, 0x65, 0x73, 0x73, 0x65, 0x72, 0x61, 0x63, 0x74, 0x20, 0x35, 0xff, 0x0a], b"", true), Some("5\u{fffd}".to_string()));
}

#[test]
fn probing_given_the_file_answer() {
    assert!(worth_probing_given(1, false));
    assert!(worth_probing_given(0, false));
    assert!(worth_probing_given(3, true));
    assert!(!worth_probing_given(2, false));
}

#[test]
fn usual_places_per_system() {
    assert_eq!(
        platform_places_for("linux", None),
        vec!["/usr/bin/tesseract".to_string(), "/usr/local/bin/tesseract".to_string()]
    );
    assert_eq!(platform_places_for("macos", Some("/x")).len(), 3);
    assert_eq!(platform_places_for("macos", None)[0], "/opt/homebrew/bin/tesseract");
    assert_eq!(platform_places_for("windows", None).len(), 2);
    assert_eq!(platform_places_for("windows", Some("L")).len(), 3);
    assert!(platform_places_for("freebsd", None).is_empty());
}
