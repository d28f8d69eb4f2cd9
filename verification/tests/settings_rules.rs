use iureocr::settings::{PasswordAction, Settings};

#[test]
fn defaults() {
    let s = Settings::default();
    assert_eq!(s.languages, "spa+eng");
    assert_eq!(s.dpi, 300);
    assert_eq!(s.jpeg_quality, 80);
    assert_eq!(s.output_mode, "same");
    assert_eq!(s.suffix, " - OCR");
    assert!(s.skip_if_text && !s.auto_ocr && s.check_updates);
    assert_eq!(s.theme, "system");
    assert_eq!(s.ui_language, "auto");
}

#[test]
fn older_settings_keep_their_values() {
    // What an older file with only languages and theme parses to.
    let mut stored = Settings::default();
    stored.languages = "spa".into();
    stored.theme = "dark".into();
    let s = Settings::from_stored(Some(stored));
    assert_eq!(s.ui_language, "auto");
    assert_eq!(s.languages, "spa");
    assert_eq!(s.theme, "dark");
}

#[test]
fn stored_values_out_of_range_fall_back() {
    let mut stored = Settings::default();
    stored.languages = "  ".into();
    stored.dpi = 10;
    stored.jpeg_quality = 101;
    let s = Settings::from_stored(Some(stored));
    assert_eq!(s.languages, "spa+eng");
    assert_eq!(s.dpi, 300);
    assert_eq!(s.jpeg_quality, 80);
    let s = Settings::from_stored(None);
    assert_eq!(s.dpi, 300);
}

#[test]
fn values_from_the_interface_are_clamped() {
    let mut s = Settings::default();
    s.dpi = 10;
    s.jpeg_quality = 200;
    s.languages = "".into();
    let s = s.sanitized();
    assert_eq!((s.dpi, s.jpeg_quality, s.languages.as_str()), (72, 100, "spa+eng"));
    let mut s = Settings::default();
    s.dpi = 1200;
    s.jpeg_quality = 5;
    let s = s.sanitized();
    assert_eq!((s.dpi, s.jpeg_quality), (600, 30));
    let s2 = s.clone().sanitized();
    assert_eq!((s2.dpi, s2.jpeg_quality), (600, 30));
}

#[test]
fn account_and_password() {
    let mut s = Settings::default();
    assert!(s.account_missing());
    s.iure_domain = "despacho.iurefficient.com".into();
    s.iure_email = " ".into();
    assert!(s.account_missing());
    s.iure_email = "a@b.c".into();
    assert!(!s.account_missing());
    assert!(matches!(s.password_action(), PasswordAction::Forget));
    s.iure_app_password = "  secreto ".into();
    match s.password_action() {
        PasswordAction::Store(p) => assert_eq!(p, "secreto"),
        _ => panic!("expected a password to store"),
    }
}
