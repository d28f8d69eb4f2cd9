use iureocr::commands::{
    case_label, display_name, folder_label, has_webdav_password, hostname_label, login_route, path_args,
    report_upload_progress, signed_in_name, truncate_text, update_target, webdav_password, webdav_token_label,
    LoginRoute,
};

fn strings(v: &[&str]) -> Vec<String> {
    v.iter().map(|s| s.to_string()).collect()
}

#[test]
fn update_targets() {
    assert_eq!(update_target("macos", "aarch64"), "darwin-aarch64");
    assert_eq!(update_target("linux", "x86_64"), "linux-x86_64");
}

#[test]
fn long_text_is_cut() {
    assert_eq!(truncate_text("héllo", Some(2)), "hé\n…");
    assert_eq!(truncate_text("héllo", Some(5)), "héllo");
    assert_eq!(truncate_text("héllo", None), "héllo");
    assert_eq!(truncate_text("abc", Some(0)), "\n…");
}

#[test]
fn arguments_the_app_was_opened_with() {
    let argv = strings(&["iureocr", "--flag", "/x/a.pdf", "iureocr://ocr?file=/x/b.pdf"]);
    assert_eq!(path_args(&argv, true), strings(&["/x/a.pdf", "iureocr://ocr?file=/x/b.pdf"]));
    assert_eq!(path_args(&argv, false), strings(&["/x/a.pdf"]));
    assert_eq!(path_args(&strings(&["iureocr"]), true), Vec::<String>::new());
}

#[test]
fn names_of_users() {
    assert_eq!(display_name(Some("Ana".into()), None), Some("Ana".to_string()));
    assert_eq!(display_name(None, Some("Ana Pérez".into())), Some("Ana Pérez".to_string()));
    assert_eq!(display_name(Some(" ".into()), Some("Ana".into())), None);
    assert_eq!(signed_in_name(None, None, "a@b.c".into()), "a@b.c");
    assert_eq!(signed_in_name(Some("Ana".into()), None, "a@b.c".into()), "Ana");
}

#[test]
fn labels_of_this_computer() {
    assert_eq!(hostname_label(Some("pc1".into()), Some("pc2".into()), None), "pc1");
    assert_eq!(hostname_label(None, None, Some(" pc3\n".into())), "pc3");
    assert_eq!(hostname_label(Some("".into()), Some("pc2".into()), None), "este equipo");
    assert_eq!(hostname_label(None, None, None), "este equipo");
    assert_eq!(webdav_token_label("pc1"), "IureOCR en pc1");
}

#[test]
fn webdav_passwords() {
    assert_eq!(webdav_password(Some("k".into()), "s"), Some("k".to_string()));
    assert_eq!(webdav_password(None, "s"), Some("s".to_string()));
    assert_eq!(webdav_password(None, "  "), None);
    assert!(has_webdav_password(&Some("k".into())));
    assert!(!has_webdav_password(&Some(" ".into())));
    assert!(!has_webdav_password(&None));
}

#[test]
fn sign_in_routes() {
    match login_route(Some("tok".into()), Some("123456".into())) {
        LoginRoute::Totp { token, code } => assert_eq!((token.as_str(), code.as_str()), ("tok", "123456")),
        LoginRoute::Password => panic!("expected the two-factor step"),
    }
    assert!(matches!(login_route(Some("".into()), Some("1".into())), LoginRoute::Password));
    assert!(matches!(login_route(None, Some("1".into())), LoginRoute::Password));
}

#[test]
fn upload_labels_and_progress() {
    assert_eq!(folder_label(""), "la raíz");
    assert_eq!(folder_label("Clientes/2024"), "Clientes/2024");
    assert_eq!(case_label(None), "sin proyecto");
    assert_eq!(case_label(Some("Caso 1".into())), "Caso 1");
    assert!(report_upload_progress(121, 0, 10));
    assert!(report_upload_progress(0, 10, 10));
    assert!(!report_upload_progress(120, 5, 10));
}
