use iureocr::ocr::{
    announced_page_of, append_log, check_cancel, image_extension, input_kind, is_image, is_pdf, log_tail,
    page_image_name, page_list, pages_announced_in, pdf_extension, progress_step, require_pages, stop_if_cancelled,
    result_paths, should_skip, supported_extensions, tesseract_args, tesseract_env, tesseract_input,
    visible_chars, work_dir_name, InputKind, OcrError, Outcome, OutcomeNote, Request, LOG_LIMIT,
};
use iureocr::settings::Settings;
use std::sync::atomic::AtomicBool;

#[test]
fn kinds_of_input() {
    assert!(is_pdf("/x/Escaneo.PDF"));
    assert!(!is_pdf("/x/Escaneo.pdf.txt"));
    assert!(is_image("foto.JPG"));
    assert!(is_image("scan.tiff"));
    assert!(!is_image("scan.pdf"));
    assert!(!is_image("README"));
    assert!(matches!(input_kind("a.pdf"), InputKind::Pdf));
    assert!(matches!(input_kind("a.webp"), InputKind::Image));
    assert!(matches!(input_kind("a.docx"), InputKind::Unsupported));
    assert!(image_extension("GiF"));
    assert!(pdf_extension("Pdf"));
    assert_eq!(supported_extensions(), vec!["pdf", "jpg", "jpeg", "png", "tif", "tiff", "bmp", "webp", "gif"]);
}

#[test]
fn text_layer_threshold() {
    assert!(should_skip(100, false));
    assert!(!should_skip(99, false));
    assert!(!should_skip(5000, true));
    assert_eq!(visible_chars(" a b\tc\n\u{3000}"), 3);
    assert_eq!(visible_chars(""), 0);
}

#[test]
fn names_of_pages_and_folders() {
    assert_eq!(page_image_name(0), "p00001.jpg");
    assert_eq!(page_image_name(41), "p00042.jpg");
    assert_eq!(page_image_name(99999), "p100000.jpg");
    assert_eq!(work_dir_name("7"), "iureocr-7");
}

#[test]
fn a_pdf_without_pages_is_an_error() {
    assert!(matches!(require_pages(0), Err(OcrError::NoPages)));
    assert!(require_pages(2).is_ok());
}

#[test]
fn cancellation() {
    assert!(check_cancel(&AtomicBool::new(false)).is_ok());
    assert!(matches!(check_cancel(&AtomicBool::new(true)), Err(OcrError::Cancelled)));
}

#[test]
fn tesseract_command_line() {
    let args = tesseract_args("/t/p.txt", "/t/salida", "spa+eng", 300, Some("/r/tessdata"));
    assert_eq!(
        args,
        vec![
            "/t/p.txt", "/t/salida", "-l", "spa+eng", "--dpi", "300", "--tessdata-dir", "/r/tessdata", "-c",
            "tessedit_create_pdf=1", "-c", "tessedit_create_txt=1",
        ]
    );
    let args = tesseract_args("a.png", "out", "eng", 72, None);
    assert_eq!(args, vec!["a.png", "out", "-l", "eng", "--dpi", "72", "-c", "tessedit_create_pdf=1", "-c", "tessedit_create_txt=1"]);
    assert_eq!(
        tesseract_env(Some("/r/tessdata")),
        vec![
            ("TESSDATA_PREFIX".to_string(), "/r/tessdata".to_string()),
            ("OMP_THREAD_LIMIT".to_string(), "4".to_string())
        ]
    );
    assert_eq!(tesseract_env(None), vec![("OMP_THREAD_LIMIT".to_string(), "4".to_string())]);
}

#[test]
fn list_of_page_images() {
    let pages = vec!["/t/p00001.jpg".to_string(), "/t/p00002.jpg".to_string()];
    assert_eq!(page_list(&pages), "/t/p00001.jpg\n/t/p00002.jpg\n");
    assert_eq!(page_list(&vec![]), "\n");
    assert_eq!(tesseract_input(&pages, "/t/salida.lista.txt"), "/t/salida.lista.txt");
    let one = vec!["/x/foto.png".to_string()];
    assert_eq!(tesseract_input(&one, "/t/salida.lista.txt"), "/x/foto.png");
    assert_eq!(tesseract_input(&vec![], "/t/salida.lista.txt"), "/t/salida.lista.txt");
}

#[test]
fn reading_tesseract_progress() {
    assert_eq!(announced_page_of("Page 3"), Some(3));
    assert_eq!(announced_page_of("  Page 1 of 3 "), Some(1));
    assert_eq!(announced_page_of("Page  +7"), Some(7));
    assert_eq!(announced_page_of("Page x"), None);
    assert_eq!(announced_page_of("Pages 3"), None);
    assert_eq!(announced_page_of("Tesseract Open Source OCR Engine"), None);
    assert_eq!(pages_announced_in("Page 1\nx\nPage 2\n"), 2);
    assert_eq!(pages_announced_in("x\nPage 1\n"), 1);
    assert_eq!(pages_announced_in(""), 0);
    assert_eq!(progress_step(0, 0, 5), (0, None));
    assert_eq!(progress_step(0, 2, 5), (2, Some(2)));
    assert_eq!(progress_step(2, 7, 5), (7, Some(5)));
}

#[test]
fn keeping_tesseract_messages() {
    let mut log = String::new();
    append_log(&mut log, "Page 1");
    append_log(&mut log, "Page 2");
    assert_eq!(log, "Page 1\nPage 2\n");
    let mut full = "x".repeat(LOG_LIMIT);
    append_log(&mut full, "more");
    assert_eq!(full.len(), LOG_LIMIT);
    let text = "1\n2\n3\n4\n5\n6\n7\n8\n";
    assert_eq!(log_tail(text), "3 · 4 · 5 · 6 · 7 · 8");
    assert_eq!(log_tail("only"), "only");
    assert_eq!(log_tail(""), "");
}

#[test]
fn outcomes() {
    let o = Outcome::skipped(250);
    assert!(o.skipped && o.pages == 0 && o.chars == 250 && o.pdf_path.is_none());
    assert!(matches!(o.note, Some(OutcomeNote::AlreadyHasText)));
    let o = Outcome::finished("a.pdf".into(), "a.txt".into(), 2, 39);
    assert!(matches!(o.note, Some(OutcomeNote::LittleText)));
    let o = Outcome::finished("a.pdf".into(), "a.txt".into(), 2, 40);
    assert!(o.note.is_none() && !o.skipped && o.pages == 2);
}

#[test]
fn requests_follow_the_settings() {
    let mut s = Settings::default();
    let r = Request::for_file("j1".into(), "/docs/Escaneo.pdf".into(), &s, false);
    assert_eq!(r.output_dir, "/docs");
    assert_eq!(r.languages, "spa+eng");
    assert_eq!(r.dpi, 300);
    assert_eq!(r.suffix, " - OCR");
    s.output_mode = "custom".into();
    s.output_dir = Some("  /salida  ".into());
    let r = Request::for_file("j2".into(), "/docs/Escaneo.pdf".into(), &s, true);
    assert_eq!(r.output_dir, "/salida");
    assert!(r.force);
    s.output_dir = Some("   ".into());
    let r = Request::for_file("j3".into(), "Escaneo.pdf".into(), &s, false);
    assert_eq!(r.output_dir, "");
}

#[test]
fn result_files() {
    let (pdf, txt) = result_paths("/no-such-folder-iureocr", "Escaneo", " - OCR");
    assert_eq!(pdf, "/no-such-folder-iureocr/Escaneo - OCR.pdf");
    assert_eq!(txt, "/no-such-folder-iureocr/Escaneo - OCR.txt");
}

#[test]
fn cancelled_jobs_stop() {
    assert!(matches!(stop_if_cancelled(true), Err(OcrError::Cancelled)));
    assert!(stop_if_cancelled(false).is_ok());
}
