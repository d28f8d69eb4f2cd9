use iureocr::paths::{bundled_folder, first_existing, first_found, first_free, free_path};
use std::path::Path;

fn strings(v: &[&str]) -> Vec<String> {
    v.iter().map(|s| s.to_string()).collect()
}

#[test]
fn the_first_found_path_is_chosen() {
    let paths = strings(&["/a", "/b", "/c"]);
    assert_eq!(first_found(&paths, &vec![false, true, true]), Some("/b".to_string()));
    assert_eq!(first_found(&paths, &vec![true]), Some("/a".to_string()));
    assert_eq!(first_found(&paths, &vec![false, false]), None);
    assert_eq!(first_found(&paths, &vec![]), None);
    assert_eq!(first_found(&vec![], &vec![true]), None);
}

#[test]
fn first_existing_probes_the_file_system() {
    let here = "/".to_string();
    let missing = "/iureocr-no-such-file-here".to_string();
    assert_eq!(first_existing(&vec![missing.clone(), here.clone()]), Some(here));
    assert_eq!(first_existing(&vec![missing]), None);
    assert_eq!(first_existing(&vec![]), None);
}

#[test]
fn bundled_folders() {
    let expected = Path::new("/app").join("resources").join("pdfium").to_string_lossy().into_owned();
    assert_eq!(bundled_folder(Some("/app"), "pdfium", true), Some(expected));
    assert_eq!(bundled_folder(Some("/app"), "pdfium", false), None);
    assert_eq!(bundled_folder(None, "pdfium", true), None);
}

#[test]
fn the_first_free_candidate_is_chosen() {
    let cands = strings(&["/d/a.pdf", "/d/a (2).pdf", "/d/a (3).pdf"]);
    assert_eq!(first_free(&cands, &vec![false, false, false]), "/d/a.pdf");
    assert_eq!(first_free(&cands, &vec![true, false]), "/d/a (2).pdf");
    assert_eq!(first_free(&cands, &vec![true, true, false]), "/d/a (3).pdf");
    assert_eq!(first_free(&cands, &vec![true, true, true]), "/d/a.pdf");
    assert_eq!(first_free(&cands, &vec![]), "/d/a.pdf");
}

#[test]
fn a_free_plain_name_is_taken_as_it_is() {
    let dir = "/iureocr-no-such-folder";
    let expected = Path::new(dir).join("scan - rotado.pdf").to_string_lossy().into_owned();
    assert_eq!(free_path(dir, "scan", " - rotado", "pdf"), expected);
}
