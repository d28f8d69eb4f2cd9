use base64::Engine;
use iureocr::pdf::{
    deletion_safe, delete_pages, delete_pages_checked, finished_bytes, open_for_editing, jpeg_data_url, keep_pages_checked, keep_pages, quality_for, rotate_pages, rotation, sibling_output,
    thumbnail_box, PageEditError,
};
use lopdf::{Dictionary, Document, Object, ObjectId};

fn document(pages: usize) -> (Document, Vec<ObjectId>) {
    let mut doc = Document::with_version("1.5");
    let pages_id = doc.new_object_id();
    let mut kids: Vec<Object> = Vec::new();
    let mut ids = Vec::new();
    for _ in 0..pages {
        let page = Dictionary::from_iter(vec![
            ("Type", Object::from("Page")),
            ("Parent", Object::from(pages_id)),
        ]);
        let id = doc.add_object(page);
        ids.push(id);
        kids.push(Object::from(id));
    }
    let tree = Dictionary::from_iter(vec![
        ("Type", Object::from("Pages")),
        ("Kids", Object::from(kids)),
        ("Count", Object::from(pages as i64)),
    ]);
    doc.objects.insert(pages_id, Object::Dictionary(tree));
    let catalog = Dictionary::from_iter(vec![
        ("Type", Object::from("Catalog")),
        ("Pages", Object::from(pages_id)),
    ]);
    let catalog_id = doc.add_object(catalog);
    doc.trailer.set("Root", Object::from(catalog_id));
    (doc, ids)
}

fn rotate_of(doc: &Document, id: ObjectId) -> Option<i64> {
    doc.get_dictionary(id)
        .unwrap()
        .get(b"Rotate")
        .ok()
        .and_then(|o| o.as_i64().ok())
}

#[test]
fn deleting_one_page_leaves_the_rest() {
    let (mut doc, ids) = document(3);
    assert_eq!(delete_pages(&mut doc, &[2]).unwrap(), 2);
    let left: Vec<ObjectId> = doc.get_pages().into_values().collect();
    assert_eq!(left, vec![ids[0], ids[2]]);
}

#[test]
fn deleting_every_page_is_refused() {
    let (mut doc, _) = document(3);
    let r = delete_pages(&mut doc, &[1, 2, 3]);
    assert!(matches!(r, Err(PageEditError::CannotRemoveAll)));
    assert_eq!(doc.get_pages().len(), 3);
}

#[test]
fn deleting_missing_pages_is_refused() {
    let (mut doc, _) = document(3);
    assert!(matches!(delete_pages(&mut doc, &[0, 4, 9]), Err(PageEditError::NothingToRemove)));
    assert_eq!(doc.get_pages().len(), 3);
}

#[test]
fn deleting_a_repeated_page_removes_it_once() {
    let (mut doc, ids) = document(3);
    assert_eq!(delete_pages(&mut doc, &[2, 2]).unwrap(), 2);
    let left: Vec<ObjectId> = doc.get_pages().into_values().collect();
    assert_eq!(left, vec![ids[0], ids[2]]);
    let (mut doc, ids) = document(2);
    assert_eq!(delete_pages(&mut doc, &[1, 1]).unwrap(), 1);
    let left: Vec<ObjectId> = doc.get_pages().into_values().collect();
    assert_eq!(left, vec![ids[1]]);
}

#[test]
fn keeping_one_page_removes_the_others() {
    let (mut doc, ids) = document(4);
    assert_eq!(keep_pages(&mut doc, &[3, 3, 7]).unwrap(), 1);
    let left: Vec<ObjectId> = doc.get_pages().into_values().collect();
    assert_eq!(left, vec![ids[2]]);
}

#[test]
fn keeping_two_pages_keeps_their_order() {
    let (mut doc, ids) = document(4);
    assert_eq!(keep_pages(&mut doc, &[4, 2]).unwrap(), 2);
    let left: Vec<ObjectId> = doc.get_pages().into_values().collect();
    assert_eq!(left, vec![ids[1], ids[3]]);
}

#[test]
fn keeping_nothing_or_everything_is_refused() {
    let (mut doc, _) = document(2);
    assert!(matches!(keep_pages(&mut doc, &[]), Err(PageEditError::ChooseAtLeastOne)));
    assert!(matches!(keep_pages(&mut doc, &[5]), Err(PageEditError::ChooseAtLeastOne)));
    assert!(matches!(keep_pages(&mut doc, &[2, 1]), Err(PageEditError::AlreadyAll)));
    assert_eq!(doc.get_pages().len(), 2);
}

#[test]
fn rotating_sets_the_rotate_entry() {
    let (mut doc, ids) = document(3);
    assert_eq!(rotate_pages(&mut doc, &[1, 3], 90).unwrap(), 2);
    assert_eq!(rotate_of(&doc, ids[0]), Some(90));
    assert_eq!(rotate_of(&doc, ids[1]), None);
    assert_eq!(rotate_of(&doc, ids[2]), Some(90));
    assert_eq!(rotate_pages(&mut doc, &[1], 270).unwrap(), 1);
    assert_eq!(rotate_of(&doc, ids[0]), Some(0));
    assert_eq!(doc.get_pages().len(), 3);
}

#[test]
fn rotating_a_page_listed_twice_turns_it_twice() {
    let (mut doc, ids) = document(1);
    assert_eq!(rotate_pages(&mut doc, &[1, 1], 90).unwrap(), 2);
    assert_eq!(rotate_of(&doc, ids[0]), Some(180));
}

#[test]
fn rotating_missing_pages_is_refused() {
    let (mut doc, _) = document(2);
    assert!(matches!(rotate_pages(&mut doc, &[3], 90), Err(PageEditError::NothingToRotate)));
}

#[test]
fn rotation_values() {
    assert_eq!(rotation(0, 90), 90);
    assert_eq!(rotation(270, 90), 0);
    assert_eq!(rotation(90, -90), 0);
    assert_eq!(rotation(0, 450), 90);
    assert_eq!(rotation(-90, 90), -90 + 90);
    assert_eq!(rotation(-90, 0), -90);
    assert_eq!(rotation(i64::MAX, 359), ((i64::MAX as i128 + 359) % 360) as i64);
}

#[test]
fn error_messages() {
    assert_eq!(PageEditError::CannotRemoveAll.message(), "No se pueden quitar todas las páginas");
    assert_eq!(PageEditError::NothingToRemove.message(), "No hay páginas que quitar");
    assert_eq!(PageEditError::ChooseAtLeastOne.message(), "Elige al menos una página");
    assert_eq!(PageEditError::AlreadyAll.message(), "Ya están todas las páginas");
    assert_eq!(PageEditError::NothingToRotate.message(), "No hay páginas que rotar");
    let e = PageEditError::Page { page: 12, detail: "roto".to_string() };
    assert_eq!(e.message(), "Página 12: roto");
}

#[test]
fn thumbnail_quality() {
    assert_eq!(quality_for(120), 70);
    assert_eq!(quality_for(400), 70);
    assert_eq!(quality_for(401), 85);
}

#[test]
fn thumbnail_boxes() {
    assert_eq!(thumbnail_box(1000, 120), Some((120, 360)));
    assert_eq!(thumbnail_box(120, 120), None);
    assert_eq!(thumbnail_box(50, 120), None);
}

#[test]
fn jpeg_data_urls() {
    let rgb = vec![200u8; 4 * 3 * 3];
    let url = jpeg_data_url(&rgb, 4, 3, 80).unwrap();
    assert!(url.starts_with("data:image/jpeg;base64,"));
    let bytes = base64::engine::general_purpose::STANDARD
        .decode(&url["data:image/jpeg;base64,".len()..])
        .unwrap();
    assert_eq!(&bytes[..2], &[0xFF, 0xD8]);
    assert!(jpeg_data_url(&[], 0, 3, 80).is_err());
}

#[test]
fn sibling_output_next_to_the_input() {
    let out = sibling_output("/no-such-folder-iureocr/Escaneo.pdf", " - rotado");
    assert_eq!(out, "/no-such-folder-iureocr/Escaneo - rotado.pdf");
    let out = sibling_output("contrato.pdf", " - páginas");
    assert_eq!(out, "contrato - páginas.pdf");
}

fn damage_tree(doc: &mut Document, count: i64, own_parent: bool) {
    let pages_id = doc
        .catalog()
        .unwrap()
        .get(b"Pages")
        .unwrap()
        .as_reference()
        .unwrap();
    let tree = doc.get_dictionary_mut(pages_id).unwrap();
    tree.set("Count", Object::Integer(count));
    if own_parent {
        tree.set("Parent", Object::Reference(pages_id));
    }
}

#[test]
fn a_page_tree_that_names_itself_as_parent_is_refused() {
    let (mut doc, _) = document(3);
    damage_tree(&mut doc, 3, true);
    assert!(!deletion_safe(&doc, &[2]));
    assert!(matches!(delete_pages_checked(&mut doc, &[2]), Err(PageEditError::DamagedPageTree)));
    assert!(matches!(keep_pages_checked(&mut doc, &[1]), Err(PageEditError::DamagedPageTree)));
    assert_eq!(doc.get_pages().len(), 3);
}

#[test]
fn a_count_at_its_lowest_is_refused() {
    let (mut doc, _) = document(3);
    damage_tree(&mut doc, i64::MIN, false);
    assert!(!deletion_safe(&doc, &[2]));
    assert!(matches!(delete_pages_checked(&mut doc, &[2]), Err(PageEditError::DamagedPageTree)));
    let (mut doc, _) = document(3);
    damage_tree(&mut doc, i64::MIN + 2, false);
    assert!(deletion_safe(&doc, &[1, 2]));
    assert!(!deletion_safe(&doc, &[1, 2, 3]));
}

#[test]
fn checked_edits_on_a_sound_tree() {
    let (mut doc, ids) = document(3);
    assert!(deletion_safe(&doc, &[1, 3]));
    assert_eq!(delete_pages_checked(&mut doc, &[3, 1]).unwrap(), 1);
    let left: Vec<ObjectId> = doc.get_pages().into_values().collect();
    assert_eq!(left, vec![ids[1]]);
    let (mut doc, ids) = document(4);
    assert_eq!(keep_pages_checked(&mut doc, &[4, 1]).unwrap(), 2);
    let left: Vec<ObjectId> = doc.get_pages().into_values().collect();
    assert_eq!(left, vec![ids[0], ids[3]]);
}

#[test]
fn turning_back_restores_the_rotation() {
    let (mut doc, ids) = document(2);
    assert_eq!(rotate_pages(&mut doc, &[1], 90).unwrap(), 1);
    assert_eq!(rotate_pages(&mut doc, &[1], -90).unwrap(), 1);
    assert_eq!(rotate_of(&doc, ids[0]), Some(0));
    assert_eq!(rotate_of(&doc, ids[1]), None);
}

#[test]
fn damaged_page_tree_message() {
    assert_eq!(PageEditError::DamagedPageTree.message(), "El árbol de páginas del PDF está dañado");
}

#[test]
fn an_inherited_rotation_is_turned_further() {
    let (mut doc, ids) = document(2);
    let pages_id = doc
        .catalog()
        .unwrap()
        .get(b"Pages")
        .unwrap()
        .as_reference()
        .unwrap();
    doc.get_dictionary_mut(pages_id).unwrap().set("Rotate", Object::Integer(90));
    assert_eq!(rotate_pages(&mut doc, &[2], 90).unwrap(), 1);
    assert_eq!(rotate_of(&doc, ids[1]), Some(180));
    assert_eq!(rotate_of(&doc, ids[0]), None);
}

#[test]
fn a_saved_document_opens_for_editing() {
    let (mut doc, _) = document(3);
    let mut bytes: Vec<u8> = Vec::new();
    doc.save_to(&mut bytes).unwrap();
    let mut opened = open_for_editing(&bytes).unwrap();
    assert_eq!(opened.get_pages().len(), 3);
    assert_eq!(delete_pages_checked(&mut opened, &[1]).unwrap(), 2);
    let out = finished_bytes(opened).unwrap();
    assert!(out.starts_with(b"%PDF-"));
    let again = open_for_editing(&out).unwrap();
    assert_eq!(again.get_pages().len(), 2);
}

#[test]
fn bytes_that_are_not_a_pdf_are_refused() {
    let r = open_for_editing(b"not a pdf");
    assert!(matches!(r, Err(PageEditError::Unreadable { .. })));
    assert_eq!(
        PageEditError::PasswordProtected.message(),
        "El PDF está protegido con contraseña; quítala antes de editarlo"
    );
    let m = PageEditError::Unreadable { detail: "x".to_string() }.message();
    assert_eq!(m, "No se pudo leer el PDF: x");
}
