#![allow(unused_imports)]

use lopdf::{Dictionary, Document, Object, ObjectId, Stream};
use pdf_compose::error::{ComposeError, StructureFault};
use pdf_compose::extract::{extract_from, extract_pages, select_pages};

/// A page tagged with `marker`, with its own content stream and its own private object, and
/// with the font that all pages of the document share.
#[allow(dead_code)]
fn add_page(
    doc: &mut Document,
    parent: ObjectId,
    font: ObjectId,
    marker: i64,
    rotate: Option<i64>,
) -> ObjectId {
    let text = format!("page {}", marker).into_bytes();
    let content = doc.add_object(Stream::new(Dictionary::new(), text));
    let mut note = Dictionary::new();
    note.set("OnlyFor", Object::Integer(marker));
    let private = doc.add_object(Object::Dictionary(note));
    let mut fonts = Dictionary::new();
    fonts.set("F1", Object::Reference(font));
    let mut resources = Dictionary::new();
    resources.set("Font", Object::Dictionary(fonts));
    let mut page = Dictionary::new();
    page.set("Type", Object::Name(b"Page".to_vec()));
    page.set("Parent", Object::Reference(parent));
    page.set("Contents", Object::Reference(content));
    page.set("Resources", Object::Dictionary(resources));
    page.set("Private", Object::Reference(private));
    page.set("Marker", Object::Integer(marker));
    if let Some(value) = rotate {
        page.set("Rotate", Object::Integer(value));
    }
    doc.add_object(Object::Dictionary(page))
}

/// A document with one page for each marker, in that order.
#[allow(dead_code)]
fn document_with(pages: &[(i64, Option<i64>)]) -> Document {
    let mut doc = Document::with_version("1.5");
    let root = doc.new_object_id();
    let mut font = Dictionary::new();
    font.set("Type", Object::Name(b"Font".to_vec()));
    font.set("BaseFont", Object::Name(b"Courier".to_vec()));
    let font_id = doc.add_object(Object::Dictionary(font));
    let mut kids = Vec::new();
    for (marker, rotate) in pages {
        kids.push(Object::Reference(add_page(&mut doc, root, font_id, *marker, *rotate)));
    }
    let mut tree = Dictionary::new();
    tree.set("Type", Object::Name(b"Pages".to_vec()));
    tree.set("Count", Object::Integer(pages.len() as i64));
    tree.set("Kids", Object::Array(kids));
    doc.objects.insert(root, Object::Dictionary(tree));
    let mut catalog = Dictionary::new();
    catalog.set("Type", Object::Name(b"Catalog".to_vec()));
    catalog.set("Pages", Object::Reference(root));
    let catalog_id = doc.add_object(Object::Dictionary(catalog));
    doc.trailer.set("Root", Object::Reference(catalog_id));
    doc
}

#[allow(dead_code)]
fn plain(markers: &[i64]) -> Document {
    let pages: Vec<(i64, Option<i64>)> = markers.iter().map(|m| (*m, None)).collect();
    document_with(&pages)
}

#[allow(dead_code)]
fn bytes_of(doc: &mut Document) -> Vec<u8> {
    let mut buffer = Vec::new();
    doc.save_to(&mut buffer).unwrap();
    buffer
}

#[allow(dead_code)]
fn root_of(doc: &Document) -> &Dictionary {
    let catalog = doc.catalog().unwrap();
    let id = catalog.get(b"Pages").unwrap().as_reference().unwrap();
    doc.get_dictionary(id).unwrap()
}

#[allow(dead_code)]
fn kids_of(doc: &Document) -> Vec<ObjectId> {
    let kids = root_of(doc).get(b"Kids").unwrap().as_array().unwrap();
    kids.iter().map(|kid| kid.as_reference().unwrap()).collect()
}

#[allow(dead_code)]
fn count_of(doc: &Document) -> i64 {
    root_of(doc).get(b"Count").unwrap().as_i64().unwrap()
}

/// The markers of the pages, in page order.
#[allow(dead_code)]
fn markers_of(doc: &Document) -> Vec<i64> {
    doc.get_pages()
        .values()
        .map(|id| doc.get_dictionary(*id).unwrap().get(b"Marker").unwrap().as_i64().unwrap())
        .collect()
}

/// The text of each page's content stream, in page order.
#[allow(dead_code)]
fn texts_of(doc: &Document) -> Vec<String> {
    doc.get_pages()
        .values()
        .map(|id| String::from_utf8(doc.get_page_content(*id)).unwrap().trim_end().to_string())
        .collect()
}

fn extracted(doc: &mut Document, indices: Vec<u32>) -> Document {
    Document::load_mem(&extract_pages(&bytes_of(doc), indices).unwrap()).unwrap()
}

/// The `OnlyFor` notes that are left in the document.
fn notes_of(doc: &Document) -> Vec<i64> {
    let mut notes: Vec<i64> = doc
        .objects
        .values()
        .filter_map(|object| object.as_dict().ok())
        .filter_map(|dict| dict.get(b"OnlyFor").ok())
        .map(|value| value.as_i64().unwrap())
        .collect();
    notes.sort();
    notes
}

fn fonts_of(doc: &Document) -> usize {
    doc.objects.values().filter(|object| match object.as_dict() {
        Ok(dict) => dict.has_type(b"Font"),
        Err(_) => false,
    }).count()
}

#[test]
fn select_pages_keeps_the_order_of_the_indices() {
    let pages: Vec<ObjectId> = vec![(10, 0), (20, 0), (30, 0)];
    assert_eq!(select_pages(&pages, &vec![0, 2]), vec![(10, 0), (30, 0)]);
    assert_eq!(select_pages(&pages, &vec![2, 0, 1]), vec![(30, 0), (10, 0), (20, 0)]);
    assert_eq!(select_pages(&pages, &vec![1, 1]), vec![(20, 0), (20, 0)]);
}

#[test]
fn select_pages_passes_over_what_is_out_of_range() {
    let pages: Vec<ObjectId> = vec![(10, 0), (20, 0), (30, 0)];
    assert_eq!(select_pages(&pages, &vec![3]), Vec::<ObjectId>::new());
    assert_eq!(select_pages(&pages, &vec![99, 1, u32::MAX, 0]), vec![(20, 0), (10, 0)]);
    assert_eq!(select_pages(&pages, &Vec::new()), Vec::<ObjectId>::new());
    assert_eq!(select_pages(&Vec::new(), &vec![0]), Vec::<ObjectId>::new());
}

#[test]
fn extract_first_and_last_of_three() {
    let mut doc = plain(&[1, 2, 3]);
    let out = extracted(&mut doc, vec![0, 2]);
    assert_eq!(out.get_pages().len(), 2);
    assert_eq!(count_of(&out), 2);
    assert_eq!(markers_of(&out), vec![1, 3]);
    assert_eq!(texts_of(&out), vec!["page 1", "page 3"]);
    // What only the middle page used is gone; the font that all three shared is there.
    assert_eq!(notes_of(&out), vec![1, 3]);
    assert_eq!(fonts_of(&out), 1);
}

#[test]
fn extract_in_another_order() {
    let mut doc = plain(&[1, 2, 3]);
    let out = extracted(&mut doc, vec![2, 0]);
    assert_eq!(markers_of(&out), vec![3, 1]);
    assert_eq!(count_of(&out), 2);
}

#[test]
fn extract_passes_over_indices_out_of_range() {
    let mut doc = plain(&[1, 2, 3]);
    let out = extracted(&mut doc, vec![7, 1, 99]);
    assert_eq!(markers_of(&out), vec![2]);
    assert_eq!(count_of(&out), 1);
    assert_eq!(notes_of(&out), vec![2]);
}

#[test]
fn extract_of_no_index_fails() {
    let bytes = bytes_of(&mut plain(&[1, 2, 3]));
    assert_eq!(extract_pages(&bytes, Vec::new()), Err(ComposeError::EmptySelection));
}

#[test]
fn extract_of_only_indices_out_of_range_fails() {
    let bytes = bytes_of(&mut plain(&[1, 2, 3]));
    assert_eq!(extract_pages(&bytes, vec![99]), Err(ComposeError::EmptySelection));
    assert_eq!(extract_pages(&bytes, vec![3, 4]), Err(ComposeError::EmptySelection));
}

#[test]
fn extract_reports_what_it_cannot_read() {
    match extract_pages(b"%PDF-nothing", vec![0]) {
        Err(ComposeError::Parse { input, .. }) => assert_eq!(input, 0),
        other => panic!("unexpected {:?}", other),
    }
}

#[test]
fn extract_from_overwrites_the_child_list_and_count() {
    let mut doc = plain(&[1, 2, 3]);
    let pages: Vec<ObjectId> = doc.get_pages().values().cloned().collect();
    assert_eq!(extract_from(&mut doc, &vec![1]), Ok(()));
    assert_eq!(kids_of(&doc), vec![pages[1]]);
    assert_eq!(count_of(&doc), 1);
    assert!(!doc.objects.contains_key(&pages[0]));
    assert!(!doc.objects.contains_key(&pages[2]));
    assert!(doc.objects.contains_key(&pages[1]));
}

#[test]
fn extract_from_leaves_the_document_when_nothing_is_chosen() {
    let mut doc = plain(&[1, 2]);
    let before = doc.clone();
    assert_eq!(extract_from(&mut doc, &vec![5]), Err(ComposeError::EmptySelection));
    assert_eq!(doc.objects, before.objects);
}

#[test]
fn extract_from_a_document_without_pages_is_an_empty_selection() {
    let mut doc = Document::with_version("1.5");
    doc.add_object(Object::Integer(1));
    assert_eq!(extract_from(&mut doc, &vec![0]), Err(ComposeError::EmptySelection));
    let fault = ComposeError::Structure(StructureFault::RootMissing);
    assert_ne!(extract_from(&mut doc, &vec![0]), Err(fault));
}

#[test]
fn extract_from_a_nested_page_tree_flattens_it() {
    let mut doc = plain(&[1]);
    let root = doc.catalog().unwrap().get(b"Pages").unwrap().as_reference().unwrap();
    let font = doc.add_object(Object::Dictionary(Dictionary::new()));
    let inner = doc.new_object_id();
    let page = add_page(&mut doc, inner, font, 2, None);
    let mut node = Dictionary::new();
    node.set("Type", Object::Name(b"Pages".to_vec()));
    node.set("Count", Object::Integer(i64::MAX));
    node.set("Kids", Object::Array(vec![Object::Reference(page)]));
    doc.objects.insert(inner, Object::Dictionary(node));
    let tree = doc.get_dictionary_mut(root).unwrap();
    tree.get_mut(b"Kids").unwrap().as_array_mut().unwrap().push(Object::Reference(inner));
    assert_eq!(extract_from(&mut doc, &vec![1]), Ok(()));
    assert_eq!(kids_of(&doc), vec![page]);
    assert_eq!(count_of(&doc), 1);
}
