#![allow(unused_imports)]

use lopdf::{Dictionary, Document, Object, ObjectId, Stream};
use pdf_compose::error::ComposeError;
use pdf_compose::rotation::{reduce_delta, rotate_document, rotate_page, rotate_pdf, rotated_value};

/// A page tagged with `marker`, with its own content stream and its own private object, and
/// with the font that all pages of the document share.
#[allow(dead_code)]
fn add_page(
    doc: &mut Document,
    parent: ObjectId,
    font: ObjectId,
    marker: i64,
    rotate: Option<i64>,
) -> ObjectId {
    let text = format!("page {}", marker).into_bytes();
    let content = doc.add_object(Stream::new(Dictionary::new(), text));
    let mut note = Dictionary::new();
    note.set("OnlyFor", Object::Integer(marker));
    let private = doc.add_object(Object::Dictionary(note));
    let mut fonts = Dictionary::new();
    fonts.set("F1", Object::Reference(font));
    let mut resources = Dictionary::new();
    resources.set("Font", Object::Dictionary(fonts));
    let mut page = Dictionary::new();
    page.set("Type", Object::Name(b"Page".to_vec()));
    page.set("Parent", Object::Reference(parent));
    page.set("Contents", Object::Reference(content));
    page.set("Resources", Object::Dictionary(resources));
    page.set("Private", Object::Reference(private));
    page.set("Marker", Object::Integer(marker));
    if let Some(value) = rotate {
        page.set("Rotate", Object::Integer(value));
    }
    doc.add_object(Object::Dictionary(page))
}

/// A document with one page for each marker, in that order.
#[allow(dead_code)]
fn document_with(pages: &[(i64, Option<i64>)]) -> Document {
    let mut doc = Document::with_version("1.5");
    let root = doc.new_object_id();
    let mut font = Dictionary::new();
    font.set("Type", Object::Name(b"Font".to_vec()));
    font.set("BaseFont", Object::Name(b"Courier".to_vec()));
    let font_id = doc.add_object(Object::Dictionary(font));
    let mut kids = Vec::new();
    for (marker, rotate) in pages {
        kids.push(Object::Reference(add_page(&mut doc, root, font_id, *marker, *rotate)));
    }
    let mut tree = Dictionary::new();
    tree.set("Type", Object::Name(b"Pages".to_vec()));
    tree.set("Count", Object::Integer(pages.len() as i64));
    tree.set("Kids", Object::Array(kids));
    doc.objects.insert(root, Object::Dictionary(tree));
    let mut catalog = Dictionary::new();
    catalog.set("Type", Object::Name(b"Catalog".to_vec()));
    catalog.set("Pages", Object::Reference(root));
    let catalog_id = doc.add_object(Object::Dictionary(catalog));
    doc.trailer.set("Root", Object::Reference(catalog_id));
    doc
}

#[allow(dead_code)]
fn plain(markers: &[i64]) -> Document {
    let pages: Vec<(i64, Option<i64>)> = markers.iter().map(|m| (*m, None)).collect();
    document_with(&pages)
}

#[allow(dead_code)]
fn bytes_of(doc: &mut Document) -> Vec<u8> {
    let mut buffer = Vec::new();
    doc.save_to(&mut buffer).unwrap();
    buffer
}

#[allow(dead_code)]
fn root_of(doc: &Document) -> &Dictionary {
    let catalog = doc.catalog().unwrap();
    let id = catalog.get(b"Pages").unwrap().as_reference().unwrap();
    doc.get_dictionary(id).unwrap()
}

#[allow(dead_code)]
fn kids_of(doc: &Document) -> Vec<ObjectId> {
    let kids = root_of(doc).get(b"Kids").unwrap().as_array().unwrap();
    kids.iter().map(|kid| kid.as_reference().unwrap()).collect()
}

#[allow(dead_code)]
fn count_of(doc: &Document) -> i64 {
    root_of(doc).get(b"Count").unwrap().as_i64().unwrap()
}

/// The markers of the pages, in page order.
#[allow(dead_code)]
fn markers_of(doc: &Document) -> Vec<i64> {
    doc.get_pages()
        .values()
        .map(|id| doc.get_dictionary(*id).unwrap().get(b"Marker").unwrap().as_i64().unwrap())
        .collect()
}

/// The text of each page's content stream, in page order.
#[allow(dead_code)]
fn texts_of(doc: &Document) -> Vec<String> {
    doc.get_pages()
        .values()
        .map(|id| String::from_utf8(doc.get_page_content(*id)).unwrap().trim_end().to_string())
        .collect()
}

/// The orientation entry of each page, in page order.
fn rotations_of(doc: &Document) -> Vec<Option<i64>> {
    doc.get_pages()
        .values()
        .map(|id| doc.get_dictionary(*id).unwrap().get(b"Rotate").ok())
        .map(|entry| entry.map(|value| value.as_i64().unwrap()))
        .collect()
}

fn rotated(doc: &mut Document, degrees: i32) -> Document {
    Document::load_mem(&rotate_pdf(&bytes_of(doc), degrees).unwrap()).unwrap()
}

#[test]
fn reduce_delta_keeps_the_sign() {
    assert_eq!(reduce_delta(0), 0);
    assert_eq!(reduce_delta(90), 90);
    assert_eq!(reduce_delta(360), 0);
    assert_eq!(reduce_delta(450), 90);
    assert_eq!(reduce_delta(-90), -90);
    assert_eq!(reduce_delta(-450), -90);
    assert_eq!(reduce_delta(i32::MAX), 127);
    assert_eq!(reduce_delta(i32::MIN), -128);
}

#[test]
fn rotated_value_adds_and_reduces() {
    assert_eq!(rotated_value(0, 90), 90);
    assert_eq!(rotated_value(350, 20), 10);
    assert_eq!(rotated_value(-350, -20), -10);
    assert_eq!(rotated_value(90, -180), -90);
    assert_eq!(rotated_value(270, 90), 0);
    assert_eq!(rotated_value(450, 0), 90);
    assert_eq!(rotated_value(-450, 0), -90);
}

#[test]
fn rotated_value_does_not_reduce_the_old_value_first() {
    // 361 - 2 is 359; reducing 361 to 1 first would give -1.
    assert_eq!(rotated_value(361, -2), 359);
}

#[test]
fn rotated_value_at_the_ends_of_the_range() {
    assert_eq!(rotated_value(i64::MAX, 359), ((i64::MAX as i128 + 359) % 360) as i64);
    assert_eq!(rotated_value(i64::MIN, -359), ((i64::MIN as i128 - 359) % 360) as i64);
    assert_eq!(rotated_value(i64::MAX, 359), 6);
    assert_eq!(rotated_value(i64::MIN, -359), -7);
}

#[test]
fn rotate_by_zero_keeps_orientations() {
    let mut doc = document_with(&[(1, Some(0)), (2, Some(90)), (3, Some(-270)), (4, Some(359))]);
    let out = rotated(&mut doc, 0);
    assert_eq!(rotations_of(&out), vec![Some(0), Some(90), Some(-270), Some(359)]);
    assert_eq!(markers_of(&out), vec![1, 2, 3, 4]);
}

#[test]
fn rotate_by_zero_reduces_more_than_a_full_turn() {
    let mut doc = document_with(&[(1, Some(450))]);
    assert_eq!(rotations_of(&rotated(&mut doc, 0)), vec![Some(90)]);
}

#[test]
fn rotate_gives_pages_without_orientation_the_delta() {
    let mut doc = document_with(&[(1, None), (2, Some(90)), (3, None)]);
    let out = rotated(&mut doc, 90);
    assert_eq!(rotations_of(&out), vec![Some(90), Some(180), Some(90)]);
}

#[test]
fn rotate_reduces_the_delta_first() {
    let mut doc = document_with(&[(1, Some(10)), (2, Some(350))]);
    assert_eq!(rotations_of(&rotated(&mut doc, 720 + 20)), vec![Some(30), Some(10)]);
    assert_eq!(rotations_of(&rotated(&mut doc, -720 - 20)), vec![Some(-10), Some(330)]);
}

#[test]
fn rotate_then_back_restores_modulo_a_turn() {
    for degrees in [90, -90, 180, 270, 45, 725, -1000] {
        let mut doc = document_with(&[(1, Some(0)), (2, Some(90)), (3, Some(350)), (4, None)]);
        let mut once = rotated(&mut doc, degrees);
        let back = rotated(&mut once, -degrees);
        let before = [0i64, 90, 350, 0];
        for (after, old) in rotations_of(&back).iter().zip(before.iter()) {
            assert_eq!((after.unwrap() - old).rem_euclid(360), 0);
        }
    }
}

#[test]
fn rotate_twice_is_rotate_by_the_sum() {
    for (first, second) in [(90, 90), (10, 20), (350, 20), (0, 0), (400, 500)] {
        let mut doc = document_with(&[(1, Some(0)), (2, Some(90)), (3, Some(350)), (4, None)]);
        let mut once = rotated(&mut doc, first);
        let twice = rotated(&mut once, second);
        let sum = rotated(&mut doc, first + second);
        assert_eq!(rotations_of(&twice), rotations_of(&sum));
    }
}

#[test]
fn rotate_twice_with_mixed_signs_agrees_modulo_a_turn() {
    let mut doc = document_with(&[(1, Some(350))]);
    let mut once = rotated(&mut doc, 20);
    let twice = rotated(&mut once, -20);
    let sum = rotated(&mut doc, 0);
    assert_eq!(rotations_of(&twice), vec![Some(-10)]);
    assert_eq!(rotations_of(&sum), vec![Some(350)]);
}

#[test]
fn rotate_leaves_order_tree_and_objects() {
    let mut doc = plain(&[1, 2, 3]);
    let before = doc.clone();
    rotate_document(&mut doc, 90);
    assert_eq!(kids_of(&doc), kids_of(&before));
    assert_eq!(count_of(&doc), 3);
    assert_eq!(doc.trailer, before.trailer);
    assert_eq!(doc.max_id, before.max_id);
    let ids: Vec<ObjectId> = doc.objects.keys().cloned().collect();
    let old_ids: Vec<ObjectId> = before.objects.keys().cloned().collect();
    assert_eq!(ids, old_ids);
    let pages: Vec<ObjectId> = doc.get_pages().values().cloned().collect();
    for (id, object) in &doc.objects {
        if !pages.contains(id) {
            assert_eq!(Some(object), before.objects.get(id));
        }
    }
    assert_eq!(rotations_of(&doc), vec![Some(90), Some(90), Some(90)]);
}

#[test]
fn rotate_page_passes_over_what_is_no_dictionary() {
    let mut doc = plain(&[1]);
    let number = doc.add_object(Object::Integer(5));
    let before = doc.clone();
    rotate_page(&mut doc, number, 90);
    rotate_page(&mut doc, (4000, 0), 90);
    assert_eq!(doc.objects, before.objects);
}

#[test]
fn rotate_page_follows_references() {
    let mut doc = plain(&[1]);
    let page = *doc.get_pages().get(&1).unwrap();
    let alias = doc.add_object(Object::Reference(page));
    rotate_page(&mut doc, alias, 90);
    assert_eq!(doc.get_dictionary(page).unwrap().get(b"Rotate").unwrap().as_i64().unwrap(), 90);
    assert_eq!(doc.objects.get(&alias), Some(&Object::Reference(page)));
}

#[test]
fn rotate_page_replaces_an_orientation_that_is_no_integer() {
    let mut doc = plain(&[1]);
    let page = *doc.get_pages().get(&1).unwrap();
    doc.get_dictionary_mut(page).unwrap().set("Rotate", Object::Name(b"Sideways".to_vec()));
    rotate_page(&mut doc, page, 450 % 360);
    assert_eq!(doc.get_dictionary(page).unwrap().get(b"Rotate").unwrap(), &Object::Integer(90));
}

#[test]
fn rotate_pdf_reports_what_it_cannot_read() {
    match rotate_pdf(b"no document at all", 90) {
        Err(ComposeError::Parse { input, detail }) => {
            assert_eq!(input, 0);
            assert_eq!(detail, Document::load_mem(b"no document at all").unwrap_err().to_string());
        }
        other => panic!("unexpected {:?}", other),
    }
}

/// A document whose root lists one page and then a page tree node that claims `claimed`
/// pages and lists one.
fn nested(claimed: i64) -> Document {
    let mut doc = plain(&[1]);
    let root = doc.catalog().unwrap().get(b"Pages").unwrap().as_reference().unwrap();
    let font = doc.add_object(Object::Dictionary(Dictionary::new()));
    let inner = doc.new_object_id();
    let page = add_page(&mut doc, inner, font, 2, None);
    let mut node = Dictionary::new();
    node.set("Type", Object::Name(b"Pages".to_vec()));
    node.set("Parent", Object::Reference(root));
    node.set("Count", Object::Integer(claimed));
    node.set("Kids", Object::Array(vec![Object::Reference(page)]));
    doc.objects.insert(inner, Object::Dictionary(node));
    let tree = doc.get_dictionary_mut(root).unwrap();
    tree.get_mut(b"Kids").unwrap().as_array_mut().unwrap().push(Object::Reference(inner));
    tree.set("Count", Object::Integer(2));
    doc
}

#[test]
fn rotate_turns_the_pages_of_a_nested_page_tree() {
    let mut doc = nested(1);
    rotate_document(&mut doc, 90);
    let turned: Vec<Option<i64>> = [1i64, 2]
        .iter()
        .map(|marker| {
            doc.objects
                .values()
                .filter_map(|object| object.as_dict().ok())
                .filter(|dict| dict.has_type(b"Page"))
                .find(|dict| dict.get(b"Marker").unwrap().as_i64().unwrap() == *marker)
                .and_then(|dict| dict.get(b"Rotate").ok())
                .map(|value| value.as_i64().unwrap())
        })
        .collect();
    assert_eq!(turned, vec![Some(90), Some(90)]);
}

#[test]
fn rotate_takes_a_page_tree_node_that_claims_too_many_pages() {
    let mut doc = nested(i64::MAX);
    rotate_document(&mut doc, 90);
    let out = Document::load_mem(&rotate_pdf(&bytes_of(&mut nested(i64::MAX - 7)), 90).unwrap());
    assert!(out.is_ok());
}

#[test]
fn rotate_turns_a_page_that_is_listed_twice_twice() {
    let mut doc = plain(&[1]);
    let root = doc.catalog().unwrap().get(b"Pages").unwrap().as_reference().unwrap();
    let page = kids_of(&doc)[0];
    let tree = doc.get_dictionary_mut(root).unwrap();
    tree.get_mut(b"Kids").unwrap().as_array_mut().unwrap().push(Object::Reference(page));
    rotate_document(&mut doc, 90);
    assert_eq!(doc.get_dictionary(page).unwrap().get(b"Rotate").unwrap(), &Object::Integer(180));
}
