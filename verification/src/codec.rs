//! The boundary to the PDF codec, `lopdf`.
//!
//! The codec parses and writes documents and owns their in-memory form.  Everything in this file
//! is taken on trust: the types are opaque, the spec functions without a body name what the codec
//! holds or returns, and each function with `external_body` states what one call of the codec
//! does.  Nothing else in the crate is unproved.
use crate::graph::{followed, reachable_set, resolve, Entries, Graph, Node, ObjectId};
use crate::page_tree::flat;
use vstd::prelude::*;

verus! {

#[verifier::external_type_specification]
#[verifier::external_body]
pub struct ExDocument(lopdf::Document);

#[verifier::external_type_specification]
#[verifier::external_body]
pub struct ExObject(lopdf::Object);

#[verifier::external_type_specification]
#[verifier::external_body]
pub struct ExDictionary(lopdf::Dictionary);

#[verifier::external_type_specification]
#[verifier::external_body]
pub struct ExCodecError(lopdf::Error);

#[verifier::external_type_specification]
#[verifier::external_body]
pub struct ExIoError(std::io::Error);

/// The objects that a document holds, by identifier (`Document::objects`).
pub uninterp spec fn objects_of(doc: lopdf::Document) -> Graph;

/// The entries of a document's trailer (`Document::trailer`).
pub uninterp spec fn trailer_of(doc: lopdf::Document) -> Entries;

/// The counter from which a document mints identifiers (`Document::max_id`).
pub uninterp spec fn max_id_of(doc: lopdf::Document) -> u32;

/// What an object of the codec is.
pub uninterp spec fn node_of(object: lopdf::Object) -> Node;

/// The entries that a dictionary of the codec holds.
pub uninterp spec fn entries_of(dict: lopdf::Dictionary) -> Entries;

/// What `Document::save_to` writes for a document.
pub uninterp spec fn saved(doc: lopdf::Document) -> Result<Seq<u8>, std::io::Error>;

/// The pages that `Document::page_iter` yields, in page order.
pub uninterp spec fn pages_of(doc: lopdf::Document) -> Seq<ObjectId>;

/// The document that `Document::renumber_objects_with` leaves.
pub uninterp spec fn renumbered(doc: lopdf::Document, start: u32) -> lopdf::Document;

/// The text that a parse error displays.
pub uninterp spec fn parse_error_text(error: lopdf::Error) -> Seq<char>;

/// What each object of a sequence is.
pub open spec fn nodes_of(objects: Seq<lopdf::Object>) -> Seq<Node> {
    objects.map_values(|object: lopdf::Object| node_of(object))
}

/// `graph` holds exactly `size` objects.
pub open spec fn has_size(graph: Graph, size: nat) -> bool {
    graph.dom().finite() && graph.len() == size
}

/// The counter of a document is at least the number of each of its objects, and the objects
/// are finitely many.
pub open spec fn numbered(doc: lopdf::Document) -> bool {
    &&& objects_of(doc).dom().finite()
    &&& forall|id: ObjectId| #[trigger] objects_of(doc).contains_key(id) ==> id.0 <= max_id_of(doc)
}

/// `Document::load_mem`.  A document that was read has its counter raised to the highest
/// object number that was loaded.  Which document comes of given bytes is not said: the codec
/// may read objects on several threads, and what it keeps can depend on their order.
#[verifier::external_body]
pub(crate) fn parse(bytes: &[u8]) -> (r: Result<lopdf::Document, lopdf::Error>)
    ensures
        r matches Ok(doc) ==> numbered(doc),
{
    lopdf::Document::load_mem(bytes)
}

/// `Document::save_to`, into a fresh buffer.  The bytes depend on the document alone.  Saving
/// touches the trailer and the counter, so nothing is said of the document afterwards.
#[verifier::external_body]
pub(crate) fn serialize(doc: &mut lopdf::Document) -> (r: Result<Vec<u8>, std::io::Error>)
    ensures
        match r {
            Ok(bytes) => saved(*old(doc)) == Ok::<Seq<u8>, std::io::Error>(bytes@),
            Err(error) => saved(*old(doc)) == Err::<Seq<u8>, std::io::Error>(error),
        },
{
    let mut buffer = Vec::new();
    doc.save_to(&mut buffer).map(|_| buffer)
}

/// `Document::page_iter`, drained into a vector one page at a time.  `Document::get_pages`
/// numbers these same pages from 1; it is not called because it sizes its buffer by the page
/// counts that the document claims.
#[verifier::external_body]
pub(crate) fn page_ids(doc: &lopdf::Document) -> (r: Vec<ObjectId>)
    ensures
        r@ == pages_of(*doc),
{
    let mut pages = Vec::new();
    for id in doc.page_iter() {
        pages.push(id);
    }
    pages
}

/// `Document::renumber_objects_with`.  The objects that are left get the numbers from `start`
/// on, one each and without a gap, and the counter is set to the last of them.  Two objects may
/// fall together where pages trade numbers, so there may be fewer than before.  The codec
/// counts pages in 31 bits and numbers in 32, which the bounds keep it within.  It also sizes
/// a buffer by the page counts that nested page tree nodes claim, so the page tree has to be
/// flat.
#[verifier::external_body]
pub(crate) fn renumber(doc: &mut lopdf::Document, start: u32)
    requires
        flat(objects_of(*old(doc)), trailer_of(*old(doc))),
        objects_of(*old(doc)).dom().finite(),
        1 <= start,
        start + objects_of(*old(doc)).len() <= u32::MAX,
        objects_of(*old(doc)).len() <= i32::MAX,
    ensures
        *final(doc) == renumbered(*old(doc), start),
        objects_of(*final(doc)).dom().finite(),
        objects_of(*final(doc)).len() <= objects_of(*old(doc)).len(),
        max_id_of(*final(doc)) + 1 == start + objects_of(*final(doc)).len(),
        forall|id: ObjectId| #[trigger]
            objects_of(*final(doc)).contains_key(id) ==> start <= id.0 <= max_id_of(*final(doc)),
{
    doc.renumber_objects_with(start)
}

/// `BTreeMap::extend` on `Document::objects`: every object of `source` goes into `target`, over
/// whatever stood under its identifier.
#[verifier::external_body]
pub(crate) fn absorb(target: &mut lopdf::Document, source: lopdf::Document)
    ensures
        objects_of(*final(target)) == objects_of(*old(target)).union_prefer_right(
            objects_of(source),
        ),
        trailer_of(*final(target)) == trailer_of(*old(target)),
        max_id_of(*final(target)) == max_id_of(*old(target)),
{
    target.objects.extend(source.objects)
}

/// `Document::prune_objects`: the objects that are not reached from the trailer leave.
#[verifier::external_body]
pub(crate) fn prune(doc: &mut lopdf::Document)
    ensures
        objects_of(*final(doc)) == objects_of(*old(doc)).restrict(
            reachable_set(objects_of(*old(doc)), trailer_of(*old(doc))),
        ),
        trailer_of(*final(doc)) == trailer_of(*old(doc)),
        max_id_of(*final(doc)) == max_id_of(*old(doc)),
{
    doc.prune_objects();
}

/// `BTreeMap::len` on `Document::objects`.
#[verifier::external_body]
pub(crate) fn object_count(doc: &lopdf::Document) -> (r: usize)
    ensures
        has_size(objects_of(*doc), r as nat),
{
    doc.objects.len()
}

/// Reads `Document::max_id`.
#[verifier::external_body]
pub(crate) fn max_id(doc: &lopdf::Document) -> (r: u32)
    ensures
        r == max_id_of(*doc),
{
    doc.max_id
}

/// Writes `Document::max_id`.
#[verifier::external_body]
pub(crate) fn set_max_id(doc: &mut lopdf::Document, value: u32)
    ensures
        max_id_of(*final(doc)) == value,
        objects_of(*final(doc)) == objects_of(*old(doc)),
        trailer_of(*final(doc)) == trailer_of(*old(doc)),
{
    doc.max_id = value;
}

/// Borrows `Document::trailer`.
#[verifier::external_body]
pub(crate) fn trailer(doc: &lopdf::Document) -> (r: &lopdf::Dictionary)
    ensures
        entries_of(*r) == trailer_of(*doc),
{
    &doc.trailer
}

/// `Document::get_object`: the object at which the chain of references from `id` ends.
#[verifier::external_body]
pub(crate) fn object_at(doc: &lopdf::Document, id: ObjectId) -> (r: Option<&lopdf::Object>)
    ensures
        match r {
            Some(object) => resolve(objects_of(*doc), id) matches Some(at) && node_of(
                *object,
            ) == objects_of(*doc)[at],
            None => resolve(objects_of(*doc), id) is None,
        },
{
    doc.get_object(id).ok()
}

/// `Document::get_object_mut`: as `Document::get_object`, for writing.  What the caller leaves
/// in the object is what the document then holds in that place; nothing else changes.
#[verifier::external_body]
pub(crate) fn object_at_mut(doc: &mut lopdf::Document, id: ObjectId) -> (r: Option<
    &mut lopdf::Object,
>)
    ensures
        match r {
            Some(object) => resolve(objects_of(*old(doc)), id) matches Some(at)
                && node_of(*object) == objects_of(*old(doc))[at] && objects_of(*final(doc))
                == objects_of(*old(doc)).insert(at, node_of(*final(object))) && trailer_of(
                *final(doc),
            ) == trailer_of(*old(doc)) && max_id_of(*final(doc)) == max_id_of(*old(doc)),
            None => resolve(objects_of(*old(doc)), id) is None && *final(doc) == *old(
                doc,
            ),
        },
{
    doc.get_object_mut(id).ok()
}

/// `Object::as_dict`.
#[verifier::external_body]
pub(crate) fn as_dictionary(object: &lopdf::Object) -> (r: Option<&lopdf::Dictionary>)
    ensures
        match r {
            Some(dict) => node_of(*object) == Node::Dictionary(entries_of(*dict)),
            None => !(node_of(*object) is Dictionary),
        },
{
    object.as_dict().ok()
}

/// `Object::as_dict_mut`.
#[verifier::external_body]
pub(crate) fn as_dictionary_mut(object: &mut lopdf::Object) -> (r: Option<&mut lopdf::Dictionary>)
    ensures
        match r {
            Some(dict) => node_of(*old(object)) == Node::Dictionary(entries_of(*dict)) && node_of(
                *final(object),
            ) == Node::Dictionary(entries_of(*final(dict))),
            None => !(node_of(*old(object)) is Dictionary) && *final(object) == *old(object),
        },
{
    object.as_dict_mut().ok()
}

/// `Object::as_array`.
#[verifier::external_body]
pub(crate) fn as_array(object: &lopdf::Object) -> (r: Option<&Vec<lopdf::Object>>)
    ensures
        match r {
            Some(items) => node_of(*object) == Node::Array(nodes_of(items@)),
            None => !(node_of(*object) is Array),
        },
{
    object.as_array().ok()
}

/// `Object::as_array_mut`.
#[verifier::external_body]
pub(crate) fn as_array_mut(object: &mut lopdf::Object) -> (r: Option<&mut Vec<lopdf::Object>>)
    ensures
        match r {
            Some(items) => node_of(*old(object)) == Node::Array(nodes_of(items@)) && node_of(
                *final(object),
            ) == Node::Array(nodes_of(final(items)@)),
            None => !(node_of(*old(object)) is Array) && *final(object) == *old(object),
        },
{
    object.as_array_mut().ok()
}

/// `Object::as_name`.
#[verifier::external_body]
pub(crate) fn as_name(object: &lopdf::Object) -> (r: Option<&[u8]>)
    ensures
        match r {
            Some(name) => node_of(*object) == Node::Name(name@),
            None => !(node_of(*object) is Name),
        },
{
    object.as_name().ok()
}

/// `Object::as_reference`.
#[verifier::external_body]
pub(crate) fn as_reference(object: &lopdf::Object) -> (r: Option<ObjectId>)
    ensures
        r == match node_of(*object) {
            Node::Reference(id) => Some(id),
            _ => None,
        },
{
    object.as_reference().ok()
}

/// `Object::as_i64`.
#[verifier::external_body]
pub(crate) fn as_integer(object: &lopdf::Object) -> (r: Option<i64>)
    ensures
        r == match node_of(*object) {
            Node::Integer(value) => Some(value),
            _ => None,
        },
{
    object.as_i64().ok()
}

/// `Dictionary::get`.
#[verifier::external_body]
pub(crate) fn entry<'a>(dict: &'a lopdf::Dictionary, key: &[u8]) -> (r: Option<&'a lopdf::Object>)
    ensures
        match r {
            Some(object) => entries_of(*dict).contains_key(key@) && node_of(*object) == entries_of(
                *dict,
            )[key@],
            None => !entries_of(*dict).contains_key(key@),
        },
{
    dict.get(key).ok()
}

/// `Dictionary::get_deref`: the value under `key`, or where that is a reference, the object at
/// which the chain of references from it ends.
#[verifier::external_body]
pub(crate) fn entry_followed<'a>(
    dict: &'a lopdf::Dictionary,
    key: &[u8],
    doc: &'a lopdf::Document,
) -> (r: Option<&'a lopdf::Object>)
    ensures
        match r {
            Some(object) => entries_of(*dict).contains_key(key@) && followed(
                objects_of(*doc),
                entries_of(*dict)[key@],
            ) == Some(node_of(*object)),
            None => !entries_of(*dict).contains_key(key@) || followed(
                objects_of(*doc),
                entries_of(*dict)[key@],
            ) is None,
        },
{
    dict.get_deref(key, doc).ok()
}

/// `Dictionary::get_mut`.  What the caller leaves in the object is what the dictionary then
/// holds under `key`.
#[verifier::external_body]
pub(crate) fn entry_mut<'a>(dict: &'a mut lopdf::Dictionary, key: &[u8]) -> (r: Option<
    &'a mut lopdf::Object,
>)
    ensures
        match r {
            Some(object) => entries_of(*old(dict)).contains_key(key@) && node_of(*object)
                == entries_of(*old(dict))[key@] && entries_of(*final(dict)) == entries_of(
                *old(dict),
            ).insert(key@, node_of(*final(object))),
            None => !entries_of(*old(dict)).contains_key(key@) && *final(dict) == *old(dict),
        },
{
    dict.get_mut(key).ok()
}

/// `Dictionary::set`.
#[verifier::external_body]
pub(crate) fn set_entry(dict: &mut lopdf::Dictionary, key: &[u8], value: lopdf::Object)
    ensures
        entries_of(*final(dict)) == entries_of(*old(dict)).insert(key@, node_of(value)),
{
    dict.set(key, value)
}

/// Makes `Object::Reference`.
#[verifier::external_body]
pub(crate) fn reference_object(id: ObjectId) -> (r: lopdf::Object)
    ensures
        node_of(r) == Node::Reference(id),
{
    lopdf::Object::Reference(id)
}

/// Makes `Object::Integer`.
#[verifier::external_body]
pub(crate) fn integer_object(value: i64) -> (r: lopdf::Object)
    ensures
        node_of(r) == Node::Integer(value),
{
    lopdf::Object::Integer(value)
}

/// Makes `Object::Array`.
#[verifier::external_body]
pub(crate) fn array_object(items: Vec<lopdf::Object>) -> (r: lopdf::Object)
    ensures
        node_of(r) == Node::Array(nodes_of(items@)),
{
    lopdf::Object::Array(items)
}

/// The `Display` text of a parse error.
#[verifier::external_body]
pub(crate) fn parse_error_message(error: &lopdf::Error) -> (r: String)
    ensures
        r@ == parse_error_text(*error),
{
    error.to_string()
}

/// The `Display` text of a write error.  What it says is the platform's to choose.
#[verifier::external_body]
pub(crate) fn write_error_message(error: &std::io::Error) -> (r: String) {
    error.to_string()
}

} // verus!
