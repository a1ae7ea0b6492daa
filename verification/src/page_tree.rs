//! The page tree editor: finds the root of the page tree and rewrites its list of children and
//! its page count.  The tree is taken to be flat: the root's children are the pages.
use crate::codec::{
    array_object, as_array, as_array_mut, as_dictionary, as_dictionary_mut, as_integer, as_name,
    as_reference, entries_of, entry, entry_followed, entry_mut, integer_object, max_id_of,
    node_of, nodes_of, object_at, object_at_mut, objects_of, reference_object, set_entry,
    trailer, trailer_of,
};
use crate::error::StructureFault;
use crate::graph::{
    array_entry, dictionary_at, followed, hop_limit, integer_entry, lemma_mentions_entry,
    lemma_mentions_item, lemma_reachable_entry, lemma_reachable_from_trailer,
    lemma_reachable_resolved, lemma_reachable_step, lemma_resolve_within_ends,
    lemma_resolve_within_stable, lemma_resolve_within_swept, reachable, reachable_set,
    reference_entry, references, resolve, swept, Entries, Graph, Node, ObjectId,
};
use vstd::prelude::*;
use vstd::string::StringSliceAdditionalSpecFns;

verus! {

/// The name under which the trailer refers to the catalog.
pub open spec fn root_key() -> Seq<u8> {
    "Root".spec_bytes()
}

/// The name under which the catalog refers to the root of the page tree.
pub open spec fn pages_key() -> Seq<u8> {
    "Pages".spec_bytes()
}

/// The name of a page tree node's list of children.
pub open spec fn kids_key() -> Seq<u8> {
    "Kids".spec_bytes()
}

/// The name of a page tree node's page count.
pub open spec fn count_key() -> Seq<u8> {
    "Count".spec_bytes()
}

/// The name under which a dictionary says what it is.
pub open spec fn type_key() -> Seq<u8> {
    "Type".spec_bytes()
}

/// The identifier that the catalog gives for the root of the page tree, or the first thing
/// missing on the way there: the trailer's reference to the catalog, the catalog as a
/// dictionary, its reference to the page tree, the page tree's root as a dictionary.
pub open spec fn locate_root(graph: Graph, trailer: Entries) -> Result<ObjectId, StructureFault> {
    match reference_entry(trailer, root_key()) {
        None => Err(StructureFault::RootMissing),
        Some(catalog) => match dictionary_at(graph, catalog) {
            None => Err(StructureFault::CatalogNotDictionary),
            Some(entries) => match reference_entry(entries, pages_key()) {
                None => Err(StructureFault::PagesMissing),
                Some(pages) => match dictionary_at(graph, pages) {
                    None => Err(StructureFault::PagesNotDictionary),
                    Some(_) => Ok(pages),
                },
            },
        },
    }
}

/// The root can take `more` pages: it holds an array under `Kids` and an integer under
/// `Count`, and the count raised by `more` is still a count.
pub open spec fn can_take(entries: Entries, more: nat) -> bool {
    &&& array_entry(entries, kids_key()) is Some
    &&& integer_entry(entries, count_key()) matches Some(count) && count + more <= i64::MAX
}

/// `entries` with `ids` added at the end of its list of children and its page count raised by
/// their number.
pub open spec fn with_pages_appended(entries: Entries, ids: Seq<ObjectId>) -> Entries
    recommends
        can_take(entries, ids.len()),
{
    entries.insert(
        kids_key(),
        Node::Array(array_entry(entries, kids_key()).unwrap() + references(ids)),
    ).insert(
        count_key(),
        Node::Integer((integer_entry(entries, count_key()).unwrap() + ids.len()) as i64),
    )
}

/// `entries` with `ids` as its whole list of children and their number as its page count.
pub open spec fn with_kids_replaced(entries: Entries, ids: Seq<ObjectId>) -> Entries {
    entries.insert(kids_key(), Node::Array(references(ids))).insert(
        count_key(),
        Node::Integer(ids.len() as i64),
    )
}

/// The graph after `ids` were appended to the root of its page tree: the root's child list
/// and count change together.  Unchanged where there is no such root, and where the root
/// cannot take the pages.
pub open spec fn appended(graph: Graph, trailer: Entries, ids: Seq<ObjectId>) -> Graph {
    match locate_root(graph, trailer) {
        Ok(pages) => if can_take(dictionary_at(graph, pages).unwrap(), ids.len()) {
            graph.insert(
                resolve(graph, pages).unwrap(),
                Node::Dictionary(with_pages_appended(dictionary_at(graph, pages).unwrap(), ids)),
            )
        } else {
            graph
        },
        Err(_) => graph,
    }
}

/// The graph after the children of the root of its page tree were replaced by `ids`.
/// Unchanged where there is no such root.
pub open spec fn replaced(graph: Graph, trailer: Entries, ids: Seq<ObjectId>) -> Graph {
    match locate_root(graph, trailer) {
        Ok(pages) => graph.insert(
            resolve(graph, pages).unwrap(),
            Node::Dictionary(with_kids_replaced(dictionary_at(graph, pages).unwrap(), ids)),
        ),
        Err(_) => graph,
    }
}

/// The children that the root of the page tree lists, read through a reference where the
/// root refers to its list.  `None` where there is no root or no such list.
pub open spec fn listed_children(graph: Graph, trailer: Entries) -> Option<Seq<Node>> {
    match locate_root(graph, trailer) {
        Ok(pages) => {
            let entries = dictionary_at(graph, pages).unwrap();
            if entries.contains_key(kids_key()) {
                match followed(graph, entries[kids_key()]) {
                    Some(Node::Array(items)) => Some(items),
                    _ => None,
                }
            } else {
                None
            }
        },
        Err(_) => None,
    }
}

/// `child` refers to a dictionary that calls itself a page tree node.
pub open spec fn is_tree_node(graph: Graph, child: Node) -> bool {
    &&& child matches Node::Reference(id)
    &&& dictionary_at(graph, id) matches Some(entries)
    &&& entries.contains_key(type_key())
    &&& entries[type_key()] == Node::Name(pages_key())
}

/// The page tree is flat: no child of its root is itself a page tree node.  A document
/// without a page tree is flat.
pub open spec fn flat(graph: Graph, trailer: Entries) -> bool {
    listed_children(graph, trailer) matches Some(items) ==> forall|i: int|
        0 <= i < items.len() ==> !is_tree_node(graph, #[trigger] items[i])
}

/// Whether two byte strings are the same.
fn same_bytes(left: &[u8], right: &[u8]) -> (r: bool)
    ensures
        r == (left@ == right@),
{
    if left.len() != right.len() {
        return false;
    }
    let mut i: usize = 0;
    while i < left.len()
        invariant
            i <= left.len(),
            left.len() == right.len(),
            forall|k: int| 0 <= k < i ==> left@[k] == right@[k],
        decreases left.len() - i,
    {
        if left[i] != right[i] {
            return false;
        }
        i += 1;
    }
    assert(left@ =~= right@);
    true
}

/// Whether `child` refers to a dictionary that calls itself a page tree node.
fn refers_to_tree_node(doc: &lopdf::Document, child: &lopdf::Object) -> (r: bool)
    ensures
        r == is_tree_node(objects_of(*doc), node_of(*child)),
{
    let id = match as_reference(child) {
        None => {
            return false;
        },
        Some(id) => id,
    };
    let dict = match object_at(doc, id) {
        None => {
            return false;
        },
        Some(object) => match as_dictionary(object) {
            None => {
                return false;
            },
            Some(dict) => dict,
        },
    };
    match entry(dict, "Type".as_bytes()) {
        None => false,
        Some(value) => match as_name(value) {
            None => false,
            Some(name) => same_bytes(name, "Pages".as_bytes()),
        },
    }
}

/// Whether the page tree of the document is flat.
pub fn has_flat_page_tree(doc: &lopdf::Document) -> (r: bool)
    ensures
        r == flat(objects_of(*doc), trailer_of(*doc)),
{
    let pages = match find_page_tree_root(doc) {
        Err(_) => {
            return true;
        },
        Ok(pages) => pages,
    };
    let dict = match object_at(doc, pages) {
        None => {
            return true;
        },
        Some(object) => match as_dictionary(object) {
            None => {
                return true;
            },
            Some(dict) => dict,
        },
    };
    let items = match entry_followed(dict, "Kids".as_bytes(), doc) {
        None => {
            return true;
        },
        Some(value) => match as_array(value) {
            None => {
                return true;
            },
            Some(items) => items,
        },
    };
    let mut i: usize = 0;
    while i < items.len()
        invariant
            i <= items.len(),
            listed_children(objects_of(*doc), trailer_of(*doc)) == Some(nodes_of(items@)),
            forall|k: int|
                0 <= k < i ==> !is_tree_node(objects_of(*doc), #[trigger] nodes_of(items@)[k]),
        decreases items.len() - i,
    {
        if refers_to_tree_node(doc, &items[i]) {
            proof {
                let listed = listed_children(objects_of(*doc), trailer_of(*doc))->Some_0;
                assert(listed[i as int] == node_of(items@[i as int]));
                assert(is_tree_node(objects_of(*doc), listed[i as int]));
            }
            return false;
        }
        i += 1;
    }
    true
}

/// The reference under `key` in the dictionary that a lookup of `id` finds.
fn reference_under(doc: &lopdf::Document, id: ObjectId, key: &[u8]) -> (r: Option<
    Option<ObjectId>,
>)
    ensures
        r == match dictionary_at(objects_of(*doc), id) {
            Some(entries) => Some(reference_entry(entries, key@)),
            None => None,
        },
{
    match object_at(doc, id) {
        None => None,
        Some(object) => match as_dictionary(object) {
            None => None,
            Some(dict) => match entry(dict, key) {
                None => Some(None),
                Some(value) => Some(as_reference(value)),
            },
        },
    }
}

/// Finds the root of the page tree: from the trailer to the catalog, from the catalog to the
/// root.  Says which step failed where one does.
pub fn find_page_tree_root(doc: &lopdf::Document) -> (r: Result<ObjectId, StructureFault>)
    ensures
        r == locate_root(objects_of(*doc), trailer_of(*doc)),
{
    let catalog = match entry(trailer(doc), "Root".as_bytes()) {
        None => None,
        Some(value) => as_reference(value),
    };
    match catalog {
        None => Err(StructureFault::RootMissing),
        Some(catalog_id) => match reference_under(doc, catalog_id, "Pages".as_bytes()) {
            None => Err(StructureFault::CatalogNotDictionary),
            Some(None) => Err(StructureFault::PagesMissing),
            Some(Some(pages_id)) => match object_at(doc, pages_id) {
                None => Err(StructureFault::PagesNotDictionary),
                Some(object) => match as_dictionary(object) {
                    None => Err(StructureFault::PagesNotDictionary),
                    Some(_) => Ok(pages_id),
                },
            },
        },
    }
}

/// Mapping to nodes goes through concatenation.
proof fn lemma_nodes_of_concat(front: Seq<lopdf::Object>, back: Seq<lopdf::Object>)
    ensures
        nodes_of(front + back) == nodes_of(front) + nodes_of(back),
{
    assert(nodes_of(front + back) =~= nodes_of(front) + nodes_of(back));
}

/// One reference object of the codec for each identifier, in order.
fn reference_objects(ids: &Vec<ObjectId>) -> (r: Vec<lopdf::Object>)
    ensures
        nodes_of(r@) == references(ids@),
{
    let mut objects: Vec<lopdf::Object> = Vec::new();
    let mut i: usize = 0;
    while i < ids.len()
        invariant
            i <= ids.len(),
            objects@.len() == i,
            forall|k: int|
                0 <= k < i ==> node_of(#[trigger] objects@[k]) == Node::Reference(ids@[k]),
        decreases ids.len() - i,
    {
        objects.push(reference_object(ids[i]));
        i += 1;
    }
    assert(nodes_of(objects@) =~= references(ids@));
    objects
}

/// Whether the root can take `more` pages, and the count that it then has.
fn count_after(dict: &lopdf::Dictionary, more: usize) -> (r: Option<i64>)
    ensures
        r is Some <==> can_take(entries_of(*dict), more as nat),
        r matches Some(count) ==> count == integer_entry(
            entries_of(*dict),
            count_key(),
        ).unwrap() + more,
{
    let listed = match entry(dict, "Kids".as_bytes()) {
        None => false,
        Some(value) => as_array(value).is_some(),
    };
    let count = match entry(dict, "Count".as_bytes()) {
        None => None,
        Some(value) => as_integer(value),
    };
    match count {
        Some(current) if listed => {
            let sum: i128 = current as i128 + more as i128;
            if sum <= i64::MAX as i128 {
                Some(sum as i64)
            } else {
                None
            }
        },
        _ => None,
    }
}

/// Appends `fresh` to the array under `Kids` and writes `count` under `Count`.
fn write_appended(
    dict: &mut lopdf::Dictionary,
    fresh: Vec<lopdf::Object>,
    count: i64,
    Ghost(ids): Ghost<Seq<ObjectId>>,
)
    requires
        nodes_of(fresh@) == references(ids),
        can_take(entries_of(*old(dict)), ids.len()),
        count == integer_entry(entries_of(*old(dict)), count_key()).unwrap() + ids.len(),
    ensures
        entries_of(*final(dict)) == with_pages_appended(entries_of(*old(dict)), ids),
{
    let mut fresh = fresh;
    match entry_mut(dict, "Kids".as_bytes()) {
        None => {},
        Some(kids) => match as_array_mut(kids) {
            None => {},
            Some(items) => {
                proof {
                    lemma_nodes_of_concat(items@, fresh@);
                }
                items.append(&mut fresh);
            },
        },
    }
    set_entry(dict, "Count".as_bytes(), integer_object(count));
}

/// Appends `new_ids`, in order, to the children of the root of the page tree and raises its
/// page count by their number.  Best effort and all or nothing: where there is no such root,
/// where its child list or its count is missing or of another type, or where the count cannot
/// grow by that much, the document is left as it is.
pub fn append_pages(doc: &mut lopdf::Document, new_ids: &Vec<ObjectId>)
    ensures
        objects_of(*final(doc)) == appended(
            objects_of(*old(doc)),
            trailer_of(*old(doc)),
            new_ids@,
        ),
        trailer_of(*final(doc)) == trailer_of(*old(doc)),
        max_id_of(*final(doc)) == max_id_of(*old(doc)),
{
    let pages = match find_page_tree_root(doc) {
        Err(_) => {
            return ;
        },
        Ok(pages) => pages,
    };
    let count = match object_at(doc, pages) {
        None => None,
        Some(object) => match as_dictionary(object) {
            None => None,
            Some(dict) => count_after(dict, new_ids.len()),
        },
    };
    match count {
        None => {},
        Some(count) => {
            let fresh = reference_objects(new_ids);
            match object_at_mut(doc, pages) {
                None => {},
                Some(object) => match as_dictionary_mut(object) {
                    None => {},
                    Some(dict) => {
                        write_appended(dict, fresh, count, Ghost(new_ids@));
                    },
                },
            }
        },
    }
}

/// Makes `selected`, in order, the whole list of children of the root of the page tree, and
/// their number its page count.  Whatever the root held under `Kids` and `Count` is
/// overwritten.  Fails, and leaves the document as it is, where there is no such root.
pub fn replace_pages(doc: &mut lopdf::Document, selected: &Vec<ObjectId>) -> (r: Result<
    (),
    StructureFault,
>)
    requires
        selected.len() <= i64::MAX,
    ensures
        match locate_root(objects_of(*old(doc)), trailer_of(*old(doc))) {
            Ok(_) => r is Ok,
            Err(fault) => r == Err::<(), StructureFault>(fault),
        },
        objects_of(*final(doc)) == replaced(
            objects_of(*old(doc)),
            trailer_of(*old(doc)),
            selected@,
        ),
        trailer_of(*final(doc)) == trailer_of(*old(doc)),
        max_id_of(*final(doc)) == max_id_of(*old(doc)),
{
    match find_page_tree_root(doc) {
        Err(fault) => Err(fault),
        Ok(pages) => {
            let kids = array_object(reference_objects(selected));
            let count = integer_object(selected.len() as i64);
            match object_at_mut(doc, pages) {
                None => Err(StructureFault::PagesNotDictionary),
                Some(object) => match as_dictionary_mut(object) {
                    None => Err(StructureFault::PagesNotDictionary),
                    Some(dict) => {
                        set_entry(dict, "Kids".as_bytes(), kids);
                        set_entry(dict, "Count".as_bytes(), count);
                        Ok(())
                    },
                },
            }
        },
    }
}

/// The names that the editor reads and writes are four different names.
pub proof fn lemma_keys_differ()
    ensures
        kids_key() != count_key(),
        pages_key() != kids_key(),
        pages_key() != count_key(),
        root_key() != pages_key(),
{
    reveal_strlit("Root");
    reveal_strlit("Pages");
    reveal_strlit("Kids");
    reveal_strlit("Count");
    vstd::utf8::encode_utf8_decode_utf8("Root"@);
    vstd::utf8::encode_utf8_decode_utf8("Pages"@);
    vstd::utf8::encode_utf8_decode_utf8("Kids"@);
    vstd::utf8::encode_utf8_decode_utf8("Count"@);
}

/// The children that the root of the page tree lists, where it holds an array of them.
pub open spec fn page_list(graph: Graph, trailer: Entries) -> Option<Seq<Node>> {
    match locate_root(graph, trailer) {
        Ok(pages) => array_entry(dictionary_at(graph, pages).unwrap(), kids_key()),
        Err(_) => None,
    }
}

/// The page count that the root of the page tree gives, where it holds an integer.
pub open spec fn page_count(graph: Graph, trailer: Entries) -> Option<i64> {
    match locate_root(graph, trailer) {
        Ok(pages) => integer_entry(dictionary_at(graph, pages).unwrap(), count_key()),
        Err(_) => None,
    }
}

/// Writing a dictionary over the root of the page tree that keeps what it held under `Pages`
/// leaves the root where it was.
proof fn lemma_root_stays(graph: Graph, trailer: Entries, entries: Entries)
    requires
        locate_root(graph, trailer) is Ok,
        ({
            let old_entries = dictionary_at(graph, locate_root(graph, trailer)->Ok_0).unwrap();
            old_entries.contains_key(pages_key()) == entries.contains_key(pages_key()) && (
            old_entries.contains_key(pages_key()) ==> old_entries[pages_key()]
                == entries[pages_key()])
        }),
    ensures
        ({
            let pages = locate_root(graph, trailer)->Ok_0;
            let after = graph.insert(resolve(graph, pages).unwrap(), Node::Dictionary(entries));
            locate_root(after, trailer) == Ok::<ObjectId, StructureFault>(pages) && dictionary_at(
                after,
                pages,
            ) == Some(entries)
        }),
{
    let pages = locate_root(graph, trailer)->Ok_0;
    let catalog = reference_entry(trailer, root_key()).unwrap();
    let at = resolve(graph, pages).unwrap();
    let node = Node::Dictionary(entries);
    lemma_resolve_within_ends(graph, pages, hop_limit());
    lemma_resolve_within_ends(graph, catalog, hop_limit());
    lemma_resolve_within_stable(graph, at, node, pages, hop_limit());
    lemma_resolve_within_stable(graph, at, node, catalog, hop_limit());
}

/// Appending to a page tree whose root lists its children and counts them: the root stays
/// the root, its list is the old list and then the new pages in their order, and its count
/// is the old count and their number.
pub proof fn law_append_extends_page_list(graph: Graph, trailer: Entries, ids: Seq<ObjectId>)
    requires
        page_list(graph, trailer) is Some,
        page_count(graph, trailer) is Some,
        page_count(graph, trailer).unwrap() + ids.len() <= i64::MAX,
    ensures
        locate_root(appended(graph, trailer, ids), trailer) == locate_root(graph, trailer),
        page_list(appended(graph, trailer, ids), trailer) == Some(
            page_list(graph, trailer).unwrap() + references(ids),
        ),
        page_count(appended(graph, trailer, ids), trailer) == Some(
            (page_count(graph, trailer).unwrap() + ids.len()) as i64,
        ),
{
    lemma_keys_differ();
    let pages = locate_root(graph, trailer)->Ok_0;
    let entries = dictionary_at(graph, pages).unwrap();
    lemma_root_stays(graph, trailer, with_pages_appended(entries, ids));
}

/// Replacing the children of a page tree: the root stays the root, its list is exactly the
/// chosen pages in their order, and its count is their number.
pub proof fn law_replace_sets_page_list(graph: Graph, trailer: Entries, ids: Seq<ObjectId>)
    requires
        locate_root(graph, trailer) is Ok,
        ids.len() <= i64::MAX,
    ensures
        locate_root(replaced(graph, trailer, ids), trailer) == locate_root(graph, trailer),
        page_list(replaced(graph, trailer, ids), trailer) == Some(references(ids)),
        page_count(replaced(graph, trailer, ids), trailer) == Some(ids.len() as i64),
{
    lemma_keys_differ();
    let pages = locate_root(graph, trailer)->Ok_0;
    let entries = dictionary_at(graph, pages).unwrap();
    lemma_root_stays(graph, trailer, with_kids_replaced(entries, ids));
}

/// The root of the page tree is reached from the trailer, and so is every child that it lists
/// by reference.  Pruning therefore keeps the root and the pages it lists.
pub proof fn law_listed_pages_are_reached(graph: Graph, trailer: Entries, i: int)
    requires
        page_list(graph, trailer) is Some,
        0 <= i < page_list(graph, trailer).unwrap().len(),
        page_list(graph, trailer).unwrap()[i] is Reference,
    ensures
        reachable(
            graph,
            trailer,
            resolve(graph, locate_root(graph, trailer)->Ok_0).unwrap(),
        ),
        reachable(
            graph,
            trailer,
            page_list(graph, trailer).unwrap()[i]->Reference_0,
        ),
{
    let catalog = reference_entry(trailer, root_key()).unwrap();
    let pages = locate_root(graph, trailer)->Ok_0;
    let at = resolve(graph, pages).unwrap();
    let entries = dictionary_at(graph, pages).unwrap();
    let items = array_entry(entries, kids_key()).unwrap();
    let id = items[i]->Reference_0;
    lemma_reachable_from_trailer(graph, trailer, root_key());
    lemma_reachable_entry(graph, trailer, catalog, pages_key());
    lemma_reachable_resolved(graph, trailer, pages, hop_limit());
    lemma_resolve_within_ends(graph, pages, hop_limit());
    lemma_mentions_item(items, i, id);
    lemma_mentions_entry(entries, kids_key(), id);
    lemma_reachable_step(graph, trailer, at, id);
}

/// Removing what is not reached leaves the page tree in place: the same root is found, and it
/// lists the same children and gives the same count.
pub proof fn law_sweeping_keeps_page_tree(graph: Graph, trailer: Entries)
    requires
        locate_root(graph, trailer) is Ok,
    ensures
        locate_root(swept(graph, trailer), trailer) == locate_root(graph, trailer),
        page_list(swept(graph, trailer), trailer) == page_list(graph, trailer),
        page_count(swept(graph, trailer), trailer) == page_count(graph, trailer),
{
    let catalog = reference_entry(trailer, root_key()).unwrap();
    let pages = locate_root(graph, trailer)->Ok_0;
    lemma_reachable_from_trailer(graph, trailer, root_key());
    lemma_reachable_entry(graph, trailer, catalog, pages_key());
    lemma_resolve_within_swept(graph, trailer, catalog, hop_limit());
    lemma_resolve_within_swept(graph, trailer, pages, hop_limit());
}

/// Removing what is not reached keeps every page that the root of the page tree lists by
/// reference and that the graph holds, as it is.
pub proof fn law_sweeping_keeps_listed_pages(graph: Graph, trailer: Entries, i: int)
    requires
        page_list(graph, trailer) is Some,
        0 <= i < page_list(graph, trailer).unwrap().len(),
        page_list(graph, trailer).unwrap()[i] is Reference,
        graph.contains_key(page_list(graph, trailer).unwrap()[i]->Reference_0),
    ensures
        swept(graph, trailer).contains_key(
            page_list(graph, trailer).unwrap()[i]->Reference_0,
        ),
        swept(graph, trailer)[page_list(graph, trailer).unwrap()[i]->Reference_0]
            == graph[page_list(graph, trailer).unwrap()[i]->Reference_0],
{
    law_listed_pages_are_reached(graph, trailer, i);
    let id = page_list(graph, trailer).unwrap()[i]->Reference_0;
    assert(reachable_set(graph, trailer).contains(id));
}

/// Two dictionaries hold the same under each name that the page tree is found and read by.
pub open spec fn same_tree_entries(old_entries: Entries, new_entries: Entries) -> bool {
    forall|key: Seq<u8>|
        key == pages_key() || key == kids_key() || key == count_key() ==> (
        #[trigger] old_entries.contains_key(key) == new_entries.contains_key(key)) && (
        old_entries.contains_key(key) ==> old_entries[key] == new_entries[key])
}

/// Writing over a dictionary another one that holds the same under `Pages`, `Kids` and `Count`
/// leaves the page tree as it is: the same root is found, or the same thing is missing, and
/// the root lists the same children and gives the same count.
pub proof fn law_page_tree_untouched(graph: Graph, trailer: Entries, at: ObjectId, entries: Entries)
    requires
        graph.contains_key(at),
        graph[at] is Dictionary,
        same_tree_entries(graph[at]->Dictionary_0, entries),
    ensures
        locate_root(graph.insert(at, Node::Dictionary(entries)), trailer) == locate_root(
            graph,
            trailer,
        ),
        page_list(graph.insert(at, Node::Dictionary(entries)), trailer) == page_list(
            graph,
            trailer,
        ),
        page_count(graph.insert(at, Node::Dictionary(entries)), trailer) == page_count(
            graph,
            trailer,
        ),
{
    let node = Node::Dictionary(entries);
    let after = graph.insert(at, node);
    let before = graph[at]->Dictionary_0;
    assert(before.contains_key(pages_key()) == entries.contains_key(pages_key()));
    assert(before.contains_key(kids_key()) == entries.contains_key(kids_key()));
    assert(before.contains_key(count_key()) == entries.contains_key(count_key()));
    if let Some(catalog) = reference_entry(trailer, root_key()) {
        lemma_resolve_within_stable(graph, at, node, catalog, hop_limit());
        lemma_resolve_within_ends(graph, catalog, hop_limit());
        if let Some(catalog_entries) = dictionary_at(graph, catalog) {
            if let Some(pages) = reference_entry(catalog_entries, pages_key()) {
                lemma_resolve_within_stable(graph, at, node, pages, hop_limit());
                lemma_resolve_within_ends(graph, pages, hop_limit());
            }
        }
    }
}

/// `id` is the object that is the root of the page tree.
pub open spec fn is_root_object(graph: Graph, trailer: Entries, id: ObjectId) -> bool {
    locate_root(graph, trailer) matches Ok(pages) && resolve(graph, pages) == Some(id)
}

/// Appending pages changes no object but the root of the page tree, and adds and removes
/// none.
pub proof fn law_append_touches_root_only(graph: Graph, trailer: Entries, ids: Seq<ObjectId>)
    ensures
        appended(graph, trailer, ids).dom() == graph.dom(),
        forall|id: ObjectId|
            graph.contains_key(id) && !is_root_object(graph, trailer, id) ==> #[trigger] appended(
                graph,
                trailer,
                ids,
            )[id] == graph[id],
{
    if let Ok(pages) = locate_root(graph, trailer) {
        lemma_resolve_within_ends(graph, pages, hop_limit());
        assert(appended(graph, trailer, ids).dom() =~= graph.dom());
    }
}

} // verus!
