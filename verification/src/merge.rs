//! The graph merger: takes a second document into a first one under fresh identifiers and
//! appends its pages to the first one's page tree.
use crate::codec::{
    absorb, max_id, max_id_of, numbered, object_count, objects_of, page_ids, pages_of,
    renumber, renumbered, set_max_id, trailer_of,
};
use crate::document::{
    contents_of, is_read_failure, prune_unreachable, pruned, read_document, write_document,
    written, Contents,
};
use crate::error::{ComposeError, Failure, StructureFault};
use crate::graph::{
    hop_limit, lemma_resolve_within_ends, lemma_resolve_within_union, reference_entry, references,
    resolve, Entries, Graph, Node, ObjectId,
};
use crate::page_tree::{
    append_pages, appended, flat, has_flat_page_tree, is_root_object,
    law_append_extends_page_list, law_append_touches_root_only, law_sweeping_keeps_page_tree,
    locate_root, page_count, page_list, replace_pages, replaced, root_key,
};
use vstd::prelude::*;

verus! {

/// The offset for a second document of `incoming` objects, after a first one whose counter
/// stands at `max_id`: one more than the counter.  `None` where the numbers from there on
/// would not fit: the last of them in 32 bits, their count in 31.
pub open spec fn offset_after(max_id: u32, incoming: nat) -> Option<u32> {
    if max_id + 1 + incoming <= u32::MAX && incoming <= i32::MAX {
        Some((max_id + 1) as u32)
    } else {
        None
    }
}

/// The identifier allocator: the number from which the objects of a second document are
/// renumbered so that none of them meets an identifier of the first.
pub fn allocate_offset(max_id: u32, incoming: usize) -> (r: Option<u32>)
    ensures
        r == offset_after(max_id, incoming as nat),
        r matches Some(offset) ==> offset > max_id,
{
    if max_id < u32::MAX && incoming <= 0x7fff_ffff && incoming as u64 <= (u32::MAX - (max_id
        + 1)) as u64 {
        Some(max_id + 1)
    } else {
        None
    }
}

/// What merging `source`, as it was made ready, into a document of contents `target`
/// leaves.  A source without objects changes nothing.  A source whose page tree is still
/// not flat is refused, and so is one whose identifiers do not fit.  Otherwise the source is
/// renumbered from the offset on, its objects join those of the target, its pages are
/// appended to the target's page tree in their own order, and the counter moves to the last
/// identifier given out.
pub open spec fn merge_outcome(target: Contents, source: lopdf::Document) -> Result<
    Contents,
    Failure,
> {
    if objects_of(source).len() == 0 {
        Ok(target)
    } else if !flat(objects_of(source), trailer_of(source)) {
        Err(Failure::Structure(StructureFault::NestedPageTree))
    } else {
        match offset_after(target.max_id, objects_of(source).len()) {
            None => Err(Failure::IdentifiersExhausted),
            Some(offset) => {
                let moved = renumbered(source, offset);
                Ok(
                    Contents {
                        objects: appended(
                            target.objects.union_prefer_right(objects_of(moved)),
                            target.trailer,
                            pages_of(moved),
                        ),
                        trailer: target.trailer,
                        max_id: max_id_of(moved),
                    },
                )
            },
        }
    }
}

/// The pages that merging `source` brings, under the identifiers that they get: those of the
/// renumbered source, in its page order.  None where the source is empty or is refused.
pub open spec fn incoming_pages(max_id: u32, source: lopdf::Document) -> Seq<ObjectId> {
    if objects_of(source).len() == 0 || !flat(objects_of(source), trailer_of(source)) {
        Seq::empty()
    } else {
        match offset_after(max_id, objects_of(source).len()) {
            Some(offset) => pages_of(renumbered(source, offset)),
            None => Seq::empty(),
        }
    }
}

/// The objects of target and source side by side, before the page tree is touched: those of
/// the target alone where the source brings none or is refused.
pub open spec fn joined(target: Contents, source: lopdf::Document) -> Graph {
    if objects_of(source).len() == 0 || !flat(objects_of(source), trailer_of(source)) {
        target.objects
    } else {
        match offset_after(target.max_id, objects_of(source).len()) {
            Some(offset) => target.objects.union_prefer_right(
                objects_of(renumbered(source, offset)),
            ),
            None => target.objects,
        }
    }
}

/// `after` and `result` are what merging `source`, flat or refused, into `before` leaves.
/// The contents are those of `merge_outcome`, and a failure leaves the target as it was.  The
/// identifiers of the two never meet: those of the target are at most its counter, those of
/// the renumbered source lie above it.  So no object of the target is written over, and
/// none but the root of its page tree changes.  Where that root lists its children and
/// counts them, its list grows by the pages of the source and its count by their number.
pub open spec fn merge_step(
    before: lopdf::Document,
    source: lopdf::Document,
    after: lopdf::Document,
    result: Result<(), ComposeError>,
) -> bool {
    &&& match merge_outcome(contents_of(before), source) {
        Ok(contents) => result is Ok && contents_of(after) == contents,
        Err(failure) => result matches Err(error) && error@ == failure && contents_of(after)
            == contents_of(before),
    }
    &&& objects_of(source).len() > 0 && flat(objects_of(source), trailer_of(source)) ==> (
    offset_after(max_id_of(before), objects_of(source).len()) matches Some(offset) ==> separated(
        objects_of(before),
        objects_of(renumbered(source, offset)),
        max_id_of(before),
    ) && objects_of(renumbered(source, offset)).dom().finite())
    &&& forall|id: ObjectId|
        objects_of(before).contains_key(id) ==> #[trigger] objects_of(after).contains_key(id) && (
        objects_of(after)[id] == objects_of(before)[id] || is_root_object(
            joined(contents_of(before), source),
            trailer_of(before),
            id,
        ))
    &&& {
        let graph = objects_of(before);
        let trailer = trailer_of(before);
        let incoming = incoming_pages(max_id_of(before), source);
        result is Ok && page_list(graph, trailer) is Some && page_count(graph, trailer) is Some
            && page_count(graph, trailer).unwrap() + incoming.len() <= i64::MAX ==> {
            &&& locate_root(objects_of(after), trailer) == locate_root(graph, trailer)
            &&& page_list(objects_of(after), trailer) == Some(
                page_list(graph, trailer).unwrap() + references(incoming),
            )
            &&& page_count(objects_of(after), trailer) == Some(
                (page_count(graph, trailer).unwrap() + incoming.len()) as i64,
            )
        }
    }
}

/// What a document with a nested page tree holds once its root lists the document's pages
/// themselves, in page order, and counts them.
pub open spec fn flattened(doc: lopdf::Document) -> Contents {
    Contents {
        objects: replaced(objects_of(doc), trailer_of(doc), pages_of(doc)),
        ..contents_of(doc)
    }
}

/// `prepared` is `source` made ready for merging: `source` itself where its page tree is
/// flat, else a document that holds what `source` holds with its page tree flattened.  (A
/// document with more pages than a page count can say is left as it is.)
pub open spec fn prepared_from(source: lopdf::Document, prepared: lopdf::Document) -> bool {
    if flat(objects_of(source), trailer_of(source)) || pages_of(source).len() > i64::MAX {
        prepared == source
    } else {
        contents_of(prepared) == flattened(source)
    }
}

/// Makes the page tree of the document flat where it is nested: the root then lists the
/// pages themselves, in page order, in place of the page tree nodes between.  The codec
/// renumbers a document only where its page tree is flat.
pub fn flatten_nested(doc: &mut lopdf::Document)
    ensures
        prepared_from(*old(doc), *final(doc)),
{
    if has_flat_page_tree(doc) {
        return ;
    }
    let pages = page_ids(doc);
    if pages.len() as u64 > i64::MAX as u64 {
        return ;
    }
    let _ = replace_pages(doc, &pages);
}

/// Merges `source` into `target`: a source with a nested page tree is flattened first, then
/// renumbered above the target's identifiers, joined to the target and its pages appended
/// to the target's page tree.  Fails, and leaves the target as it was, only where the
/// identifiers do not fit side by side, or where the source is not flat even after it was
/// flattened.
pub fn merge_into(target: &mut lopdf::Document, source: lopdf::Document) -> (r: Result<
    (),
    ComposeError,
>)
    requires
        numbered(*old(target)),
    ensures
        numbered(*final(target)),
        exists|prepared: lopdf::Document|
            prepared_from(source, prepared) && #[trigger] merge_step(
                *old(target),
                prepared,
                *final(target),
                r,
            ),
{
    let mut source = source;
    flatten_nested(&mut source);
    let ghost prepared = source;
    let r = merge_prepared(target, source);
    assert(merge_step(*old(target), prepared, *target, r));
    r
}

/// Merges into `target` a source whose page tree is flat; one whose page tree is not is
/// refused.
pub fn merge_prepared(target: &mut lopdf::Document, source: lopdf::Document) -> (r: Result<
    (),
    ComposeError,
>)
    requires
        numbered(*old(target)),
    ensures
        numbered(*final(target)),
        merge_step(*old(target), source, *final(target), r),
{
    let mut source = source;
    let incoming = object_count(&source);
    if incoming == 0 {
        proof {
            let graph = objects_of(*target);
            let trailer = trailer_of(*target);
            if page_list(graph, trailer) is Some {
                assert(page_list(graph, trailer).unwrap() + references(Seq::<ObjectId>::empty())
                    =~= page_list(graph, trailer).unwrap());
            }
        }
        return Ok(());
    }
    if !has_flat_page_tree(&source) {
        return Err(ComposeError::Structure(StructureFault::NestedPageTree));
    }
    match allocate_offset(max_id(target), incoming) {
        None => Err(ComposeError::IdentifiersExhausted),
        Some(offset) => {
            renumber(&mut source, offset);
            let new_pages = page_ids(&source);
            let last = max_id(&source);
            let ghost moved = objects_of(source);
            let ghost joined = objects_of(*target).union_prefer_right(moved);
            absorb(target, source);
            append_pages(target, &new_pages);
            set_max_id(target, last);
            proof {
                law_append_touches_root_only(joined, trailer_of(*target), new_pages@);
                assert(joined.dom() =~= objects_of(*old(target)).dom().union(moved.dom()));
                let graph = objects_of(*old(target));
                let trailer = trailer_of(*old(target));
                vstd::set_lib::lemma_set_union_finite_iff(graph.dom(), moved.dom());
                if page_list(graph, trailer) is Some && page_count(graph, trailer) is Some
                    && page_count(graph, trailer).unwrap() + new_pages@.len() <= i64::MAX {
                    law_merge_appends_pages(graph, trailer, moved, new_pages@);
                }
            }
            Ok(())
        },
    }
}

/// What merging the first `count` of `docs`, from the left, leaves: the first document as
/// it is, and each later one merged into what stood before.  The first failure ends it.
pub open spec fn merge_documents(docs: Seq<lopdf::Document>, count: nat) -> Result<
    Contents,
    Failure,
>
    recommends
        1 <= count <= docs.len(),
    decreases count,
{
    if count <= 1 {
        Ok(contents_of(docs[0]))
    } else {
        match merge_documents(docs, (count - 1) as nat) {
            Err(failure) => Err(failure),
            Ok(target) => merge_outcome(target, docs[count - 1]),
        }
    }
}

/// The children that the root of the page tree lists and the count that it gives, where it
/// has both.
pub open spec fn listing_of(contents: Contents) -> Option<(Seq<Node>, int)> {
    match (
        page_list(contents.objects, contents.trailer),
        page_count(contents.objects, contents.trailer),
    ) {
        (Some(list), Some(count)) => Some((list, count as int)),
        _ => None,
    }
}

/// The children and the count that the page tree has after the first `count` of `docs` were
/// merged, where they are owed: the children of the first document and then, document by
/// document, the pages of each later one in its own order; the count of the first document
/// and the number of pages of each later one.  `None` where a merge fails, where a page tree
/// on the way has no child list or no count, or where a count does not fit.
pub open spec fn merged_listing(docs: Seq<lopdf::Document>, count: nat) -> Option<
    (Seq<Node>, int),
>
    recommends
        1 <= count <= docs.len(),
    decreases count,
{
    if count <= 1 {
        listing_of(contents_of(docs[0]))
    } else {
        match (
            merged_listing(docs, (count - 1) as nat),
            merge_documents(docs, (count - 1) as nat),
        ) {
            (Some((list, pages)), Ok(target)) => {
                let incoming = incoming_pages(target.max_id, docs[count - 1]);
                if merge_outcome(target, docs[count - 1]) is Ok && pages + incoming.len()
                    <= i64::MAX {
                    Some((list + references(incoming), pages + incoming.len()))
                } else {
                    None
                }
            },
            _ => None,
        }
    }
}

/// What is written after `total` inputs: one document as it was read, several merged and
/// then without what the trailer no longer reaches.
pub open spec fn settled(contents: Contents, total: nat) -> Contents {
    if total <= 1 {
        contents
    } else {
        pruned(contents)
    }
}

/// `result` is what writing the merge of all of `docs` gives.
pub open spec fn is_written_merge(
    docs: Seq<lopdf::Document>,
    result: Result<Vec<u8>, ComposeError>,
) -> bool {
    exists|doc: lopdf::Document| #[trigger]
        contents_of(doc) == settled(merge_documents(docs, docs.len())->Ok_0, docs.len())
            && written(doc, result) && (merged_listing(docs, docs.len()) is Some ==> listing_of(
            contents_of(doc),
        ) == merged_listing(docs, docs.len()))
}

/// `doc` is a document that was read and made ready for merging.
pub open spec fn was_prepared(doc: lopdf::Document) -> bool {
    exists|source: lopdf::Document| numbered(source) && #[trigger] prepared_from(source, doc)
}

/// `result` is what merging `total` inputs gives, where `docs` are the documents that were
/// read, in the order of the inputs, before the operation ended: either all of them, or
/// those before the one that could not be read, or those up to the one that could not be
/// merged.  The first is as it was read, each later one as it was made ready for merging.
pub open spec fn is_merge_of(
    docs: Seq<lopdf::Document>,
    total: nat,
    result: Result<Vec<u8>, ComposeError>,
) -> bool {
    &&& 1 <= docs.len() <= total
    &&& numbered(docs[0])
    &&& forall|i: int| 1 <= i < docs.len() ==> was_prepared(#[trigger] docs[i])
    &&& docs.len() >= 2 ==> merge_documents(docs, (docs.len() - 1) as nat) is Ok
    &&& match merge_documents(docs, docs.len()) {
        Err(failure) => result matches Err(error) && error@ == failure,
        Ok(_) => if docs.len() < total {
            result matches Err(error) && is_read_failure(error@, docs.len())
        } else {
            is_written_merge(docs, result)
        },
    }
}

/// Merging a prefix of the documents does not depend on what follows it.
pub proof fn lemma_merge_documents_prefix(
    docs: Seq<lopdf::Document>,
    next: lopdf::Document,
    count: nat,
)
    requires
        1 <= count <= docs.len(),
    ensures
        merge_documents(docs.push(next), count) == merge_documents(docs, count),
        merged_listing(docs.push(next), count) == merged_listing(docs, count),
    decreases count,
{
    if count > 1 {
        lemma_merge_documents_prefix(docs, next, (count - 1) as nat);
    }
}

/// Merges the inputs from left to right into one document, the first as the running target,
/// and writes the result.  No input gives no bytes and no error.  One input is read and
/// written as it is; after a merge, what the trailer no longer reaches is dropped first.  A
/// failure at any input ends the operation without output.
pub fn merge_pdfs_direct(files: Vec<Vec<u8>>) -> (r: Result<Vec<u8>, ComposeError>)
    ensures
        files.len() == 0 ==> (r matches Ok(buffer) && buffer@.len() == 0),
        files.len() > 0 ==> (r matches Err(error) && is_read_failure(error@, 0)) || exists|
            docs: Seq<lopdf::Document>,
        | #[trigger] is_merge_of(docs, files.len() as nat, r),
{
    if files.len() == 0 {
        return Ok(Vec::new());
    }
    let mut master = match read_document(files[0].as_slice(), 0) {
        Ok(doc) => doc,
        Err(error) => {
            return Err(error);
        },
    };
    let ghost total = files.len() as nat;
    let ghost mut docs = seq![master];
    let mut i: usize = 1;
    while i < files.len()
        invariant
            1 <= i <= files.len(),
            total == files.len(),
            docs.len() == i,
            numbered(master),
            numbered(docs[0]),
            forall|k: int| 1 <= k < docs.len() ==> was_prepared(#[trigger] docs[k]),
            merge_documents(docs, i as nat) == Ok::<Contents, Failure>(contents_of(master)),
            merged_listing(docs, i as nat) is Some ==> listing_of(contents_of(master))
                == merged_listing(docs, i as nat),
        decreases files.len() - i,
    {
        let source = match read_document(files[i].as_slice(), i) {
            Ok(doc) => doc,
            Err(error) => {
                let r = Err(error);
                assert(is_merge_of(docs, total, r));
                return r;
            },
        };
        let ghost before = docs;
        let ghost target = master;
        let ghost raw = source;
        let merged = merge_into(&mut master, source);
        proof {
            let prepared = choose|prepared: lopdf::Document|
                prepared_from(raw, prepared) && #[trigger] merge_step(
                    target,
                    prepared,
                    master,
                    merged,
                );
            assert(was_prepared(prepared));
            docs = docs.push(prepared);
            lemma_merge_documents_prefix(before, prepared, i as nat);
            assert(docs[0] == before[0]);
            assert forall|k: int| 1 <= k < docs.len() implies was_prepared(
                #[trigger] docs[k],
            ) by {
                if k < before.len() {
                    assert(docs[k] == before[k]);
                }
            }
        }
        match merged {
            Ok(()) => {},
            Err(error) => {
                let r = Err(error);
                assert(is_merge_of(docs, total, r));
                return r;
            },
        }
        i += 1;
    }
    let ghost full = contents_of(master);
    if files.len() > 1 {
        prune_unreachable(&mut master);
    }
    let ghost last = master;
    let r = write_document(&mut master);
    proof {
        if total > 1 && merged_listing(docs, total) is Some {
            law_sweeping_keeps_page_tree(full.objects, full.trailer);
        }
        assert(contents_of(last) == settled(full, total) && written(last, r));
        assert(is_written_merge(docs, r));
        assert(is_merge_of(docs, total, r));
    }
    r
}

/// Every identifier of `target` is at most `max_id`, and every one of `moved` is above it.
pub open spec fn separated(target: Graph, moved: Graph, max_id: u32) -> bool {
    &&& forall|id: ObjectId| #[trigger] target.contains_key(id) ==> id.0 <= max_id
    &&& forall|id: ObjectId| #[trigger] moved.contains_key(id) ==> id.0 > max_id
}

/// Joining a renumbered source to a target loses nothing and mixes nothing up: no identifier
/// stands for two objects, each object is found under its identifier as before, the objects
/// are as many as the two had together, and a reference that led to an object of either part
/// leads to the same object in the whole.
pub proof fn law_merge_keeps_objects(target: Graph, moved: Graph, max_id: u32)
    requires
        target.dom().finite(),
        moved.dom().finite(),
        separated(target, moved, max_id),
    ensures
        target.dom().disjoint(moved.dom()),
        target.union_prefer_right(moved).dom().finite(),
        target.union_prefer_right(moved).len() == target.len() + moved.len(),
        forall|id: ObjectId|
            target.contains_key(id) ==> #[trigger] target.union_prefer_right(moved).contains_key(id)
                && target.union_prefer_right(moved)[id] == target[id],
        forall|id: ObjectId|
            moved.contains_key(id) ==> #[trigger] target.union_prefer_right(moved).contains_key(id)
                && target.union_prefer_right(moved)[id] == moved[id],
        forall|id: ObjectId|
            resolve(target, id) is Some ==> #[trigger] resolve(target.union_prefer_right(moved), id)
                == resolve(target, id),
        forall|id: ObjectId|
            resolve(moved, id) is Some ==> #[trigger] resolve(target.union_prefer_right(moved), id)
                == resolve(moved, id),
{
    let joined = target.union_prefer_right(moved);
    assert(target.dom().disjoint(moved.dom()));
    assert(joined.dom() =~= target.dom().union(moved.dom()));
    vstd::set_lib::lemma_set_union_finite_iff(target.dom(), moved.dom());
    vstd::set_lib::lemma_set_disjoint_lens(target.dom(), moved.dom());
    assert forall|id: ObjectId| resolve(target, id) is Some implies #[trigger] resolve(joined, id)
        == resolve(target, id) by {
        lemma_resolve_within_union(target, moved, id, hop_limit());
    }
    assert forall|id: ObjectId| resolve(moved, id) is Some implies #[trigger] resolve(joined, id)
        == resolve(moved, id) by {
        lemma_resolve_within_union(moved, target, id, hop_limit());
    }
}

/// Merging into a target whose page tree lists its children and counts them: the root of the
/// page tree stays, its list is the old list and then the pages of the source in their own
/// order, and its count is the old count and their number.
pub proof fn law_merge_appends_pages(
    target: Graph,
    trailer: Entries,
    moved: Graph,
    new_pages: Seq<ObjectId>,
)
    requires
        target.dom().disjoint(moved.dom()),
        page_list(target, trailer) is Some,
        page_count(target, trailer) is Some,
        page_count(target, trailer).unwrap() + new_pages.len() <= i64::MAX,
    ensures
        ({
            let after = appended(target.union_prefer_right(moved), trailer, new_pages);
            &&& locate_root(after, trailer) == locate_root(target, trailer)
            &&& page_list(after, trailer) == Some(
                page_list(target, trailer).unwrap() + references(
                    new_pages,
                ),
            )
            &&& page_count(after, trailer) == Some(
                (page_count(target, trailer).unwrap() + new_pages.len()) as i64,
            )
        }),
{
    let joined = target.union_prefer_right(moved);
    let pages = locate_root(target, trailer)->Ok_0;
    let catalog = reference_entry(trailer, root_key()).unwrap();
    lemma_resolve_within_union(target, moved, catalog, hop_limit());
    lemma_resolve_within_union(target, moved, pages, hop_limit());
    lemma_resolve_within_ends(target, catalog, hop_limit());
    lemma_resolve_within_ends(target, pages, hop_limit());
    assert(locate_root(joined, trailer) == locate_root(target, trailer));
    law_append_extends_page_list(joined, trailer, new_pages);
}

} // verus!
