//! Extraction: a document limited to chosen pages of another.
use crate::codec::{numbered, page_ids, pages_of};
use crate::document::{
    contents_of, is_read_failure, prune_unreachable, pruned, read_document, write_document,
    written, Contents,
};
use crate::error::{ComposeError, Failure};
use crate::graph::{references, ObjectId};
use crate::page_tree::{
    law_replace_sets_page_list, law_sweeping_keeps_listed_pages, law_sweeping_keeps_page_tree,
    locate_root, page_count, page_list, replace_pages, replaced,
};
use vstd::prelude::*;

verus! {

/// The pages that `indices` choose among `pages`: for each index in turn the page at that
/// position, counted from 0; an index past the last page chooses nothing.
pub open spec fn selection(pages: Seq<ObjectId>, indices: Seq<u32>) -> Seq<ObjectId>
    decreases indices.len(),
{
    if indices.len() == 0 {
        Seq::empty()
    } else if indices.last() < pages.len() {
        selection(pages, indices.drop_last()).push(pages[indices.last() as int])
    } else {
        selection(pages, indices.drop_last())
    }
}

/// Resolves page indices to page identifiers, in the order of the indices.  An index may
/// occur more than once; one that is out of range is passed over.
pub fn select_pages(pages: &Vec<ObjectId>, indices: &Vec<u32>) -> (r: Vec<ObjectId>)
    ensures
        r@ == selection(pages@, indices@),
        r.len() <= indices.len(),
{
    let mut selected: Vec<ObjectId> = Vec::new();
    let mut i: usize = 0;
    while i < indices.len()
        invariant
            i <= indices.len(),
            selected@ == selection(pages@, indices@.take(i as int)),
            selected.len() <= i,
        decreases indices.len() - i,
    {
        proof {
            assert(indices@.take(i + 1).drop_last() =~= indices@.take(i as int));
        }
        let index = indices[i] as usize;
        if index < pages.len() {
            selected.push(pages[index]);
        }
        i += 1;
    }
    proof {
        assert(indices@.take(i as int) =~= indices@);
    }
    selected
}

/// What extracting the pages at `indices` from `doc` leaves, before it is written: the root
/// of the page tree lists exactly the chosen pages, and what the trailer no longer reaches is
/// gone.  Fails with an empty selection where no index is in range, which is so for every
/// index where the codec finds no page; and with the structural fault where pages were found
/// and yet the way from the trailer to the root of the page tree is broken.
pub open spec fn extract_outcome(doc: lopdf::Document, indices: Seq<u32>) -> Result<
    Contents,
    Failure,
> {
    let chosen = selection(pages_of(doc), indices);
    if chosen.len() == 0 {
        Err(Failure::EmptySelection)
    } else {
        match locate_root(contents_of(doc).objects, contents_of(doc).trailer) {
            Err(fault) => Err(Failure::Structure(fault)),
            Ok(_) => Ok(
                pruned(
                    Contents {
                        objects: replaced(
                            contents_of(doc).objects,
                            contents_of(doc).trailer,
                            chosen,
                        ),
                        ..contents_of(doc)
                    },
                ),
            ),
        }
    }
}

/// Limits the document to the pages at `indices`, in the order of the indices.
pub fn extract_from(doc: &mut lopdf::Document, indices: &Vec<u32>) -> (r: Result<
    (),
    ComposeError,
>)
    requires
        indices.len() <= i64::MAX,
    ensures
        match extract_outcome(*old(doc), indices@) {
            Ok(contents) => r is Ok && contents_of(*final(doc)) == contents,
            Err(failure) => r matches Err(error) && error@ == failure && contents_of(*final(doc))
                == contents_of(*old(doc)),
        },
{
    let pages = page_ids(doc);
    let selected = select_pages(&pages, indices);
    if selected.len() == 0 {
        return Err(ComposeError::EmptySelection);
    }
    match replace_pages(doc, &selected) {
        Err(fault) => Err(ComposeError::Structure(fault)),
        Ok(()) => {
            prune_unreachable(doc);
            Ok(())
        },
    }
}

/// `result` is what limiting the document `source` to the pages at `indices` and writing it
/// gives.
pub open spec fn is_extract_of(
    source: lopdf::Document,
    indices: Seq<u32>,
    result: Result<Vec<u8>, ComposeError>,
) -> bool {
    match extract_outcome(source, indices) {
        Err(failure) => result matches Err(error) && error@ == failure,
        Ok(contents) => exists|doc: lopdf::Document| #[trigger]
            contents_of(doc) == contents && written(doc, result),
    }
}

/// Reads a document, limits it to the pages at `page_indices` and writes the result.  The
/// indices count the document's pages from 0, in page order.  Fails where the codec cannot
/// read the bytes; otherwise the result is that of limiting the document that was read.
pub fn extract_pages(file_bytes: &[u8], page_indices: Vec<u32>) -> (r: Result<
    Vec<u8>,
    ComposeError,
>)
    requires
        page_indices.len() <= i64::MAX,
    ensures
        (r matches Err(error) && is_read_failure(error@, 0)) || exists|source: lopdf::Document|
            numbered(source) && #[trigger] is_extract_of(source, page_indices@, r),
{
    let mut doc = match read_document(file_bytes, 0) {
        Ok(doc) => doc,
        Err(error) => {
            return Err(error);
        },
    };
    let ghost source = doc;
    match extract_from(&mut doc, &page_indices) {
        Err(error) => {
            let r = Err(error);
            assert(is_extract_of(source, page_indices@, r));
            r
        },
        Ok(()) => {
            let ghost last = doc;
            let r = write_document(&mut doc);
            assert(contents_of(last) == extract_outcome(source, page_indices@)->Ok_0 && written(
                last,
                r,
            ));
            assert(is_extract_of(source, page_indices@, r));
            r
        },
    }
}

/// A selection has at most one page for each index, holds pages of the document only, and
/// is empty exactly where no index is in range.
pub proof fn law_selection_bounds(pages: Seq<ObjectId>, indices: Seq<u32>)
    ensures
        selection(pages, indices).len() <= indices.len(),
        forall|k: int|
            0 <= k < selection(pages, indices).len() ==> pages.contains(
                #[trigger] selection(pages, indices)[k],
            ),
        selection(pages, indices).len() == 0 <==> forall|j: int|
            0 <= j < indices.len() ==> #[trigger] indices[j] >= pages.len(),
    decreases indices.len(),
{
    if indices.len() > 0 {
        let front = indices.drop_last();
        law_selection_bounds(pages, front);
        assert forall|j: int| 0 <= j < front.len() implies front[j] == indices[j] by {}
        if selection(pages, indices).len() == 0 {
            assert forall|j: int| 0 <= j < indices.len() implies #[trigger] indices[j]
                >= pages.len() by {
                if j < front.len() {
                    assert(front[j] == indices[j]);
                }
            }
        }
        if forall|j: int| 0 <= j < indices.len() ==> #[trigger] indices[j] >= pages.len() {
            assert(indices[indices.len() - 1] >= pages.len());
            assert forall|j: int| 0 <= j < front.len() implies #[trigger] front[j]
                >= pages.len() by {
                assert(front[j] == indices[j]);
            }
        }
    }
}

/// Where extraction succeeds, the root of the page tree is where it was, it lists exactly
/// the chosen pages in the order of the indices, its count is their number, and each chosen
/// page that the document holds is in the result.
pub proof fn law_extraction_lists_chosen_pages(doc: lopdf::Document, indices: Seq<u32>, i: int)
    requires
        extract_outcome(doc, indices) is Ok,
        indices.len() <= i64::MAX,
        0 <= i < selection(pages_of(doc), indices).len(),
    ensures
        ({
            let chosen = selection(pages_of(doc), indices);
            let before = contents_of(doc);
            let edited = replaced(before.objects, before.trailer, chosen);
            let after = extract_outcome(doc, indices)->Ok_0;
            &&& after.trailer == before.trailer
            &&& locate_root(after.objects, after.trailer) == locate_root(
                before.objects,
                before.trailer,
            )
            &&& page_list(after.objects, after.trailer) == Some(
                references(chosen),
            )
            &&& page_count(after.objects, after.trailer) == Some(
                chosen.len() as i64,
            )
            &&& edited.contains_key(chosen[i]) ==> after.objects.contains_key(chosen[i])
                && after.objects[chosen[i]] == edited[chosen[i]]
        }),
{
    let chosen = selection(pages_of(doc), indices);
    let before = contents_of(doc);
    let edited = replaced(before.objects, before.trailer, chosen);
    law_selection_bounds(pages_of(doc), indices);
    law_replace_sets_page_list(before.objects, before.trailer, chosen);
    law_sweeping_keeps_page_tree(edited, before.trailer);
    if edited.contains_key(chosen[i]) {
        law_sweeping_keeps_listed_pages(edited, before.trailer, i);
    }
}

} // verus!
