//! The rotation transform: adds a number of degrees to the orientation of every page.
use crate::codec::{
    as_dictionary_mut, as_integer, entry, integer_object, max_id_of, node_of, numbered,
    object_at_mut,
    objects_of, page_ids, pages_of, set_entry, trailer_of,
};
use crate::document::{
    contents_of, is_read_failure, read_document, write_document, written, Contents,
};
use crate::error::ComposeError;
use crate::page_tree::{
    count_key, kids_key, law_page_tree_untouched, locate_root, page_count, page_list, pages_key,
};
use crate::graph::{
    dictionary_at, hop_limit, integer_entry, lemma_resolve_within_ends,
    lemma_resolve_within_stable, resolve, Entries, Graph, Node,
    ObjectId,
};
use vstd::prelude::*;
use vstd::string::StringSliceAdditionalSpecFns;

verus! {

/// The remainder of `a` by 360 that has the sign of `a`: division that rounds towards zero.
pub open spec fn rem360(a: int) -> int {
    if a >= 0 {
        a % 360
    } else {
        -((-a) % 360)
    }
}

/// The name of a page's orientation.
pub open spec fn rotate_key() -> Seq<u8> {
    "Rotate".spec_bytes()
}

/// The orientation that `entries` gives: the integer under `Rotate`, or 0 where there is none.
pub open spec fn orientation(entries: Entries) -> int {
    match integer_entry(entries, rotate_key()) {
        Some(value) => value as int,
        None => 0,
    }
}

/// `entries` with `delta` added to its orientation and the sum reduced by 360.
pub open spec fn turned(entries: Entries, delta: int) -> Entries {
    entries.insert(rotate_key(), Node::Integer(rem360(orientation(entries) + delta) as i64))
}

/// The graph after the page `page` was turned by `delta`.  Unchanged where a lookup of `page`
/// finds no dictionary.
pub open spec fn page_turned(graph: Graph, page: ObjectId, delta: int) -> Graph {
    match dictionary_at(graph, page) {
        Some(entries) => graph.insert(
            resolve(graph, page).unwrap(),
            Node::Dictionary(turned(entries, delta)),
        ),
        None => graph,
    }
}

/// The graph after each of `pages` was turned by `delta`, one after the other.
pub open spec fn pages_turned(graph: Graph, pages: Seq<ObjectId>, delta: int) -> Graph
    decreases pages.len(),
{
    if pages.len() == 0 {
        graph
    } else {
        page_turned(pages_turned(graph, pages.drop_last(), delta), pages.last(), delta)
    }
}

/// Reduces a number of degrees by 360, keeping its sign.
pub fn reduce_delta(degrees: i32) -> (r: i32)
    ensures
        r == rem360(degrees as int),
        -360 < r < 360,
{
    degrees % 360
}

/// The orientation that follows `current` when `delta` is added: the sum, reduced by 360 with
/// the sign of the sum.  `current` is taken as it is, not reduced first.
pub fn rotated_value(current: i64, delta: i32) -> (r: i64)
    ensures
        r == rem360(current + delta),
        -360 < r < 360,
{
    let sum: i128 = current as i128 + delta as i128;
    (sum % 360) as i64
}

/// Turns the page `page` by `delta`: reads its orientation, 0 where it has none, and writes
/// the new one.  A page that is not a dictionary is passed over.
pub fn rotate_page(doc: &mut lopdf::Document, page: ObjectId, delta: i32)
    ensures
        objects_of(*final(doc)) == page_turned(objects_of(*old(doc)), page, delta as int),
        trailer_of(*final(doc)) == trailer_of(*old(doc)),
        max_id_of(*final(doc)) == max_id_of(*old(doc)),
{
    let ghost graph = objects_of(*doc);
    match object_at_mut(doc, page) {
        None => {},
        Some(object) => match as_dictionary_mut(object) {
            None => {
                proof {
                    lemma_resolve_within_ends(graph, page, hop_limit());
                }
                assert(graph.insert(resolve(graph, page).unwrap(), node_of(*object)) =~= graph);
            },
            Some(dict) => {
                let current = match entry(dict, "Rotate".as_bytes()) {
                    None => None,
                    Some(value) => as_integer(value),
                };
                let start: i64 = match current {
                    Some(value) => value,
                    None => 0,
                };
                set_entry(dict, "Rotate".as_bytes(), integer_object(rotated_value(start, delta)));
            },
        },
    }
}

/// Turns every page of the document by `degrees`, reduced by 360 first, in page order: once
/// for each place at which the codec lists it, so twice where a page is listed twice.  No
/// page is passed over but one that is no dictionary; page order, the page tree and the
/// trailer stay.
pub fn rotate_document(doc: &mut lopdf::Document, degrees: i32)
    ensures
        objects_of(*final(doc)) == pages_turned(
            objects_of(*old(doc)),
            pages_of(*old(doc)),
            rem360(degrees as int),
        ),
        trailer_of(*final(doc)) == trailer_of(*old(doc)),
        max_id_of(*final(doc)) == max_id_of(*old(doc)),
{
    let delta = reduce_delta(degrees);
    let pages = page_ids(doc);
    let ghost graph = objects_of(*doc);
    let mut i: usize = 0;
    while i < pages.len()
        invariant
            i <= pages.len(),
            objects_of(*doc) == pages_turned(graph, pages@.take(i as int), delta as int),
            trailer_of(*doc) == trailer_of(*old(doc)),
            max_id_of(*doc) == max_id_of(*old(doc)),
        decreases pages.len() - i,
    {
        proof {
            assert(pages@.take(i + 1).drop_last() =~= pages@.take(i as int));
        }
        rotate_page(doc, pages[i], delta);
        i += 1;
    }
    proof {
        assert(pages@.take(i as int) =~= pages@);
    }
}

/// What turning `doc` by `degrees` leaves, before it is written.
pub open spec fn rotate_outcome(doc: lopdf::Document, degrees: i32) -> Contents {
    Contents {
        objects: pages_turned(objects_of(doc), pages_of(doc), rem360(degrees as int)),
        ..contents_of(doc)
    }
}

/// `result` is what turning the document `source` by `degrees` and writing it gives.
pub open spec fn is_rotation_of(
    source: lopdf::Document,
    degrees: i32,
    result: Result<Vec<u8>, ComposeError>,
) -> bool {
    exists|doc: lopdf::Document| #[trigger]
        contents_of(doc) == rotate_outcome(source, degrees) && written(doc, result)
}

/// Reads a document, turns every page by `degrees` and writes the result.  Fails where the
/// codec cannot read the bytes; otherwise the result is that of turning the document that
/// was read.
pub fn rotate_pdf(file_bytes: &[u8], degrees: i32) -> (r: Result<Vec<u8>, ComposeError>)
    ensures
        (r matches Err(error) && is_read_failure(error@, 0)) || exists|source: lopdf::Document|
            numbered(source) && #[trigger] is_rotation_of(source, degrees, r),
{
    let mut doc = match read_document(file_bytes, 0) {
        Ok(doc) => doc,
        Err(error) => {
            return Err(error);
        },
    };
    let ghost source = doc;
    rotate_document(&mut doc, degrees);
    let ghost last = doc;
    let r = write_document(&mut doc);
    assert(contents_of(last) == rotate_outcome(source, degrees) && written(last, r));
    assert(is_rotation_of(source, degrees, r));
    r
}

/// Turning by no degrees leaves an orientation of less than a full turn as it is.
pub proof fn law_zero_rotation_is_identity(current: int)
    requires
        -360 < current < 360,
    ensures
        rem360(current + rem360(0)) == current,
{
}

/// A number and its remainder differ by whole turns, and the remainder has the number's sign.
proof fn lemma_rem360_turns(a: int) -> (turns: int)
    ensures
        a == rem360(a) + 360 * turns,
        -360 < rem360(a) < 360,
        a >= 0 ==> rem360(a) >= 0,
        a <= 0 ==> rem360(a) <= 0,
{
    if a >= 0 {
        a / 360
    } else {
        -((-a) / 360)
    }
}

/// Turning by some degrees and then by as many the other way gives an orientation that
/// differs from the first by whole turns only.
pub proof fn law_rotation_is_undone(current: int, degrees: int)
    ensures
        (rem360(rem360(current + rem360(degrees)) + rem360(-degrees)) - current) % 360 == 0,
{
    let forth = rem360(degrees);
    let back = rem360(-degrees);
    let middle = rem360(current + forth);
    let k1 = lemma_rem360_turns(degrees);
    let k2 = lemma_rem360_turns(-degrees);
    let k3 = lemma_rem360_turns(current + forth);
    let k4 = lemma_rem360_turns(middle + back);
    let turns = -k1 - k2 - k3 - k4;
    assert(rem360(middle + back) - current == turns * 360);
    vstd::arithmetic::div_mod::lemma_mod_multiples_basic(turns, 360);
}

/// Turning by `first` and then by `second` gives an orientation that differs from that of one
/// turn by their sum by whole turns only.
pub proof fn law_rotations_compose_modulo_turns(current: int, first: int, second: int)
    ensures
        (rem360(rem360(current + rem360(first)) + rem360(second)) - rem360(
            current + rem360(first + second),
        )) % 360 == 0,
{
    let turns = lemma_rotations_differ_by_turns(current, first, second);
    vstd::arithmetic::div_mod::lemma_mod_multiples_basic(turns, 360);
}

/// The whole turns by which two turns in a row differ from one turn by the sum.
proof fn lemma_rotations_differ_by_turns(current: int, first: int, second: int) -> (turns: int)
    ensures
        rem360(rem360(current + rem360(first)) + rem360(second)) - rem360(
            current + rem360(first + second),
        ) == turns * 360,
{
    let u = rem360(first);
    let v = rem360(second);
    let w = rem360(first + second);
    let middle = rem360(current + u);
    let k1 = lemma_rem360_turns(first);
    let k2 = lemma_rem360_turns(second);
    let k3 = lemma_rem360_turns(first + second);
    let k4 = lemma_rem360_turns(current + u);
    let k5 = lemma_rem360_turns(middle + v);
    let k6 = lemma_rem360_turns(current + w);
    k3 + k6 - k1 - k2 - k4 - k5
}

/// Where nothing is negative, turning by `first` and then by `second` gives the orientation
/// of one turn by their sum.
pub proof fn law_rotations_compose(current: int, first: int, second: int)
    requires
        0 <= current,
        0 <= first,
        0 <= second,
    ensures
        rem360(rem360(current + rem360(first)) + rem360(second)) == rem360(
            current + rem360(first + second),
        ),
{
    let turns = lemma_rotations_differ_by_turns(current, first, second);
    let u = rem360(first);
    let v = rem360(second);
    let w = rem360(first + second);
    let middle = rem360(current + u);
    let k1 = lemma_rem360_turns(first);
    let k2 = lemma_rem360_turns(second);
    let k3 = lemma_rem360_turns(first + second);
    let k4 = lemma_rem360_turns(current + u);
    let k5 = lemma_rem360_turns(middle + v);
    let k6 = lemma_rem360_turns(current + w);
    assert(turns == 0);
}

/// `after` is `before` with at most its orientation changed: the same object, or two
/// dictionaries that hold the same under every name but `Rotate`.
pub open spec fn differs_in_orientation_only(before: Node, after: Node) -> bool {
    before == after || (before is Dictionary && after is Dictionary && forall|key: Seq<u8>|
        key != rotate_key() ==> (#[trigger] before->Dictionary_0.contains_key(key)
            == after->Dictionary_0.contains_key(key)) && (before->Dictionary_0.contains_key(key)
            ==> before->Dictionary_0[key] == after->Dictionary_0[key]))
}

/// How often the pages are turned that are the object `at`: once for each place in `pages`
/// whose lookup ends there.
pub open spec fn turn_count(graph: Graph, pages: Seq<ObjectId>, at: ObjectId) -> nat
    decreases pages.len(),
{
    if pages.len() == 0 {
        0
    } else if resolve(graph, pages.last()) == Some(at) {
        turn_count(graph, pages.drop_last(), at) + 1
    } else {
        turn_count(graph, pages.drop_last(), at)
    }
}

/// The orientation that a dictionary object gives, 0 for any other object.
pub open spec fn orientation_at(graph: Graph, at: ObjectId) -> int {
    match graph[at] {
        Node::Dictionary(entries) => orientation(entries),
        _ => 0,
    }
}

/// What turning the pages does to a graph, whatever the pages are.  No identifier comes or
/// goes, and no lookup ends elsewhere than before.  An object changes in its orientation
/// only, and only a dictionary does.  A dictionary that is turned `turn_count` times ends
/// with the orientation of its old one and that many times `delta`, up to whole turns; it is
/// less than a full turn once the object was turned at all, and not negative where neither
/// the old orientation nor `delta` is.
pub proof fn law_rotation_changes_orientation_only(
    graph: Graph,
    pages: Seq<ObjectId>,
    delta: int,
)
    ensures
        pages_turned(graph, pages, delta).dom() == graph.dom(),
        forall|id: ObjectId| #[trigger]
            resolve(pages_turned(graph, pages, delta), id) == resolve(graph, id),
        forall|at: ObjectId|
            graph.contains_key(at) ==> differs_in_orientation_only(
                graph[at],
                #[trigger] pages_turned(graph, pages, delta)[at],
            ),
        forall|at: ObjectId|
            graph.contains_key(at) && graph[at] is Dictionary ==> (#[trigger] orientation_at(
                pages_turned(graph, pages, delta),
                at,
            ) - orientation_at(graph, at) - turn_count(graph, pages, at) * delta) % 360 == 0,
        forall|at: ObjectId|
            graph.contains_key(at) && graph[at] is Dictionary && turn_count(graph, pages, at) > 0
                ==> -360 < #[trigger] orientation_at(pages_turned(graph, pages, delta), at) < 360,
        forall|at: ObjectId|
            graph.contains_key(at) && graph[at] is Dictionary && turn_count(graph, pages, at) == 0
                ==> #[trigger] pages_turned(graph, pages, delta)[at] == graph[at],
        forall|at: ObjectId|
            graph.contains_key(at) && 0 <= delta && 0 <= orientation_at(graph, at) ==> 0
                <= #[trigger] orientation_at(pages_turned(graph, pages, delta), at),
        forall|at: ObjectId|
            graph.contains_key(at) && delta == 0 && -360 < orientation_at(graph, at) < 360
                ==> #[trigger] orientation_at(pages_turned(graph, pages, delta), at)
                == orientation_at(graph, at),
    decreases pages.len(),
{
    if pages.len() > 0 {
        let front = pages.drop_last();
        let last = pages.last();
        let before = pages_turned(graph, front, delta);
        let after = pages_turned(graph, pages, delta);
        law_rotation_changes_orientation_only(graph, front, delta);
        assert(resolve(before, last) == resolve(graph, last));
        lemma_resolve_within_ends(graph, last, hop_limit());
        if let Some(entries) = dictionary_at(before, last) {
            let here = resolve(graph, last).unwrap();
            let node = Node::Dictionary(turned(entries, delta));
            assert(differs_in_orientation_only(graph[here], before[here]));
            assert(after == before.insert(here, node));
            assert(after.dom() =~= graph.dom());
            assert forall|id: ObjectId| #[trigger] resolve(after, id) == resolve(graph, id) by {
                lemma_resolve_within_stable(before, here, node, id, hop_limit());
                assert(resolve(before, id) == resolve(graph, id));
            }
            let old_value = orientation_at(before, here);
            let turns = lemma_rem360_turns(old_value + delta);
            let times = turn_count(graph, front, here);
            assert((times + 1) * delta == times * delta + delta) by (nonlinear_arith);
            assert(orientation_at(after, here) == rem360(old_value + delta));
            assert forall|at: ObjectId|
                graph.contains_key(at) && graph[at] is Dictionary implies (
            #[trigger] orientation_at(after, at) - orientation_at(graph, at) - turn_count(
                graph,
                pages,
                at,
            ) * delta) % 360 == 0 by {
                if at == here {
                    assert((orientation_at(before, at) - orientation_at(graph, at) - times * delta)
                        % 360 == 0);
                    assert(orientation_at(after, at) - orientation_at(graph, at) - (times + 1)
                        * delta == (orientation_at(before, at) - orientation_at(graph, at) - times
                        * delta) - 360 * turns);
                } else {
                    assert(after[at] == before[at]);
                    assert((orientation_at(before, at) - orientation_at(graph, at) - turn_count(
                        graph,
                        front,
                        at,
                    ) * delta) % 360 == 0);
                }
            }
            assert forall|at: ObjectId|
                graph.contains_key(at) implies differs_in_orientation_only(
                graph[at],
                #[trigger] after[at],
            ) by {
                assert(differs_in_orientation_only(graph[at], before[at]));
            }
            assert forall|at: ObjectId|
                graph.contains_key(at) && 0 <= delta && 0 <= orientation_at(
                    graph,
                    at,
                ) implies 0 <= #[trigger] orientation_at(after, at) by {
                assert(0 <= orientation_at(before, at));
            }
            assert forall|at: ObjectId|
                graph.contains_key(at) && delta == 0 && -360 < orientation_at(graph, at)
                    < 360 implies #[trigger] orientation_at(after, at) == orientation_at(
                graph,
                at,
            ) by {
                assert(orientation_at(before, at) == orientation_at(graph, at));
            }
            assert forall|at: ObjectId|
                graph.contains_key(at) && graph[at] is Dictionary && turn_count(graph, pages, at)
                    > 0 implies -360 < #[trigger] orientation_at(after, at) < 360 by {
                if at != here {
                    assert(after[at] == before[at]);
                    assert(-360 < orientation_at(before, at) < 360);
                }
            }
            assert forall|at: ObjectId|
                graph.contains_key(at) && graph[at] is Dictionary && turn_count(graph, pages, at)
                    == 0 implies #[trigger] after[at] == graph[at] by {
                assert(before[at] == graph[at]);
            }
        } else {
            assert(after == before);
            assert forall|at: ObjectId| graph[at] is Dictionary implies turn_count(
                graph,
                pages,
                at,
            ) == turn_count(graph, front, at) by {
                if resolve(graph, last) == Some(at) {
                    assert(differs_in_orientation_only(graph[at], before[at]));
                }
            }
            assert forall|at: ObjectId|
                graph.contains_key(at) && graph[at] is Dictionary implies (
            #[trigger] orientation_at(after, at) - orientation_at(graph, at) - turn_count(
                graph,
                pages,
                at,
            ) * delta) % 360 == 0 by {
                assert((orientation_at(before, at) - orientation_at(graph, at) - turn_count(
                    graph,
                    front,
                    at,
                ) * delta) % 360 == 0);
            }
        }
    } else {
        assert forall|at: ObjectId| graph.contains_key(at) && graph[at] is Dictionary implies (
        #[trigger] orientation_at(pages_turned(graph, pages, delta), at) - orientation_at(
            graph,
            at,
        ) - turn_count(graph, pages, at) * delta) % 360 == 0 by {
            assert(turn_count(graph, pages, at) * delta == 0) by (nonlinear_arith)
                requires
                    turn_count(graph, pages, at) == 0,
            ;
        }
    }
}

/// No two of `pages` are the same object: their lookups end at different identifiers.
pub open spec fn distinct_pages(graph: Graph, pages: Seq<ObjectId>) -> bool {
    forall|i: int, j: int|
        0 <= i < j < pages.len() && resolve(graph, pages[i]) is Some ==> resolve(graph, pages[i])
            != resolve(graph, pages[j])
}

/// `at` is where the lookup of one of `pages` finds a dictionary.
pub open spec fn is_page_object(graph: Graph, pages: Seq<ObjectId>, at: ObjectId) -> bool {
    exists|i: int|
        0 <= i < pages.len() && resolve(graph, #[trigger] pages[i]) == Some(at)
            && graph[at] is Dictionary
}

/// What turning the pages does to a graph where no page is listed twice, object by object:
/// each page that is a dictionary has its orientation turned once, every other object stays
/// as it is, no lookup ends elsewhere than before, and no identifier comes or goes.  (A page
/// that is listed twice is turned twice; `law_rotation_changes_orientation_only` says what
/// holds then.)
pub proof fn law_pages_turned_one_by_one(graph: Graph, pages: Seq<ObjectId>, delta: int)
    requires
        distinct_pages(graph, pages),
    ensures
        pages_turned(graph, pages, delta).dom() == graph.dom(),
        forall|id: ObjectId| #[trigger]
            resolve(pages_turned(graph, pages, delta), id) == resolve(graph, id),
        forall|at: ObjectId|
            graph.contains_key(at) && !is_page_object(graph, pages, at) ==> #[trigger] pages_turned(
                graph,
                pages,
                delta,
            )[at] == graph[at],
        forall|at: ObjectId|
            is_page_object(graph, pages, at) ==> #[trigger] pages_turned(graph, pages, delta)[at]
                == Node::Dictionary(turned(graph[at]->Dictionary_0, delta)),
    decreases pages.len(),
{
    if pages.len() > 0 {
        let front = pages.drop_last();
        let last = pages.last();
        let before = pages_turned(graph, front, delta);
        let after = pages_turned(graph, pages, delta);
        assert(distinct_pages(graph, front)) by {
            assert forall|i: int, j: int|
                0 <= i < j < front.len() && resolve(graph, front[i]) is Some implies resolve(
                graph,
                front[i],
            ) != resolve(graph, front[j]) by {
                assert(front[i] == pages[i] && front[j] == pages[j]);
            }
        }
        law_pages_turned_one_by_one(graph, front, delta);
        assert(resolve(before, last) == resolve(graph, last));
        lemma_resolve_within_ends(graph, last, hop_limit());
        assert forall|at: ObjectId| is_page_object(graph, front, at) implies is_page_object(
            graph,
            pages,
            at,
        ) by {
            let i = choose|i: int|
                0 <= i < front.len() && resolve(graph, #[trigger] front[i]) == Some(at)
                    && graph[at] is Dictionary;
            assert(pages[i] == front[i]);
        }
        match resolve(graph, last) {
            Some(here) => {
                assert(!is_page_object(graph, front, here)) by {
                    if is_page_object(graph, front, here) {
                        let i = choose|i: int|
                            0 <= i < front.len() && resolve(graph, #[trigger] front[i]) == Some(
                                here,
                            ) && graph[here] is Dictionary;
                        assert(pages[i] == front[i]);
                        assert(pages[pages.len() - 1] == last);
                    }
                }
                assert(before[here] == graph[here]);
                if graph[here] is Dictionary {
                    assert(is_page_object(graph, pages, here)) by {
                        assert(pages[pages.len() - 1] == last);
                    }
                    let node = Node::Dictionary(turned(graph[here]->Dictionary_0, delta));
                    assert(after == before.insert(here, node));
                    assert(after.dom() =~= graph.dom());
                    assert forall|id: ObjectId| #[trigger]
                        resolve(after, id) == resolve(graph, id) by {
                        lemma_resolve_within_stable(before, here, node, id, hop_limit());
                        assert(resolve(before, id) == resolve(graph, id));
                    }
                    assert forall|at: ObjectId|
                        graph.contains_key(at) && !is_page_object(
                        graph,
                        pages,
                        at,
                    ) implies #[trigger] after[at] == graph[at] by {
                        assert(at != here);
                        assert(!is_page_object(graph, front, at));
                    }
                    assert forall|at: ObjectId|
                        is_page_object(graph, pages, at) implies #[trigger] after[at]
                        == Node::Dictionary(turned(graph[at]->Dictionary_0, delta)) by {
                        if at != here {
                            let i = choose|i: int|
                                0 <= i < pages.len() && resolve(graph, #[trigger] pages[i]) == Some(
                                    at,
                                ) && graph[at] is Dictionary;
                            assert(i < front.len());
                            assert(front[i] == pages[i]);
                            assert(is_page_object(graph, front, at));
                        }
                    }
                } else {
                    assert(after == before);
                    lemma_pages_without_last(graph, pages);
                }
            },
            None => {
                assert(after == before);
                lemma_pages_without_last(graph, pages);
            },
        }
    } else {
        assert forall|at: ObjectId| !is_page_object(graph, pages, at) by {}
    }
}

/// A last page that is no dictionary adds nothing to the page objects.
proof fn lemma_pages_without_last(graph: Graph, pages: Seq<ObjectId>)
    requires
        pages.len() > 0,
        !(dictionary_at(graph, pages.last()) is Some),
    ensures
        forall|at: ObjectId|
            is_page_object(graph, pages, at) ==> is_page_object(graph, pages.drop_last(), at),
{
    let front = pages.drop_last();
    assert forall|at: ObjectId| is_page_object(graph, pages, at) implies is_page_object(
        graph,
        front,
        at,
    ) by {
        let i = choose|i: int|
            0 <= i < pages.len() && resolve(graph, #[trigger] pages[i]) == Some(at)
                && graph[at] is Dictionary;
        assert(i < front.len());
        assert(front[i] == pages[i]);
    }
}

/// The orientation of the page `page`: that of the dictionary that its lookup finds, 0 where
/// it finds none.
pub open spec fn page_orientation(graph: Graph, page: ObjectId) -> int {
    match dictionary_at(graph, page) {
        Some(entries) => orientation(entries),
        None => 0,
    }
}

/// After the pages were turned by `delta`, each page that is a dictionary has the
/// orientation that `delta` makes of its old one, where no page is listed twice; a page that
/// is no dictionary still has none.
pub proof fn law_turned_page_orientation(graph: Graph, pages: Seq<ObjectId>, delta: int, i: int)
    requires
        distinct_pages(graph, pages),
        0 <= i < pages.len(),
    ensures
        distinct_pages(pages_turned(graph, pages, delta), pages),
        dictionary_at(pages_turned(graph, pages, delta), pages[i]) is Some <==> dictionary_at(
            graph,
            pages[i],
        ) is Some,
        page_orientation(pages_turned(graph, pages, delta), pages[i]) == if dictionary_at(
            graph,
            pages[i],
        ) is Some {
            rem360(page_orientation(graph, pages[i]) + delta)
        } else {
            0
        },
{
    let after = pages_turned(graph, pages, delta);
    law_pages_turned_one_by_one(graph, pages, delta);
    lemma_resolve_within_ends(graph, pages[i], hop_limit());
    assert(resolve(after, pages[i]) == resolve(graph, pages[i]));
    assert(distinct_pages(after, pages)) by {
        assert forall|a: int, b: int|
            0 <= a < b < pages.len() && resolve(after, pages[a]) is Some implies resolve(
            after,
            pages[a],
        ) != resolve(after, pages[b]) by {
            assert(resolve(after, pages[a]) == resolve(graph, pages[a]));
            assert(resolve(after, pages[b]) == resolve(graph, pages[b]));
        }
    }
    match resolve(graph, pages[i]) {
        Some(at) => {
            if graph[at] is Dictionary {
                assert(is_page_object(graph, pages, at));
                let turns = lemma_rem360_turns(orientation(graph[at]->Dictionary_0) + delta);
            } else {
                assert(!is_page_object(graph, pages, at));
                assert(after[at] == graph[at]);
            }
        },
        None => {},
    }
}

/// How often an object is turned depends on the pages and on where lookups end only.
proof fn lemma_turn_count_follows_lookups(
    graph: Graph,
    other: Graph,
    pages: Seq<ObjectId>,
    at: ObjectId,
)
    requires
        forall|id: ObjectId| #[trigger] resolve(other, id) == resolve(graph, id),
    ensures
        turn_count(other, pages, at) == turn_count(graph, pages, at),
    decreases pages.len(),
{
    if pages.len() > 0 {
        lemma_turn_count_follows_lookups(graph, other, pages.drop_last(), at);
        assert(resolve(other, pages.last()) == resolve(graph, pages.last()));
    }
}

/// The orientation of a page and that of the object at which its lookup ends are one.
proof fn lemma_page_orientation_at(graph: Graph, page: ObjectId)
    ensures
        page_orientation(graph, page) == match resolve(graph, page) {
            Some(at) => orientation_at(graph, at),
            None => 0,
        },
        resolve(graph, page) matches Some(at) ==> graph.contains_key(at),
{
    lemma_resolve_within_ends(graph, page, hop_limit());
}

/// Turning a document by no degrees leaves the orientation of every page as it is, where
/// that orientation is less than a full turn, however often the page is listed.
pub proof fn law_zero_rotation_keeps_pages(graph: Graph, pages: Seq<ObjectId>, page: ObjectId)
    requires
        -360 < page_orientation(graph, page) < 360,
    ensures
        page_orientation(pages_turned(graph, pages, rem360(0)), page) == page_orientation(
            graph,
            page,
        ),
{
    let after = pages_turned(graph, pages, rem360(0));
    law_rotation_changes_orientation_only(graph, pages, rem360(0));
    lemma_page_orientation_at(graph, page);
    lemma_page_orientation_at(after, page);
    assert(resolve(after, page) == resolve(graph, page));
    if let Some(at) = resolve(graph, page) {
        assert(differs_in_orientation_only(graph[at], after[at]));
    }
}

/// After a document was turned, the orientation of every page that is a dictionary is less
/// than a full turn.
pub proof fn law_turned_pages_are_in_range(
    graph: Graph,
    pages: Seq<ObjectId>,
    delta: int,
    i: int,
)
    requires
        0 <= i < pages.len(),
        dictionary_at(graph, pages[i]) is Some,
    ensures
        -360 < page_orientation(pages_turned(graph, pages, delta), pages[i]) < 360,
{
    let after = pages_turned(graph, pages, delta);
    law_rotation_changes_orientation_only(graph, pages, delta);
    lemma_page_orientation_at(graph, pages[i]);
    lemma_page_orientation_at(after, pages[i]);
    assert(resolve(after, pages[i]) == resolve(graph, pages[i]));
    lemma_turn_count_of_listed(graph, pages, i);
}

/// A page that is listed is turned at least once.
proof fn lemma_turn_count_of_listed(graph: Graph, pages: Seq<ObjectId>, i: int)
    requires
        0 <= i < pages.len(),
        resolve(graph, pages[i]) is Some,
    ensures
        turn_count(graph, pages, resolve(graph, pages[i]).unwrap()) > 0,
    decreases pages.len(),
{
    if i < pages.len() - 1 {
        assert(pages.drop_last()[i] == pages[i]);
        lemma_turn_count_of_listed(graph, pages.drop_last(), i);
    }
}

/// Turning a document by some degrees and then by as many the other way restores the
/// orientation of every page, up to whole turns, however often a page is listed.
pub proof fn law_rotation_undone_on_pages(
    graph: Graph,
    pages: Seq<ObjectId>,
    degrees: int,
    page: ObjectId,
)
    ensures
        (page_orientation(
            pages_turned(pages_turned(graph, pages, rem360(degrees)), pages, rem360(-degrees)),
            page,
        ) - page_orientation(graph, page)) % 360 == 0,
{
    let forth = rem360(degrees);
    let back = rem360(-degrees);
    let once = pages_turned(graph, pages, forth);
    let twice = pages_turned(once, pages, back);
    law_rotation_changes_orientation_only(graph, pages, forth);
    law_rotation_changes_orientation_only(once, pages, back);
    lemma_page_orientation_at(graph, page);
    lemma_page_orientation_at(once, page);
    lemma_page_orientation_at(twice, page);
    assert(resolve(once, page) == resolve(graph, page));
    assert(resolve(twice, page) == resolve(once, page));
    if let Some(at) = resolve(graph, page) {
        assert(differs_in_orientation_only(graph[at], once[at]));
        assert(differs_in_orientation_only(once[at], twice[at]));
        if graph[at] is Dictionary {
            lemma_turn_count_follows_lookups(graph, once, pages, at);
            let times = turn_count(graph, pages, at);
            assert(times * back == -(times * forth)) by (nonlinear_arith)
                requires
                    back == -forth,
            ;
            let first = orientation_at(once, at) - orientation_at(graph, at) - times * forth;
            let second = orientation_at(twice, at) - orientation_at(once, at) - times * back;
            assert(first % 360 == 0);
            assert(second % 360 == 0);
            assert(orientation_at(twice, at) - orientation_at(graph, at) == first + second);
        }
    }
}

/// Turning a document by `first` and then by `second` gives every page the orientation that
/// one turn by their sum gives it, up to whole turns, however often a page is listed; and
/// that very orientation where the page is a dictionary that is listed, and its own
/// orientation and the two numbers are not negative.
pub proof fn law_rotations_compose_on_pages(
    graph: Graph,
    pages: Seq<ObjectId>,
    first: int,
    second: int,
    page: ObjectId,
)
    ensures
        (page_orientation(
            pages_turned(pages_turned(graph, pages, rem360(first)), pages, rem360(second)),
            page,
        ) - page_orientation(pages_turned(graph, pages, rem360(first + second)), page)) % 360
            == 0,
        0 <= page_orientation(graph, page) && 0 <= first && 0 <= second && pages.contains(page)
            ==> page_orientation(
            pages_turned(pages_turned(graph, pages, rem360(first)), pages, rem360(second)),
            page,
        ) == page_orientation(pages_turned(graph, pages, rem360(first + second)), page),
{
    let a = rem360(first);
    let b = rem360(second);
    let c = rem360(first + second);
    let k1 = lemma_rem360_turns(first);
    let k2 = lemma_rem360_turns(second);
    let k3 = lemma_rem360_turns(first + second);
    let once = pages_turned(graph, pages, a);
    let twice = pages_turned(once, pages, b);
    let direct = pages_turned(graph, pages, c);
    law_rotation_changes_orientation_only(graph, pages, a);
    law_rotation_changes_orientation_only(once, pages, b);
    law_rotation_changes_orientation_only(graph, pages, c);
    lemma_page_orientation_at(graph, page);
    lemma_page_orientation_at(once, page);
    lemma_page_orientation_at(twice, page);
    lemma_page_orientation_at(direct, page);
    assert(resolve(once, page) == resolve(graph, page));
    assert(resolve(twice, page) == resolve(once, page));
    assert(resolve(direct, page) == resolve(graph, page));
    if let Some(at) = resolve(graph, page) {
        assert(differs_in_orientation_only(graph[at], once[at]));
        assert(differs_in_orientation_only(once[at], twice[at]));
        assert(differs_in_orientation_only(graph[at], direct[at]));
        if graph[at] is Dictionary {
            lemma_turn_count_follows_lookups(graph, once, pages, at);
            let times = turn_count(graph, pages, at);
            let whole = k3 - k1 - k2;
            assert(a + b - c == 360 * whole);
            assert(times * a + times * b - times * c == 360 * (times * whole))
                by (nonlinear_arith)
                requires
                    a + b - c == 360 * whole,
            ;
            vstd::arithmetic::div_mod::lemma_mod_multiples_basic(times * whole, 360);
            let x = orientation_at(once, at) - orientation_at(graph, at) - times * a;
            let y = orientation_at(twice, at) - orientation_at(once, at) - times * b;
            let z = orientation_at(direct, at) - orientation_at(graph, at) - times * c;
            assert(x % 360 == 0 && y % 360 == 0 && z % 360 == 0);
            let w = 360 * (times * whole);
            assert(w % 360 == 0) by {
                assert(w == (times * whole) * 360);
            }
            assert(orientation_at(twice, at) - orientation_at(direct, at) == x + y - z + w);
            if 0 <= page_orientation(graph, page) && 0 <= first && 0 <= second && pages.contains(
                page,
            ) {
                let i = choose|i: int| 0 <= i < pages.len() && pages[i] == page;
                lemma_turn_count_of_listed(graph, pages, i);
                assert(0 <= orientation_at(once, at));
                assert(0 <= orientation_at(twice, at) < 360);
                assert(0 <= orientation_at(direct, at) < 360);
            }
        }
    }
}

/// `Rotate` is none of the names that the page tree is found and read by.
proof fn lemma_rotate_key_differs()
    ensures
        rotate_key() != pages_key(),
        rotate_key() != kids_key(),
        rotate_key() != count_key(),
{
    reveal_strlit("Rotate");
    reveal_strlit("Pages");
    reveal_strlit("Kids");
    reveal_strlit("Count");
    vstd::utf8::encode_utf8_decode_utf8("Rotate"@);
    vstd::utf8::encode_utf8_decode_utf8("Pages"@);
    vstd::utf8::encode_utf8_decode_utf8("Kids"@);
    vstd::utf8::encode_utf8_decode_utf8("Count"@);
}

/// Turning pages changes neither which identifiers the graph holds nor the page tree: the
/// same root is found, and it lists the same children in the same order and gives the same
/// count.
pub proof fn law_rotation_keeps_page_tree(
    graph: Graph,
    trailer: Entries,
    pages: Seq<ObjectId>,
    delta: int,
)
    ensures
        pages_turned(graph, pages, delta).dom() == graph.dom(),
        locate_root(pages_turned(graph, pages, delta), trailer) == locate_root(graph, trailer),
        page_list(pages_turned(graph, pages, delta), trailer) == page_list(graph, trailer),
        page_count(pages_turned(graph, pages, delta), trailer) == page_count(graph, trailer),
    decreases pages.len(),
{
    if pages.len() > 0 {
        let before = pages_turned(graph, pages.drop_last(), delta);
        law_rotation_keeps_page_tree(graph, trailer, pages.drop_last(), delta);
        if let Some(entries) = dictionary_at(before, pages.last()) {
            let at = resolve(before, pages.last()).unwrap();
            lemma_resolve_within_ends(before, pages.last(), hop_limit());
            lemma_rotate_key_differs();
            law_page_tree_untouched(before, trailer, at, turned(entries, delta));
            assert(before.insert(at, Node::Dictionary(turned(entries, delta))).dom()
                =~= before.dom());
        }
    }
}

} // verus!

