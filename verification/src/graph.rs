//! The object graph of a document as a mathematical value.
//!
//! A document is a finite map from identifiers to objects.  Objects refer to one another by
//! identifier only, so the graph may hold cycles and shared objects; nothing here owns anything.
use vstd::prelude::*;

verus! {

/// The name of an object inside one document: its number and its generation.
pub type ObjectId = (u32, u16);

/// The entries of a dictionary: values by name.
pub type Entries = Map<Seq<u8>, Node>;

/// The objects of a document by identifier.
pub type Graph = Map<ObjectId, Node>;

/// What one object is.
///
/// A real number stands as the 32 bits that hold it.  Of a string the bytes are kept and
/// whether it is written in hexadecimal; of a stream its dictionary and its payload as stored.
/// The order in which a dictionary lists its entries is not part of this value.
pub enum Node {
    Null,
    Boolean(bool),
    Integer(i64),
    Real(u32),
    Name(Seq<u8>),
    Text(Seq<u8>, bool),
    Array(Seq<Node>),
    Dictionary(Entries),
    Stream(Entries, Seq<u8>),
    Reference(ObjectId),
}

/// How many references in a row a lookup follows before it gives up.
pub open spec fn hop_limit() -> nat {
    128
}

/// The identifier at which a lookup of `id` ends: the first object along the chain of
/// references from `id` that is not itself a reference.  `None` where the chain leaves the
/// graph or is longer than `hops`.
pub open spec fn resolve_within(graph: Graph, id: ObjectId, hops: nat) -> Option<ObjectId>
    decreases hops,
{
    if !graph.contains_key(id) {
        None
    } else {
        match graph[id] {
            Node::Reference(next) => if hops == 0 {
                None
            } else {
                resolve_within(graph, next, (hops - 1) as nat)
            },
            _ => Some(id),
        }
    }
}

/// A lookup ends at an object of the graph that is not a reference.
pub proof fn lemma_resolve_within_ends(graph: Graph, id: ObjectId, hops: nat)
    ensures
        resolve_within(graph, id, hops) matches Some(at) ==> graph.contains_key(at) && !(
        graph[at] is Reference),
    decreases hops,
{
    if graph.contains_key(id) {
        if let Node::Reference(next) = graph[id] {
            if hops > 0 {
                lemma_resolve_within_ends(graph, next, (hops - 1) as nat);
            }
        }
    }
}

/// Writing an object that is no reference over another that is none leaves every lookup where
/// it was.
pub proof fn lemma_resolve_within_stable(
    graph: Graph,
    at: ObjectId,
    node: Node,
    id: ObjectId,
    hops: nat,
)
    requires
        graph.contains_key(at),
        !(graph[at] is Reference),
        !(node is Reference),
    ensures
        resolve_within(graph.insert(at, node), id, hops) == resolve_within(graph, id, hops),
    decreases hops,
{
    if graph.contains_key(id) && id != at {
        if let Node::Reference(next) = graph[id] {
            if hops > 0 {
                lemma_resolve_within_stable(graph, at, node, next, (hops - 1) as nat);
            }
        }
    }
}

/// A lookup that ends inside `graph` ends at the same object when the objects of `other`,
/// none of which shares an identifier with `graph`, are added.
pub proof fn lemma_resolve_within_union(graph: Graph, other: Graph, id: ObjectId, hops: nat)
    requires
        graph.dom().disjoint(other.dom()),
        resolve_within(graph, id, hops) is Some,
    ensures
        resolve_within(graph.union_prefer_right(other), id, hops) == resolve_within(
            graph,
            id,
            hops,
        ),
        resolve_within(other.union_prefer_right(graph), id, hops) == resolve_within(
            graph,
            id,
            hops,
        ),
    decreases hops,
{
    assert(graph.contains_key(id));
    assert(!other.contains_key(id));
    if let Node::Reference(next) = graph[id] {
        if hops > 0 {
            lemma_resolve_within_union(graph, other, next, (hops - 1) as nat);
        }
    }
}

/// Where a lookup of `id` ends in `graph`.
pub open spec fn resolve(graph: Graph, id: ObjectId) -> Option<ObjectId> {
    resolve_within(graph, id, hop_limit())
}

/// What reading through a value finds: the value itself, or where it is a reference, the
/// object at which the chain of references from it ends.  The step from the value to the
/// first object counts as one of the references followed.
pub open spec fn followed(graph: Graph, value: Node) -> Option<Node> {
    match value {
        Node::Reference(id) => match resolve_within(graph, id, (hop_limit() - 1) as nat) {
            Some(at) => Some(graph[at]),
            None => None,
        },
        _ => Some(value),
    }
}

/// The dictionary that a lookup of `id` finds, if it finds one.
pub open spec fn dictionary_at(graph: Graph, id: ObjectId) -> Option<Entries> {
    match resolve(graph, id) {
        Some(at) => match graph[at] {
            Node::Dictionary(entries) => Some(entries),
            _ => None,
        },
        None => None,
    }
}

/// The identifier under `key`, where `entries` holds a reference there.
pub open spec fn reference_entry(entries: Entries, key: Seq<u8>) -> Option<ObjectId> {
    if entries.contains_key(key) {
        match entries[key] {
            Node::Reference(id) => Some(id),
            _ => None,
        }
    } else {
        None
    }
}

/// The number under `key`, where `entries` holds an integer there.
pub open spec fn integer_entry(entries: Entries, key: Seq<u8>) -> Option<i64> {
    if entries.contains_key(key) {
        match entries[key] {
            Node::Integer(value) => Some(value),
            _ => None,
        }
    } else {
        None
    }
}

/// The items under `key`, where `entries` holds an array there.
pub open spec fn array_entry(entries: Entries, key: Seq<u8>) -> Option<Seq<Node>> {
    if entries.contains_key(key) {
        match entries[key] {
            Node::Array(items) => Some(items),
            _ => None,
        }
    } else {
        None
    }
}

/// One reference node for each identifier, in order.
pub open spec fn references(ids: Seq<ObjectId>) -> Seq<Node> {
    ids.map_values(|id: ObjectId| Node::Reference(id))
}

/// `node` holds a reference to `id`, at any depth: as itself, inside an array, inside a
/// dictionary or inside the dictionary of a stream.
pub open spec fn mentions(node: Node, id: ObjectId) -> bool
    decreases node,
{
    match node {
        Node::Reference(target) => target == id,
        Node::Array(items) => exists|i: int|
            0 <= i < items.len() && mentions(#[trigger] items[i], id),
        Node::Dictionary(entries) => exists|key: Seq<u8>|
            entries.contains_key(key) && mentions(#[trigger] entries[key], id),
        Node::Stream(entries, _) => exists|key: Seq<u8>|
            entries.contains_key(key) && mentions(#[trigger] entries[key], id),
        _ => false,
    }
}

/// `path` leads from the trailer through the graph: the trailer refers to its first
/// identifier, and the object under each identifier refers to the next.
pub open spec fn leads_from_trailer(graph: Graph, trailer: Entries, path: Seq<ObjectId>) -> bool {
    &&& path.len() > 0
    &&& mentions(Node::Dictionary(trailer), path[0])
    &&& forall|i: int|
        0 <= i < path.len() - 1 ==> graph.contains_key(#[trigger] path[i]) && mentions(
            graph[path[i]],
            path[i + 1],
        )
}

/// `id` is reached from the trailer by following references through the graph.
pub open spec fn reachable(graph: Graph, trailer: Entries, id: ObjectId) -> bool {
    exists|path: Seq<ObjectId>| #[trigger]
        leads_from_trailer(graph, trailer, path) && path.last() == id
}

/// The identifiers that are reached from the trailer.
pub open spec fn reachable_set(graph: Graph, trailer: Entries) -> Set<ObjectId> {
    Set::new(|id: ObjectId| reachable(graph, trailer, id))
}

/// An array holds the references that its items hold.
pub proof fn lemma_mentions_item(items: Seq<Node>, i: int, id: ObjectId)
    requires
        0 <= i < items.len(),
        mentions(items[i], id),
    ensures
        mentions(Node::Array(items), id),
{
    let node = Node::Array(items);
    assert(decreases_to!(node => node->Array_0[i]));
}

/// A dictionary holds the references that its values hold.
pub proof fn lemma_mentions_entry(entries: Entries, key: Seq<u8>, id: ObjectId)
    requires
        entries.contains_key(key),
        mentions(entries[key], id),
    ensures
        mentions(Node::Dictionary(entries), id),
{
    vstd::map::axiom_map_index_decreases_infinite(entries, key);
    let node = Node::Dictionary(entries);
    assert(decreases_to!(node => node->Dictionary_0[key]));
}

/// What an object that is reached refers to is reached.
pub proof fn lemma_reachable_step(graph: Graph, trailer: Entries, from: ObjectId, id: ObjectId)
    requires
        reachable(graph, trailer, from),
        graph.contains_key(from),
        mentions(graph[from], id),
    ensures
        reachable(graph, trailer, id),
{
    let path = choose|path: Seq<ObjectId>| #[trigger]
        leads_from_trailer(graph, trailer, path) && path.last() == from;
    let longer = path.push(id);
    assert forall|i: int| 0 <= i < longer.len() - 1 implies graph.contains_key(
        #[trigger] longer[i],
    ) && mentions(graph[longer[i]], longer[i + 1]) by {
        if i < path.len() - 1 {
            assert(graph.contains_key(path[i]) && mentions(graph[path[i]], path[i + 1]));
        }
    }
    assert(longer[0] == path[0]);
    assert(leads_from_trailer(graph, trailer, longer) && longer.last() == id);
}

/// What the trailer refers to under one of its names is reached.
pub proof fn lemma_reachable_from_trailer(graph: Graph, trailer: Entries, key: Seq<u8>)
    requires
        reference_entry(trailer, key) is Some,
    ensures
        reachable(graph, trailer, reference_entry(trailer, key).unwrap()),
{
    let id = reference_entry(trailer, key).unwrap();
    lemma_mentions_entry(trailer, key, id);
    let path = seq![id];
    assert(leads_from_trailer(graph, trailer, path) && path.last() == id);
}

/// The object at which the lookup of a reached identifier ends is reached.
pub proof fn lemma_reachable_resolved(graph: Graph, trailer: Entries, id: ObjectId, hops: nat)
    requires
        reachable(graph, trailer, id),
        resolve_within(graph, id, hops) is Some,
    ensures
        reachable(graph, trailer, resolve_within(graph, id, hops).unwrap()),
    decreases hops,
{
    if let Node::Reference(next) = graph[id] {
        lemma_reachable_step(graph, trailer, id, next);
        lemma_reachable_resolved(graph, trailer, next, (hops - 1) as nat);
    }
}

/// What a reached dictionary refers to under one of its names is reached.
pub proof fn lemma_reachable_entry(graph: Graph, trailer: Entries, id: ObjectId, key: Seq<u8>)
    requires
        reachable(graph, trailer, id),
        dictionary_at(graph, id) is Some,
        reference_entry(dictionary_at(graph, id).unwrap(), key) is Some,
    ensures
        reachable(graph, trailer, resolve(graph, id).unwrap()),
        reachable(graph, trailer, reference_entry(dictionary_at(graph, id).unwrap(), key).unwrap()),
{
    let at = resolve(graph, id).unwrap();
    let entries = dictionary_at(graph, id).unwrap();
    lemma_reachable_resolved(graph, trailer, id, hop_limit());
    lemma_resolve_within_ends(graph, id, hop_limit());
    lemma_mentions_entry(entries, key, reference_entry(entries, key).unwrap());
    lemma_reachable_step(graph, trailer, at, reference_entry(entries, key).unwrap());
}

/// `graph` without the objects that are not reached from the trailer.
pub open spec fn swept(graph: Graph, trailer: Entries) -> Graph {
    graph.restrict(reachable_set(graph, trailer))
}

/// The lookup of a reached identifier ends where it did after the objects that are not
/// reached were removed.
pub proof fn lemma_resolve_within_swept(graph: Graph, trailer: Entries, id: ObjectId, hops: nat)
    requires
        reachable(graph, trailer, id),
        resolve_within(graph, id, hops) is Some,
    ensures
        resolve_within(swept(graph, trailer), id, hops) == resolve_within(graph, id, hops),
        swept(graph, trailer)[resolve_within(graph, id, hops).unwrap()] == graph[resolve_within(
            graph,
            id,
            hops,
        ).unwrap()],
    decreases hops,
{
    assert(reachable_set(graph, trailer).contains(id));
    assert(swept(graph, trailer).contains_key(id));
    if let Node::Reference(next) = graph[id] {
        lemma_reachable_step(graph, trailer, id, next);
        lemma_resolve_within_swept(graph, trailer, next, (hops - 1) as nat);
    }
}

} // verus!
