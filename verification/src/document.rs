//! A document as the editor sees it, and the two ends of every operation: reading a buffer and
//! writing the result.
use crate::codec::{
    max_id_of, numbered, objects_of, parse, parse_error_message, parse_error_text, prune, saved,
    serialize, trailer_of, write_error_message,
};
use crate::error::{ComposeError, Failure};
use crate::graph::{reachable, swept, Entries, Graph, ObjectId};
use vstd::prelude::*;

verus! {

/// What a document holds: its objects, its trailer and the counter for fresh identifiers.
pub struct Contents {
    pub objects: Graph,
    pub trailer: Entries,
    pub max_id: u32,
}

/// What `doc` holds.
pub open spec fn contents_of(doc: lopdf::Document) -> Contents {
    Contents { objects: objects_of(doc), trailer: trailer_of(doc), max_id: max_id_of(doc) }
}

/// `contents` without the objects that are not reached from the trailer.
pub open spec fn pruned(contents: Contents) -> Contents {
    Contents { objects: swept(contents.objects, contents.trailer), ..contents }
}

/// `failure` says that the input at position `input` could not be read, in the codec's words.
pub open spec fn is_read_failure(failure: Failure, input: nat) -> bool {
    exists|error: lopdf::Error|
        failure == (Failure::Parse { input, detail: #[trigger] parse_error_text(error) })
}

/// `result` is what writing `doc` gives: its bytes, or a write failure.
pub open spec fn written(doc: lopdf::Document, result: Result<Vec<u8>, ComposeError>) -> bool {
    match saved(doc) {
        Ok(bytes) => result matches Ok(buffer) && buffer@ == bytes,
        Err(_) => result matches Err(failure) && failure@ is Write,
    }
}

/// Reads the input at position `input`.  Whether the bytes are a document is the codec's to
/// say; one that it reads has its counter at or above every identifier.
pub fn read_document(bytes: &[u8], input: usize) -> (r: Result<lopdf::Document, ComposeError>)
    ensures
        match r {
            Ok(doc) => numbered(doc),
            Err(error) => is_read_failure(error@, input as nat),
        },
{
    match parse(bytes) {
        Ok(doc) => Ok(doc),
        Err(error) => Err(ComposeError::Parse { input, detail: parse_error_message(&error) }),
    }
}

/// Writes the document.
pub fn write_document(doc: &mut lopdf::Document) -> (r: Result<Vec<u8>, ComposeError>)
    ensures
        written(*old(doc), r),
{
    match serialize(doc) {
        Ok(bytes) => Ok(bytes),
        Err(error) => Err(ComposeError::Write { detail: write_error_message(&error) }),
    }
}

/// Removes every object that is not reached from the trailer.  An object that is reached
/// stays as it is, whoever else refers to it.
pub fn prune_unreachable(doc: &mut lopdf::Document)
    ensures
        contents_of(*final(doc)) == pruned(contents_of(*old(doc))),
        forall|id: ObjectId|
            objects_of(*old(doc)).contains_key(id) && reachable(
                objects_of(*old(doc)),
                trailer_of(*old(doc)),
                id,
            ) ==> #[trigger] objects_of(*final(doc)).contains_key(id) && objects_of(*final(doc))[id]
                == objects_of(*old(doc))[id],
        forall|id: ObjectId| #[trigger]
            objects_of(*final(doc)).contains_key(id) ==> objects_of(*old(doc)).contains_key(id)
                && reachable(objects_of(*old(doc)), trailer_of(*old(doc)), id),
{
    prune(doc);
}

} // verus!
