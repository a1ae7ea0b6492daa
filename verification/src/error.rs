//! Why an operation gave no document.
use vstd::prelude::*;

verus! {

/// Which part of the way from the trailer to the page tree is missing.
#[derive(Debug, Clone, Copy, PartialEq, Eq, Structural)]
pub enum StructureFault {
    /// The trailer holds no reference under `Root`.
    RootMissing,
    /// The catalog is not in the document, or is not a dictionary.
    CatalogNotDictionary,
    /// The catalog holds no reference under `Pages`.
    PagesMissing,
    /// The root of the page tree is not in the document, or is not a dictionary.
    PagesNotDictionary,
    /// A child of the root of the page tree is itself a page tree node, and the page tree
    /// could not be made flat.
    NestedPageTree,
}

/// Why an operation failed.  A failure leaves no output.
#[derive(Debug, PartialEq, Eq)]
pub enum ComposeError {
    /// The codec could not read the input at position `input`; `detail` is what it said.
    Parse { input: usize, detail: String },
    /// The codec could not write the result; `detail` is what it said.
    Write { detail: String },
    /// The document has no page tree to edit.
    Structure(StructureFault),
    /// No requested page exists in the document.
    EmptySelection,
    /// The identifiers of the inputs do not fit in 32 bits side by side.
    IdentifiersExhausted,
}

/// A failure as a mathematical value: `ComposeError` with its texts as sequences.
pub enum Failure {
    Parse { input: nat, detail: Seq<char> },
    Write { detail: Seq<char> },
    Structure(StructureFault),
    EmptySelection,
    IdentifiersExhausted,
}

impl View for ComposeError {
    type V = Failure;

    open spec fn view(&self) -> Failure {
        match *self {
            ComposeError::Parse { input, detail } => Failure::Parse {
                input: input as nat,
                detail: detail@,
            },
            ComposeError::Write { detail } => Failure::Write { detail: detail@ },
            ComposeError::Structure(fault) => Failure::Structure(fault),
            ComposeError::EmptySelection => Failure::EmptySelection,
            ComposeError::IdentifiersExhausted => Failure::IdentifiersExhausted,
        }
    }
}

} // verus!
