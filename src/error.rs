use vstd::prelude::*;

verus! {

/// The ways an index operation can fail.
#[derive(Clone, Copy, Debug, PartialEq, Eq, Structural)]
pub enum IndexError {
    /// The project name holds a character outside `[A-Za-z0-9_]`, or is empty.
    InvalidProjectName,
    /// No namespace of that name exists.
    ProjectNotFound,
    /// The embedding model failed, or returned vectors of the wrong shape.
    EmbeddingFailure,
    /// The storage refused the records; nothing was written.
    StorageFailure,
    /// A nearest-neighbour query was made against zero stored vectors.
    EmptyIndex,
}

} // verus!
