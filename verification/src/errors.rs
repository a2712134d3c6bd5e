//! Error kinds of the pipeline.

use vstd::prelude::*;

verus! {

/// Everything that can go wrong in the pipeline, from bad chunking
/// configuration to a backend that lacks a capability.
#[derive(Debug, Clone)]
pub enum RagError {
    /// The chunking parameters cannot make progress (zero chunk size, or an
    /// overlap at least as large as the chunk size).
    InvalidConfig,
    /// The document could not be read or its text could not be extracted.
    SourceReadError,
    /// A chat or embedding backend failed; carries the backend identity and
    /// the underlying cause.
    ProviderError { backend: String, cause: String },
    /// An embedding was requested from a backend that declares no embedding
    /// capability.
    UnsupportedCapability,
    /// An embedding's length disagrees with the declared dimensionality, or
    /// row columns disagree in length.
    DimensionMismatch,
    /// The vector store could not create or search a table.
    StoreError,
}

/// The text `describe` renders for an error value.
pub open spec fn spec_describe(e: RagError) -> Seq<char> {
    match e {
        RagError::InvalidConfig => "invalid chunking configuration"@,
        RagError::SourceReadError => "document could not be read"@,
        RagError::ProviderError { backend, cause } =>
            "provider error from "@ + backend@ + ": "@ + cause@,
        RagError::UnsupportedCapability => "backend does not support embeddings"@,
        RagError::DimensionMismatch => "embedding dimension mismatch"@,
        RagError::StoreError => "vector store failure"@,
    }
}

impl RagError {
    /// A short human-readable description of the error, naming the backend
    /// and underlying cause where the error carries them.
    pub fn describe(&self) -> (r: String)
        ensures
            r@ == spec_describe(*self),
    {
        match self {
            RagError::InvalidConfig => "invalid chunking configuration".to_owned(),
            RagError::SourceReadError => "document could not be read".to_owned(),
            RagError::ProviderError { backend, cause } => {
                let mut s = "provider error from ".to_owned();
                s.append(backend.as_str());
                s.append(": ");
                s.append(cause.as_str());
                s
            },
            RagError::UnsupportedCapability => "backend does not support embeddings".to_owned(),
            RagError::DimensionMismatch => "embedding dimension mismatch".to_owned(),
            RagError::StoreError => "vector store failure".to_owned(),
        }
    }
}

} // verus!
