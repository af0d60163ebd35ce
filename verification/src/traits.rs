//! What the indexing pipeline asks of its parts.

use vstd::prelude::*;

use crate::models::ChunkCandidate;

verus! {

/// Splits a document into chunks.
pub trait Chunker: Send + Sync {
    fn chunk(&self, text: &str) -> Vec<ChunkCandidate>;
}

/// Reads one kind of document.
pub trait FileReader: Send + Sync {
    /// File extensions this reader handles, without the leading dot (e.g.
    /// `["txt", "md"]` or `["pdf"]`).
    fn extensions(&self) -> &[&'static str];
}

/// Splits a text into words for the full-text index.
pub trait WordSegmenter: Send + Sync {
    /// The words of `text`, with spaces between them.
    fn segment(&self, text: &str) -> String;
}

} // verus!
