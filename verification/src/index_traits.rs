//! What a retrieval index hands back: chunks with their rank.
use vstd::prelude::*;
use crate::types::ChunkId;

verus! {

/// A chunk found by the lexical index, with its rank.
#[derive(Debug, Clone)]
pub struct LexicalCandidate {
    pub chunk_id: ChunkId,
    pub rank: i64,
}

/// A chunk found by the vector index, with its rank.
#[derive(Debug, Clone)]
pub struct VectorCandidate {
    pub chunk_id: ChunkId,
    pub rank: i64,
}

} // verus!
