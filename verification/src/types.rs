//! Identifier newtypes shared across the library.
use vstd::prelude::*;

verus! {

/// A document id: the prefixed hash of the document's original bytes.
#[derive(Debug)]
pub struct DocId(pub String);

/// A chunk id: the prefixed hash of the chunk's identity text.
#[derive(Debug)]
pub struct ChunkId(pub String);

/// The prefixed hash of a chunking configuration's canonical JSON.
#[derive(Debug)]
pub struct ConfigHash(pub String);

/// The prefixed hash of an object's bytes.
#[derive(Debug)]
pub struct ObjectHash(pub String);

/// The prefixed hash of a document's canonical text.
#[derive(Debug)]
pub struct CanonicalHash(pub String);

impl Clone for DocId {
    fn clone(&self) -> (r: Self)
        ensures
            r == *self,
    {
        DocId(self.0.clone())
    }
}

impl Clone for ChunkId {
    fn clone(&self) -> (r: Self)
        ensures
            r == *self,
    {
        ChunkId(self.0.clone())
    }
}

impl Clone for ConfigHash {
    fn clone(&self) -> (r: Self)
        ensures
            r == *self,
    {
        ConfigHash(self.0.clone())
    }
}

impl Clone for ObjectHash {
    fn clone(&self) -> (r: Self)
        ensures
            r == *self,
    {
        ObjectHash(self.0.clone())
    }
}

impl Clone for CanonicalHash {
    fn clone(&self) -> (r: Self)
        ensures
            r == *self,
    {
        CanonicalHash(self.0.clone())
    }
}

} // verus!
