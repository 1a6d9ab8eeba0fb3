use vstd::prelude::*;
use crate::error::StoreError;
use crate::types::{Blob, BlobView};

verus! {

/// The save capability: a backend that persists blobs under fresh
/// identifiers.
pub trait SaveBlob {
    /// The blobs the store currently holds, keyed by identifier: the
    /// specification-level holdings that each save extends by one entry.
    spec fn contents(&self) -> Map<u128, BlobView>;

    /// Persist one blob, consuming it. On success the returned identifier is
    /// fresh for this store and the blob is reachable under it; on failure
    /// the store's observable state is unchanged.
    fn save_blob(&mut self, blob: Blob) -> (r: Result<u128, StoreError>)
        ensures
            r matches Ok(id) ==> !old(self).contents().contains_key(id)
                && final(self).contents() == old(self).contents().insert(id, blob@),
            r is Err ==> final(self).contents() == old(self).contents(),
    ;
}

/// The query capability: a backend that can search its holdings by metadata
/// attributes. A backend may support saving without supporting queries.
pub trait QueryBlob {
    /// The blobs the store currently holds, keyed by identifier.
    spec fn contents(&self) -> Map<u128, BlobView>;

    /// Return every held blob whose file name matches exactly. An empty
    /// result is the successful outcome when nothing matches, never an
    /// error; the order of the result is unspecified.
    fn query_blob_by_name(&self, file_name: &str) -> (r: Result<Vec<Blob>, StoreError>)
        ensures
            r matches Ok(blobs) ==> {
                &&& forall|i: int|
                    0 <= i < blobs@.len() ==> (#[trigger] blobs@[i])@.metadata.file_name
                        == file_name@ && exists|k: u128|
                        self.contents().contains_key(k) && self.contents()[k] == blobs@[i]@
                &&& forall|k: u128|
                    self.contents().contains_key(k) && (#[trigger] self.contents()[k]
                        ).metadata.file_name == file_name@ ==> exists|i: int|
                        0 <= i < blobs@.len() && blobs@[i]@ == self.contents()[k]
            },
    ;

    /// Return every held blob whose tag set contains the given tag. An
    /// empty result is the successful outcome when nothing matches, never
    /// an error; the order of the result is unspecified.
    fn query_blob_by_tags(&self, tag: &str) -> (r: Result<Vec<Blob>, StoreError>)
        ensures
            r matches Ok(blobs) ==> {
                &&& forall|i: int|
                    0 <= i < blobs@.len() ==> (#[trigger] blobs@[i])@.metadata.tags.contains(
                        tag@,
                    ) && exists|k: u128|
                        self.contents().contains_key(k) && self.contents()[k] == blobs@[i]@
                &&& forall|k: u128|
                    self.contents().contains_key(k) && (#[trigger] self.contents()[k]
                        ).metadata.tags.contains(tag@) ==> exists|i: int|
                        0 <= i < blobs@.len() && blobs@[i]@ == self.contents()[k]
            },
    ;
}

} // verus!
