use vstd::prelude::*;
use std::collections::HashMap;
use crate::blob_traits::SaveBlob;
use crate::error::StoreError;
use crate::ident::fresh_key;
use crate::types::{Blob, BlobView};

verus! {

broadcast use vstd::std_specs::hash::group_hash_axioms;

/// The view of a map of blobs: each held blob's mathematical value, under
/// its key.
pub open spec fn blob_views(m: Map<u128, Blob>) -> Map<u128, BlobView> {
    m.map_values(|b: Blob| b@)
}

proof fn lemma_blob_views_dom(m: Map<u128, Blob>)
    ensures
        blob_views(m).dom() =~= m.dom(),
        m.dom().finite() ==> blob_views(m).len() == m.len(),
{
    assert(blob_views(m).dom() =~= m.dom());
}

proof fn lemma_blob_views_insert(m: Map<u128, Blob>, k: u128, b: Blob)
    ensures
        blob_views(m.insert(k, b)) =~= blob_views(m).insert(k, b@),
{
}

/// An ephemeral store: a single mapping from identifier to blob, held
/// entirely in memory. Exclusion between concurrent callers is the owner's
/// concern; the store itself exposes one short mutation per save.
pub struct HashmapHandler {
    data: HashMap<u128, Blob>,
}

impl View for HashmapHandler {
    type V = Map<u128, BlobView>;

    closed spec fn view(&self) -> Map<u128, BlobView> {
        blob_views(self.data@)
    }
}

impl Default for HashmapHandler {
    /// A fresh store holds nothing.
    fn default() -> (s: Self)
        ensures
            s@ == Map::<u128, BlobView>::empty(),
    {
        let s = HashmapHandler { data: HashMap::new() };
        proof {
            assert(s@ =~= Map::<u128, BlobView>::empty());
        }
        s
    }
}

impl HashmapHandler {
    /// Look a blob up by the identifier a save returned.
    pub fn get(&self, id: u128) -> (r: Option<&Blob>)
        ensures
            match r {
                Option::Some(b) => self@.contains_key(id) && b@ == self@[id],
                Option::None => !self@.contains_key(id),
            },
    {
        proof {
            lemma_blob_views_dom(self.data@);
        }
        self.data.get(&id)
    }

    /// How many blobs the store holds.
    pub fn len(&self) -> (n: usize)
        ensures
            n == self@.len(),
    {
        proof {
            lemma_blob_views_dom(self.data@);
        }
        self.data.len()
    }

    /// The holdings of an in-memory store are always a finite mapping, so
    /// each save grows them by exactly one entry.
    pub proof fn lemma_holdings_finite(&self)
        ensures
            self@.dom().finite(),
    {
        lemma_blob_views_dom(self.data@);
    }
}

impl SaveBlob for HashmapHandler {
    open spec fn contents(&self) -> Map<u128, BlobView> {
        self@
    }

    /// Store the blob under a freshly drawn identifier. Saving into memory
    /// cannot fail: the result is always the identifier.
    fn save_blob(&mut self, blob: Blob) -> (r: Result<u128, StoreError>)
        ensures
            r is Ok,
    {
        let id = fresh_key(&self.data);
        proof {
            lemma_blob_views_dom(self.data@);
            lemma_blob_views_insert(self.data@, id, blob);
        }
        let _ = self.data.insert(id, blob);
        Ok(id)
    }
}

} // verus!
