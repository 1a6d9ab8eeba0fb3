use vstd::prelude::*;
use vstd::string::*;
use std::collections::HashMap;
use crate::error::StoreError;
use crate::ident::{fresh_key, identifier_text, identifier_text_spec};
use crate::json::{metadata_json, metadata_to_json};
use crate::types::Blob;

verus! {

broadcast use vstd::std_specs::hash::group_hash_axioms;

/// Where the file-backed store keeps the two artifacts of a save: one
/// folder for the raw bytes, one for the metadata sidecars.
#[derive(Clone)]
pub struct FileSettings {
    pub data_folder: String,
    pub metadata_folder: String,
}

/// The path of the raw-bytes artifact for an identifier.
pub open spec fn blob_path_spec(folder: Seq<char>, id: u128) -> Seq<char> {
    folder + "/"@ + identifier_text_spec(id) + ".blob"@
}

/// The path of the metadata artifact for an identifier.
pub open spec fn metadata_path_spec(folder: Seq<char>, id: u128) -> Seq<char> {
    folder + "/"@ + identifier_text_spec(id) + ".json"@
}

impl FileSettings {
    /// Resolve the path under which a blob's bytes are stored.
    pub fn resolve_blob_path(&self, id: u128) -> (r: String)
        ensures
            r@ == blob_path_spec(self.data_folder@, id),
    {
        let mut r = String::from_str(self.data_folder.as_str());
        r.append("/");
        let text = identifier_text(id);
        r.append(text.as_str());
        r.append(".blob");
        proof {
            assert(r@ =~= blob_path_spec(self.data_folder@, id));
        }
        r
    }

    /// Resolve the path under which a blob's metadata sidecar is stored.
    pub fn resolve_metadata_path(&self, id: u128) -> (r: String)
        ensures
            r@ == metadata_path_spec(self.metadata_folder@, id),
    {
        let mut r = String::from_str(self.metadata_folder.as_str());
        r.append("/");
        let text = identifier_text(id);
        r.append(text.as_str());
        r.append(".json");
        proof {
            assert(r@ =~= metadata_path_spec(self.metadata_folder@, id));
        }
        r
    }
}

impl Default for FileSettings {
    /// Both folders default to the shared temp location.
    fn default() -> (s: Self)
        ensures
            s.data_folder@ == "/tmp"@,
            s.metadata_folder@ == "/tmp"@,
    {
        FileSettings {
            data_folder: String::from_str("/tmp"),
            metadata_folder: String::from_str("/tmp"),
        }
    }
}

/// The state of a file-backed handler: the folders it was built with and
/// every identifier it has issued so far.
pub struct FileHandlerView {
    pub data_folder: Seq<char>,
    pub metadata_folder: Seq<char>,
    pub issued: Set<u128>,
}

/// The durable store: blobs are kept as files on disk, each save writing a
/// raw-bytes artifact and a metadata sidecar under a fresh identifier. The
/// handler records every identifier it has issued, so each plan's
/// identifier is provably distinct from all earlier ones of this handler.
/// The handler plans each save; the surrounding runtime performs the
/// writes and reports back, since the filesystem itself is outside this
/// library.
pub struct FileBlobHandler {
    settings: FileSettings,
    issued: HashMap<u128, ()>,
}

impl View for FileBlobHandler {
    type V = FileHandlerView;

    closed spec fn view(&self) -> FileHandlerView {
        FileHandlerView {
            data_folder: self.settings.data_folder@,
            metadata_folder: self.settings.metadata_folder@,
            issued: self.issued@.dom(),
        }
    }
}

/// Everything one file-backed save must put on disk: the fresh identifier,
/// the two resolved paths, the raw bytes and the encoded metadata. The
/// caller writes the bytes to `blob_path` first, then the text to
/// `metadata_path`, and reports both outcomes to `complete`.
pub struct FileSavePlan {
    pub identifier: u128,
    pub blob_path: String,
    pub metadata_path: String,
    pub data: Vec<u8>,
    pub metadata_text: String,
}

impl FileBlobHandler {
    /// Create a handler over the given folders; it has issued nothing yet.
    pub fn new(settings: FileSettings) -> (h: Self)
        ensures
            h@.data_folder == settings.data_folder@,
            h@.metadata_folder == settings.metadata_folder@,
            h@.issued == Set::<u128>::empty(),
    {
        let h = FileBlobHandler { settings, issued: HashMap::new() };
        proof {
            assert(h@.issued =~= Set::<u128>::empty());
        }
        h
    }

    /// Plan the save of one blob: draw an identifier that this handler has
    /// never issued, record it, resolve both artifact paths and encode the
    /// metadata. Planning cannot fail: the canonical encoder is total, and
    /// nothing has touched the disk yet.
    pub fn prepare_save(&mut self, blob: Blob) -> (p: FileSavePlan)
        ensures
            final(self)@.data_folder == old(self)@.data_folder,
            final(self)@.metadata_folder == old(self)@.metadata_folder,
            !old(self)@.issued.contains(p.identifier),
            final(self)@.issued == old(self)@.issued.insert(p.identifier),
            p.blob_path@ == blob_path_spec(old(self)@.data_folder, p.identifier),
            p.metadata_path@ == metadata_path_spec(old(self)@.metadata_folder, p.identifier),
            p.data@ == blob.data@,
            p.metadata_text@ == metadata_json(blob.metadata@),
    {
        let metadata_text = metadata_to_json(&blob.metadata);
        let identifier = fresh_key(&self.issued);
        let _ = self.issued.insert(identifier, ());
        proof {
            assert(self.issued@.dom() =~= old(self).issued@.dom().insert(identifier));
        }
        FileSavePlan {
            identifier,
            blob_path: self.settings.resolve_blob_path(identifier),
            metadata_path: self.settings.resolve_metadata_path(identifier),
            data: blob.data,
            metadata_text,
        }
    }

    /// The record of issued identifiers is always finite: each save adds
    /// exactly one identifier to it.
    pub proof fn lemma_issued_finite(&self)
        ensures
            self@.issued.finite(),
    {
    }
}

impl Default for FileBlobHandler {
    /// A handler over the default folders; it has issued nothing yet.
    fn default() -> (h: Self)
        ensures
            h@.data_folder == "/tmp"@,
            h@.metadata_folder == "/tmp"@,
            h@.issued == Set::<u128>::empty(),
    {
        FileBlobHandler::new(FileSettings::default())
    }
}

impl FileSavePlan {
    /// The outcome rule of the save protocol: the identifier is handed out
    /// only after both writes completed; any failed write surfaces as an
    /// I/O error and the identifier is withheld.
    pub fn complete(&self, data_written: bool, metadata_written: bool) -> (r: Result<
        u128,
        StoreError,
    >)
        ensures
            data_written && metadata_written ==> r == Ok::<u128, StoreError>(self.identifier),
            !(data_written && metadata_written) ==> r == Err::<u128, StoreError>(
                StoreError::IoError,
            ),
    {
        if data_written && metadata_written {
            Ok(self.identifier)
        } else {
            Err(StoreError::IoError)
        }
    }
}

} // verus!
