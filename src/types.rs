//! Records shared by the store, the poller and their callers.

use vstd::prelude::*;

verus! {

/// One stored image, identified by the hash of its content.
#[derive(Clone, Debug, PartialEq, Eq)]
pub struct ImageMetadata {
    pub id: String,
    pub path: String,
    /// Unix time in seconds when the image was first stored.
    pub created_at: i64,
    pub ocr_result: Option<String>,
}

/// Sent to the user interface when a new image has been stored.
#[derive(Clone, Debug, PartialEq, Eq)]
pub struct ClipboardEvent {
    pub image_path: String,
}

impl ImageMetadata {
    /// A record as first stored: no text recognised yet.
    pub open spec fn is_fresh(self, id: Seq<char>, path: Seq<char>, now: i64) -> bool {
        &&& self.id@ == id
        &&& self.path@ == path
        &&& self.created_at == now
        &&& self.ocr_result is None
    }

    pub fn fresh(id: String, path: String, now: i64) -> (r: ImageMetadata)
        ensures
            r.is_fresh(id@, path@, now),
    {
        ImageMetadata { id, path, created_at: now, ocr_result: None }
    }

    /// A field-by-field copy.
    pub fn copied(&self) -> (r: ImageMetadata)
        ensures
            r == *self,
    {
        let ocr_result = match &self.ocr_result {
            Some(s) => Some(s.clone()),
            None => None,
        };
        ImageMetadata {
            id: self.id.clone(),
            path: self.path.clone(),
            created_at: self.created_at,
            ocr_result,
        }
    }
}

impl ClipboardEvent {
    pub fn new(image_path: String) -> (r: ClipboardEvent)
        ensures
            r.image_path == image_path,
    {
        ClipboardEvent { image_path }
    }
}

} // verus!
