//! Recovery of a content-addressed backup repository after partial data
//! loss: extract the identifiers of missing blobs from a maintenance log,
//! verify that an intact source copy still holds them, and plan the copies
//! that restore them into the damaged repository.

use vstd::prelude::*;

pub mod check;
pub mod extract_from_log;
pub mod restore;

verus! {

/// One manifest entry: a blob identifier together with the relative path
/// the repository stores that blob at.
#[derive(Debug)]
pub struct BlobIdExpectedPath {
    pub blob_id: String,
    pub expected_path: String,
}

/// Mathematical view of a manifest entry: both fields as character sequences.
pub struct RecordView {
    pub blob_id: Seq<char>,
    pub expected_path: Seq<char>,
}

impl View for BlobIdExpectedPath {
    type V = RecordView;

    open spec fn view(&self) -> RecordView {
        RecordView { blob_id: self.blob_id@, expected_path: self.expected_path@ }
    }
}

/// The views of a manifest's records, in manifest order.
pub open spec fn views_of(items: Seq<BlobIdExpectedPath>) -> Seq<RecordView> {
    items.map_values(|r: BlobIdExpectedPath| r@)
}

/// Copies a manifest record field by field.
pub fn clone_record(r: &BlobIdExpectedPath) -> (c: BlobIdExpectedPath)
    ensures
        c@ == r@,
{
    BlobIdExpectedPath { blob_id: r.blob_id.clone(), expected_path: r.expected_path.clone() }
}

} // verus!
