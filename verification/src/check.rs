//! Existence check: verify that every blob a manifest references is present
//! and non-empty at the source repository, reporting every offender in one
//! pass rather than stopping at the first.

use vstd::prelude::*;

use crate::extract_from_log::{log_records, ExtractedView};
use crate::{clone_record, views_of, BlobIdExpectedPath, RecordView};

verus! {

/// A blob is treated as missing when no file stands at its path or the file
/// there is empty: backup blobs are never legitimately empty.
pub open spec fn spec_is_missing(size: Option<u64>) -> bool {
    match size {
        None => true,
        Some(n) => n == 0,
    }
}

/// The records classified missing or empty, in manifest order, given the
/// observed size of each record's source file (`None` when no file stands
/// there).
pub open spec fn missing_records(views: Seq<RecordView>, sizes: Seq<Option<u64>>) -> Seq<
    RecordView,
>
    decreases views.len(),
{
    if views.len() == 0 || sizes.len() == 0 {
        Seq::empty()
    } else if spec_is_missing(sizes.last()) {
        missing_records(views.drop_last(), sizes.drop_last()) + seq![views.last()]
    } else {
        missing_records(views.drop_last(), sizes.drop_last())
    }
}

/// Decides whether one observed size counts as missing or empty.
pub fn is_missing_size(size: &Option<u64>) -> (b: bool)
    ensures
        b == spec_is_missing(*size),
{
    match size {
        None => true,
        Some(n) => *n == 0,
    }
}

/// Classifies every record of a manifest against the observed sizes and
/// hands back the missing or empty ones, in manifest order. No record is
/// skipped: the result is the complete classification of the whole batch.
pub fn find_missing(items: &Vec<BlobIdExpectedPath>, sizes: &Vec<Option<u64>>) -> (missing: Vec<
    BlobIdExpectedPath,
>)
    requires
        items@.len() == sizes@.len(),
    ensures
        missing@.len() == missing_records(views_of(items@), sizes@).len(),
        forall|m: int|
            0 <= m < missing@.len() ==> missing@[m]@ == missing_records(
                views_of(items@),
                sizes@,
            )[m],
{
    let ghost views = views_of(items@);
    let mut missing: Vec<BlobIdExpectedPath> = Vec::new();
    let mut idx: usize = 0;
    while idx < items.len()
        invariant
            0 <= idx <= items.len(),
            items@.len() == sizes@.len(),
            views == views_of(items@),
            views.len() == items@.len(),
            missing@.len() == missing_records(
                views.subrange(0, idx as int),
                sizes@.subrange(0, idx as int),
            ).len(),
            forall|m: int|
                0 <= m < missing@.len() ==> missing@[m]@ == missing_records(
                    views.subrange(0, idx as int),
                    sizes@.subrange(0, idx as int),
                )[m],
        decreases items.len() - idx,
    {
        proof {
            assert(views.subrange(0, idx as int + 1).drop_last() =~= views.subrange(0, idx as int));
            assert(sizes@.subrange(0, idx as int + 1).drop_last() =~= sizes@.subrange(
                0,
                idx as int,
            ));
            assert(views[idx as int] == items@[idx as int]@);
        }
        if is_missing_size(&sizes[idx]) {
            let copy = clone_record(&items[idx]);
            missing.push(copy);
        }
        idx += 1;
    }
    proof {
        assert(views.subrange(0, items@.len() as int) =~= views);
        assert(sizes@.subrange(0, sizes@.len() as int) =~= sizes@);
    }
    missing
}

/// Verifies a manifest against the observed sizes: succeeds exactly when no
/// record is missing or empty, and otherwise hands back every offending
/// record so the operator gets the complete picture in one pass.
pub fn check_records(items: &Vec<BlobIdExpectedPath>, sizes: &Vec<Option<u64>>) -> (r: Result<
    (),
    Vec<BlobIdExpectedPath>,
>)
    requires
        items@.len() == sizes@.len(),
    ensures
        match r {
            Ok(u) => missing_records(views_of(items@), sizes@).len() == 0,
            Err(missing) => missing@.len() > 0 && missing@.len() == missing_records(
                views_of(items@),
                sizes@,
            ).len() && (forall|m: int|
                0 <= m < missing@.len() ==> missing@[m]@ == missing_records(
                    views_of(items@),
                    sizes@,
                )[m]),
        },
{
    let missing = find_missing(items, sizes);
    if missing.len() == 0 {
        Ok(())
    } else {
        Err(missing)
    }
}

/// Law: a batch in which every source file is present and non-empty has no
/// missing record at all.
pub proof fn lemma_check_all_present(views: Seq<RecordView>, sizes: Seq<Option<u64>>)
    requires
        forall|i: int| 0 <= i < sizes.len() ==> !spec_is_missing(sizes[i]),
    ensures
        missing_records(views, sizes).len() == 0,
    decreases views.len(),
{
    if views.len() > 0 && sizes.len() > 0 {
        lemma_check_all_present(views.drop_last(), sizes.drop_last());
    }
}

/// The manifest views a freshly extracted record list presents to the
/// checker: the blob identifier and expected path of each record.
pub open spec fn manifest_views(recs: Seq<ExtractedView>) -> Seq<RecordView> {
    recs.map_values(
        |r: ExtractedView| RecordView { blob_id: r.blob_id, expected_path: r.expected_path },
    )
}

/// Law: round trip from extraction to check. A manifest extracted from a
/// log, checked against a source tree that holds every one of its expected
/// files non-empty, reports zero missing records.
pub proof fn lemma_extract_then_check_round_trip(
    lines: Seq<Seq<char>>,
    sizes: Seq<Option<u64>>,
)
    requires
        sizes.len() == log_records(lines).len(),
        forall|i: int| 0 <= i < sizes.len() ==> !spec_is_missing(sizes[i]),
    ensures
        missing_records(manifest_views(log_records(lines)), sizes).len() == 0,
{
    lemma_check_all_present(manifest_views(log_records(lines)), sizes);
}

} // verus!
