//! Restore planning: decide, record by record and in manifest order, which
//! blobs a restore run copies from the source repository into the damaged
//! destination, and which it reports as missing or empty. A dry run and a
//! committed run see exactly the same picture; only the mutation differs,
//! and that is the caller's part.

use vstd::prelude::*;

use crate::check::{find_missing, is_missing_size, missing_records, spec_is_missing};
use crate::{views_of, BlobIdExpectedPath, RecordView};

verus! {

/// What one restore run does, per record, in manifest order.
#[derive(Debug)]
pub struct RestorePlan {
    /// For each manifest record, whether its blob is present at the source
    /// and is to be copied to the destination.
    pub to_copy: Vec<bool>,
    /// The records whose source blob is missing or empty, in manifest
    /// order; the run continues past them and reports them at the end.
    pub missing_or_empty: Vec<BlobIdExpectedPath>,
    /// Whether the run commits its copies; a dry run only reports them.
    pub for_real: bool,
}

/// Mathematical view of a restore plan.
pub struct PlanView {
    pub to_copy: Seq<bool>,
    pub missing_or_empty: Seq<RecordView>,
    pub for_real: bool,
}

impl View for RestorePlan {
    type V = PlanView;

    open spec fn view(&self) -> PlanView {
        PlanView {
            to_copy: self.to_copy@,
            missing_or_empty: views_of(self.missing_or_empty@),
            for_real: self.for_real,
        }
    }
}

/// The plan a restore run makes from the manifest and the observed source
/// sizes: copy exactly the present, non-empty blobs; report the rest.
pub open spec fn spec_plan(
    views: Seq<RecordView>,
    sizes: Seq<Option<u64>>,
    for_real: bool,
) -> PlanView {
    PlanView {
        to_copy: Seq::new(sizes.len(), |i: int| !spec_is_missing(sizes[i])),
        missing_or_empty: missing_records(views, sizes),
        for_real,
    }
}

/// The pre-flight source check failed: blobs are missing at the source, and
/// the restore aborts before touching the destination.
#[derive(Debug)]
pub struct PreflightFailure {
    pub missing: Vec<BlobIdExpectedPath>,
}

/// Plans a restore run. Unless `skip_source_check` is set, the source is
/// checked first: any missing or empty blob aborts the whole run before any
/// mutation, and every offender is handed back. Past that check, the plan
/// classifies every record: present blobs are to be copied, the rest are
/// reported; one missing record never stops the batch.
pub fn plan_restore(
    items: &Vec<BlobIdExpectedPath>,
    sizes: &Vec<Option<u64>>,
    skip_source_check: bool,
    for_real: bool,
) -> (r: Result<RestorePlan, PreflightFailure>)
    requires
        items@.len() == sizes@.len(),
    ensures
        match r {
            Ok(plan) => (skip_source_check || missing_records(views_of(items@), sizes@).len() == 0)
                && plan@ == spec_plan(views_of(items@), sizes@, for_real),
            Err(f) => !skip_source_check && missing_records(views_of(items@), sizes@).len() > 0
                && f.missing@.len() == missing_records(views_of(items@), sizes@).len() && (
            forall|m: int|
                0 <= m < f.missing@.len() ==> f.missing@[m]@ == missing_records(
                    views_of(items@),
                    sizes@,
                )[m]),
        },
{
    let missing = find_missing(items, sizes);
    if !skip_source_check && missing.len() > 0 {
        return Err(PreflightFailure { missing });
    }
    let mut to_copy: Vec<bool> = Vec::new();
    let mut idx: usize = 0;
    while idx < sizes.len()
        invariant
            0 <= idx <= sizes@.len(),
            to_copy@.len() == idx,
            forall|m: int| 0 <= m < idx ==> to_copy@[m] == !spec_is_missing(sizes@[m]),
        decreases sizes.len() - idx,
    {
        to_copy.push(!is_missing_size(&sizes[idx]));
        idx += 1;
    }
    let plan = RestorePlan { to_copy, missing_or_empty: missing, for_real };
    proof {
        assert(plan@.to_copy =~= spec_plan(views_of(items@), sizes@, for_real).to_copy);
        assert(plan@.missing_or_empty =~= spec_plan(
            views_of(items@),
            sizes@,
            for_real,
        ).missing_or_empty);
    }
    Ok(plan)
}

impl RestorePlan {
    /// The batch summary: a restore run succeeds exactly when no record was
    /// missing or empty, however many copies it performed before the
    /// offenders were found.
    pub fn succeeded(&self) -> (b: bool)
        ensures
            b == (self.missing_or_empty@.len() == 0),
    {
        self.missing_or_empty.len() == 0
    }
}

/// Law: dry run and commit see the same picture. For a fixed manifest and
/// fixed observed sizes, the records to copy and the records classified
/// missing or empty are identical whether the run commits or not; the two
/// plans differ in nothing but the flag.
pub proof fn lemma_dry_run_commit_equivalence(views: Seq<RecordView>, sizes: Seq<Option<u64>>)
    ensures
        spec_plan(views, sizes, false).to_copy == spec_plan(views, sizes, true).to_copy,
        spec_plan(views, sizes, false).missing_or_empty == spec_plan(
            views,
            sizes,
            true,
        ).missing_or_empty,
{
}

/// The paths a plan copies, in manifest order: the expected paths of the
/// records whose source blob is present and non-empty.
pub open spec fn copied_paths(views: Seq<RecordView>, sizes: Seq<Option<u64>>) -> Seq<Seq<char>>
    decreases views.len(),
{
    if views.len() == 0 || sizes.len() == 0 {
        Seq::empty()
    } else if spec_is_missing(sizes.last()) {
        copied_paths(views.drop_last(), sizes.drop_last())
    } else {
        copied_paths(views.drop_last(), sizes.drop_last()) + seq![views.last().expected_path]
    }
}

/// Law: the copied paths are exactly the expected paths of the records the
/// plan marks to copy — those whose source blob is present and non-empty.
pub proof fn lemma_copied_paths_are_planned(views: Seq<RecordView>, sizes: Seq<Option<u64>>)
    requires
        views.len() == sizes.len(),
    ensures
        forall|p: Seq<char>|
            #[trigger] copied_paths(views, sizes).contains(p) <==> exists|i: int|
                0 <= i < views.len() && spec_plan(views, sizes, true).to_copy[i] && views[i].expected_path
                    == p,
    decreases views.len(),
{
    if views.len() > 0 {
        let vp = views.drop_last();
        let sp = sizes.drop_last();
        lemma_copied_paths_are_planned(vp, sp);
        let paths = copied_paths(views, sizes);
        let prev = copied_paths(vp, sp);
        assert forall|p: Seq<char>| #[trigger] paths.contains(p) implies exists|i: int|
            0 <= i < views.len() && spec_plan(views, sizes, true).to_copy[i]
                && views[i].expected_path == p by {
            let k = choose|k: int| 0 <= k < paths.len() && paths[k] == p;
            if spec_is_missing(sizes.last()) || k < prev.len() {
                assert(prev.contains(p));
                let i = choose|i: int|
                    0 <= i < vp.len() && spec_plan(vp, sp, true).to_copy[i] && vp[i].expected_path
                        == p;
                assert(!spec_is_missing(sizes[i]));
                assert(spec_plan(views, sizes, true).to_copy[i] && views[i].expected_path == p);
            } else {
                assert(p == views.last().expected_path);
                assert(spec_plan(views, sizes, true).to_copy[views.len() - 1]);
            }
        };
        assert forall|p: Seq<char>|
            (exists|i: int|
                0 <= i < views.len() && spec_plan(views, sizes, true).to_copy[i]
                    && views[i].expected_path == p) implies #[trigger] paths.contains(p) by {
            let i = choose|i: int|
                0 <= i < views.len() && spec_plan(views, sizes, true).to_copy[i]
                    && views[i].expected_path == p;
            assert(!spec_is_missing(sizes[i]));
            if i < views.len() - 1 {
                assert(spec_plan(vp, sp, true).to_copy[i]);
                assert(prev.contains(p));
                let k = choose|k: int| 0 <= k < prev.len() && prev[k] == p;
                assert(paths[k] == p);
            } else {
                assert(!spec_is_missing(sizes.last()));
                assert(paths[paths.len() - 1] == p);
            }
        };
    }
}

/// The destination's content, as a map from path to blob bytes, after
/// copying the listed paths from the source in order: each copy overwrites
/// or creates its file, and nothing is ever deleted.
pub open spec fn apply_copies(
    source: Map<Seq<char>, Seq<u8>>,
    dest: Map<Seq<char>, Seq<u8>>,
    paths: Seq<Seq<char>>,
) -> Map<Seq<char>, Seq<u8>>
    decreases paths.len(),
{
    if paths.len() == 0 {
        dest
    } else {
        apply_copies(source, dest.insert(paths[0], source[paths[0]]), paths.skip(1))
    }
}

proof fn lemma_apply_copies_characterization(
    source: Map<Seq<char>, Seq<u8>>,
    dest: Map<Seq<char>, Seq<u8>>,
    paths: Seq<Seq<char>>,
)
    ensures
        forall|p: Seq<char>|
            #[trigger] apply_copies(source, dest, paths).contains_key(p) <==> (dest.contains_key(p)
                || paths.contains(p)),
        forall|p: Seq<char>|
            #[trigger] paths.contains(p) ==> apply_copies(source, dest, paths)[p] == source[p],
        forall|p: Seq<char>|
            !paths.contains(p) && dest.contains_key(p) ==> apply_copies(source, dest, paths)[p]
                == dest[p],
    decreases paths.len(),
{
    if paths.len() > 0 {
        let rest = paths.skip(1);
        assert forall|p: Seq<char>| #[trigger]
            paths.contains(p) implies (p == paths[0] || rest.contains(p)) by {
            let i = choose|i: int| 0 <= i < paths.len() && paths[i] == p;
            if i > 0 {
                assert(rest[i - 1] == p);
            }
        };
        assert forall|p: Seq<char>| #[trigger] rest.contains(p) implies paths.contains(p) by {
            let i = choose|i: int| 0 <= i < rest.len() && rest[i] == p;
            assert(paths[i + 1] == p);
        };
        assert(paths.contains(paths[0]));
        let dest1 = dest.insert(paths[0], source[paths[0]]);
        lemma_apply_copies_characterization(source, dest1, rest);
        assert forall|p: Seq<char>| #[trigger]
            apply_copies(source, dest, paths).contains_key(p) <==> (dest.contains_key(p)
                || paths.contains(p)) by {
            assert(apply_copies(source, dest, paths) == apply_copies(source, dest1, rest));
            assert(apply_copies(source, dest1, rest).contains_key(p) <==> (dest1.contains_key(p)
                || rest.contains(p)));
        };
        assert forall|p: Seq<char>| #[trigger]
            paths.contains(p) implies apply_copies(source, dest, paths)[p] == source[p] by {
            if !rest.contains(p) {
                assert(p == paths[0]);
                assert(dest1.contains_key(p) && dest1[p] == source[p]);
            }
        };
        assert forall|p: Seq<char>|
            !paths.contains(p) && dest.contains_key(p) implies apply_copies(source, dest, paths)[p]
                == dest[p] by {
            assert(!rest.contains(p) && p != paths[0]);
            assert(dest1.contains_key(p) && dest1[p] == dest[p]);
        };
    }
}

/// Law: a committed restore is idempotent. Copying the planned paths from
/// an unchanged source a second time leaves the destination exactly as the
/// first run left it: every copy is redone onto identical content, and
/// nothing is deleted.
pub proof fn lemma_restore_idempotent(
    source: Map<Seq<char>, Seq<u8>>,
    dest: Map<Seq<char>, Seq<u8>>,
    views: Seq<RecordView>,
    sizes: Seq<Option<u64>>,
)
    ensures
        apply_copies(
            source,
            apply_copies(source, dest, copied_paths(views, sizes)),
            copied_paths(views, sizes),
        ) == apply_copies(source, dest, copied_paths(views, sizes)),
{
    let paths = copied_paths(views, sizes);
    let once = apply_copies(source, dest, paths);
    let twice = apply_copies(source, once, paths);
    lemma_apply_copies_characterization(source, dest, paths);
    lemma_apply_copies_characterization(source, once, paths);
    assert(twice =~= once);
}

/// Law: a run whose source has nothing missing reports success, so a second
/// commit run over the same manifest and the same observed sizes succeeds
/// exactly as the first did.
pub proof fn lemma_rerun_reports_success(views: Seq<RecordView>, sizes: Seq<Option<u64>>)
    requires
        missing_records(views, sizes).len() == 0,
    ensures
        spec_plan(views, sizes, true).missing_or_empty.len() == 0,
{
}

} // verus!
