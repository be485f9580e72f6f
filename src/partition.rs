//! The decisions taken for one directory: which subdirectories become new
//! units of work, and which one, if any, is the project's build-artifact
//! directory.
use vstd::prelude::*;
use crate::project::{is_excluded, is_excluded_name, ProjectTypeConfig};

verus! {

/// One entry of a directory listing, as the partitioner sees it.
#[derive(Clone, Debug)]
pub struct ListedEntry {
    /// The entry's file name.
    pub name: String,
    /// Whether the entry is a directory.
    pub is_dir: bool,
}

/// What to do with a listed directory: the indices of the listing entries to
/// queue as new units of work, in listing order, and the index of the
/// confirmed build-artifact directory.
#[derive(Clone, Debug)]
pub struct DirectoryPlan {
    pub jobs: Vec<usize>,
    pub artifact: Option<usize>,
}

/// A listing as plain values: name and directory flag of each entry.
pub open spec fn listing_view(s: Seq<ListedEntry>) -> Seq<(Seq<char>, bool)> {
    s.map_values(|e: ListedEntry| (e.name@, e.is_dir))
}

/// Whether the listing holds a file (not a directory) named `marker`.
pub open spec fn has_marker(l: Seq<(Seq<char>, bool)>, marker: Seq<char>) -> bool {
    exists|i: int| 0 <= i < l.len() && !l[i].1 && #[trigger] l[i].0 == marker
}

/// Whether entry `i` of the listing is the confirmed build-artifact directory:
/// a directory with the artifact name, beside the marker file.
pub open spec fn is_artifact_at(
    l: Seq<(Seq<char>, bool)>,
    i: int,
    marker: Seq<char>,
    artifact: Seq<char>,
) -> bool {
    &&& l[i].1
    &&& l[i].0 == artifact
    &&& has_marker(l, marker)
}

/// Whether entry `i` of the listing becomes a new unit of work: a directory
/// that is neither the confirmed build-artifact directory nor excluded.
pub open spec fn is_job_at(
    l: Seq<(Seq<char>, bool)>,
    i: int,
    marker: Seq<char>,
    artifact: Seq<char>,
) -> bool {
    &&& l[i].1
    &&& !is_artifact_at(l, i, marker, artifact)
    &&& !is_excluded(l[i].0)
}

/// The indices below `n` of the entries that become new units of work, in
/// increasing order.
pub open spec fn job_indices(
    l: Seq<(Seq<char>, bool)>,
    n: int,
    marker: Seq<char>,
    artifact: Seq<char>,
) -> Seq<usize>
    decreases n,
{
    if n <= 0 {
        seq![]
    } else if is_job_at(l, n - 1, marker, artifact) {
        job_indices(l, n - 1, marker, artifact).push((n - 1) as usize)
    } else {
        job_indices(l, n - 1, marker, artifact)
    }
}

/// The index of the first confirmed build-artifact directory, if any.
pub open spec fn artifact_index(
    l: Seq<(Seq<char>, bool)>,
    marker: Seq<char>,
    artifact: Seq<char>,
) -> Option<usize> {
    if exists|i: int| 0 <= i < l.len() && is_artifact_at(l, i, marker, artifact) {
        let i = choose|i: int|
            0 <= i < l.len() && is_artifact_at(l, i, marker, artifact) && forall|j: int|
                0 <= j < i ==> !is_artifact_at(l, j, marker, artifact);
        Some(i as usize)
    } else {
        None
    }
}

/// The plan of a directory with listing `l`.
pub open spec fn plan_of(
    l: Seq<(Seq<char>, bool)>,
    marker: Seq<char>,
    artifact: Seq<char>,
) -> (Seq<usize>, Option<usize>) {
    (job_indices(l, l.len() as int, marker, artifact), artifact_index(l, marker, artifact))
}

pub(crate) proof fn lemma_job_indices_bounded(
    l: Seq<(Seq<char>, bool)>,
    n: int,
    marker: Seq<char>,
    artifact: Seq<char>,
)
    requires
        0 <= n <= l.len() <= usize::MAX,
    ensures
        forall|k: int|
            0 <= k < job_indices(l, n, marker, artifact).len() ==> {
                let j = #[trigger] job_indices(l, n, marker, artifact)[k] as int;
                0 <= j < n && is_job_at(l, j, marker, artifact)
            },
        forall|a: int, b: int|
            0 <= a < b < job_indices(l, n, marker, artifact).len() ==> job_indices(
                l,
                n,
                marker,
                artifact,
            )[a] < job_indices(l, n, marker, artifact)[b],
    decreases n,
{
    if n > 0 {
        lemma_job_indices_bounded(l, n - 1, marker, artifact);
        let prev = job_indices(l, n - 1, marker, artifact);
        let cur = job_indices(l, n, marker, artifact);
        if is_job_at(l, n - 1, marker, artifact) {
            assert(cur == prev.push((n - 1) as usize));
            assert forall|k: int| 0 <= k < prev.len() implies cur[k] == prev[k] by {}
            assert(cur[prev.len() as int] == (n - 1) as usize);
        } else {
            assert(cur == prev);
        }
    }
}

/// Where some entry of the listing is a confirmed build-artifact directory,
/// there is a first one.
pub proof fn lemma_first_artifact(
    l: Seq<(Seq<char>, bool)>,
    n: int,
    marker: Seq<char>,
    artifact: Seq<char>,
)
    requires
        0 <= n <= l.len(),
        exists|i: int| 0 <= i < n && is_artifact_at(l, i, marker, artifact),
    ensures
        exists|i: int|
            0 <= i < n && is_artifact_at(l, i, marker, artifact) && forall|j: int|
                0 <= j < i ==> !is_artifact_at(l, j, marker, artifact),
    decreases n,
{
    if exists|i: int| 0 <= i < n - 1 && is_artifact_at(l, i, marker, artifact) {
        lemma_first_artifact(l, n - 1, marker, artifact);
    } else {
        assert(is_artifact_at(l, n - 1, marker, artifact));
    }
}

/// Partitions a directory's listing: the marker file is looked for among the
/// files; a directory with the artifact name beside it is the build-artifact
/// directory; every other directory that is not excluded is a new unit of work.
/// Without the marker, a directory with the artifact name is an ordinary one.
pub fn plan_directory(listing: &Vec<ListedEntry>, config: &ProjectTypeConfig) -> (r:
    DirectoryPlan)
    ensures
        (r.jobs@, r.artifact) == plan_of(
            listing_view(listing@),
            config.marker_file@,
            config.artifact_dir_name@,
        ),
        // a build-artifact directory is reported only beside the marker file
        r.artifact is Some ==> {
            let i = r.artifact->0 as int;
            &&& 0 <= i < listing@.len()
            &&& listing@[i].is_dir
            &&& listing@[i].name@ == config.artifact_dir_name@
            &&& exists|m: int|
                0 <= m < listing@.len() && !listing@[m].is_dir && listing@[m].name@
                    == config.marker_file@
        },
        // units of work are distinct directories, never excluded ones, never the
        // build-artifact directory
        forall|k: int|
            0 <= k < r.jobs@.len() ==> {
                let j = #[trigger] r.jobs@[k] as int;
                &&& 0 <= j < listing@.len()
                &&& listing@[j].is_dir
                &&& !is_excluded(listing@[j].name@)
                &&& r.artifact != Some(j as usize)
            },
        forall|a: int, b: int| 0 <= a < b < r.jobs@.len() ==> r.jobs@[a] < r.jobs@[b],
{
    let ghost l = listing_view(listing@);
    let ghost marker = config.marker_file@;
    let ghost artifact = config.artifact_dir_name@;
    let mut found_marker = false;
    let mut i: usize = 0;
    while i < listing.len()
        invariant
            l == listing_view(listing@),
            marker == config.marker_file@,
            i <= listing.len(),
            found_marker == exists|m: int|
                0 <= m < i && !l[m].1 && #[trigger] l[m].0 == marker,
        decreases listing.len() - i,
    {
        let entry = &listing[i];
        if !entry.is_dir && entry.name == config.marker_file {
            found_marker = true;
            assert(!l[i as int].1 && l[i as int].0 == marker);
        }
        i = i + 1;
    }
    assert(found_marker == has_marker(l, marker));
    let mut jobs: Vec<usize> = Vec::new();
    let mut target: Option<usize> = None;
    let mut k: usize = 0;
    while k < listing.len()
        invariant
            l == listing_view(listing@),
            marker == config.marker_file@,
            artifact == config.artifact_dir_name@,
            found_marker == has_marker(l, marker),
            k <= listing.len(),
            jobs@ == job_indices(l, k as int, marker, artifact),
            target is Some ==> {
                let t = target->0 as int;
                &&& 0 <= t < k
                &&& is_artifact_at(l, t, marker, artifact)
                &&& forall|j: int| 0 <= j < t ==> !is_artifact_at(l, j, marker, artifact)
            },
            target is None ==> forall|j: int|
                0 <= j < k ==> !is_artifact_at(l, j, marker, artifact),
        decreases listing.len() - k,
    {
        let entry = &listing[k];
        if entry.is_dir {
            if found_marker && entry.name == config.artifact_dir_name {
                if target.is_none() {
                    target = Some(k);
                }
            } else if !is_excluded_name(&entry.name) {
                jobs.push(k);
            }
        }
        k = k + 1;
    }
    proof {
        lemma_job_indices_bounded(l, l.len() as int, marker, artifact);
        if target is Some {
            let t = target->0 as int;
            assert(0 <= t < l.len() && is_artifact_at(l, t, marker, artifact));
        }
        assert(target == artifact_index(l, marker, artifact));
        assert forall|k: int| 0 <= k < jobs@.len() implies {
            let j = #[trigger] jobs@[k] as int;
            target != Some(j as usize)
        } by {
            let j = jobs@[k] as int;
            assert(is_job_at(l, j, marker, artifact));
            if target is Some {
                assert(is_artifact_at(l, target->0 as int, marker, artifact));
            }
        }
    }
    DirectoryPlan { jobs, artifact: target }
}

} // verus!
