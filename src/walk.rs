//! A whole run over a snapshot of a directory tree: every directory that is
//! reached is partitioned once, and each confirmed build-artifact directory
//! is measured.
use vstd::prelude::*;
use vstd::string::StringExecFns;
use crate::analysis::ProjectTargetAnalysis;
use crate::partition::{
    artifact_index, has_marker, is_artifact_at, job_indices, lemma_first_artifact, lemma_job_indices_bounded, listing_view,
    plan_directory, DirectoryPlan, ListedEntry};
use crate::project::{is_excluded, ProjectTypeConfig};
use crate::tree::{capped, latest_modified, total_size, Entry};

verus! {

/// The listing of a directory whose entries are `s`.
pub open spec fn entries_listing(s: Seq<Entry>) -> Seq<(Seq<char>, bool)> {
    s.map_values(|e: Entry| (e.name_view(), e.is_dir_spec()))
}

/// Path of the entry `name` inside the directory at `parent`.
pub open spec fn child_path(parent: Seq<char>, name: Seq<char>) -> Seq<char> {
    parent + "/"@ + name
}

/// An analysis as plain values: project path, size, latest modification time.
pub open spec fn analysis_view(a: ProjectTargetAnalysis) -> (Seq<char>, u64, u64) {
    (a.project_path@, a.size, a.last_modified)
}

/// A sequence of analyses as plain values.
pub open spec fn results_view(s: Seq<ProjectTargetAnalysis>) -> Seq<(Seq<char>, u64, u64)> {
    s.map_values(|a: ProjectTargetAnalysis| analysis_view(a))
}

/// The analysis that a directory with entries `children`, at `path`, yields
/// for itself: one where it holds a confirmed build-artifact directory.
pub open spec fn own_result(
    children: Seq<Entry>,
    path: Seq<char>,
    marker: Seq<char>,
    artifact: Seq<char>,
) -> Seq<(Seq<char>, u64, u64)> {
    match artifact_index(entries_listing(children), marker, artifact) {
        Some(i) => seq![
            (path, capped(total_size(children[i as int])), latest_modified(children[i as int])),
        ],
        None => seq![],
    }
}

/// The analyses found in the tree `e` at `path`: its own, then those of the
/// subdirectories that become units of work, in listing order.
pub open spec fn found(e: Entry, path: Seq<char>, marker: Seq<char>, artifact: Seq<char>) -> Seq<
    (Seq<char>, u64, u64),
>
    decreases e, 0int,
{
    match e {
        Entry::Dir { children, .. } => own_result(children@, path, marker, artifact) + found_jobs(
            children@,
            job_indices(
                entries_listing(children@),
                children@.len() as int,
                marker,
                artifact,
            ),
            path,
            marker,
            artifact,
        ),
        _ => seq![],
    }
}

/// The analyses found under the entries of `s` whose indices are `jobs`, in
/// that order.
pub open spec fn found_jobs(
    s: Seq<Entry>,
    jobs: Seq<usize>,
    path: Seq<char>,
    marker: Seq<char>,
    artifact: Seq<char>,
) -> Seq<(Seq<char>, u64, u64)>
    decreases s, jobs.len(),
{
    if jobs.len() == 0 {
        seq![]
    } else {
        let j = jobs.last() as int;
        let rest = found_jobs(s, jobs.drop_last(), path, marker, artifact);
        if 0 <= j < s.len() {
            rest + found(s[j], child_path(path, s[j].name_view()), marker, artifact)
        } else {
            rest
        }
    }
}

/// The listing of `children`, entry by entry.
pub(crate) fn listing_of(children: &Vec<Entry>) -> (r: Vec<ListedEntry>)
    ensures
        r@.len() == children@.len(),
        forall|i: int|
            0 <= i < r@.len() ==> (#[trigger] r@[i]).name@ == children@[i].name_view()
                && r@[i].is_dir == children@[i].is_dir_spec(),
{
    let mut r: Vec<ListedEntry> = Vec::new();
    let mut i: usize = 0;
    while i < children.len()
        invariant
            i <= children.len(),
            r@.len() == i,
            forall|k: int|
                0 <= k < i ==> (#[trigger] r@[k]).name@ == children@[k].name_view()
                    && r@[k].is_dir == children@[k].is_dir_spec(),
        decreases children.len() - i,
    {
        let child = &children[i];
        r.push(ListedEntry { name: child.name().clone(), is_dir: child.is_dir() });
        i = i + 1;
    }
    r
}

/// Appends to `out` the analyses found in the tree `e` at `path`.
pub(crate) fn collect(e: &Entry, path: &String, config: &ProjectTypeConfig, out: &mut Vec<ProjectTargetAnalysis>)
    ensures
        results_view(final(out)@) == results_view(old(out)@) + found(*e, path@, config.marker_file@, config.artifact_dir_name@),
    decreases e,
{
    let ghost marker = config.marker_file@;
    let ghost artifact = config.artifact_dir_name@;
    let ghost start = results_view(out@);
    match e {
        Entry::Dir { children, .. } => {
            let listing = listing_of(children);
            assert(listing_view(listing@) =~= entries_listing(children@));
            let plan: DirectoryPlan = plan_directory(&listing, config);
            match plan.artifact {
                Some(i) => {
                    let a = ProjectTargetAnalysis::analyze(path.clone(), &children[i]);
                    out.push(a);
                },
                None => {},
            }
            let ghost own = own_result(children@, path@, marker, artifact);
            assert(results_view(out@) =~= start + own);
            let mut p: usize = 0;
            while p < plan.jobs.len()
                invariant
                    *e is Dir,
                    (*e)->children == *children,
                    marker == config.marker_file@,
                    artifact == config.artifact_dir_name@,
                    p <= plan.jobs@.len(),
                    forall|k: int|
                        0 <= k < plan.jobs@.len() ==> 0 <= #[trigger] plan.jobs@[k] < children@.len(),
                    results_view(out@) == start + own
                        + found_jobs(children@, plan.jobs@.take(p as int), path@, marker, artifact),
                decreases plan.jobs@.len() - p,
            {
                let j = plan.jobs[p];
                let child = &children[j];
                let mut child_at = path.clone();
                child_at.append("/");
                child_at.append(child.name().as_str());
                proof {
                    assert(decreases_to!(*e => (*e)->children));
                    assert(decreases_to!(*children => children@));
                    assert(decreases_to!(children@ => children@[j as int]));
                }
                let ghost before = results_view(out@);
                collect(child, &child_at, config, out);
                proof {
                    let next = plan.jobs@.take(p + 1);
                    assert(next.drop_last() =~= plan.jobs@.take(p as int));
                    assert(next.last() == j);
                    assert(child_at@ =~= child_path(path@, children@[j as int].name_view()));
                    assert(results_view(out@) =~= start
                        + own + found_jobs(children@, next, path@, marker, artifact));
                }
                p = p + 1;
            }
            assert(plan.jobs@.take(p as int) =~= plan.jobs@);
        },
        _ => {
            assert(results_view(out@) =~= start + found(
                *e,
                path@,
                marker,
                artifact,
            ));
        },
    }
}

/// Every analysis found in the tree `root`, whose path is `root_path`: one
/// for each directory that is reached, holds the marker file and holds a
/// directory with the artifact name. The directories reached are `root` and,
/// recursively, every subdirectory of a reached readable directory that is
/// neither excluded nor its confirmed build-artifact directory.
pub fn find_projects_in_tree(root: &Entry, root_path: &String, config: &ProjectTypeConfig) -> (r:
    Vec<ProjectTargetAnalysis>)
    ensures
        results_view(r@) == found(
            *root,
            root_path@,
            config.marker_file@,
            config.artifact_dir_name@,
        ),
{
    let mut out: Vec<ProjectTargetAnalysis> = Vec::new();
    collect(root, root_path, config, &mut out);
    assert(results_view(out@) =~= seq![] + found(
        *root,
        root_path@,
        config.marker_file@,
        config.artifact_dir_name@,
    ));
    out
}

proof fn lemma_found_jobs_agree(
    s1: Seq<Entry>,
    s2: Seq<Entry>,
    jobs: Seq<usize>,
    i: int,
    path: Seq<char>,
    marker: Seq<char>,
    artifact: Seq<char>,
)
    requires
        s1.len() == s2.len(),
        forall|k: int| 0 <= k < s1.len() && k != i ==> s1[k] == s2[k],
        forall|k: int| 0 <= k < jobs.len() ==> #[trigger] jobs[k] as int != i,
    ensures
        found_jobs(s1, jobs, path, marker, artifact) == found_jobs(s2, jobs, path, marker, artifact),
    decreases jobs.len(),
{
    if jobs.len() > 0 {
        assert forall|k: int| 0 <= k < jobs.drop_last().len() implies #[trigger] jobs.drop_last()[k]
            as int != i by {
            assert(jobs.drop_last()[k] == jobs[k]);
        }
        lemma_found_jobs_agree(s1, s2, jobs.drop_last(), i, path, marker, artifact);
        assert(jobs[jobs.len() - 1] as int != i);
    }
}

/// Excluded directories are never walked into: whatever an excluded
/// subdirectory holds (a marker file, an artifact directory, whole projects),
/// the analyses found in its parent are the same. The one excluded directory
/// that counts is the parent's own confirmed build-artifact directory, which
/// is measured, not walked into.
pub proof fn lemma_excluded_contents_ignored(
    e1: Entry,
    e2: Entry,
    i: int,
    path: Seq<char>,
    marker: Seq<char>,
    artifact: Seq<char>,
)
    requires
        e1 is Dir,
        e2 is Dir,
        e1->children@.len() == e2->children@.len() <= usize::MAX,
        0 <= i < e1->children@.len(),
        forall|k: int|
            0 <= k < e1->children@.len() && k != i ==> e1->children@[k] == e2->children@[k],
        e1->children@[i].name_view() == e2->children@[i].name_view(),
        e1->children@[i].is_dir_spec(),
        e2->children@[i].is_dir_spec(),
        is_excluded(e1->children@[i].name_view()),
        !is_artifact_at(entries_listing(e1->children@), i, marker, artifact),
    ensures
        found(e1, path, marker, artifact) == found(e2, path, marker, artifact),
{
    let c1 = e1->children@;
    let c2 = e2->children@;
    let l = entries_listing(c1);
    assert(entries_listing(c2) =~= l);
    let jobs = job_indices(l, c1.len() as int, marker, artifact);
    lemma_job_indices_bounded(l, c1.len() as int, marker, artifact);
    lemma_found_jobs_agree(c1, c2, jobs, i, path, marker, artifact);
    match artifact_index(l, marker, artifact) {
        Some(a) => {
            lemma_first_artifact(l, l.len() as int, marker, artifact);
            assert(a as int != i);
            assert(own_result(c1, path, marker, artifact) == own_result(c2, path, marker, artifact));
        },
        None => {},
    }
}

/// A directory that does not hold the marker file yields no analysis of its
/// own: every analysis found in a tree belongs to a directory beside whose
/// build-artifact directory the marker file lies.
pub proof fn lemma_no_marker_no_own_result(
    children: Seq<Entry>,
    path: Seq<char>,
    marker: Seq<char>,
    artifact: Seq<char>,
)
    requires
        !has_marker(entries_listing(children), marker),
    ensures
        own_result(children, path, marker, artifact) == Seq::<(Seq<char>, u64, u64)>::empty(),
{
}

} // verus!
