//! The self-feeding work queue: units of work are taken out in any order, each
//! partitioned once, and each may queue further units.
use vstd::prelude::*;
use vstd::multiset::Multiset;
use vstd::seq_lib::lemma_multiset_commutative;
use vstd::string::StringExecFns;
use crate::analysis::ProjectTargetAnalysis;
use crate::partition::{listing_view, plan_directory, DirectoryPlan};
use crate::project::ProjectTypeConfig;
use crate::tree::Entry;
use crate::walk::{
    child_path, collect, found, found_jobs, listing_of, own_result, entries_listing, results_view,
};

verus! {

broadcast use vstd::multiset::group_multiset_axioms, vstd::seq_lib::group_to_multiset_ensures;

proof fn lemma_empty_to_multiset(s: Seq<(Seq<char>, u64, u64)>)
    requires
        s.len() == 0,
    ensures
        s.to_multiset() =~= Multiset::empty(),
{
    assert(s.to_multiset().len() == 0);
    vstd::multiset::lemma_multiset_empty_len(s.to_multiset());
}

/// A directory of the snapshot that is still to be partitioned, with its path.
pub struct WorkUnit<'a> {
    pub dir: &'a Entry,
    pub path: String,
}

/// The analyses that a queue of units still owes, counted with multiplicity.
pub open spec fn pending<'a>(q: Seq<WorkUnit<'a>>, marker: Seq<char>, artifact: Seq<char>) -> Multiset<
    (Seq<char>, u64, u64),
>
    decreases q.len(),
{
    if q.len() == 0 {
        Multiset::empty()
    } else {
        pending(q.drop_last(), marker, artifact).add(
            found(*q.last().dir, q.last().path@, marker, artifact).to_multiset(),
        )
    }
}

proof fn lemma_pending_remove<'a>(
    q: Seq<WorkUnit<'a>>,
    i: int,
    marker: Seq<char>,
    artifact: Seq<char>,
)
    requires
        0 <= i < q.len(),
    ensures
        pending(q, marker, artifact) == pending(q.remove(i), marker, artifact).add(
            found(*q[i].dir, q[i].path@, marker, artifact).to_multiset(),
        ),
    decreases q.len(),
{
    if i == q.len() - 1 {
        assert(q.remove(i) =~= q.drop_last());
    } else {
        lemma_pending_remove(q.drop_last(), i, marker, artifact);
        assert(q.remove(i).drop_last() =~= q.drop_last().remove(i));
        assert(q.remove(i).last() == q.last());
        assert(pending(q, marker, artifact) =~= pending(q.remove(i), marker, artifact).add(
            found(*q[i].dir, q[i].path@, marker, artifact).to_multiset(),
        ));
    }
}

/// Partitions the directory of `unit`: its own analysis, if any, goes to
/// `out`, and the subdirectories that become units of work go to `queue`.
/// What `out` and `queue` owe together grows by exactly what `unit` owed.
fn process_unit<'a>(
    unit: WorkUnit<'a>,
    config: &ProjectTypeConfig,
    queue: &mut Vec<WorkUnit<'a>>,
    out: &mut Vec<ProjectTargetAnalysis>,
)
    ensures
        results_view(final(out)@).to_multiset().add(
            pending(final(queue)@, config.marker_file@, config.artifact_dir_name@),
        ) == results_view(old(out)@).to_multiset().add(
            pending(old(queue)@, config.marker_file@, config.artifact_dir_name@),
        ).add(found(*unit.dir, unit.path@, config.marker_file@, config.artifact_dir_name@).to_multiset()),
{
    let ghost marker = config.marker_file@;
    let ghost artifact = config.artifact_dir_name@;
    let ghost out0 = results_view(out@);
    let ghost q0 = queue@;
    let path = &unit.path;
    match unit.dir {
        Entry::Dir { children, .. } => {
            let listing = listing_of(children);
            assert(listing_view(listing@) =~= entries_listing(children@));
            let plan: DirectoryPlan = plan_directory(&listing, config);
            match plan.artifact {
                Some(i) => {
                    let a = ProjectTargetAnalysis::analyze(path.clone(), &children[i]);
                    out.push(a);
                },
                None => {},
            }
            let ghost own = own_result(children@, path@, marker, artifact);
            assert(results_view(out@) =~= out0 + own);
            proof {
                lemma_multiset_commutative(out0, own);
            }
            proof {
                assert(plan.jobs@.take(0) =~= Seq::<usize>::empty());
                lemma_empty_to_multiset(found_jobs(children@, plan.jobs@.take(0), path@, marker, artifact));
                assert(pending(queue@, marker, artifact) =~= pending(q0, marker, artifact).add(
                    found_jobs(children@, plan.jobs@.take(0), path@, marker, artifact).to_multiset(),
                ));
            }
            let mut p: usize = 0;
            while p < plan.jobs.len()
                invariant
                    marker == config.marker_file@,
                    artifact == config.artifact_dir_name@,
                    results_view(out@) == out0 + own,
                    p <= plan.jobs@.len(),
                    forall|k: int|
                        0 <= k < plan.jobs@.len() ==> 0 <= #[trigger] plan.jobs@[k] < children@.len(),
                    pending(queue@, marker, artifact) == pending(q0, marker, artifact).add(
                        found_jobs(children@, plan.jobs@.take(p as int), path@, marker, artifact).to_multiset(),
                    ),
                decreases plan.jobs@.len() - p,
            {
                let j = plan.jobs[p];
                let child = &children[j];
                let mut child_at = path.clone();
                child_at.append("/");
                child_at.append(child.name().as_str());
                let ghost before = queue@;
                queue.push(WorkUnit { dir: child, path: child_at });
                proof {
                    let next = plan.jobs@.take(p + 1);
                    let prev = plan.jobs@.take(p as int);
                    assert(next.drop_last() =~= prev);
                    assert(next.last() == j);
                    assert(child_at@ =~= child_path(path@, children@[j as int].name_view()));
                    assert(queue@.drop_last() =~= before);
                    let fc = found(children@[j as int], child_at@, marker, artifact);
                    assert(found_jobs(children@, next, path@, marker, artifact) == found_jobs(
                        children@,
                        prev,
                        path@,
                        marker,
                        artifact,
                    ) + fc);
                    lemma_multiset_commutative(
                        found_jobs(children@, prev, path@, marker, artifact),
                        fc,
                    );
                    assert(pending(queue@, marker, artifact) =~= pending(q0, marker, artifact).add(
                        found_jobs(children@, next, path@, marker, artifact).to_multiset(),
                    ));
                }
                p = p + 1;
            }
            proof {
                assert(plan.jobs@.take(p as int) =~= plan.jobs@);
                let jobs_found = found_jobs(children@, plan.jobs@, path@, marker, artifact);
                lemma_multiset_commutative(own, jobs_found);
                assert(found(*unit.dir, path@, marker, artifact) == own + jobs_found);
                assert(results_view(out@).to_multiset().add(pending(queue@, marker, artifact))
                    =~= out0.to_multiset().add(pending(q0, marker, artifact)).add(
                    found(*unit.dir, path@, marker, artifact).to_multiset(),
                ));
            }
        },
        _ => {
            assert(found(*unit.dir, path@, marker, artifact) =~= seq![]);
            proof {
                lemma_empty_to_multiset(found(*unit.dir, path@, marker, artifact));
            }
        },
    }
}

/// A run of the work queue seeded with the tree `root` at `root_path`, in
/// the order that `schedule` gives: at step `t` the unit at index
/// `schedule[t] % n` of the `n` pending ones is taken out and partitioned.
/// Once the schedule is used up the remaining units are worked off.
///
/// Whatever the schedule, and so whatever the number of workers and the way
/// they interleave, the analyses returned are those of
/// [`crate::walk::find_projects_in_tree`], each as often.
pub fn run_scheduled(
    root: &Entry,
    root_path: &String,
    config: &ProjectTypeConfig,
    schedule: &Vec<usize>,
) -> (r: Vec<ProjectTargetAnalysis>)
    ensures
        results_view(r@).to_multiset() == found(
            *root,
            root_path@,
            config.marker_file@,
            config.artifact_dir_name@,
        ).to_multiset(),
{
    let ghost marker = config.marker_file@;
    let ghost artifact = config.artifact_dir_name@;
    let ghost total = found(*root, root_path@, marker, artifact).to_multiset();
    let mut queue: Vec<WorkUnit> = Vec::new();
    let seed = WorkUnit { dir: root, path: root_path.clone() };
    assert(seed.path@ == root_path@);
    queue.push(seed);
    let mut out: Vec<ProjectTargetAnalysis> = Vec::new();
    proof {
        assert(queue@.drop_last() =~= Seq::<WorkUnit>::empty());
        assert(pending(queue@.drop_last(), marker, artifact) == Multiset::<(Seq<char>, u64, u64)>::empty());
        assert(queue@.last() == seed);
        assert(pending(queue@, marker, artifact) =~= total);
        assert(results_view(out@) =~= Seq::<(Seq<char>, u64, u64)>::empty());
        lemma_empty_to_multiset(results_view(out@));
        assert(results_view(out@).to_multiset().add(pending(queue@, marker, artifact)) =~= total);
    }
    let mut t: usize = 0;
    while t < schedule.len() && queue.len() > 0
        invariant
            marker == config.marker_file@,
            artifact == config.artifact_dir_name@,
            t <= schedule.len(),
            results_view(out@).to_multiset().add(pending(queue@, marker, artifact)) == total,
        decreases schedule.len() - t,
    {
        let n = queue.len();
        let idx = schedule[t] % n;
        let ghost q = queue@;
        let unit = queue.remove(idx);
        proof {
            lemma_pending_remove(q, idx as int, marker, artifact);
        }
        process_unit(unit, config, &mut queue, &mut out);
        t = t + 1;
    }
    while queue.len() > 0
        invariant
            marker == config.marker_file@,
            artifact == config.artifact_dir_name@,
            results_view(out@).to_multiset().add(pending(queue@, marker, artifact)) == total,
        decreases queue.len(),
    {
        let ghost q = queue@;
        let ghost before = results_view(out@);
        let unit = queue.pop().unwrap();
        assert(queue@ =~= q.drop_last());
        collect(unit.dir, &unit.path, config, &mut out);
        proof {
            lemma_multiset_commutative(before, found(*unit.dir, unit.path@, marker, artifact));
            assert(results_view(out@).to_multiset().add(pending(queue@, marker, artifact)) =~= total);
        }
    }
    assert(results_view(out@).to_multiset().add(pending(queue@, marker, artifact))
        =~= results_view(out@).to_multiset());
    out
}

} // verus!
