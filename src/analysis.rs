//! The measurement of one build-artifact directory.
use vstd::prelude::*;
use vstd::string::StringExecFns;
use crate::tree::{
    capped, latest_modified, latest_modified_list, max_u64, total_size, total_size_list, Entry,
};

verus! {

/// The result of analysing one project: its root and the size and latest
/// modification time of its build-artifact directory.
#[derive(Clone, Debug)]
pub struct ProjectTargetAnalysis {
    /// Path of the project root (the parent of the build-artifact directory).
    pub project_path: String,
    /// Size in bytes of the build-artifact directory.
    pub size: u64,
    /// Latest modification time under the build-artifact directory, in
    /// nanoseconds since the Unix epoch.
    pub last_modified: u64,
}

/// Folds the measurement of one more entry into an accumulated one: sizes add
/// up (saturating at `u64::MAX`) and the later of the two times is kept.
pub fn combine(acc: (u64, u64), part: (u64, u64)) -> (r: (u64, u64))
    ensures
        r.0 == capped((acc.0 + part.0) as nat),
        r.1 == max_u64(acc.1, part.1),
{
    let size = acc.0.saturating_add(part.0);
    let time = if acc.1 >= part.1 {
        acc.1
    } else {
        part.1
    };
    (size, time)
}

impl ProjectTargetAnalysis {
    /// Builds an analysis from its parts.
    pub fn new(project_path: String, size: u64, last_modified: u64) -> (r: Self)
        ensures
            r.project_path == project_path,
            r.size == size,
            r.last_modified == last_modified,
    {
        ProjectTargetAnalysis { project_path, size, last_modified }
    }

    /// Measures `artifact`, the build-artifact directory of the project at
    /// `project_path`.
    pub fn analyze(project_path: String, artifact: &Entry) -> (r: Self)
        ensures
            r.project_path == project_path,
            r.size == capped(total_size(*artifact)),
            r.last_modified == latest_modified(*artifact),
    {
        let (size, time) = Self::recursive_scan_target(artifact);
        ProjectTargetAnalysis { project_path, size, last_modified: time }
    }

    /// Size and latest modification time of everything under `e`: a file
    /// gives its own; a readable directory folds those of its entries, starting
    /// from `(0, 0)`; an unreadable one gives `(0, 0)`.
    pub fn recursive_scan_target(e: &Entry) -> (r: (u64, u64))
        ensures
            r.0 == capped(total_size(*e)),
            r.1 == latest_modified(*e),
        decreases e,
    {
        match e {
            Entry::File { size, modified, .. } => (*size, *modified),
            Entry::Unreadable { .. } => (0, 0),
            Entry::Dir { children, .. } => {
                let mut acc: (u64, u64) = (0, 0);
                let mut i: usize = 0;
                while i < children.len()
                    invariant
                        *e is Dir,
                        (*e)->children == *children,
                        i <= children.len(),
                        acc.0 == capped(total_size_list(children@.take(i as int))),
                        acc.1 == latest_modified_list(children@.take(i as int)),
                    decreases children.len() - i,
                {
                    proof {
                        assert(decreases_to!(*e => (*e)->children));
                        assert(decreases_to!(*children => children@));
                        assert(decreases_to!(children@ => children@[i as int]));
                        assert(decreases_to!(*e => children@[i as int]));
                    }
                    let part = Self::recursive_scan_target(&children[i]);
                    acc = combine(acc, part);
                    proof {
                        let next = children@.take(i + 1);
                        assert(next.drop_last() == children@.take(i as int));
                        assert(next.last() == children@[i as int]);
                    }
                    i = i + 1;
                }
                proof {
                    assert(children@.take(i as int) == children@);
                }
                acc
            }
        }
    }

    /// One line that shows the project path and the size in a human-readable
    /// unit, separated by a tab and a bar.
    pub fn summary_line(&self) -> (r: String)
        ensures
            r@ == line_text(self.project_path@, size_text(self.size)),
    {
        let size = format_size(self.size);
        Self::format_line(&self.project_path, size.as_str())
    }

    /// The line that shows `project_path` beside an already rendered size.
    pub fn format_line(project_path: &String, size: &str) -> (r: String)
        ensures
            r@ == line_text(project_path@, size@),
    {
        let mut line = project_path.clone();
        line.append(" \t| ");
        line.append(size);
        line
    }
}

/// The summary line of a project path and a rendered size.
pub open spec fn line_text(path: Seq<char>, size: Seq<char>) -> Seq<char> {
    path + " \t| "@ + size
}

/// What `bytefmt::format` renders for a byte count.
pub uninterp spec fn size_text(bytes: u64) -> Seq<char>;

/// Relies on `bytefmt::format`: the text depends on the byte count alone.
#[verifier::external_body]
fn format_size(bytes: u64) -> (r: String)
    ensures
        r@ == size_text(bytes),
{
    bytefmt::format(bytes)
}

} // verus!
