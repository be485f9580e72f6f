//! The supported kinds of project, and the names that identify each.
use vstd::prelude::*;
use vstd::string::StringExecFns;

verus! {

/// The kind of project whose build-artifact directories are looked for.
#[derive(Clone, Copy, Debug, PartialEq, Eq, Structural)]
pub enum ProjectType {
    /// A Rust project built with cargo.
    Cargo,
    /// A node project managed by npm.
    Npm,
}

/// Name of the file that marks the root of a project of kind `t`.
pub open spec fn marker_of(t: ProjectType) -> Seq<char> {
    match t {
        ProjectType::Npm => "package.json"@,
        ProjectType::Cargo => "Cargo.toml"@,
    }
}

/// Name of the build-artifact directory of a project of kind `t`.
pub open spec fn artifact_of(t: ProjectType) -> Seq<char> {
    match t {
        ProjectType::Npm => "node_modules"@,
        ProjectType::Cargo => "target"@,
    }
}

/// Names of directories that are never walked into: version-control metadata,
/// dependency caches, editor settings and source folders.
pub open spec fn is_excluded(name: Seq<char>) -> bool {
    name == ".git"@ || name == "node_modules"@ || name == ".vscode"@ || name == "src"@
}

/// The marker file name and the build-artifact directory name of a project
/// of kind `project_type`.
pub fn get_project_indentifiers(project_type: ProjectType) -> (r: (&'static str, &'static str))
    ensures
        r.0@ == marker_of(project_type),
        r.1@ == artifact_of(project_type),
{
    match project_type {
        ProjectType::Npm => ("package.json", "node_modules"),
        ProjectType::Cargo => ("Cargo.toml", "target"),
    }
}

/// The names that a run looks for: one value per run, never changed.
#[derive(Clone, Debug)]
pub struct ProjectTypeConfig {
    /// File whose presence marks a project root.
    pub marker_file: String,
    /// Name of the project's build-artifact directory.
    pub artifact_dir_name: String,
}

impl ProjectTypeConfig {
    /// Whether this configuration is the one of the project kind `t`.
    pub open spec fn is_for(self, t: ProjectType) -> bool {
        self.marker_file@ == marker_of(t) && self.artifact_dir_name@ == artifact_of(t)
    }

    /// The configuration of the project kind `project_type`.
    pub fn for_type(project_type: ProjectType) -> (r: ProjectTypeConfig)
        ensures
            r.is_for(project_type),
    {
        let (marker, artifact) = get_project_indentifiers(project_type);
        ProjectTypeConfig {
            marker_file: String::from_str(marker),
            artifact_dir_name: String::from_str(artifact),
        }
    }
}

/// Whether `name` is one of the directory names that are never walked into.
pub fn is_excluded_name(name: &String) -> (r: bool)
    ensures
        r == is_excluded(name@),
{
    let git = String::from_str(".git");
    let deps = String::from_str("node_modules");
    let editor = String::from_str(".vscode");
    let sources = String::from_str("src");
    *name == git || *name == deps || *name == editor || *name == sources
}

} // verus!
