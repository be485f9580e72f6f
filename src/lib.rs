//! Discovery of build-artifact directories of software projects, and the
//! measurement of their size and last modification time.
//!
//! The directory tree is modelled by [`tree::Entry`]; the decisions that the
//! concurrent walker takes for one directory are made by
//! [`partition::plan_directory`], and a whole run over a snapshot of a tree is
//! [`walk::find_projects_in_tree`].
pub mod analysis;
pub mod partition;
pub mod pool;
pub mod project;
pub mod threads;
pub mod tree;
pub mod walk;

pub use analysis::ProjectTargetAnalysis;
pub use project::{get_project_indentifiers, ProjectType};
pub use tree::Entry;
