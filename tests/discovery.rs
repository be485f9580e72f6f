use kill_all::analysis::{combine, ProjectTargetAnalysis};
use kill_all::partition::{plan_directory, ListedEntry};
use kill_all::pool::run_scheduled;
use kill_all::project::{get_project_indentifiers, is_excluded_name, ProjectType, ProjectTypeConfig};
use kill_all::threads::{clamp_threads, thread_count};
use kill_all::tree::Entry;
use kill_all::walk::find_projects_in_tree;

fn file(name: &str, size: u64, modified: u64) -> Entry {
    Entry::File { name: name.to_string(), size, modified }
}

fn dir(name: &str, children: Vec<Entry>) -> Entry {
    Entry::Dir { name: name.to_string(), children }
}

fn listed(name: &str, is_dir: bool) -> ListedEntry {
    ListedEntry { name: name.to_string(), is_dir }
}

fn cargo() -> ProjectTypeConfig {
    ProjectTypeConfig::for_type(ProjectType::Cargo)
}

fn npm() -> ProjectTypeConfig {
    ProjectTypeConfig::for_type(ProjectType::Npm)
}

/// A target directory of ten files of 4096 bytes in all.
fn ten_file_target() -> Entry {
    let mut files = Vec::new();
    for i in 0..10u64 {
        let size = if i < 6 { 410 } else { 409 };
        files.push(file(&format!("f{}", i), size, 100 + i));
    }
    dir("target", files)
}

fn paths(results: &[ProjectTargetAnalysis]) -> Vec<String> {
    let mut p: Vec<String> = results.iter().map(|r| r.project_path.clone()).collect();
    p.sort();
    p
}

#[test]
fn identifiers_of_each_project_type() {
    assert_eq!(get_project_indentifiers(ProjectType::Cargo), ("Cargo.toml", "target"));
    assert_eq!(get_project_indentifiers(ProjectType::Npm), ("package.json", "node_modules"));
    let c = cargo();
    assert_eq!(c.marker_file, "Cargo.toml");
    assert_eq!(c.artifact_dir_name, "target");
    let n = npm();
    assert_eq!(n.marker_file, "package.json");
    assert_eq!(n.artifact_dir_name, "node_modules");
}

#[test]
fn excluded_names() {
    for name in [".git", "node_modules", ".vscode", "src"] {
        assert!(is_excluded_name(&name.to_string()));
    }
    for name in ["target", "git", "lib", ""] {
        assert!(!is_excluded_name(&name.to_string()));
    }
}

#[test]
fn scan_sums_sizes_and_keeps_latest_time() {
    let tree = dir(
        "t",
        vec![
            file("a", 10, 5),
            dir("sub", vec![file("b", 20, 50), file("c", 30, 7)]),
            file("d", 40, 9),
        ],
    );
    assert_eq!(ProjectTargetAnalysis::recursive_scan_target(&tree), (100, 50));
}

#[test]
fn scan_of_empty_tree_is_zero_at_epoch() {
    assert_eq!(ProjectTargetAnalysis::recursive_scan_target(&dir("t", vec![])), (0, 0));
    let nested = dir("t", vec![dir("x", vec![dir("y", vec![])])]);
    assert_eq!(ProjectTargetAnalysis::recursive_scan_target(&nested), (0, 0));
}

#[test]
fn scan_of_single_file() {
    assert_eq!(ProjectTargetAnalysis::recursive_scan_target(&file("f", 123, 77)), (123, 77));
}

#[test]
fn scan_skips_unreadable_directories() {
    let tree = dir(
        "t",
        vec![file("a", 1, 3), Entry::Unreadable { name: "locked".to_string() }, file("b", 2, 4)],
    );
    assert_eq!(ProjectTargetAnalysis::recursive_scan_target(&tree), (3, 4));
}

#[test]
fn scan_saturates_at_largest_size() {
    let tree = dir("t", vec![file("a", u64::MAX, 1), file("b", 5, 2)]);
    assert_eq!(ProjectTargetAnalysis::recursive_scan_target(&tree), (u64::MAX, 2));
}

#[test]
fn combine_adds_and_takes_max() {
    assert_eq!(combine((3, 10), (4, 7)), (7, 10));
    assert_eq!(combine((3, 10), (4, 70)), (7, 70));
    assert_eq!(combine((u64::MAX - 1, 0), (5, 0)), (u64::MAX, 0));
}

#[test]
fn analyze_measures_the_artifact_directory() {
    let a = ProjectTargetAnalysis::analyze("proj".to_string(), &ten_file_target());
    assert_eq!(a.project_path, "proj");
    assert_eq!(a.size, 4096);
    assert_eq!(a.last_modified, 109);
}

#[test]
fn new_keeps_its_parts() {
    let a = ProjectTargetAnalysis::new("p".to_string(), 5, 6);
    assert_eq!((a.project_path.as_str(), a.size, a.last_modified), ("p", 5, 6));
}

#[test]
fn summary_line_shows_path_and_human_size() {
    let a = ProjectTargetAnalysis::new("some/proj".to_string(), 1_230, 0);
    let line = a.summary_line();
    assert_eq!(line, format!("some/proj \t| {}", bytefmt::format(1_230)));
    assert_eq!(line, "some/proj \t| 1.23 KB");
}

#[test]
fn format_line_joins_path_and_size() {
    assert_eq!(ProjectTargetAnalysis::format_line(&"a/b".to_string(), "12 B"), "a/b \t| 12 B");
    assert_eq!(ProjectTargetAnalysis::format_line(&String::new(), ""), " \t| ");
}

#[test]
fn plan_with_marker_confirms_artifact() {
    let listing = vec![
        listed("Cargo.toml", false),
        listed("target", true),
        listed("src", true),
        listed("benches", true),
        listed("examples", true),
    ];
    let plan = plan_directory(&listing, &cargo());
    assert_eq!(plan.artifact, Some(1));
    assert_eq!(plan.jobs, vec![3, 4]);
}

#[test]
fn plan_without_marker_recurses_into_artifact_name() {
    let listing = vec![listed("target", true), listed("README.md", false)];
    let plan = plan_directory(&listing, &cargo());
    assert_eq!(plan.artifact, None);
    assert_eq!(plan.jobs, vec![0]);
}

#[test]
fn plan_ignores_marker_named_directory() {
    let listing = vec![listed("Cargo.toml", true), listed("target", true)];
    let plan = plan_directory(&listing, &cargo());
    assert_eq!(plan.artifact, None);
    assert_eq!(plan.jobs, vec![0, 1]);
}

#[test]
fn plan_skips_excluded_directories() {
    let listing = vec![
        listed(".git", true),
        listed("node_modules", true),
        listed(".vscode", true),
        listed("src", true),
        listed("lib", true),
    ];
    let plan = plan_directory(&listing, &cargo());
    assert_eq!(plan.artifact, None);
    assert_eq!(plan.jobs, vec![4]);
}

#[test]
fn plan_of_empty_listing() {
    let plan = plan_directory(&Vec::new(), &npm());
    assert_eq!(plan.artifact, None);
    assert!(plan.jobs.is_empty());
}

#[test]
fn plan_for_npm_keeps_node_modules_as_artifact() {
    let listing = vec![listed("node_modules", true), listed("package.json", false), listed(".git", true)];
    let plan = plan_directory(&listing, &npm());
    assert_eq!(plan.artifact, Some(0));
    assert!(plan.jobs.is_empty());
}

#[test]
fn cargo_project_with_target_is_reported() {
    let root = dir(
        "root",
        vec![dir(
            "proj",
            vec![
                file("Cargo.toml", 50, 1),
                ten_file_target(),
                dir("src", vec![file("main.rs", 300, 2)]),
            ],
        )],
    );
    let results = find_projects_in_tree(&root, &"root".to_string(), &cargo());
    assert_eq!(results.len(), 1);
    assert_eq!(results[0].project_path, "root/proj");
    assert_eq!(results[0].size, 4096);
    assert_eq!(results[0].last_modified, 109);
}

#[test]
fn target_without_marker_is_not_reported() {
    let root = dir(
        "root",
        vec![dir("proj", vec![dir("target", vec![file("x", 10, 1)]), file("README", 1, 1)])],
    );
    let results = find_projects_in_tree(&root, &"root".to_string(), &cargo());
    assert!(results.is_empty());
}

#[test]
fn project_nested_in_target_without_marker_is_found() {
    let inner = dir("inner", vec![file("Cargo.toml", 1, 1), dir("target", vec![file("o", 7, 3)])]);
    let root = dir("root", vec![dir("proj", vec![dir("target", vec![inner])])]);
    let results = find_projects_in_tree(&root, &"root".to_string(), &cargo());
    assert_eq!(paths(&results), vec!["root/proj/target/inner".to_string()]);
    assert_eq!(results[0].size, 7);
}

#[test]
fn git_subtree_is_never_visited() {
    let git = dir(
        ".git",
        vec![file("package.json", 1, 1), dir("node_modules", vec![file("h", 99, 9)])],
    );
    let a = dir(
        "a",
        vec![file("package.json", 5, 1), dir("node_modules", vec![file("m", 12, 4)]), git],
    );
    let root = dir("root", vec![a]);
    let results = find_projects_in_tree(&root, &"root".to_string(), &npm());
    assert_eq!(paths(&results), vec!["root/a".to_string()]);
    assert_eq!(results[0].size, 12);
}

#[test]
fn unreadable_directory_does_not_hide_valid_project() {
    let root = dir(
        "root",
        vec![
            Entry::Unreadable { name: "locked".to_string() },
            dir("proj", vec![file("Cargo.toml", 1, 1), dir("target", vec![file("bin", 64, 8)])]),
        ],
    );
    let results = find_projects_in_tree(&root, &"root".to_string(), &cargo());
    assert_eq!(paths(&results), vec!["root/proj".to_string()]);
    assert_eq!(results[0].size, 64);
}

#[test]
fn root_that_is_itself_a_project() {
    let root = dir("p", vec![file("Cargo.toml", 1, 1), dir("target", vec![file("a", 3, 3)])]);
    let results = find_projects_in_tree(&root, &".".to_string(), &cargo());
    assert_eq!(paths(&results), vec![".".to_string()]);
}

fn many_projects() -> Entry {
    let project = |name: &str, size: u64| {
        dir(name, vec![file("Cargo.toml", 1, 1), dir("target", vec![file("o", size, size)])])
    };
    dir(
        "root",
        vec![
            project("a", 1),
            dir("group", vec![project("b", 2), project("c", 3), dir("deep", vec![project("d", 4)])]),
            dir("src", vec![project("hidden", 5)]),
            project("e", 6),
        ],
    )
}

#[test]
fn every_schedule_finds_the_same_projects() {
    let root = many_projects();
    let expected = paths(&find_projects_in_tree(&root, &"root".to_string(), &cargo()));
    assert_eq!(
        expected,
        vec!["root/a", "root/e", "root/group/b", "root/group/c", "root/group/deep/d"]
    );
    let schedules: Vec<Vec<usize>> = vec![
        vec![],
        vec![0, 0, 0, 0, 0, 0, 0, 0, 0, 0, 0, 0],
        vec![5, 1, 7, 2, 9, 3, 11, 4, 13, 6, 8, 10],
        vec![1000, 999, 998, 997, 3],
        vec![usize::MAX; 20],
    ];
    for schedule in schedules {
        let results = run_scheduled(&root, &"root".to_string(), &cargo(), &schedule);
        assert_eq!(paths(&results), expected);
        let mut sizes: Vec<u64> = results.iter().map(|r| r.size).collect();
        sizes.sort();
        assert_eq!(sizes, vec![1, 2, 3, 4, 6]);
    }
}

#[test]
fn clamping_the_worker_count() {
    assert_eq!(clamp_threads(0, 8), 1);
    assert_eq!(clamp_threads(1, 8), 1);
    assert_eq!(clamp_threads(4, 8), 4);
    assert_eq!(clamp_threads(16, 8), 8);
    assert_eq!(clamp_threads(usize::MAX, 1), 1);
}

#[test]
fn worker_count_on_this_host() {
    assert_eq!(thread_count(0), 1);
    assert_eq!(thread_count(1), 1);
    let n = thread_count(usize::MAX);
    assert!(n >= 1);
    assert_eq!(n, num_cpus::get());
}
