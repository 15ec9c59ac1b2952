use std::cell::Cell;

use mini_shell::dispatch::{failure_code, plan, Action};
use mini_shell::search::{candidate_path, candidate_paths, first_existing, search_path_dirs};

fn words(list: &[&str]) -> Vec<String> {
    list.iter().map(|w| w.to_string()).collect()
}

#[test]
fn cd_without_path_is_usage_error() {
    assert_eq!(plan(&words(&["cd"])), Action::CdUsage);
}

#[test]
fn cd_with_two_paths_is_usage_error() {
    assert_eq!(plan(&words(&["cd", "/tmp", "/usr"])), Action::CdUsage);
}

#[test]
fn cd_with_one_path_changes_directory() {
    assert_eq!(plan(&words(&["cd", "/tmp"])), Action::ChangeDir("/tmp".to_string()));
}

#[test]
fn exit_ignores_trailing_arguments() {
    assert_eq!(plan(&words(&["exit"])), Action::Exit);
    assert_eq!(plan(&words(&["exit", "3", "now"])), Action::Exit);
}

#[test]
fn absolute_path_is_run_directly() {
    assert_eq!(
        plan(&words(&["/no/such/program", "-x"])),
        Action::Run("/no/such/program".to_string())
    );
}

#[test]
fn relative_name_is_searched() {
    assert_eq!(plan(&words(&["ls", "-l"])), Action::Search("ls".to_string()));
    assert_eq!(plan(&words(&["./run"])), Action::Search("./run".to_string()));
}

#[test]
fn empty_search_path_lists_no_directory() {
    assert_eq!(search_path_dirs(""), Vec::<String>::new());
}

#[test]
fn search_path_is_split_on_colons() {
    assert_eq!(search_path_dirs("/usr/bin:/bin"), words(&["/usr/bin", "/bin"]));
    assert_eq!(search_path_dirs("a::b"), words(&["a", "", "b"]));
    assert_eq!(search_path_dirs(":"), words(&["", ""]));
    assert_eq!(search_path_dirs("/bin"), words(&["/bin"]));
}

#[test]
fn candidate_path_joins_with_one_separator() {
    assert_eq!(candidate_path(&"/bin".to_string(), "ls"), "/bin/ls");
    assert_eq!(candidate_path(&"/bin/".to_string(), "ls"), "/bin/ls");
    assert_eq!(candidate_path(&"".to_string(), "ls"), "ls");
}

#[test]
fn candidate_paths_follow_search_order() {
    assert_eq!(candidate_paths("/a:/b/:c", "tool"), words(&["/a/tool", "/b/tool", "c/tool"]));
    assert_eq!(candidate_paths("", "tool"), Vec::<String>::new());
}

#[test]
fn single_match_is_resolved() {
    let cands = candidate_paths("/a:/b:/c", "tool");
    let found = first_existing(&cands, |p: &String| p == "/b/tool");
    assert_eq!(found, Some(1));
}

#[test]
fn earliest_directory_wins() {
    let cands = candidate_paths("/a:/b:/c", "tool");
    let asked = Cell::new(0);
    let found = first_existing(&cands, |p: &String| {
        asked.set(asked.get() + 1);
        p == "/b/tool" || p == "/c/tool"
    });
    assert_eq!(found, Some(1));
    assert_eq!(asked.get(), 2);
}

#[test]
fn missing_command_is_not_found() {
    let cands = candidate_paths("/a:/b", "tool");
    assert_eq!(first_existing(&cands, |_: &String| false), None);
}

#[test]
fn success_reports_nothing() {
    assert_eq!(failure_code(true, Some(0)), None);
}

#[test]
fn nonzero_exit_reports_code() {
    assert_eq!(failure_code(false, Some(3)), Some(3));
}

#[test]
fn signal_ended_child_reports_minus_one() {
    assert_eq!(failure_code(false, None), Some(-1));
}
