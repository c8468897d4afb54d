use bicep_review::ado::{
    latest_iteration_id, make_thread, repo_id_or_name, select_bicep_files, should_post_comment,
    ChangeEntry,
};
use bicep_review::models::ValidationResult;

fn entry(path: Option<&str>, change_type: Option<&str>, object_id: Option<&str>) -> ChangeEntry {
    ChangeEntry {
        path: path.map(|s| s.to_string()),
        change_type: change_type.map(|s| s.to_string()),
        object_id: object_id.map(|s| s.to_string()),
        original_object_id: None,
    }
}

#[test]
fn scenario_only_bicep_paths_are_selected() {
    let entries = vec![
        entry(Some("src/main.bicep"), Some("edit"), Some("abc")),
        entry(Some("readme.md"), Some("edit"), Some("def")),
    ];
    let files = select_bicep_files(&entries);
    assert_eq!(files.len(), 1);
    assert_eq!(files[0].path, "src/main.bicep");
    // The non-bicep file is gone entirely: nothing downstream, no model
    // call, will ever see it.
    assert!(files.iter().all(|f| f.path.ends_with(".bicep")));
}

#[test]
fn selection_defaults_change_type_and_object_id() {
    let entries = vec![entry(Some("a.bicep"), None, None)];
    let files = select_bicep_files(&entries);
    assert_eq!(files[0].change_type, "edit");
    assert_eq!(files[0].object_id, "");
    assert_eq!(files[0].original_object_id, None);
}

#[test]
fn selection_skips_entries_without_paths_and_keeps_order() {
    let entries = vec![
        entry(None, Some("edit"), Some("x")),
        entry(Some("b.bicep"), Some("add"), Some("1")),
        entry(Some("c.txt"), Some("edit"), Some("2")),
        entry(Some("a.bicep"), Some("delete"), Some("3")),
    ];
    let files = select_bicep_files(&entries);
    let paths: Vec<&str> = files.iter().map(|f| f.path.as_str()).collect();
    assert_eq!(paths, vec!["b.bicep", "a.bicep"]);
    assert_eq!(files[0].change_type, "add");
    assert_eq!(files[1].change_type, "delete");
}

#[test]
fn a_path_that_merely_mentions_the_suffix_is_not_selected() {
    let entries = vec![
        entry(Some("a.bicep.txt"), None, None),
        entry(Some(".bicep"), None, None),
        entry(Some("bicep"), None, None),
    ];
    let files = select_bicep_files(&entries);
    assert_eq!(files.len(), 1);
    assert_eq!(files[0].path, ".bicep");
}

#[test]
fn latest_iteration_is_the_greatest_id() {
    assert_eq!(latest_iteration_id(&vec![]), 1);
    assert_eq!(latest_iteration_id(&vec![3, 7, 5]), 7);
    assert_eq!(latest_iteration_id(&vec![2]), 2);
    assert_eq!(latest_iteration_id(&vec![9, 1, 9]), 9);
}

#[test]
fn thread_is_one_active_text_comment_on_the_file() {
    let t = make_thread("src/main.bicep", "## Review\nbody");
    assert_eq!(t.status, 1);
    assert_eq!(t.comments.len(), 1);
    assert_eq!(t.comments[0].comment_type, 1);
    assert_eq!(t.comments[0].content, "## Review\nbody");
    assert_eq!(t.thread_context.file_path, "src/main.bicep");
}

#[test]
fn repository_id_falls_back_to_the_name() {
    assert_eq!(
        repo_id_or_name(Some("guid-123".to_string()), "my-repo"),
        "guid-123"
    );
    assert_eq!(repo_id_or_name(None, "my-repo"), "my-repo");
}

#[test]
fn comments_are_posted_only_for_surviving_findings() {
    assert!(!should_post_comment(&Vec::new()));
    let one = vec![ValidationResult {
        category: "C".to_string(),
        finding: "F".to_string(),
        severity: 4,
        impact: "I".to_string(),
    }];
    assert!(should_post_comment(&one));
}
