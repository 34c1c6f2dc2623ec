//! Tests of the session state: branch reloads, the descendant cache and its
//! invalidation, graph application, selection and the patch overlay.

use gitgraph::session::graph_ref_args;
use gitgraph::session::App;
use gitgraph::session::BranchInfo;
use gitgraph::session::GraphScopeConfig;
use gitgraph::commit::new_commit;

fn info(name: &str, commit_id: &str, is_head: bool) -> BranchInfo {
    BranchInfo { name: name.to_string(), commit_id: commit_id.to_string(), is_head }
}

fn loaded_app() -> App {
    let mut app = App::new();
    let locals = vec![
        info("master", "1111111111", true),
        info("feature-x", "2222222222", false),
        info("feature-x-2", "3333333333", false),
    ];
    let remotes = vec![info("feature-x-2", "3333333333", false)];
    app.load_branches(&locals, &remotes);
    app
}

#[test]
fn load_branches_sets_flags() {
    let app = loaded_app();
    assert_eq!(app.branches.len(), 4);
    assert_eq!(app.branches[0].name, "master");
    assert!(app.branches[0].is_head);
    assert!(!app.branches[0].is_remote);
    assert!(!app.branches[1].is_head);
    assert!(app.branches[3].is_remote);
    assert!(!app.branches[3].is_head);
}

#[test]
fn descendants_of_base_branch() {
    // The base branch itself and remote branches are never candidates; the
    // remote sharing the candidate's name stays excluded.
    let mut app = loaded_app();
    let queries = app.descendant_candidates("feature-x");
    assert_eq!(queries.len(), 2);
    assert_eq!(queries[0].candidate, "master");
    assert_eq!(queries[0].ancestor_id, "2222222222");
    assert_eq!(queries[0].descendant_id, "1111111111");
    assert_eq!(queries[1].candidate, "feature-x-2");
    assert_eq!(queries[1].descendant_id, "3333333333");
    // The ancestry oracle affirms only feature-x-2.
    let answers = vec![false, true];
    app.record_descendants("feature-x", &queries, &answers);
    let cached = app.cached_descendants("feature-x").expect("entry recorded");
    assert_eq!(cached, vec!["feature-x-2".to_string()]);
}

#[test]
fn repeated_query_hits_cache() {
    let mut app = loaded_app();
    let queries = app.descendant_candidates("feature-x");
    app.record_descendants("feature-x", &queries, &vec![false, true]);
    let first = app.cached_descendants("feature-x").expect("cached");
    let second = app.cached_descendants("feature-x").expect("still cached");
    assert_eq!(first, second);
}

#[test]
fn reload_invalidates_cache() {
    let mut app = loaded_app();
    let queries = app.descendant_candidates("feature-x");
    app.record_descendants("feature-x", &queries, &vec![true, true]);
    assert!(app.cached_descendants("feature-x").is_some());
    let locals = vec![info("feature-x", "4444444444", true)];
    app.load_branches(&locals, &vec![]);
    assert!(app.cached_descendants("feature-x").is_none());
}

#[test]
fn failed_ancestry_checks_record_empty_set() {
    // A failed external check is handed in as a negative answer: the query
    // degrades to an empty set, and the cache still holds an entry.
    let mut app = loaded_app();
    let queries = app.descendant_candidates("feature-x");
    let answers = vec![false; queries.len()];
    app.record_descendants("feature-x", &queries, &answers);
    let cached = app.cached_descendants("feature-x");
    assert_eq!(cached, Some(vec![]));
}

#[test]
fn unknown_base_has_no_candidates() {
    let app = loaded_app();
    assert!(app.descendant_candidates("no-such-branch").is_empty());
    assert!(app.cached_descendants("no-such-branch").is_none());
}

#[test]
fn recording_one_base_leaves_others_alone() {
    let mut app = loaded_app();
    let qx = app.descendant_candidates("feature-x");
    app.record_descendants("feature-x", &qx, &vec![false, true]);
    let qm = app.descendant_candidates("master");
    app.record_descendants("master", &qm, &vec![false; qm.len()]);
    assert_eq!(
        app.cached_descendants("feature-x"),
        Some(vec!["feature-x-2".to_string()])
    );
    assert_eq!(app.cached_descendants("master"), Some(vec![]));
}

#[test]
fn included_branches_follow_filter() {
    let mut app = loaded_app();
    assert!(app.get_included_branches().is_empty());
    let queries = app.descendant_candidates("feature-x");
    app.record_descendants("feature-x", &queries, &vec![false, true]);
    app.set_branch_filter(Some("feature-x".to_string()));
    assert_eq!(
        app.get_included_branches(),
        vec!["feature-x".to_string(), "feature-x-2".to_string()]
    );
    app.clear_branch_filter();
    assert!(app.get_included_branches().is_empty());
}

#[test]
fn graph_ref_args_exclude_mirrors() {
    let config = GraphScopeConfig::default();
    let descendants = vec!["feature-x-2".to_string()];
    let mirrors = vec!["gerrit/noise".to_string(), "gerrit/sunmi-keep".to_string()];
    let args = graph_ref_args(&config, "feature-x", &descendants, &mirrors);
    assert_eq!(
        args,
        vec![
            "^gerrit/noise".to_string(),
            "feature-x".to_string(),
            "feature-x-2".to_string()
        ]
    );
}

#[test]
fn graph_ref_args_spare_primary_and_empty_sets() {
    let config = GraphScopeConfig::default();
    let mirrors = vec!["gerrit/noise".to_string()];
    let args = graph_ref_args(&config, "master", &vec!["d".to_string()], &mirrors);
    assert_eq!(args, vec!["master".to_string(), "d".to_string()]);
    let args = graph_ref_args(&config, "feature-x", &vec![], &mirrors);
    assert_eq!(args, vec!["feature-x".to_string()]);
}

#[test]
fn apply_graph_output_skips_blank_lines() {
    let mut app = App::new();
    let lines = vec![
        "* a1b2c3d (HEAD -> main) Fix - A".to_string(),
        "".to_string(),
        "|\\".to_string(),
        "   ".to_string(),
        "| * 9f8e7d6 Other - B".to_string(),
    ];
    app.apply_graph_output(&lines);
    assert_eq!(app.graph_lines.len(), 3);
    assert_eq!(app.graph_lines[0].commit_id, "a1b2c3d");
    assert_eq!(app.graph_lines[1].commit_id, "");
    assert_eq!(app.graph_lines[2].commit_id, "9f8e7d6");
    assert!(!app.loading);
}

#[test]
fn failed_graph_load_keeps_error_and_empties_graph() {
    let mut app = App::new();
    app.apply_graph_output(&vec!["* a1b2c3d ok".to_string()]);
    app.fail_graph_load("graph query failed".to_string());
    assert!(app.graph_lines.is_empty());
    assert_eq!(app.error_message.as_deref(), Some("graph query failed"));
    assert!(!app.loading);
}

#[test]
fn selected_commit_resolves_by_id_and_prefix() {
    let mut app = App::new();
    app.apply_graph_output(&vec![
        "* a1b2c3d First - A".to_string(),
        "|\\".to_string(),
    ]);
    let c = new_commit(
        "a1b2c3d4e5f60718".to_string(),
        "a1b2c3d".to_string(),
        Some("First".to_string()),
        Some("A".to_string()),
        0,
        0,
        vec![],
        vec![],
    );
    app.insert_commit(c);
    app.selected_commit = 0;
    let found = app.get_selected_commit().expect("resolves");
    assert_eq!(found.id, "a1b2c3d4e5f60718");
    // The connector row resolves to nothing.
    app.selected_commit = 1;
    assert!(app.get_selected_commit().is_none());
    // Out-of-range selection resolves to nothing.
    app.selected_commit = 7;
    assert!(app.get_selected_commit().is_none());
}

#[test]
fn inserting_same_id_overwrites() {
    let mut app = App::new();
    let mk = |msg: &str| {
        new_commit(
            "a1b2c3d4e5f60718".to_string(),
            "a1b2c3d".to_string(),
            Some(msg.to_string()),
            None,
            0,
            0,
            vec![],
            vec![],
        )
    };
    app.insert_commit(mk("first"));
    app.insert_commit(mk("second"));
    assert_eq!(app.commits.len(), 1);
    assert_eq!(app.commits[0].message, "second");
}

#[test]
fn navigation_wraps_cyclically() {
    let mut app = App::new();
    app.apply_graph_output(&vec![
        "* a1b2c3d a".to_string(),
        "* b1b2c3d b".to_string(),
        "* c1b2c3d c".to_string(),
    ]);
    assert_eq!(app.selected_commit, 0);
    app.next_commit();
    app.next_commit();
    assert_eq!(app.selected_commit, 2);
    app.next_commit();
    assert_eq!(app.selected_commit, 0);
    app.previous_commit();
    assert_eq!(app.selected_commit, 2);
    let mut empty = App::new();
    empty.next_commit();
    empty.previous_commit();
    assert_eq!(empty.selected_commit, 0);
}

#[test]
fn branch_navigation_wraps() {
    let mut app = loaded_app();
    assert_eq!(app.selected_branch, 0);
    app.previous_branch();
    assert_eq!(app.selected_branch, 3);
    app.next_branch();
    assert_eq!(app.selected_branch, 0);
}

#[test]
fn select_current_branch_sets_filter() {
    let mut app = loaded_app();
    app.selected_branch = 1;
    app.select_current_branch();
    assert_eq!(app.current_branch_filter.as_deref(), Some("feature-x"));
    assert!(app.loading);
    assert_eq!(app.selected_commit, 0);
}

#[test]
fn diff_overlay_lifecycle() {
    let mut app = App::new();
    app.apply_graph_output(&vec!["* a1b2c3d subject".to_string(), "|\\".to_string()]);
    app.selected_commit = 0;
    assert_eq!(app.diff_target().as_deref(), Some("a1b2c3d"));
    app.selected_commit = 1;
    assert_eq!(app.diff_target(), None);
    let ten_lines = "l\n".repeat(10);
    app.open_diff(ten_lines);
    assert!(app.show_diff);
    assert_eq!(app.get_max_diff_scroll(5), 7);
    assert_eq!(app.get_max_diff_scroll(20), 0);
    app.diff_scroll_offset = 100;
    app.clamp_diff_scroll(5);
    assert_eq!(app.diff_scroll_offset, 7);
    app.close_diff();
    assert!(!app.show_diff);
    assert_eq!(app.current_diff, None);
    assert_eq!(app.get_max_diff_scroll(5), 0);
}

#[test]
fn branch_tip_takes_first_match() {
    let app = loaded_app();
    assert_eq!(app.branch_tip("feature-x-2").as_deref(), Some("3333333333"));
    assert_eq!(app.branch_tip("master").as_deref(), Some("1111111111"));
    assert_eq!(app.branch_tip("missing"), None);
}

#[test]
fn set_error_preserves_graph() {
    let mut app = App::new();
    app.apply_graph_output(&vec!["* a1b2c3d keep".to_string()]);
    app.set_error("branch read failed".to_string());
    assert_eq!(app.graph_lines.len(), 1);
    assert_eq!(app.error_message.as_deref(), Some("branch read failed"));
}
