//! Tests of commit construction defaults and prefix resolution.

use gitgraph::commit::find_id_by_prefix;
use gitgraph::commit::new_commit;

#[test]
fn commit_defaults_applied() {
    let c = new_commit(
        "feedfacefeedface".to_string(),
        "feedfac".to_string(),
        None,
        None,
        0,
        99,
        vec!["p1".to_string()],
        vec!["origin/main".to_string()],
    );
    assert_eq!(c.message, "");
    assert_eq!(c.author, "Unknown");
    assert_eq!(c.timestamp_secs, 0);
    assert_eq!(c.parents, vec!["p1".to_string()]);
    assert_eq!(c.refs, vec!["origin/main".to_string()]);
}

#[test]
fn unrepresentable_timestamp_falls_back_to_now() {
    let c = new_commit(
        "feedfacefeedface".to_string(),
        "feedfac".to_string(),
        Some("m".to_string()),
        Some("a".to_string()),
        i64::MAX,
        1_700_000_000,
        vec![],
        vec![],
    );
    assert_eq!(c.timestamp_secs, 1_700_000_000);
    assert_eq!(c.message, "m");
    assert_eq!(c.author, "a");
}

#[test]
fn representable_timestamp_is_kept() {
    let c = new_commit(
        "feedfacefeedface".to_string(),
        "feedfac".to_string(),
        None,
        None,
        1_431_648_000,
        7,
        vec![],
        vec![],
    );
    assert_eq!(c.timestamp_secs, 1_431_648_000);
}

#[test]
fn prefix_resolution_finds_first_match() {
    let ids = vec![
        "deadbeef1111".to_string(),
        "a1b2c3d4aaaa".to_string(),
        "a1b2c3d4bbbb".to_string(),
    ];
    assert_eq!(find_id_by_prefix(&ids, "a1b2").as_deref(), Some("a1b2c3d4aaaa"));
    assert_eq!(find_id_by_prefix(&ids, "dead").as_deref(), Some("deadbeef1111"));
    assert_eq!(find_id_by_prefix(&ids, "ffff"), None);
    assert_eq!(find_id_by_prefix(&vec![], "a"), None);
}
