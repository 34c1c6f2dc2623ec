//! Tests of the graph-line parser and reference extraction.

use gitgraph::parse::extract_refs_from_line;
use gitgraph::parse::parse_graph_line;

#[test]
fn decorated_commit_line() {
    let line = "* a1b2c3d (HEAD -> main, origin/main) Fix bug - Alice";
    let g = parse_graph_line(line);
    assert_eq!(g.graph_text, "* ");
    assert_eq!(g.commit_id, "a1b2c3d");
    assert_eq!(g.commit_text, "a1b2c3d (HEAD -> main, origin/main) Fix bug - Alice");
    assert_eq!(g.refs_text, "(HEAD -> main, origin/main)");
    let refs = extract_refs_from_line(line);
    assert_eq!(refs, vec!["origin/main".to_string()]);
}

#[test]
fn connector_heavy_commit_line() {
    let line = "| | * 9f8e7d6 Merge branch - Bob";
    let g = parse_graph_line(line);
    assert_eq!(g.graph_text, "| | * ");
    assert_eq!(g.commit_id, "9f8e7d6");
    assert_eq!(g.commit_text, "9f8e7d6 Merge branch - Bob");
    assert_eq!(g.refs_text, "");
    assert!(extract_refs_from_line(line).is_empty());
}

#[test]
fn pure_connector_line() {
    let line = "|\\";
    let g = parse_graph_line(line);
    assert_eq!(g.graph_text, "|\\");
    assert_eq!(g.commit_text, "");
    assert_eq!(g.commit_id, "");
    assert_eq!(g.refs_text, "");
}

#[test]
fn prefix_payload_reassemble_line() {
    for line in [
        "* a1b2c3d (HEAD -> main) Fix - A",
        "| | * 9f8e7d6 Merge - B",
        "|\\",
        "",
        "*   f00dfeed Merge remote",
        "some message with deadbee7 inside",
    ] {
        let g = parse_graph_line(line);
        let mut whole = g.graph_text.clone();
        whole.push_str(&g.commit_text);
        assert_eq!(whole, line);
    }
}

#[test]
fn short_hex_run_is_no_commit() {
    let g = parse_graph_line("* abc123 too short");
    assert_eq!(g.commit_id, "");
    assert_eq!(g.commit_text, "");
    assert_eq!(g.graph_text, "* abc123 too short");
}

#[test]
fn hex_run_not_followed_by_space_is_no_commit() {
    let g = parse_graph_line("* abc1234xyz tail");
    assert_eq!(g.commit_id, "");
    assert_eq!(g.commit_text, "");
}

#[test]
fn hash_at_end_of_line() {
    let g = parse_graph_line("* a1b2c3d");
    assert_eq!(g.graph_text, "* ");
    assert_eq!(g.commit_id, "a1b2c3d");
    assert_eq!(g.commit_text, "a1b2c3d");
}

#[test]
fn starred_token_gives_empty_id() {
    // A seven-character token that begins with the node marker is a payload
    // start, but it carries no extractable identifier.
    let g = parse_graph_line("| *abc123 tail");
    assert_eq!(g.graph_text, "| ");
    assert_eq!(g.commit_text, "*abc123 tail");
    assert_eq!(g.commit_id, "");
}

#[test]
fn first_candidate_wins() {
    let g = parse_graph_line("* abc12345 hello deadbeef x");
    assert_eq!(g.commit_id, "abc12345");
    assert_eq!(g.graph_text, "* ");
}

#[test]
fn refs_entries_subset_of_split_entries() {
    let line = "x1b2c3d4 (alpha, b/c, origin/x, HEAD -> y, tag: v1)";
    let refs = extract_refs_from_line(line);
    // Kept entries, in input order: a plain local name and the
    // remote-tracking entry; path-separated and multi-word entries drop out.
    assert_eq!(refs, vec!["alpha".to_string(), "origin/x".to_string()]);
    let split: Vec<&str> = line[line.find('(').unwrap() + 1..line.rfind(')').unwrap()]
        .split(',')
        .map(|e| e.trim())
        .collect();
    let mut pos = 0;
    for r in &refs {
        let found = split[pos..].iter().position(|e| e == r).expect("entry invented");
        pos += found + 1;
    }
}

#[test]
fn unbalanced_group_yields_no_refs() {
    let g = parse_graph_line("a1b2c3d ) closes before ( opens");
    assert_eq!(g.refs_text, "");
    assert!(extract_refs_from_line("a1b2c3d ) closes before ( opens").is_empty());
}

#[test]
fn blank_and_whitespace_lines_parse_as_connectors() {
    let g = parse_graph_line("   ");
    assert_eq!(g.graph_text, "   ");
    assert_eq!(g.commit_id, "");
}
