//! Tests of the graph, commit-token and diff-line colorizers.

use gitgraph::color::classify_graph_char;
use gitgraph::color::classify_refs;
use gitgraph::color::colorize_commit_text;
use gitgraph::color::colorize_diff_line;
use gitgraph::color::colorize_graph_text;
use gitgraph::color::CommitTokenClass;
use gitgraph::color::DiffLineClass;
use gitgraph::color::GraphGlyphClass;
use gitgraph::color::RefKind;

#[test]
fn graph_char_classes() {
    assert_eq!(classify_graph_char('*'), GraphGlyphClass::Node);
    assert_eq!(classify_graph_char('|'), GraphGlyphClass::EdgeVertical);
    assert_eq!(classify_graph_char('/'), GraphGlyphClass::EdgeDiagonalUp);
    assert_eq!(classify_graph_char('\\'), GraphGlyphClass::EdgeDiagonalDown);
    assert_eq!(classify_graph_char('_'), GraphGlyphClass::EdgeHorizontal);
    assert_eq!(classify_graph_char('-'), GraphGlyphClass::EdgeHorizontal);
    assert_eq!(classify_graph_char('+'), GraphGlyphClass::MergePoint);
    assert_eq!(classify_graph_char(' '), GraphGlyphClass::Blank);
    assert_eq!(classify_graph_char('x'), GraphGlyphClass::Other);
}

#[test]
fn graph_spans_partition_input() {
    let spans = colorize_graph_text("| | * ");
    let joined: String = spans.iter().map(|s| s.text.as_str()).collect();
    assert_eq!(joined, "| | * ");
    for w in spans.windows(2) {
        assert_ne!(w[0].class, w[1].class);
    }
    for sp in &spans {
        assert!(!sp.text.is_empty());
        for c in sp.text.chars() {
            assert_eq!(classify_graph_char(c), sp.class);
        }
    }
}

#[test]
fn graph_spans_merge_equal_runs() {
    // Underscore and dash share the horizontal class and merge into one run.
    let spans = colorize_graph_text("--__");
    assert_eq!(spans.len(), 1);
    assert_eq!(spans[0].text, "--__");
    assert_eq!(spans[0].class, GraphGlyphClass::EdgeHorizontal);
}

#[test]
fn ref_kinds() {
    assert_eq!(classify_refs("(HEAD -> main, origin/main)"), RefKind::Head);
    assert_eq!(classify_refs("(origin/main)"), RefKind::Remote);
    assert_eq!(classify_refs("(remote/x)"), RefKind::Remote);
    assert_eq!(classify_refs("(tag: v1.0)"), RefKind::Tag);
    assert_eq!(classify_refs("(feature-x)"), RefKind::LocalBranch);
}

#[test]
fn commit_spans_full_line() {
    let spans = colorize_commit_text("a1b2c3d - (2 hours ago) Fix - Alice");
    let texts: Vec<&str> = spans.iter().map(|s| s.text.as_str()).collect();
    assert_eq!(
        texts,
        vec![
            "a1b2c3d", " ", "-", " ", " ", " ", "(2 hours ago)", " ", "Fix", " ", "-", " ",
            "Alice"
        ]
    );
    assert_eq!(spans[0].class, CommitTokenClass::Hash);
    assert_eq!(spans[2].class, CommitTokenClass::Message);
    assert_eq!(spans[6].class, CommitTokenClass::Reference(RefKind::LocalBranch));
    assert_eq!(spans[12].class, CommitTokenClass::Message);
}

#[test]
fn commit_spans_head_reference() {
    // One separating space is emitted per following token, even while a
    // reference group is being accumulated.
    let spans = colorize_commit_text("a1b2c3d (HEAD -> main)");
    let texts: Vec<&str> = spans.iter().map(|s| s.text.as_str()).collect();
    assert_eq!(texts, vec!["a1b2c3d", " ", " ", " ", "(HEAD -> main)"]);
    assert_eq!(spans[0].class, CommitTokenClass::Hash);
    assert_eq!(spans[1].class, CommitTokenClass::Space);
    assert_eq!(spans[4].class, CommitTokenClass::Reference(RefKind::Head));
}

#[test]
fn commit_spans_drop_unterminated_group() {
    // The two following tokens each contribute their separating space, but
    // the group they open never closes, so its accumulated text is dropped.
    let spans = colorize_commit_text("a1b2c3d (never closed");
    let texts: Vec<&str> = spans.iter().map(|s| s.text.as_str()).collect();
    assert_eq!(texts, vec!["a1b2c3d", " ", " "]);
}

#[test]
fn commit_spans_short_first_token_is_message() {
    let spans = colorize_commit_text("abc123 words");
    assert_eq!(spans[0].class, CommitTokenClass::Message);
    assert_eq!(spans[0].text, "abc123");
}

#[test]
fn diff_line_classes() {
    assert_eq!(colorize_diff_line("+++ b/file"), DiffLineClass::FileHeader);
    assert_eq!(colorize_diff_line("--- a/file"), DiffLineClass::FileHeader);
    assert_eq!(colorize_diff_line("@@ -1,2 +1,2 @@"), DiffLineClass::HunkHeader);
    assert_eq!(colorize_diff_line("+added"), DiffLineClass::Added);
    assert_eq!(colorize_diff_line("-removed"), DiffLineClass::Removed);
    assert_eq!(colorize_diff_line("commit a1b2c3d"), DiffLineClass::CommitHeader);
    assert_eq!(colorize_diff_line("Author: Alice <a@x>"), DiffLineClass::AuthorDate);
    assert_eq!(colorize_diff_line("Date: today"), DiffLineClass::AuthorDate);
    assert_eq!(colorize_diff_line("diff --git a/f b/f"), DiffLineClass::DiffHeader);
    assert_eq!(colorize_diff_line("index 123..456 100644"), DiffLineClass::IndexLine);
    assert_eq!(colorize_diff_line("plain context"), DiffLineClass::Text);
    assert_eq!(colorize_diff_line("-"), DiffLineClass::Removed);
    assert_eq!(colorize_diff_line("commitx"), DiffLineClass::Text);
}
