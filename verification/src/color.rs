//! Colorization: pure classification of graph-drawing characters, commit-line
//! tokens and diff lines into a small set of semantic classes. The mapping
//! from classes to concrete terminal colors belongs to the rendering layer.

use vstd::prelude::*;

use crate::is_hex_char;
use crate::is_hex_digit;
use crate::text::spec_contains_seq;
use crate::text::spec_starts_with;
use crate::text::spec_tokens;
use crate::text::split_tokens;
use crate::text::contains_str;
use crate::text::starts_with_str;

verus! {

/// Semantic class of one graph-drawing character.
#[derive(Debug, Clone, Copy, PartialEq, Eq, Structural)]
pub enum GraphGlyphClass {
    /// `*`: a commit node.
    Node,
    /// `|`: a vertical edge.
    EdgeVertical,
    /// `/`: a diagonal edge going up.
    EdgeDiagonalUp,
    /// `\`: a diagonal edge going down.
    EdgeDiagonalDown,
    /// `_` or `-`: a horizontal edge.
    EdgeHorizontal,
    /// `+`: a merge point.
    MergePoint,
    /// A space.
    Blank,
    /// Any other character.
    Other,
}

/// Classification of one graph-drawing character.
pub open spec fn spec_classify_graph_char(c: char) -> GraphGlyphClass {
    if c == '*' {
        GraphGlyphClass::Node
    } else if c == '|' {
        GraphGlyphClass::EdgeVertical
    } else if c == '/' {
        GraphGlyphClass::EdgeDiagonalUp
    } else if c == '\\' {
        GraphGlyphClass::EdgeDiagonalDown
    } else if c == '_' || c == '-' {
        GraphGlyphClass::EdgeHorizontal
    } else if c == '+' {
        GraphGlyphClass::MergePoint
    } else if c == ' ' {
        GraphGlyphClass::Blank
    } else {
        GraphGlyphClass::Other
    }
}

/// Executable classification of one graph-drawing character.
pub fn classify_graph_char(c: char) -> (r: GraphGlyphClass)
    ensures
        r == spec_classify_graph_char(c),
{
    if c == '*' {
        GraphGlyphClass::Node
    } else if c == '|' {
        GraphGlyphClass::EdgeVertical
    } else if c == '/' {
        GraphGlyphClass::EdgeDiagonalUp
    } else if c == '\\' {
        GraphGlyphClass::EdgeDiagonalDown
    } else if c == '_' || c == '-' {
        GraphGlyphClass::EdgeHorizontal
    } else if c == '+' {
        GraphGlyphClass::MergePoint
    } else if c == ' ' {
        GraphGlyphClass::Blank
    } else {
        GraphGlyphClass::Other
    }
}

/// One styled run of graph-drawing characters.
#[derive(Debug, Clone)]
pub struct GraphSpan {
    /// The run of characters.
    pub text: String,
    /// Their common class.
    pub class: GraphGlyphClass,
}

/// The concatenation of the texts of a sequence of graph spans.
pub open spec fn graph_spans_text(spans: Seq<GraphSpan>) -> Seq<char>
    decreases spans.len(),
{
    if spans.len() == 0 {
        Seq::empty()
    } else {
        graph_spans_text(spans.drop_last()) + spans.last().text@
    }
}

/// A span is well formed when it is non-empty and every character in it has
/// the span's class.
pub open spec fn graph_span_wf(sp: GraphSpan) -> bool {
    &&& sp.text@.len() > 0
    &&& forall|j: int|
        0 <= j < sp.text@.len() ==> spec_classify_graph_char(sp.text@[j]) == sp.class
}

/// Splits a graph prefix into styled spans: maximal contiguous runs of
/// characters of one class, in order. The concatenation of the spans
/// reproduces the input, and adjacent spans always differ in class.
#[verifier::rlimit(50)]
pub fn colorize_graph_text(s: &str) -> (r: Vec<GraphSpan>)
    ensures
        graph_spans_text(r@) == s@,
        forall|k: int| 0 <= k < r@.len() ==> graph_span_wf(#[trigger] r@[k]),
        forall|k: int| 0 < k < r@.len() ==> (#[trigger] r@[k]).class != r@[k - 1].class,
{
    let n = s.unicode_len();
    let mut spans: Vec<GraphSpan> = Vec::new();
    if n == 0 {
        proof {
            assert(graph_spans_text(spans@) =~= s@);
        }
        return spans;
    }
    let mut start: usize = 0;
    let mut cls = classify_graph_char(s.get_char(0));
    let mut i: usize = 1;
    proof {
        assert(graph_spans_text(spans@) =~= s@.subrange(0, 0));
    }
    while i < n
        invariant
            n == s@.len(),
            start < i <= n,
            cls == spec_classify_graph_char(s@[start as int]),
            forall|t: int| start <= t < i ==> spec_classify_graph_char(s@[t]) == cls,
            graph_spans_text(spans@) == s@.subrange(0, start as int),
            forall|k: int| 0 <= k < spans@.len() ==> graph_span_wf(#[trigger] spans@[k]),
            forall|k: int| 0 < k < spans@.len() ==> (#[trigger] spans@[k]).class != spans@[k - 1].class,
            spans@.len() > 0 ==> spans@.last().class != cls,
        decreases n - i,
    {
        let c2 = classify_graph_char(s.get_char(i));
        if c2 != cls {
            let sp = GraphSpan { text: s.substring_char(start, i).to_owned(), class: cls };
            let ghost pre = spans@;
            spans.push(sp);
            proof {
                assert(spans@.drop_last() =~= pre);
                assert(graph_spans_text(spans@) == graph_spans_text(pre) + sp.text@);
                assert(s@.subrange(0, start as int) + s@.subrange(start as int, i as int)
                    =~= s@.subrange(0, i as int));
            }
            start = i;
            cls = c2;
        }
        i += 1;
    }
    let sp = GraphSpan { text: s.substring_char(start, n).to_owned(), class: cls };
    let ghost pre = spans@;
    spans.push(sp);
    proof {
        assert(spans@.drop_last() =~= pre);
        assert(graph_spans_text(spans@) == graph_spans_text(pre) + sp.text@);
        assert(s@.subrange(0, start as int) + s@.subrange(start as int, n as int) =~= s@);
    }
    spans
}

/// Sub-classification of a reference decoration.
#[derive(Debug, Clone, Copy, PartialEq, Eq, Structural)]
pub enum RefKind {
    /// Mentions `HEAD`.
    Head,
    /// Mentions a remote-tracking namespace.
    Remote,
    /// Mentions a tag marker.
    Tag,
    /// Anything else: a local branch name.
    LocalBranch,
}

/// Classification of a reference decoration by its substring markers.
pub open spec fn spec_classify_refs(s: Seq<char>) -> RefKind {
    if spec_contains_seq(s, "HEAD"@) {
        RefKind::Head
    } else if spec_contains_seq(s, "origin/"@) || spec_contains_seq(s, "remote/"@) {
        RefKind::Remote
    } else if spec_contains_seq(s, "tag:"@) {
        RefKind::Tag
    } else {
        RefKind::LocalBranch
    }
}

/// Executable classification of a reference decoration.
pub fn classify_refs(s: &str) -> (r: RefKind)
    ensures
        r == spec_classify_refs(s@),
{
    if contains_str(s, "HEAD") {
        RefKind::Head
    } else if contains_str(s, "origin/") || contains_str(s, "remote/") {
        RefKind::Remote
    } else if contains_str(s, "tag:") {
        RefKind::Tag
    } else {
        RefKind::LocalBranch
    }
}

/// Semantic class of one styled run of a commit payload.
#[derive(Debug, Clone, Copy, PartialEq, Eq, Structural)]
pub enum CommitTokenClass {
    /// The leading short commit identifier.
    Hash,
    /// A single separating space.
    Space,
    /// Subject, relative age or author text.
    Message,
    /// A parenthesized reference decoration, sub-classified.
    Reference(RefKind),
}

/// One styled run of a commit payload.
#[derive(Debug, Clone)]
pub struct CommitSpan {
    /// The run of characters.
    pub text: String,
    /// Its class.
    pub class: CommitTokenClass,
}

/// The mathematical model of a sequence of commit spans.
pub open spec fn commit_spans_model(spans: Seq<CommitSpan>) -> Seq<(Seq<char>, CommitTokenClass)> {
    Seq::new(spans.len(), |k: int| (spans[k].text@, spans[k].class))
}

/// Whether every character of `t` is a hexadecimal digit.
pub open spec fn spec_all_hex(t: Seq<char>) -> bool {
    forall|j: int| 0 <= j < t.len() ==> is_hex_char(t[j])
}

/// Executable test for [`spec_all_hex`].
pub fn is_all_hex(t: &str) -> (r: bool)
    ensures
        r == spec_all_hex(t@),
{
    let n = t.unicode_len();
    let mut i: usize = 0;
    while i < n
        invariant
            n == t@.len(),
            i <= n,
            forall|j: int| 0 <= j < i ==> is_hex_char(t@[j]),
        decreases n - i,
    {
        if !is_hex_digit(t.get_char(i)) {
            return false;
        }
        i += 1;
    }
    true
}

/// The styled runs produced for the tokens of a commit payload, from token
/// `i` on: the first token is the hash when it is a seven-plus hexadecimal
/// run, a token opening a parenthesis starts a reference group that is
/// accumulated (joined by single spaces in `acc`) until a token closes it,
/// and every other token is message text. Tokens after the first are
/// preceded by a single separating space; a reference group left open at the
/// end of the line is dropped.
pub open spec fn spec_commit_spans_rec(
    toks: Seq<Seq<char>>,
    i: int,
    in_refs: bool,
    acc: Seq<char>,
) -> Seq<(Seq<char>, CommitTokenClass)>
    decreases toks.len() - i,
    when 0 <= i <= toks.len()
{
    if i >= toks.len() {
        Seq::empty()
    } else {
        let sep: Seq<(Seq<char>, CommitTokenClass)> = if i > 0 {
            seq![(seq![' '], CommitTokenClass::Space)]
        } else {
            Seq::empty()
        };
        let t = toks[i];
        if !in_refs && i == 0 && t.len() >= 7 && spec_all_hex(t) {
            sep + seq![(t, CommitTokenClass::Hash)] + spec_commit_spans_rec(
                toks,
                i + 1,
                false,
                Seq::empty(),
            )
        } else if !in_refs && t.len() > 0 && t[0] == '(' {
            if t.len() > 0 && t.last() == ')' {
                sep + seq![(t, CommitTokenClass::Reference(spec_classify_refs(t)))]
                    + spec_commit_spans_rec(toks, i + 1, false, Seq::empty())
            } else {
                sep + spec_commit_spans_rec(toks, i + 1, true, t)
            }
        } else if in_refs {
            let acc2 = acc + seq![' '] + t;
            if t.len() > 0 && t.last() == ')' {
                sep + seq![(acc2, CommitTokenClass::Reference(spec_classify_refs(acc2)))]
                    + spec_commit_spans_rec(toks, i + 1, false, Seq::empty())
            } else {
                sep + spec_commit_spans_rec(toks, i + 1, true, acc2)
            }
        } else {
            sep + seq![(t, CommitTokenClass::Message)] + spec_commit_spans_rec(
                toks,
                i + 1,
                false,
                Seq::empty(),
            )
        }
    }
}

/// The styled runs produced for a whole commit payload.
pub open spec fn spec_commit_spans(s: Seq<char>) -> Seq<(Seq<char>, CommitTokenClass)> {
    spec_commit_spans_rec(spec_tokens(s), 0, false, Seq::empty())
}

/// Splits a commit payload into styled runs: the hash, separating spaces,
/// reference decorations (accumulated across tokens and sub-classified), and
/// message text, per [`spec_commit_spans`].
pub fn colorize_commit_text(s: &str) -> (r: Vec<CommitSpan>)
    ensures
        commit_spans_model(r@) == spec_commit_spans(s@),
{
    let toks = split_tokens(s);
    let ghost tv = spec_tokens(s@);
    let mut result: Vec<CommitSpan> = Vec::new();
    let mut in_refs = false;
    let mut acc = String::new();
    let mut i: usize = 0;
    proof {
        reveal_strlit(" ");
        assert(" "@ =~= seq![' ']);
        assert(commit_spans_model(result@) =~= Seq::<(Seq<char>, CommitTokenClass)>::empty());
        assert(Seq::<(Seq<char>, CommitTokenClass)>::empty() + spec_commit_spans_rec(
            tv,
            0,
            false,
            Seq::empty(),
        ) =~= spec_commit_spans_rec(tv, 0, false, Seq::empty()));
        assert(acc@ =~= Seq::<char>::empty());
    }
    while i < toks.len()
        invariant
            toks.deep_view() == tv,
            i <= toks@.len(),
            toks@.len() == tv.len(),
            " "@ =~= seq![' '],
            !in_refs ==> acc@ == Seq::<char>::empty(),
            spec_commit_spans(s@) == commit_spans_model(result@) + spec_commit_spans_rec(
                tv,
                i as int,
                in_refs,
                acc@,
            ),
        decreases toks@.len() - i,
    {
        let ghost in0 = in_refs;
        let ghost acc0 = acc@;
        let ghost pre = commit_spans_model(result@);
        let ghost sep: Seq<(Seq<char>, CommitTokenClass)> = if i > 0 {
            seq![(seq![' '], CommitTokenClass::Space)]
        } else {
            Seq::<(Seq<char>, CommitTokenClass)>::empty()
        };
        proof {
            assert(toks@[i as int].deep_view() == tv[i as int]);
        }
        if i > 0 {
            result.push(CommitSpan { text: " ".to_owned(), class: CommitTokenClass::Space });
        }
        proof {
            assert(commit_spans_model(result@) =~= pre + sep);
        }
        let ghost pre1 = commit_spans_model(result@);
        let t = &toks[i];
        let tn = t.as_str().unicode_len();
        if !in_refs && i == 0 && tn >= 7 && is_all_hex(t.as_str()) {
            result.push(CommitSpan { text: t.clone(), class: CommitTokenClass::Hash });
            proof {
                let item = seq![(tv[i as int], CommitTokenClass::Hash)];
                let rest = spec_commit_spans_rec(tv, i + 1, false, Seq::<char>::empty());
                assert(commit_spans_model(result@) =~= pre1 + item);
                assert(spec_commit_spans_rec(tv, i as int, in0, acc0) == sep + item + rest);
                assert(pre + (sep + item + rest) =~= (pre1 + item) + rest);
                assert(acc@ =~= Seq::<char>::empty());
            }
        } else if !in_refs && tn > 0 && t.as_str().get_char(0) == '(' {
            if t.as_str().get_char(tn - 1) == ')' {
                let kind = classify_refs(t.as_str());
                result.push(
                    CommitSpan { text: t.clone(), class: CommitTokenClass::Reference(kind) },
                );
                proof {
                    let item = seq![
                        (tv[i as int], CommitTokenClass::Reference(spec_classify_refs(
                            tv[i as int],
                        ))),
                    ];
                    let rest = spec_commit_spans_rec(tv, i + 1, false, Seq::<char>::empty());
                    assert(commit_spans_model(result@) =~= pre1 + item);
                    assert(spec_commit_spans_rec(tv, i as int, in0, acc0) == sep + item + rest);
                    assert(pre + (sep + item + rest) =~= (pre1 + item) + rest);
                    assert(acc@ =~= Seq::<char>::empty());
                }
            } else {
                in_refs = true;
                acc = t.clone();
                proof {
                    let rest = spec_commit_spans_rec(tv, i + 1, true, tv[i as int]);
                    assert(spec_commit_spans_rec(tv, i as int, in0, acc0) == sep + rest);
                    assert(pre + (sep + rest) =~= pre1 + rest);
                }
            }
        } else if in_refs {
            acc.append(" ");
            acc.append(t.as_str());
            proof {
                assert(acc@ =~= acc0 + seq![' '] + tv[i as int]);
            }
            if tn > 0 && t.as_str().get_char(tn - 1) == ')' {
                let kind = classify_refs(acc.as_str());
                let ghost accv = acc@;
                result.push(CommitSpan { text: acc, class: CommitTokenClass::Reference(kind) });
                proof {
                    let item = seq![(accv, CommitTokenClass::Reference(spec_classify_refs(accv)))];
                    let rest = spec_commit_spans_rec(tv, i + 1, false, Seq::<char>::empty());
                    assert(commit_spans_model(result@) =~= pre1 + item);
                    assert(spec_commit_spans_rec(tv, i as int, in0, acc0) == sep + item + rest);
                    assert(pre + (sep + item + rest) =~= (pre1 + item) + rest);
                }
                in_refs = false;
                acc = String::new();
                proof {
                    assert(acc@ =~= Seq::<char>::empty());
                }
            } else {
                proof {
                    let rest = spec_commit_spans_rec(tv, i + 1, true, acc@);
                    assert(spec_commit_spans_rec(tv, i as int, in0, acc0) == sep + rest);
                    assert(pre + (sep + rest) =~= pre1 + rest);
                }
            }
        } else {
            result.push(CommitSpan { text: t.clone(), class: CommitTokenClass::Message });
            proof {
                let item = seq![(tv[i as int], CommitTokenClass::Message)];
                let rest = spec_commit_spans_rec(tv, i + 1, false, Seq::<char>::empty());
                assert(commit_spans_model(result@) =~= pre1 + item);
                assert(spec_commit_spans_rec(tv, i as int, in0, acc0) == sep + item + rest);
                assert(pre + (sep + item + rest) =~= (pre1 + item) + rest);
                assert(acc@ =~= Seq::<char>::empty());
            }
        }
        i += 1;
    }
    proof {
        assert(commit_spans_model(result@) + Seq::<(Seq<char>, CommitTokenClass)>::empty()
            =~= commit_spans_model(result@));
    }
    result
}

/// Semantic class of one line of patch output.
#[derive(Debug, Clone, Copy, PartialEq, Eq, Structural)]
pub enum DiffLineClass {
    /// `+++` or `---`: a file header.
    FileHeader,
    /// `@@`: a hunk header.
    HunkHeader,
    /// `+`: an added line.
    Added,
    /// `-`: a removed line.
    Removed,
    /// `commit `: the commit header.
    CommitHeader,
    /// `Author: ` or `Date: `: authorship metadata.
    AuthorDate,
    /// `diff --git`: a diff header.
    DiffHeader,
    /// `index `: an index line.
    IndexLine,
    /// Anything else.
    Text,
}

/// Classification of one line of patch output by its prefix, earliest
/// matching rule first.
pub open spec fn spec_classify_diff_line(s: Seq<char>) -> DiffLineClass {
    if spec_starts_with(s, "+++"@) || spec_starts_with(s, "---"@) {
        DiffLineClass::FileHeader
    } else if spec_starts_with(s, "@@"@) {
        DiffLineClass::HunkHeader
    } else if spec_starts_with(s, "+"@) {
        DiffLineClass::Added
    } else if spec_starts_with(s, "-"@) {
        DiffLineClass::Removed
    } else if spec_starts_with(s, "commit "@) {
        DiffLineClass::CommitHeader
    } else if spec_starts_with(s, "Author: "@) || spec_starts_with(s, "Date: "@) {
        DiffLineClass::AuthorDate
    } else if spec_starts_with(s, "diff --git"@) {
        DiffLineClass::DiffHeader
    } else if spec_starts_with(s, "index "@) {
        DiffLineClass::IndexLine
    } else {
        DiffLineClass::Text
    }
}

/// Classifies one line of patch output for display.
pub fn colorize_diff_line(line: &str) -> (r: DiffLineClass)
    ensures
        r == spec_classify_diff_line(line@),
{
    if starts_with_str(line, "+++") || starts_with_str(line, "---") {
        DiffLineClass::FileHeader
    } else if starts_with_str(line, "@@") {
        DiffLineClass::HunkHeader
    } else if starts_with_str(line, "+") {
        DiffLineClass::Added
    } else if starts_with_str(line, "-") {
        DiffLineClass::Removed
    } else if starts_with_str(line, "commit ") {
        DiffLineClass::CommitHeader
    } else if starts_with_str(line, "Author: ") || starts_with_str(line, "Date: ") {
        DiffLineClass::AuthorDate
    } else if starts_with_str(line, "diff --git") {
        DiffLineClass::DiffHeader
    } else if starts_with_str(line, "index ") {
        DiffLineClass::IndexLine
    } else {
        DiffLineClass::Text
    }
}

} // verus!
