//! Graph-line parsing: recovering commit payloads, short identifiers and
//! reference decorations from one line of textual graph output.
//!
//! A position in a line starts a commit payload when it holds a node marker
//! or a hexadecimal digit and the token from there — an optional leading
//! marker followed by the contiguous hexadecimal run — is at least seven
//! characters long and ends at a space or at the end of the line. Everything
//! before the first such position draws graph topology; a line with no such
//! position is a pure connector row, not an error.

use vstd::prelude::*;

use crate::is_hex_char;
use crate::is_hex_digit;
use crate::text::is_space;
use crate::text::is_space_char;
use crate::text::contains_char;
use crate::text::find_char;
use crate::text::rfind_char;
use crate::text::spec_contains_char;
use crate::text::spec_find_from;
use crate::text::spec_rfind_below;
use crate::text::spec_starts_with;
use crate::text::spec_trim;
use crate::text::starts_with_str;
use crate::text::trim_str;

verus! {

/// One visual row of the rendered graph.
#[derive(Debug, Clone)]
pub struct GraphLine {
    /// Extracted short commit identifier; empty for connector-only rows.
    pub commit_id: String,
    /// Graph-drawing prefix: everything before the commit payload.
    pub graph_text: String,
    /// Commit payload: everything from the first commit token onward.
    pub commit_text: String,
    /// Raw parenthesized reference group found in the payload, if any.
    pub refs_text: String,
}

/// First index at or after `i` holding a non-hexadecimal character, or `s.len()`.
pub open spec fn spec_skip_hex(s: Seq<char>, i: int) -> int
    decreases s.len() - i,
    when 0 <= i <= s.len()
{
    if i < s.len() && is_hex_char(s[i]) {
        spec_skip_hex(s, i + 1)
    } else {
        i
    }
}

/// Characterization of [`spec_skip_hex`].
pub proof fn lemma_skip_hex(s: Seq<char>, i: int)
    requires
        0 <= i <= s.len(),
    ensures
        i <= spec_skip_hex(s, i) <= s.len(),
        spec_skip_hex(s, i) < s.len() ==> !is_hex_char(s[spec_skip_hex(s, i)]),
        forall|j: int| i <= j < spec_skip_hex(s, i) ==> is_hex_char(s[j]),
    decreases s.len() - i,
{
    if i < s.len() && is_hex_char(s[i]) {
        lemma_skip_hex(s, i + 1);
    }
}

/// End of the commit token that starts at `i`: an optional leading `'*'`
/// followed by the contiguous hexadecimal run.
pub open spec fn spec_token_end(s: Seq<char>, i: int) -> int
    recommends
        0 <= i < s.len(),
{
    if s[i] == '*' {
        spec_skip_hex(s, i + 1)
    } else {
        spec_skip_hex(s, i)
    }
}

/// Whether position `i` starts a commit payload: a marker or hexadecimal
/// digit whose token is at least seven characters long and is followed by a
/// space or the end of the line.
pub open spec fn is_candidate_at(s: Seq<char>, i: int) -> bool {
    &&& 0 <= i < s.len()
    &&& (s[i] == '*' || is_hex_char(s[i]))
    &&& spec_token_end(s, i) - i >= 7
    &&& (spec_token_end(s, i) == s.len() || s[spec_token_end(s, i)] == ' ')
}

/// The short identifier extracted from a payload that starts at `k`: the
/// hexadecimal token, or empty when the payload starts at a marker or the
/// line has no payload at all.
pub open spec fn spec_commit_id(s: Seq<char>, k: int) -> Seq<char>
    recommends
        0 <= k <= s.len(),
{
    if k < s.len() && is_hex_char(s[k]) {
        s.subrange(k, spec_token_end(s, k))
    } else {
        Seq::empty()
    }
}

/// The raw reference group of a payload: from the first `'('` to the last
/// `')'` inclusive, or empty when no well-formed group exists.
pub open spec fn spec_refs_text(p: Seq<char>) -> Seq<char> {
    let a = spec_find_from(p, '(', 0);
    let b = spec_rfind_below(p, ')', p.len() as int);
    if a < p.len() && 0 <= b && a < b {
        p.subrange(a, b + 1)
    } else {
        Seq::empty()
    }
}

/// The parse relation: `g` is the structured form of the raw line `s`. The
/// clauses pin `g` down uniquely: the prefix and payload partition the line
/// at the first candidate position.
pub open spec fn parses_to(s: Seq<char>, g: GraphLine) -> bool {
    &&& g.graph_text@ + g.commit_text@ == s
    &&& forall|j: int| 0 <= j < g.graph_text@.len() ==> !is_candidate_at(s, j)
    &&& g.commit_text@.len() > 0 ==> is_candidate_at(s, g.graph_text@.len() as int)
    &&& g.commit_id@ == spec_commit_id(s, g.graph_text@.len() as int)
    &&& g.refs_text@ == spec_refs_text(s.subrange(g.graph_text@.len() as int, s.len() as int))
}

/// If a commit token starts at `i`, returns its end.
fn candidate_token_end(line: &str, i: usize) -> (r: Option<usize>)
    requires
        i < line@.len(),
    ensures
        match r {
            Some(e) => is_candidate_at(line@, i as int) && e as int == spec_token_end(
                line@,
                i as int,
            ) && i < e <= line@.len(),
            None => !is_candidate_at(line@, i as int),
        },
{
    let n = line.unicode_len();
    let c = line.get_char(i);
    if !(c == '*' || is_hex_digit(c)) {
        return None;
    }
    let start = if c == '*' {
        i + 1
    } else {
        i
    };
    let mut e = start;
    while e < n && is_hex_digit(line.get_char(e))
        invariant
            n == line@.len(),
            start <= e <= n,
            forall|j: int| start <= j < e ==> is_hex_char(line@[j]),
        decreases n - e,
    {
        e += 1;
    }
    proof {
        lemma_skip_hex(line@, start as int);
        assert(e as int == spec_skip_hex(line@, start as int));
    }
    if e - i >= 7 && (e == n || line.get_char(e) == ' ') {
        Some(e)
    } else {
        None
    }
}

/// The raw parenthesized group of `p`, per [`spec_refs_text`].
fn refs_group(p: &str) -> (r: String)
    ensures
        r@ == spec_refs_text(p@),
{
    let n = p.unicode_len();
    let a = find_char(p, '(');
    proof {
        crate::text::lemma_find_from(p@, '(', 0);
        crate::text::lemma_rfind_below(p@, ')', p@.len() as int);
    }
    if a < n {
        if let Some(b) = rfind_char(p, ')') {
            if a < b {
                return p.substring_char(a, b + 1).to_owned();
            }
        }
    }
    String::new()
}

/// Parses one raw line of graph output into a structured line. The
/// concatenation of the graph prefix and the commit payload always
/// reproduces the input line; a line with no commit token comes back as a
/// pure connector row with an empty payload and identifier.
pub fn parse_graph_line(line: &str) -> (r: GraphLine)
    ensures
        r.graph_text@ + r.commit_text@ == line@,
        parses_to(line@, r),
{
    let n = line.unicode_len();
    let mut i: usize = 0;
    while i < n
        invariant
            n == line@.len(),
            i <= n,
            forall|j: int| 0 <= j < i ==> !is_candidate_at(line@, j),
        decreases n - i,
    {
        if let Some(e) = candidate_token_end(line, i) {
            let graph_text = line.substring_char(0, i).to_owned();
            let commit_text = line.substring_char(i, n).to_owned();
            let commit_id = if is_hex_digit(line.get_char(i)) {
                line.substring_char(i, e).to_owned()
            } else {
                String::new()
            };
            let refs_text = refs_group(line.substring_char(i, n));
            proof {
                assert(graph_text@ + commit_text@ =~= line@);
            }
            return GraphLine { commit_id, graph_text, commit_text, refs_text };
        }
        i += 1;
    }
    let r = GraphLine {
        commit_id: String::new(),
        graph_text: line.to_owned(),
        commit_text: String::new(),
        refs_text: String::new(),
    };
    proof {
        assert(r.graph_text@ + r.commit_text@ =~= line@);
        assert(line@.subrange(n as int, n as int) =~= Seq::<char>::empty());
    }
    r
}

/// Whether a line consists of whitespace alone.
pub open spec fn spec_is_blank(s: Seq<char>) -> bool {
    forall|i: int| 0 <= i < s.len() ==> is_space_char(s[i])
}

/// Executable test for [`spec_is_blank`].
pub fn is_blank_line(s: &str) -> (r: bool)
    ensures
        r == spec_is_blank(s@),
{
    let n = s.unicode_len();
    let mut i: usize = 0;
    while i < n
        invariant
            n == s@.len(),
            i <= n,
            forall|j: int| 0 <= j < i ==> is_space_char(s@[j]),
        decreases n - i,
    {
        if !is_space(s.get_char(i)) {
            return false;
        }
        i += 1;
    }
    true
}

/// The non-blank lines of `lines`, from index `i` on.
pub open spec fn spec_nonblank_from(lines: Seq<Seq<char>>, i: int) -> Seq<Seq<char>>
    decreases lines.len() - i,
    when 0 <= i <= lines.len()
{
    if i >= lines.len() {
        Seq::empty()
    } else {
        (if spec_is_blank(lines[i]) {
            Seq::empty()
        } else {
            seq![lines[i]]
        }) + spec_nonblank_from(lines, i + 1)
    }
}

/// Whether a trimmed reference entry is kept: it begins with the upstream
/// remote prefix, or it is a plain local name with no path separator and no
/// internal whitespace. Head-pointer decorations such as `HEAD -> name` name
/// no single reference and are dropped.
pub open spec fn spec_keep_entry(e: Seq<char>) -> bool {
    spec_starts_with(e, "origin/"@) || (!spec_contains_char(e, '/') && !spec_contains_char(
        e,
        ' ',
    ))
}

/// Executable test for [`spec_keep_entry`].
pub fn keep_entry(e: &str) -> (r: bool)
    ensures
        r == spec_keep_entry(e@),
{
    starts_with_str(e, "origin/") || (!contains_char(e, '/') && !contains_char(e, ' '))
}

/// The kept entries of the comma-separated text `s`, scanned from position
/// `i` with `cur` the part of the current entry read so far: each entry is
/// trimmed and kept only if [`spec_keep_entry`] holds of it.
pub open spec fn spec_entries_acc(s: Seq<char>, i: int, cur: Seq<char>) -> Seq<Seq<char>>
    decreases s.len() - i,
    when 0 <= i <= s.len()
{
    if i >= s.len() {
        if spec_keep_entry(spec_trim(cur)) {
            seq![spec_trim(cur)]
        } else {
            Seq::empty()
        }
    } else if s[i] == ',' {
        (if spec_keep_entry(spec_trim(cur)) {
            seq![spec_trim(cur)]
        } else {
            Seq::empty()
        }) + spec_entries_acc(s, i + 1, Seq::empty())
    } else {
        spec_entries_acc(s, i + 1, cur.push(s[i]))
    }
}

/// All trimmed entries of the comma-separated text `s`, kept or not.
pub open spec fn spec_all_entries_acc(s: Seq<char>, i: int, cur: Seq<char>) -> Seq<Seq<char>>
    decreases s.len() - i,
    when 0 <= i <= s.len()
{
    if i >= s.len() {
        seq![spec_trim(cur)]
    } else if s[i] == ',' {
        seq![spec_trim(cur)] + spec_all_entries_acc(s, i + 1, Seq::empty())
    } else {
        spec_all_entries_acc(s, i + 1, cur.push(s[i]))
    }
}

/// The reference entries extracted from a raw line: the trimmed,
/// kept entries of the text between the first `'('` and the last `')'`.
pub open spec fn spec_ref_entries(line: Seq<char>) -> Seq<Seq<char>> {
    let a = spec_find_from(line, '(', 0);
    let b = spec_rfind_below(line, ')', line.len() as int);
    if a < line.len() && 0 <= b && a + 1 <= b {
        spec_entries_acc(line.subrange(a + 1, b), 0, Seq::empty())
    } else {
        Seq::empty()
    }
}

/// The trimmed comma-split entries of the group of `line`, unfiltered.
pub open spec fn spec_all_ref_entries(line: Seq<char>) -> Seq<Seq<char>> {
    let a = spec_find_from(line, '(', 0);
    let b = spec_rfind_below(line, ')', line.len() as int);
    if a < line.len() && 0 <= b && a + 1 <= b {
        spec_all_entries_acc(line.subrange(a + 1, b), 0, Seq::empty())
    } else {
        Seq::empty()
    }
}

/// Extracts the reference entries named by the decoration group of a raw
/// line, in order of appearance.
pub fn extract_refs_from_line(line: &str) -> (r: Vec<String>)
    ensures
        r.deep_view() == spec_ref_entries(line@),
{
    let n = line.unicode_len();
    let a = find_char(line, '(');
    proof {
        crate::text::lemma_find_from(line@, '(', 0);
        crate::text::lemma_rfind_below(line@, ')', line@.len() as int);
    }
    let mut result: Vec<String> = Vec::new();
    proof {
        assert(result.deep_view() =~= Seq::<Seq<char>>::empty());
    }
    if a >= n {
        return result;
    }
    let b = match rfind_char(line, ')') {
        Some(b) => b,
        None => {
            return result;
        },
    };
    if a + 1 > b {
        return result;
    }
    let inner = line.substring_char(a + 1, b);
    let m = inner.unicode_len();
    let mut i: usize = 0;
    let mut seg_start: usize = 0;
    proof {
        assert(inner@.subrange(0, 0) =~= Seq::<char>::empty());
        assert(Seq::<Seq<char>>::empty() + spec_entries_acc(inner@, 0, Seq::empty())
            =~= spec_entries_acc(inner@, 0, Seq::empty()));
    }
    while i < m
        invariant
            m == inner@.len(),
            seg_start <= i <= m,
            spec_entries_acc(inner@, 0, Seq::empty()) == result.deep_view() + spec_entries_acc(
                inner@,
                i as int,
                inner@.subrange(seg_start as int, i as int),
            ),
        decreases m - i,
    {
        let c = inner.get_char(i);
        if c == ',' {
            let ghost cur = inner@.subrange(seg_start as int, i as int);
            let ghost hd: Seq<Seq<char>> = if spec_keep_entry(spec_trim(cur)) {
                seq![spec_trim(cur)]
            } else {
                Seq::empty()
            };
            let ghost rest = spec_entries_acc(inner@, i + 1, Seq::<char>::empty());
            proof {
                assert(inner@.subrange(i + 1, i + 1) =~= Seq::<char>::empty());
                assert(spec_entries_acc(inner@, i as int, cur) == hd + rest);
            }
            let seg = inner.substring_char(seg_start, i);
            let t = trim_str(seg);
            let ghost pre = result.deep_view();
            if keep_entry(t) {
                result.push(t.to_owned());
                proof {
                    assert(result.deep_view() =~= pre.push(t@));
                    assert(pre.push(t@) =~= pre + hd);
                }
            } else {
                proof {
                    assert(pre + hd =~= pre);
                }
            }
            proof {
                assert((pre + hd) + rest =~= pre + (hd + rest));
            }
            seg_start = i + 1;
        } else {
            proof {
                assert(inner@.subrange(seg_start as int, i + 1) =~= inner@.subrange(
                    seg_start as int,
                    i as int,
                ).push(inner@[i as int]));
            }
        }
        i += 1;
    }
    let ghost cur = inner@.subrange(seg_start as int, m as int);
    let ghost hd: Seq<Seq<char>> = if spec_keep_entry(spec_trim(cur)) {
        seq![spec_trim(cur)]
    } else {
        Seq::empty()
    };
    proof {
        assert(spec_entries_acc(inner@, m as int, cur) == hd);
    }
    let seg = inner.substring_char(seg_start, m);
    let t = trim_str(seg);
    let ghost pre = result.deep_view();
    if keep_entry(t) {
        result.push(t.to_owned());
        proof {
            assert(result.deep_view() =~= pre.push(t@));
            assert(pre.push(t@) =~= pre + hd);
        }
    } else {
        proof {
            assert(pre + hd =~= pre);
        }
    }
    result
}

/// Whether `a` is a subsequence of `b`: every element of `a` occurs in `b`,
/// in the same order.
pub open spec fn is_subsequence(a: Seq<Seq<char>>, b: Seq<Seq<char>>) -> bool
    decreases b.len(),
{
    if a.len() == 0 {
        true
    } else if b.len() == 0 {
        false
    } else {
        (a[0] == b[0] && is_subsequence(a.drop_first(), b.drop_first())) || is_subsequence(
            a,
            b.drop_first(),
        )
    }
}

proof fn lemma_entries_acc_subsequence(s: Seq<char>, i: int, cur: Seq<char>)
    requires
        0 <= i <= s.len(),
    ensures
        is_subsequence(spec_entries_acc(s, i, cur), spec_all_entries_acc(s, i, cur)),
    decreases s.len() - i,
{
    if i >= s.len() {
        if spec_keep_entry(spec_trim(cur)) {
            assert(is_subsequence(Seq::<Seq<char>>::empty(), Seq::<Seq<char>>::empty()));
            assert(seq![spec_trim(cur)].drop_first() =~= Seq::<Seq<char>>::empty());
            assert(is_subsequence(seq![spec_trim(cur)], seq![spec_trim(cur)]));
        }
    } else if s[i] == ',' {
        lemma_entries_acc_subsequence(s, i + 1, Seq::empty());
        let hd = seq![spec_trim(cur)];
        let kept = spec_entries_acc(s, i + 1, Seq::empty());
        let all = spec_all_entries_acc(s, i + 1, Seq::empty());
        if spec_keep_entry(spec_trim(cur)) {
            assert(is_subsequence(hd + kept, hd + all)) by {
                assert((hd + kept)[0] == (hd + all)[0]);
                assert((hd + kept).drop_first() =~= kept);
                assert((hd + all).drop_first() =~= all);
                assert(is_subsequence(kept, all));
            }
            assert(spec_entries_acc(s, i, cur) == hd + kept);
            assert(spec_all_entries_acc(s, i, cur) == hd + all);
        } else {
            assert(is_subsequence(kept, hd + all)) by {
                assert((hd + all).drop_first() =~= all);
                assert(is_subsequence(kept, all));
                if kept.len() > 0 {
                    assert(is_subsequence(kept, (hd + all).drop_first()));
                }
            }
            assert(Seq::<Seq<char>>::empty() + kept =~= kept);
            assert(spec_entries_acc(s, i, cur) == Seq::<Seq<char>>::empty() + kept);
            assert(spec_all_entries_acc(s, i, cur) == hd + all);
        }
    } else {
        lemma_entries_acc_subsequence(s, i + 1, cur.push(s[i]));
    }
}

/// The extracted reference entries of any raw line are a subsequence —
/// order preserved, nothing invented — of the trimmed comma-split entries
/// of the line's decoration group.
pub proof fn lemma_ref_entries_subsequence(line: Seq<char>)
    ensures
        is_subsequence(spec_ref_entries(line), spec_all_ref_entries(line)),
{
    let a = spec_find_from(line, '(', 0);
    let b = spec_rfind_below(line, ')', line.len() as int);
    crate::text::lemma_find_from(line, '(', 0);
    crate::text::lemma_rfind_below(line, ')', line.len() as int);
    if a < line.len() && 0 <= b && a + 1 <= b {
        lemma_entries_acc_subsequence(line.subrange(a + 1, b), 0, Seq::empty());
    }
}

} // verus!
