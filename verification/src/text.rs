//! Verified character-level utilities over `&str`, used by the graph-line
//! parser and the colorizer.

use vstd::prelude::*;

verus! {

/// Whitespace as it occurs in the tool's graph output.
pub open spec fn is_space_char(c: char) -> bool {
    c == ' ' || c == '\t' || c == '\r' || c == '\n'
}

/// Executable test for [`is_space_char`].
pub fn is_space(c: char) -> (r: bool)
    ensures
        r == is_space_char(c),
{
    c == ' ' || c == '\t' || c == '\r' || c == '\n'
}

/// Whether `p` is a prefix of `s`.
pub open spec fn spec_starts_with(s: Seq<char>, p: Seq<char>) -> bool {
    p.len() <= s.len() && s.subrange(0, p.len() as int) == p
}

/// Character-by-character equality of two string slices.
pub fn str_eq(a: &str, b: &str) -> (r: bool)
    ensures
        r == (a@ == b@),
{
    let na = a.unicode_len();
    let nb = b.unicode_len();
    if na != nb {
        assert(a@ != b@) by {
            assert(a@.len() != b@.len());
        }
        return false;
    }
    let mut i: usize = 0;
    while i < na
        invariant
            na == a@.len(),
            na == b@.len(),
            i <= na,
            forall|j: int| 0 <= j < i ==> a@[j] == b@[j],
        decreases na - i,
    {
        if a.get_char(i) != b.get_char(i) {
            return false;
        }
        i += 1;
    }
    proof {
        assert(a@ =~= b@);
    }
    true
}

/// Whether `s` begins with the prefix `p`.
pub fn starts_with_str(s: &str, p: &str) -> (r: bool)
    ensures
        r == spec_starts_with(s@, p@),
{
    let ns = s.unicode_len();
    let np = p.unicode_len();
    if np > ns {
        return false;
    }
    let mut i: usize = 0;
    while i < np
        invariant
            ns == s@.len(),
            np == p@.len(),
            np <= ns,
            i <= np,
            forall|j: int| 0 <= j < i ==> s@[j] == p@[j],
        decreases np - i,
    {
        if s.get_char(i) != p.get_char(i) {
            assert(s@.subrange(0, np as int)[i as int] != p@[i as int]);
            return false;
        }
        i += 1;
    }
    proof {
        assert(s@.subrange(0, np as int) =~= p@);
    }
    true
}

/// Whether `c` occurs in `s`.
pub open spec fn spec_contains_char(s: Seq<char>, c: char) -> bool {
    exists|i: int| 0 <= i < s.len() && s[i] == c
}

/// Executable test for [`spec_contains_char`].
pub fn contains_char(s: &str, c: char) -> (r: bool)
    ensures
        r == spec_contains_char(s@, c),
{
    let n = s.unicode_len();
    let mut i: usize = 0;
    while i < n
        invariant
            n == s@.len(),
            i <= n,
            forall|j: int| 0 <= j < i ==> s@[j] != c,
        decreases n - i,
    {
        if s.get_char(i) == c {
            return true;
        }
        i += 1;
    }
    false
}

/// Whether `needle` occurs contiguously inside `hay`.
pub open spec fn spec_contains_seq(hay: Seq<char>, needle: Seq<char>) -> bool {
    exists|i: int|
        0 <= i && i + needle.len() <= hay.len() && #[trigger] hay.subrange(
            i,
            i + needle.len() as int,
        ) == needle
}

/// Executable test for [`spec_contains_seq`].
pub fn contains_str(hay: &str, needle: &str) -> (r: bool)
    ensures
        r == spec_contains_seq(hay@, needle@),
{
    let nh = hay.unicode_len();
    let nn = needle.unicode_len();
    if nn > nh {
        return false;
    }
    if nn == 0 {
        proof {
            assert(hay@.subrange(0, 0 + needle@.len() as int) =~= needle@);
        }
        return true;
    }
    let mut i: usize = 0;
    while i <= nh - nn
        invariant
            nh == hay@.len(),
            nn == needle@.len(),
            0 < nn <= nh,
            i <= nh - nn + 1,
            forall|k: int|
                0 <= k < i ==> #[trigger] hay@.subrange(k, k + needle@.len() as int) != needle@,
        decreases nh - i,
    {
        let mut j: usize = 0;
        let mut matched = true;
        while j < nn
            invariant
                nh == hay@.len(),
                nn == needle@.len(),
                i + nn <= nh,
                j <= nn,
                matched ==> forall|t: int| 0 <= t < j ==> hay@[i + t] == needle@[t],
                !matched ==> hay@.subrange(i as int, i + nn as int) != needle@,
            ensures
                matched ==> forall|t: int| 0 <= t < nn ==> hay@[i + t] == needle@[t],
                !matched ==> hay@.subrange(i as int, i + nn as int) != needle@,
            decreases nn - j,
        {
            if hay.get_char(i + j) != needle.get_char(j) {
                assert(hay@.subrange(i as int, i + nn as int)[j as int] != needle@[j as int]);
                matched = false;
                break;
            }
            j += 1;
        }
        if matched {
            proof {
                assert(hay@.subrange(i as int, i + nn as int) =~= needle@);
            }
            return true;
        }
        i += 1;
    }
    false
}

/// First index at or after `i` where `c` occurs, or `s.len()` if it does not.
pub open spec fn spec_find_from(s: Seq<char>, c: char, i: int) -> int
    decreases s.len() - i,
    when 0 <= i <= s.len()
{
    if i >= s.len() {
        s.len() as int
    } else if s[i] == c {
        i
    } else {
        spec_find_from(s, c, i + 1)
    }
}

/// Characterization of [`spec_find_from`].
pub proof fn lemma_find_from(s: Seq<char>, c: char, i: int)
    requires
        0 <= i <= s.len(),
    ensures
        i <= spec_find_from(s, c, i) <= s.len(),
        spec_find_from(s, c, i) < s.len() ==> s[spec_find_from(s, c, i)] == c,
        forall|j: int| i <= j < spec_find_from(s, c, i) ==> s[j] != c,
    decreases s.len() - i,
{
    if i < s.len() && s[i] != c {
        lemma_find_from(s, c, i + 1);
    }
}

/// Last index strictly below `i` where `c` occurs, or `-1` if there is none.
pub open spec fn spec_rfind_below(s: Seq<char>, c: char, i: int) -> int
    decreases i,
    when 0 <= i <= s.len()
{
    if i <= 0 {
        -1
    } else if s[i - 1] == c {
        i - 1
    } else {
        spec_rfind_below(s, c, i - 1)
    }
}

/// Characterization of [`spec_rfind_below`].
pub proof fn lemma_rfind_below(s: Seq<char>, c: char, i: int)
    requires
        0 <= i <= s.len(),
    ensures
        -1 <= spec_rfind_below(s, c, i) < i,
        spec_rfind_below(s, c, i) >= 0 ==> s[spec_rfind_below(s, c, i)] == c,
        forall|j: int| spec_rfind_below(s, c, i) < j < i ==> s[j] != c,
    decreases i,
{
    if i > 0 && s[i - 1] != c {
        lemma_rfind_below(s, c, i - 1);
    }
}

/// First index of `c` in `s`, or the length of `s` if absent.
pub fn find_char(s: &str, c: char) -> (r: usize)
    ensures
        r as int == spec_find_from(s@, c, 0),
{
    let n = s.unicode_len();
    let mut i: usize = 0;
    while i < n
        invariant
            n == s@.len(),
            i <= n,
            forall|j: int| 0 <= j < i ==> s@[j] != c,
        decreases n - i,
    {
        if s.get_char(i) == c {
            proof {
                lemma_find_from(s@, c, 0);
            }
            return i;
        }
        i += 1;
    }
    proof {
        lemma_find_from(s@, c, 0);
    }
    n
}

/// Index one past the last occurrence of `c` in `s`, or `None` if absent.
pub fn rfind_char(s: &str, c: char) -> (r: Option<usize>)
    ensures
        match r {
            Some(p) => p as int == spec_rfind_below(s@, c, s@.len() as int),
            None => spec_rfind_below(s@, c, s@.len() as int) == -1,
        },
{
    let n = s.unicode_len();
    let mut i: usize = n;
    while i > 0
        invariant
            n == s@.len(),
            i <= n,
            forall|j: int| i <= j < n ==> s@[j] != c,
        decreases i,
    {
        i -= 1;
        if s.get_char(i) == c {
            proof {
                lemma_rfind_below(s@, c, s@.len() as int);
            }
            return Some(i);
        }
    }
    proof {
        lemma_rfind_below(s@, c, s@.len() as int);
    }
    None
}

/// First index at or after `i` holding a non-space character, or `s.len()`.
pub open spec fn spec_skip_spaces(s: Seq<char>, i: int) -> int
    decreases s.len() - i,
    when 0 <= i <= s.len()
{
    if i < s.len() && is_space_char(s[i]) {
        spec_skip_spaces(s, i + 1)
    } else {
        i
    }
}

/// Characterization of [`spec_skip_spaces`].
pub proof fn lemma_skip_spaces(s: Seq<char>, i: int)
    requires
        0 <= i <= s.len(),
    ensures
        i <= spec_skip_spaces(s, i) <= s.len(),
        spec_skip_spaces(s, i) < s.len() ==> !is_space_char(s[spec_skip_spaces(s, i)]),
        forall|j: int| i <= j < spec_skip_spaces(s, i) ==> is_space_char(s[j]),
    decreases s.len() - i,
{
    if i < s.len() && is_space_char(s[i]) {
        lemma_skip_spaces(s, i + 1);
    }
}

/// Index one past the last non-space character strictly below `j`, or `0`.
pub open spec fn spec_rskip_spaces(s: Seq<char>, j: int) -> int
    decreases j,
    when 0 <= j <= s.len()
{
    if j > 0 && is_space_char(s[j - 1]) {
        spec_rskip_spaces(s, j - 1)
    } else {
        j
    }
}

/// Characterization of [`spec_rskip_spaces`].
pub proof fn lemma_rskip_spaces(s: Seq<char>, j: int)
    requires
        0 <= j <= s.len(),
    ensures
        0 <= spec_rskip_spaces(s, j) <= j,
        spec_rskip_spaces(s, j) > 0 ==> !is_space_char(s[spec_rskip_spaces(s, j) - 1]),
        forall|t: int| spec_rskip_spaces(s, j) <= t < j ==> is_space_char(s[t]),
    decreases j,
{
    if j > 0 && is_space_char(s[j - 1]) {
        lemma_rskip_spaces(s, j - 1);
    }
}

/// `s` with leading and trailing spaces removed.
pub open spec fn spec_trim(s: Seq<char>) -> Seq<char> {
    let a = spec_skip_spaces(s, 0);
    let b = spec_rskip_spaces(s, s.len() as int);
    if a < b {
        s.subrange(a, b)
    } else {
        Seq::empty()
    }
}

/// `s` without leading and trailing whitespace.
pub fn trim_str<'a>(s: &'a str) -> (r: &'a str)
    ensures
        r@ == spec_trim(s@),
{
    let n = s.unicode_len();
    let mut a: usize = 0;
    while a < n && is_space(s.get_char(a))
        invariant
            n == s@.len(),
            a <= n,
            forall|j: int| 0 <= j < a ==> is_space_char(s@[j]),
        decreases n - a,
    {
        a += 1;
    }
    proof {
        lemma_skip_spaces(s@, 0);
        assert(a as int == spec_skip_spaces(s@, 0));
    }
    let mut b: usize = n;
    while b > 0 && is_space(s.get_char(b - 1))
        invariant
            n == s@.len(),
            b <= n,
            forall|j: int| b <= j < n ==> is_space_char(s@[j]),
        decreases b,
    {
        b -= 1;
    }
    proof {
        lemma_rskip_spaces(s@, s@.len() as int);
        assert(b as int == spec_rskip_spaces(s@, s@.len() as int));
    }
    if a < b {
        s.substring_char(a, b)
    } else {
        proof {
            reveal_strlit("");
            assert(""@ =~= Seq::<char>::empty());
        }
        ""
    }
}

/// The whitespace-separated tokens of `s`, scanned from position `i` with
/// `cur` the part of the current token read so far. Tokens are never empty.
pub open spec fn spec_tokens_acc(s: Seq<char>, i: int, cur: Seq<char>) -> Seq<Seq<char>>
    decreases s.len() - i,
    when 0 <= i <= s.len()
{
    if i >= s.len() {
        if cur.len() > 0 {
            seq![cur]
        } else {
            Seq::empty()
        }
    } else if is_space_char(s[i]) {
        (if cur.len() > 0 {
            seq![cur]
        } else {
            Seq::empty()
        }) + spec_tokens_acc(s, i + 1, Seq::empty())
    } else {
        spec_tokens_acc(s, i + 1, cur.push(s[i]))
    }
}

/// The whitespace-separated tokens of `s`.
pub open spec fn spec_tokens(s: Seq<char>) -> Seq<Seq<char>> {
    spec_tokens_acc(s, 0, Seq::empty())
}

/// Splits `s` at whitespace into its non-empty tokens, in order.
pub fn split_tokens(s: &str) -> (r: Vec<String>)
    ensures
        r.deep_view() == spec_tokens(s@),
{
    let n = s.unicode_len();
    let mut result: Vec<String> = Vec::new();
    let mut i: usize = 0;
    let mut seg_start: usize = 0;
    proof {
        assert(result.deep_view() =~= Seq::<Seq<char>>::empty());
        assert(s@.subrange(0, 0) =~= Seq::<char>::empty());
        assert(Seq::<Seq<char>>::empty() + spec_tokens(s@) =~= spec_tokens(s@));
    }
    while i < n
        invariant
            n == s@.len(),
            seg_start <= i <= n,
            spec_tokens(s@) == result.deep_view() + spec_tokens_acc(
                s@,
                i as int,
                s@.subrange(seg_start as int, i as int),
            ),
        decreases n - i,
    {
        let c = s.get_char(i);
        if is_space(c) {
            let ghost cur = s@.subrange(seg_start as int, i as int);
            let ghost hd: Seq<Seq<char>> = if cur.len() > 0 {
                seq![cur]
            } else {
                Seq::empty()
            };
            let ghost rest = spec_tokens_acc(s@, i + 1, Seq::<char>::empty());
            proof {
                assert(s@.subrange(i + 1, i + 1) =~= Seq::<char>::empty());
                assert(spec_tokens_acc(s@, i as int, cur) == hd + rest);
            }
            let ghost pre = result.deep_view();
            if seg_start < i {
                let tok = s.substring_char(seg_start, i);
                result.push(tok.to_owned());
                proof {
                    assert(result.deep_view() =~= pre.push(tok@));
                    assert(pre.push(tok@) =~= pre + hd);
                }
            } else {
                proof {
                    assert(pre + hd =~= pre);
                }
            }
            proof {
                assert((pre + hd) + rest =~= pre + (hd + rest));
            }
            seg_start = i + 1;
        } else {
            proof {
                assert(s@.subrange(seg_start as int, i + 1) =~= s@.subrange(
                    seg_start as int,
                    i as int,
                ).push(s@[i as int]));
            }
        }
        i += 1;
    }
    let ghost cur = s@.subrange(seg_start as int, n as int);
    let ghost hd: Seq<Seq<char>> = if cur.len() > 0 {
        seq![cur]
    } else {
        Seq::empty()
    };
    proof {
        assert(spec_tokens_acc(s@, n as int, cur) == hd);
    }
    let ghost pre = result.deep_view();
    if seg_start < n {
        let tok = s.substring_char(seg_start, n);
        result.push(tok.to_owned());
        proof {
            assert(result.deep_view() =~= pre.push(tok@));
            assert(pre.push(tok@) =~= pre + hd);
        }
    } else {
        proof {
            assert(pre + hd =~= pre);
        }
    }
    result
}

/// Number of `'\n'` characters in `s`.
pub open spec fn spec_count_newlines(s: Seq<char>) -> int
    decreases s.len(),
{
    if s.len() == 0 {
        0
    } else {
        spec_count_newlines(s.drop_last()) + if s.last() == '\n' {
            1int
        } else {
            0int
        }
    }
}

/// Number of lines in `s`, counted as the `lines` iterator of `str` does: a
/// final newline ends the last line rather than opening an empty one.
pub open spec fn spec_line_count(s: Seq<char>) -> int {
    if s.len() == 0 {
        0
    } else {
        spec_count_newlines(s) + if s.last() == '\n' {
            0int
        } else {
            1int
        }
    }
}

proof fn lemma_count_newlines_bound(s: Seq<char>)
    ensures
        0 <= spec_count_newlines(s) <= s.len(),
    decreases s.len(),
{
    if s.len() > 0 {
        lemma_count_newlines_bound(s.drop_last());
    }
}

/// Number of lines in `s`.
pub fn count_lines(s: &str) -> (r: usize)
    ensures
        r as int == spec_line_count(s@),
{
    let n = s.unicode_len();
    let mut cnt: usize = 0;
    let mut i: usize = 0;
    while i < n
        invariant
            n == s@.len(),
            i <= n,
            cnt as int == spec_count_newlines(s@.subrange(0, i as int)),
            cnt <= i,
        decreases n - i,
    {
        proof {
            lemma_count_newlines_bound(s@.subrange(0, i as int));
            assert(s@.subrange(0, i + 1).drop_last() =~= s@.subrange(0, i as int));
        }
        if s.get_char(i) == '\n' {
            cnt += 1;
        }
        i += 1;
    }
    proof {
        assert(s@.subrange(0, n as int) =~= s@);
    }
    if n == 0 {
        0
    } else if s.get_char(n - 1) == '\n' {
        cnt
    } else {
        proof {
            lemma_count_newlines_bound(s@.drop_last());
        }
        cnt + 1
    }
}

} // verus!
