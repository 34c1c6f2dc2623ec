//! Commit records: resolution of short identifiers by prefix and
//! construction of full commit data with the documented defaults.

use vstd::prelude::*;

use crate::text::spec_starts_with;
use crate::text::starts_with_str;

verus! {

/// One resolved commit.
#[derive(Debug, Clone)]
pub struct Commit {
    /// Full identifier.
    pub id: String,
    /// Abbreviated identifier, as it appeared in the graph output.
    pub short_id: String,
    /// Full commit message.
    pub message: String,
    /// Author display name.
    pub author: String,
    /// Author timestamp, in seconds since the epoch.
    pub timestamp_secs: i64,
    /// Full identifiers of the parent commits, in order.
    pub parents: Vec<String>,
    /// Reference names decorating the commit.
    pub refs: Vec<String>,
}

/// Whether a seconds-since-epoch value is representable as a calendar
/// instant by the date-time library.
pub uninterp spec fn ts_in_range(secs: i64) -> bool;

/// Relies on chrono's `DateTime::<Utc>::from_timestamp`: it returns `Some`
/// exactly on the in-range seconds values, a function of its argument alone.
#[verifier::external_body]
fn timestamp_representable(secs: i64) -> (r: bool)
    ensures
        r == ts_in_range(secs),
{
    chrono::DateTime::from_timestamp(secs, 0).is_some()
}

/// Builds a commit record, applying the documented defaults: a missing
/// message becomes empty, a missing author name becomes `Unknown`, and a
/// timestamp the date-time library cannot represent becomes `now_secs`.
pub fn new_commit(
    id: String,
    short_id: String,
    message: Option<String>,
    author: Option<String>,
    timestamp_secs: i64,
    now_secs: i64,
    parents: Vec<String>,
    refs: Vec<String>,
) -> (c: Commit)
    ensures
        c.id == id,
        c.short_id == short_id,
        c.message@ == match message {
            Some(m) => m@,
            None => Seq::<char>::empty(),
        },
        c.author@ == match author {
            Some(a) => a@,
            None => "Unknown"@,
        },
        c.timestamp_secs == if ts_in_range(timestamp_secs) {
            timestamp_secs
        } else {
            now_secs
        },
        c.parents == parents,
        c.refs == refs,
{
    let message = match message {
        Some(m) => m,
        None => {
            proof {
                reveal_strlit("");
                assert(""@ =~= Seq::<char>::empty());
            }
            "".to_owned()
        },
    };
    let author = match author {
        Some(a) => a,
        None => "Unknown".to_owned(),
    };
    let ts = if timestamp_representable(timestamp_secs) {
        timestamp_secs
    } else {
        now_secs
    };
    Commit { id, short_id, message, author, timestamp_secs: ts, parents, refs }
}

/// First element of `ids` that begins with `prefix`, or its index `ids.len()`.
pub open spec fn spec_first_with_prefix(ids: Seq<Seq<char>>, prefix: Seq<char>, i: int) -> int
    decreases ids.len() - i,
    when 0 <= i <= ids.len()
{
    if i >= ids.len() {
        ids.len() as int
    } else if spec_starts_with(ids[i], prefix) {
        i
    } else {
        spec_first_with_prefix(ids, prefix, i + 1)
    }
}

/// Searches a most-recent-first list of full identifiers for the first one
/// that begins with `prefix`; the fallback resolution path when the
/// repository cannot expand a short identifier directly.
pub fn find_id_by_prefix(ids: &Vec<String>, prefix: &str) -> (r: Option<String>)
    ensures
        match r {
            Some(full) => {
                let k = spec_first_with_prefix(ids.deep_view(), prefix@, 0);
                &&& k < ids.deep_view().len()
                &&& full@ == ids.deep_view()[k]
                &&& spec_starts_with(full@, prefix@)
            },
            None => spec_first_with_prefix(ids.deep_view(), prefix@, 0) == ids.deep_view().len(),
        },
{
    let n = ids.len();
    let ghost iv = ids.deep_view();
    let mut i: usize = 0;
    while i < n
        invariant
            n == ids@.len(),
            iv == ids.deep_view(),
            iv.len() == n,
            i <= n,
            forall|j: int| 0 <= j < i ==> !spec_starts_with(iv[j], prefix@),
        decreases n - i,
    {
        proof {
            assert(ids@[i as int]@ == iv[i as int]);
        }
        if starts_with_str(ids[i].as_str(), prefix) {
            proof {
                lemma_first_with_prefix(iv, prefix@, 0);
            }
            return Some(ids[i].clone());
        }
        i += 1;
    }
    proof {
        lemma_first_with_prefix(iv, prefix@, 0);
    }
    None
}

/// Characterization of [`spec_first_with_prefix`].
pub proof fn lemma_first_with_prefix(ids: Seq<Seq<char>>, prefix: Seq<char>, i: int)
    requires
        0 <= i <= ids.len(),
    ensures
        i <= spec_first_with_prefix(ids, prefix, i) <= ids.len(),
        spec_first_with_prefix(ids, prefix, i) < ids.len() ==> spec_starts_with(
            ids[spec_first_with_prefix(ids, prefix, i)],
            prefix,
        ),
        forall|j: int|
            i <= j < spec_first_with_prefix(ids, prefix, i) ==> !spec_starts_with(ids[j], prefix),
    decreases ids.len() - i,
{
    if i < ids.len() && !spec_starts_with(ids[i], prefix) {
        lemma_first_with_prefix(ids, prefix, i + 1);
    }
}

} // verus!
