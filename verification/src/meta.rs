//! The file metadata augmenter: turning a looked-up size and modification
//! time into the advisory fields a hunk carries, degrading to placeholder
//! values whenever the lookup fails.

use vstd::prelude::*;

use crate::hunks::{unknown_stamp, GitDiffResult, GitHunk, HunkModel, HunkStats};
use crate::text::str_eq;

verus! {

/// The RFC 3339 rendering, at the fixed zero offset, of a Unix timestamp.
pub uninterp spec fn rfc3339_utc(secs: int) -> Seq<char>;

/// Relies on chrono's `DateTime::<Utc>::from_timestamp` (`None` only for an
/// out-of-range timestamp, no panic) and `DateTime::to_rfc3339`: for an
/// in-range timestamp the rendered text is a function of the timestamp
/// alone.
#[verifier::external_body]
fn rfc3339_of_timestamp(secs: i64) -> (r: Option<String>)
    ensures
        r matches Some(t) ==> t@ == rfc3339_utc(secs as int),
{
    chrono::DateTime::<chrono::Utc>::from_timestamp(secs, 0).map(|dt| dt.to_rfc3339())
}

/// The size and modified fields reported for a file: the looked-up size
/// with the rendered timestamp when both are available, and the
/// placeholder pair otherwise. A timestamp the calendar cannot render
/// degrades to the placeholder text as a failed lookup would.
pub fn file_stat_fields(stat: Option<(u64, i64)>) -> (r: (u64, String))
    ensures
        stat is None ==> r.0 == 0 && r.1@ == unknown_stamp(),
        stat matches Some((size, secs)) ==> r.0 == size && (r.1@ == rfc3339_utc(secs as int)
            || r.1@ == unknown_stamp()),
{
    match stat {
        None => (0, String::from_str("unknown")),
        Some((size, secs)) => match rfc3339_of_timestamp(secs) {
            Some(t) => (size, t),
            None => (size, String::from_str("unknown")),
        },
    }
}

/// The path a file's metadata is looked up at: the base directory and the
/// file name joined by a slash.
pub fn stat_path(base: &str, file_name: &str) -> (r: String)
    ensures
        r@ == base@ + "/"@ + file_name@,
{
    let r = base.to_owned().concat("/").concat(file_name);
    proof {
        assert(r@ =~= base@ + "/"@ + file_name@);
    }
    r
}

/// `h` with its advisory metadata replaced when it belongs to `name`, and
/// untouched otherwise.
pub open spec fn with_stat(h: HunkModel, name: Seq<char>, size: int, modified: Seq<char>) -> HunkModel {
    if h.file_name == name {
        HunkModel { size, modified, ..h }
    } else {
        h
    }
}

/// Record looked-up metadata on every hunk that belongs to `file_name`,
/// leaving all other hunks and the totals unchanged.
pub fn apply_file_stats(result: GitDiffResult, file_name: &str, size: u64, modified: &str) -> (r:
    GitDiffResult)
    ensures
        r@.total == result@.total,
        r@.hunks.len() == result@.hunks.len(),
        forall|t: int|
            0 <= t < result@.hunks.len() ==> r@.hunks[t] == with_stat(
                #[trigger] result@.hunks[t],
                file_name@,
                size as int,
                modified@,
            ),
{
    let GitDiffResult { hunks, total_stats } = result;
    let ghost old_hv = hunks.deep_view();
    let mut rem = hunks;
    let mut out: Vec<GitHunk> = Vec::new();
    proof {
        assert(rem.deep_view() =~= old_hv.skip(0));
    }
    let mut t: usize = 0;
    while rem.len() > 0
        invariant
            0 <= t <= old_hv.len(),
            t == out@.len(),
            t + rem@.len() == old_hv.len(),
            rem.deep_view() == old_hv.skip(t as int),
            forall|u: int|
                0 <= u < t ==> out.deep_view()[u] == with_stat(
                    #[trigger] old_hv[u],
                    file_name@,
                    size as int,
                    modified@,
                ),
        decreases rem@.len(),
    {
        let ghost pre_rem = rem.deep_view();
        let ghost pre_vec = rem@;
        let h = rem.remove(0);
        proof {
            assert(h == pre_vec[0]);
            assert(pre_rem[0] == pre_vec[0].deep_view());
            assert(h@ == old_hv[t as int]);
            assert(forall|u: int|
                0 <= u < rem@.len() ==> #[trigger] rem.deep_view()[u] == pre_rem[u + 1]);
            assert(rem.deep_view() =~= old_hv.skip(t as int + 1));
        }
        let ghost pre = out.deep_view();
        if str_eq(h.file_name.as_str(), file_name) {
            let updated = GitHunk {
                stats: HunkStats {
                    added: h.stats.added,
                    removed: h.stats.removed,
                    size,
                    modified: modified.to_owned(),
                },
                ..h
            };
            out.push(updated);
        } else {
            out.push(h);
        }
        proof {
            assert(out.deep_view()[t as int] == with_stat(
                old_hv[t as int],
                file_name@,
                size as int,
                modified@,
            ));
            assert(forall|u: int| 0 <= u < t ==> out.deep_view()[u] == pre[u]);
        }
        t = out.len();
    }
    let r = GitDiffResult { hunks: out, total_stats };
    r
}

} // verus!
