//! The decisions of the playlist content provider: whether a stored copy is
//! fresh enough, and whether a source is fetched over the network.

use vstd::prelude::*;
use crate::playlist::{matches_at, occurs_at};
use crate::text::chars_of;

verus! {

/// How long a stored copy of a playlist stays fresh when no setting says
/// otherwise, in hours.
pub const DEFAULT_CACHE_HOURS: i64 = 24;

/// Whether a copy stored at `stored_at` is fresh at `now` (both in seconds)
/// when copies stay fresh for `cache_hours` hours.
pub open spec fn fresh(stored_at: int, now: int, cache_hours: int) -> bool {
    now - stored_at < cache_hours * 3600
}

/// Whether a copy stored at `stored_at` is still fresh at `now`.
pub fn is_fresh(stored_at: i64, now: i64, cache_hours: i64) -> (r: bool)
    ensures
        r == fresh(stored_at as int, now as int, cache_hours as int),
{
    (now as i128) - (stored_at as i128) < (cache_hours as i128) * 3600
}

/// Whether a stored copy can be used: the playlist has a stored file and a
/// fetch time, and the copy is fresh.
pub fn stored_copy_usable(filepath: &Option<String>, last_fetched: Option<i64>, now: i64, cache_hours: i64) -> (r:
    bool)
    ensures
        r == (filepath is Some && last_fetched is Some && fresh(
            last_fetched->0 as int,
            now as int,
            cache_hours as int,
        )),
{
    match (filepath, last_fetched) {
        (Some(_), Some(at)) => is_fresh(at, now, cache_hours),
        _ => false,
    }
}

/// Where a playlist given on the command line is read from.
#[derive(Debug, PartialEq, Eq, Structural)]
pub enum FetchPlan {
    /// The argument is a playlist file: read it.
    ReadArgumentFile,
    /// Read the locally stored copy of the last download.
    ReadLocalCopy,
    /// Download the playlist and store a local copy.
    Download,
}

/// Whether a file modified at `modified` (seconds) is still fresh at `now`:
/// less than a day old.
pub fn check_local_playlist_status(modified: i64, now: i64) -> (r: bool)
    ensures
        r == fresh(modified as int, now as int, DEFAULT_CACHE_HOURS as int),
{
    is_fresh(modified, now, DEFAULT_CACHE_HOURS)
}

/// Where to read a playlist from: the argument itself when it is a playlist
/// file; the local copy when reloading is switched off, or when the copy is
/// fresh and a reload was not asked for; otherwise a download.
pub fn plan_fetch(is_playlist_file: bool, always_reload: bool, never_reload: bool, local_copy_fresh: bool) -> (r:
    FetchPlan)
    ensures
        is_playlist_file ==> r == FetchPlan::ReadArgumentFile,
        !is_playlist_file && (never_reload || (local_copy_fresh && !always_reload)) ==> r
            == FetchPlan::ReadLocalCopy,
        !is_playlist_file && !(never_reload || (local_copy_fresh && !always_reload)) ==> r
            == FetchPlan::Download,
{
    if is_playlist_file {
        FetchPlan::ReadArgumentFile
    } else if never_reload || (local_copy_fresh && !always_reload) {
        FetchPlan::ReadLocalCopy
    } else {
        FetchPlan::Download
    }
}

/// Whether a playlist source is fetched over the network: it starts with `http`.
pub fn is_remote_source(source: &str) -> (r: bool)
    ensures
        r == occurs_at(source@, "http"@, 0),
{
    matches_at(&chars_of(source), &chars_of("http"), 0)
}

} // verus!
