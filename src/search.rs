//! The search orchestrator: resolves the search space from the caches, runs
//! the matcher, and writes results back unless a newer search has started.

use vstd::prelude::*;
use crate::channel::{Channel, copy_channels};
use crate::matcher::{fuzzy_result, fuzzy_search, narrowing_adds_no_channel};
use crate::result_cache::{
    AdvancedSearchCacheEntry, CacheStats, SearchCache, accessed, capped, clear_advanced_cache,
    entry_wf, evict_if_needed, memory_estimate, total_results,
    expired, find_best_cached_prefix, get_cache_stats, has_key, insert, inserted,
    lookup_exact, narrows, same_key, within_bounds, CACHE_TTL_MS,
};
use crate::groups::{distinct_groups, group_titles, string_views};
use crate::source_cache::ChannelCacheState;
use crate::text::lower_of;

verus! {

/// A maintenance pass of the result cache runs on every search whose
/// sequence number, counted from one, is a multiple of this.
pub const MAINTENANCE_INTERVAL: u64 = 10;

/// Why a search returned no list.
#[derive(Debug, PartialEq, Eq, Structural)]
pub enum SearchError {
    /// A newer search started before this one could finish.
    Cancelled,
    /// The search needed the full channel list, and the source cache does not
    /// hold the playlist.
    ChannelsNotLoaded,
}

/// Where the channels to search come from.
pub enum SearchSpace {
    /// The results of the same search, from the result cache: no matching needed.
    Exact(Vec<Channel>),
    /// The results of a shorter query that the query extends.
    Narrowed(Vec<Channel>),
    /// The full channel list of the playlist.
    Full(Vec<Channel>),
}

/// The caches, the search counter and the active search.
pub struct SearchEngine {
    pub sources: ChannelCacheState,
    pub results: SearchCache,
    /// How many searches have started.
    pub search_counter: u64,
    /// The token of the most recently started search.
    pub active_search_id: Option<u64>,
}

/// Entry `i` of `s` is a live entry for playlist `id` and lower-cased query `lq`.
pub open spec fn exact_at(s: Seq<AdvancedSearchCacheEntry>, i: int, id: Option<i32>, lq: Seq<char>, now: u64) -> bool {
    0 <= i < s.len() && has_key(s[i], id, lq) && !expired(s[i], CACHE_TTL_MS, now)
}

/// Some entry of `s` is a live entry for `id` and `lq`.
pub open spec fn has_exact(s: Seq<AdvancedSearchCacheEntry>, id: Option<i32>, lq: Seq<char>, now: u64) -> bool {
    exists|i: int| exact_at(s, i, id, lq, now)
}

/// Some entry of `s` can narrow a search of `id` for `lq`.
pub open spec fn has_narrowing(s: Seq<AdvancedSearchCacheEntry>, id: Option<i32>, lq: Seq<char>, now: u64) -> bool {
    exists|i: int| 0 <= i < s.len() && narrows(#[trigger] s[i], id, lq, now)
}

/// Entry `i` of `s` narrows a search of `id` for `lq`, with a query at least
/// as long as that of any other such entry.
pub open spec fn best_narrowing_at(
    s: Seq<AdvancedSearchCacheEntry>,
    i: int,
    id: Option<i32>,
    lq: Seq<char>,
    now: u64,
) -> bool {
    &&& 0 <= i < s.len()
    &&& narrows(s[i], id, lq, now)
    &&& forall|j: int|
        0 <= j < s.len() && narrows(#[trigger] s[j], id, lq, now) ==> s[j].normalized@.len()
            <= s[i].normalized@.len()
}

/// The channels that the source cache of `e` holds for playlist `id`.
pub open spec fn loaded(e: SearchEngine, id: Option<i32>) -> Option<Seq<Channel>> {
    if e.sources.holds(id) {
        Some(e.sources.cache->0.channels@)
    } else {
        None
    }
}

/// `r` is what loading playlist `id` from `e` gives.
pub open spec fn load_outcome(e: SearchEngine, id: Option<i32>, r: Option<Vec<Channel>>) -> bool {
    match loaded(e, id) {
        Some(s) => r is Some && r->0@ == s,
        None => r is None,
    }
}

/// `r` is what an empty query for playlist `id` gives on `e`: the loaded
/// channels, unfiltered.
pub open spec fn empty_search_outcome(e: SearchEngine, id: Option<i32>, r: Result<Vec<Channel>, SearchError>) -> bool {
    match loaded(e, id) {
        Some(s) => r is Ok && r->Ok_0@ == s,
        None => r == Err::<Vec<Channel>, SearchError>(SearchError::ChannelsNotLoaded),
    }
}

/// `after` is `before` once a search with `token` has started.
pub open spec fn started(before: SearchEngine, after: SearchEngine, token: u64) -> bool {
    &&& token == before.search_counter
    &&& after.search_counter == before.search_counter + 1
    &&& after.active_search_id == Some(token)
    &&& after.sources == before.sources
    &&& after.results == before.results
}

/// Whether a search with `token` may still write its results.
pub open spec fn may_commit(e: SearchEngine, token: u64) -> bool {
    e.active_search_id == Some(token)
}

/// `after` is `before` with entry `i` marked as used at `now` and every other
/// entry as it was.
pub open spec fn marked_used(
    before: Seq<AdvancedSearchCacheEntry>,
    after: Seq<AdvancedSearchCacheEntry>,
    i: int,
    now: u64,
) -> bool {
    &&& after.len() == before.len()
    &&& accessed(before[i], after[i], now)
    &&& forall|j: int| 0 <= j < before.len() && j != i ==> after[j] == before[j]
}

/// `e` is a new entry for `query` of playlist `id` with results `results`,
/// made and last used at `now`, used once.
pub open spec fn new_entry(
    e: AdvancedSearchCacheEntry,
    query: Seq<char>,
    id: Option<i32>,
    results: Seq<Channel>,
    now: u64,
) -> bool {
    &&& entry_wf(e)
    &&& e.query@ == query
    &&& e.results@ == results
    &&& e.result_size == results.len()
    &&& e.channel_list_id == id
    &&& e.timestamp == now
    &&& e.last_accessed == now
    &&& e.access_count == 1
}

/// `after` is `before` once the results of `query` of playlist `id` were
/// stored at `now`: the entry with the same key replaced in place, or the new
/// entry added at the end; every other entry as it was.
pub open spec fn stored(
    before: Seq<AdvancedSearchCacheEntry>,
    after: Seq<AdvancedSearchCacheEntry>,
    query: Seq<char>,
    id: Option<i32>,
    results: Seq<Channel>,
    now: u64,
) -> bool {
    &&& forall|k: int|
        0 <= k < before.len() && has_key(#[trigger] before[k], id, lower_of(query)) ==> after.len()
            == before.len() && new_entry(after[k], query, id, results, now) && forall|j: int|
            0 <= j < before.len() && j != k ==> after[j] == before[j]
    &&& (forall|k: int| 0 <= k < before.len() ==> !has_key(#[trigger] before[k], id, lower_of(query)))
        ==> after.len() == before.len() + 1 && new_entry(
        after[before.len() as int],
        query,
        id,
        results,
        now,
    ) && forall|j: int| 0 <= j < before.len() ==> after[j] == before[j]
}

/// `r` is what a search of `e` for the non-empty `query` of playlist `id`
/// gives at `now`: the cached results of the same query; else the matches
/// among the cached results of the longest narrowing query; else the matches
/// among the loaded channels; else `ChannelsNotLoaded`.
pub open spec fn search_outcome(
    e: SearchEngine,
    query: Seq<char>,
    id: Option<i32>,
    now: u64,
    r: Result<Vec<Channel>, SearchError>,
) -> bool {
    let s = e.results.entries@;
    let lq = lower_of(query);
    &&& forall|i: int| exact_at(s, i, id, lq, now) ==> r is Ok && r->Ok_0@ == s[i].results@
    &&& !has_exact(s, id, lq, now) ==> forall|i: int|
        best_narrowing_at(s, i, id, lq, now) ==> r is Ok && r->Ok_0@ == fuzzy_result(
            s[i].results@,
            query,
        )
    &&& (!has_exact(s, id, lq, now) && !has_narrowing(s, id, lq, now)) ==> match loaded(e, id) {
        Some(c) => r is Ok && r->Ok_0@ == fuzzy_result(c, query),
        None => r == Err::<Vec<Channel>, SearchError>(SearchError::ChannelsNotLoaded),
    }
}

/// The counters after a search of `before` for the non-empty `query`: a hit
/// when a live entry of the same query or a narrowing entry exists, a miss
/// otherwise.
pub open spec fn search_counted(
    before: SearchEngine,
    after: SearchEngine,
    query: Seq<char>,
    id: Option<i32>,
    now: u64,
) -> bool {
    let s = before.results.entries@;
    let lq = lower_of(query);
    if has_exact(s, id, lq, now) || has_narrowing(s, id, lq, now) {
        after.results.hits == before.results.hits.saturating_add(1) && after.results.misses
            == before.results.misses
    } else {
        after.results.hits == before.results.hits && after.results.misses
            == before.results.misses.saturating_add(1)
    }
}

/// What a search of `before` for the non-empty `query`, with outcome `r`,
/// does to the result cache when no maintenance pass follows: a live entry of
/// the same query is marked as used; other successful searches store their
/// results at `now`; a failed search changes nothing.
pub open spec fn search_cache_effect(
    before: SearchEngine,
    after: SearchEngine,
    query: Seq<char>,
    id: Option<i32>,
    now: u64,
    r: Result<Vec<Channel>, SearchError>,
) -> bool {
    let s = before.results.entries@;
    let lq = lower_of(query);
    &&& forall|i: int| exact_at(s, i, id, lq, now) ==> marked_used(s, after.results.entries@, i, now)
    &&& (!has_exact(s, id, lq, now) && r is Ok) ==> stored(
        s,
        after.results.entries@,
        query,
        id,
        r->Ok_0@,
        now,
    )
    &&& r is Err ==> after.results.entries@ == s
}

/// Two entries that narrow the same search with queries of one length are one entry.
pub proof fn lemma_best_narrowing_unique(
    s: Seq<AdvancedSearchCacheEntry>,
    i: int,
    j: int,
    id: Option<i32>,
    lq: Seq<char>,
    now: u64,
)
    requires
        crate::result_cache::entries_wf(s),
        best_narrowing_at(s, i, id, lq, now),
        best_narrowing_at(s, j, id, lq, now),
    ensures
        i == j,
{
    let a = s[i].normalized@;
    let b = s[j].normalized@;
    assert(a.len() == b.len());
    assert(a =~= lq.take(a.len() as int));
    assert(b =~= lq.take(b.len() as int));
    assert(same_key(s[i], s[j]));
    if i < j {
        assert(!same_key(s[i], s[j]));
    } else if j < i {
        assert(!same_key(s[j], s[i]));
    }
}

impl SearchEngine {
    /// The engine's invariant: a well-formed result cache, and an active
    /// search that has started.
    pub open spec fn wf(&self) -> bool {
        &&& self.results.wf()
        &&& (self.active_search_id matches Some(a) ==> a < self.search_counter)
    }

    /// An engine with empty caches and no search started.
    pub fn new() -> (r: SearchEngine)
        ensures
            r.wf(),
            r.sources.cache is None,
            r.results.entries@.len() == 0,
            r.results.hits == 0,
            r.results.misses == 0,
            r.search_counter == 0,
            r.active_search_id is None,
    {
        SearchEngine {
            sources: ChannelCacheState::new(),
            results: SearchCache::new(),
            search_counter: 0,
            active_search_id: None,
        }
    }

    /// Starts a search: it gets the next sequence number as its token and
    /// becomes the active search, which cancels any search started before.
    pub fn start_search(&mut self) -> (token: u64)
        requires
            old(self).search_counter < u64::MAX,
        ensures
            started(*old(self), *final(self), token),
            old(self).wf() ==> final(self).wf(),
    {
        let token = self.search_counter;
        self.search_counter = self.search_counter + 1;
        self.active_search_id = Some(token);
        token
    }

    /// Whether the search with `token` is still the active one.
    pub fn is_active(&self, token: u64) -> (r: bool)
        ensures
            r == may_commit(*self, token),
    {
        match self.active_search_id {
            Some(a) => a == token,
            None => false,
        }
    }

    /// Resolves where a search for `query` of playlist `id` looks at `now`:
    /// the live cached results of the same query (a hit, marked as used);
    /// else the cached results of the longest narrowing query (a hit); else
    /// the loaded channels of the playlist (a miss), or `ChannelsNotLoaded`.
    pub fn get_search_space(&mut self, query: &str, id: Option<i32>, now: u64) -> (r: Result<
        SearchSpace,
        SearchError,
    >)
        requires
            old(self).wf(),
        ensures
            final(self).wf(),
            final(self).sources == old(self).sources,
            final(self).search_counter == old(self).search_counter,
            final(self).active_search_id == old(self).active_search_id,
            forall|i: int|
                exact_at(old(self).results.entries@, i, id, lower_of(query@), now) ==> (
                r matches Ok(SearchSpace::Exact(v)) && v@ == old(self).results.entries@[i].results@),
            !has_exact(old(self).results.entries@, id, lower_of(query@), now) ==> forall|i: int|
                best_narrowing_at(old(self).results.entries@, i, id, lower_of(query@), now) ==> (
                r matches Ok(SearchSpace::Narrowed(v)) && v@ == old(self).results.entries@[i].results@),
            (!has_exact(old(self).results.entries@, id, lower_of(query@), now) && !has_narrowing(
                old(self).results.entries@,
                id,
                lower_of(query@),
                now,
            )) ==> match loaded(*old(self), id) {
                Some(c) => r matches Ok(SearchSpace::Full(v)) && v@ == c,
                None => r == Err::<SearchSpace, SearchError>(SearchError::ChannelsNotLoaded),
            },
            !has_exact(old(self).results.entries@, id, lower_of(query@), now) ==> final(self).results.entries@ == old(self).results.entries@,
            !has_exact(old(self).results.entries@, id, lower_of(query@), now) && has_narrowing(
                old(self).results.entries@,
                id,
                lower_of(query@),
                now,
            ) ==> exists|i: int|
                best_narrowing_at(old(self).results.entries@, i, id, lower_of(query@), now),
            (has_exact(old(self).results.entries@, id, lower_of(query@), now) || has_narrowing(
                old(self).results.entries@,
                id,
                lower_of(query@),
                now,
            )) ==> final(self).results.hits == old(self).results.hits.saturating_add(1) && final(self).results.misses == old(self).results.misses,
            !(has_exact(old(self).results.entries@, id, lower_of(query@), now) || has_narrowing(
                old(self).results.entries@,
                id,
                lower_of(query@),
                now,
            )) ==> final(self).results.hits == old(self).results.hits && final(self).results.misses
                == old(self).results.misses.saturating_add(1),
            forall|i: int|
                exact_at(old(self).results.entries@, i, id, lower_of(query@), now) ==> marked_used(
                    old(self).results.entries@,
                    final(self).results.entries@,
                    i,
                    now,
                ),
    {
        let ghost s = self.results.entries@;
        let ghost lq = lower_of(query@);
        let exact = lookup_exact(&mut self.results, query, id, now);
        if let Some(v) = exact {
            self.results.hits = self.results.hits.saturating_add(1);
            proof {
                let w = choose|i: int|
                    0 <= i < s.len() && has_key(#[trigger] s[i], id, lq) && !expired(
                        s[i],
                        CACHE_TTL_MS,
                        now,
                    );
                assert(exact_at(s, w, id, lq, now));
                assert forall|i: int| exact_at(s, i, id, lq, now) implies marked_used(
                    s,
                    self.results.entries@,
                    i,
                    now,
                ) by {
                    assert forall|j: int| 0 <= j < s.len() && j != i implies self.results.entries@[j]
                        == s[j] by {
                        if j < i {
                            assert(!same_key(s[j], s[i]));
                        } else {
                            assert(!same_key(s[i], s[j]));
                        }
                    }
                }
            }
            return Ok(SearchSpace::Exact(v));
        }
        proof {
            assert(self.results.entries@ =~= s);
        }
        let prefix = find_best_cached_prefix(&self.results, query, id, now);
        if let Some(p) = prefix {
            self.results.hits = self.results.hits.saturating_add(1);
            proof {
                let w = choose|i: int|
                    0 <= i < s.len() && narrows(#[trigger] s[i], id, lq, now) && p.0@ == s[i].query@
                        && p.1@ == s[i].results@ && (forall|j: int|
                        0 <= j < s.len() && narrows(#[trigger] s[j], id, lq, now)
                            ==> s[j].normalized@.len() <= s[i].normalized@.len());
                assert(best_narrowing_at(s, w, id, lq, now));
                assert forall|i: int| best_narrowing_at(s, i, id, lq, now) implies i == w by {
                    lemma_best_narrowing_unique(s, i, w, id, lq, now);
                }
            }
            return Ok(SearchSpace::Narrowed(p.1));
        }
        self.results.misses = self.results.misses.saturating_add(1);
        match self.sources.cached_channels(id) {
            Some(v) => Ok(SearchSpace::Full(v)),
            None => Err(SearchError::ChannelsNotLoaded),
        }
    }

    /// Writes the results of the search with `token` into the result cache
    /// and returns them, when that search is still the active one; otherwise
    /// returns `Cancelled` and changes nothing.
    pub fn commit_search(
        &mut self,
        token: u64,
        query: String,
        id: Option<i32>,
        results: Vec<Channel>,
        now: u64,
    ) -> (r: Result<Vec<Channel>, SearchError>)
        requires
            old(self).wf(),
        ensures
            final(self).wf(),
            may_commit(*old(self), token) ==> {
                &&& r is Ok
                &&& r->Ok_0@ == results@
                &&& inserted(
                    old(self).results.entries@,
                    final(self).results.entries@,
                    query,
                    id,
                    results,
                    now,
                )
                &&& final(self).results.hits == old(self).results.hits
                &&& final(self).results.misses == old(self).results.misses
                &&& final(self).sources == old(self).sources
                &&& final(self).search_counter == old(self).search_counter
                &&& final(self).active_search_id == old(self).active_search_id
            },
            !may_commit(*old(self), token) ==> r == Err::<Vec<Channel>, SearchError>(
                SearchError::Cancelled,
            ) && *final(self) == *old(self),
    {
        if !self.is_active(token) {
            return Err(SearchError::Cancelled);
        }
        let out = copy_channels(&results);
        insert(&mut self.results, query, id, results, now);
        Ok(out)
    }

    /// Matches `space` against `query` and commits the results for the
    /// search with `token`; the token is checked before and after matching.
    fn match_and_commit(
        &mut self,
        token: u64,
        query: &str,
        id: Option<i32>,
        space: &Vec<Channel>,
        now: u64,
    ) -> (r: Result<Vec<Channel>, SearchError>)
        requires
            old(self).wf(),
        ensures
            final(self).wf(),
            final(self).sources == old(self).sources,
            final(self).search_counter == old(self).search_counter,
            final(self).active_search_id == old(self).active_search_id,
            final(self).results.hits == old(self).results.hits,
            final(self).results.misses == old(self).results.misses,
            may_commit(*old(self), token) ==> r is Ok && r->Ok_0@ == fuzzy_result(space@, query@)
                && stored(
                old(self).results.entries@,
                final(self).results.entries@,
                query@,
                id,
                r->Ok_0@,
                now,
            ),
            !may_commit(*old(self), token) ==> r == Err::<Vec<Channel>, SearchError>(
                SearchError::Cancelled,
            ) && *final(self) == *old(self),
    {
        if !self.is_active(token) {
            return Err(SearchError::Cancelled);
        }
        let found = fuzzy_search(space, query);
        if !self.is_active(token) {
            return Err(SearchError::Cancelled);
        }
        let ghost before = self.results.entries@;
        let ghost found_v = found;
        let q = query.to_owned();
        let r = self.commit_search(token, q, id, found, now);
        proof {
            let after = self.results.entries@;
            if r is Ok {
                assert forall|k: int|
                    0 <= k < before.len() && has_key(#[trigger] before[k], id, lower_of(query@))
                        implies after.len() == before.len() && new_entry(
                    after[k],
                    query@,
                    id,
                    r->Ok_0@,
                    now,
                ) && forall|j: int| 0 <= j < before.len() && j != k ==> after[j] == before[j] by {
                    assert(has_key(before[k], id, lower_of(q@)));
                }
                if forall|k: int|
                    0 <= k < before.len() ==> !has_key(#[trigger] before[k], id, lower_of(query@)) {
                    assert forall|k: int| 0 <= k < before.len() implies !has_key(
                        #[trigger] before[k],
                        id,
                        lower_of(q@),
                    ) by {}
                }
            }
        }
        r
    }

    /// Runs the maintenance pass of the result cache when the number of
    /// searches started is a multiple of `MAINTENANCE_INTERVAL`.
    pub fn maintain_if_due(&mut self, now: u64)
        requires
            old(self).wf(),
        ensures
            final(self).wf(),
            final(self).sources == old(self).sources,
            final(self).search_counter == old(self).search_counter,
            final(self).active_search_id == old(self).active_search_id,
            final(self).search_counter % MAINTENANCE_INTERVAL == 0 ==> within_bounds(
                final(self).results.entries@,
            ),
            final(self).search_counter % MAINTENANCE_INTERVAL != 0 ==> final(self).results == old(self).results,
            final(self).results.hits == old(self).results.hits,
            final(self).results.misses == old(self).results.misses,
    {
        if self.search_counter % MAINTENANCE_INTERVAL == 0 {
            evict_if_needed(&mut self.results, now);
        }
    }

    /// Runs a search for `query` in playlist `id` at `now`.
    ///
    /// The search starts by becoming the active one. An empty query returns
    /// the loaded channels unfiltered and touches no cache. Otherwise the
    /// search space is resolved (see `get_search_space`); cached results of
    /// the same query are returned as they are; other spaces are matched and
    /// the results written to the result cache. Every search whose sequence
    /// number is a multiple of `MAINTENANCE_INTERVAL` ends with a maintenance
    /// pass of the result cache.
    pub fn search_channels(&mut self, query: &str, id: Option<i32>, now: u64) -> (r: Result<
        Vec<Channel>,
        SearchError,
    >)
        requires
            old(self).wf(),
            old(self).search_counter < u64::MAX,
        ensures
            final(self).wf(),
            final(self).search_counter == old(self).search_counter + 1,
            final(self).active_search_id == Some(old(self).search_counter),
            final(self).sources == old(self).sources,
            r != Err::<Vec<Channel>, SearchError>(SearchError::Cancelled),
            query@.len() == 0 ==> empty_search_outcome(*old(self), id, r) && final(self).results
                == old(self).results,
            query@.len() > 0 ==> search_outcome(*old(self), query@, id, now, r),
            query@.len() > 0 && final(self).search_counter % MAINTENANCE_INTERVAL == 0
                ==> within_bounds(final(self).results.entries@),
            query@.len() > 0 ==> search_counted(*old(self), *final(self), query@, id, now),
            query@.len() > 0 && final(self).search_counter % MAINTENANCE_INTERVAL != 0
                ==> search_cache_effect(*old(self), *final(self), query@, id, now, r),
    {
        let token = self.start_search();
        if query.is_empty() {
            return match self.sources.cached_channels(id) {
                Some(v) => Ok(v),
                None => Err(SearchError::ChannelsNotLoaded),
            };
        }
        let ghost s = self.results.entries@;
        let ghost lq = lower_of(query@);
        let space = self.get_search_space(query, id, now);
        let r = match space {
            Err(e) => Err(e),
            Ok(SearchSpace::Exact(v)) => Ok(v),
            Ok(SearchSpace::Narrowed(v)) => self.match_and_commit(token, query, id, &v, now),
            Ok(SearchSpace::Full(v)) => self.match_and_commit(token, query, id, &v, now),
        };
        proof {
            if !has_exact(s, id, lq, now) && has_narrowing(s, id, lq, now) {
                assert(space is Ok);
            }
        }
        self.maintain_if_due(now);
        r
    }

    /// The distinct group titles of the loaded channels of playlist `id`,
    /// each once, or `None` when the playlist is not loaded.
    pub fn get_groups(&self, id: Option<i32>) -> (r: Option<Vec<String>>)
        ensures
            r is Some <==> loaded(*self, id) is Some,
            r matches Some(g) ==> string_views(g@).no_duplicates() && forall|t: Seq<char>|
                #[trigger] string_views(g@).contains(t) <==> group_titles(
                    loaded(*self, id)->0,
                ).contains(t),
    {
        match self.sources.cached_channels(id) {
            Some(channels) => Some(distinct_groups(&channels)),
            None => None,
        }
    }

    /// Runs searches for a few common queries so that their results are
    /// cached: seven searches, each counted as a hit or a miss.
    pub fn warm_cache_with_common_searches(&mut self, id: Option<i32>, now: u64)
        requires
            old(self).wf(),
            old(self).search_counter < u64::MAX - 7,
        ensures
            final(self).wf(),
            final(self).search_counter == old(self).search_counter + 7,
            final(self).active_search_id == Some((old(self).search_counter + 6) as u64),
            final(self).sources == old(self).sources,
            old(self).results.hits + old(self).results.misses + 7 <= u64::MAX ==> final(self).results.hits + final(self).results.misses == old(self).results.hits + old(self).results.misses + 7,
    {
        let terms = ["news", "sport", "hd", "music", "movie", "tv", "live"];
        proof {
            reveal_strlit("news");
            reveal_strlit("sport");
            reveal_strlit("hd");
            reveal_strlit("music");
            reveal_strlit("movie");
            reveal_strlit("tv");
            reveal_strlit("live");
            assert forall|j: int| 0 <= j < 7 implies (#[trigger] terms@[j])@.len() > 0 by {}
        }
        let mut k: usize = 0;
        while k < 7
            invariant
                k <= 7,
                self.wf(),
                self.search_counter == old(self).search_counter + k,
                old(self).search_counter < u64::MAX - 7,
                self.sources == old(self).sources,
                k > 0 ==> self.active_search_id == Some((self.search_counter - 1) as u64),
                terms@.len() == 7,
                forall|j: int| 0 <= j < 7 ==> (#[trigger] terms@[j])@.len() > 0,
                old(self).results.hits + old(self).results.misses + 7 <= u64::MAX ==> self.results.hits
                    + self.results.misses == old(self).results.hits + old(self).results.misses + k,
            decreases 7 - k,
        {
            let _ = self.search_channels(terms[k], id, now);
            k += 1;
        }
    }

    /// The loaded channels of playlist `id`, as a copy.
    pub fn load_channels(&self, id: Option<i32>) -> (r: Option<Vec<Channel>>)
        ensures
            load_outcome(*self, id, r),
    {
        self.sources.cached_channels(id)
    }

    /// Empties the channel source cache.
    pub fn invalidate_channel_cache(&mut self)
        ensures
            final(self).sources.cache is None,
            final(self).results == old(self).results,
            final(self).search_counter == old(self).search_counter,
            final(self).active_search_id == old(self).active_search_id,
    {
        self.sources.invalidate_channel_cache();
    }

    /// Empties the search result cache.
    pub fn invalidate_search_cache(&mut self)
        requires
            old(self).wf(),
        ensures
            final(self).wf(),
            final(self).results.entries@.len() == 0,
            final(self).results.hits == old(self).results.hits,
            final(self).results.misses == old(self).results.misses,
            final(self).sources == old(self).sources,
            final(self).search_counter == old(self).search_counter,
            final(self).active_search_id == old(self).active_search_id,
    {
        clear_advanced_cache(&mut self.results);
    }

    /// The result cache's counters and sizes.
    pub fn cache_stats(&self) -> (r: CacheStats)
        ensures
            r.hits == self.results.hits,
            r.misses == self.results.misses,
            r.entries == self.results.entries@.len(),
            r.total_results == capped(total_results(self.results.entries@) as int),
            r.memory_usage_estimate == memory_estimate(
                total_results(self.results.entries@) as int,
                self.results.entries@.len() as int,
            ),
    {
        get_cache_stats(&self.results)
    }
}

} // verus!

verus! {

/// A search that started before another one can no longer write its
/// results: once search `b` starts after search `a` was started (with no
/// other change of the counter than more starts), committing `a` is refused.
pub proof fn later_search_cancels_earlier(
    e0: SearchEngine,
    e1: SearchEngine,
    e2: SearchEngine,
    e3: SearchEngine,
    a: u64,
    b: u64,
)
    requires
        started(e0, e1, a),
        e1.search_counter <= e2.search_counter,
        started(e2, e3, b),
    ensures
        a < b,
        !may_commit(e3, a),
{
}

/// An empty query returns exactly what loading the playlist returns: both
/// succeed together, with the same channels in the same order.
pub proof fn empty_query_returns_loaded_channels(
    e: SearchEngine,
    id: Option<i32>,
    searched: Result<Vec<Channel>, SearchError>,
    loaded_channels: Option<Vec<Channel>>,
)
    requires
        empty_search_outcome(e, id, searched),
        load_outcome(e, id, loaded_channels),
    ensures
        searched is Ok <==> loaded_channels is Some,
        searched is Ok ==> searched->Ok_0@ == loaded_channels->0@,
{
}

} // verus!

verus! {

/// A search answered through a narrowing entry returns no channel that the
/// same search of the full list would leave out, when the entry's results
/// were drawn from that list. It may miss channels that the shorter query's
/// filter had already dropped: narrowing trades completeness for speed.
pub proof fn narrowed_search_adds_no_channel(
    e: SearchEngine,
    query: Seq<char>,
    id: Option<i32>,
    now: u64,
    r: Result<Vec<Channel>, SearchError>,
    i: int,
    full: Seq<Channel>,
)
    requires
        search_outcome(e, query, id, now, r),
        !has_exact(e.results.entries@, id, lower_of(query), now),
        best_narrowing_at(e.results.entries@, i, id, lower_of(query), now),
        forall|x: Channel| #[trigger]
            e.results.entries@[i].results@.contains(x) ==> full.contains(x),
    ensures
        r is Ok,
        forall|x: Channel| #[trigger]
            r->Ok_0@.contains(x) ==> fuzzy_result(full, query).contains(x),
{
    narrowing_adds_no_channel(e.results.entries@[i].results@, full, query);
}

} // verus!
