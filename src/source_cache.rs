//! The channel source cache: the parsed channel list of one playlist at a time.

use vstd::prelude::*;
use crate::channel::{Channel, copy_channels, views};
use crate::playlist::{
    parse_document, parse_playlist, parse_playlist_with_progress, progress_reports_ok, lines_of,
    ProgressRelay, ProgressSink,
};

verus! {

/// The parsed channels of one playlist.
pub struct ChannelCache {
    /// The playlist; `None` stands for the default one.
    pub channel_list_id: Option<i32>,
    pub channels: Vec<Channel>,
    /// When the list was stored, in milliseconds.
    pub last_updated: u64,
}

/// The single slot of the channel source cache.
pub struct ChannelCacheState {
    pub cache: Option<ChannelCache>,
}

impl ChannelCacheState {
    /// Whether the slot holds the channels of playlist `id`.
    pub open spec fn holds(&self, id: Option<i32>) -> bool {
        self.cache matches Some(c) && c.channel_list_id == id
    }

    /// An empty slot.
    pub fn new() -> (r: ChannelCacheState)
        ensures
            r.cache is None,
    {
        ChannelCacheState { cache: None }
    }

    /// A copy of the stored channels when the slot holds playlist `id`.
    pub fn cached_channels(&self, id: Option<i32>) -> (r: Option<Vec<Channel>>)
        ensures
            r is Some <==> self.holds(id),
            r matches Some(v) ==> v@ == self.cache->0.channels@,
    {
        match &self.cache {
            Some(c) => {
                if match (c.channel_list_id, id) {
                    (Some(x), Some(y)) => x == y,
                    (None, None) => true,
                    _ => false,
                } {
                    Some(copy_channels(&c.channels))
                } else {
                    None
                }
            },
            None => None,
        }
    }

    /// Stores the channels of playlist `id`, replacing what the slot held.
    pub fn store_channels(&mut self, id: Option<i32>, channels: Vec<Channel>, now: u64)
        ensures
            final(self).cache == Some(
                ChannelCache { channel_list_id: id, channels: channels, last_updated: now },
            ),
    {
        self.cache = Some(ChannelCache { channel_list_id: id, channels, last_updated: now });
    }

    /// Completes a cache miss with what the playlist content provider
    /// returned: content is parsed, stored for `id` and returned; an error is
    /// returned as it is and leaves the slot unchanged.
    pub fn load_from_content(&mut self, id: Option<i32>, content: Result<String, String>, now: u64) -> (r:
        Result<Vec<Channel>, String>)
        ensures
            match content {
                Ok(text) => {
                    &&& r is Ok
                    &&& views(r->Ok_0@) == parse_document(text@)
                    &&& final(self).holds(id)
                    &&& final(self).cache->0.channels@ == r->Ok_0@
                    &&& final(self).cache->0.last_updated == now
                },
                Err(e) => r == Err::<Vec<Channel>, String>(e) && *final(self) == *old(self),
            },
    {
        match content {
            Ok(text) => {
                let channels = parse_playlist(text.as_str());
                let copy = copy_channels(&channels);
                self.store_channels(id, channels, now);
                Ok(copy)
            },
            Err(e) => Err(e),
        }
    }

    /// Completes a cache miss as `load_from_content` does, and reports the
    /// parsing progress through `relay`. An error sends no report.
    pub fn load_reporting<S: ProgressSink>(
        &mut self,
        id: Option<i32>,
        content: Result<String, String>,
        relay: &mut ProgressRelay<S>,
        now: u64,
    ) -> (r: Result<Vec<Channel>, String>)
        ensures
            match content {
                Ok(text) => {
                    &&& r is Ok
                    &&& views(r->Ok_0@) == parse_document(text@)
                    &&& final(self).holds(id)
                    &&& final(self).cache->0.channels@ == r->Ok_0@
                    &&& final(self).cache->0.last_updated == now
                    &&& final(relay).sent@.take(old(relay).sent@.len() as int) == old(relay).sent@
                    &&& progress_reports_ok(
                        final(relay).sent@.skip(old(relay).sent@.len() as int),
                        lines_of(text@).len(),
                        r->Ok_0@.len(),
                    )
                },
                Err(e) => r == Err::<Vec<Channel>, String>(e) && *final(self) == *old(self)
                    && final(relay).sent@ == old(relay).sent@,
            },
    {
        match content {
            Ok(text) => {
                let channels = parse_playlist_with_progress(text.as_str(), relay);
                let copy = copy_channels(&channels);
                self.store_channels(id, channels, now);
                Ok(copy)
            },
            Err(e) => Err(e),
        }
    }

    /// Empties the slot, so that the next request reloads.
    pub fn invalidate_channel_cache(&mut self)
        ensures
            final(self).cache is None,
    {
        self.cache = None;
    }
}

} // verus!
