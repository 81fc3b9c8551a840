//! Channel loading, caching and incremental search for IPTV playlists.
//!
//! The library turns an M3U playlist into channel records, keeps the parsed
//! list of the selected playlist in a single-slot cache, ranks channels
//! against a query, and remembers earlier search results in a bounded cache
//! with expiry, least-recently-used eviction and prefix narrowing. Searches
//! carry a generation token so that a superseded search never writes its
//! results.

pub mod channel;
pub mod groups;
pub mod matcher;
pub mod playlist;
pub mod playlist_path;
pub mod provider;
pub mod ranking;
pub mod result_cache;
pub mod search;
pub mod source_cache;
pub mod terminal;
pub mod text;
