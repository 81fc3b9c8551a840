use tollo::groups::distinct_groups;
use tollo::playlist::parse_playlist;
use tollo::provider::{
    check_local_playlist_status, is_fresh, is_remote_source, plan_fetch, stored_copy_usable, FetchPlan,
    DEFAULT_CACHE_HOURS,
};
use tollo::search::SearchEngine;

const PLAYLIST: &str = "#EXTINF:-1 group-title=\"News\",BBC News\nhttp://1\n#EXTINF:-1 group-title=\"Sport\",Sky Sports\nhttp://2\n#EXTINF:-1 group-title=\"News\",CNN\nhttp://3\n#EXTINF:-1,No Group\nhttp://4\n";

#[test]
fn groups_are_distinct_in_first_appearance_order() {
    let channels = parse_playlist(PLAYLIST);
    let groups = distinct_groups(&channels);
    assert_eq!(groups, vec!["News".to_string(), "Sport".to_string(), "".to_string()]);
    assert!(distinct_groups(&Vec::new()).is_empty());
}

#[test]
fn engine_lists_groups_of_the_loaded_playlist() {
    let mut engine = SearchEngine::new();
    assert!(engine.get_groups(Some(1)).is_none());
    engine.sources.load_from_content(Some(1), Ok(PLAYLIST.to_string()), 0).unwrap();
    assert_eq!(engine.get_groups(Some(1)).unwrap().len(), 3);
    assert!(engine.get_groups(None).is_none());
}

#[test]
fn warming_caches_common_searches() {
    let mut engine = SearchEngine::new();
    engine.sources.load_from_content(None, Ok(PLAYLIST.to_string()), 0).unwrap();
    engine.warm_cache_with_common_searches(None, 0);
    assert_eq!(engine.search_counter, 7);
    assert_eq!(engine.results.entries.len(), 7);
    let news = engine.results.entries.iter().find(|e| e.query == "news").unwrap();
    assert_eq!(news.results.len(), 1);
    assert_eq!(news.results[0].name, "BBC News");
}

#[test]
fn freshness_of_stored_copies() {
    assert!(is_fresh(0, 3599, 1));
    assert!(!is_fresh(0, 3600, 1));
    assert!(is_fresh(1_000, 1_000 + 24 * 3600 - 1, DEFAULT_CACHE_HOURS));
    assert!(!is_fresh(i64::MIN, i64::MAX, 24));
    assert!(is_fresh(i64::MIN, i64::MAX, i64::MAX));
    assert!(stored_copy_usable(&Some("a.m3u".to_string()), Some(100), 200, 24));
    assert!(!stored_copy_usable(&None, Some(100), 200, 24));
    assert!(!stored_copy_usable(&Some("a.m3u".to_string()), None, 200, 24));
    assert!(!stored_copy_usable(&Some("a.m3u".to_string()), Some(0), 100_000, 24));
}

#[test]
fn remote_sources_start_with_http() {
    assert!(is_remote_source("http://example.com/list.m3u"));
    assert!(is_remote_source("https://example.com/list.m3u"));
    assert!(!is_remote_source("list.m3u"));
    assert!(!is_remote_source("htt"));
    assert!(!is_remote_source("ftp://x"));
}

#[test]
fn local_copy_is_fresh_for_a_day() {
    assert!(check_local_playlist_status(0, 86_399));
    assert!(!check_local_playlist_status(0, 86_400));
}

#[test]
fn fetch_plan_follows_the_flags() {
    assert_eq!(plan_fetch(true, true, false, false), FetchPlan::ReadArgumentFile);
    assert_eq!(plan_fetch(false, false, true, false), FetchPlan::ReadLocalCopy);
    assert_eq!(plan_fetch(false, false, false, true), FetchPlan::ReadLocalCopy);
    assert_eq!(plan_fetch(false, true, false, true), FetchPlan::Download);
    assert_eq!(plan_fetch(false, false, false, false), FetchPlan::Download);
}
