use tollo::channel::Channel;
use tollo::matcher::fuzzy_search;
use tollo::playlist::parse_playlist;

fn channels(names: &[&str]) -> Vec<Channel> {
    let mut text = String::new();
    for (i, n) in names.iter().enumerate() {
        text.push_str(&format!("#EXTINF:-1,{}\nhttp://s/{}\n", n, i));
    }
    parse_playlist(&text)
}

fn names(channels: &[Channel]) -> Vec<String> {
    channels.iter().map(|c| c.name.clone()).collect()
}

#[test]
fn bbc_query_keeps_both_bbc_channels_in_order() {
    let list = channels(&["BBC News HD [UK]", "CNN International", "BBC One 1080p"]);
    let found = fuzzy_search(&list, "bbc");
    assert_eq!(names(&found), vec!["BBC News HD [UK]".to_string(), "BBC One 1080p".to_string()]);
}

#[test]
fn empty_query_returns_every_channel() {
    let list = channels(&["B", "A", "C"]);
    assert_eq!(fuzzy_search(&list, ""), list);
    assert_eq!(fuzzy_search(&list, "   "), list);
}

#[test]
fn query_is_trimmed_and_lower_cased() {
    let list = channels(&["BBC News HD [UK]", "CNN International", "BBC One 1080p"]);
    assert_eq!(fuzzy_search(&list, "  BBC "), fuzzy_search(&list, "bbc"));
}

#[test]
fn unmatched_query_returns_nothing() {
    let list = channels(&["BBC News HD [UK]", "CNN International"]);
    assert!(fuzzy_search(&list, "zzzzqqq").is_empty());
}

#[test]
fn closer_prefix_ranks_first() {
    let list = channels(&["Sky Sports News", "Sports Extra", "Euro Sports"]);
    let found = fuzzy_search(&list, "sports");
    assert_eq!(found[0].name, "Sports Extra");
    assert_eq!(found.len(), 3);
}

#[test]
fn results_are_taken_from_the_input() {
    let list = channels(&["Alpha News", "Beta News", "Gamma"]);
    let found = fuzzy_search(&list, "news");
    for c in &found {
        assert!(list.contains(c));
    }
    assert!(!names(&found).contains(&"Gamma".to_string()));
}

#[test]
fn narrowed_search_adds_no_channel() {
    let list = channels(&["News One", "News Two", "Sports", "Newsroom"]);
    let first = fuzzy_search(&list, "new");
    let narrowed = fuzzy_search(&first, "news");
    let full = fuzzy_search(&list, "news");
    for c in &narrowed {
        assert!(full.contains(c));
    }
}
