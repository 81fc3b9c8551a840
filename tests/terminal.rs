use tollo::terminal::{filter_channels, parse_channels, Channel};

const DOCUMENT: &str = "#EXTM3U\n\
#EXTINF:-1 tvg-id=\"a.id\" tvg-name=\"Alpha TV\" tvg-logo=\"http://l/a.png\" group-title=\"News\",Alpha Tail\n\
http://stream/a\n\
#EXTINF:-1 tvg-id=\"b.id\",Beta\n\
https://stream/b\n\
#EXTINF:-1,Gamma\n\
not-a-url\n";

#[test]
fn entries_with_http_urls_become_channels() {
    let channels = parse_channels(DOCUMENT, &[]);
    assert_eq!(channels.len(), 2);
    let a = &channels[0];
    assert_eq!(a.name, "Alpha TV");
    assert_eq!(a.id, "a.id");
    assert_eq!(a.logo, "http://l/a.png");
    assert_eq!(a.group, "News");
    assert_eq!(a.url, "http://stream/a");
    assert!(!a.favorite);
    let b = &channels[1];
    assert_eq!(b.name, "Beta");
    assert_eq!(b.id, "b.id");
    assert_eq!(b.logo, "");
    assert_eq!(b.group, "");
    assert_eq!(b.url, "https://stream/b");
}

#[test]
fn favorites_are_marked_by_url() {
    let favorites = vec![Channel {
        name: "Other name".to_string(),
        id: String::new(),
        logo: String::new(),
        favorite: true,
        group: String::new(),
        url: "https://stream/b".to_string(),
    }];
    let channels = parse_channels(DOCUMENT, &favorites);
    assert!(!channels[0].favorite);
    assert!(channels[1].favorite);
}

#[test]
fn empty_tvg_name_is_kept() {
    let channels = parse_channels("#EXTINF:-1 tvg-name=\"\",Tail\nhttp://x\n", &[]);
    assert_eq!(channels.len(), 1);
    assert_eq!(channels[0].name, "");
}

#[test]
fn document_without_entries_gives_nothing() {
    assert!(parse_channels("", &[]).is_empty());
    assert!(parse_channels("#EXTM3U\n#EXTINF:-1,Name\nrtmp://x\n", &[]).is_empty());
}

fn listed(names: &[&str]) -> Vec<Channel> {
    let mut text = String::new();
    for (i, n) in names.iter().enumerate() {
        text.push_str(&format!("#EXTINF:-1,{}\nhttp://s/{}\n", n, i));
    }
    parse_channels(&text, &[])
}

#[test]
fn terminal_search_sorts_by_distance_of_the_whole_name() {
    let channels = listed(&["BBC News HD [UK]", "CNN International", "BBC One 1080p"]);
    let found = filter_channels(&channels, "BBC");
    let names: Vec<&str> = found.iter().map(|c| c.name.as_str()).collect();
    assert_eq!(names, vec!["BBC One 1080p", "BBC News HD [UK]"]);
}

#[test]
fn terminal_search_with_empty_filter_keeps_everything() {
    let channels = listed(&["B", "A"]);
    assert_eq!(filter_channels(&channels, ""), channels);
    assert!(filter_channels(&channels, "zzzz").is_empty());
}

#[test]
fn terminal_search_keeps_ties_in_input_order() {
    let channels = listed(&["news b", "news a"]);
    let found = filter_channels(&channels, "news");
    let names: Vec<&str> = found.iter().map(|c| c.name.as_str()).collect();
    assert_eq!(names, vec!["news b", "news a"]);
}
