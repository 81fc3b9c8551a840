use tollo::channel::Channel;
use tollo::playlist::{
    parse_playlist, parse_playlist_with_progress, ParseProgress, ProgressLog, ProgressRelay,
    ProgressSink,
};

const SAMPLE: &str = "#EXTM3U\n\
#EXTINF:-1 tvg-id=\"bbc.uk\" tvg-logo=\"http://logo/bbc.png\" group-title=\"News\",BBC News HD [UK]\n\
http://stream/bbc-news\n\
#EXTINF:-1 tvg-id=\"cnn.us\" group-title=\"News\",CNN International\n\
http://stream/cnn\n\
#EXTINF:-1 group-title=\"General\",BBC One 1080p\n\
http://stream/bbc-one\n";

fn names(channels: &[Channel]) -> Vec<String> {
    channels.iter().map(|c| c.name.clone()).collect()
}

#[test]
fn parses_every_field() {
    let channels = parse_playlist(SAMPLE);
    assert_eq!(channels.len(), 3);
    let bbc = &channels[0];
    assert_eq!(bbc.name, "BBC News HD [UK]");
    assert_eq!(bbc.logo, "http://logo/bbc.png");
    assert_eq!(bbc.url, "http://stream/bbc-news");
    assert_eq!(bbc.group_title, "News");
    assert_eq!(bbc.tvg_id, "bbc.uk");
    assert_eq!(bbc.resolution, "");
    assert_eq!(bbc.extra_info, "UK");
    let cnn = &channels[1];
    assert_eq!(cnn.logo, "");
    assert_eq!(cnn.tvg_id, "cnn.us");
    assert_eq!(cnn.extra_info, "");
    let one = &channels[2];
    assert_eq!(one.resolution, "1080p");
    assert_eq!(one.tvg_id, "");
    assert_eq!(one.group_title, "General");
}

#[test]
fn parsing_twice_gives_the_same_channels() {
    let a = parse_playlist(SAMPLE);
    let b = parse_playlist(SAMPLE);
    assert_eq!(a, b);
}

#[test]
fn entry_without_url_is_skipped_and_parsing_goes_on() {
    let text = "#EXTM3U\n#EXTINF:-1,Broken\n#EXTINF:-1,Good\nhttp://good\n#EXTINF:-1,Last";
    let channels = parse_playlist(text);
    assert_eq!(names(&channels), vec!["Good".to_string()]);
    assert_eq!(channels[0].url, "http://good");
}

#[test]
fn metadata_followed_by_other_directive_gives_no_channel() {
    let text = "#EXTINF:-1,Opt\n#EXTVLCOPT:foo\nhttp://x\n#EXTINF:-1,Next\nhttp://next";
    let channels = parse_playlist(text);
    assert_eq!(names(&channels), vec!["Next".to_string()]);
}

#[test]
fn name_is_between_first_and_second_comma_and_trimmed() {
    let channels = parse_playlist("#EXTINF:-1,  Alpha  ,Beta\nhttp://a\n#EXTINF:-1 no comma\nhttp://b");
    assert_eq!(names(&channels), vec!["Alpha".to_string(), "".to_string()]);
}

#[test]
fn crlf_line_endings_are_removed() {
    let channels = parse_playlist("#EXTINF:-1,Name 720p\r\nhttp://u\r\n");
    assert_eq!(channels.len(), 1);
    assert_eq!(channels[0].name, "Name 720p");
    assert_eq!(channels[0].url, "http://u");
    assert_eq!(channels[0].resolution, "720p");
}

#[test]
fn empty_and_garbage_documents_give_no_channels() {
    assert!(parse_playlist("").is_empty());
    assert!(parse_playlist("hello\nworld\n#EXTM3U").is_empty());
}

#[test]
fn attribute_value_stops_at_quote() {
    let channels = parse_playlist("#EXTINF:-1 tvg-logo=\"a\" group-title=\"G\" tvg-id=\"x\",N [one] [two]\nu");
    assert_eq!(channels[0].logo, "a");
    assert_eq!(channels[0].group_title, "G");
    assert_eq!(channels[0].tvg_id, "x");
    assert_eq!(channels[0].extra_info, "one");
    assert_eq!(channels[0].url, "u");
}

struct Recorder {
    reports: Vec<(usize, usize, usize, bool)>,
}

impl ProgressSink for Recorder {
    fn report(&mut self, p: ParseProgress) {
        self.reports.push((p.lines_done, p.total_lines, p.channels_parsed, p.complete));
    }
}

#[test]
fn progress_reports_start_and_end_and_stay_bounded() {
    let mut text = String::from("#EXTM3U\n");
    for i in 0..5000 {
        text.push_str(&format!("#EXTINF:-1,Channel {}\nhttp://s/{}\n", i, i));
    }
    let mut relay = ProgressRelay::new(Recorder { reports: Vec::new() });
    let channels = parse_playlist_with_progress(&text, &mut relay);
    let sink = relay.sink;
    assert_eq!(channels.len(), 5000);
    assert_eq!(channels, parse_playlist(&text));
    let first = sink.reports.first().unwrap();
    assert_eq!(*first, (0, 10001, 0, false));
    let last = sink.reports.last().unwrap();
    assert_eq!(*last, (10001, 10001, 5000, true));
    assert!(sink.reports.len() <= 22);
    assert!(sink.reports.len() >= 3);
}

#[test]
fn progress_log_keeps_every_report_in_order() {
    let mut relay = ProgressRelay::new(ProgressLog { entries: Vec::new() });
    let channels = parse_playlist_with_progress("#EXTINF:-1,A\nhttp://a\n#EXTINF:-1,B\n", &mut relay);
    let log = relay.sink;
    assert_eq!(channels.len(), 1);
    let first = &log.entries[0];
    assert_eq!((first.lines_done, first.total_lines, first.channels_parsed, first.complete), (0, 3, 0, false));
    let last = log.entries.last().unwrap();
    assert_eq!((last.lines_done, last.channels_parsed, last.entries_seen, last.complete), (3, 1, 2, true));
    for pair in log.entries.windows(2) {
        assert!(pair[0].lines_done <= pair[1].lines_done);
        assert!(pair[0].channels_parsed <= pair[1].channels_parsed);
    }
    assert!(log.entries.len() <= 22);
}
