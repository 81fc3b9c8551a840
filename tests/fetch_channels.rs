use tollo::playlist_path::{check_is_m3u_filepath, has_m3u_extension, is_m3u_filepath};

#[test]
fn test_check_is_m3u_filepath_with_directory() {
    let directory = "path/to/directory/";
    assert!(!check_is_m3u_filepath(directory));
}

#[test]
fn test_check_is_m3u_filepath_with_invalid_extension() {
    let filepath = "path/to/file.txt";
    assert!(!check_is_m3u_filepath(filepath));
}

#[test]
fn test_check_is_m3u_filepath_with_url() {
    let url = "https://iptv-org.github.io/iptv/index.m3u";
    assert!(!check_is_m3u_filepath(url));
}

#[test]
fn m3u_extensions_are_recognised() {
    assert!(has_m3u_extension("playlist.m3u"));
    assert!(has_m3u_extension("playlist.m3u8"));
    assert!(has_m3u_extension("archive.tar.m3u"));
    assert!(!has_m3u_extension("playlist.txt"));
    assert!(!has_m3u_extension("playlist.M3U"));
    assert!(!has_m3u_extension("playlist"));
    assert!(!has_m3u_extension("m3u."));
}

#[test]
fn existing_file_decision_follows_name_and_disk_answer() {
    assert!(is_m3u_filepath("path/to/list.m3u", true));
    assert!(is_m3u_filepath("list.m3u8", true));
    assert!(!is_m3u_filepath("path/to/list.m3u", false));
    assert!(!is_m3u_filepath("path/to/list.txt", true));
    assert!(!is_m3u_filepath("https://iptv-org.github.io/iptv/index.m3u", false));
}
