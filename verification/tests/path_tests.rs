use papilio_core::pathutil::{
    ascii_lowercase, contains_ci, ends_with_str, extension, file_name, file_stem, first_token,
    is_audio_file, join, parent, replace_first, starts_with_str, strip_nulls, strip_root,
    with_extension,
};

#[test]
fn test_is_audio_file() {
    assert!(is_audio_file("test.mp3"));
    assert!(is_audio_file("test.FLAC"));
    assert!(is_audio_file("test.m4a"));
    assert!(!is_audio_file("test.txt"));
    assert!(!is_audio_file("test.exe"));
}

#[test]
fn test_audio_file_edge_names() {
    assert!(is_audio_file("dir.weird/song.ogg"));
    assert!(is_audio_file("a/b/c.wav"));
    assert!(!is_audio_file("noextension"));
    assert!(!is_audio_file(".mp3")); // a hidden file has no extension
    assert!(!is_audio_file("music/"));
}

#[test]
fn test_path_structure() {
    assert_eq!(file_name("a/b/c.mp3"), "c.mp3");
    assert_eq!(file_name("c.mp3"), "c.mp3");
    assert_eq!(file_stem("a/b/c.mp3"), "c");
    assert_eq!(file_stem("a/b/noext"), "noext");
    assert_eq!(extension("a/b/c.mp3"), Some("mp3".to_string()));
    assert_eq!(extension("a/b.dir/noext"), None);
    assert_eq!(parent("a/b/c.mp3"), Some("a/b".to_string()));
    assert_eq!(parent("c.mp3"), None);
    assert_eq!(join("a/b", "c.mp3"), "a/b/c.mp3");
    assert_eq!(join("a/b/", "c.mp3"), "a/b/c.mp3");
    assert_eq!(join("", "c.mp3"), "c.mp3");
    assert_eq!(with_extension("a/b/c.mp3", "lrc"), "a/b/c.lrc");
    assert_eq!(with_extension("a/b/noext", "lrc"), "a/b/noext.lrc");
}

#[test]
fn test_text_operations() {
    assert_eq!(ascii_lowercase("FLAC and 汪苏泷"), "flac and 汪苏泷");
    assert!(starts_with_str("cover.jpg", "cover."));
    assert!(!starts_with_str("discover.jpg", "cover."));
    assert!(ends_with_str("cover.jpg", ".jpg"));
    assert!(!ends_with_str("cover.jpg", ".png"));
    assert!(contains_ci("My Favorite TRACK", "favorite"));
    assert!(!contains_ci("My Favorite TRACK", "absent"));
    assert_eq!(replace_first("a-b-a", "a", "x"), "x-b-a");
    assert_eq!(replace_first("nothing", "zz", "x"), "nothing");
    assert_eq!(strip_nulls("a\0b\0c"), "abc");
    assert_eq!(first_token("汪苏泷 - 万有引力"), "汪苏泷");
    assert_eq!(first_token("one_two"), "one");
    assert_eq!(first_token("plain"), "plain");
    assert_eq!(strip_root("lib/Artist/Album/t.mp3", "lib"), "Artist/Album/t.mp3");
    assert_eq!(strip_root("elsewhere/t.mp3", "lib"), "elsewhere/t.mp3");
}
