use turntable::text::{ends_with, remove_char, replace_all, same_text, starts_with};

#[test]
fn text_helpers() {
    assert!(starts_with("/watch?v=1", "/watch"));
    assert!(!starts_with("/wat", "/watch"));
    assert!(ends_with("music.youtube.com", "youtube.com"));
    assert!(!ends_with("youtube.co", "youtube.com"));
    assert!(same_text("tracks", "tracks"));
    assert!(!same_text("tracks", "track"));
    assert_eq!(remove_char("@a@b", '@'), "ab");
    assert_eq!(replace_all("aaa", "aa", "b"), "ba");
    assert_eq!(replace_all("hqdefault/hqdefault", "hqdefault", "maxresdefault"), "maxresdefault/maxresdefault");
    assert_eq!(replace_all("abc", "", "x"), "abc");
}
