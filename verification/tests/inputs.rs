use turntable::data::InputError;
use turntable::inputs::{
    chosen_stream_url, file_path, query_kind, yt_dlp_failure, InputKind,
    determine_thumbnail, extract_from_url, file_query_matches, youtube_query_matches, AudioSource,
    ImageSource, MediaRef, Thumbnail, UrlExtraction,
};

#[test]
fn test_url_testing() {
    assert!(youtube_query_matches(
        "https://www.youtube.com/watch?v=JwRWf3ho4B8&list=PL23A657E4BD523733&index=45"
    ));
    assert!(youtube_query_matches(
        "www.youtube.com/watch?v=z09GolEktUw&feature=youtu.be"
    ));
    assert!(youtube_query_matches(
        "https://music.youtube.com/watch?v=-t-75CCdM2o"
    ));
    assert!(youtube_query_matches(
        "https://music.youtube.com/playlist?list=OLAK5uy_kKEZSgdsNQxjhnQNwMy63GMNV_ZoTqI0w"
    ));
    assert!(youtube_query_matches(
        "https://www.youtube.com/watch?v=z09GolEktUw"
    ));
    assert!(youtube_query_matches("https://youtube.com/v/z09GolEktUw"));
    assert!(youtube_query_matches("youtu.be/z09GolEktUw"));

    assert!(!youtube_query_matches("https://www.youtube.com/"));
    assert!(!youtube_query_matches("https://www.youtube.com/@Ayrun"));
    assert!(!youtube_query_matches("youtube.com/"));
}

#[test]
fn youtube_watch_needs_a_video_id() {
    assert!(!youtube_query_matches("https://www.youtube.com/watch?v="));
    assert!(!youtube_query_matches("https://www.youtube.com/playlist"));
    assert!(youtube_query_matches("http://youtu.be/abc"));
    assert!(!youtube_query_matches("https://example.com/watch?v=abc"));
}

#[test]
fn test_url_extraction() {
    assert_eq!(
        extract_from_url("https://wavedistrict.com/@mapleleaf/tracks/traaaaaance"),
        Some(UrlExtraction::Track {
            user: "mapleleaf".to_string(),
            slug: "traaaaaance".to_string()
        })
    );
    assert_eq!(
        extract_from_url("https://wavedistrict.com/@enitoni/collections/over-the-mountains/tracks"),
        Some(UrlExtraction::Track {
            user: "enitoni".to_string(),
            slug: "over-the-mountains".to_string()
        })
    )
}

#[test]
fn wavedistrict_collections_and_refusals() {
    assert_eq!(
        extract_from_url("wavedistrict.com/@enitoni/collections/over-the-mountains"),
        Some(UrlExtraction::Collection {
            user: "enitoni".to_string(),
            slug: "over-the-mountains".to_string()
        })
    );
    assert_eq!(extract_from_url("https://wavedistrict.com/enitoni/tracks/x"), None);
    assert_eq!(extract_from_url("https://wavedistrict.com/@enitoni/likes/x"), None);
    assert_eq!(extract_from_url("https://wavedistrict.com/@enitoni/tracks"), None);
    assert_eq!(extract_from_url("https://example.com/@enitoni/tracks/x"), None);
}

#[test]
fn image_path_picks_widest_derived_source() {
    let media = MediaRef {
        key: "abc".to_string(),
        sources: vec![
            ImageSource { width: 2000, name: "original".to_string(), ext: "png".to_string() },
            ImageSource { width: 256, name: "small".to_string(), ext: "jpg".to_string() },
            ImageSource { width: 512, name: "large".to_string(), ext: "webp".to_string() },
            ImageSource { width: 128, name: "tiny".to_string(), ext: "jpg".to_string() },
        ],
    };
    assert_eq!(
        media.to_path(),
        Some("https://media.wavedistrict.com/images/abc.webp?source=large".to_string())
    );

    let only_original = MediaRef {
        key: "abc".to_string(),
        sources: vec![ImageSource { width: 2000, name: "original".to_string(), ext: "png".to_string() }],
    };
    assert_eq!(only_original.to_path(), None);
}

#[test]
fn audio_path_prefers_lossless() {
    let media = MediaRef {
        key: "song".to_string(),
        sources: vec![
            AudioSource { name: "original".to_string(), mime: "audio/flac".to_string(), ext: "flac".to_string() },
            AudioSource { name: "mp3".to_string(), mime: "audio/mpeg".to_string(), ext: "mp3".to_string() },
            AudioSource { name: "flac".to_string(), mime: "audio/flac".to_string(), ext: "flac".to_string() },
        ],
    };
    assert_eq!(
        media.to_path(),
        Some("https://media.wavedistrict.com/audio/song.flac?source=flac".to_string())
    );

    let compressed = MediaRef {
        key: "song".to_string(),
        sources: vec![AudioSource { name: "mp3".to_string(), mime: "audio/mpeg".to_string(), ext: "mp3".to_string() }],
    };
    assert_eq!(
        compressed.to_path(),
        Some("https://media.wavedistrict.com/audio/song.mp3?source=mp3".to_string())
    );

    let none: MediaRef<AudioSource> = MediaRef { key: "song".to_string(), sources: vec![] };
    assert_eq!(none.to_path(), None);
}

#[test]
fn thumbnail_is_widest_at_max_resolution() {
    let thumbnails = vec![
        Thumbnail { url: "https://i.ytimg.com/vi/x/default.jpg".to_string(), width: Some(120) },
        Thumbnail { url: "https://i.ytimg.com/vi/x/hqdefault.jpg".to_string(), width: Some(480) },
        Thumbnail { url: "https://i.ytimg.com/vi/x/unknown.jpg".to_string(), width: None },
    ];
    assert_eq!(determine_thumbnail(thumbnails), "https://i.ytimg.com/vi/x/maxresdefault.jpg");
    assert_eq!(determine_thumbnail(vec![]), "");
}

#[test]
fn file_queries() {
    assert!(file_query_matches("file:///home/user/music/song.mp3"));
    assert!(file_query_matches("file://C:\\music\\song.flac"));
    assert!(!file_query_matches("file:///home/user/music/song"));
    assert!(!file_query_matches("file:///home/user/my.music/song.mp3"));
    assert!(!file_query_matches("https://example.com/song.mp3"));
}

#[test]
fn yt_dlp_failures_are_sorted() {
    use_error(yt_dlp_failure("ERROR: Video unavailable. This video is not available in your country"), "unavailable");
    use_error(yt_dlp_failure("ERROR: [youtube] abc: Video unavailable"), "not found");
    use_error(yt_dlp_failure("ERROR: Incomplete YouTube ID abc"), "invalid");
    use_error(yt_dlp_failure("ERROR: network down"), "other");
}

fn use_error(error: InputError, kind: &str) {
    match (error, kind) {
        (InputError::Unavailable, "unavailable") => {}
        (InputError::NotFound, "not found") => {}
        (InputError::Invalid(message), "invalid") => assert_eq!(message, "Invalid Video ID"),
        (InputError::Other(message), "other") => assert_eq!(message, "ERROR: network down"),
        (error, kind) => panic!("expected {} but got {:?}", kind, error),
    }
}

#[test]
fn the_chosen_format_gives_the_stream_url() {
    let formats = vec![
        ("140".to_string(), "https://a".to_string()),
        ("251".to_string(), "https://b".to_string()),
        ("251".to_string(), "https://c".to_string()),
    ];
    assert_eq!(chosen_stream_url(&formats, "251"), Some("https://b".to_string()));
    assert_eq!(chosen_stream_url(&formats, "18"), None);
}

#[test]
fn queries_are_sorted_by_kind() {
    assert!(matches!(
        query_kind("https://www.youtube.com/watch?v=JwRWf3ho4B8"),
        Some(InputKind::YouTube)
    ));
    match query_kind("https://wavedistrict.com/@user/tracks/some-track") {
        Some(InputKind::WaveDistrict(extraction)) => assert_eq!(
            extraction,
            UrlExtraction::Track { user: "user".to_string(), slug: "some-track".to_string() }
        ),
        other => panic!("expected a WaveDistrict track, got {:?}", other),
    }
    assert!(matches!(query_kind("file:///home/user/music/song.mp3"), Some(InputKind::File)));
    assert!(query_kind("just some words").is_none());
    assert!(query_kind("file:///home/user/music/song").is_none());
}

#[test]
fn file_paths_follow_the_scheme() {
    assert_eq!(file_path("file:///home/user/music/song.mp3"), Some("/home/user/music/song.mp3".to_string()));
    assert_eq!(file_path("file://C:\\music\\song.flac"), Some("C:\\music\\song.flac".to_string()));
    assert_eq!(file_path("file://"), Some(String::new()));
    assert_eq!(file_path("/home/user/music/song.mp3"), None);
    assert_eq!(file_path("fil"), None);
}
