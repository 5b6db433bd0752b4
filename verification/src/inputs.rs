use vstd::prelude::*;
use vstd::string::StringExecFns;

use crate::data::InputError;
use crate::errors::InputErrorView;
use crate::text::{
    contains_text, has_infix, ends_with, has_prefix, has_suffix, remove_char, replace_all, replaced, same_text, starts_with,
    strip_prefix,
    without_char,
};
use crate::url::{parse_url, replace_url_scheme, texts, url_parts, with_https_scheme, ParsedUrl, UrlParts};

verus! {

broadcast use vstd::string::group_string_axioms;

pub const MEDIA_BASE: &'static str = "https://media.wavedistrict.com";

/// The query has a pair with the key and a value that is not empty.
pub open spec fn has_filled_pair(pairs: Seq<(Seq<char>, Seq<char>)>, key: Seq<char>) -> bool {
    exists|i: int| 0 <= i < pairs.len() && (#[trigger] pairs[i]).0 == key && pairs[i].1.len() > 0
}

/// The URL is a YouTube video, a YouTube playlist or a youtu.be link.
pub open spec fn youtube_url(url: UrlParts) -> bool {
    let on_youtube = url.host matches Some(host) && has_suffix(host, "youtube.com"@);
    ||| on_youtube && has_prefix(url.path, "/watch"@) && has_filled_pair(url.query_pairs, "v"@)
    ||| on_youtube && has_prefix(url.path, "/v/"@)
    ||| on_youtube && url.path == "/playlist"@ && has_filled_pair(url.query_pairs, "list"@)
    ||| url.host == Some("youtu.be"@) && url.path.len() > 0
}

fn has_filled_pair_exec(pairs: &Vec<(String, String)>, key: &str) -> (found: bool)
    ensures
        found == has_filled_pair(crate::url::text_pairs(pairs@), key@),
{
    let ghost view = crate::url::text_pairs(pairs@);
    let mut index: usize = 0;
    while index < pairs.len()
        invariant
            index <= pairs@.len(),
            view == crate::url::text_pairs(pairs@),
            forall|i: int| 0 <= i < index ==> !((#[trigger] view[i]).0 == key@ && view[i].1.len() > 0),
        decreases pairs@.len() - index,
    {
        let pair = &pairs[index];
        if same_text(pair.0.as_str(), key) && pair.1.as_str().unicode_len() > 0 {
            assert(view[index as int] == (pair.0@, pair.1@));
            return true;
        }
        assert(view[index as int] == (pair.0@, pair.1@));
        index = index + 1;
    }
    false
}

/// Returns true if the parsed URL is one of a YouTube video or playlist.
pub fn youtube_url_matches(url: &ParsedUrl) -> (matches: bool)
    ensures
        matches == youtube_url(url@),
{
    let on_youtube = match &url.host {
        Some(host) => ends_with(host.as_str(), "youtube.com"),
        None => false,
    };
    if on_youtube {
        // Test /watch?v=...
        if starts_with(url.path.as_str(), "/watch") && has_filled_pair_exec(&url.query_pairs, "v") {
            return true;
        }
        // Test /v/...
        if starts_with(url.path.as_str(), "/v/") {
            return true;
        }
        // Test playlists
        if same_text(url.path.as_str(), "/playlist") && has_filled_pair_exec(&url.query_pairs, "list") {
            return true;
        }
    }
    // Test youtu.be/...
    let on_short_host = match &url.host {
        Some(host) => same_text(host.as_str(), "youtu.be"),
        None => false,
    };
    on_short_host && url.path.as_str().unicode_len() > 0
}

/// Returns true if the query is a link to a YouTube video or playlist, with or without its scheme.
pub fn youtube_query_matches(query: &str) -> (matches: bool)
    ensures
        matches == (url_parts(with_https_scheme(query@)) matches Some(url) && youtube_url(url)),
{
    let normalized = replace_url_scheme(query);
    match parse_url(normalized.as_str()) {
        Some(url) => youtube_url_matches(&url),
        None => false,
    }
}

/// A resource of WaveDistrict that a URL points to.
#[derive(Debug, PartialEq, Eq)]
pub enum UrlExtraction {
    Track { user: String, slug: String },
    Collection { user: String, slug: String },
}

/// What a WaveDistrict URL points to: a track for `/@user/tracks/slug`, and for
/// `/@user/collections/slug/tracks`, the tracks of the collection; a collection
/// for any other path under `/@user/collections/slug`.
pub open spec fn wavedistrict_resource(url: UrlParts) -> Option<(bool, Seq<char>, Seq<char>)> {
    if !(url.host matches Some(host) && has_suffix(host, "wavedistrict.com"@)) {
        None
    } else {
        match url.segments {
            None => None,
            Some(segments) => if segments.len() < 3 || !has_prefix(segments[0], "@"@) {
                None
            } else {
                let user = without_char(segments[0], '@');
                let slug = segments[2];
                if segments[1] == "tracks"@ {
                    Some((true, user, slug))
                } else if segments[1] == "collections"@ {
                    Some((segments.len() > 3 && segments[3] == "tracks"@, user, slug))
                } else {
                    None
                }
            },
        }
    }
}

pub open spec fn extraction_view(extraction: &Option<UrlExtraction>) -> Option<(bool, Seq<char>, Seq<char>)> {
    match extraction {
        Some(UrlExtraction::Track { user, slug }) => Some((true, user@, slug@)),
        Some(UrlExtraction::Collection { user, slug }) => Some((false, user@, slug@)),
        None => None,
    }
}

/// Extracts the resource a parsed WaveDistrict URL points to.
pub fn extract_from_parsed_url(url: &ParsedUrl) -> (extraction: Option<UrlExtraction>)
    ensures
        extraction_view(&extraction) == wavedistrict_resource(url@),
{
    match &url.host {
        Some(host) => {
            if !ends_with(host.as_str(), "wavedistrict.com") {
                return None;
            }
        },
        None => {
            return None;
        },
    }
    let segments = match &url.segments {
        Some(segments) => segments,
        None => {
            return None;
        },
    };
    proof {
        assert(texts(segments@).len() == segments@.len());
    }
    if segments.len() < 3 {
        return None;
    }
    proof {
        assert(texts(segments@)[0] == segments@[0]@);
        assert(texts(segments@)[1] == segments@[1]@);
        assert(texts(segments@)[2] == segments@[2]@);
    }
    let user = segments[0].as_str();
    let resource = segments[1].as_str();
    let slug = segments[2].as_str();

    if !starts_with(user, "@") {
        return None;
    }

    let user = remove_char(user, '@');
    let slug = String::from_str(slug);

    if same_text(resource, "tracks") {
        Some(UrlExtraction::Track { user, slug })
    } else if same_text(resource, "collections") {
        let lists_tracks = if segments.len() > 3 {
            proof {
                assert(texts(segments@)[3] == segments@[3]@);
            }
            same_text(segments[3].as_str(), "tracks")
        } else {
            false
        };
        if lists_tracks {
            Some(UrlExtraction::Track { user, slug })
        } else {
            Some(UrlExtraction::Collection { user, slug })
        }
    } else {
        None
    }
}

/// Extracts the resource a WaveDistrict URL points to, if it points to one.
pub fn extract_from_url(query: &str) -> (extraction: Option<UrlExtraction>)
    ensures
        extraction_view(&extraction) == match url_parts(with_https_scheme(query@)) {
            Some(url) => wavedistrict_resource(url),
            None => None,
        },
{
    let normalized = replace_url_scheme(query);
    match parse_url(normalized.as_str()) {
        Some(url) => extract_from_parsed_url(&url),
        None => None,
    }
}

/// An image of a WaveDistrict media reference.
#[derive(Debug, Clone)]
pub struct ImageSource {
    pub width: u32,
    pub name: String,
    pub ext: String,
}

/// An audio file of a WaveDistrict media reference.
#[derive(Debug, Clone)]
pub struct AudioSource {
    pub name: String,
    pub mime: String,
    pub ext: String,
}

/// A WaveDistrict media reference: a key and the files stored under it.
#[derive(Debug, Clone)]
pub struct MediaRef<Source> {
    pub key: String,
    pub sources: Vec<Source>,
}

/// The source is not the original upload.
pub open spec fn is_derived(name: Seq<char>) -> bool {
    name != "original"@
}

/// The index of the widest image that is not the original, the last one among
/// equally wide ones.
pub open spec fn is_widest_image(sources: Seq<ImageSource>, index: int) -> bool {
    &&& 0 <= index < sources.len()
    &&& is_derived(sources[index].name@)
    &&& forall|j: int| 0 <= j < sources.len() && is_derived((#[trigger] sources[j]).name@)
        ==> sources[j].width <= sources[index].width
    &&& forall|j: int| index < j < sources.len() && is_derived((#[trigger] sources[j]).name@)
        ==> sources[j].width < sources[index].width
}

/// The address of a stored file.
pub open spec fn media_path(kind: Seq<char>, key: Seq<char>, ext: Seq<char>, name: Seq<char>) -> Seq<char> {
    MEDIA_BASE@ + "/"@ + kind + "/"@ + key + "."@ + ext + "?source="@ + name
}

fn media_path_text(kind: &str, key: &str, ext: &str, name: &str) -> (path: String)
    ensures
        path@ == media_path(kind@, key@, ext@, name@),
{
    String::from_str(MEDIA_BASE).concat("/").concat(kind).concat("/").concat(key).concat(".").concat(
        ext,
    ).concat("?source=").concat(name)
}

impl MediaRef<ImageSource> {
    /// Returns the address of the widest image that is not the original.
    pub fn to_path(&self) -> (path: Option<String>)
        ensures
            match path {
                Some(path) => exists|i: int|
                    is_widest_image(self.sources@, i) && path@ == media_path(
                        "images"@,
                        self.key@,
                        self.sources@[i].ext@,
                        self.sources@[i].name@,
                    ),
                None => forall|j: int|
                    0 <= j < self.sources@.len() ==> !is_derived((#[trigger] self.sources@[j]).name@),
            },
    {
        let mut best: Option<usize> = None;
        let mut index: usize = 0;
        while index < self.sources.len()
            invariant
                index <= self.sources@.len(),
                match best {
                    Some(b) => b < index && is_widest_image(self.sources@.take(index as int), b as int),
                    None => forall|j: int|
                        0 <= j < index ==> !is_derived((#[trigger] self.sources@[j]).name@),
                },
            decreases self.sources@.len() - index,
        {
            let source = &self.sources[index];
            let ghost prefix = self.sources@.take(index + 1);
            if !same_text(source.name.as_str(), "original") {
                let replace = match best {
                    Some(b) => self.sources[b].width <= source.width,
                    None => true,
                };
                if replace {
                    best = Some(index);
                }
            }
            proof {
                assert(prefix[index as int] == self.sources@[index as int]);
                match best {
                    Some(b) => {
                        assert(prefix[b as int] == self.sources@[b as int]);
                        assert forall|j: int| 0 <= j < prefix.len() && is_derived((#[trigger] prefix[j]).name@)
                            implies prefix[j].width <= prefix[b as int].width by {
                            if j < index {
                                assert(prefix[j] == self.sources@.take(index as int)[j]);
                            }
                        }
                        assert forall|j: int| b < j < prefix.len() && is_derived((#[trigger] prefix[j]).name@)
                            implies prefix[j].width < prefix[b as int].width by {
                            if j < index {
                                assert(prefix[j] == self.sources@.take(index as int)[j]);
                            }
                        }
                    },
                    None => {},
                }
            }
            index = index + 1;
        }
        proof {
            assert(self.sources@.take(index as int) =~= self.sources@);
        }
        match best {
            Some(b) => {
                let source = &self.sources[b];
                Some(media_path_text("images", self.key.as_str(), source.ext.as_str(), source.name.as_str()))
            },
            None => None,
        }
    }
}

/// The index of the first audio file of the MIME type that is not the original.
pub open spec fn is_first_audio(sources: Seq<AudioSource>, mime: Seq<char>, index: int) -> bool {
    &&& 0 <= index < sources.len()
    &&& is_derived(sources[index].name@)
    &&& sources[index].mime@ == mime
    &&& forall|j: int| 0 <= j < index ==> !(is_derived((#[trigger] sources[j]).name@) && sources[j].mime@ == mime)
}

pub open spec fn has_audio(sources: Seq<AudioSource>, mime: Seq<char>) -> bool {
    exists|i: int| 0 <= i < sources.len() && is_derived((#[trigger] sources[i]).name@) && sources[i].mime@ == mime
}

fn first_audio(sources: &Vec<AudioSource>, mime: &str) -> (found: Option<usize>)
    ensures
        match found {
            Some(i) => is_first_audio(sources@, mime@, i as int),
            None => !has_audio(sources@, mime@),
        },
{
    let mut index: usize = 0;
    while index < sources.len()
        invariant
            index <= sources@.len(),
            forall|j: int| 0 <= j < index ==> !(is_derived((#[trigger] sources@[j]).name@) && sources@[j].mime@ == mime@),
        decreases sources@.len() - index,
    {
        let source = &sources[index];
        if !same_text(source.name.as_str(), "original") && same_text(source.mime.as_str(), mime) {
            return Some(index);
        }
        index = index + 1;
    }
    None
}

impl MediaRef<AudioSource> {
    /// Returns the address of the first lossless audio file that is not the
    /// original, or else of the first compressed one.
    pub fn to_path(&self) -> (path: Option<String>)
        ensures
            match path {
                Some(path) => exists|i: int|
                    (is_first_audio(self.sources@, "audio/flac"@, i) || (!has_audio(self.sources@, "audio/flac"@)
                        && is_first_audio(self.sources@, "audio/mpeg"@, i))) && path@ == media_path(
                        "audio"@,
                        self.key@,
                        self.sources@[i].ext@,
                        self.sources@[i].name@,
                    ),
                None => !has_audio(self.sources@, "audio/flac"@) && !has_audio(self.sources@, "audio/mpeg"@),
            },
    {
        let best = match first_audio(&self.sources, "audio/flac") {
            Some(i) => Some(i),
            None => first_audio(&self.sources, "audio/mpeg"),
        };
        match best {
            Some(b) => {
                let source = &self.sources[b];
                Some(media_path_text("audio", self.key.as_str(), source.ext.as_str(), source.name.as_str()))
            },
            None => None,
        }
    }
}

/// A thumbnail of a YouTube video.
#[derive(Debug, Clone)]
pub struct Thumbnail {
    pub url: String,
    pub width: Option<u32>,
}

/// Widths are ordered with an unknown width first.
pub open spec fn width_below(a: Option<u32>, b: Option<u32>) -> bool {
    match (a, b) {
        (None, Some(_)) => true,
        (Some(x), Some(y)) => x < y,
        _ => false,
    }
}

/// The index of the widest thumbnail, the last one among equally wide ones.
pub open spec fn is_widest_thumbnail(thumbnails: Seq<Thumbnail>, index: int) -> bool {
    &&& 0 <= index < thumbnails.len()
    &&& forall|j: int| 0 <= j < thumbnails.len() ==> !width_below(thumbnails[index].width, (#[trigger] thumbnails[j]).width)
    &&& forall|j: int| index < j < thumbnails.len() ==> width_below((#[trigger] thumbnails[j]).width, thumbnails[index].width)
}

fn width_at_most(a: Option<u32>, b: Option<u32>) -> (at_most: bool)
    ensures
        at_most == !width_below(b, a),
{
    match (a, b) {
        (None, _) => true,
        (Some(_), None) => false,
        (Some(x), Some(y)) => x <= y,
    }
}

/// Picks the widest thumbnail, at its largest resolution, or an empty address if there is none.
pub fn determine_thumbnail(thumbnails: Vec<Thumbnail>) -> (url: String)
    ensures
        thumbnails@.len() == 0 ==> url@ == Seq::<char>::empty(),
        thumbnails@.len() > 0 ==> exists|i: int|
            is_widest_thumbnail(thumbnails@, i) && url@ == replaced(
                thumbnails@[i].url@,
                "hqdefault"@,
                "maxresdefault"@,
            ),
{
    if thumbnails.len() == 0 {
        return String::new();
    }
    let mut best: usize = 0;
    let mut index: usize = 1;
    while index < thumbnails.len()
        invariant
            1 <= index <= thumbnails@.len(),
            best < index,
            is_widest_thumbnail(thumbnails@.take(index as int), best as int),
        decreases thumbnails@.len() - index,
    {
        let ghost prefix = thumbnails@.take(index + 1);
        if width_at_most(thumbnails[best].width, thumbnails[index].width) {
            best = index;
        }
        proof {
            assert(prefix[best as int] == thumbnails@[best as int]);
            assert forall|j: int| 0 <= j < prefix.len() implies !width_below(prefix[best as int].width, (#[trigger] prefix[j]).width) by {
                if j < index {
                    assert(prefix[j] == thumbnails@.take(index as int)[j]);
                }
            }
            assert forall|j: int| best < j < prefix.len() implies width_below((#[trigger] prefix[j]).width, prefix[best as int].width) by {
                if j < index {
                    assert(prefix[j] == thumbnails@.take(index as int)[j]);
                }
            }
        }
        index = index + 1;
    }
    proof {
        assert(thumbnails@.take(index as int) =~= thumbnails@);
    }
    replace_all(thumbnails[best].url.as_str(), "hqdefault", "maxresdefault")
}

/// The query is `file://`, then a path of letters, digits and `_/\:-`, a dot,
/// and an extension of letters, digits and `_`.
pub open spec fn is_file_query(query: Seq<char>) -> bool {
    &&& has_prefix(query, "file://"@)
    &&& exists|dot: int| 7 < dot < query.len() - 1 && query[dot] == '.' && forall|i: int|
        7 <= i < query.len() && i != dot ==> is_path_char(#[trigger] query[i], i < dot)
}

/// A character allowed in the stem of a file path (or, if not, in its extension).
pub open spec fn is_path_char(c: char, in_stem: bool) -> bool {
    ||| ('a' <= c <= 'z') || ('A' <= c <= 'Z') || ('0' <= c <= '9') || c == '_'
    ||| in_stem && (c == '/' || c == '\\' || c == ':' || c == '-')
}

/// `Regex::new(r"^file://([a-zA-Z0-9_/\\:-]+\.[a-zA-Z0-9_]+)$")` of `regex`, then
/// `is_match` on the query. The stem's characters exclude the dot, so the dot
/// before the extension is the only one.
#[verifier::external_body]
fn file_pattern_matches(query: &str) -> (matches: bool)
    ensures
        matches == is_file_query(query@),
{
    regex::Regex::new(r"^file://([a-zA-Z0-9_/\\:-]+\.[a-zA-Z0-9_]+)$").unwrap().is_match(query)
}

/// Returns true if the query is the address of a local file.
pub fn file_query_matches(query: &str) -> (matches: bool)
    ensures
        matches == is_file_query(query@),
{
    file_pattern_matches(query)
}

/// The path of a file query: what follows `file://`, if the query starts with it.
pub fn file_path(query: &str) -> (path: Option<String>)
    ensures
        path is Some <==> has_prefix(query@, FILE_SCHEME@),
        path matches Some(path) ==> path@ == query@.skip(FILE_SCHEME@.len() as int),
{
    strip_prefix(query, FILE_SCHEME)
}

/// The scheme that file queries start with.
pub const FILE_SCHEME: &'static str = "file://";

/// The query links to a YouTube video or playlist, with or without its scheme.
pub open spec fn is_youtube_query(query: Seq<char>) -> bool {
    url_parts(with_https_scheme(query)) matches Some(url) && youtube_url(url)
}

/// The WaveDistrict resource that the query links to, if any.
pub open spec fn wavedistrict_query(query: Seq<char>) -> Option<(bool, Seq<char>, Seq<char>)> {
    match url_parts(with_https_scheme(query)) {
        Some(url) => wavedistrict_resource(url),
        None => None,
    }
}

/// The kind of input a query asks for.
#[derive(Debug)]
pub enum InputKind {
    YouTube,
    WaveDistrict(UrlExtraction),
    File,
}

/// Decides which kind of input a query asks for: a YouTube link comes first,
/// then a WaveDistrict link, then a file; a query that is none of them matches nothing.
pub fn query_kind(query: &str) -> (kind: Option<InputKind>)
    ensures
        match kind {
            Some(InputKind::YouTube) => is_youtube_query(query@),
            Some(InputKind::WaveDistrict(extraction)) => !is_youtube_query(query@)
                && wavedistrict_query(query@) == extraction_view(&Some(extraction)),
            Some(InputKind::File) => !is_youtube_query(query@) && wavedistrict_query(query@) is None
                && is_file_query(query@),
            None => !is_youtube_query(query@) && wavedistrict_query(query@) is None && !is_file_query(query@),
        },
{
    if youtube_query_matches(query) {
        return Some(InputKind::YouTube);
    }
    if let Some(extraction) = extract_from_url(query) {
        return Some(InputKind::WaveDistrict(extraction));
    }
    if file_query_matches(query) {
        return Some(InputKind::File);
    }
    None
}

/// What yt-dlp writes when a video exists but cannot be played.
pub const YT_UNAVAILABLE: &'static str = "Video unavailable. This video is not available";

/// What yt-dlp writes when a video does not exist.
pub const YT_NOT_FOUND: &'static str = "Video unavailable";

/// What yt-dlp writes when a video id is cut short.
pub const YT_ID_ERROR: &'static str = "Incomplete YouTube ID";

/// The error a failed run of yt-dlp is answered with, by what it wrote to its
/// error output: the first of the known messages it contains decides.
pub open spec fn yt_dlp_failure_view(stderr: Seq<char>) -> InputErrorView {
    if has_infix(stderr, YT_UNAVAILABLE@) {
        InputErrorView::Unavailable
    } else if has_infix(stderr, YT_NOT_FOUND@) {
        InputErrorView::NotFound
    } else if has_infix(stderr, YT_ID_ERROR@) {
        InputErrorView::Invalid("Invalid Video ID"@)
    } else {
        InputErrorView::Other(stderr)
    }
}

/// Sorts the error output of a failed run of yt-dlp into an input error.
pub fn yt_dlp_failure(stderr: &str) -> (error: InputError)
    ensures
        error@ == yt_dlp_failure_view(stderr@),
{
    if contains_text(stderr, YT_UNAVAILABLE) {
        return InputError::Unavailable;
    }
    if contains_text(stderr, YT_NOT_FOUND) {
        return InputError::NotFound;
    }
    if contains_text(stderr, YT_ID_ERROR) {
        return InputError::Invalid(String::from_str("Invalid Video ID"));
    }
    InputError::Other(String::from_str(stderr))
}

/// The index of the first format with the given id.
pub open spec fn is_first_format(formats: Seq<(String, String)>, format_id: Seq<char>, index: int) -> bool {
    &&& 0 <= index < formats.len()
    &&& formats[index].0@ == format_id
    &&& forall|j: int| 0 <= j < index ==> (#[trigger] formats[j]).0@ != format_id
}

/// The address of the stream yt-dlp chose: the address of the first format,
/// given as pairs of a format id and an address, whose id is the chosen one.
pub fn chosen_stream_url(formats: &Vec<(String, String)>, format_id: &str) -> (url: Option<String>)
    ensures
        match url {
            Some(url) => exists|i: int| is_first_format(formats@, format_id@, i) && url@ == formats@[i].1@,
            None => forall|i: int| 0 <= i < formats@.len() ==> (#[trigger] formats@[i]).0@ != format_id@,
        },
{
    let mut index: usize = 0;
    while index < formats.len()
        invariant
            index <= formats@.len(),
            forall|j: int| 0 <= j < index ==> (#[trigger] formats@[j]).0@ != format_id@,
        decreases formats@.len() - index,
    {
        if same_text(formats[index].0.as_str(), format_id) {
            let url = String::from_str(formats[index].1.as_str());
            assert(is_first_format(formats@, format_id@, index as int));
            return Some(url);
        }
        index = index + 1;
    }
    None
}

} // verus!
