use vstd::prelude::*;

use crate::text::has_prefix;

verus! {

/// The parts of a parsed URL that inputs look at.
pub struct ParsedUrl {
    /// The host, if the URL has one.
    pub host: Option<String>,
    /// The path, percent-encoded.
    pub path: String,
    /// The segments of the path after its leading '/', if the path starts with one.
    pub segments: Option<Vec<String>>,
    /// The decoded key-value pairs of the query.
    pub query_pairs: Vec<(String, String)>,
}

/// [ParsedUrl] with its text as character sequences.
pub struct UrlParts {
    pub host: Option<Seq<char>>,
    pub path: Seq<char>,
    pub segments: Option<Seq<Seq<char>>>,
    pub query_pairs: Seq<(Seq<char>, Seq<char>)>,
}

pub open spec fn texts(strings: Seq<String>) -> Seq<Seq<char>> {
    strings.map_values(|s: String| s@)
}

pub open spec fn text_pairs(pairs: Seq<(String, String)>) -> Seq<(Seq<char>, Seq<char>)> {
    pairs.map_values(|pair: (String, String)| (pair.0@, pair.1@))
}

impl View for ParsedUrl {
    type V = UrlParts;

    open spec fn view(&self) -> UrlParts {
        UrlParts {
            host: match self.host {
                Some(host) => Some(host@),
                None => None,
            },
            path: self.path@,
            segments: match self.segments {
                Some(segments) => Some(texts(segments@)),
                None => None,
            },
            query_pairs: text_pairs(self.query_pairs@),
        }
    }
}

pub open spec fn parsed_view(parsed: &Option<ParsedUrl>) -> Option<UrlParts> {
    match parsed {
        Some(url) => Some(url@),
        None => None,
    }
}

/// What `Url::parse` of `url` makes of the text: `None` where it refuses it,
/// otherwise the URL's host, path, path segments and query pairs.
pub uninterp spec fn url_parts(text: Seq<char>) -> Option<UrlParts>;

/// `Url::parse` of `url`, with the parsed URL's `host_str`, `path`,
/// `path_segments` and `query_pairs` converted to owned strings. The parts depend
/// on the text alone.
#[verifier::external_body]
pub(crate) fn parse_url(text: &str) -> (parsed: Option<ParsedUrl>)
    ensures
        parsed_view(&parsed) == url_parts(text@),
{
    match url::Url::parse(text) {
        Ok(url) => Some(ParsedUrl {
            host: url.host_str().map(|host| host.to_string()),
            path: url.path().to_string(),
            segments: url.path_segments().map(|segments| segments.map(|s| s.to_string()).collect()),
            query_pairs: url.query_pairs().map(|(k, v)| (k.into_owned(), v.into_owned())).collect(),
        }),
        Err(_) => None,
    }
}

/// The query with its scheme made `https://`: a leading `https://` or `http://`
/// is replaced, and where there is none, `https://` is put in front.
pub open spec fn with_https_scheme(query: Seq<char>) -> Seq<char> {
    if has_prefix(query, "https://"@) {
        "https://"@ + query.skip(8)
    } else if has_prefix(query, "http://"@) {
        "https://"@ + query.skip(7)
    } else {
        "https://"@ + query
    }
}

/// `Regex::new(r"^(https?://)?")` of `regex`, then `replace` of its first match
/// in the query with `https://`. The pattern matches a leading `https://`, or
/// else a leading `http://`, or else the empty text at the start.
#[verifier::external_body]
pub(crate) fn replace_url_scheme(query: &str) -> (replaced: String)
    ensures
        replaced@ == with_https_scheme(query@),
{
    regex::Regex::new(r"^(https?://)?").unwrap().replace(query, "https://").into_owned()
}

} // verus!
