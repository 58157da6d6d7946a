//! Access to the `url` and `percent-encoding` crates behind trusted
//! wrappers. Each name below stands for the result of one outside call,
//! which depends on the call's arguments alone.

use vstd::prelude::*;

verus! {

/// Whether `url::Url::parse` accepts the string.
pub uninterp spec fn url_is_valid(s: Seq<char>) -> bool;

/// The serialization of the parsed URL: what `Url::to_string` returns.
pub uninterp spec fn url_normalized_of(s: Seq<char>) -> Seq<char>;

/// The decoded query pairs of the parsed URL, in order: what
/// `Url::query_pairs` yields.
pub uninterp spec fn url_query_pairs_of(s: Seq<char>) -> Seq<(Seq<char>, Seq<char>)>;

/// The last path segment of the parsed URL, still percent-encoded; empty
/// when the URL has no usable path.
pub uninterp spec fn url_last_segment_of(s: Seq<char>) -> Seq<char>;

/// What `percent_encoding::percent_decode_str(..).decode_utf8_lossy`
/// returns.
pub uninterp spec fn percent_decoded_of(s: Seq<char>) -> Seq<char>;

/// What `str::to_lowercase` returns; it depends on the characters alone.
pub uninterp spec fn lower_of(s: Seq<char>) -> Seq<char>;

/// The parts of a parsed URL that filename resolution reads.
pub struct UrlParts {
    pub normalized: String,
    pub pairs: Vec<(String, String)>,
    pub last_segment: String,
}

impl UrlParts {
    pub open spec fn pairs_view(&self) -> Seq<(Seq<char>, Seq<char>)> {
        self.pairs@.map_values(|p: (String, String)| (p.0@, p.1@))
    }
}

/// Relies on `url::Url::parse` and on the parsed URL's `to_string`,
/// `query_pairs` and `path_segments`: all are functions of the input
/// string alone.
#[verifier::external_body]
pub fn parse_url_parts(url: &str) -> (r: Option<UrlParts>)
    ensures
        r is Some <==> url_is_valid(url@),
        match r {
            Some(parts) => parts.normalized@ == url_normalized_of(url@) && parts.pairs_view()
                == url_query_pairs_of(url@) && parts.last_segment@ == url_last_segment_of(url@),
            None => true,
        },
{
    match url::Url::parse(url) {
        Ok(u) => {
            let normalized = u.to_string();
            let pairs = u.query_pairs().map(|q| (q.0.to_string(), q.1.to_string())).collect();
            let last_segment = match u.path_segments() {
                Some(segments) => segments.last().unwrap_or("").to_string(),
                None => String::new(),
            };
            Some(UrlParts { normalized, pairs, last_segment })
        },
        Err(_) => None,
    }
}

/// Relies on `percent_encoding::percent_decode_str` followed by
/// `decode_utf8_lossy`: a function of the input string alone.
#[verifier::external_body]
pub fn percent_decode_lossy(s: &str) -> (r: String)
    ensures
        r@ == percent_decoded_of(s@),
{
    percent_encoding::percent_decode_str(s).decode_utf8_lossy().to_string()
}

/// Relies on `str::to_lowercase`: the result depends on the characters
/// alone, and an empty string stays empty.
#[verifier::external_body]
pub fn to_lowercase(s: &str) -> (r: String)
    ensures
        r@ == lower_of(s@),
        s@.len() == 0 ==> r@.len() == 0,
{
    s.to_lowercase()
}

} // verus!
