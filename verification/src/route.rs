//! The addresses the reader answers: `/res/NAME` for a static resource,
//! `/article/TITLE` for an article and `/search?…` for a search, whose query
//! is the value of the first parameter.

use vstd::prelude::*;
use vstd::string::*;
use crate::text::same_text;

verus! {

/// A parsed address, as the URL library holds it.
#[verifier::external_type_specification]
#[verifier::external_body]
pub struct ExUrl(url::Url);

/// What the router looks at in an address: the segments of its path, where
/// it has a path that can be split, and the value of its first query
/// parameter, where it has one.
pub struct UrlParts {
    pub segments: Option<Seq<Seq<char>>>,
    pub first_query_value: Option<Seq<char>>,
}

/// What a parsed address holds.
pub uninterp spec fn url_parts(u: url::Url) -> UrlParts;

/// What the text of an address parses to, or `None` where the parser
/// rejects it.
pub uninterp spec fn url_parsed(text: Seq<char>) -> Option<UrlParts>;

/// The text that a percent-encoded text stands for, or `None` where what it
/// encodes is not UTF-8.
pub uninterp spec fn percent_decoded(text: Seq<char>) -> Option<Seq<char>>;

/// Why an address names nothing.
#[derive(Clone, Copy, Debug, PartialEq, Eq, Structural)]
pub enum UrlError {
    /// The first path segment is none of `res`, `article`, `search`.
    UnknownNamespace,
    /// The path lacks a segment.
    IncompletePath,
    /// A search has no query parameter.
    MissingParameter,
    /// The text is not an address with a path, or a segment does not decode.
    InvalidUrl,
}

impl UrlError {
    /// What the error says to a reader.
    pub open spec fn message_text(&self) -> Seq<char> {
        match self {
            UrlError::UnknownNamespace => "url namespace not found"@,
            UrlError::IncompletePath => "url path is incomplete"@,
            UrlError::MissingParameter => "missing query parameter"@,
            UrlError::InvalidUrl => "not a url with a path"@,
        }
    }

    /// The error as a message.
    pub fn message(&self) -> (r: String)
        ensures
            r@ == self.message_text(),
    {
        match self {
            UrlError::UnknownNamespace => "url namespace not found",
            UrlError::IncompletePath => "url path is incomplete",
            UrlError::MissingParameter => "missing query parameter",
            UrlError::InvalidUrl => "not a url with a path",
        }.to_owned()
    }
}

/// What an address names.
#[derive(Debug)]
pub enum ParsedUrl {
    Resource(String),
    Article(String),
    Search(String),
}

/// A `ParsedUrl` over sequences of characters.
pub enum Route {
    Resource(Seq<char>),
    Article(Seq<char>),
    Search(Seq<char>),
}

impl View for ParsedUrl {
    type V = Route;

    open spec fn view(&self) -> Route {
        match self {
            ParsedUrl::Resource(name) => Route::Resource(name@),
            ParsedUrl::Article(name) => Route::Article(name@),
            ParsedUrl::Search(query) => Route::Search(query@),
        }
    }
}

/// The outcome of routing, over views.
pub open spec fn routed(r: Result<ParsedUrl, UrlError>) -> Result<Route, UrlError> {
    match r {
        Ok(p) => Ok(p@),
        Err(e) => Err(e),
    }
}

/// The decoded segment at position `at`.
pub open spec fn segment_at(segments: Seq<Seq<char>>, at: int) -> Result<Seq<char>, UrlError> {
    if 0 <= at < segments.len() {
        match percent_decoded(segments[at]) {
            Some(text) => Ok(text),
            None => Err(UrlError::InvalidUrl),
        }
    } else {
        Err(UrlError::IncompletePath)
    }
}

/// What the path segments and the first query value name: the first segment
/// chooses the namespace; a resource or an article is named by the second
/// segment, a search by the query value.
pub open spec fn route_of(segments: Seq<Seq<char>>, first_query_value: Option<Seq<char>>) -> Result<
    Route,
    UrlError,
> {
    match segment_at(segments, 0) {
        Err(e) => Err(e),
        Ok(namespace) => if namespace == "res"@ {
            match segment_at(segments, 1) {
                Ok(name) => Ok(Route::Resource(name)),
                Err(e) => Err(e),
            }
        } else if namespace == "article"@ {
            match segment_at(segments, 1) {
                Ok(name) => Ok(Route::Article(name)),
                Err(e) => Err(e),
            }
        } else if namespace == "search"@ {
            match first_query_value {
                Some(query) => Ok(Route::Search(query)),
                None => Err(UrlError::MissingParameter),
            }
        } else {
            Err(UrlError::UnknownNamespace)
        },
    }
}

/// What the text of an address names.
pub open spec fn route_of_text(text: Seq<char>) -> Result<Route, UrlError> {
    match url_parsed(text) {
        None => Err(UrlError::InvalidUrl),
        Some(parts) => match parts.segments {
            None => Err(UrlError::InvalidUrl),
            Some(segments) => route_of(segments, parts.first_query_value),
        },
    }
}

/// Calls `url::Url::parse`. Trusted: the result is a function of the text
/// alone.
#[verifier::external_body]
fn parse_address(text: &str) -> (r: Option<url::Url>)
    ensures
        match r {
            Some(u) => url_parsed(text@) == Some(url_parts(u)),
            None => url_parsed(text@) is None,
        },
{
    url::Url::parse(text).ok()
}

/// Calls `url::Url::path_segments` and collects the segments. Trusted: the
/// segments are those of the parsed address.
#[verifier::external_body]
fn path_segments(u: &url::Url) -> (r: Option<Vec<String>>)
    ensures
        match r {
            Some(v) => url_parts(*u).segments == Some(v@.map_values(|s: String| s@)),
            None => url_parts(*u).segments is None,
        },
{
    Some(u.path_segments()?.map(|s| s.to_string()).collect())
}

/// Calls `url::Url::query_pairs` and takes the value of the first pair.
/// Trusted: the value is that of the parsed address.
#[verifier::external_body]
fn first_query_value(u: &url::Url) -> (r: Option<String>)
    ensures
        match r {
            Some(v) => url_parts(*u).first_query_value == Some(v@),
            None => url_parts(*u).first_query_value is None,
        },
{
    u.query_pairs().next().map(|pair| pair.1.to_string())
}

/// Calls `urlencoding::decode`. Trusted: the result is a function of the
/// text alone.
#[verifier::external_body]
fn percent_decode(text: &str) -> (r: Option<String>)
    ensures
        match r {
            Some(v) => percent_decoded(text@) == Some(v@),
            None => percent_decoded(text@) is None,
        },
{
    urlencoding::decode(text).ok().map(|v| v.into_owned())
}

/// The decoded segment at position `at`.
fn decoded_segment(segments: &Vec<String>, at: usize) -> (r: Result<String, UrlError>)
    ensures
        match r {
            Ok(text) => segment_at(segments@.map_values(|s: String| s@), at as int) == Ok::<
                Seq<char>,
                UrlError,
            >(text@),
            Err(e) => segment_at(segments@.map_values(|s: String| s@), at as int) == Err::<
                Seq<char>,
                UrlError,
            >(e),
        },
{
    if at >= segments.len() {
        return Err(UrlError::IncompletePath);
    }
    match percent_decode(segments[at].as_str()) {
        Some(text) => Ok(text),
        None => Err(UrlError::InvalidUrl),
    }
}

/// What the path segments and the first query value of an address name.
pub fn resolve(segments: &Vec<String>, query: Option<String>) -> (r: Result<ParsedUrl, UrlError>)
    ensures
        routed(r) == route_of(
            segments@.map_values(|s: String| s@),
            match query {
                Some(q) => Some(q@),
                None => None,
            },
        ),
{
    let namespace = match decoded_segment(segments, 0) {
        Ok(text) => text,
        Err(e) => {
            return Err(e);
        },
    };
    if same_text(namespace.as_str(), "res") {
        match decoded_segment(segments, 1) {
            Ok(name) => Ok(ParsedUrl::Resource(name)),
            Err(e) => Err(e),
        }
    } else if same_text(namespace.as_str(), "article") {
        match decoded_segment(segments, 1) {
            Ok(name) => Ok(ParsedUrl::Article(name)),
            Err(e) => Err(e),
        }
    } else if same_text(namespace.as_str(), "search") {
        match query {
            Some(q) => Ok(ParsedUrl::Search(q)),
            None => Err(UrlError::MissingParameter),
        }
    } else {
        Err(UrlError::UnknownNamespace)
    }
}

/// What the text of an address names.
pub fn parse_url(text: &str) -> (r: Result<ParsedUrl, UrlError>)
    ensures
        routed(r) == route_of_text(text@),
{
    let address = match parse_address(text) {
        Some(u) => u,
        None => {
            return Err(UrlError::InvalidUrl);
        },
    };
    let segments = match path_segments(&address) {
        Some(v) => v,
        None => {
            return Err(UrlError::InvalidUrl);
        },
    };
    let query = first_query_value(&address);
    resolve(&segments, query)
}

} // verus!
