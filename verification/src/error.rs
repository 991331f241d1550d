//! Error taxonomy of the inference engine. Only three kinds cross the
//! engine boundary from `infer`: the page fetch failed, no candidates were
//! found, or no candidate decoded; everything finer is absorbed internally.

use vstd::prelude::*;

verus! {

/// Parsing failures for various primitives.
#[derive(Debug, PartialEq, Eq)]
pub enum ParseError {
    /// A numeric field was not a decimal integer; holds the offending text.
    Int(String),
    /// A URL failed to parse; holds the offending text.
    Url(String),
    /// A dimension string was malformed; holds the offending text.
    Size(String),
}

/// Errors of the icon inference engine.
#[derive(Debug, PartialEq, Eq)]
pub enum Error {
    /// The initial page fetch failed (or its body was unreadable).
    /// Fatal for the whole call.
    FetchPage(String),
    /// The page was fetched but held no icon link with both a `rel`
    /// mentioning "icon" and an `href` that resolves. Fatal.
    NoCandidates,
    /// Candidates existed but every download or decode failed. Fatal.
    NoIconsDecoded,
    /// Parsing failures for various primitives.
    Parse(ParseError),
    /// Errors that occur while inferring an application name from a URL.
    InferName { url: String, reason: String },
}

impl ParseError {
    /// The rendered description of this error.
    pub open spec fn spec_message(&self) -> Seq<char> {
        match self {
            ParseError::Int(t) => "int: "@ + t@,
            ParseError::Url(t) => "url: "@ + t@,
            ParseError::Size(t) => "size: input: "@ + t@,
        }
    }

    /// Render the error as text.
    pub fn message(&self) -> (r: String)
        ensures
            r@ == self.spec_message(),
    {
        match self {
            ParseError::Int(t) => {
                let mut m = "int: ".to_owned();
                m.append(t.as_str());
                m
            },
            ParseError::Url(t) => {
                let mut m = "url: ".to_owned();
                m.append(t.as_str());
                m
            },
            ParseError::Size(t) => {
                let mut m = "size: input: ".to_owned();
                m.append(t.as_str());
                m
            },
        }
    }
}

impl Error {
    /// The rendered description of this error.
    pub open spec fn spec_message(&self) -> Seq<char> {
        match self {
            Error::FetchPage(t) => "fetching page: "@ + t@,
            Error::NoCandidates => "scraping: no icon links found"@,
            Error::NoIconsDecoded => "scraping: no icons found"@,
            Error::Parse(p) => "parsing: "@ + p.spec_message(),
            Error::InferName { url, reason } => "inferring name for "@ + url@ + ": "@ + reason@,
        }
    }

    /// Render the error as text.
    pub fn message(&self) -> (r: String)
        ensures
            r@ == self.spec_message(),
    {
        match self {
            Error::FetchPage(t) => {
                let mut m = "fetching page: ".to_owned();
                m.append(t.as_str());
                m
            },
            Error::NoCandidates => "scraping: no icon links found".to_owned(),
            Error::NoIconsDecoded => "scraping: no icons found".to_owned(),
            Error::Parse(p) => {
                let mut m = "parsing: ".to_owned();
                let inner = p.message();
                m.append(inner.as_str());
                m
            },
            Error::InferName { url, reason } => {
                let mut m = "inferring name for ".to_owned();
                m.append(url.as_str());
                m.append(": ");
                m.append(reason.as_str());
                m
            },
        }
    }
}

impl core::convert::From<ParseError> for Error {
    /// Wrap a parse failure as an engine error.
    fn from(err: ParseError) -> (r: Error)
        ensures
            r == Error::Parse(err),
    {
        Error::Parse(err)
    }
}

impl vstd::std_specs::convert::FromSpecImpl<ParseError> for Error {
    open spec fn obeys_from_spec() -> bool {
        true
    }

    open spec fn from_spec(v: ParseError) -> Error {
        Error::Parse(v)
    }
}

} // verus!
