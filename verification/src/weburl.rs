//! URLs, parsed by the `url` crate.

use vstd::prelude::*;

verus! {

/// `url::ParseError`, the reason that `url::Url::parse` gives where it
/// refuses a text. It is carried through as it is; nothing is said of what
/// it holds.
#[verifier::external_type_specification]
#[verifier::external_body]
pub struct ExParseError(url::ParseError);

/// The parts of a parsed URL that the identifier rules read.
#[derive(Debug)]
pub struct ParsedUrl {
    /// The scheme, in lowercase, without the colon.
    pub scheme: String,
    /// The host, where the URL has one.
    pub host: Option<String>,
    /// The path.
    pub path: String,
    /// The whole URL as the parser writes it back.
    pub href: String,
}

/// A `ParsedUrl` with its strings as sequences.
pub struct ParsedUrlView {
    pub scheme: Seq<char>,
    pub host: Option<Seq<char>>,
    pub path: Seq<char>,
    pub href: Seq<char>,
}

impl View for ParsedUrl {
    type V = ParsedUrlView;

    open spec fn view(&self) -> ParsedUrlView {
        ParsedUrlView {
            scheme: self.scheme@,
            host: match self.host {
                Some(h) => Some(h@),
                None => None,
            },
            path: self.path@,
            href: self.href@,
        }
    }
}

/// What `url::Url::parse` makes of a text: the scheme, host, path and
/// serialization of the URL, or `None` where the text is no absolute URL.
pub uninterp spec fn url_parse(text: Seq<char>) -> Option<ParsedUrlView>;

/// Parses `text` with `url::Url::parse` and copies what `Url::scheme`,
/// `Url::host_str`, `Url::path` and `Url::as_str` return. The contract only
/// names the result; the parser's error is handed on as it is.
#[verifier::external_body]
pub(crate) fn parse_url(text: &str) -> (parsed: Result<ParsedUrl, url::ParseError>)
    ensures
        parsed is Ok <==> url_parse(text@) is Some,
        parsed matches Ok(u) ==> url_parse(text@) == Some(u@),
{
    match url::Url::parse(text) {
        Ok(u) => Ok(
            ParsedUrl {
                scheme: u.scheme().to_string(),
                host: u.host_str().map(|h| h.to_string()),
                path: u.path().to_string(),
                href: u.as_str().to_string(),
            },
        ),
        Err(e) => Err(e),
    }
}

/// A text that is no absolute URL, with the parser's reason.
#[derive(Debug)]
pub struct UrlError {
    pub reason: url::ParseError,
}

} // verus!
