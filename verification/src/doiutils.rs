//! DOIs: recognizing them, bringing them to one form, and making and
//! reading the ones whose suffix is a Crockford base32 number.

use vstd::prelude::*;
use crate::crockford::{decode, generate, generate_bound, spec_decode, spec_encode};
use crate::pattern::{capture, option_view, regex_capture};
use crate::text::{
    begins_with, chars_of, contains_text, lowercase, lowercase_chars, push_char, same_text,
    split, split_chars, starts_with, string_of, views,
};
use crate::weburl::{parse_url, url_parse, ParsedUrl, ParsedUrlView, UrlError};

verus! {

/// A DOI, bare or behind `doi:` or a resolver's address. Group 6 is the
/// DOI itself: `10.`, four or five digits, a slash and a suffix without
/// whitespace.
pub const DOI_PATTERN: &'static str =
    r"^(?:(http|https):/(/)?(dx\.)?(doi\.org|handle\.stage\.datacite\.org|handle\.test\.datacite\.org)/)?(doi:)?(10\.\d{4,5}/[^\s]+)$";

/// The beginning of a DOI, bare or behind `doi:` or a resolver's address.
/// Group 6 is the prefix: `10.` and four or five digits.
pub const PREFIX_PATTERN: &'static str =
    r"^(?:(http|https):/(/)?(dx\.)?(doi\.org|handle\.stage\.datacite\.org|handle\.test\.datacite\.org)/)?(doi:)?(10\.\d{4,5})";

/// The resolver of registered DOIs.
pub const DOI_RESOLVER: &'static str = "https://doi.org/";

/// The resolver of the DataCite staging system.
pub const STAGE_RESOLVER: &'static str = "https://handle.stage.datacite.org/";

/// The DOI that a text holds, without scheme and resolver.
pub open spec fn spec_validate_doi(doi: Seq<char>) -> Option<Seq<char>> {
    regex_capture(DOI_PATTERN@, doi, 6)
}

/// Recognizes a DOI and gives it back without scheme and resolver.
pub fn validate_doi(doi: &str) -> (found: Option<String>)
    ensures
        option_view(found) == spec_validate_doi(doi@),
        found matches Some(bare) ==> contains_text(doi@, bare@),
{
    capture(DOI_PATTERN, doi, 6)
}

/// The DOI prefix that a text begins with.
pub open spec fn spec_validate_prefix(doi: Seq<char>) -> Option<Seq<char>> {
    regex_capture(PREFIX_PATTERN@, doi, 6)
}

/// Recognizes the prefix of a DOI at the beginning of a text.
pub fn validate_prefix(doi: &str) -> (found: Option<String>)
    ensures
        option_view(found) == spec_validate_prefix(doi@),
        found matches Some(prefix) ==> contains_text(doi@, prefix@),
{
    capture(PREFIX_PATTERN, doi, 6)
}

/// The resolver for a DOI given as a text that was parsed as a URL: the
/// staging resolver where it is a URL and either its host is
/// `stage.datacite.org` or `sandbox` is set.
pub open spec fn resolver_for(parsed: Option<ParsedUrlView>, sandbox: bool) -> Seq<char> {
    match parsed {
        Some(u) => if u.host == Some("stage.datacite.org"@) || sandbox {
            STAGE_RESOLVER@
        } else {
            DOI_RESOLVER@
        },
        None => DOI_RESOLVER@,
    }
}

/// What `doi_resolver` returns.
pub open spec fn spec_doi_resolver(doi: Seq<char>, sandbox: bool) -> Seq<char> {
    resolver_for(url_parse(doi), sandbox)
}

/// Tells whether an optional host is `name`.
fn host_is(host: &Option<String>, name: &str) -> (same: bool)
    ensures
        same == (option_view(*host) == Some(name@)),
{
    match host {
        Some(h) => same_text(h.as_str(), name),
        None => false,
    }
}

/// An optional URL with its strings as sequences.
pub open spec fn option_url_view(parsed: Option<ParsedUrl>) -> Option<ParsedUrlView> {
    match parsed {
        Some(u) => Some(u@),
        None => None,
    }
}

/// Picks the resolver for a DOI.
pub fn doi_resolver(doi: &str, sandbox: bool) -> (resolver: String)
    ensures
        resolver@ == spec_doi_resolver(doi@, sandbox),
{
    let parsed = match parse_url(doi) {
        Ok(u) => Some(u),
        Err(_) => None,
    };
    resolver_of(&parsed, sandbox)
}

/// Picks the resolver for a DOI whose text was parsed as a URL, or was
/// found to be none.
pub fn resolver_of(parsed: &Option<ParsedUrl>, sandbox: bool) -> (resolver: String)
    ensures
        resolver@ == resolver_for(option_url_view(*parsed), sandbox),
{
    match parsed {
        Some(u) => {
            if host_is(&u.host, "stage.datacite.org") || sandbox {
                return STAGE_RESOLVER.to_owned();
            }
        },
        None => {},
    }
    DOI_RESOLVER.to_owned()
}

/// The URL of a DOI: its resolver, then the DOI in lowercase. Empty where
/// the text holds no DOI.
pub open spec fn spec_normalize_doi(doi: Seq<char>) -> Seq<char> {
    match spec_validate_doi(doi) {
        Some(d) => spec_doi_resolver(doi, false) + lowercase(d),
        None => Seq::empty(),
    }
}

/// Writes a DOI as the URL that resolves it.
pub fn normalize_doi(doi: &str) -> (url: String)
    ensures
        url@ == spec_normalize_doi(doi@),
{
    match validate_doi(doi) {
        Some(d) => {
            let resolver = doi_resolver(doi, false);
            let lowered = lowercase_chars(d.as_str());
            resolver.concat(string_of(&lowered).as_str())
        },
        None => String::new(),
    }
}

/// `s` with `%2F` in place of every slash.
pub open spec fn escape_slashes(s: Seq<char>) -> Seq<char>
    decreases s.len(),
{
    if s.len() == 0 {
        Seq::empty()
    } else if s.last() == '/' {
        escape_slashes(s.drop_last()) + "%2F"@
    } else {
        escape_slashes(s.drop_last()).push(s.last())
    }
}

/// The DOI of a text with its slashes escaped. Empty where the text holds
/// no DOI.
pub open spec fn spec_escape_doi(doi: Seq<char>) -> Seq<char> {
    match spec_validate_doi(doi) {
        Some(d) => escape_slashes(d),
        None => Seq::empty(),
    }
}

/// Escapes a DOI for use in a URL path: `/` becomes `%2F`.
pub fn escape_doi(doi: &str) -> (escaped: String)
    ensures
        escaped@ == spec_escape_doi(doi@),
{
    match validate_doi(doi) {
        Some(d) => escape(d.as_str()),
        None => String::new(),
    }
}

/// Writes `%2F` in place of every slash of a text.
pub fn escape(text: &str) -> (escaped: String)
    ensures
        escaped@ == escape_slashes(text@),
{
    let chars = chars_of(text);
    let mut escaped = String::new();
    let mut i: usize = 0;
    while i < chars.len()
        invariant
            i <= chars.len(),
            escaped@ == escape_slashes(chars@.take(i as int)),
        decreases chars.len() - i,
    {
        proof {
            assert(chars@.take(i + 1).drop_last() =~= chars@.take(i as int));
        }
        if chars[i] == '/' {
            escaped.append("%2F");
        } else {
            push_char(&mut escaped, chars[i]);
        }
        i += 1;
    }
    assert(chars@.take(chars@.len() as int) =~= chars@);
    escaped
}

/// Makes a new DOI under `prefix`: the suffix is a random number of eight
/// base-32 digits with its checksum, in groups of five.
pub fn encode_doi(prefix: &str) -> (doi: String)
    ensures
        exists|number: i64|
            0 <= number < generate_bound(8) && doi@ == DOI_RESOLVER@ + prefix@ + "/"@
                + #[trigger] spec_encode(number as int, 5, 8, true),
{
    let suffix = generate(10, 5, true);
    let doi = DOI_RESOLVER.to_owned();
    let doi = doi.concat(prefix);
    let doi = doi.concat("/");
    let doi = doi.concat(suffix.as_str());
    let ghost number = choose|number: i64|
        0 <= number < generate_bound(8) && suffix@ == #[trigger] spec_encode(
            number as int,
            5,
            8,
            true,
        );
    assert(doi@ == DOI_RESOLVER@ + prefix@ + "/"@ + spec_encode(number as int, 5, 8, true));
    doi
}

/// The number in a bare DOI, zero where there is none: the DOI has no
/// slash, or the piece between its first slash and the next does not decode
/// with its checksum.
pub open spec fn number_in(bare: Seq<char>) -> i64 {
    if split(bare, '/').len() < 2 {
        0
    } else {
        match spec_decode(split(bare, '/')[1], true) {
            Ok(number) => number,
            Err(_) => 0,
        }
    }
}

/// The number in a DOI, zero where there is none: the text holds no DOI,
/// or the DOI holds no number.
pub open spec fn spec_decode_doi(doi: Seq<char>) -> i64 {
    match spec_validate_doi(doi) {
        Some(bare) => number_in(bare),
        None => 0,
    }
}

/// Reads the number in a DOI: the piece that follows the prefix, up to the
/// next slash, is decoded with its checksum. Gives 0 where there is none.
pub fn decode_doi(doi: &str) -> (number: i64)
    ensures
        number == spec_decode_doi(doi@),
{
    match validate_doi(doi) {
        Some(bare) => decode_bare_doi(bare.as_str()),
        None => 0,
    }
}

/// Reads the number in a DOI that stands without scheme and resolver.
/// Gives 0 where there is none.
pub fn decode_bare_doi(bare: &str) -> (number: i64)
    ensures
        number == number_in(bare@),
{
    let parts = split_chars(&chars_of(bare), '/');
    if parts.len() < 2 {
        return 0;
    }
    assert(views(parts@)[1] == parts@[1]@);
    match decode(parts[1].as_str(), true) {
        Ok(number) => number,
        Err(_) => 0,
    }
}

/// The DOI prefix in a `doi.org` URL: where the host is `doi.org` and the
/// path begins with `/10.`, the piece of the path between its first slash
/// and the next; else nothing.
pub open spec fn prefix_in(url: ParsedUrlView) -> Seq<char> {
    if url.host != Some("doi.org"@) || !starts_with(url.path, "/10."@) {
        Seq::empty()
    } else if split(url.path, '/').len() < 2 {
        Seq::empty()
    } else {
        split(url.path, '/')[1]
    }
}

/// Takes the DOI prefix out of a `doi.org` URL. A URL of another host or
/// without a DOI in its path gives the empty string; a text that is no URL
/// is an error.
pub fn prefix_from_url(s: &str) -> (prefix: Result<String, UrlError>)
    ensures
        prefix is Ok <==> url_parse(s@) is Some,
        prefix matches Ok(p) ==> p@ == prefix_in(url_parse(s@).unwrap()),
{
    match parse_url(s) {
        Err(e) => Err(UrlError { reason: e }),
        Ok(u) => Ok(prefix_of(&u)),
    }
}

/// Takes the DOI prefix out of a parsed URL: of a `doi.org` URL whose path
/// begins with `/10.`, the piece of the path between its first slash and
/// the next; else the empty string.
pub fn prefix_of(url: &ParsedUrl) -> (prefix: String)
    ensures
        prefix@ == prefix_in(url@),
{
    let path = chars_of(url.path.as_str());
    let marker = chars_of("/10.");
    if !host_is(&url.host, "doi.org") || !begins_with(&path, &marker) {
        return String::new();
    }
    let parts = split_chars(&path, '/');
    if parts.len() < 2 {
        return String::new();
    }
    assert(views(parts@)[1] == parts@[1]@);
    parts[1].clone()
}

/// Tells whether the status of a HEAD request to a DOI's URL shows that the
/// DOI is registered: the resolver answered, at most with a redirect.
pub fn is_registered_status(status: u16) -> (registered: bool)
    ensures
        registered == (status <= 308),
{
    status <= 308
}

} // verus!
