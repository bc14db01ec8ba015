//! Persistent identifiers: telling their kinds apart, and reading the
//! number out of those that hold one.

use vstd::prelude::*;
use crate::crockford::{
    decimal_char, decimal_value, decode, is_decimal, spec_decode, CrockfordErrorView,
};
use crate::doiutils::{spec_validate_doi, validate_doi};
use crate::pattern::{capture, is_match, option_view, regex_capture, regex_is_match};
use crate::text::{
    after_first, chars_le, chars_of, contains_chars, contains_text, lemma_contains_empty,
    lemma_contains_itself, lex_le, rest_after_first, same_text, split, split_chars, string_of,
    strip_hyphens, strip_separators, views, without_hyphens, without_separators,
};
use crate::weburl::{parse_url, url_parse, ParsedUrl, ParsedUrlView};

verus! {

/// A Crossref Funder ID, bare or as a DOI under `10.13039`. Group 1 is the
/// ID.
pub const CROSSREF_FUNDER_ID_PATTERN: &'static str =
    r"^(?:https?://doi\.org/)?(?:10\.13039/)?((501)?1000[0-9]{5})$";

/// A GRID ID, bare or as a `grid.ac` URL. Group 1 is the ID.
pub const GRID_PATTERN: &'static str =
    r"^(?:(?:http|https)://(?:(?:www)?\.)?grid\.ac/)?(?:institutes/)?(grid\.[0-9]+\.[a-f0-9]{1,2})$";

/// An ISNI, bare or as an `isni.org` URL. Group 1 is the ISNI.
pub const ISNI_PATTERN: &'static str =
    r"^(?:(?:http|https)://(?:(?:www)?\.)?isni\.org/)?(?:isni/)?(0000[ -]?00\d{2}[ -]?\d{4}[ -]?\d{3}[0-9X]+)$";

/// An ISSN, bare or as a URL of the ISSN portal. Group 1 is the ISSN.
pub const ISSN_PATTERN: &'static str =
    r"^(?:https://portal\.issn\.org/resource/ISSN/)?(\d{4}\-\d{3}(\d|x|X))$";

/// An ORCID, bare or as an `orcid.org` URL. Group 1 is the ORCID.
pub const ORCID_PATTERN: &'static str =
    r"^(?:(?:http|https)://(?:(?:www|sandbox)?\.)?orcid\.org/)?(000[09][ -]000[123][ -]\d{4}[ -]\d{3}[0-9X]+)$";

/// An InvenioRDM record ID.
pub const RID_PATTERN: &'static str = r"^[0-9A-Z]{5}-[0-9A-Z]{3}[0-9]{2}$";

/// A ROR ID, bare or as a `ror.org` URL. Group 1 is the ID.
pub const ROR_PATTERN: &'static str = r"^(?:(?:http|https)://ror\.org/)?(0[0-9a-z]{6}\d{2})$";

/// A version 4 UUID.
pub const UUID_PATTERN: &'static str =
    r"^[a-fA-F0-9]{8}-[a-fA-F0-9]{4}-4[a-fA-F0-9]{3}-[89aAbB][a-fA-F0-9]{3}-[a-fA-F0-9]{12}$";

/// A Wikidata item, bare or as a `wikidata.org` URL. Group 1 is the item.
pub const WIKIDATA_PATTERN: &'static str =
    r"^(?:(?:http|https)://(?:(?:www)?\.)?wikidata\.org/wiki/)?(Q\d+)$";

/// First number of the lower range that is kept for ORCID.
pub const ORCID_RANGE1_START: &'static str = "0000000150000007";

/// Last number of the lower range that is kept for ORCID.
pub const ORCID_RANGE1_END: &'static str = "0000000350000001";

/// First number of the upper range that is kept for ORCID.
pub const ORCID_RANGE2_START: &'static str = "0009000000000000";

/// Last number of the upper range that is kept for ORCID.
pub const ORCID_RANGE2_END: &'static str = "0009001000000000";

/// The kinds of identifier that are told apart.
#[derive(Clone, Copy, Debug, PartialEq, Eq, Structural)]
pub enum IdentifierType {
    CrossrefFunderID,
    DOI,
    UUID,
    RID,
    ORCID,
    ROR,
    GRID,
    Wikidata,
    ISNI,
    ISSN,
    URL,
    JSONFEEDID,
    Unrecognized,
}

impl IdentifierType {
    /// The name of the kind; empty for an identifier that was not
    /// recognized.
    pub open spec fn name(self) -> Seq<char> {
        match self {
            IdentifierType::CrossrefFunderID => "Crossref Funder ID"@,
            IdentifierType::DOI => "DOI"@,
            IdentifierType::UUID => "UUID"@,
            IdentifierType::RID => "RID"@,
            IdentifierType::ORCID => "ORCID"@,
            IdentifierType::ROR => "ROR"@,
            IdentifierType::GRID => "GRID"@,
            IdentifierType::Wikidata => "Wikidata"@,
            IdentifierType::ISNI => "ISNI"@,
            IdentifierType::ISSN => "ISSN"@,
            IdentifierType::URL => "URL"@,
            IdentifierType::JSONFEEDID => "JSONFEEDID"@,
            IdentifierType::Unrecognized => ""@,
        }
    }

    /// The name of the kind.
    pub fn as_str(&self) -> (name: &'static str)
        ensures
            name@ == self.name(),
    {
        match self {
            IdentifierType::CrossrefFunderID => "Crossref Funder ID",
            IdentifierType::DOI => "DOI",
            IdentifierType::UUID => "UUID",
            IdentifierType::RID => "RID",
            IdentifierType::ORCID => "ORCID",
            IdentifierType::ROR => "ROR",
            IdentifierType::GRID => "GRID",
            IdentifierType::Wikidata => "Wikidata",
            IdentifierType::ISNI => "ISNI",
            IdentifierType::ISSN => "ISSN",
            IdentifierType::URL => "URL",
            IdentifierType::JSONFEEDID => "JSONFEEDID",
            IdentifierType::Unrecognized => "",
        }
    }
}

/// `start <= value <= end` in dictionary order.
pub open spec fn spec_is_in_range(value: Seq<char>, start: Seq<char>, end: Seq<char>) -> bool {
    lex_le(start, value) && lex_le(value, end)
}

/// Tells whether `value` lies between `start` and `end`, both included, in
/// the order of strings.
pub fn is_in_range(value: &str, start: &str, end: &str) -> (inside: bool)
    ensures
        inside == spec_is_in_range(value@, start@, end@),
{
    let v = chars_of(value);
    let s = chars_of(start);
    let e = chars_of(end);
    chars_le(&s, &v) && chars_le(&v, &e)
}

/// The number, without hyphens and spaces, lies in one of the two ranges
/// that are kept for ORCID. The ranges are compared as strings.
pub open spec fn spec_check_orcid_number_range(orcid: Seq<char>) -> bool {
    let number = without_separators(orcid);
    spec_is_in_range(number, ORCID_RANGE1_START@, ORCID_RANGE1_END@) || spec_is_in_range(
        number,
        ORCID_RANGE2_START@,
        ORCID_RANGE2_END@,
    )
}

/// Tells whether a number lies in one of the two ranges that are kept for
/// ORCID. Hyphens and spaces in it are passed over.
pub fn check_orcid_number_range(orcid: &str) -> (inside: bool)
    ensures
        inside == spec_check_orcid_number_range(orcid@),
{
    let chars = chars_of(orcid);
    let number = string_of(&strip_separators(&chars));
    is_in_range(number.as_str(), ORCID_RANGE1_START, ORCID_RANGE1_END) || is_in_range(
        number.as_str(),
        ORCID_RANGE2_START,
        ORCID_RANGE2_END,
    )
}

/// The Crossref Funder ID that a text holds.
pub open spec fn spec_validate_crossref_funder_id(text: Seq<char>) -> Option<Seq<char>> {
    regex_capture(CROSSREF_FUNDER_ID_PATTERN@, text, 1)
}

/// Recognizes a Crossref Funder ID and gives it back bare.
pub fn validate_crossref_funder_id(fundref: &str) -> (found: Option<String>)
    ensures
        option_view(found) == spec_validate_crossref_funder_id(fundref@),
        found matches Some(bare) ==> contains_text(fundref@, bare@),
{
    capture(CROSSREF_FUNDER_ID_PATTERN, fundref, 1)
}

/// The GRID ID that a text holds.
pub open spec fn spec_validate_grid(text: Seq<char>) -> Option<Seq<char>> {
    regex_capture(GRID_PATTERN@, text, 1)
}

/// Recognizes a GRID ID and gives it back bare.
pub fn validate_grid(grid: &str) -> (found: Option<String>)
    ensures
        option_view(found) == spec_validate_grid(grid@),
        found matches Some(bare) ==> contains_text(grid@, bare@),
{
    capture(GRID_PATTERN, grid, 1)
}

/// The ISNI that a text holds: what the pattern finds, unless its number
/// lies in a range that is kept for ORCID.
pub open spec fn spec_validate_isni(text: Seq<char>) -> Option<Seq<char>> {
    match regex_capture(ISNI_PATTERN@, text, 1) {
        Some(isni) => if spec_check_orcid_number_range(isni) {
            None
        } else {
            Some(isni)
        },
        None => None,
    }
}

/// Recognizes an ISNI and gives it back bare. A number in a range that is
/// kept for ORCID is no ISNI.
pub fn validate_isni(isni: &str) -> (found: Option<String>)
    ensures
        option_view(found) == spec_validate_isni(isni@),
        found matches Some(bare) ==> contains_text(isni@, bare@),
{
    match capture(ISNI_PATTERN, isni, 1) {
        Some(found) => {
            if check_orcid_number_range(found.as_str()) {
                None
            } else {
                Some(found)
            }
        },
        None => None,
    }
}

/// The ISSN that a text holds.
pub open spec fn spec_validate_issn(text: Seq<char>) -> Option<Seq<char>> {
    regex_capture(ISSN_PATTERN@, text, 1)
}

/// Recognizes an ISSN and gives it back bare.
pub fn validate_issn(issn: &str) -> (found: Option<String>)
    ensures
        option_view(found) == spec_validate_issn(issn@),
        found matches Some(bare) ==> contains_text(issn@, bare@),
{
    capture(ISSN_PATTERN, issn, 1)
}

/// The ORCID that a text holds: what the pattern finds, if its number lies
/// in a range that is kept for ORCID.
pub open spec fn spec_validate_orcid(text: Seq<char>) -> Option<Seq<char>> {
    match regex_capture(ORCID_PATTERN@, text, 1) {
        Some(orcid) => if spec_check_orcid_number_range(orcid) {
            Some(orcid)
        } else {
            None
        },
        None => None,
    }
}

/// Recognizes an ORCID and gives it back bare. Only a number in a range
/// that is kept for ORCID is one.
pub fn validate_orcid(orcid: &str) -> (found: Option<String>)
    ensures
        option_view(found) == spec_validate_orcid(orcid@),
        found matches Some(bare) ==> contains_text(orcid@, bare@),
{
    match capture(ORCID_PATTERN, orcid, 1) {
        Some(found) => {
            if check_orcid_number_range(found.as_str()) {
                Some(found)
            } else {
                None
            }
        },
        None => None,
    }
}

/// The record ID that a text is.
pub open spec fn spec_validate_rid(text: Seq<char>) -> Option<Seq<char>> {
    if regex_is_match(RID_PATTERN@, text) {
        Some(text)
    } else {
        None
    }
}

/// Recognizes an InvenioRDM record ID.
pub fn validate_rid(rid: &str) -> (found: Option<String>)
    ensures
        option_view(found) == spec_validate_rid(rid@),
        found matches Some(whole) ==> whole@ == rid@,
{
    if is_match(RID_PATTERN, rid) {
        Some(rid.to_owned())
    } else {
        None
    }
}

/// The ROR ID that a text holds.
pub open spec fn spec_validate_ror(text: Seq<char>) -> Option<Seq<char>> {
    regex_capture(ROR_PATTERN@, text, 1)
}

/// Recognizes a ROR ID and gives it back bare.
pub fn validate_ror(ror: &str) -> (found: Option<String>)
    ensures
        option_view(found) == spec_validate_ror(ror@),
        found matches Some(bare) ==> contains_text(ror@, bare@),
{
    capture(ROR_PATTERN, ror, 1)
}

/// The UUID that a text is.
pub open spec fn spec_validate_uuid(text: Seq<char>) -> Option<Seq<char>> {
    if regex_is_match(UUID_PATTERN@, text) {
        Some(text)
    } else {
        None
    }
}

/// Recognizes a version 4 UUID.
pub fn validate_uuid(uuid: &str) -> (found: Option<String>)
    ensures
        option_view(found) == spec_validate_uuid(uuid@),
        found matches Some(whole) ==> whole@ == uuid@,
{
    if is_match(UUID_PATTERN, uuid) {
        Some(uuid.to_owned())
    } else {
        None
    }
}

/// The Wikidata item that a text holds.
pub open spec fn spec_validate_wikidata(text: Seq<char>) -> Option<Seq<char>> {
    regex_capture(WIKIDATA_PATTERN@, text, 1)
}

/// Recognizes a Wikidata item and gives it back bare.
pub fn validate_wikidata(wikidata: &str) -> (found: Option<String>)
    ensures
        option_view(found) == spec_validate_wikidata(wikidata@),
        found matches Some(bare) ==> contains_text(wikidata@, bare@),
{
    capture(WIKIDATA_PATTERN, wikidata, 1)
}

/// The URL holds `;origin=` or `;jsessionid=`.
pub open spec fn spec_has_disallowed_fragments(url: ParsedUrlView) -> bool {
    contains_text(url.href, ";origin="@) || contains_text(url.href, ";jsessionid="@)
}

/// Tells whether a URL holds a piece that rules it out as an identifier.
pub fn has_disallowed_fragments(url: &ParsedUrl) -> (found: bool)
    ensures
        found == spec_has_disallowed_fragments(url@),
{
    let href = chars_of(url.href.as_str());
    contains_chars(&href, &chars_of(";origin=")) || contains_chars(
        &href,
        &chars_of(";jsessionid="),
    )
}

/// The URL is an `https` address of the Rogue Scholar API.
pub open spec fn spec_is_rogue_scholar_url(url: ParsedUrlView) -> bool {
    url.scheme == "https"@ && url.host == Some("api.rogue-scholar.org"@)
}

/// Tells whether a URL is an `https` address of the Rogue Scholar API.
pub fn is_rogue_scholar_url(url: &ParsedUrl) -> (found: bool)
    ensures
        found == spec_is_rogue_scholar_url(url@),
{
    same_text(url.scheme.as_str(), "https") && match &url.host {
        Some(h) => same_text(h.as_str(), "api.rogue-scholar.org"),
        None => false,
    }
}

/// The pieces of a path name a post: `posts` in second place, then either
/// a UUID, or the two halves of a DOI.
pub open spec fn spec_is_valid_rogue_scholar_post(segments: Seq<Seq<char>>) -> bool {
    segments.len() >= 2 && segments[1] == "posts"@ && if segments.len() == 3 {
        spec_validate_uuid(segments[2]) is Some
    } else if segments.len() == 4 {
        spec_validate_doi(segments[2] + "/"@ + segments[3]) is Some
    } else {
        false
    }
}

/// Tells whether the pieces of a path name a Rogue Scholar post.
pub fn is_valid_rogue_scholar_post(path_segments: &Vec<String>) -> (valid: bool)
    ensures
        valid == spec_is_valid_rogue_scholar_post(views(path_segments@)),
{
    if path_segments.len() >= 2 && same_text(path_segments[1].as_str(), "posts") {
        if path_segments.len() == 3 {
            return validate_uuid(path_segments[2].as_str()).is_some();
        } else if path_segments.len() == 4 {
            let doi = path_segments[2].clone();
            let doi = doi.concat("/");
            let doi = doi.concat(path_segments[3].as_str());
            return validate_doi(doi.as_str()).is_some();
        }
    }
    false
}

/// The kind of a parsed URL: none where it holds a piece that rules it
/// out; a Rogue Scholar post where it is one; else a plain URL where its
/// scheme is `http` or `https`.
pub open spec fn spec_parsed_url_kind(url: ParsedUrlView) -> IdentifierType {
    if spec_has_disallowed_fragments(url) {
        IdentifierType::Unrecognized
    } else if spec_is_rogue_scholar_url(url) && spec_is_valid_rogue_scholar_post(
        split(url.path, '/'),
    ) {
        IdentifierType::JSONFEEDID
    } else if url.scheme == "http"@ || url.scheme == "https"@ {
        IdentifierType::URL
    } else {
        IdentifierType::Unrecognized
    }
}

/// The kind of a text that may be a URL: a DOI where it is one; else the
/// kind of the URL it parses to; nothing where it does not parse.
pub open spec fn spec_url_kind(text: Seq<char>) -> IdentifierType {
    if spec_validate_doi(text) is Some {
        IdentifierType::DOI
    } else {
        match url_parse(text) {
            None => IdentifierType::Unrecognized,
            Some(url) => spec_parsed_url_kind(url),
        }
    }
}

/// Tells what kind of identifier a parsed URL is, if any.
pub fn parsed_url_kind(url: &ParsedUrl) -> (kind: IdentifierType)
    ensures
        kind == spec_parsed_url_kind(url@),
{
    if has_disallowed_fragments(url) {
        return IdentifierType::Unrecognized;
    }
    if is_rogue_scholar_url(url) {
        let path = chars_of(url.path.as_str());
        let segments = split_chars(&path, '/');
        if is_valid_rogue_scholar_post(&segments) {
            return IdentifierType::JSONFEEDID;
        }
    }
    if same_text(url.scheme.as_str(), "http") || same_text(url.scheme.as_str(), "https") {
        IdentifierType::URL
    } else {
        IdentifierType::Unrecognized
    }
}

/// Tells what kind of URL a text is, if any.
pub fn url_kind(text: &str) -> (kind: IdentifierType)
    ensures
        kind == spec_url_kind(text@),
{
    if validate_doi(text).is_some() {
        return IdentifierType::DOI;
    }
    match parse_url(text) {
        Err(_) => IdentifierType::Unrecognized,
        Ok(url) => parsed_url_kind(&url),
    }
}

/// Tells what kind of URL a text is, by name: `DOI`, `JSONFEEDID` or `URL`,
/// or the empty string where it is none of them.
pub fn validate_url(text: &str) -> (name: String)
    ensures
        name@ == spec_url_kind(text@).name(),
{
    url_kind(text).as_str().to_owned()
}

/// The bare identifier in a text and its kind. The kinds are tried in a
/// fixed order and the first that fits is taken. A URL is given back
/// whole; a text of no kind gives the empty string.
pub open spec fn spec_classify(id: Seq<char>) -> (Seq<char>, IdentifierType) {
    if spec_validate_crossref_funder_id(id) is Some {
        (spec_validate_crossref_funder_id(id).unwrap(), IdentifierType::CrossrefFunderID)
    } else if spec_validate_doi(id) is Some {
        (spec_validate_doi(id).unwrap(), IdentifierType::DOI)
    } else if spec_validate_uuid(id) is Some {
        (spec_validate_uuid(id).unwrap(), IdentifierType::UUID)
    } else if spec_validate_rid(id) is Some {
        (spec_validate_rid(id).unwrap(), IdentifierType::RID)
    } else if spec_validate_orcid(id) is Some {
        (spec_validate_orcid(id).unwrap(), IdentifierType::ORCID)
    } else if spec_validate_ror(id) is Some {
        (spec_validate_ror(id).unwrap(), IdentifierType::ROR)
    } else if spec_validate_grid(id) is Some {
        (spec_validate_grid(id).unwrap(), IdentifierType::GRID)
    } else if spec_validate_wikidata(id) is Some {
        (spec_validate_wikidata(id).unwrap(), IdentifierType::Wikidata)
    } else if spec_validate_isni(id) is Some {
        (spec_validate_isni(id).unwrap(), IdentifierType::ISNI)
    } else if spec_validate_issn(id) is Some {
        (spec_validate_issn(id).unwrap(), IdentifierType::ISSN)
    } else if spec_url_kind(id) == IdentifierType::JSONFEEDID {
        (id, IdentifierType::JSONFEEDID)
    } else if spec_url_kind(id) == IdentifierType::URL {
        (id, IdentifierType::URL)
    } else {
        (Seq::empty(), IdentifierType::Unrecognized)
    }
}

/// A text that holds a Crossref Funder ID is classified as one, whatever
/// other kind it has the form of.
pub proof fn funder_id_comes_first(id: Seq<char>)
    requires
        spec_validate_crossref_funder_id(id) is Some,
    ensures
        spec_classify(id) == (
            spec_validate_crossref_funder_id(id).unwrap(),
            IdentifierType::CrossrefFunderID,
        ),
{
}

/// No ISNI lies in a range that is kept for ORCID.
pub proof fn isni_is_outside_orcid_ranges(text: Seq<char>)
    requires
        spec_validate_isni(text) is Some,
    ensures
        !spec_check_orcid_number_range(spec_validate_isni(text).unwrap()),
{
}

/// Every ORCID lies in a range that is kept for ORCID.
pub proof fn orcid_is_inside_orcid_ranges(text: Seq<char>)
    requires
        spec_validate_orcid(text) is Some,
    ensures
        spec_check_orcid_number_range(spec_validate_orcid(text).unwrap()),
{
}

/// Finds the kind of an identifier and gives the bare identifier with it.
pub fn classify_id(id: &str) -> (found: (String, IdentifierType))
    ensures
        (found.0@, found.1) == spec_classify(id@),
        contains_text(id@, found.0@),
{
    proof {
        lemma_contains_itself(id@);
        lemma_contains_empty(id@);
    }
    if let Some(fundref) = validate_crossref_funder_id(id) {
        return (fundref, IdentifierType::CrossrefFunderID);
    }
    if let Some(doi) = validate_doi(id) {
        return (doi, IdentifierType::DOI);
    }
    if let Some(uuid) = validate_uuid(id) {
        return (uuid, IdentifierType::UUID);
    }
    if let Some(rid) = validate_rid(id) {
        return (rid, IdentifierType::RID);
    }
    if let Some(orcid) = validate_orcid(id) {
        return (orcid, IdentifierType::ORCID);
    }
    if let Some(ror) = validate_ror(id) {
        return (ror, IdentifierType::ROR);
    }
    if let Some(grid) = validate_grid(id) {
        return (grid, IdentifierType::GRID);
    }
    if let Some(wikidata) = validate_wikidata(id) {
        return (wikidata, IdentifierType::Wikidata);
    }
    if let Some(isni) = validate_isni(id) {
        return (isni, IdentifierType::ISNI);
    }
    if let Some(issn) = validate_issn(id) {
        return (issn, IdentifierType::ISSN);
    }
    match url_kind(id) {
        IdentifierType::JSONFEEDID => (id.to_owned(), IdentifierType::JSONFEEDID),
        IdentifierType::URL => (id.to_owned(), IdentifierType::URL),
        _ => (String::new(), IdentifierType::Unrecognized),
    }
}

/// Finds the kind of an identifier and gives the bare identifier with the
/// name of its kind; two empty strings for a text of no kind.
pub fn validate_id(id: &str) -> (found: (String, &'static str))
    ensures
        found.0@ == spec_classify(id@).0,
        found.1@ == spec_classify(id@).1.name(),
        contains_text(id@, found.0@),
{
    let (identifier, kind) = classify_id(id);
    (identifier, kind.as_str())
}

/// What is said of a number with a character that cannot stand in it.
pub const INVALID_CHARACTERS: &'static str = "Invalid characters in input";

/// What is said of a number whose check character is not the right one.
pub const INVALID_CHECKSUM: &'static str = "Invalid checksum";

/// Every character of `s` is a decimal digit.
pub open spec fn all_decimal(s: Seq<char>) -> bool {
    forall|i: int| 0 <= i < s.len() ==> is_decimal(#[trigger] s[i])
}

/// The running value of ISO 7064 (mod 11-2) after the digits of `body`:
/// each digit is added and the sum is doubled, modulo 11.
pub open spec fn mod11_2_state(body: Seq<char>) -> int
    decreases body.len(),
{
    if body.len() == 0 {
        0
    } else {
        ((mod11_2_state(body.drop_last()) + decimal_value(body.last())) * 2) % 11
    }
}

/// The check character of ISO 7064 (mod 11-2) that belongs to the digits
/// of `body`; `X` stands for 10.
pub open spec fn mod11_2_check_char(body: Seq<char>) -> char {
    let value = (12 - mod11_2_state(body)) % 11;
    if value == 10 {
        'X'
    } else {
        decimal_char(value)
    }
}

/// The text has the shape of a number with a check character: digits,
/// then one more digit or `X`.
pub open spec fn has_check_shape(input: Seq<char>) -> bool {
    input.len() >= 1 && all_decimal(input.drop_last()) && (is_decimal(input.last())
        || input.last() == 'X')
}

/// What `validate_mod11_2` returns.
pub open spec fn spec_validate_mod11_2(input: Seq<char>) -> Result<(), Seq<char>> {
    if !has_check_shape(input) {
        Err(INVALID_CHARACTERS@)
    } else if input.last() == mod11_2_check_char(input.drop_last()) {
        Ok(())
    } else {
        Err(INVALID_CHECKSUM@)
    }
}

/// A number with its check character behind it passes the check.
pub proof fn check_character_passes(body: Seq<char>)
    requires
        all_decimal(body),
    ensures
        spec_validate_mod11_2(body.push(mod11_2_check_char(body))) == Ok::<(), Seq<char>>(()),
{
    let input = body.push(mod11_2_check_char(body));
    assert(input.drop_last() =~= body);
    assert(0 <= (12 - mod11_2_state(body)) % 11 <= 10);
}

/// A result with the text of its error as a sequence.
pub open spec fn result_view<T>(result: Result<T, String>) -> Result<T, Seq<char>> {
    match result {
        Ok(value) => Ok(value),
        Err(e) => Err(e@),
    }
}

/// Checks the last character of a number against the ISO 7064 (mod 11-2)
/// check character of the digits before it. A text that is not digits
/// followed by a digit or `X` has invalid characters.
pub fn validate_mod11_2(input: &str) -> (result: Result<(), String>)
    ensures
        result_view(result) == spec_validate_mod11_2(input@),
{
    let chars = chars_of(input);
    if chars.len() == 0 {
        return Err(INVALID_CHARACTERS.to_owned());
    }
    let body_len: usize = chars.len() - 1;
    let ghost body = chars@.drop_last();
    let mut m: u8 = 0;
    let mut i: usize = 0;
    while i < body_len
        invariant
            i <= body_len,
            body_len == chars.len() - 1,
            chars@ == input@,
            body == chars@.drop_last(),
            all_decimal(body.take(i as int)),
            m == mod11_2_state(body.take(i as int)),
            m < 11,
        decreases body_len - i,
    {
        let c = chars[i];
        proof {
            assert(body.take(i + 1).drop_last() =~= body.take(i as int));
            assert(body.take(i + 1).last() == c);
        }
        if !(c >= '0' && c <= '9') {
            assert(!is_decimal(body[i as int]));
            return Err(INVALID_CHARACTERS.to_owned());
        }
        let d: u8 = (c as u8) - 48;
        m = ((m + d) * 2) % 11;
        assert(all_decimal(body.take(i + 1))) by {
            assert forall|j: int| 0 <= j < i + 1 implies is_decimal(
                #[trigger] body.take(i + 1)[j],
            ) by {
                if j < i {
                    assert(body.take(i as int)[j] == body.take(i + 1)[j]);
                }
            }
        }
        i += 1;
    }
    assert(body.take(body_len as int) =~= body);
    let last = chars[body_len];
    if !((last >= '0' && last <= '9') || last == 'X') {
        return Err(INVALID_CHARACTERS.to_owned());
    }
    let value: u8 = (12 - m) % 11;
    let expected: char = if value == 10 {
        'X'
    } else {
        (value + 48) as char
    };
    if last == expected {
        Ok(())
    } else {
        Err(INVALID_CHECKSUM.to_owned())
    }
}

/// The number that decimal digits stand for.
pub open spec fn decimal_number(digits: Seq<char>) -> int
    decreases digits.len(),
{
    if digits.len() == 0 {
        0
    } else {
        decimal_number(digits.drop_last()) * 10 + decimal_value(digits.last())
    }
}

/// What is said of an empty text that should hold a number.
pub const EMPTY_NUMBER: &'static str = "cannot parse integer from empty string";

/// What is said of a number above `i64::MAX`.
pub const NUMBER_TOO_LARGE: &'static str = "number too large to fit in target type";

/// The number that decimal digits stand for, where there are digits and
/// the number fits 64 bits.
pub open spec fn spec_parse_decimal(digits: Seq<char>) -> Result<i64, Seq<char>> {
    if digits.len() == 0 {
        Err(EMPTY_NUMBER@)
    } else if decimal_number(digits) > i64::MAX {
        Err(NUMBER_TOO_LARGE@)
    } else {
        Ok(decimal_number(digits) as i64)
    }
}

/// The value of decimal digits is never negative, and more digits never
/// stand for less than the first of them.
pub proof fn lemma_decimal_number_grows(digits: Seq<char>, n: int)
    requires
        all_decimal(digits),
        0 <= n <= digits.len(),
    ensures
        0 <= decimal_number(digits.take(n)) <= decimal_number(digits),
    decreases digits.len(),
{
    if digits.len() == 0 {
        assert(digits.take(n) =~= digits);
    } else if n == digits.len() {
        assert(digits.take(n) =~= digits);
        lemma_decimal_number_grows(digits.drop_last(), n - 1);
    } else {
        lemma_decimal_number_grows(digits.drop_last(), n);
        assert(digits.drop_last().take(n) =~= digits.take(n));
    }
}

/// Reads the first `end` characters of `chars`, all decimal digits, as a
/// number.
fn parse_decimal(chars: &Vec<char>, end: usize) -> (result: Result<i64, String>)
    requires
        end <= chars.len(),
        all_decimal(chars@.take(end as int)),
    ensures
        result_view(result) == spec_parse_decimal(chars@.take(end as int)),
{
    if end == 0 {
        return Err(EMPTY_NUMBER.to_owned());
    }
    let ghost digits = chars@.take(end as int);
    let mut number: i64 = 0;
    let mut i: usize = 0;
    while i < end
        invariant
            i <= end <= chars.len(),
            digits == chars@.take(end as int),
            all_decimal(digits),
            number == decimal_number(digits.take(i as int)),
            0 <= number,
        decreases end - i,
    {
        let c = chars[i];
        proof {
            assert(digits.take(i + 1).drop_last() =~= digits.take(i as int));
            assert(is_decimal(digits[i as int]));
            lemma_decimal_number_grows(digits, i + 1);
        }
        let next: i128 = (number as i128) * 10 + (((c as u8) - 48) as i128);
        if next > i64::MAX as i128 {
            return Err(NUMBER_TOO_LARGE.to_owned());
        }
        number = next as i64;
        i += 1;
    }
    assert(digits.take(end as int) =~= digits);
    Ok(number)
}

/// The result of decoding, with the message of its error in place of the
/// error.
pub open spec fn decoded_or_message(result: Result<i64, CrockfordErrorView>) -> Result<
    i64,
    Seq<char>,
> {
    match result {
        Ok(number) => Ok(number),
        Err(e) => Err(e.message()),
    }
}

/// Decoding an ORCID: without its hyphens, its check character must be
/// right; the number is what the digits before it stand for.
pub open spec fn spec_decode_orcid(orcid: Seq<char>) -> Result<i64, Seq<char>> {
    let cleaned = without_hyphens(orcid);
    match spec_validate_mod11_2(cleaned) {
        Err(e) => Err("Invalid checksum for ORCID "@ + orcid + ": "@ + e),
        Ok(_) => match spec_parse_decimal(cleaned.drop_last()) {
            Ok(number) => Ok(number),
            Err(e) => Err("Failed to parse ORCID: "@ + e),
        },
    }
}

/// What `decode_id` returns.
pub open spec fn spec_decode_id(id: Seq<char>) -> Result<i64, Seq<char>> {
    spec_decode_as(id, spec_classify(id).0, spec_classify(id).1)
}

/// The number in the bare identifier of a text `id`, by its kind: the
/// number that follows the first slash of a DOI, or that a ROR ID or a
/// record ID is, all with their checksum, or the number in an ORCID; an
/// error for every other kind.
pub open spec fn spec_decode_as(
    id: Seq<char>,
    identifier: Seq<char>,
    kind: IdentifierType,
) -> Result<i64, Seq<char>> {
    match kind {
        IdentifierType::DOI => match after_first(identifier, '/') {
            Some(suffix) => decoded_or_message(spec_decode(suffix, true)),
            None => Err("Invalid DOI format: "@ + id),
        },
        IdentifierType::ROR | IdentifierType::RID => decoded_or_message(
            spec_decode(identifier, true),
        ),
        IdentifierType::ORCID => spec_decode_orcid(identifier),
        _ => Err("identifier "@ + id + " not recognized"@),
    }
}

/// Decodes a text with its checksum and reports an error by its message.
fn decode_checked(text: &str) -> (result: Result<i64, String>)
    ensures
        result_view(result) == decoded_or_message(spec_decode(text@, true)),
{
    match decode(text, true) {
        Ok(number) => Ok(number),
        Err(e) => Err(e.to_string()),
    }
}

/// Reads the number out of an ORCID: without its hyphens it must pass the
/// ISO 7064 (mod 11-2) check, and the digits before the check character
/// are the number.
pub fn decode_orcid(orcid: &str) -> (result: Result<i64, String>)
    ensures
        result_view(result) == spec_decode_orcid(orcid@),
{
    let cleaned = strip_hyphens(&chars_of(orcid));
    match validate_mod11_2(string_of(&cleaned).as_str()) {
        Err(e) => {
            let message = "Invalid checksum for ORCID ".to_owned();
            let message = message.concat(orcid);
            let message = message.concat(": ");
            Err(message.concat(e.as_str()))
        },
        Ok(_) => {
            assert(cleaned@.take(cleaned@.len() - 1) =~= cleaned@.drop_last());
            match parse_decimal(&cleaned, cleaned.len() - 1) {
                Ok(number) => Ok(number),
                Err(e) => Err("Failed to parse ORCID: ".to_owned().concat(e.as_str())),
            }
        },
    }
}

/// Reads the number that an identifier holds. The identifier is
/// classified first: the suffix of a DOI, a ROR ID and a record ID are
/// Crockford base32 numbers with checksum; an ORCID is a decimal number
/// with a check character. Any other text is an error, as is a number that
/// fails its check.
pub fn decode_id(id: &str) -> (result: Result<i64, String>)
    ensures
        result_view(result) == spec_decode_id(id@),
{
    let (identifier, kind) = classify_id(id);
    decode_as(id, identifier.as_str(), kind)
}

/// Reads the number in a bare identifier of a known kind. `id` is the text
/// that the identifier was found in; errors name it.
pub fn decode_as(id: &str, identifier: &str, kind: IdentifierType) -> (result: Result<i64, String>)
    ensures
        result_view(result) == spec_decode_as(id@, identifier@, kind),
{
    match kind {
        IdentifierType::DOI => {
            let chars = chars_of(identifier);
            match rest_after_first(&chars, '/') {
                Some(suffix) => decode_checked(string_of(&suffix).as_str()),
                None => Err("Invalid DOI format: ".to_owned().concat(id)),
            }
        },
        IdentifierType::ROR => decode_checked(identifier),
        IdentifierType::RID => decode_checked(identifier),
        IdentifierType::ORCID => decode_orcid(identifier),
        _ => Err("identifier ".to_owned().concat(id).concat(" not recognized")),
    }
}

} // verus!
