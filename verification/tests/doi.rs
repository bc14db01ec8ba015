use commonmeta::crockford::{decode, encode};
use commonmeta::doiutils::{
    decode_bare_doi, decode_doi, doi_resolver, encode_doi, escape, escape_doi,
    is_registered_status, normalize_doi, prefix_from_url, prefix_of, resolver_of, validate_doi,
    validate_prefix,
};
use commonmeta::weburl::ParsedUrl;

fn some(s: &str) -> Option<String> {
    Some(s.to_string())
}

#[test]
fn dois_are_recognized() {
    assert_eq!(validate_doi("10.5555/abc"), some("10.5555/abc"));
    assert_eq!(validate_doi("10.54900/d3ck1-skq19"), some("10.54900/d3ck1-skq19"));
    assert_eq!(validate_doi("doi:10.5555/ABC"), some("10.5555/ABC"));
    assert_eq!(validate_doi("https://doi.org/10.5555/abc"), some("10.5555/abc"));
    assert_eq!(validate_doi("http://dx.doi.org/10.5555/abc"), some("10.5555/abc"));
    assert_eq!(validate_doi("https:/doi.org/10.5555/abc"), some("10.5555/abc"));
    assert_eq!(
        validate_doi("https://handle.stage.datacite.org/10.5555/abc"),
        some("10.5555/abc")
    );
    assert_eq!(validate_doi("10.5555/a/b/c"), some("10.5555/a/b/c"));
}

#[test]
fn other_texts_are_no_dois() {
    assert_eq!(validate_doi("10.555/abc"), None);
    assert_eq!(validate_doi("10.555555/abc"), None);
    assert_eq!(validate_doi("10.5555/"), None);
    assert_eq!(validate_doi("10.5555/a b"), None);
    assert_eq!(validate_doi("https://example.org/10.5555/abc"), None);
    assert_eq!(validate_doi(""), None);
}

#[test]
fn prefixes_are_recognized() {
    assert_eq!(validate_prefix("10.5555"), some("10.5555"));
    assert_eq!(validate_prefix("10.5555/abc"), some("10.5555"));
    assert_eq!(validate_prefix("10.54900/d3ck1-skq19"), some("10.54900"));
    assert_eq!(validate_prefix("https://doi.org/10.5555/abc"), some("10.5555"));
    assert_eq!(validate_prefix("doi:10.5555"), some("10.5555"));
    assert_eq!(validate_prefix("10.555"), None);
    assert_eq!(validate_prefix("x10.5555"), None);
}

#[test]
fn resolver_follows_host_and_sandbox() {
    assert_eq!(doi_resolver("10.5555/abc", false), "https://doi.org/");
    assert_eq!(doi_resolver("https://doi.org/10.5555/abc", false), "https://doi.org/");
    assert_eq!(
        doi_resolver("https://stage.datacite.org/dois/10.5555/abc", false),
        "https://handle.stage.datacite.org/"
    );
    assert_eq!(
        doi_resolver("https://doi.org/10.5555/abc", true),
        "https://handle.stage.datacite.org/"
    );
    assert_eq!(doi_resolver("10.5555/abc", true), "https://doi.org/");
}

#[test]
fn normalized_doi_is_a_lowercase_url() {
    assert_eq!(normalize_doi("10.5555/ABC-Def"), "https://doi.org/10.5555/abc-def");
    assert_eq!(normalize_doi("doi:10.5555/ABC"), "https://doi.org/10.5555/abc");
    assert_eq!(normalize_doi("https://doi.org/10.5555/ABC"), "https://doi.org/10.5555/abc");
    assert_eq!(
        normalize_doi("https://handle.stage.datacite.org/10.5555/ABC"),
        "https://doi.org/10.5555/abc"
    );
    assert_eq!(normalize_doi("10.5555/\u{c9}T\u{c9}"), "https://doi.org/10.5555/\u{e9}t\u{e9}");
    assert_eq!(normalize_doi("abc"), "");
}

#[test]
fn escaped_doi_has_no_slash() {
    assert_eq!(escape_doi("10.5555/abc"), "10.5555%2Fabc");
    assert_eq!(escape_doi("https://doi.org/10.5555/a/b/c"), "10.5555%2Fa%2Fb%2Fc");
    assert_eq!(escape_doi("10.5555/ABC"), "10.5555%2FABC");
    assert_eq!(escape_doi("abc"), "");
}

#[test]
fn encoded_doi_decodes() {
    for _ in 0..100 {
        let doi = encode_doi("10.5555");
        assert!(doi.starts_with("https://doi.org/10.5555/"), "{}", doi);
        let suffix = &doi["https://doi.org/10.5555/".len()..];
        let number = decode(suffix, true).unwrap();
        assert!(0 <= number && number < 32i64.pow(8));
        assert_eq!(encode(number, 5, 8, true), suffix);
        assert_eq!(decode_doi(&doi), number);
    }
}

#[test]
fn doi_suffix_is_decoded() {
    assert_eq!(decode_doi("10.54900/d3ck1-skq85"), 450320459383);
    assert_eq!(decode_doi("https://doi.org/10.54900/d3ck1-skq85"), 450320459383);
    assert_eq!(decode_doi("10.5555/c1s20"), 12345);
    assert_eq!(decode_doi("10.5555/C1S-20"), 12345);
    assert_eq!(decode_doi("10.5555/c1s20/x"), 12345);
}

#[test]
fn undecodable_doi_gives_zero() {
    assert_eq!(decode_doi("10.54900/d3ck1-skq19"), 0);
    assert_eq!(decode_doi("10.5555/c1s21"), 0);
    assert_eq!(decode_doi("10.5555/cus20"), 0);
    assert_eq!(decode_doi("10.5555/x/c1s20"), 0);
    assert_eq!(decode_doi("abc"), 0);
    assert_eq!(decode_doi(""), 0);
}

#[test]
fn prefix_is_taken_from_a_doi_url() {
    assert_eq!(prefix_from_url("https://doi.org/10.5555/abc").unwrap(), "10.5555");
    assert_eq!(prefix_from_url("https://doi.org/10.5555").unwrap(), "10.5555");
    assert_eq!(prefix_from_url("http://doi.org/10.54900/d3ck1-skq19").unwrap(), "10.54900");
    assert_eq!(prefix_from_url("https://doi.org/abc").unwrap(), "");
    assert_eq!(prefix_from_url("https://doi.org/").unwrap(), "");
    assert_eq!(prefix_from_url("https://example.org/10.5555/abc").unwrap(), "");
    assert_eq!(prefix_from_url("mailto:10.5555").unwrap(), "");
}

#[test]
fn prefix_of_no_url_is_an_error() {
    assert_eq!(
        prefix_from_url("10.5555/abc").unwrap_err().reason,
        url::ParseError::RelativeUrlWithoutBase
    );
    assert_eq!(prefix_from_url("").unwrap_err().reason, url::ParseError::RelativeUrlWithoutBase);
    assert_eq!(prefix_from_url("https://").unwrap_err().reason, url::ParseError::EmptyHost);
}

#[test]
fn registered_up_to_permanent_redirect() {
    assert!(is_registered_status(200));
    assert!(is_registered_status(302));
    assert!(is_registered_status(308));
    assert!(!is_registered_status(309));
    assert!(!is_registered_status(404));
    assert!(!is_registered_status(500));
}

#[test]
fn prefix_is_the_second_piece_of_the_path() {
    let url = |host: Option<&str>, path: &str| ParsedUrl {
        scheme: "https".to_string(),
        host: host.map(|h| h.to_string()),
        path: path.to_string(),
        href: String::new(),
    };
    assert_eq!(prefix_of(&url(Some("doi.org"), "/10.5555/abc")), "10.5555");
    assert_eq!(prefix_of(&url(Some("doi.org"), "/10.")), "10.");
    assert_eq!(prefix_of(&url(Some("doi.org"), "/10.5555//")), "10.5555");
    assert_eq!(prefix_of(&url(Some("doi.org"), "/11.5555/abc")), "");
    assert_eq!(prefix_of(&url(Some("doi.org"), "10.5555/abc")), "");
    assert_eq!(prefix_of(&url(Some("dx.doi.org"), "/10.5555/abc")), "");
    assert_eq!(prefix_of(&url(None, "/10.5555/abc")), "");
}

#[test]
fn resolver_of_a_parsed_url() {
    let url = |host: Option<&str>| {
        Some(ParsedUrl {
            scheme: "https".to_string(),
            host: host.map(|h| h.to_string()),
            path: "/".to_string(),
            href: String::new(),
        })
    };
    assert_eq!(resolver_of(&None, false), "https://doi.org/");
    assert_eq!(resolver_of(&None, true), "https://doi.org/");
    assert_eq!(resolver_of(&url(Some("doi.org")), false), "https://doi.org/");
    assert_eq!(resolver_of(&url(None), false), "https://doi.org/");
    assert_eq!(resolver_of(&url(None), true), "https://handle.stage.datacite.org/");
    assert_eq!(
        resolver_of(&url(Some("stage.datacite.org")), false),
        "https://handle.stage.datacite.org/"
    );
    assert_eq!(resolver_of(&url(Some("handle.stage.datacite.org")), false), "https://doi.org/");
}

#[test]
fn slashes_are_escaped() {
    assert_eq!(escape("a/b"), "a%2Fb");
    assert_eq!(escape("//"), "%2F%2F");
    assert_eq!(escape("a%2Fb"), "a%2Fb");
    assert_eq!(escape(""), "");
}

#[test]
fn bare_doi_is_decoded() {
    assert_eq!(decode_bare_doi("10.5555/c1s20"), 12345);
    assert_eq!(decode_bare_doi("x/c1s20/y"), 12345);
    assert_eq!(decode_bare_doi("/c1s20"), 12345);
    assert_eq!(decode_bare_doi("c1s20"), 0);
    assert_eq!(decode_bare_doi("10.5555/c1s21"), 0);
    assert_eq!(decode_bare_doi("10.5555/"), 0);
    assert_eq!(decode_bare_doi(""), 0);
}
