use commonmeta::utils::{
    check_orcid_number_range, classify_id, decode_as, decode_id, decode_orcid,
    has_disallowed_fragments, is_in_range, is_rogue_scholar_url, is_valid_rogue_scholar_post,
    parsed_url_kind, url_kind, validate_crossref_funder_id, validate_grid, validate_id,
    validate_isni, validate_issn, validate_mod11_2, validate_orcid, validate_rid, validate_ror,
    validate_url, validate_uuid, validate_wikidata, IdentifierType,
};
use commonmeta::weburl::ParsedUrl;

fn parsed(scheme: &str, host: Option<&str>, path: &str, href: &str) -> ParsedUrl {
    ParsedUrl {
        scheme: scheme.to_string(),
        host: host.map(|h| h.to_string()),
        path: path.to_string(),
        href: href.to_string(),
    }
}

fn some(s: &str) -> Option<String> {
    Some(s.to_string())
}

#[test]
fn funder_id_wins_over_doi() {
    assert_eq!(
        validate_id("10.13039/501100000011"),
        ("501100000011".to_string(), "Crossref Funder ID")
    );
    assert_eq!(
        classify_id("10.13039/501100000011"),
        ("501100000011".to_string(), IdentifierType::CrossrefFunderID)
    );
    assert_eq!(
        classify_id("https://doi.org/10.13039/100000001"),
        ("100000001".to_string(), IdentifierType::CrossrefFunderID)
    );
    assert_eq!(
        classify_id("10.13039/50110000001"),
        ("10.13039/50110000001".to_string(), IdentifierType::DOI)
    );
}

#[test]
fn isni_leaves_the_orcid_ranges_out() {
    assert_eq!(validate_isni("0000000150000008"), None);
    assert_eq!(validate_isni("0000 0001 5000 0008"), None);
    assert_eq!(validate_isni("0000000150000007"), None);
    assert_eq!(validate_isni("0000000350000001"), None);
    assert_eq!(validate_isni("0000000150000006"), some("0000000150000006"));
    assert_eq!(validate_isni("0000000350000002"), some("0000000350000002"));
    assert_eq!(validate_isni("000000012146438X"), some("000000012146438X"));
    assert_eq!(
        validate_isni("https://isni.org/isni/000000012146438X"),
        some("000000012146438X")
    );
    assert_eq!(validate_isni("0000 0001 2146 438X"), some("0000 0001 2146 438X"));
    assert_eq!(validate_isni("1000000121464380"), None);
    assert_eq!(validate_id("0000000150000008"), (String::new(), ""));
}

#[test]
fn orcid_range_is_compared_as_text() {
    assert!(check_orcid_number_range("0000000150000007"));
    assert!(check_orcid_number_range("0000-0001-5000-0007"));
    assert!(check_orcid_number_range("0000 0003 5000 0001"));
    assert!(!check_orcid_number_range("0000000150000006"));
    assert!(!check_orcid_number_range("0000000350000002"));
    assert!(check_orcid_number_range("0009000000000000"));
    assert!(check_orcid_number_range("0009001000000000"));
    assert!(!check_orcid_number_range("0009001000000001"));
    assert!(!check_orcid_number_range("0008999999999999"));
    assert!(check_orcid_number_range("00000002"));
    assert!(check_orcid_number_range("000000015000000X"));
    assert!(!check_orcid_number_range(""));
}

#[test]
fn range_bounds_are_included() {
    assert!(is_in_range("b", "a", "c"));
    assert!(is_in_range("a", "a", "c"));
    assert!(is_in_range("c", "a", "c"));
    assert!(!is_in_range("d", "a", "c"));
    assert!(!is_in_range("", "a", "c"));
    assert!(is_in_range("ab", "a", "b"));
    assert!(!is_in_range("ba", "a", "b"));
    assert!(is_in_range("10", "1", "9"));
    assert!(is_in_range("\u{e9}", "z", "\u{20ac}"));
}

#[test]
fn mod11_2_accepts_the_right_check_character() {
    assert_eq!(validate_mod11_2("0000000150000007"), Ok(()));
    assert_eq!(validate_mod11_2("0000000218250097"), Ok(()));
    assert_eq!(validate_mod11_2("000000021694233X"), Ok(()));
    assert_eq!(validate_mod11_2("000000012150090X"), Ok(()));
    assert_eq!(validate_mod11_2("1"), Ok(()));
}

#[test]
fn mod11_2_accepts_exactly_one_check_character() {
    for body in ["000000015000000", "000000021825009", "000000021694233", "", "7", "999"] {
        let mut accepted = 0;
        for check in "0123456789X".chars() {
            if validate_mod11_2(&format!("{}{}", body, check)).is_ok() {
                accepted += 1;
            }
        }
        assert_eq!(accepted, 1, "{}", body);
    }
}

#[test]
fn mod11_2_rejects_the_wrong_check_character() {
    assert_eq!(validate_mod11_2("0000000150000008"), Err("Invalid checksum".to_string()));
    assert_eq!(validate_mod11_2("000000015000000X"), Err("Invalid checksum".to_string()));
    assert_eq!(validate_mod11_2("0000000218250079"), Err("Invalid checksum".to_string()));
    assert_eq!(validate_mod11_2("0"), Err("Invalid checksum".to_string()));
    assert_eq!(validate_mod11_2("X"), Err("Invalid checksum".to_string()));
}

#[test]
fn mod11_2_catches_one_wrong_digit() {
    let valid = "0000000218250097";
    assert_eq!(validate_mod11_2(valid), Ok(()));
    for at in 0..valid.len() - 1 {
        for d in "0123456789".chars() {
            if valid.chars().nth(at) == Some(d) {
                continue;
            }
            let mut changed: Vec<char> = valid.chars().collect();
            changed[at] = d;
            let changed: String = changed.into_iter().collect();
            assert_eq!(validate_mod11_2(&changed), Err("Invalid checksum".to_string()));
        }
    }
}

#[test]
fn mod11_2_rejects_other_characters() {
    let invalid = Err("Invalid characters in input".to_string());
    assert_eq!(validate_mod11_2("0000-0001-5000-0007"), invalid);
    assert_eq!(validate_mod11_2("000000015000000x"), invalid);
    assert_eq!(validate_mod11_2("00000001500000X7"), invalid);
    assert_eq!(validate_mod11_2("0000 0001"), invalid);
    assert_eq!(validate_mod11_2(""), invalid);
    assert_eq!(validate_mod11_2("\u{664}2"), invalid);
}

#[test]
fn decode_id_reads_a_doi_suffix() {
    assert_eq!(decode_id("10.54900/d3ck1-skq85"), Ok(450320459383));
    assert_eq!(decode_id("https://doi.org/10.54900/d3ck1-skq85"), Ok(450320459383));
    assert_eq!(decode_id("doi:10.54900/D3CK1-SKQ85"), Ok(450320459383));
    assert_eq!(decode_id("10.5555/c1s20"), Ok(12345));
}

#[test]
fn decode_id_never_returns_a_number_for_a_wrong_suffix() {
    assert_eq!(
        decode_id("10.54900/d3ck1-skq19"),
        Err("wrong checksum 19 for identifier d3ck1-skq19".to_string())
    );
    assert_eq!(
        decode_id("10.54900/d3ck2-skq85"),
        Err("wrong checksum 85 for identifier d3ck2-skq85".to_string())
    );
    assert_eq!(
        decode_id("10.54900/d3cku-skq85"),
        Err("invalid character: u".to_string())
    );
    assert_eq!(decode_id("10.54900/d3ck1-skqxx"), Err("invalid checksum: xx".to_string()));
    assert_eq!(decode_id("10.54900/5"), Err("invalid checksum: 5".to_string()));
    assert_eq!(
        decode_id("10.54900/zzzzzzzzzzzzzzzz00"),
        Err("number too large: zzzzzzzzzzzzzzzz00".to_string())
    );
    assert_eq!(decode_id("10.5555/c1s20/x"), Err("invalid checksum: /x".to_string()));
}

#[test]
fn decode_id_reads_a_ror_id() {
    assert_eq!(decode_id("0342dzm54"), Ok(104937460));
    assert_eq!(decode_id("https://ror.org/0342dzm54"), Ok(104937460));
    assert_eq!(
        decode_id("https://ror.org/0342dzm55"),
        Err("wrong checksum 55 for identifier 0342dzm55".to_string())
    );
    assert_eq!(decode_id("0342dzu54"), Err("invalid character: u".to_string()));
}

#[test]
fn decode_id_reads_a_record_id() {
    assert_eq!(decode_id("003NQ-K8N78"), Ok(123456789));
    assert_eq!(
        decode_id("003NQ-K8N79"),
        Err("wrong checksum 79 for identifier 003NQ-K8N79".to_string())
    );
    assert_eq!(decode_id("003NU-K8N78"), Err("invalid character: u".to_string()));
}

#[test]
fn decode_id_reads_an_orcid() {
    assert_eq!(decode_id("0000-0001-5000-0007"), Ok(15000000));
    assert_eq!(decode_id("https://orcid.org/0000-0002-1825-0097"), Ok(21825009));
    assert_eq!(decode_id("https://sandbox.orcid.org/0000-0002-1694-233X"), Ok(21694233));
    assert_eq!(
        decode_id("0000-0002-1825-0098"),
        Err("Invalid checksum for ORCID 0000-0002-1825-0098: Invalid checksum".to_string())
    );
    assert_eq!(
        decode_id("0000 0002 1825 0097"),
        Err(
            "Invalid checksum for ORCID 0000 0002 1825 0097: Invalid characters in input"
                .to_string()
        )
    );
    assert_eq!(
        decode_id("0000-0002-1825-009X7"),
        Err("Invalid checksum for ORCID 0000-0002-1825-009X7: Invalid characters in input"
            .to_string())
    );
}

#[test]
fn decode_id_reports_an_orcid_beyond_64_bits() {
    let body = "0000-0002-1825-009000000000000000000000";
    let mut m = 0;
    for c in body.chars().filter(|c| *c != '-') {
        m = ((m + c.to_digit(10).unwrap()) * 2) % 11;
    }
    let check = (12 - m) % 11;
    assert!(check < 10);
    let orcid = format!("{}{}", body, check);
    assert_eq!(
        decode_id(&orcid),
        Err("Failed to parse ORCID: number too large to fit in target type".to_string())
    );
}

#[test]
fn decode_id_rejects_other_kinds() {
    assert_eq!(decode_id("foo"), Err("identifier foo not recognized".to_string()));
    assert_eq!(decode_id(""), Err("identifier  not recognized".to_string()));
    assert_eq!(
        decode_id("2491b2d5-7daf-486b-b78b-e5aab48064c1"),
        Err("identifier 2491b2d5-7daf-486b-b78b-e5aab48064c1 not recognized".to_string())
    );
    assert_eq!(
        decode_id("https://example.com/"),
        Err("identifier https://example.com/ not recognized".to_string())
    );
    assert_eq!(
        decode_id("10.13039/501100000011"),
        Err("identifier 10.13039/501100000011 not recognized".to_string())
    );
}

#[test]
fn each_kind_is_recognized() {
    assert_eq!(validate_id("10.5555/ABC"), ("10.5555/ABC".to_string(), "DOI"));
    assert_eq!(validate_id("https://doi.org/10.5555/ABC"), ("10.5555/ABC".to_string(), "DOI"));
    assert_eq!(
        validate_id("2491b2d5-7daf-486b-b78b-e5aab48064c1"),
        ("2491b2d5-7daf-486b-b78b-e5aab48064c1".to_string(), "UUID")
    );
    assert_eq!(validate_id("003NQ-K8N78"), ("003NQ-K8N78".to_string(), "RID"));
    assert_eq!(
        validate_id("https://orcid.org/0000-0002-1825-0097"),
        ("0000-0002-1825-0097".to_string(), "ORCID")
    );
    assert_eq!(validate_id("https://ror.org/0342dzm54"), ("0342dzm54".to_string(), "ROR"));
    assert_eq!(
        validate_id("https://www.grid.ac/institutes/grid.1017.7"),
        ("grid.1017.7".to_string(), "GRID")
    );
    assert_eq!(
        validate_id("https://www.wikidata.org/wiki/Q7186"),
        ("Q7186".to_string(), "Wikidata")
    );
    assert_eq!(
        validate_id("https://isni.org/isni/000000012146438X"),
        ("000000012146438X".to_string(), "ISNI")
    );
    assert_eq!(validate_id("2146-8427"), ("2146-8427".to_string(), "ISSN"));
    assert_eq!(
        validate_id("https://example.com/path?q=1"),
        ("https://example.com/path?q=1".to_string(), "URL")
    );
    assert_eq!(
        validate_id("https://api.rogue-scholar.org/posts/2491b2d5-7daf-486b-b78b-e5aab48064c1"),
        (
            "https://api.rogue-scholar.org/posts/2491b2d5-7daf-486b-b78b-e5aab48064c1"
                .to_string(),
            "JSONFEEDID"
        )
    );
    assert_eq!(validate_id("abc"), (String::new(), ""));
    assert_eq!(validate_id(""), (String::new(), ""));
}

#[test]
fn kinds_have_names() {
    assert_eq!(IdentifierType::CrossrefFunderID.as_str(), "Crossref Funder ID");
    assert_eq!(IdentifierType::DOI.as_str(), "DOI");
    assert_eq!(IdentifierType::UUID.as_str(), "UUID");
    assert_eq!(IdentifierType::RID.as_str(), "RID");
    assert_eq!(IdentifierType::ORCID.as_str(), "ORCID");
    assert_eq!(IdentifierType::ROR.as_str(), "ROR");
    assert_eq!(IdentifierType::GRID.as_str(), "GRID");
    assert_eq!(IdentifierType::Wikidata.as_str(), "Wikidata");
    assert_eq!(IdentifierType::ISNI.as_str(), "ISNI");
    assert_eq!(IdentifierType::ISSN.as_str(), "ISSN");
    assert_eq!(IdentifierType::URL.as_str(), "URL");
    assert_eq!(IdentifierType::JSONFEEDID.as_str(), "JSONFEEDID");
    assert_eq!(IdentifierType::Unrecognized.as_str(), "");
}

#[test]
fn orcid_in_isni_form_is_an_orcid_only_with_separators() {
    assert_eq!(
        classify_id("0000-0001-5000-0007"),
        ("0000-0001-5000-0007".to_string(), IdentifierType::ORCID)
    );
    assert_eq!(
        classify_id("0000 0001 5000 0007"),
        ("0000 0001 5000 0007".to_string(), IdentifierType::ORCID)
    );
    assert_eq!(classify_id("0000000150000007"), (String::new(), IdentifierType::Unrecognized));
    assert_eq!(
        classify_id("0000-0001-2146-438X"),
        ("0000-0001-2146-438X".to_string(), IdentifierType::ISNI)
    );
}

#[test]
fn funder_ids() {
    assert_eq!(validate_crossref_funder_id("501100000011"), some("501100000011"));
    assert_eq!(validate_crossref_funder_id("100000001"), some("100000001"));
    assert_eq!(
        validate_crossref_funder_id("http://doi.org/10.13039/100000001"),
        some("100000001")
    );
    assert_eq!(validate_crossref_funder_id("10000001"), None);
    assert_eq!(validate_crossref_funder_id("10.13039/5011000000110"), None);
}

#[test]
fn grid_ids() {
    assert_eq!(validate_grid("grid.1017.7"), some("grid.1017.7"));
    assert_eq!(validate_grid("https://grid.ac/institutes/grid.1017.7"), some("grid.1017.7"));
    assert_eq!(validate_grid("grid.1017.7a"), some("grid.1017.7a"));
    assert_eq!(validate_grid("grid.1017.7ab"), None);
    assert_eq!(validate_grid("grid.x.7"), None);
}

#[test]
fn issns() {
    assert_eq!(validate_issn("2146-8427"), some("2146-8427"));
    assert_eq!(validate_issn("2146-842X"), some("2146-842X"));
    assert_eq!(validate_issn("2146-842x"), some("2146-842x"));
    assert_eq!(
        validate_issn("https://portal.issn.org/resource/ISSN/2146-8427"),
        some("2146-8427")
    );
    assert_eq!(validate_issn("21468427"), None);
    assert_eq!(validate_issn("http://portal.issn.org/resource/ISSN/2146-8427"), None);
}

#[test]
fn orcids() {
    assert_eq!(validate_orcid("0000-0002-1825-0097"), some("0000-0002-1825-0097"));
    assert_eq!(
        validate_orcid("https://orcid.org/0000-0002-1825-0097"),
        some("0000-0002-1825-0097")
    );
    assert_eq!(validate_orcid("0009-0001-0000-0000"), some("0009-0001-0000-0000"));
    assert_eq!(validate_orcid("0009 0003 9999 999X"), some("0009 0003 9999 999X"));
    assert_eq!(validate_orcid("0009-0000-0000-0000"), None);
    assert_eq!(validate_orcid("0000-0001-5000-0006"), None);
    assert_eq!(validate_orcid("0000-0003-5000-0002"), None);
    assert_eq!(validate_orcid("0009-0010-0000-0001"), None);
    assert_eq!(validate_orcid("0000000218250097"), None);
    assert_eq!(validate_orcid("0000-0004-1825-0097"), None);
}

#[test]
fn record_ids() {
    assert_eq!(validate_rid("003NQ-K8N78"), some("003NQ-K8N78"));
    assert_eq!(validate_rid("003nq-k8n78"), None);
    assert_eq!(validate_rid("003NQK8N78"), None);
    assert_eq!(validate_rid("003NQ-K8N7A"), None);
    assert_eq!(validate_rid("x003NQ-K8N78"), None);
}

#[test]
fn ror_ids() {
    assert_eq!(validate_ror("0342dzm54"), some("0342dzm54"));
    assert_eq!(validate_ror("https://ror.org/0342dzm54"), some("0342dzm54"));
    assert_eq!(validate_ror("http://ror.org/0342dzm54"), some("0342dzm54"));
    assert_eq!(validate_ror("1342dzm54"), None);
    assert_eq!(validate_ror("0342DZM54"), None);
    assert_eq!(validate_ror("0342dzm5"), None);
}

#[test]
fn uuids() {
    assert_eq!(
        validate_uuid("2491b2d5-7daf-486b-b78b-e5aab48064c1"),
        some("2491b2d5-7daf-486b-b78b-e5aab48064c1")
    );
    assert_eq!(
        validate_uuid("2491B2D5-7DAF-486B-B78B-E5AAB48064C1"),
        some("2491B2D5-7DAF-486B-B78B-E5AAB48064C1")
    );
    assert_eq!(validate_uuid("2491b2d5-7daf-186b-b78b-e5aab48064c1"), None);
    assert_eq!(validate_uuid("2491b2d5-7daf-486b-c78b-e5aab48064c1"), None);
    assert_eq!(validate_uuid("2491b2d5-7daf-486b-b78b-e5aab48064c"), None);
    assert_eq!(validate_uuid(""), None);
}

#[test]
fn wikidata_items() {
    assert_eq!(validate_wikidata("Q7186"), some("Q7186"));
    assert_eq!(validate_wikidata("https://www.wikidata.org/wiki/Q7186"), some("Q7186"));
    assert_eq!(validate_wikidata("http://wikidata.org/wiki/Q7186"), some("Q7186"));
    assert_eq!(validate_wikidata("q7186"), None);
    assert_eq!(validate_wikidata("Q"), None);
}

#[test]
fn urls() {
    assert_eq!(validate_url("https://example.com"), "URL");
    assert_eq!(validate_url("http://example.com/a/b?c=d#e"), "URL");
    assert_eq!(validate_url("HTTPS://EXAMPLE.COM"), "URL");
    assert_eq!(validate_url("10.5555/abc"), "DOI");
    assert_eq!(validate_url("https://doi.org/10.5555/abc"), "DOI");
    assert_eq!(validate_url("ftp://example.com/file"), "");
    assert_eq!(validate_url("mailto:someone@example.com"), "");
    assert_eq!(validate_url("example.com"), "");
    assert_eq!(validate_url(""), "");
    assert_eq!(validate_url("https://example.com/a;jsessionid=1"), "");
    assert_eq!(validate_url("https://example.com/a;origin=b"), "");
    assert_eq!(url_kind("https://example.com"), IdentifierType::URL);
    assert_eq!(url_kind("example.com"), IdentifierType::Unrecognized);
}

#[test]
fn rogue_scholar_posts() {
    assert_eq!(
        validate_url("https://api.rogue-scholar.org/posts/2491b2d5-7daf-486b-b78b-e5aab48064c1"),
        "JSONFEEDID"
    );
    assert_eq!(
        validate_url("https://api.rogue-scholar.org/posts/10.59350/abc12-def34"),
        "JSONFEEDID"
    );
    assert_eq!(
        validate_url("http://api.rogue-scholar.org/posts/2491b2d5-7daf-486b-b78b-e5aab48064c1"),
        "URL"
    );
    assert_eq!(
        validate_url("https://rogue-scholar.org/posts/2491b2d5-7daf-486b-b78b-e5aab48064c1"),
        "URL"
    );
    assert_eq!(validate_url("https://api.rogue-scholar.org/posts/not-a-uuid"), "URL");
    assert_eq!(validate_url("https://api.rogue-scholar.org/blogs"), "URL");
}

#[test]
fn post_paths() {
    let path = |parts: &[&str]| -> Vec<String> { parts.iter().map(|p| p.to_string()).collect() };
    assert!(is_valid_rogue_scholar_post(&path(&[
        "",
        "posts",
        "2491b2d5-7daf-486b-b78b-e5aab48064c1"
    ])));
    assert!(is_valid_rogue_scholar_post(&path(&["", "posts", "10.59350", "abc12-def34"])));
    assert!(is_valid_rogue_scholar_post(&path(&["x", "posts", "10.59350", "abc12-def34"])));
    assert!(!is_valid_rogue_scholar_post(&path(&["", "posts", "10.59350", ""])));
    assert!(!is_valid_rogue_scholar_post(&path(&["", "posts", "abc"])));
    assert!(!is_valid_rogue_scholar_post(&path(&["", "posts"])));
    assert!(!is_valid_rogue_scholar_post(&path(&[
        "",
        "blogs",
        "2491b2d5-7daf-486b-b78b-e5aab48064c1"
    ])));
    assert!(!is_valid_rogue_scholar_post(&path(&[
        "",
        "posts",
        "10.59350",
        "abc12-def34",
        "more"
    ])));
    assert!(!is_valid_rogue_scholar_post(&path(&[])));
}

#[test]
fn parsed_urls_are_told_apart() {
    let post = "/posts/2491b2d5-7daf-486b-b78b-e5aab48064c1";
    assert_eq!(
        parsed_url_kind(&parsed("https", Some("example.com"), "/a", "https://example.com/a")),
        IdentifierType::URL
    );
    assert_eq!(
        parsed_url_kind(&parsed("http", None, "/a", "http:/a")),
        IdentifierType::URL
    );
    assert_eq!(
        parsed_url_kind(&parsed("ftp", Some("example.com"), "/a", "ftp://example.com/a")),
        IdentifierType::Unrecognized
    );
    assert_eq!(
        parsed_url_kind(&parsed(
            "https",
            Some("api.rogue-scholar.org"),
            post,
            "https://api.rogue-scholar.org/posts/2491b2d5-7daf-486b-b78b-e5aab48064c1"
        )),
        IdentifierType::JSONFEEDID
    );
    assert_eq!(
        parsed_url_kind(&parsed(
            "https",
            Some("api.rogue-scholar.org"),
            post,
            "https://api.rogue-scholar.org/posts/2491b2d5-7daf-486b-b78b-e5aab48064c1;origin=x"
        )),
        IdentifierType::Unrecognized
    );
    assert_eq!(
        parsed_url_kind(&parsed("https", Some("api.rogue-scholar.org"), "/posts", "x")),
        IdentifierType::URL
    );
}

#[test]
fn url_pieces_are_tested() {
    assert!(has_disallowed_fragments(&parsed("https", None, "/", "https://a/b;jsessionid=1")));
    assert!(has_disallowed_fragments(&parsed("https", None, "/", ";origin=")));
    assert!(!has_disallowed_fragments(&parsed("https", None, "/", "https://a/b?origin=1")));
    assert!(is_rogue_scholar_url(&parsed("https", Some("api.rogue-scholar.org"), "/", "")));
    assert!(!is_rogue_scholar_url(&parsed("http", Some("api.rogue-scholar.org"), "/", "")));
    assert!(!is_rogue_scholar_url(&parsed("https", Some("rogue-scholar.org"), "/", "")));
    assert!(!is_rogue_scholar_url(&parsed("https", None, "/", "")));
}

#[test]
fn decode_as_goes_by_the_kind() {
    assert_eq!(decode_as("x", "10.5555/c1s20", IdentifierType::DOI), Ok(12345));
    assert_eq!(decode_as("x", "c1s20", IdentifierType::ROR), Ok(12345));
    assert_eq!(decode_as("x", "C1S-20", IdentifierType::RID), Ok(12345));
    assert_eq!(decode_as("x", "0000-0002-1825-0097", IdentifierType::ORCID), Ok(21825009));
    assert_eq!(
        decode_as("x", "c1s20", IdentifierType::DOI),
        Err("Invalid DOI format: x".to_string())
    );
    assert_eq!(
        decode_as("x", "c1s20", IdentifierType::UUID),
        Err("identifier x not recognized".to_string())
    );
    assert_eq!(
        decode_as("x", "c1s20", IdentifierType::Unrecognized),
        Err("identifier x not recognized".to_string())
    );
}

#[test]
fn orcid_digits_are_parsed() {
    assert_eq!(decode_orcid("0000-0001-5000-0007"), Ok(15000000));
    assert_eq!(decode_orcid("0000000150000007"), Ok(15000000));
    assert_eq!(
        decode_orcid("1"),
        Err("Failed to parse ORCID: cannot parse integer from empty string".to_string())
    );
    assert_eq!(
        decode_orcid(""),
        Err("Invalid checksum for ORCID : Invalid characters in input".to_string())
    );
    assert_eq!(decode_orcid("92233720368547758078"), Ok(i64::MAX));
    assert_eq!(
        decode_orcid("92233720368547758086"),
        Err("Failed to parse ORCID: number too large to fit in target type".to_string())
    );
}
