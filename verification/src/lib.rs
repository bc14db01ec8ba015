//! Persistent identifiers for scholarly works: Crockford base32 numbers with
//! checksum, and the identifiers that hold them.

pub mod text;
pub mod pattern;
pub mod weburl;
pub mod crockford;
pub mod roundtrip;
pub mod normal_form;
pub mod detection;
pub mod doiutils;
pub mod utils;
pub mod file_names;

pub use crate::crockford::{
    decode, encode, generate, generate_checksum, normalize, validate, CrockfordError,
};
pub use crate::doiutils::{
    decode_doi, doi_resolver, encode_doi, escape_doi, normalize_doi, prefix_from_url,
    validate_doi, validate_prefix,
};
pub use crate::utils::{
    decode_id, validate_crossref_funder_id, validate_grid, validate_id, validate_isni,
    validate_issn, validate_orcid, validate_rid, validate_ror, validate_url, validate_uuid,
    validate_wikidata,
};
