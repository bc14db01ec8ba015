//! Proofs that decoding gives back what was encoded.

use vstd::prelude::*;
use vstd::utf8::is_ascii_chars;
use crate::crockford::{
    base32_digits, checksum_of, decimal_char, decimal_digits, decimal_value, grouped, is_decimal,
    lemma_alphabet, lemma_no_invalid, number_digits, padded_digits, payload_value, spec_decode,
    spec_encode, spec_normalize, substituted, symbol, symbol_value, two_digits,
    CrockfordErrorView,
};
use crate::text::{
    ascii_lowercase, lemma_after_first_at, lemma_without_hyphens_keeps, lowercase,
    without_hyphens,
};
use crate::utils::{spec_decode_as, IdentifierType};

verus! {

/// Every character of `s` is a symbol of the alphabet.
pub open spec fn all_symbols(s: Seq<char>) -> bool {
    forall|i: int| 0 <= i < s.len() ==> symbol_value(#[trigger] s[i]) is Some
}

/// Every character of `s` is a symbol of the alphabet or a hyphen.
pub open spec fn symbols_and_hyphens(s: Seq<char>) -> bool {
    forall|i: int| 0 <= i < s.len() ==> symbol_value(#[trigger] s[i]) is Some || s[i] == '-'
}

/// The base-32 digits of a number are symbols, and stand for the number.
pub proof fn lemma_base32_digits(n: nat)
    ensures
        all_symbols(base32_digits(n)),
        payload_value(base32_digits(n)) == n,
    decreases n,
{
    lemma_alphabet();
    if n > 0 {
        lemma_base32_digits(n / 32);
        let high = base32_digits(n / 32);
        let c = symbol((n % 32) as int);
        assert(symbol_value(c) == Some((n % 32) as int));
        assert(high.push(c).drop_last() =~= high);
    }
}

/// The digit string of a number that is not negative is made of symbols,
/// and stands for the number.
pub proof fn lemma_number_digits(number: int)
    requires
        number >= 0,
    ensures
        all_symbols(number_digits(number)),
        payload_value(number_digits(number)) == number,
        number_digits(number).len() >= 1,
{
    if number == 0 {
        let s = seq!['0'];
        assert(s.drop_last() =~= Seq::<char>::empty());
        assert(payload_value(s) == payload_value(s.drop_last()) * 32 + 0);
    } else {
        lemma_base32_digits(number as nat);
    }
}

/// Zeros in front change neither what a payload is made of nor what it
/// stands for.
pub proof fn lemma_leading_zeros(zeros: nat, s: Seq<char>)
    ensures
        payload_value(Seq::new(zeros, |i: int| '0') + s) == payload_value(s),
        all_symbols(s) ==> all_symbols(Seq::new(zeros, |i: int| '0') + s),
    decreases s.len(),
{
    let z = Seq::new(zeros, |i: int| '0');
    if s.len() == 0 {
        assert(z + s =~= z);
        lemma_only_zeros(zeros);
    } else {
        lemma_leading_zeros(zeros, s.drop_last());
        assert((z + s).drop_last() =~= z + s.drop_last());
        assert((z + s).last() == s.last());
    }
}

/// A payload of zeros stands for zero.
pub proof fn lemma_only_zeros(zeros: nat)
    ensures
        payload_value(Seq::new(zeros, |i: int| '0')) == 0,
    decreases zeros,
{
    let z = Seq::new(zeros, |i: int| '0');
    if zeros > 0 {
        lemma_only_zeros((zeros - 1) as nat);
        assert(z.drop_last() =~= Seq::new((zeros - 1) as nat, |i: int| '0'));
    }
}

/// The padded digits of a number that is not negative are symbols and
/// stand for the number.
pub proof fn lemma_padded_digits(number: int, length: nat, checksum: bool)
    requires
        number >= 0,
    ensures
        all_symbols(padded_digits(number, length, checksum)),
        payload_value(padded_digits(number, length, checksum)) == number,
        padded_digits(number, length, checksum).len() >= 1,
{
    let digits = number_digits(number);
    lemma_number_digits(number);
    let width = if checksum && length > 2 {
        (length - 2) as nat
    } else {
        length
    };
    if digits.len() < width {
        lemma_leading_zeros((width - digits.len()) as nat, digits);
    }
}

/// A checksum below 100 is written as exactly two decimal digits.
pub proof fn lemma_two_digits(n: nat)
    requires
        n < 100,
    ensures
        two_digits(n) == seq![decimal_char((n / 10) as int), decimal_char((n % 10) as int)],
        is_decimal(decimal_char((n / 10) as int)),
        is_decimal(decimal_char((n % 10) as int)),
        decimal_value(decimal_char((n / 10) as int)) == n / 10,
        decimal_value(decimal_char((n % 10) as int)) == n % 10,
        all_symbols(two_digits(n)),
{
    reveal_with_fuel(decimal_digits, 2);
    let t = decimal_char((n / 10) as int);
    let o = decimal_char((n % 10) as int);
    if n < 10 {
        assert(two_digits(n) =~= seq![t, o]);
    } else {
        assert(decimal_digits(n) =~= seq![t, o]);
    }
}

/// Grouping puts nothing but hyphens between the characters.
pub proof fn lemma_grouped_symbols(s: Seq<char>, every: nat)
    requires
        all_symbols(s),
    ensures
        symbols_and_hyphens(grouped(s, every)),
        without_hyphens(grouped(s, every)) == s,
    decreases s.len(),
{
    lemma_without_hyphens_keeps(s);
    if every == 0 || s.len() <= every {
    } else {
        let head = s.take(every as int);
        let tail = s.skip(every as int);
        lemma_grouped_symbols(tail, every);
        lemma_without_hyphens_keeps(head);
        let p = |c: char| c != '-';
        let dash = seq!['-'];
        Seq::filter_distributes_over_add(head, dash, p);
        Seq::filter_distributes_over_add(head + dash, grouped(tail, every), p);
        assert(dash.filter(p) =~= Seq::<char>::empty()) by {
            Seq::<char>::empty().lemma_filter_push('-', p);
            assert(Seq::<char>::empty().push('-') =~= dash);
            reveal(Seq::filter);
        }
        assert(head + Seq::<char>::empty() + tail =~= s);
    }
}

/// Normalizing an encoded text undoes the grouping and changes nothing
/// else.
pub proof fn lemma_normalize_grouped(s: Seq<char>, every: nat)
    requires
        all_symbols(s),
    ensures
        spec_normalize(grouped(s, every)) == s,
{
    let g = grouped(s, every);
    lemma_grouped_symbols(s, every);
    assert(is_ascii_chars(g)) by {
        assert forall|i: int| 0 <= i < g.len() implies '\0' <= #[trigger] g[i] <= '\u{7f}' by {
            assert(symbol_value(g[i]) is Some || g[i] == '-');
        }
    }
    assert(ascii_lowercase(g) =~= g) by {
        assert forall|i: int| 0 <= i < g.len() implies ascii_lowercase(g)[i] == g[i] by {
            assert(symbol_value(g[i]) is Some || g[i] == '-');
        }
    }
    assert(lowercase(g) == g);
    assert(substituted(s) =~= s);
}

/// Decoding gives back every number that is not negative, however it
/// was encoded: with or without checksum, padded or not, grouped or not.
pub proof fn decode_inverts_encode(number: i64, split_every: nat, length: nat, checksum: bool)
    requires
        number >= 0,
    ensures
        spec_decode(spec_encode(number as int, split_every, length, checksum), checksum) == Ok::<
            i64,
            CrockfordErrorView,
        >(number),
{
    let n = number as int;
    let body = padded_digits(n, length, checksum);
    lemma_padded_digits(n, length, checksum);
    lemma_no_invalid(body);
    if checksum {
        let sum = checksum_of(n);
        assert(2 <= sum <= 98);
        lemma_two_digits(sum as nat);
        let full = body + two_digits(sum as nat);
        lemma_normalize_grouped(full, split_every);
        let split = full.len() - 2;
        assert(full.take(split) =~= body);
        assert(full.skip(split) =~= two_digits(sum as nat));
    } else {
        lemma_normalize_grouped(body, split_every);
    }
}

/// A number that is not negative, encoded as it is, decodes to itself.
pub proof fn decode_inverts_plain_encode(number: i64)
    requires
        number >= 0,
    ensures
        spec_decode(spec_encode(number as int, 0, 0, false), false) == Ok::<
            i64,
            CrockfordErrorView,
        >(number),
{
    decode_inverts_encode(number, 0, 0, false);
}

/// A number that is not negative, encoded with its checksum, decodes to
/// itself when the checksum is checked.
pub proof fn decode_inverts_checked_encode(number: i64)
    requires
        number >= 0,
    ensures
        spec_decode(spec_encode(number as int, 0, 0, true), true) == Ok::<i64, CrockfordErrorView>(
            number,
        ),
{
    decode_inverts_encode(number, 0, 0, true);
}

/// Hyphens put in by the encoder do not change what is decoded.
pub proof fn decode_ignores_grouping(number: i64, split_every: nat)
    requires
        number >= 0,
        split_every >= 1,
    ensures
        spec_decode(spec_encode(number as int, split_every, 0, false), false) == Ok::<
            i64,
            CrockfordErrorView,
        >(number),
{
    decode_inverts_encode(number, split_every, 0, false);
}

/// The number in the suffix of a DOI is read back: where what follows the
/// first slash of a DOI is a number that is not negative, encoded with its
/// checksum, decoding the DOI gives that number.
pub proof fn doi_suffix_is_read_back(
    id: Seq<char>,
    prefix: Seq<char>,
    number: i64,
    split_every: nat,
    length: nat,
)
    requires
        number >= 0,
        forall|i: int| 0 <= i < prefix.len() ==> prefix[i] != '/',
    ensures
        spec_decode_as(
            id,
            prefix + seq!['/'] + spec_encode(number as int, split_every, length, true),
            IdentifierType::DOI,
        ) == Ok::<i64, Seq<char>>(number),
{
    let suffix = spec_encode(number as int, split_every, length, true);
    let doi = prefix + seq!['/'] + suffix;
    lemma_after_first_at(doi, '/', prefix.len() as int);
    assert(doi.skip(prefix.len() as int + 1) =~= suffix);
    decode_inverts_encode(number, split_every, length, true);
}

} // verus!
