//! Proofs that the checksums catch a single wrong character.

use vstd::prelude::*;
use vstd::utf8::is_ascii_chars;
use crate::crockford::{
    checksum_of, decimal_value, is_decimal, lemma_alphabet, lemma_first_invalid_at,
    lemma_no_invalid, lemma_payload_value_grows, padded_digits, payload_value, pow32,
    spec_decode, spec_encode, spec_normalize, substitute, substituted, symbol_value, two_digits,
    CrockfordErrorView,
};
use crate::roundtrip::{
    all_symbols, decode_inverts_encode, lemma_normalize_grouped, lemma_padded_digits,
    lemma_two_digits,
};
use crate::text::{ascii_lower, ascii_lowercase, lemma_without_hyphens_keeps, lowercase};
use crate::utils::{all_decimal, mod11_2_check_char, mod11_2_state, spec_validate_mod11_2};

verus! {

/// The character that normalizing puts in place of an ASCII character
/// other than the hyphen.
pub open spec fn normalized_char(c: char) -> char {
    substitute(ascii_lower(c))
}

/// Normalizing a text of symbols in which one character was replaced by
/// an ASCII character other than the hyphen normalizes that character and
/// leaves the rest.
pub proof fn lemma_normalize_update(s: Seq<char>, at: int, c: char)
    requires
        all_symbols(s),
        0 <= at < s.len(),
        '\0' <= c <= '\u{7f}',
        c != '-',
    ensures
        spec_normalize(s.update(at, c)) == s.update(at, normalized_char(c)),
{
    let t = s.update(at, c);
    assert(is_ascii_chars(t)) by {
        assert forall|i: int| 0 <= i < t.len() implies '\0' <= #[trigger] t[i] <= '\u{7f}' by {
            if i != at {
                assert(symbol_value(s[i]) is Some);
            }
        }
    }
    let lowered = s.update(at, ascii_lower(c));
    assert(ascii_lowercase(t) =~= lowered) by {
        assert forall|i: int| 0 <= i < t.len() implies ascii_lowercase(t)[i] == lowered[i] by {
            if i != at {
                assert(symbol_value(s[i]) is Some);
            }
        }
    }
    assert(lowercase(t) == lowered);
    assert forall|i: int| 0 <= i < lowered.len() implies lowered[i] != '-' by {
        if i != at {
            assert(symbol_value(s[i]) is Some);
        }
    }
    lemma_without_hyphens_keeps(lowered);
    assert(substituted(lowered) =~= s.update(at, normalized_char(c))) by {
        assert forall|i: int| 0 <= i < lowered.len() implies substituted(lowered)[i] == s.update(
            at,
            normalized_char(c),
        )[i] by {
            if i != at {
                assert(symbol_value(s[i]) is Some);
            }
        }
    }
}

/// Replacing the symbol at `at` changes the value of a payload by the
/// difference of the two symbols, times the weight of the place.
pub proof fn lemma_payload_value_update(s: Seq<char>, at: int, c: char)
    requires
        0 <= at < s.len(),
        symbol_value(s[at]) is Some,
        symbol_value(c) is Some,
    ensures
        payload_value(s.update(at, c)) == payload_value(s) + (symbol_value(c).unwrap()
            - symbol_value(s[at]).unwrap()) * pow32((s.len() - 1 - at) as nat),
    decreases s.len(),
{
    let t = s.update(at, c);
    let delta = symbol_value(c).unwrap() - symbol_value(s[at]).unwrap();
    let here = pow32((s.len() - 1 - at) as nat);
    if at == s.len() - 1 {
        assert(t.drop_last() =~= s.drop_last());
        assert(here == 1);
        assert(delta * here == delta);
    } else {
        lemma_payload_value_update(s.drop_last(), at, c);
        assert(t.drop_last() =~= s.drop_last().update(at, c));
        let weight = pow32((s.len() - 2 - at) as nat);
        assert(here == 32 * weight);
        assert((payload_value(s.drop_last()) + delta * weight) * 32 == payload_value(
            s.drop_last(),
        ) * 32 + delta * here) by (nonlinear_arith)
            requires
                here == 32 * weight,
        ;
    }
}

/// 97 divides `x` where it divides `100 * x`.
pub proof fn lemma_cancel_100(x: int)
    requires
        (100 * x) % 97 == 0,
    ensures
        x % 97 == 0,
{
    let q = (100 * x) / 97;
    assert(100 * x == 97 * q);
    assert(x == 97 * (65 * q - 67 * x));
}

/// 97 divides `x` where it divides `32 * x`.
pub proof fn lemma_cancel_32(x: int)
    requires
        (32 * x) % 97 == 0,
    ensures
        x % 97 == 0,
{
    let q = (32 * x) / 97;
    assert(32 * x == 97 * q);
    assert(x == 97 * (94 * q - 31 * x));
}

/// 97 divides `x` where it divides `x` times a power of 32.
pub proof fn lemma_cancel_pow32(x: int, k: nat)
    requires
        (x * pow32(k)) % 97 == 0,
    ensures
        x % 97 == 0,
    decreases k,
{
    if k > 0 {
        let rest = pow32((k - 1) as nat);
        assert(x * pow32(k) == 32 * (x * rest)) by (nonlinear_arith)
            requires
                pow32(k) == 32 * rest,
        ;
        lemma_cancel_32(x * rest);
        lemma_cancel_pow32(x, (k - 1) as nat);
    } else {
        assert(x * pow32(0) == x) by (nonlinear_arith)
            requires
                pow32(0) == 1,
        ;
    }
}

/// Two numbers that are not negative and differ by less than 32 times a
/// power of 32 have different checksums.
pub proof fn lemma_checksums_differ(a: int, b: int, delta: int, k: nat)
    requires
        a >= 0,
        b >= 0,
        b == a + delta * pow32(k),
        -32 < delta < 32,
        delta != 0,
    ensures
        checksum_of(a) != checksum_of(b),
{
    if checksum_of(a) == checksum_of(b) {
        assert((100 * a) % 97 == (100 * b) % 97);
        let qa = (100 * a) / 97;
        let qb = (100 * b) / 97;
        assert(100 * (b - a) == 97 * (qb - qa));
        assert((100 * (b - a)) % 97 == 0);
        lemma_cancel_100(b - a);
        lemma_cancel_pow32(delta, k);
        assert(false);
    }
}

/// Different symbols have different values.
pub proof fn lemma_symbols_differ(x: char, y: char)
    requires
        symbol_value(x) is Some,
        symbol_value(y) is Some,
        x != y,
    ensures
        symbol_value(x) != symbol_value(y),
{
    lemma_alphabet();
}

/// One wrong character in an encoded number with checksum never decodes:
/// whatever ASCII character other than a hyphen stands in place of one
/// of the characters, unless it is read as the one it replaces, decoding
/// fails. It fails on the character itself where that is no symbol, on the
/// form of the checksum where a checksum digit was replaced by something
/// else than a digit, on the size of the number where that left the 64
/// bits, and on the checksum in every other case.
pub proof fn wrong_ascii_character_never_decodes(number: i64, length: nat, at: int, c: char)
    requires
        number >= 0,
        0 <= at < spec_encode(number as int, 0, length, true).len(),
        '\0' <= c <= '\u{7f}',
        c != '-',
        normalized_char(c) != spec_encode(number as int, 0, length, true)[at],
    ensures
        ({
            let text = spec_encode(number as int, 0, length, true).update(at, c);
            let body = padded_digits(number as int, length, true);
            match spec_decode(text, true) {
                Ok(_) => false,
                Err(CrockfordErrorView::InvalidCharacter(x)) => at < body.len() && x
                    == normalized_char(c) && symbol_value(x) is None,
                Err(CrockfordErrorView::InvalidChecksumFormat(_)) => at >= body.len()
                    && !is_decimal(normalized_char(c)),
                Err(CrockfordErrorView::NumberTooLarge(_)) => at < body.len() && payload_value(
                    body.update(at, normalized_char(c)),
                ) > i64::MAX,
                Err(CrockfordErrorView::InvalidChecksum(given, _)) => given == text,
            }
        }),
{
    let n = number as int;
    let encoded = spec_encode(n, 0, length, true);
    let text = encoded.update(at, c);
    let body = padded_digits(n, length, true);
    let sum = checksum_of(n);
    let suffix = two_digits(sum as nat);
    let r = normalized_char(c);
    lemma_alphabet();
    lemma_padded_digits(number as int, length, true);
    assert(2 <= sum <= 98);
    lemma_two_digits(sum as nat);
    assert(encoded == body + suffix);
    assert(all_symbols(encoded));
    lemma_normalize_update(encoded, at, c);
    let normalized = encoded.update(at, r);
    assert(spec_normalize(text) == normalized);
    let split = normalized.len() - 2;
    assert(split == body.len());
    if at < body.len() {
        let payload = body.update(at, r);
        assert(normalized.take(split) =~= payload);
        assert(normalized.skip(split) =~= suffix);
        if symbol_value(r) is None {
            lemma_first_invalid_at(payload, at);
        } else {
            assert(all_symbols(payload));
            lemma_no_invalid(payload);
            lemma_payload_value_update(body, at, r);
            lemma_symbols_differ(r, body[at]);
            lemma_payload_value_grows(payload, 0);
            if payload_value(payload) <= i64::MAX {
                lemma_checksums_differ(
                    n,
                    payload_value(payload),
                    symbol_value(r).unwrap() - symbol_value(body[at]).unwrap(),
                    (body.len() - 1 - at) as nat,
                );
            }
        }
    } else {
        assert(normalized.take(split) =~= body);
        assert(normalized.skip(split) =~= suffix.update(at - split, r));
        lemma_no_invalid(body);
    }
}

/// One wrong character in an encoded number with checksum is caught by the
/// checksum or as a character outside the alphabet. This holds of every
/// ASCII character other than a hyphen that is not read as the one it
/// replaces, as long as a checksum digit is replaced by a digit and the
/// number stays within 64 bits.
pub proof fn checksum_catches_wrong_ascii_character(number: i64, length: nat, at: int, c: char)
    requires
        number >= 0,
        0 <= at < spec_encode(number as int, 0, length, true).len(),
        '\0' <= c <= '\u{7f}',
        c != '-',
        normalized_char(c) != spec_encode(number as int, 0, length, true)[at],
        at >= padded_digits(number as int, length, true).len() ==> is_decimal(normalized_char(c)),
        at < padded_digits(number as int, length, true).len() ==> payload_value(
            padded_digits(number as int, length, true).update(at, normalized_char(c)),
        ) <= i64::MAX,
    ensures
        spec_decode(spec_encode(number as int, 0, length, true).update(at, c), true) matches Err(e)
            && (e is InvalidChecksum || e is InvalidCharacter),
{
    wrong_ascii_character_never_decodes(number, length, at, c);
}

/// A character that is read as the one it replaces does no harm: an
/// encoded number still decodes where one of its characters is typed as a
/// capital or as a look-alike.
pub proof fn look_alike_still_decodes(
    number: i64,
    length: nat,
    checksum: bool,
    at: int,
    c: char,
)
    requires
        number >= 0,
        0 <= at < spec_encode(number as int, 0, length, checksum).len(),
        '\0' <= c <= '\u{7f}',
        c != '-',
        normalized_char(c) == spec_encode(number as int, 0, length, checksum)[at],
    ensures
        spec_decode(spec_encode(number as int, 0, length, checksum).update(at, c), checksum) == Ok::<
            i64,
            CrockfordErrorView,
        >(number),
{
    let n = number as int;
    let encoded = spec_encode(n, 0, length, checksum);
    lemma_padded_digits(n, length, checksum);
    if checksum {
        lemma_two_digits(checksum_of(n) as nat);
    }
    assert(all_symbols(encoded));
    lemma_normalize_update(encoded, at, c);
    assert(encoded.update(at, normalized_char(c)) =~= encoded);
    lemma_normalize_grouped(encoded, 0);
    decode_inverts_encode(number, 0, length, checksum);
}

/// 2 to the power of `n`.
pub open spec fn pow2(n: nat) -> int
    decreases n,
{
    if n == 0 {
        1
    } else {
        2 * pow2((n - 1) as nat)
    }
}

/// The sum that ISO 7064 (mod 11-2) runs through, without the reduction
/// modulo 11: each digit is added and the sum is doubled.
pub open spec fn doubled_sum(body: Seq<char>) -> int
    decreases body.len(),
{
    if body.len() == 0 {
        0
    } else {
        (doubled_sum(body.drop_last()) + decimal_value(body.last())) * 2
    }
}

/// The running value of the check is the doubled sum modulo 11.
pub proof fn lemma_state_is_doubled_sum(body: Seq<char>)
    ensures
        mod11_2_state(body) == doubled_sum(body) % 11,
    decreases body.len(),
{
    if body.len() > 0 {
        lemma_state_is_doubled_sum(body.drop_last());
        let before = doubled_sum(body.drop_last());
        let v = decimal_value(body.last());
        let q = before / 11;
        assert(before == 11 * q + before % 11);
        assert((before + v) * 2 == 11 * (2 * q) + (before % 11 + v) * 2);
        vstd::arithmetic::div_mod::lemma_mod_multiples_vanish(
            2 * q,
            (before % 11 + v) * 2,
            11,
        );
    }
}

/// Replacing the digit at `at` changes the doubled sum by the difference
/// of the two digits, times the weight of the place.
pub proof fn lemma_doubled_sum_update(body: Seq<char>, at: int, d: char)
    requires
        0 <= at < body.len(),
    ensures
        doubled_sum(body.update(at, d)) == doubled_sum(body) + (decimal_value(d) - decimal_value(
            body[at],
        )) * pow2((body.len() - at) as nat),
    decreases body.len(),
{
    let changed = body.update(at, d);
    let delta = decimal_value(d) - decimal_value(body[at]);
    let here = pow2((body.len() - at) as nat);
    if at == body.len() - 1 {
        assert(changed.drop_last() =~= body.drop_last());
        assert(here == 2) by {
            reveal_with_fuel(pow2, 2);
        }
    } else {
        lemma_doubled_sum_update(body.drop_last(), at, d);
        assert(changed.drop_last() =~= body.drop_last().update(at, d));
        let weight = pow2((body.len() - 1 - at) as nat);
        assert(here == 2 * weight);
        assert((doubled_sum(body.drop_last()) + delta * weight + decimal_value(body.last())) * 2
            == (doubled_sum(body.drop_last()) + decimal_value(body.last())) * 2 + delta * here)
            by (nonlinear_arith)
            requires
                here == 2 * weight,
        ;
    }
}

/// 11 divides `x` where it divides `x` times a power of 2.
pub proof fn lemma_cancel_pow2(x: int, k: nat)
    requires
        (x * pow2(k)) % 11 == 0,
    ensures
        x % 11 == 0,
    decreases k,
{
    if k > 0 {
        let rest = pow2((k - 1) as nat);
        assert(x * pow2(k) == 2 * (x * rest)) by (nonlinear_arith)
            requires
                pow2(k) == 2 * rest,
        ;
        let y = x * rest;
        let q = (2 * y) / 11;
        assert(2 * y == 11 * q);
        assert(y == 11 * (6 * q - y));
        lemma_cancel_pow2(x, (k - 1) as nat);
    } else {
        assert(x * pow2(0) == x) by (nonlinear_arith)
            requires
                pow2(0) == 1,
        ;
    }
}

/// One wrong digit in a number with an ISO 7064 (mod 11-2) check character
/// is caught: where a digit before the check character is replaced by
/// another digit, the check character is no longer the right one.
pub proof fn check_character_catches_wrong_digit(body: Seq<char>, at: int, d: char)
    requires
        all_decimal(body),
        0 <= at < body.len(),
        '0' <= d <= '9',
        d != body[at],
    ensures
        mod11_2_check_char(body.update(at, d)) != mod11_2_check_char(body),
        spec_validate_mod11_2(body.update(at, d).push(mod11_2_check_char(body))) is Err,
{
    let changed = body.update(at, d);
    let delta = decimal_value(d) - decimal_value(body[at]);
    assert('0' <= body[at] <= '9');
    lemma_state_is_doubled_sum(body);
    lemma_state_is_doubled_sum(changed);
    lemma_doubled_sum_update(body, at, d);
    if mod11_2_state(changed) == mod11_2_state(body) {
        let a = doubled_sum(body);
        let b = doubled_sum(changed);
        assert(b - a == 11 * (b / 11 - a / 11));
        assert((delta * pow2((body.len() - at) as nat)) % 11 == 0);
        lemma_cancel_pow2(delta, (body.len() - at) as nat);
        assert(false);
    }
    assert(changed.push(mod11_2_check_char(body)).drop_last() =~= changed);
}

} // verus!
