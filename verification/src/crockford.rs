//! Crockford base32 identifiers with an ISO 7064 (mod 97-10) checksum.
//!
//! A number is written most significant digit first over a 32-symbol
//! alphabet that leaves out `i`, `l`, `o` and `u`. The optional checksum is a
//! function of the number, not of its text, and is appended as two decimal
//! digits.

use rand::Rng;
use vstd::prelude::*;
use crate::roundtrip::decode_inverts_encode;
use crate::text::{lowercase, lowercase_chars, push_char, string_of, without_hyphens};

verus! {

/// The 32 symbols, each at the index that is its value.
pub open spec fn alphabet() -> Seq<char> {
    "0123456789abcdefghjkmnpqrstvwxyz"@
}

/// The value of a symbol, or `None` for a character outside the alphabet.
pub open spec fn symbol_value(c: char) -> Option<int> {
    if '0' <= c <= '9' {
        Some(c as int - '0' as int)
    } else if 'a' <= c <= 'h' {
        Some(c as int - 'a' as int + 10)
    } else if 'j' <= c <= 'k' {
        Some(c as int - 'j' as int + 18)
    } else if 'm' <= c <= 'n' {
        Some(c as int - 'm' as int + 20)
    } else if 'p' <= c <= 't' {
        Some(c as int - 'p' as int + 22)
    } else if 'v' <= c <= 'z' {
        Some(c as int - 'v' as int + 27)
    } else {
        None
    }
}

/// The symbol that stands for a value below 32.
pub open spec fn symbol(value: int) -> char {
    alphabet()[value]
}

/// `symbol_value` is the position of a character in the alphabet.
pub proof fn lemma_alphabet()
    ensures
        alphabet().len() == 32,
        forall|d: int| 0 <= d < 32 ==> symbol_value(#[trigger] symbol(d)) == Some(d),
        forall|c: char|
            (#[trigger] symbol_value(c)) is Some ==> 0 <= symbol_value(c).unwrap() < 32 && symbol(
                symbol_value(c).unwrap(),
            ) == c,
        forall|c: char| symbol_value(c) is Some <==> alphabet().contains(c),
{
    reveal_strlit("0123456789abcdefghjkmnpqrstvwxyz");
    let a = alphabet();
    assert(a.len() == 32);
    assert forall|d: int| 0 <= d < 32 implies symbol_value(#[trigger] symbol(d)) == Some(d) by {}
    assert forall|c: char| (#[trigger] symbol_value(c)) is Some implies 0 <= symbol_value(
        c,
    ).unwrap() < 32 && symbol(symbol_value(c).unwrap()) == c by {}
    assert forall|c: char| symbol_value(c) is Some <==> a.contains(c) by {
        if symbol_value(c) is Some {
            let d = symbol_value(c).unwrap();
            assert(a[d] == c);
        }
        if a.contains(c) {
            let i = choose|i: int| 0 <= i < a.len() && a[i] == c;
            assert(symbol_value(symbol(i)) == Some(i));
        }
    }
}

/// Remainder of a division that truncates toward zero: it carries the sign
/// of the dividend.
pub open spec fn truncated_rem(a: int, m: int) -> int {
    if a >= 0 {
        a % m
    } else {
        -((-a) % m)
    }
}

/// ISO 7064 (mod 97-10) checksum of a number.
pub open spec fn checksum_of(number: int) -> int {
    97 - truncated_rem(100 * number, 97) + 1
}

/// Computes the ISO 7064 (mod 97-10) checksum of a number. The product is
/// formed in 128 bits, so no input overflows.
pub fn generate_checksum(number: i64) -> (checksum: i64)
    ensures
        checksum == checksum_of(number as int),
        number >= 0 ==> 2 <= checksum <= 98,
        number < 0 ==> 98 <= checksum <= 194,
{
    let wide: i128 = 100 * (number as i128);
    let r: i128 = wide % 97;
    (97 - r + 1) as i64
}

/// Tells whether `checksum` is the checksum of `number`.
pub fn validate(number: i64, checksum: i64) -> (valid: bool)
    ensures
        valid == (checksum == checksum_of(number as int)),
{
    checksum == generate_checksum(number)
}

/// Base-32 digits of a positive number, most significant first; no digit
/// for zero.
pub open spec fn base32_digits(n: nat) -> Seq<char>
    decreases n,
{
    if n == 0 {
        Seq::empty()
    } else {
        base32_digits(n / 32).push(symbol((n % 32) as int))
    }
}

/// The digit string of a number before padding: `"0"` for zero, the base-32
/// digits for a positive number, nothing for a negative one.
pub open spec fn number_digits(number: int) -> Seq<char> {
    if number == 0 {
        seq!['0']
    } else if number > 0 {
        base32_digits(number as nat)
    } else {
        Seq::empty()
    }
}

/// `s` with as many `'0'` in front as it takes to reach `width`; a longer
/// `s` is left as it is.
pub open spec fn zero_padded(s: Seq<char>, width: nat) -> Seq<char> {
    if s.len() < width {
        Seq::new((width - s.len()) as nat, |i: int| '0') + s
    } else {
        s
    }
}

/// The character of a decimal digit.
pub open spec fn decimal_char(d: int) -> char {
    (d + '0' as int) as char
}

/// Decimal digits of a number, most significant first.
pub open spec fn decimal_digits(n: nat) -> Seq<char>
    decreases n,
{
    if n < 10 {
        seq![decimal_char(n as int)]
    } else {
        decimal_digits(n / 10).push(decimal_char((n % 10) as int))
    }
}

/// A number in decimal, with a leading zero where it has one digit only.
pub open spec fn two_digits(n: nat) -> Seq<char> {
    zero_padded(decimal_digits(n), 2)
}

/// `s` with a `'-'` after every `every` characters, none at either end.
/// With `every == 0` nothing is inserted.
pub open spec fn grouped(s: Seq<char>, every: nat) -> Seq<char>
    decreases s.len(),
{
    if every == 0 || s.len() <= every {
        s
    } else {
        (s.take(every as int) + seq!['-']) + grouped(s.skip(every as int), every)
    }
}

/// The digits of `number`, padded, before any grouping: with a checksum and
/// a `length` above 2, two places of `length` are kept for the checksum.
pub open spec fn padded_digits(number: int, length: nat, checksum: bool) -> Seq<char> {
    let width = if checksum && length > 2 {
        (length - 2) as nat
    } else {
        length
    };
    zero_padded(number_digits(number), width)
}

/// What `encode` returns.
pub open spec fn spec_encode(number: int, split_every: nat, length: nat, checksum: bool) -> Seq<
    char,
> {
    let body = padded_digits(number, length, checksum);
    let full = if checksum {
        body + two_digits(checksum_of(number) as nat)
    } else {
        body
    };
    grouped(full, split_every)
}

/// The symbol of a value below 32.
fn symbol_for(value: u8) -> (c: char)
    requires
        value < 32,
    ensures
        c == symbol(value as int),
{
    proof {
        reveal_strlit("0123456789abcdefghjkmnpqrstvwxyz");
    }
    if value < 10 {
        (value + 48) as char
    } else if value < 18 {
        (value + 87) as char
    } else if value < 20 {
        (value + 88) as char
    } else if value < 22 {
        (value + 89) as char
    } else if value < 27 {
        (value + 90) as char
    } else {
        (value + 91) as char
    }
}

/// The digit string of a number before padding.
fn digits_of(number: i64) -> (digits: Vec<char>)
    ensures
        digits@ == number_digits(number as int),
{
    let mut digits: Vec<char> = Vec::new();
    if number == 0 {
        digits.push('0');
        assert(digits@ =~= seq!['0']);
        return digits;
    }
    if number < 0 {
        return digits;
    }
    let mut rest: i64 = number;
    assert(base32_digits(rest as nat) + digits@ =~= base32_digits(number as nat));
    while rest > 0
        invariant
            rest >= 0,
            number > 0,
            base32_digits(number as nat) == base32_digits(rest as nat) + digits@,
        decreases rest,
    {
        let low: u8 = (rest % 32) as u8;
        let c = symbol_for(low);
        assert(base32_digits(rest as nat) == base32_digits((rest / 32) as nat).push(c));
        assert(base32_digits((rest / 32) as nat).push(c) + digits@ =~= base32_digits(
            (rest / 32) as nat,
        ) + digits@.insert(0, c));
        rest = rest / 32;
        digits.insert(0, c);
    }
    assert(base32_digits(0) + digits@ =~= digits@);
    digits
}

/// Pads `digits` with leading zeros up to `width`.
fn pad_left(digits: Vec<char>, width: usize) -> (padded: Vec<char>)
    ensures
        padded@ == zero_padded(digits@, width as nat),
{
    if digits.len() >= width {
        return digits;
    }
    let missing: usize = width - digits.len();
    let mut padded: Vec<char> = Vec::new();
    let mut i: usize = 0;
    while i < missing
        invariant
            i <= missing,
            padded@ == Seq::new(i as nat, |k: int| '0'),
        decreases missing - i,
    {
        padded.push('0');
        assert(padded@ =~= Seq::new((i + 1) as nat, |k: int| '0'));
        i += 1;
    }
    let mut digits = digits;
    padded.append(&mut digits);
    padded
}

/// Appends `n` in decimal, with at least two digits.
fn push_two_digits(out: &mut Vec<char>, n: u8)
    ensures
        final(out)@ == old(out)@ + two_digits(n as nat),
{
    let hundreds: u8 = n / 100;
    let tens: u8 = (n / 10) % 10;
    let ones: u8 = n % 10;
    proof {
        reveal_with_fuel(decimal_digits, 3);
        let h = decimal_char(hundreds as int);
        let t = decimal_char(tens as int);
        let o = decimal_char(ones as int);
        if n >= 100 {
            assert(decimal_digits(n as nat) =~= seq![h, t, o]);
            assert(old(out)@ + two_digits(n as nat) =~= old(out)@.push(h).push(t).push(o));
        } else if n >= 10 {
            assert(decimal_digits(n as nat) =~= seq![t, o]);
            assert(old(out)@ + two_digits(n as nat) =~= old(out)@.push(t).push(o));
        } else {
            assert(decimal_digits(n as nat) =~= seq![o]);
            assert(two_digits(n as nat) =~= seq!['0', o]);
            assert(old(out)@ + two_digits(n as nat) =~= old(out)@.push(t).push(o));
        }
    }
    if hundreds > 0 {
        out.push((hundreds + 48) as char);
    }
    out.push((tens + 48) as char);
    out.push((ones + 48) as char);
}

/// Inserts a `'-'` after every `every` characters.
fn group(chars: &Vec<char>, every: usize) -> (out: Vec<char>)
    ensures
        out@ == grouped(chars@, every as nat),
{
    let mut out: Vec<char> = Vec::new();
    let mut i: usize = 0;
    if every == 0 {
        return chars.clone();
    }
    assert(chars@.skip(0) =~= chars@);
    assert(out@ + grouped(chars@, every as nat) =~= grouped(chars@, every as nat));
    while chars.len() - i > every
        invariant
            every > 0,
            i <= chars.len(),
            grouped(chars@, every as nat) == out@ + grouped(chars@.skip(i as int), every as nat),
        decreases chars.len() - i,
    {
        let ghost before = out@;
        let ghost rest = chars@.skip(i as int);
        let mut k: usize = 0;
        while k < every
            invariant
                k <= every,
                i + every < chars.len(),
                out@ == before + rest.take(k as int),
                rest == chars@.skip(i as int),
            decreases every - k,
        {
            out.push(chars[i + k]);
            assert(rest.take(k + 1) =~= rest.take(k as int).push(chars@[i + k]));
            assert(before + rest.take(k as int).push(chars@[i + k]) =~= (before + rest.take(
                k as int,
            )).push(chars@[i + k]));
            k += 1;
        }
        out.push('-');
        assert(out@ =~= before + (rest.take(every as int) + seq!['-']));
        assert(rest.skip(every as int) =~= chars@.skip(i + every));
        assert(before + ((rest.take(every as int) + seq!['-']) + grouped(
            rest.skip(every as int),
            every as nat,
        )) =~= (before + (rest.take(every as int) + seq!['-'])) + grouped(
            rest.skip(every as int),
            every as nat,
        ));
        i += every;
    }
    let ghost before = out@;
    let ghost rest = chars@.skip(i as int);
    let start: usize = i;
    while i < chars.len()
        invariant
            start <= i <= chars.len(),
            out@ == before + rest.take(i - start),
            rest == chars@.skip(start as int),
        decreases chars.len() - i,
    {
        out.push(chars[i]);
        assert(rest.take(i - start + 1) =~= rest.take(i - start).push(chars@[i as int]));
        assert(before + rest.take(i - start).push(chars@[i as int]) =~= (before + rest.take(
            i - start,
        )).push(chars@[i as int]));
        i += 1;
    }
    assert(rest.take(rest.len() as int) =~= rest);
    out
}

/// Writes `number` in Crockford base32: the digits, most significant first
/// (`"0"` for zero), padded with leading zeros to `length`, then the
/// two-digit checksum if one is asked for, then a `'-'` after every
/// `split_every` characters. With a checksum and a `length` above 2 the
/// checksum counts toward `length`. Padding never removes a digit.
pub fn encode(number: i64, split_every: usize, length: usize, checksum: bool) -> (encoded: String)
    ensures
        encoded@ == spec_encode(number as int, split_every as nat, length as nat, checksum),
{
    let width: usize = if checksum && length > 2 {
        length - 2
    } else {
        length
    };
    let mut chars = pad_left(digits_of(number), width);
    if checksum {
        let sum = generate_checksum(number);
        push_two_digits(&mut chars, sum as u8);
    }
    let out = group(&chars, split_every);
    string_of(&out)
}

/// The character a normalized text holds in place of `c`: `1` for the
/// look-alikes `i` and `l`, `0` for `o`.
pub open spec fn substitute(c: char) -> char {
    if c == 'i' || c == 'l' {
        '1'
    } else if c == 'o' {
        '0'
    } else {
        c
    }
}

/// `s` with every look-alike replaced.
pub open spec fn substituted(s: Seq<char>) -> Seq<char> {
    s.map_values(|c: char| substitute(c))
}

/// A lowercase text in normal form: without hyphens, with the look-alikes
/// replaced.
pub open spec fn spec_normalize_lowered(lowered: Seq<char>) -> Seq<char> {
    substituted(without_hyphens(lowered))
}

/// What `normalize` returns: the lowercase of the text, without hyphens,
/// with the look-alikes replaced.
pub open spec fn spec_normalize(text: Seq<char>) -> Seq<char> {
    spec_normalize_lowered(lowercase(text))
}

/// Normalizing a text that ends in `c` normalizes what stands before it,
/// and adds the substitute of `c` unless `c` is a hyphen.
pub proof fn lemma_normalize_push(s: Seq<char>, c: char)
    ensures
        c == '-' ==> substituted(without_hyphens(s.push(c))) == substituted(without_hyphens(s)),
        c != '-' ==> substituted(without_hyphens(s.push(c))) == substituted(
            without_hyphens(s),
        ).push(substitute(c)),
{
    s.lemma_filter_push(c, |c: char| c != '-');
    if c != '-' {
        assert(substituted(without_hyphens(s).push(c)) =~= substituted(without_hyphens(s)).push(
            substitute(c),
        ));
    }
}

/// The characters of the normalized text.
fn normalize_chars(text: &str) -> (normalized: Vec<char>)
    ensures
        normalized@ == spec_normalize(text@),
{
    let lowered = lowercase_chars(text);
    normalize_lowered(&lowered)
}

/// Brings a text that is already in lowercase to normal form: the hyphens
/// are left out, and `i`, `l`, `o` become `1`, `1`, `0`.
pub fn normalize_lowered(lowered: &Vec<char>) -> (normalized: Vec<char>)
    ensures
        normalized@ == spec_normalize_lowered(lowered@),
{
    let mut normalized: Vec<char> = Vec::new();
    let mut i: usize = 0;
    while i < lowered.len()
        invariant
            i <= lowered.len(),
            normalized@ == substituted(without_hyphens(lowered@.take(i as int))),
        decreases lowered.len() - i,
    {
        let c = lowered[i];
        proof {
            assert(lowered@.take(i + 1) =~= lowered@.take(i as int).push(c));
            lemma_normalize_push(lowered@.take(i as int), c);
        }
        if c == 'i' || c == 'l' {
            normalized.push('1');
        } else if c == 'o' {
            normalized.push('0');
        } else if c != '-' {
            normalized.push(c);
        }
        i += 1;
    }
    assert(lowered@.take(lowered@.len() as int) =~= lowered@);
    normalized
}

/// Brings a typed identifier to the form that is decoded: lowercase, no
/// hyphens, and `i`, `l`, `o` read as `1`, `1`, `0`.
pub fn normalize(text: &str) -> (normalized: String)
    ensures
        normalized@ == spec_normalize(text@),
{
    let chars = normalize_chars(text);
    string_of(&chars)
}

/// Why a text could not be decoded.
#[derive(Debug)]
pub enum CrockfordError {
    /// The payload holds a character that is not in the alphabet.
    InvalidCharacter(char),
    /// The checksum in the text is not the checksum of the decoded number.
    /// Holds the text as it was given and the checksum it states.
    InvalidChecksum(String, u8),
    /// The text has no two decimal digits at its end. Holds the normalized
    /// text where it is shorter than two characters, else its last two.
    InvalidChecksumFormat(String),
    /// The payload is made of symbols, but stands for a number above
    /// `i64::MAX`. Holds the text as it was given.
    NumberTooLarge(String),
}

/// A `CrockfordError` with its strings as sequences.
pub enum CrockfordErrorView {
    InvalidCharacter(char),
    InvalidChecksum(Seq<char>, u8),
    InvalidChecksumFormat(Seq<char>),
    NumberTooLarge(Seq<char>),
}

impl View for CrockfordError {
    type V = CrockfordErrorView;

    open spec fn view(&self) -> CrockfordErrorView {
        match self {
            CrockfordError::InvalidCharacter(c) => CrockfordErrorView::InvalidCharacter(*c),
            CrockfordError::InvalidChecksum(s, n) => CrockfordErrorView::InvalidChecksum(s@, *n),
            CrockfordError::InvalidChecksumFormat(s) => CrockfordErrorView::InvalidChecksumFormat(
                s@,
            ),
            CrockfordError::NumberTooLarge(s) => CrockfordErrorView::NumberTooLarge(s@),
        }
    }
}

impl CrockfordErrorView {
    /// The text that reports the error.
    pub open spec fn message(self) -> Seq<char> {
        match self {
            CrockfordErrorView::InvalidCharacter(c) => "invalid character: "@.push(c),
            CrockfordErrorView::InvalidChecksum(s, n) => "wrong checksum "@ + two_digits(n as nat)
                + " for identifier "@ + s,
            CrockfordErrorView::InvalidChecksumFormat(s) => "invalid checksum: "@ + s,
            CrockfordErrorView::NumberTooLarge(s) => "number too large: "@ + s,
        }
    }
}

impl CrockfordError {
    /// The text that reports the error.
    pub fn to_string(&self) -> (message: String)
        ensures
            message@ == self@.message(),
    {
        match self {
            CrockfordError::InvalidCharacter(c) => {
                let mut message = "invalid character: ".to_owned();
                push_char(&mut message, *c);
                message
            },
            CrockfordError::InvalidChecksum(s, n) => {
                let mut digits: Vec<char> = Vec::new();
                push_two_digits(&mut digits, *n);
                assert(digits@ =~= two_digits(*n as nat));
                let message = "wrong checksum ".to_owned();
                let message = message.concat(string_of(&digits).as_str());
                let message = message.concat(" for identifier ");
                message.concat(s.as_str())
            },
            CrockfordError::InvalidChecksumFormat(s) => {
                "invalid checksum: ".to_owned().concat(s.as_str())
            },
            CrockfordError::NumberTooLarge(s) => {
                "number too large: ".to_owned().concat(s.as_str())
            },
        }
    }
}

/// A result of `decode` with the strings of its error as sequences.
pub open spec fn decoded_view(result: Result<i64, CrockfordError>) -> Result<
    i64,
    CrockfordErrorView,
> {
    match result {
        Ok(number) => Ok(number),
        Err(e) => Err(e@),
    }
}

/// The first character of `s` that is not in the alphabet, if there is one.
pub open spec fn first_invalid(s: Seq<char>) -> Option<char>
    decreases s.len(),
{
    if s.len() == 0 {
        None
    } else if symbol_value(s[0]) is None {
        Some(s[0])
    } else {
        first_invalid(s.drop_first())
    }
}

/// The number that the symbols of `s` stand for, read most significant
/// first. A character outside the alphabet counts as zero.
pub open spec fn payload_value(s: Seq<char>) -> int
    decreases s.len(),
{
    if s.len() == 0 {
        0
    } else {
        payload_value(s.drop_last()) * 32 + match symbol_value(s.last()) {
            Some(value) => value,
            None => 0,
        }
    }
}

/// Decoding a normalized payload, of a text given as `text`: the first
/// character outside the alphabet is an error; so is a value above
/// `i64::MAX`.
pub open spec fn decode_payload(payload: Seq<char>, text: Seq<char>) -> Result<
    i64,
    CrockfordErrorView,
> {
    match first_invalid(payload) {
        Some(c) => Err(CrockfordErrorView::InvalidCharacter(c)),
        None => if payload_value(payload) > i64::MAX {
            Err(CrockfordErrorView::NumberTooLarge(text))
        } else {
            Ok(payload_value(payload) as i64)
        },
    }
}

/// Tells whether `c` is one of `0` to `9`.
pub open spec fn is_decimal(c: char) -> bool {
    '0' <= c <= '9'
}

/// The value of a decimal digit.
pub open spec fn decimal_value(c: char) -> int {
    c as int - '0' as int
}

/// What `decode` returns.
pub open spec fn spec_decode(text: Seq<char>, checksum: bool) -> Result<i64, CrockfordErrorView> {
    spec_decode_normalized(spec_normalize(text), text, checksum)
}

/// Decoding the normal form of a text given as `text`. Without checksum
/// the whole of it is the payload. With checksum its last two characters
/// must be decimal digits, and state the checksum of the number that the
/// characters before them stand for.
pub open spec fn spec_decode_normalized(
    normalized: Seq<char>,
    text: Seq<char>,
    checksum: bool,
) -> Result<i64, CrockfordErrorView> {
    if !checksum {
        decode_payload(normalized, text)
    } else if normalized.len() < 2 {
        Err(CrockfordErrorView::InvalidChecksumFormat(normalized))
    } else {
        let split = normalized.len() - 2;
        let suffix = normalized.skip(split);
        if !(is_decimal(suffix[0]) && is_decimal(suffix[1])) {
            Err(CrockfordErrorView::InvalidChecksumFormat(suffix))
        } else {
            let stated = 10 * decimal_value(suffix[0]) + decimal_value(suffix[1]);
            match decode_payload(normalized.take(split), text) {
                Err(e) => Err(e),
                Ok(number) => if stated == checksum_of(number as int) {
                    Ok(number)
                } else {
                    Err(CrockfordErrorView::InvalidChecksum(text, stated as u8))
                },
            }
        }
    }
}

/// The value of a symbol, or `None` for a character outside the alphabet.
fn value_of(c: char) -> (value: Option<u8>)
    ensures
        value is Some <==> symbol_value(c) is Some,
        value matches Some(v) ==> symbol_value(c) == Some(v as int) && v < 32,
{
    if c >= '0' && c <= '9' {
        Some((c as u8) - 48)
    } else if c >= 'a' && c <= 'h' {
        Some((c as u8) - 87)
    } else if c >= 'j' && c <= 'k' {
        Some((c as u8) - 88)
    } else if c >= 'm' && c <= 'n' {
        Some((c as u8) - 89)
    } else if c >= 'p' && c <= 't' {
        Some((c as u8) - 90)
    } else if c >= 'v' && c <= 'z' {
        Some((c as u8) - 91)
    } else {
        None
    }
}

/// Where every character before `i` is a symbol and the one at `i` is not,
/// that one is the first invalid character.
pub proof fn lemma_first_invalid_at(s: Seq<char>, i: int)
    requires
        0 <= i < s.len(),
        forall|j: int| 0 <= j < i ==> symbol_value(#[trigger] s[j]) is Some,
        symbol_value(s[i]) is None,
    ensures
        first_invalid(s) == Some(s[i]),
    decreases i,
{
    if i > 0 {
        lemma_first_invalid_at(s.drop_first(), i - 1);
    }
}

/// A text made of symbols has no invalid character.
pub proof fn lemma_no_invalid(s: Seq<char>)
    requires
        forall|j: int| 0 <= j < s.len() ==> symbol_value(#[trigger] s[j]) is Some,
    ensures
        first_invalid(s) is None,
    decreases s.len(),
{
    if s.len() > 0 {
        lemma_no_invalid(s.drop_first());
    }
}

/// The value of a payload is never negative, and a longer payload never
/// stands for less than its beginning.
pub proof fn lemma_payload_value_grows(s: Seq<char>, n: int)
    requires
        0 <= n <= s.len(),
    ensures
        0 <= payload_value(s.take(n)) <= payload_value(s),
    decreases s.len(),
{
    lemma_alphabet();
    if s.len() == 0 {
        assert(s.take(n) =~= s);
    } else if n == s.len() {
        assert(s.take(n) =~= s);
        lemma_payload_value_grows(s.drop_last(), n - 1);
    } else {
        lemma_payload_value_grows(s.drop_last(), n);
        assert(s.drop_last().take(n) =~= s.take(n));
    }
}

/// Decodes the first `end` characters of a normalized text.
fn decode_chars(chars: &Vec<char>, end: usize, text: &str) -> (result: Result<i64, CrockfordError>)
    requires
        end <= chars.len(),
    ensures
        decoded_view(result) == decode_payload(chars@.take(end as int), text@),
{
    let ghost payload = chars@.take(end as int);
    let mut number: i64 = 0;
    let mut too_large = false;
    let mut i: usize = 0;
    while i < end
        invariant
            i <= end <= chars.len(),
            payload == chars@.take(end as int),
            forall|j: int| 0 <= j < i ==> symbol_value(#[trigger] payload[j]) is Some,
            !too_large ==> number == payload_value(payload.take(i as int)),
            too_large ==> payload_value(payload.take(i as int)) > i64::MAX,
            0 <= number,
        decreases end - i,
    {
        let c = chars[i];
        proof {
            assert(payload.take(i + 1).drop_last() =~= payload.take(i as int));
            lemma_payload_value_grows(payload.take(i + 1), i as int);
            assert(payload.take(i + 1).take(i as int) =~= payload.take(i as int));
        }
        match value_of(c) {
            None => {
                proof {
                    lemma_first_invalid_at(payload, i as int);
                }
                return Err(CrockfordError::InvalidCharacter(c));
            },
            Some(value) => {
                if !too_large {
                    let next: i128 = (number as i128) * 32 + (value as i128);
                    if next > i64::MAX as i128 {
                        too_large = true;
                    } else {
                        number = next as i64;
                    }
                }
            },
        }
        i += 1;
    }
    proof {
        lemma_no_invalid(payload);
        assert(payload.take(end as int) =~= payload);
    }
    if too_large {
        Err(CrockfordError::NumberTooLarge(text.to_owned()))
    } else {
        Ok(number)
    }
}

/// Reads a Crockford base32 text back into its number. The text is
/// normalized first. With `checksum`, its last two characters must be
/// decimal digits and state the checksum of the number that the characters
/// before them stand for.
pub fn decode(text: &str, checksum: bool) -> (result: Result<i64, CrockfordError>)
    ensures
        decoded_view(result) == spec_decode(text@, checksum),
{
    let normalized = normalize_chars(text);
    decode_normalized(&normalized, text, checksum)
}

/// Reads the number in a text that is already in normal form. `text` is
/// the text as it was given; errors name it.
pub fn decode_normalized(normalized: &Vec<char>, text: &str, checksum: bool) -> (result: Result<
    i64,
    CrockfordError,
>)
    ensures
        decoded_view(result) == spec_decode_normalized(normalized@, text@, checksum),
{
    if !checksum {
        assert(normalized@.take(normalized@.len() as int) =~= normalized@);
        return decode_chars(normalized, normalized.len(), text);
    }
    if normalized.len() < 2 {
        return Err(CrockfordError::InvalidChecksumFormat(string_of(normalized)));
    }
    let split: usize = normalized.len() - 2;
    let tens = normalized[split];
    let ones = normalized[split + 1];
    if !(tens >= '0' && tens <= '9' && ones >= '0' && ones <= '9') {
        let mut suffix: Vec<char> = Vec::new();
        suffix.push(tens);
        suffix.push(ones);
        assert(suffix@ =~= normalized@.skip(split as int));
        return Err(CrockfordError::InvalidChecksumFormat(string_of(&suffix)));
    }
    let stated: u8 = 10 * ((tens as u8) - 48) + ((ones as u8) - 48);
    match decode_chars(normalized, split, text) {
        Err(e) => Err(e),
        Ok(number) => {
            if validate(number, stated as i64) {
                Ok(number)
            } else {
                Err(CrockfordError::InvalidChecksum(text.to_owned(), stated))
            }
        },
    }
}

/// 32 to the power of `n`.
pub open spec fn pow32(n: nat) -> int
    decreases n,
{
    if n == 0 {
        1
    } else {
        32 * pow32((n - 1) as nat)
    }
}

/// The bound below which `generate` draws a number for `width` digits: 32
/// to the power of `width`, or `i64::MAX` where that is less.
pub open spec fn generate_bound(width: nat) -> int {
    if pow32(width) < i64::MAX {
        pow32(width)
    } else {
        i64::MAX as int
    }
}

/// The width that `generate` leaves to the digits of a text of `length`
/// characters.
pub open spec fn generate_width(length: nat, checksum: bool) -> nat {
    if checksum {
        (length - 2) as nat
    } else {
        length
    }
}

/// Powers of 32 grow with the exponent.
pub proof fn lemma_pow32_grows(a: nat, b: nat)
    requires
        a <= b,
    ensures
        1 <= pow32(a) <= pow32(b),
    decreases b,
{
    if b > 0 {
        if a == b {
            lemma_pow32_grows((a - 1) as nat, (b - 1) as nat);
        } else {
            lemma_pow32_grows(a, (b - 1) as nat);
        }
    }
}

/// Computes `generate_bound(width)`.
fn bound_for(width: usize) -> (bound: i64)
    ensures
        bound == generate_bound(width as nat),
        bound >= 1,
{
    let mut bound: i64 = 1;
    let mut i: usize = 0;
    while i < width && bound <= i64::MAX / 32
        invariant
            i <= width,
            bound == pow32(i as nat),
            bound >= 1,
        decreases width - i,
    {
        bound = bound * 32;
        i += 1;
    }
    if i < width {
        proof {
            lemma_pow32_grows((i + 1) as nat, width as nat);
        }
        i64::MAX
    } else {
        bound
    }
}

/// Draws a number with the thread's generator of `rand` (`thread_rng`,
/// seeded by the system on first use), by `Rng::gen_range` on `0..bound`:
/// whatever is drawn lies in that range. An empty range is left out, since
/// `gen_range` panics on it.
#[verifier::external_body]
fn random_below(bound: i64) -> (number: i64)
    requires
        bound > 0,
    ensures
        0 <= number < bound,
{
    rand::thread_rng().gen_range(0..bound)
}

/// Makes a random identifier: a number drawn below 32 to the power of the
/// digit width (at most `i64::MAX`), encoded with that width. With a
/// checksum two of the `length` characters are the checksum's, so `length`
/// must be at least 3. What is made decodes to the number that was drawn.
pub fn generate(length: usize, split_every: usize, checksum: bool) -> (generated: String)
    requires
        !(checksum && length < 3),
    ensures
        exists|number: i64|
            0 <= number < generate_bound(generate_width(length as nat, checksum))
                && generated@ == #[trigger] spec_encode(
                number as int,
                split_every as nat,
                generate_width(length as nat, checksum),
                checksum,
            ),
        spec_decode(generated@, checksum) matches Ok(number) && 0 <= number < generate_bound(
            generate_width(length as nat, checksum),
        ),
{
    let width: usize = if checksum {
        length - 2
    } else {
        length
    };
    let number = random_below(bound_for(width));
    let generated = encode(number, split_every, width, checksum);
    proof {
        decode_inverts_encode(number, split_every as nat, width as nat, checksum);
    }
    assert(generated@ == spec_encode(
        number as int,
        split_every as nat,
        generate_width(length as nat, checksum),
        checksum,
    ));
    generated
}

} // verus!
