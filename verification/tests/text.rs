use commonmeta::file_names::{chosen_extension, dotted, is_zip};
use commonmeta::text::{
    begins_with, chars_le, chars_of, contains_chars, lowercase_chars, rest_after_first,
    same_chars, same_text, split_chars, string_of, strip_hyphens, strip_separators,
    to_ascii_lower,
};

fn chars(s: &str) -> Vec<char> {
    s.chars().collect()
}

#[test]
fn strings_and_characters_convert_both_ways() {
    assert_eq!(chars_of("a\u{e9}\u{20ac}z"), vec!['a', '\u{e9}', '\u{20ac}', 'z']);
    assert_eq!(chars_of(""), Vec::<char>::new());
    assert_eq!(string_of(&vec!['a', '\u{e9}', '\u{20ac}', 'z']), "a\u{e9}\u{20ac}z");
    assert_eq!(string_of(&Vec::new()), "");
}

#[test]
fn lowercase_of_ascii_and_other_text() {
    assert_eq!(to_ascii_lower('A'), 'a');
    assert_eq!(to_ascii_lower('Z'), 'z');
    assert_eq!(to_ascii_lower('a'), 'a');
    assert_eq!(to_ascii_lower('@'), '@');
    assert_eq!(to_ascii_lower('['), '[');
    assert_eq!(to_ascii_lower('\u{c9}'), '\u{c9}');
    assert_eq!(lowercase_chars("Hello, World 42"), chars("hello, world 42"));
    assert_eq!(lowercase_chars("\u{c9}T\u{c9}"), chars("\u{e9}t\u{e9}"));
    assert_eq!(lowercase_chars("\u{130}"), chars("i\u{307}"));
    assert_eq!(
        lowercase_chars("\u{39f}\u{394}\u{39f}\u{3a3}"),
        chars("\u{3bf}\u{3b4}\u{3bf}\u{3c2}")
    );
}

#[test]
fn texts_are_compared_character_by_character() {
    assert!(same_text("abc", "abc"));
    assert!(!same_text("abc", "abd"));
    assert!(!same_text("abc", "ab"));
    assert!(same_text("", ""));
    assert!(same_chars(&chars("x"), &chars("x")));
    assert!(!same_chars(&chars("x"), &chars("")));
}

#[test]
fn dictionary_order_is_that_of_strings() {
    let samples = ["", "0", "00", "01", "1", "10", "9", "X", "a", "ab", "b", "\u{e9}", "\u{20ac}"];
    for a in samples {
        for b in samples {
            assert_eq!(chars_le(&chars(a), &chars(b)), a <= b, "{:?} {:?}", a, b);
        }
    }
}

#[test]
fn separators_are_removed() {
    assert_eq!(strip_hyphens(&chars("a-b--c-")), chars("abc"));
    assert_eq!(strip_hyphens(&chars("a b")), chars("a b"));
    assert_eq!(strip_separators(&chars("0000-0001 5000-0007")), chars("0000000150000007"));
    assert_eq!(strip_separators(&chars(" - ")), chars(""));
}

#[test]
fn search_finds_a_stretch_of_text() {
    let hay = chars("https://example.com/a;origin=b");
    assert!(contains_chars(&hay, &chars(";origin=")));
    assert!(contains_chars(&hay, &chars("https")));
    assert!(contains_chars(&hay, &chars("=b")));
    assert!(contains_chars(&hay, &chars("")));
    assert!(contains_chars(&chars(""), &chars("")));
    assert!(!contains_chars(&hay, &chars(";jsessionid=")));
    assert!(!contains_chars(&hay, &chars("origin==")));
    assert!(!contains_chars(&chars("ab"), &chars("abc")));
    assert!(!contains_chars(&chars(""), &chars("a")));
    assert!(contains_chars(&chars("aab"), &chars("ab")));
}

#[test]
fn beginning_is_tested() {
    assert!(begins_with(&chars("/10.5555/abc"), &chars("/10.")));
    assert!(begins_with(&chars("/10."), &chars("/10.")));
    assert!(begins_with(&chars("abc"), &chars("")));
    assert!(!begins_with(&chars("/10"), &chars("/10.")));
    assert!(!begins_with(&chars("x/10."), &chars("/10.")));
}

#[test]
fn rest_follows_the_first_separator() {
    assert_eq!(rest_after_first(&chars("10.5555/abc"), '/'), Some(chars("abc")));
    assert_eq!(rest_after_first(&chars("10.5555/a/b"), '/'), Some(chars("a/b")));
    assert_eq!(rest_after_first(&chars("10.5555/"), '/'), Some(chars("")));
    assert_eq!(rest_after_first(&chars("/abc"), '/'), Some(chars("abc")));
    assert_eq!(rest_after_first(&chars("abc"), '/'), None);
    assert_eq!(rest_after_first(&chars(""), '/'), None);
}

#[test]
fn split_cuts_at_every_separator() {
    let cases = ["", "/", "a", "/posts/x", "a/b/c", "a//b", "/a/", "//", "10.5555/abc"];
    for text in cases {
        let expected: Vec<String> = text.split('/').map(|p| p.to_string()).collect();
        assert_eq!(split_chars(&chars(text), '/'), expected, "{:?}", text);
    }
    assert_eq!(split_chars(&chars("/posts/x"), '/'), vec!["", "posts", "x"]);
}

#[test]
fn extensions_get_their_dot() {
    assert_eq!(dotted("json"), ".json");
    assert_eq!(dotted("tar.gz"), ".tar.gz");
    assert_eq!(dotted(""), "");
    assert_eq!(chosen_extension(""), ".json");
    assert_eq!(chosen_extension("yaml"), ".yaml");
    assert_eq!(chosen_extension(".yaml"), ".yaml");
    assert_eq!(chosen_extension("."), ".");
    assert!(is_zip("zip"));
    assert!(!is_zip("ZIP"));
    assert!(!is_zip(".zip"));
    assert!(!is_zip(""));
}
