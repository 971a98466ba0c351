use categorize_poi::substr::contains_bytes;
use categorize_poi::substr::dictionary_outcome;

fn bytes(s: &str) -> Vec<u8> {
    s.as_bytes().to_vec()
}

#[test]
fn finds_a_needle_in_the_middle() {
    assert!(contains_bytes(&bytes("abcdef"), &bytes("cde")));
    assert!(contains_bytes(&bytes("abcdef"), &bytes("abc")));
    assert!(contains_bytes(&bytes("abcdef"), &bytes("def")));
    assert!(contains_bytes(&bytes("abcdef"), &bytes("abcdef")));
}

#[test]
fn misses_an_absent_needle() {
    assert!(!contains_bytes(&bytes("abcdef"), &bytes("ce")));
    assert!(!contains_bytes(&bytes("abcdef"), &bytes("abcdefg")));
    assert!(!contains_bytes(&bytes(""), &bytes("a")));
    assert!(!contains_bytes(&bytes("aab"), &bytes("abb")));
}

#[test]
fn empty_needle_is_everywhere() {
    assert!(contains_bytes(&bytes(""), &bytes("")));
    assert!(contains_bytes(&bytes("xyz"), &bytes("")));
}

#[test]
fn overlapping_prefixes_are_handled() {
    assert!(contains_bytes(&bytes("aaab"), &bytes("aab")));
    assert!(contains_bytes(&bytes("ababac"), &bytes("abac")));
}

#[test]
fn word_is_valid_without_the_marker() {
    let marker = bytes("no definitions found");
    let body = bytes("{\"word\":\"free\",\"meanings\":[]}");
    assert_eq!(
        dictionary_outcome(String::from("free"), &body, &marker),
        Some(String::from("free"))
    );
}

#[test]
fn word_is_invalid_with_the_marker() {
    let marker = bytes("no definitions found");
    let body = bytes("{\"title\":\"no definitions found\"}");
    assert_eq!(dictionary_outcome(String::from("eerf"), &body, &marker), None);
}
