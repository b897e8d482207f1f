use smrs::allocation::{normalize, MAX_TOKEN_LEN, MIN_TOKEN_LEN};
use smrs::token::{extend, generate, TokenType};

fn chars(s: &str) -> usize {
    s.chars().count()
}

#[test]
fn generate_url_token_has_three_capitalized_words() {
    let t = generate(TokenType::URL);
    assert!(chars(&t) >= 9 && chars(&t) <= 15);
    assert_eq!(t.chars().filter(|c| c.is_ascii_uppercase()).count(), 3);
    assert!(t.chars().next().unwrap().is_ascii_uppercase());
}

#[test]
fn generate_session_token_has_four_words() {
    let t = generate(TokenType::Session);
    assert!(chars(&t) >= 12 && chars(&t) <= 40);
    assert!(t.chars().next().unwrap().is_ascii_uppercase());
    assert_eq!(t.chars().filter(|c| c.is_ascii_uppercase()).count(), 4);
}

#[test]
fn generate_extension_is_one_word() {
    let t = generate(TokenType::Extension);
    assert!(chars(&t) >= 3 && chars(&t) <= 5);
    assert_eq!(t.chars().filter(|c| c.is_ascii_uppercase()).count(), 1);
}

#[test]
fn extend_grows_and_keeps_prefix() {
    for _ in 0..20 {
        let t = extend("ab");
        assert!(t.len() > 2);
        assert!(t.starts_with("ab"));
        assert!(chars(&t) >= 5);
    }
}

#[test]
fn extend_empty_gives_a_word() {
    let t = extend("");
    assert!(chars(&t) >= 3);
}

#[test]
fn normalize_keeps_valid_token() {
    assert_eq!(normalize("abcde"), "abcde");
    let max = "a".repeat(32);
    assert_eq!(normalize(&max), max);
}

#[test]
fn normalize_truncates_long_token() {
    let long = "x".repeat(40);
    assert_eq!(normalize(&long), "x".repeat(32));
    assert_eq!(chars(&normalize("abcdefghijklmnopqrstuvwxyz0123456789")), MAX_TOKEN_LEN);
    assert_eq!(normalize("abcdefghijklmnopqrstuvwxyz0123456789"), "abcdefghijklmnopqrstuvwxyz012345");
}

#[test]
fn normalize_extends_short_token() {
    let t = normalize("ab");
    assert!(t.starts_with("ab"));
    assert!(chars(&t) >= MIN_TOKEN_LEN && chars(&t) <= MAX_TOKEN_LEN);
    let e = normalize("");
    assert!(chars(&e) >= MIN_TOKEN_LEN && chars(&e) <= MAX_TOKEN_LEN);
}
