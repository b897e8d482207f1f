use smrs::allocation::{allocate, AllocError};
use smrs::store::LinkStore;

fn chars(s: &str) -> usize {
    s.chars().count()
}

#[test]
fn generated_token_is_stored() {
    let mut s = LinkStore::new();
    let a = match allocate(&mut s, None, "https://example.com", "s1", 100, 16) {
        Ok(a) => a,
        Err(_) => panic!("allocation should succeed"),
    };
    assert!(chars(&a.token) >= 5 && chars(&a.token) <= 32);
    assert!(chars(&a.requested) >= 9);
    let expected: String = a.requested.chars().take(32).collect();
    assert_eq!(a.token, expected);
    assert_eq!(s.get_link(&a.token), Some("https://example.com".to_string()));
}

#[test]
fn second_request_for_same_token_is_extended() {
    let mut s = LinkStore::new();
    let first = match allocate(&mut s, Some("abcde"), "https://example.com", "s1", 1, 16) {
        Ok(a) => a,
        Err(_) => panic!("first allocation should succeed"),
    };
    assert_eq!(first.token, "abcde");
    assert_eq!(first.requested, "abcde");
    let second = match allocate(&mut s, Some("abcde"), "https://example.com", "s2", 2, 16) {
        Ok(a) => a,
        Err(_) => panic!("second allocation should succeed"),
    };
    assert_ne!(second.token, "abcde");
    assert!(second.token.len() > 5);
    assert!(second.token.starts_with("abcde"));
    assert_eq!(second.requested, "abcde");
    assert_eq!(s.get_link("abcde"), Some("https://example.com".to_string()));
    assert_eq!(s.records().len(), 2);
    assert_eq!(s.records()[1].session, "s2");
}

#[test]
fn valid_requested_token_is_kept() {
    let mut s = LinkStore::new();
    let a = match allocate(&mut s, Some("MyOwnToken"), "https://example.com", "s1", 1, 1) {
        Ok(a) => a,
        Err(_) => panic!("allocation should succeed"),
    };
    assert_eq!(a.token, "MyOwnToken");
}

#[test]
fn short_requested_token_is_extended() {
    let mut s = LinkStore::new();
    let a = match allocate(&mut s, Some("ab"), "https://example.com", "s1", 1, 4) {
        Ok(a) => a,
        Err(_) => panic!("allocation should succeed"),
    };
    assert!(a.token.starts_with("ab"));
    assert!(chars(&a.token) >= 5);
    assert_eq!(a.requested, "ab");
}

#[test]
fn long_requested_token_is_truncated() {
    let mut s = LinkStore::new();
    let long = "t".repeat(40);
    let a = match allocate(&mut s, Some(&long), "https://example.com", "s1", 1, 1) {
        Ok(a) => a,
        Err(_) => panic!("allocation should succeed"),
    };
    assert_eq!(a.token, "t".repeat(32));
    assert_eq!(a.requested, long);
}

#[test]
fn empty_requested_token_counts_as_absent() {
    let mut s = LinkStore::new();
    let a = match allocate(&mut s, Some(""), "https://example.com", "s1", 1, 8) {
        Ok(a) => a,
        Err(_) => panic!("allocation should succeed"),
    };
    assert!(chars(&a.requested) >= 9);
}

#[test]
fn taken_long_token_is_retried_with_fresh_word() {
    let mut s = LinkStore::new();
    let long = "t".repeat(30);
    assert!(allocate(&mut s, Some(&long), "https://example.com", "s1", 1, 1).is_ok());
    let a = match allocate(&mut s, Some(&long), "https://example.com", "s2", 2, 3) {
        Ok(a) => a,
        Err(_) => panic!("the retry should succeed"),
    };
    assert!(a.token.starts_with(&long));
    let n = chars(&a.token);
    assert!(n >= 33 && n <= 35);
    assert!(a.token.chars().nth(30).unwrap().is_ascii_uppercase());
    assert_eq!(a.requested, long);
    assert_eq!(s.records().len(), 2);
}

#[test]
fn retry_extends_whole_base_once() {
    let mut s = LinkStore::new();
    assert!(allocate(&mut s, Some("abcde"), "https://example.com", "s1", 1, 1).is_ok());
    let a = match allocate(&mut s, Some("abcde"), "https://example.com", "s2", 2, 2) {
        Ok(a) => a,
        Err(_) => panic!("the retry should succeed"),
    };
    let n = chars(&a.token);
    assert!(n >= 8 && n <= 10);
    assert!(a.token.starts_with("abcde"));
    assert!(a.token.chars().nth(5).unwrap().is_ascii_uppercase());
    assert_eq!(a.token.chars().filter(|c| c.is_ascii_uppercase()).count(), 1);
}

#[test]
fn exhausted_attempts_leave_store_unchanged() {
    let mut s = LinkStore::new();
    assert!(allocate(&mut s, Some("abcde"), "https://example.com", "s1", 1, 1).is_ok());
    let r = allocate(&mut s, Some("abcde"), "https://example.com", "s2", 2, 1);
    assert!(matches!(r, Err(AllocError::Exhausted)));
    assert_eq!(s.records().len(), 1);
    let z = allocate(&mut s, Some("fresh"), "https://example.com", "s2", 2, 0);
    assert!(matches!(z, Err(AllocError::Exhausted)));
    assert_eq!(s.records().len(), 1);
}

#[test]
fn short_token_gets_fewest_words() {
    for _ in 0..20 {
        let t = smrs::allocation::normalize("abcd");
        // one word of 3 to 5 letters reaches the minimum
        assert!(chars(&t) >= 7 && chars(&t) <= 9);
        assert!(t.starts_with("abcd"));
        assert!(t.chars().nth(4).unwrap().is_ascii_uppercase());
    }
}
