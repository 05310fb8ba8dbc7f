use stalagmite::utils::{divide_round_up, hash, slugify, stringify_hash};

#[test]
fn test_slugify() {
    assert_eq!(slugify("Hello, World!"), "hello-world");
}

#[test]
fn test_divide_round_up() {
    assert_eq!(divide_round_up(5, 2), 3);
    assert_eq!(divide_round_up(4, 2), 2);
}

#[test]
fn test_slugify_underscores_and_digits() {
    assert_eq!(slugify("my_file 2"), "my-file-2");
    assert_eq!(slugify(""), "");
    assert_eq!(slugify("日本"), "");
}

#[test]
fn test_hash_matches_seahash() {
    // The digest must be seahash's, written as 16 hex digits.
    let expected = format!("{:016x}", seahash::hash(b"hello world"));
    assert_eq!(hash(b"hello world"), expected);
    assert_ne!(hash(b"hello world"), hash(b"hello worle"));
}

#[test]
fn test_stringify_hash() {
    assert_eq!(stringify_hash(0x1234), "0000000000001234");
    assert_eq!(stringify_hash(u64::MAX), "ffffffffffffffff");
}
