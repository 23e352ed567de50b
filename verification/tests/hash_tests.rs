use rsmap::hash::{hash_file_contents, hash_item_source, range_fits, to_hex};

#[test]
fn digest_of_the_empty_text() {
    assert_eq!(
        hash_file_contents(""),
        "af1349b9f5f9a1a6a0404dea36dcc9499bcb25c9adc112b7cc9a93cae41f3262"
    );
}

#[test]
fn digest_of_a_known_text() {
    let digest = hash_file_contents("abc");
    assert_eq!(
        digest,
        "6437b3ac38465133ffb63b75273a8db548c558465d79db03fd359c6cd5bd9d85"
    );
    assert_eq!(digest.len(), 64);
    assert_ne!(digest, "abc");
}

#[test]
fn hashing_twice_gives_the_same_digest() {
    let source = "fn a() {}\nfn b() {\n    1\n}\nfn c() {}\n";
    assert_eq!(hash_item_source(source, 2, 4), hash_item_source(source, 2, 4));
    assert_eq!(hash_file_contents(source), hash_file_contents(source));
}

#[test]
fn changing_a_byte_in_the_range_changes_the_digest() {
    let before = "fn a() {}\nfn b() {\n    1\n}\nfn c() {}\n";
    let after = "fn a() {}\nfn b() {\n    2\n}\nfn c() {}\n";
    assert_ne!(hash_item_source(before, 2, 4), hash_item_source(after, 2, 4));
    assert_ne!(hash_file_contents(before), hash_file_contents(after));
}

#[test]
fn changing_a_byte_outside_the_range_keeps_the_digest() {
    let before = "fn a() {}\nfn b() {\n    1\n}\nfn c() {}\n";
    let after = "fn x() {}\nfn b() {\n    1\n}\nfn y() {}\n";
    assert_eq!(hash_item_source(before, 2, 4), hash_item_source(after, 2, 4));
    assert_ne!(hash_item_source(before, 1, 1), hash_item_source(after, 1, 1));
}

#[test]
fn the_digest_of_an_item_is_that_of_its_lines() {
    let source = "line one\nline two\nline three\n";
    assert_eq!(hash_item_source(source, 2, 3), hash_file_contents("line two\nline three"));
    assert_eq!(hash_item_source(source, 1, 1), hash_file_contents("line one"));
    assert_eq!(hash_item_source(source, 0, 1), hash_file_contents("line one"));
    assert_eq!(hash_item_source(source, 1, 99), hash_file_contents("line one\nline two\nline three"));
    assert_eq!(hash_item_source(source, 4, 9), hash_file_contents(""));
    assert_eq!(hash_item_source("a\r\nb\r\n", 1, 2), hash_file_contents("a\nb"));
}

#[test]
fn the_digest_follows_the_bytes_not_the_layout_of_a_signature() {
    // the same item, once renamed: the lines differ, and so do the digests
    let named = "fn resolve_name(x: u8) -> u8 {\n    x\n}\n";
    let renamed = "fn lookup_name(x: u8) -> u8 {\n    x\n}\n";
    assert_ne!(hash_item_source(named, 1, 3), hash_item_source(renamed, 1, 3));
    // the same tokens laid out otherwise are other bytes
    let spaced = "fn resolve_name(x : u8) -> u8 {\n    x\n}\n";
    assert_ne!(hash_item_source(named, 1, 3), hash_item_source(spaced, 1, 3));
    // the same bytes at another place in another file are the same digest
    let moved = "// moved\n\nfn resolve_name(x: u8) -> u8 {\n    x\n}\n";
    assert_eq!(hash_item_source(named, 1, 3), hash_item_source(moved, 3, 5));
}

#[test]
fn ranges_that_fit() {
    let source = "a\nb\nc";
    assert!(range_fits(source, 1, 3));
    assert!(range_fits(source, 3, 3));
    assert!(range_fits(source, 4, 4));
    assert!(range_fits(source, 4, 100));
    assert!(range_fits(source, 0, 0));
    assert!(range_fits(source, 1, 0));
    assert!(!range_fits(source, 5, 6));
    assert!(!range_fits(source, 3, 1));
    assert!(range_fits("", 1, 1));
    assert!(!range_fits("", 2, 2));
}

#[test]
fn hex_is_lower_case_with_two_digits_a_byte() {
    assert_eq!(to_hex(&[]), "");
    assert_eq!(to_hex(&[0x00, 0x0f, 0xa0, 0xff, 0x9b]), "000fa0ff9b");
}
