use tarnish::cache::fingerprint;

#[test]
fn fingerprint_is_stable_across_calls() {
    let a = fingerprint("https://example.com/feed");
    let b = fingerprint("https://example.com/feed");
    assert_eq!(a, b);
}

#[test]
fn fingerprint_separates_distinct_keys() {
    let a = fingerprint("https://example.com/a");
    let b = fingerprint("https://example.com/b");
    assert_ne!(a, b);
}

#[test]
fn fingerprint_is_fixed_length_lowercase_hex() {
    let d = fingerprint("anything at all");
    assert_eq!(d.len(), 64);
    assert!(d.chars().all(|c| c.is_ascii_hexdigit() && !c.is_ascii_uppercase()));
}

#[test]
fn fingerprint_of_empty_key_is_the_empty_digest() {
    assert_eq!(
        fingerprint(""),
        "e3b0c44298fc1c149afbf4c8996fb92427ae41e4649b934ca495991b7852b855"
    );
}

#[test]
fn fingerprint_matches_known_vector() {
    assert_eq!(
        fingerprint("abc"),
        "ba7816bf8f01cfea414140de5dae2223b00361a396177a9cb410ff61f20015ad"
    );
}
