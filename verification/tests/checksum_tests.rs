use hackathon::checksum::Checksum;
use sha2::Digest;
use sha2::Sha256;

const ABC: &str = "ba7816bf8f01cfea414140de5dae2223b00361a396177a9cb410ff61f20015ad";
const EMPTY_INPUT: &str = "e3b0c44298fc1c149afbf4c8996fb92427ae41e4649b934ca495991b7852b855";
const ZEROS: &str = "0000000000000000000000000000000000000000000000000000000000000000";

fn xor_hex(a: &str, b: &str) -> String {
    let x = hex::decode(a).unwrap();
    let y = hex::decode(b).unwrap();
    let z: Vec<u8> = x.iter().zip(y.iter()).map(|(p, q)| p ^ q).collect();
    hex::encode(z)
}

#[test]
fn new_checksum_is_empty() {
    assert_eq!(Checksum::new().to_string(), "");
    assert_eq!(Checksum::default().to_string(), "");
}

#[test]
fn with_sha256_gives_the_known_digest() {
    assert_eq!(Checksum::with_sha256("abc").to_string(), ABC);
    assert_eq!(Checksum::with_sha256("").to_string(), EMPTY_INPUT);
}

#[test]
fn with_sha256_hashes_the_utf8_bytes() {
    let expected = hex::encode(Sha256::digest("Zoë for Łukasz".as_bytes()));
    assert_eq!(Checksum::with_sha256("Zoë for Łukasz").to_string(), expected);
}

#[test]
fn update_of_empty_takes_the_other() {
    let mut c = Checksum::new();
    c.update(Checksum::with_sha256("abc"));
    assert_eq!(c.to_string(), ABC);
}

#[test]
fn update_with_empty_changes_nothing() {
    let mut c = Checksum::with_sha256("abc");
    c.update(Checksum::new());
    assert_eq!(c.to_string(), ABC);
    let mut e = Checksum::new();
    e.update(Checksum::new());
    assert_eq!(e.to_string(), "");
}

#[test]
fn update_xors_byte_by_byte() {
    let mut c = Checksum::with_sha256("abc");
    c.update(Checksum::with_sha256(""));
    assert_eq!(c.to_string(), xor_hex(ABC, EMPTY_INPUT));
    assert_eq!(
        c.to_string(),
        "59c8d2fd17fdd3fedbbab416c4c19b0797ad2047f28ce9d01085667a8a52adf8"
    );
}

#[test]
fn update_does_not_depend_on_order() {
    let names = ["a", "b", "c", "d"];
    let mut forward = Checksum::new();
    for n in names.iter() {
        forward.update(Checksum::with_sha256(n));
    }
    let mut backward = Checksum::new();
    for n in names.iter().rev() {
        backward.update(Checksum::with_sha256(n));
    }
    let mut mixed = Checksum::new();
    for n in ["c", "a", "d", "b"].iter() {
        mixed.update(Checksum::with_sha256(n));
    }
    assert_eq!(forward.to_string(), backward.to_string());
    assert_eq!(forward.to_string(), mixed.to_string());
    assert_eq!(forward.to_string().len(), 64);
}

#[test]
fn update_does_not_depend_on_grouping() {
    let mut left = Checksum::with_sha256("a");
    left.update(Checksum::with_sha256("b"));
    left.update(Checksum::with_sha256("c"));
    let mut inner = Checksum::with_sha256("b");
    inner.update(Checksum::with_sha256("c"));
    let mut right = Checksum::with_sha256("a");
    right.update(inner);
    assert_eq!(left.to_string(), right.to_string());
}

#[test]
fn a_digest_folded_twice_cancels() {
    let mut c = Checksum::with_sha256("abc");
    c.update(Checksum::with_sha256("abc"));
    assert_eq!(c.to_string(), ZEROS);
    let mut d = Checksum::with_sha256("x");
    d.update(Checksum::with_sha256("abc"));
    d.update(Checksum::with_sha256("abc"));
    assert_eq!(d.to_string(), Checksum::with_sha256("x").to_string());
}

#[test]
fn clone_keeps_the_digest() {
    let c = Checksum::with_sha256("abc");
    let d = c.clone();
    assert_eq!(c.to_string(), d.to_string());
    assert_eq!(Checksum::new().clone().to_string(), "");
}

#[test]
fn text_is_lower_case_hex() {
    let text = Checksum::with_sha256("hello").to_string();
    assert_eq!(text, "2cf24dba5fb0a30e26e83b2ac5b9e29e1b161e5c1fa7425e73043362938b9824");
    assert!(text.chars().all(|c| c.is_ascii_digit() || ('a'..='f').contains(&c)));
}
