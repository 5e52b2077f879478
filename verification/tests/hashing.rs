use ruxpy::blob::Blob;
use ruxpy::error::DockError;
use ruxpy::hasher::{char_is_hex_digit, hash_bytes, is_valid_hash, to_hex};
use sha3::{Digest, Sha3_256};

const HELLO: &str = "3338be694f50c5f338814986cdf0686453a888b84f424d792af4b9202398f392";

#[test]
fn hash_of_empty_input() {
    assert_eq!(
        hash_bytes(b""),
        "a7ffc6f8bf1ed76651c14756a061d662f580ff4de43b49fa82d80a4b80f8434a"
    );
}

#[test]
fn hash_of_abc() {
    assert_eq!(
        hash_bytes(b"abc"),
        "3a985da74fe225b2045c172d6bd390bd855f086e3e9d525b46bfe24511431532"
    );
}

#[test]
fn hash_of_hello() {
    assert_eq!(hash_bytes(b"hello"), HELLO);
    assert_eq!(Blob::hash_contents(b"hello"), HELLO);
}

#[test]
fn hash_agrees_with_formatted_digest() {
    let data = b"fn main() {}";
    let mut h = Sha3_256::new();
    h.update(data);
    let expected = format!("{:x}", h.finalize());
    assert_eq!(hash_bytes(data), expected);
}

#[test]
fn hash_has_the_form_of_a_hash() {
    let hash = hash_bytes(b"anything at all");
    assert_eq!(hash.len(), 64);
    assert!(is_valid_hash(&hash));
    assert!(hash.chars().all(char_is_hex_digit));
}

#[test]
fn hex_writes_high_half_first() {
    assert_eq!(to_hex(&[0x0a, 0x14, 0x1e]), "0a141e");
    assert_eq!(to_hex(&[0x00, 0xff, 0x9c]), "00ff9c");
    assert_eq!(to_hex(&[]), "");
}

#[test]
fn valid_hash_wants_64_lower_case_digits() {
    assert!(is_valid_hash(HELLO));
    assert!(!is_valid_hash(&HELLO[..63]));
    assert!(!is_valid_hash(&format!("{}0", HELLO)));
    assert!(!is_valid_hash(&HELLO.to_uppercase()));
    assert!(!is_valid_hash(&format!("{}g", &HELLO[..63])));
    assert!(!is_valid_hash(""));
    assert!(!is_valid_hash("abc123"));
}

#[test]
fn read_blob_names_the_sharded_file() {
    assert_eq!(
        Blob::read_blob(HELLO),
        Ok(format!(".dock/objects/33/{}", &HELLO[2..]))
    );
}

#[test]
fn read_blob_rejects_what_is_no_hash() {
    assert_eq!(Blob::read_blob("ab"), Err(DockError::InvalidHash));
    assert_eq!(Blob::read_blob(""), Err(DockError::InvalidHash));
    assert_eq!(
        Blob::read_blob(&HELLO.to_uppercase()),
        Err(DockError::InvalidHash)
    );
}
