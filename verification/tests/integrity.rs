use nya::integrity::{calculate_hash, to_hex_lower};
use nya::types::HashType;

#[test]
fn hashes_bytes_as_lower_case_hex() {
    assert_eq!(
        calculate_hash(b""),
        "e3b0c44298fc1c149afbf4c8996fb92427ae41e4649b934ca495991b7852b855"
    );
    assert_eq!(
        calculate_hash(b"abc"),
        "ba7816bf8f01cfea414140de5dae2223b00361a396177a9cb410ff61f20015ad"
    );
}

#[test]
fn a_hash_has_the_size_of_a_sha256_entry() {
    assert_eq!(calculate_hash(b"nya").len(), HashType::SHA256.size());
}

#[test]
fn writes_each_byte_as_two_digits() {
    assert_eq!(to_hex_lower(&[0x00, 0x0f, 0xa0, 0xff]), "000fa0ff");
    assert_eq!(to_hex_lower(&[]), "");
}
