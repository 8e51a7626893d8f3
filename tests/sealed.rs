use yubikey_nostr::catalog::{
    catalog_after_insert, display_ids, list_entries, make_record, read_blob_entry_by_index,
};
use yubikey_nostr::sealed::{decrypt_data, encrypt_data, salt_of, SealError, HEADER_LEN};

const SECRET: [u8; 32] = [7u8; 32];
const SALT: [u8; 32] = [1u8; 32];
const NONCE: [u8; 12] = [2u8; 12];

fn seal(text: &str) -> Vec<u8> {
    let mut secret = SECRET;
    let out = encrypt_data(&mut secret, &SALT, &NONCE, text).unwrap();
    assert_eq!(secret, [0u8; 32]);
    out
}

#[test]
fn sealed_layout_is_salt_nonce_ciphertext() {
    let out = seal("deadbeef");
    assert_eq!(out.len(), HEADER_LEN + 8 + 16);
    assert_eq!(&out[..32], &SALT[..]);
    assert_eq!(&out[32..44], &NONCE[..]);
    assert_ne!(&out[44..52], b"deadbeef");
}

#[test]
fn round_trip_restores_the_text() {
    for text in ["deadbeef", "", "chave secreta ✓", "nsec1xyz"] {
        let sealed = seal(text);
        let mut secret = SECRET;
        assert_eq!(decrypt_data(&mut secret, &sealed), Ok(text.to_string()));
        assert_eq!(secret, [0u8; 32]);
    }
}

#[test]
fn flipping_any_bit_fails_authentication() {
    let sealed = seal("deadbeef");
    for byte in HEADER_LEN..sealed.len() {
        for bit in 0..8 {
            let mut altered = sealed.clone();
            altered[byte] ^= 1 << bit;
            let mut secret = SECRET;
            assert_eq!(decrypt_data(&mut secret, &altered), Err(SealError::Decryption));
        }
    }
    for byte in 32..HEADER_LEN {
        let mut altered = sealed.clone();
        altered[byte] ^= 0x80;
        let mut secret = SECRET;
        assert_eq!(decrypt_data(&mut secret, &altered), Err(SealError::Decryption));
    }
}

#[test]
fn wrong_secret_fails_authentication() {
    let sealed = seal("deadbeef");
    let mut other = [9u8; 32];
    assert_eq!(decrypt_data(&mut other, &sealed), Err(SealError::Decryption));
    assert_eq!(other, [0u8; 32]);
}

#[test]
fn short_blob_is_a_format_error() {
    let mut secret = SECRET;
    assert_eq!(decrypt_data(&mut secret, &[0u8; 43]), Err(SealError::Format));
    assert_eq!(secret, [0u8; 32]);
    assert_eq!(salt_of(&[0u8; 43]), Err(SealError::Format));
}

#[test]
fn salt_is_read_back_from_the_sealed_bytes() {
    let sealed = seal("deadbeef");
    assert_eq!(salt_of(&sealed), Ok(SALT.to_vec()));
}

#[test]
fn store_then_list_then_read_back_on_an_empty_device() {
    let sealed = seal("deadbeef");
    let record = make_record(b"alice", &sealed).unwrap();
    let blob = catalog_after_insert(b"", &record, 0).unwrap();
    let listed = list_entries(&blob).unwrap();
    assert_eq!(display_ids(&listed), vec![Some(b"alice".to_vec())]);
    let stored = read_blob_entry_by_index(&blob, 0).unwrap();
    assert_eq!(salt_of(&stored), Ok(SALT.to_vec()));
    let mut secret = SECRET;
    assert_eq!(decrypt_data(&mut secret, &stored), Ok("deadbeef".to_string()));
}
