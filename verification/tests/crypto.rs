use rustic::crypto::{hash, Hasher, Key};
use rustic::error::Error;

fn test_key() -> Key {
    Key::from_slice(b"This is an example of a very secret key. Keep it always secret!!")
}

#[test]
fn encrypt_then_decrypt_gives_the_data_back() {
    let key = test_key();
    let data = b"plaintext message".to_vec();
    let sealed = key.encrypt_data(&data).unwrap();
    assert_eq!(sealed.len(), data.len() + 32);
    assert_ne!(&sealed[16..16 + data.len()], &data[..]);
    assert_eq!(key.decrypt_data(&sealed), Ok(data));
}

#[test]
fn encrypt_of_nothing_is_nonce_and_tag() {
    let key = test_key();
    let sealed = key.encrypt_data(&[]).unwrap();
    assert_eq!(sealed.len(), 32);
    assert_eq!(key.decrypt_data(&sealed), Ok(Vec::new()));
}

#[test]
fn two_encryptions_of_one_input_differ() {
    let key = test_key();
    let a = key.encrypt_data(b"same").unwrap();
    let b = key.encrypt_data(b"same").unwrap();
    assert_ne!(a, b);
    assert_eq!(key.decrypt_data(&a), key.decrypt_data(&b));
}

#[test]
fn encrypt_with_nonce_is_a_function_of_its_arguments() {
    let key = test_key();
    let nonce = *b"my unique nonce!";
    let a = key.encrypt_with_nonce(&nonce, b"plaintext message").unwrap();
    let b = key.encrypt_with_nonce(&nonce, b"plaintext message").unwrap();
    assert_eq!(a, b);
    assert_eq!(&a[..16], &nonce[..]);
    assert_eq!(a.len(), 17 + 32);
    assert_eq!(key.decrypt_data(&a), Ok(b"plaintext message".to_vec()));
    let other = key.encrypt_with_nonce(b"another nonce !!", b"plaintext message").unwrap();
    assert_ne!(&a[16..], &other[16..]);
}

#[test]
fn decrypt_rejects_what_was_tampered_with() {
    let key = test_key();
    let mut sealed = key.encrypt_data(b"plaintext message").unwrap();
    sealed[20] ^= 1;
    assert_eq!(key.decrypt_data(&sealed), Err(Error::CryptoError));
}

#[test]
fn decrypt_rejects_a_changed_tag() {
    let key = test_key();
    let mut sealed = key.encrypt_data(b"plaintext message").unwrap();
    let last = sealed.len() - 1;
    sealed[last] ^= 0x80;
    assert_eq!(key.decrypt_data(&sealed), Err(Error::CryptoError));
}

#[test]
fn decrypt_rejects_short_input() {
    let key = test_key();
    assert_eq!(key.decrypt_data(&[]), Err(Error::CryptoError));
    assert_eq!(key.decrypt_data(&[0u8; 15]), Err(Error::CryptoError));
    assert_eq!(key.decrypt_data(&[0u8; 16]), Err(Error::CryptoError));
    assert_eq!(key.decrypt_data(&[0u8; 31]), Err(Error::CryptoError));
}

#[test]
fn decrypt_rejects_another_key() {
    let key = test_key();
    let other = Key::from_slice(&[7u8; 64]);
    let sealed = key.encrypt_data(b"plaintext message").unwrap();
    assert_eq!(other.decrypt_data(&sealed), Err(Error::CryptoError));
}

#[test]
fn key_is_encryption_key_then_mac_key() {
    let encrypt: Vec<u8> = (0u8..32).collect();
    let k: Vec<u8> = (32u8..48).collect();
    let r: Vec<u8> = (48u8..64).collect();
    let key = Key::from_keys(&encrypt, &k, &r);
    let flat: Vec<u8> = (0u8..64).collect();
    assert_eq!(key.as_bytes().to_vec(), flat);
    assert_eq!(Key::from_slice(&flat).as_bytes().to_vec(), flat);
    assert_eq!(key.to_keys(), (encrypt, k, r));
}

#[test]
fn hash_of_abc() {
    let expected: [u8; 32] = [
        0xba, 0x78, 0x16, 0xbf, 0x8f, 0x01, 0xcf, 0xea, 0x41, 0x41, 0x40, 0xde, 0x5d, 0xae, 0x22,
        0x23, 0xb0, 0x03, 0x61, 0xa3, 0x96, 0x17, 0x7a, 0x9c, 0xb4, 0x10, 0xff, 0x61, 0xf2, 0x00,
        0x15, 0xad,
    ];
    assert_eq!(hash(b"abc").bytes, expected);
}

#[test]
fn hash_of_nothing() {
    let h = Hasher::new();
    let id = h.finalize();
    assert_eq!(id.bytes[..4], [0xe3, 0xb0, 0xc4, 0x42]);
    assert_eq!(id, hash(b""));
}

#[test]
fn hasher_streams() {
    let mut h = Hasher::new();
    h.update(b"ab");
    h.update(b"c");
    assert_eq!(h.finalize(), hash(b"abc"));
}

#[test]
fn hasher_finalize_leaves_the_state() {
    let mut h = Hasher::new();
    h.update(b"a");
    assert_eq!(h.finalize(), hash(b"a"));
    assert_eq!(h.finalize(), hash(b"a"));
    h.update(b"bc");
    assert_eq!(h.finalize(), hash(b"abc"));
}

#[test]
fn hasher_reset_starts_again() {
    let mut h = Hasher::new();
    h.update(b"something");
    h.reset();
    assert_eq!(h.finalize(), hash(b""));
    h.update(b"abc");
    assert_eq!(h.finalize(), hash(b"abc"));
}
