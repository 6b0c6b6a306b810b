use rustic::crypto::Key;
use rustic::error::Error;
use rustic::id::Id;
use rustic::repo::keyfile::{
    find_key_in_backend, key_from_backend, log_2, num_bits, KeyEntry, KeyFile,
};

fn master() -> Key {
    let bytes: Vec<u8> = (100u8..164).collect();
    Key::from_slice(&bytes)
}

fn master_json(key: &Key) -> String {
    let (encrypt, k, r) = key.to_keys();
    format!(
        "{{\"mac\":{{\"k\":\"{}\",\"r\":\"{}\"}},\"encrypt\":\"{}\"}}",
        base64::encode(k),
        base64::encode(r),
        base64::encode(encrypt)
    )
}

/// A key file that protects `key` with `passwd`.
fn key_file(key: &Key, passwd: &[u8], salt: &[u8]) -> KeyFile {
    let mut file = KeyFile {
        kdf: "scrypt".to_string(),
        n: 16,
        r: 8,
        p: 1,
        data: String::new(),
        salt: base64::encode(salt),
    };
    let kdf_key = file.kdf_key(&passwd).unwrap();
    let sealed = kdf_key.encrypt_data(master_json(key).as_bytes()).unwrap();
    file.data = base64::encode(sealed);
    file
}

fn to_json(file: &KeyFile) -> Vec<u8> {
    format!(
        "{{\"kdf\":\"{}\",\"N\":{},\"r\":{},\"p\":{},\"salt\":\"{}\",\"data\":\"{}\"}}",
        file.kdf, file.n, file.r, file.p, file.salt, file.data
    )
    .into_bytes()
}

fn id(n: u8) -> Id {
    Id::new([n; 32])
}

#[test]
fn logarithm_rounds_down() {
    assert_eq!(log_2(1), 0);
    assert_eq!(log_2(2), 1);
    assert_eq!(log_2(3), 1);
    assert_eq!(log_2(4), 2);
    assert_eq!(log_2(16384), 14);
    assert_eq!(log_2(16385), 14);
    assert_eq!(log_2(32767), 14);
    assert_eq!(log_2(0x8000_0000), 31);
    assert_eq!(log_2(u32::MAX), 31);
}

#[test]
fn bits_of_a_type() {
    assert_eq!(num_bits::<u8>(), 8);
    assert_eq!(num_bits::<u32>(), 32);
    assert_eq!(num_bits::<u64>(), 64);
    assert_eq!(num_bits::<[u8; 3]>(), 24);
}

#[test]
fn scrypt_of_the_empty_password() {
    let file = KeyFile {
        kdf: "scrypt".to_string(),
        n: 16,
        r: 1,
        p: 1,
        data: String::new(),
        salt: String::new(),
    };
    let key = file.kdf_key(b"").unwrap();
    let expected: [u8; 64] = [
        0x77, 0xd6, 0x57, 0x62, 0x38, 0x65, 0x7b, 0x20, 0x3b, 0x19, 0xca, 0x42, 0xc1, 0x8a, 0x04,
        0x97, 0xf1, 0x6b, 0x48, 0x44, 0xe3, 0x07, 0x4a, 0xe8, 0xdf, 0xdf, 0xfa, 0x3f, 0xed, 0xe2,
        0x14, 0x42, 0xfc, 0xd0, 0x06, 0x9d, 0xed, 0x09, 0x48, 0xf8, 0x32, 0x6a, 0x75, 0x3a, 0x0f,
        0xc8, 0x1f, 0x17, 0xe8, 0xd3, 0xe0, 0xfb, 0x2e, 0x0d, 0x36, 0x28, 0xcf, 0x35, 0xe2, 0x0c,
        0x38, 0xd1, 0x89, 0x06,
    ];
    assert_eq!(*key.as_bytes(), expected);
}

#[test]
fn scrypt_with_password_and_salt() {
    let file = KeyFile {
        kdf: "scrypt".to_string(),
        n: 1024,
        r: 8,
        p: 16,
        data: String::new(),
        salt: base64::encode("NaCl"),
    };
    let key = file.kdf_key(b"password").unwrap();
    assert_eq!(key.as_bytes()[..8], [0xfd, 0xba, 0xbe, 0x1c, 0x9d, 0x34, 0x72, 0x00]);
    assert_eq!(key.as_bytes()[48..56], [0xc7, 0x27, 0xaf, 0xb9, 0x4a, 0x83, 0xee, 0x6d]);
    assert_eq!(key.as_bytes()[56..], [0x83, 0x60, 0xcb, 0xdf, 0xa2, 0xcc, 0x06, 0x40]);
}

#[test]
fn kdf_rejects_an_n_that_is_no_power_of_two() {
    let mut file = key_file(&master(), b"hunter2", b"salt");
    for n in [0u32, 3, 6, 12, 1000, 16385, u32::MAX] {
        file.n = n;
        assert_eq!(file.kdf_key(b"hunter2").err(), Some(Error::InvalidParameter));
        assert_eq!(file.key_from_password(b"hunter2").err(), Some(Error::InvalidParameter));
    }
}

#[test]
fn kdf_rejects_parameters_out_of_range() {
    let mut file = key_file(&master(), b"hunter2", b"salt");
    file.r = 0;
    assert_eq!(file.kdf_key(b"hunter2").err(), Some(Error::InvalidParameter));
    file.r = 8;
    file.p = 0;
    assert_eq!(file.kdf_key(b"hunter2").err(), Some(Error::InvalidParameter));
    // r * p reaches 2^30
    file.r = 1 << 15;
    file.p = 1 << 15;
    assert_eq!(file.kdf_key(b"hunter2").err(), Some(Error::InvalidParameter));
    // 2^log_n is not below 2^(16 * r)
    file.r = 1;
    file.p = 1;
    file.n = 1 << 16;
    assert_eq!(file.kdf_key(b"hunter2").err(), Some(Error::InvalidParameter));
    file.n = 1 << 15;
    assert!(file.kdf_key(b"hunter2").is_ok());
}

#[test]
fn kdf_rejects_a_salt_that_is_no_base64() {
    let mut file = key_file(&master(), b"hunter2", b"salt");
    file.salt = "not base64!".to_string();
    assert_eq!(file.kdf_key(b"hunter2").err(), Some(Error::FormatError));
    // the parameters are looked at first
    file.n = 3;
    assert_eq!(file.kdf_key(b"hunter2").err(), Some(Error::InvalidParameter));
}

#[test]
fn wrong_password() {
    let file = key_file(&master(), b"hunter2", b"some salt");
    assert_eq!(file.key_from_password(b"hunter").err(), Some(Error::WrongPassword));
    assert_eq!(file.key_from_password(b"").err(), Some(Error::WrongPassword));
    let key = file.key_from_password(b"hunter2").unwrap();
    assert_eq!(key.as_bytes(), master().as_bytes());
    let (encrypt, _, _) = key.to_keys();
    assert_eq!(encrypt, master().as_bytes()[..32].to_vec());
}

#[test]
fn key_from_data_with_the_derived_key() {
    let file = key_file(&master(), b"hunter2", b"some salt");
    let kdf_key = file.kdf_key(b"hunter2").unwrap();
    assert_eq!(file.key_from_data(&kdf_key).unwrap().as_bytes(), master().as_bytes());
    assert_eq!(file.key_from_data(&master()).err(), Some(Error::WrongPassword));
}

#[test]
fn key_from_data_rejects_malformed_data() {
    let mut file = key_file(&master(), b"hunter2", b"some salt");
    let kdf_key = file.kdf_key(b"hunter2").unwrap();

    file.data = "***".to_string();
    assert_eq!(file.key_from_data(&kdf_key).err(), Some(Error::FormatError));

    file.data = base64::encode(kdf_key.encrypt_data(b"no json").unwrap());
    assert_eq!(file.key_from_data(&kdf_key).err(), Some(Error::FormatError));

    file.data = base64::encode(kdf_key.encrypt_data(b"{\"encrypt\":\"AAAA\"}").unwrap());
    assert_eq!(file.key_from_data(&kdf_key).err(), Some(Error::FormatError));

    let short = "{\"mac\":{\"k\":\"AAAA\",\"r\":\"AAAA\"},\"encrypt\":\"AAAA\"}";
    file.data = base64::encode(kdf_key.encrypt_data(short.as_bytes()).unwrap());
    assert_eq!(file.key_from_data(&kdf_key).err(), Some(Error::FormatError));

    let no_base64 = master_json(&master()).replace("\"k\":\"", "\"k\":\"*");
    file.data = base64::encode(kdf_key.encrypt_data(no_base64.as_bytes()).unwrap());
    assert_eq!(file.key_from_data(&kdf_key).err(), Some(Error::FormatError));

    let number = "{\"mac\":{\"k\":1,\"r\":\"AAAA\"},\"encrypt\":\"AAAA\"}";
    file.data = base64::encode(kdf_key.encrypt_data(number.as_bytes()).unwrap());
    assert_eq!(file.key_from_data(&kdf_key).err(), Some(Error::FormatError));
}

#[test]
fn master_key_record_may_hold_more_fields() {
    let mut file = key_file(&master(), b"hunter2", b"some salt");
    let kdf_key = file.kdf_key(b"hunter2").unwrap();
    let json = master_json(&master()).replacen('{', "{\"comment\":[1,2],", 1);
    file.data = base64::encode(kdf_key.encrypt_data(json.as_bytes()).unwrap());
    assert_eq!(file.key_from_data(&kdf_key).unwrap().as_bytes(), master().as_bytes());
}

#[test]
fn key_file_from_json() {
    let json = b"{\"hostname\":\"host\",\"kdf\":\"scrypt\",\"N\":16384,\"r\":8,\"p\":1,\
        \"created\":\"2022-01-01\",\"data\":\"ZGF0YQ==\",\"salt\":\"c2FsdA==\"}";
    let file = KeyFile::from_backend(json).unwrap();
    assert_eq!(file.kdf, "scrypt");
    assert_eq!(file.n, 16384);
    assert_eq!(file.r, 8);
    assert_eq!(file.p, 1);
    assert_eq!(file.data, "ZGF0YQ==");
    assert_eq!(file.salt, "c2FsdA==");
}

#[test]
fn key_file_from_malformed_json() {
    let cases: [&[u8]; 8] = [
        b"",
        b"{",
        b"[]",
        b"{\"kdf\":\"scrypt\",\"N\":16384,\"r\":8,\"p\":1,\"data\":\"ZGF0YQ==\"}",
        b"{\"kdf\":\"scrypt\",\"n\":16384,\"r\":8,\"p\":1,\"data\":\"\",\"salt\":\"\"}",
        b"{\"kdf\":\"scrypt\",\"N\":4294967296,\"r\":8,\"p\":1,\"data\":\"\",\"salt\":\"\"}",
        b"{\"kdf\":\"scrypt\",\"N\":-16,\"r\":8,\"p\":1,\"data\":\"\",\"salt\":\"\"}",
        b"{\"kdf\":\"scrypt\",\"N\":\"16\",\"r\":8,\"p\":1,\"data\":\"\",\"salt\":\"\"}",
    ];
    for json in cases {
        assert_eq!(KeyFile::from_backend(json).err(), Some(Error::FormatError));
        assert_eq!(key_from_backend(json, b"hunter2").err(), Some(Error::FormatError));
    }
    let largest = b"{\"kdf\":\"\",\"N\":4294967295,\"r\":0,\"p\":1,\"data\":\"\",\"salt\":\"\"}";
    assert_eq!(KeyFile::from_backend(largest).unwrap().n, u32::MAX);
}

#[test]
fn key_from_the_bytes_of_a_key_file() {
    let json = to_json(&key_file(&master(), b"hunter2", b"some salt"));
    assert_eq!(key_from_backend(&json, b"hunter2").unwrap().as_bytes(), master().as_bytes());
    assert_eq!(key_from_backend(&json, b"hunter3").err(), Some(Error::WrongPassword));
}

#[test]
fn keyfile_enumeration() {
    let files = vec![
        KeyEntry { id: id(1), data: to_json(&key_file(&master(), b"first", b"a")) },
        KeyEntry { id: id(2), data: to_json(&key_file(&master(), b"P", b"b")) },
        KeyEntry { id: id(3), data: to_json(&key_file(&master(), b"third", b"c")) },
    ];
    assert_eq!(find_key_in_backend(&files, b"P", None).unwrap().as_bytes(), master().as_bytes());
    assert_eq!(find_key_in_backend(&files, b"P", Some(&id(2))).unwrap().as_bytes(), master().as_bytes());
    assert_eq!(
        find_key_in_backend(&files, b"P", Some(&id(1))).err(),
        Some(Error::WrongPassword)
    );
    assert_eq!(
        find_key_in_backend(&files, b"P", Some(&id(3))).err(),
        Some(Error::WrongPassword)
    );
    assert_eq!(find_key_in_backend(&files, b"Q", None).err(), Some(Error::NoSuitableKey));
}

#[test]
fn key_search_goes_by_ascending_id() {
    let low: Vec<u8> = vec![1; 64];
    let high: Vec<u8> = vec![2; 64];
    let files = vec![
        KeyEntry { id: id(9), data: to_json(&key_file(&Key::from_slice(&high), b"P", b"a")) },
        KeyEntry { id: id(7), data: b"no key file".to_vec() },
        KeyEntry { id: id(8), data: to_json(&key_file(&Key::from_slice(&low), b"P", b"b")) },
    ];
    assert_eq!(find_key_in_backend(&files, b"P", None).unwrap().as_bytes().to_vec(), low);
    assert_eq!(find_key_in_backend(&files, b"P", Some(&id(9))).unwrap().as_bytes().to_vec(), high);
    assert_eq!(find_key_in_backend(&files, b"P", Some(&id(7))).err(), Some(Error::FormatError));
}

#[test]
fn key_search_without_key_files() {
    let files: Vec<KeyEntry> = Vec::new();
    assert_eq!(find_key_in_backend(&files, b"P", None).err(), Some(Error::NoSuitableKey));
    assert_eq!(find_key_in_backend(&files, b"P", Some(&id(1))).err(), Some(Error::BackendError));
    let files = vec![KeyEntry { id: id(2), data: Vec::new() }];
    assert_eq!(find_key_in_backend(&files, b"P", Some(&id(1))).err(), Some(Error::BackendError));
}
