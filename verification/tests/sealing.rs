use credentials_manager::pool::PermitPool;
use credentials_manager::sealing::{
    generate_keypair, open_secret, parse_public_key, seal_round_trip, seal_secret, KeyParseError,
    PublicKeyRecord, KEY_BYTES, SEAL_OVERHEAD,
};

#[test]
fn sealing_then_opening_returns_the_plaintext() {
    sodiumoxide::init().unwrap();
    let plaintext = b"a secret value";
    assert_eq!(seal_round_trip(plaintext), Some(plaintext.to_vec()));
    assert_eq!(seal_round_trip(b""), Some(Vec::new()));
}

#[test]
fn sealed_secret_carries_key_id_and_decodable_ciphertext() {
    sodiumoxide::init().unwrap();
    let (public_key, secret_key) = generate_keypair();
    let record = PublicKeyRecord { key_id: "key-1".to_string(), key: public_key };
    let sealed = seal_secret(&record, b"payload");
    assert_eq!(sealed.key_id, "key-1");
    assert_eq!(sealed.cipher.len(), b"payload".len() + SEAL_OVERHEAD);
    // The transport encoding is standard base64 of the ciphertext: four
    // characters per three-byte group, padded.
    assert_eq!(base64::decode(&sealed.encrypted_value).unwrap(), sealed.cipher);
    assert_eq!(sealed.encrypted_value.len(), 4 * ((sealed.cipher.len() + 2) / 3));
    // The ciphertext opens under the matching secret key, and the sealing is
    // not the identity on its input.
    assert_ne!(sealed.cipher, b"payload".to_vec());
    let opened = open_secret(&sealed.cipher, &record.key, &secret_key);
    assert_eq!(opened, Some(b"payload".to_vec()));
}

#[test]
fn opening_with_the_wrong_key_fails() {
    sodiumoxide::init().unwrap();
    let (public_key, _secret_key) = generate_keypair();
    let (other_public, other_secret) = generate_keypair();
    let record = PublicKeyRecord { key_id: "k".to_string(), key: public_key.clone() };
    let sealed = seal_secret(&record, b"payload");
    assert_eq!(open_secret(&sealed.cipher, &other_public, &other_secret), None);
}

#[test]
fn public_key_parses_exactly_on_base64_of_key_length_bytes() {
    let bytes: Vec<u8> = (0..KEY_BYTES as u8).collect();
    let encoded = base64::encode(&bytes);
    match parse_public_key("key-1".to_string(), &encoded) {
        Ok(record) => {
            assert_eq!(record.key_id, "key-1");
            assert_eq!(record.key, bytes);
        }
        Err(_) => panic!("a base64 key of the right length must parse"),
    }

    // A known vector: 32 zero bytes.
    let zeros = "AAAAAAAAAAAAAAAAAAAAAAAAAAAAAAAAAAAAAAAAAAA=";
    match parse_public_key("z".to_string(), zeros) {
        Ok(record) => assert_eq!(record.key, vec![0u8; KEY_BYTES]),
        Err(_) => panic!("the zero key must parse"),
    }

    assert!(matches!(
        parse_public_key("k".to_string(), "not base64!"),
        Err(KeyParseError::NotBase64)
    ));
    assert!(matches!(
        parse_public_key("k".to_string(), &base64::encode(b"short")),
        Err(KeyParseError::WrongLength)
    ));
}

#[test]
fn permit_pool_never_grants_past_capacity() {
    let mut pool = PermitPool::new(2);
    assert_eq!(pool.capacity(), 2);
    assert!(pool.try_acquire());
    assert!(pool.try_acquire());
    assert!(!pool.try_acquire());
    assert_eq!(pool.in_flight(), 2);
    pool.release();
    assert!(pool.try_acquire());
    assert_eq!(pool.in_flight(), 2);
    pool.release();
    pool.release();
    assert_eq!(pool.in_flight(), 0);
}
