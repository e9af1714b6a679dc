use tepora_core::memory::sealing::{
    choose_key, key_from_hex, key_to_hex, open_text, seal_text, seal_with_nonce, usable_key,
};

#[test]
fn sealed_text_opens_with_its_key() {
    let key = [42u8; 32];
    let sealed = seal_text(Some(&key), "This is a secret message").unwrap();
    assert!(sealed.starts_with("ENC:"));
    assert_ne!(sealed, "This is a secret message");
    assert_eq!(open_text(Some(&key), &sealed), "This is a secret message");
    let unicode = seal_text(Some(&key), "秘密のメモ").unwrap();
    assert_eq!(open_text(Some(&key), &unicode), "秘密のメモ");
}

#[test]
fn texts_that_do_not_open_come_back_unchanged() {
    let key = [42u8; 32];
    let other = [7u8; 32];
    let sealed = seal_text(Some(&key), "hello").unwrap();
    assert_eq!(open_text(Some(&other), &sealed), sealed);
    assert_eq!(open_text(None, &sealed), sealed);
    assert_eq!(open_text(Some(&key), "plain text"), "plain text");
    assert_eq!(open_text(Some(&key), "ENC:short"), "ENC:short");
    assert_eq!(open_text(Some(&key), "ENC:zz0000000000000000000000ff"), "ENC:zz0000000000000000000000ff");
}

#[test]
fn no_key_stores_plain_text() {
    assert_eq!(seal_text(None, "open").unwrap(), "open");
}

#[test]
fn keys_round_trip_through_hex() {
    let key = [1u8; 32];
    let hex = key_to_hex(&key);
    assert_eq!(hex.len(), 64);
    assert_eq!(key_from_hex(&hex).unwrap(), key.to_vec());
    assert_eq!(key_from_hex("abc").unwrap_err(), "Invalid key format in keyring");
    assert_eq!(key_from_hex("abcd").unwrap_err(), "Invalid key length in keyring");
    assert_eq!(usable_key(&[0u8; 16]), None);
    assert_eq!(usable_key(&[3u8; 32]), Some(vec![3u8; 32]));
}

#[test]
fn sealing_with_a_given_nonce_is_deterministic_and_opens() {
    let key = [7u8; 32];
    let nonce = [1u8, 2, 3, 4, 5, 6, 7, 8, 9, 10, 11, 12];
    let a = seal_with_nonce(&key, &nonce, "memo: 秘密").unwrap();
    let b = seal_with_nonce(&key, &nonce, "memo: 秘密").unwrap();
    assert_eq!(a, b);
    assert!(a.starts_with("ENC:0102030405060708090a0b0c"));
    assert_eq!(open_text(Some(&key), &a), "memo: 秘密");
    let other = seal_with_nonce(&key, &[0u8; 12], "memo: 秘密").unwrap();
    assert_ne!(a, other);
    assert_eq!(open_text(Some(&key), &other), "memo: 秘密");
}

#[test]
fn stored_keys_are_checked_and_missing_keys_are_made() {
    let stored = "2a".repeat(32);
    let c = choose_key(Some(&stored)).unwrap();
    assert_eq!(c.key, vec![42u8; 32]);
    assert!(c.store_hex.is_none());
    assert_eq!(choose_key(Some("zz")).err().unwrap(), "Invalid key format in keyring");
    assert_eq!(choose_key(Some("2a2a")).err().unwrap(), "Invalid key length in keyring");
    let fresh = choose_key(None).unwrap();
    assert_eq!(fresh.key.len(), 32);
    let hex = fresh.store_hex.unwrap();
    assert_eq!(choose_key(Some(&hex)).unwrap().key, fresh.key);
    assert_ne!(choose_key(None).unwrap().key, fresh.key);
}
