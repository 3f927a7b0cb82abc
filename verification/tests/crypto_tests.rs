use media_vault::crypto::{
    decrypt_data, encrypt_data, get_crypto_params, password_encrypt, set_crypto_params,
    KeyManager, PasswordDecrypter,
};

#[test]
fn encrypt_decrypt_round_trip() {
    let mut km = KeyManager::new();
    set_crypto_params(&mut km, "hunter2").unwrap();
    let plain: Vec<u8> = vec![0, 1, 2, 3, 254, 255, 42, 7, 9];
    let cipher = encrypt_data(&km, &plain).unwrap();
    assert_ne!(cipher, plain);
    assert_eq!(cipher.len() % 16, 0);
    let back = decrypt_data(&km, &cipher).unwrap();
    assert_eq!(back, plain);
}

#[test]
fn round_trip_empty_and_block_sized() {
    let mut km = KeyManager::new();
    set_crypto_params(&mut km, "pw").unwrap();
    let empty: Vec<u8> = Vec::new();
    let c = encrypt_data(&km, &empty).unwrap();
    assert_eq!(c.len(), 16);
    assert_eq!(decrypt_data(&km, &c).unwrap(), empty);
    let block: Vec<u8> = vec![7u8; 16];
    let c2 = encrypt_data(&km, &block).unwrap();
    assert_eq!(c2.len(), 32);
    assert_eq!(decrypt_data(&km, &c2).unwrap(), block);
}

#[test]
fn no_key_is_an_error() {
    let km = KeyManager::new();
    assert!(encrypt_data(&km, &[1, 2, 3]).is_err());
    assert!(decrypt_data(&km, &[1, 2, 3]).is_err());
    assert!(get_crypto_params(&km).is_none());
}

#[test]
fn same_password_same_key() {
    let mut km1 = KeyManager::new();
    let mut km2 = KeyManager::new();
    set_crypto_params(&mut km1, "alpha").unwrap();
    set_crypto_params(&mut km2, "alpha").unwrap();
    let (k1, iv1) = get_crypto_params(&km1).unwrap();
    let (k2, iv2) = get_crypto_params(&km2).unwrap();
    assert_eq!(k1, k2);
    assert_eq!(iv1, iv2);
    assert_eq!(k1.len(), 32);
    assert_eq!(iv1.len(), 16);
}

#[test]
fn different_password_different_key() {
    let mut km1 = KeyManager::new();
    let mut km2 = KeyManager::new();
    set_crypto_params(&mut km1, "alpha").unwrap();
    set_crypto_params(&mut km2, "beta").unwrap();
    assert_ne!(
        get_crypto_params(&km1).unwrap().0,
        get_crypto_params(&km2).unwrap().0
    );
}

#[test]
fn password_decrypter_matches_session() {
    let mut km = KeyManager::new();
    set_crypto_params(&mut km, "secret").unwrap();
    let plain = b"standalone decryption".to_vec();
    let cipher = encrypt_data(&km, &plain).unwrap();
    let d = PasswordDecrypter::new("secret");
    assert_eq!(d.decrypt(&cipher).unwrap(), plain);
}

#[test]
fn wrong_password_does_not_recover_plaintext() {
    let plain = b"some secret payload".to_vec();
    let cipher = password_encrypt("right", &plain);
    let d = PasswordDecrypter::new("wrong");
    match d.decrypt(&cipher) {
        Ok(garbage) => assert_ne!(garbage, plain),
        Err(_) => {},
    }
}

#[test]
fn password_encrypt_is_deterministic() {
    let plain = b"same input".to_vec();
    assert_eq!(password_encrypt("pw", &plain), password_encrypt("pw", &plain));
    assert_ne!(password_encrypt("pw", &plain), password_encrypt("other", &plain));
}
