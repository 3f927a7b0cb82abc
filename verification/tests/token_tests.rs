use media_vault::crypto::KeyManager;
use media_vault::token::{
    check_password, check_password_exist, check_validation_data_exists, save_password,
    save_validation_data, set_password,
};
use media_vault::vault::Vault;

#[test]
fn save_then_verify_right_and_wrong_password() {
    let mut vault = Vault::new();
    let mut km = KeyManager::new();
    assert!(!check_password_exist(&vault, "vroot"));
    save_password(&mut vault, &mut km, "alpha", "vroot").unwrap();
    assert!(check_password_exist(&vault, "vroot"));
    assert_eq!(set_password(&vault, &mut km, "alpha", "vroot").unwrap(), true);
    assert_eq!(set_password(&vault, &mut km, "beta", "vroot").unwrap(), false);
    assert_eq!(set_password(&vault, &mut km, "alpha", "vroot").unwrap(), true);
}

#[test]
fn verify_without_token_is_an_error_not_false() {
    let vault = Vault::new();
    let mut km = KeyManager::new();
    let r = check_password(&vault, &mut km, "anything", "empty-root");
    assert!(r.is_err());
}

#[test]
fn token_is_scoped_to_its_root() {
    let mut vault = Vault::new();
    let mut km = KeyManager::new();
    save_validation_data(&mut vault, &mut km, "rootA", "pw").unwrap();
    assert!(check_validation_data_exists(&vault, "rootA"));
    assert!(!check_validation_data_exists(&vault, "rootB"));
}

#[test]
fn reset_password_overwrites_token() {
    let mut vault = Vault::new();
    let mut km = KeyManager::new();
    save_password(&mut vault, &mut km, "first", "v").unwrap();
    save_password(&mut vault, &mut km, "second", "v").unwrap();
    assert_eq!(set_password(&vault, &mut km, "first", "v").unwrap(), false);
    assert_eq!(set_password(&vault, &mut km, "second", "v").unwrap(), true);
}
