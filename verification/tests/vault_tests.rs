use media_vault::crypto::{decrypt_data, set_crypto_params, KeyManager};
use media_vault::media::write_opaque_file;
use media_vault::vault::{create_dir, delete_dir, delete_file, get_dirs, get_file, move_file, Vault};

fn unlocked() -> KeyManager {
    let mut km = KeyManager::new();
    set_crypto_params(&mut km, "pw").unwrap();
    km
}

#[test]
fn create_and_list_albums() {
    let mut vault = Vault::new();
    create_dir(&mut vault, String::from("root"), String::from("holiday")).unwrap();
    create_dir(&mut vault, String::from("root"), String::from("work")).unwrap();
    let mut names = get_dirs(&mut vault, "root").unwrap();
    names.sort();
    assert_eq!(names, vec![String::from("holiday"), String::from("work")]);
}

#[test]
fn get_dirs_bootstraps_missing_root() {
    let mut vault = Vault::new();
    let names = get_dirs(&mut vault, "fresh").unwrap();
    assert!(names.is_empty());
    let again = get_dirs(&mut vault, "fresh").unwrap();
    assert!(again.is_empty());
}

#[test]
fn opaque_file_round_trip_and_no_sidecars() {
    let mut vault = Vault::new();
    let km = unlocked();
    create_dir(&mut vault, String::from("root"), String::from("docs")).unwrap();
    let data = b"not an image at all".to_vec();
    let name = write_opaque_file(&mut vault, &km, data.clone(), String::from("root/docs")).unwrap();
    assert!(name.ends_with(".file"));
    let path = format!("root/docs/{}", name);
    assert_eq!(get_file(&vault, &km, &path).unwrap(), data);
    let hash_path = format!("root/docs/.hash/{}", name);
    let thumb_path = format!("root/docs/.thumbs/{}", name);
    assert!(vault.file_get(&hash_path).is_none());
    assert!(vault.file_get(&thumb_path).is_none());
}

#[test]
fn delete_file_removes_primary_and_sidecars() {
    let mut vault = Vault::new();
    let km = unlocked();
    let data = vec![9u8; 64];
    let name = write_opaque_file(&mut vault, &km, data, String::from("root/a")).unwrap();
    let path = format!("root/a/{}", name);
    // plant sidecars by hand to check they are swept with the primary file
    let hash_path = format!("root/a/.hash/{}", name);
    let thumb_path = format!("root/a/.thumbs/{}", name);
    vault.file_set(hash_path.clone(), vec![1, 2, 3]);
    vault.file_set(thumb_path.clone(), vec![4, 5, 6]);
    delete_file(&mut vault, &path).unwrap();
    assert!(vault.file_get(&path).is_none());
    assert!(vault.file_get(&hash_path).is_none());
    assert!(vault.file_get(&thumb_path).is_none());
}

#[test]
fn delete_file_missing_is_an_error() {
    let mut vault = Vault::new();
    assert!(delete_file(&mut vault, "root/a/missing.file").is_err());
}

#[test]
fn move_file_carries_sidecars() {
    let mut vault = Vault::new();
    let km = unlocked();
    let data = vec![7u8; 10];
    let name = write_opaque_file(&mut vault, &km, data.clone(), String::from("root/src")).unwrap();
    let path = format!("root/src/{}", name);
    let hash_path = format!("root/src/.hash/{}", name);
    vault.file_set(hash_path.clone(), vec![1, 1, 1]);
    move_file(&mut vault, &path, "root/dst").unwrap();
    assert!(vault.file_get(&path).is_none());
    assert!(vault.file_get(&hash_path).is_none());
    let new_path = format!("root/dst/{}", name);
    let new_hash = format!("root/dst/.hash/{}", name);
    assert_eq!(get_file(&vault, &km, &new_path).unwrap(), data);
    assert_eq!(vault.file_get(&new_hash).unwrap().clone(), vec![1, 1, 1]);
    assert!(vault.dir_exists(&String::from("root/dst/.hash")));
}

#[test]
fn delete_dir_removes_subtree() {
    let mut vault = Vault::new();
    let km = unlocked();
    create_dir(&mut vault, String::from("root"), String::from("gone")).unwrap();
    create_dir(&mut vault, String::from("root"), String::from("kept")).unwrap();
    let n1 = write_opaque_file(&mut vault, &km, vec![1], String::from("root/gone")).unwrap();
    let n2 = write_opaque_file(&mut vault, &km, vec![2], String::from("root/kept")).unwrap();
    delete_dir(&mut vault, "root/gone").unwrap();
    assert!(vault.file_get(&format!("root/gone/{}", n1)).is_none());
    assert!(!vault.dir_exists(&String::from("root/gone")));
    assert!(vault.file_get(&format!("root/kept/{}", n2)).is_some());
    assert!(delete_dir(&mut vault, "root/gone").is_err());
}

#[test]
fn get_file_missing_or_locked_fails() {
    let vault = Vault::new();
    let km = unlocked();
    assert!(get_file(&vault, &km, "nowhere").is_err());
    let locked = KeyManager::new();
    let mut v2 = Vault::new();
    let name = write_opaque_file(&mut v2, &km, vec![5], String::from("r")).unwrap();
    let path = format!("r/{}", name);
    assert!(get_file(&v2, &locked, &path).is_err());
    assert!(decrypt_data(&locked, &[1, 2]).is_err());
}
