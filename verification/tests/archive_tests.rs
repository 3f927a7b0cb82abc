use media_vault::archive::{
    check_zip_encrypted, check_zip_password, export_with_password, restore_backup, zip_backup,
};
use media_vault::crypto::{set_crypto_params, KeyManager};
use media_vault::listing::get_images;
use media_vault::media::{save_file, write_opaque_file};
use media_vault::token::save_password;
use media_vault::vault::{create_dir, get_file, Vault};

fn unlocked(pw: &str) -> KeyManager {
    let mut km = KeyManager::new();
    set_crypto_params(&mut km, pw).unwrap();
    km
}

fn sample_vault(km: &KeyManager) -> (Vault, Vec<(String, Vec<u8>)>) {
    let mut vault = Vault::new();
    create_dir(&mut vault, String::from("src"), String::from("album1")).unwrap();
    let d1 = b"first document".to_vec();
    let d2 = b"second document, longer".to_vec();
    let n1 = write_opaque_file(&mut vault, km, d1.clone(), String::from("src/album1")).unwrap();
    let n2 = write_opaque_file(&mut vault, km, d2.clone(), String::from("src")).unwrap();
    (vault, vec![(format!("src/album1/{}", n1), d1), (format!("src/{}", n2), d2)])
}

#[test]
fn plaintext_export_restores_content() {
    let km = unlocked("livepw");
    let (vault, files) = sample_vault(&km);
    let bytes = zip_backup(&vault, &km, "src", false).unwrap();
    assert_eq!(&bytes[0..2], b"PK");

    let km2 = unlocked("destpw");
    let mut dest = Vault::new();
    restore_backup(&mut dest, &km2, bytes, "dst", None).unwrap();

    let mut restored: Vec<Vec<u8>> = Vec::new();
    for i in 0..dest.file_count() {
        let p = dest.file_nth_path(i).clone();
        if !p.contains("/.hash/") && !p.contains("/.thumbs/") {
            restored.push(get_file(&dest, &km2, &p).unwrap());
        }
    }
    for (_, content) in &files {
        assert!(restored.contains(content));
    }
    assert_eq!(restored.len(), files.len());
}

#[test]
fn verbatim_export_with_password_restores_content() {
    let km = unlocked("livepw");
    let (vault, files) = sample_vault(&km);
    let bytes = export_with_password(&vault, &km, "src", true, "livepw").unwrap();

    let km2 = unlocked("otherpw");
    let mut dest = Vault::new();
    restore_backup(&mut dest, &km2, bytes, "dst", Some("livepw")).unwrap();

    let mut restored: Vec<Vec<u8>> = Vec::new();
    for i in 0..dest.file_count() {
        let p = dest.file_nth_path(i).clone();
        if !p.contains("/.hash/") && !p.contains("/.thumbs/") {
            restored.push(get_file(&dest, &km2, &p).unwrap());
        }
    }
    for (_, content) in &files {
        assert!(restored.contains(content));
    }
}

#[test]
fn restore_with_wrong_password_is_incorrect_password() {
    let km = unlocked("livepw");
    let (vault, _) = sample_vault(&km);
    let bytes = export_with_password(&vault, &km, "src", true, "livepw").unwrap();
    let km2 = unlocked("destpw");
    let mut dest = Vault::new();
    let err = restore_backup(&mut dest, &km2, bytes, "dst", Some("nope")).unwrap_err();
    assert!(err.is_incorrect_password());
    assert_eq!(dest.file_count(), 0);
}

#[test]
fn archive_password_check_false_versus_error() {
    let km = unlocked("livepw");
    let (vault, _) = sample_vault(&km);
    let bytes = export_with_password(&vault, &km, "src", true, "right").unwrap();
    assert_eq!(check_zip_password(bytes.clone(), "right").unwrap(), true);
    assert_eq!(check_zip_password(bytes.clone(), "wrong").unwrap(), false);
    let not_an_archive = vec![0u8, 1, 2, 3, 4, 5];
    assert!(check_zip_password(not_an_archive, "right").is_err());
}

#[test]
fn tokenless_archive_rejects_every_password() {
    let km = unlocked("livepw");
    let (vault, _) = sample_vault(&km);
    let bytes = zip_backup(&vault, &km, "src", true).unwrap();
    assert_eq!(check_zip_password(bytes, "livepw").unwrap(), false);
}

#[test]
fn encryption_detection() {
    let km = unlocked("livepw");
    let (vault, _) = sample_vault(&km);
    let with_token = export_with_password(&vault, &km, "src", true, "pw").unwrap();
    assert_eq!(check_zip_encrypted(with_token).unwrap(), true);
    let without_token = zip_backup(&vault, &km, "src", true).unwrap();
    assert_eq!(check_zip_encrypted(without_token).unwrap(), false);
    assert!(check_zip_encrypted(vec![9u8, 9, 9]).is_err());
}

#[test]
fn export_excludes_sidecars_and_live_token() {
    let km = unlocked("livepw");
    let mut vault = Vault::new();
    let mut setup_km = KeyManager::new();
    save_password(&mut vault, &mut setup_km, "livepw", "src").unwrap();
    let img = {
        let raster = image::RgbImage::from_pixel(20, 20, image::Rgb([1u8, 2, 3]));
        let mut buf: Vec<u8> = Vec::new();
        image::write_buffer_with_format(
            &mut std::io::Cursor::new(&mut buf),
            raster.as_raw(),
            20,
            20,
            image::ColorType::Rgb8,
            image::ImageFormat::Jpeg,
        )
        .unwrap();
        buf
    };
    let name = save_file(&mut vault, &km, img, String::from("src/album1")).unwrap();
    assert!(vault.file_get(&format!("src/album1/.hash/{}", name)).is_some());

    let bytes = zip_backup(&vault, &km, "src", false).unwrap();
    let km2 = unlocked("destpw");
    let mut dest = Vault::new();
    restore_backup(&mut dest, &km2, bytes, "dst", None).unwrap();

    // the restored vault regenerated its sidecars fresh under the new key
    let entries = get_images(&dest, &km2, "dst/album1").unwrap();
    assert_eq!(entries.len(), 1);
    // and carried over neither the source token nor raw sidecar files
    assert!(dest.file_get(&String::from("dst/.vault-key")).is_none());
    for i in 0..dest.file_count() {
        let p = dest.file_nth_path(i);
        assert!(!p.starts_with("dst/.hash"));
    }
}
