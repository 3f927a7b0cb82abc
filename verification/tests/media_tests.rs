use media_vault::crypto::{set_crypto_params, KeyManager};
use media_vault::listing::{get_album_thumb, get_images};
use media_vault::media::{cache_image, generate_unique_filename, save_file};
use media_vault::vault::{get_file, get_file_thumb, Vault};

fn unlocked() -> KeyManager {
    let mut km = KeyManager::new();
    set_crypto_params(&mut km, "pw").unwrap();
    km
}

fn jpeg_bytes(width: u32, height: u32) -> Vec<u8> {
    let img = image::RgbImage::from_pixel(width, height, image::Rgb([180u8, 40, 40]));
    let mut buf: Vec<u8> = Vec::new();
    image::write_buffer_with_format(
        &mut std::io::Cursor::new(&mut buf),
        img.as_raw(),
        width,
        height,
        image::ColorType::Rgb8,
        image::ImageFormat::Jpeg,
    )
    .unwrap();
    buf
}

#[test]
fn save_image_names_and_lists_with_metadata() {
    let mut vault = Vault::new();
    let km = unlocked();
    let data = jpeg_bytes(100, 50);
    let name = save_file(&mut vault, &km, data.clone(), String::from("v/album1")).unwrap();
    assert!(name.ends_with(".image"));
    let entries = get_images(&vault, &km, "v/album1").unwrap();
    assert_eq!(entries.len(), 1);
    let (ename, (hash, ratio)) = &entries[0];
    assert_eq!(ename, &name);
    assert!(!hash.is_empty());
    assert!(!hash.contains(' '));
    // aspect ratio 100/50 to two decimals, in hundredths
    assert_eq!(*ratio, 200);
    // the primary file decrypts back to the original bytes
    let path = format!("v/album1/{}", name);
    assert_eq!(get_file(&vault, &km, &path).unwrap(), data);
}

#[test]
fn sidecars_exist_and_decrypt_after_media_write() {
    let mut vault = Vault::new();
    let km = unlocked();
    let name = save_file(&mut vault, &km, jpeg_bytes(64, 64), String::from("v/a")).unwrap();
    let hash_path = format!("v/a/.hash/{}", name);
    let thumb_path = format!("v/a/.thumbs/{}", name);
    assert!(vault.file_get(&hash_path).is_some());
    assert!(vault.file_get(&thumb_path).is_some());
    // the thumbnail sidecar decrypts to an encoded JPEG
    let primary = format!("v/a/{}", name);
    let thumb = get_file_thumb(&vault, &km, &primary).unwrap();
    assert!(thumb.len() > 2);
    assert_eq!(&thumb[0..2], &[0xff, 0xd8]);
    assert!(vault.dir_exists(&String::from("v/a/.hash")));
    assert!(vault.dir_exists(&String::from("v/a/.thumbs")));
}

#[test]
fn undecodable_media_payload_falls_back_to_placeholder() {
    let mut vault = Vault::new();
    let km = unlocked();
    // PNG magic but broken body: classified as an image, decode fails
    let bogus = vec![0x89u8, 0x50, 0x4e, 0x47, 0, 0, 0, 0, 1, 2, 3];
    let name = save_file(&mut vault, &km, bogus, String::from("v/b")).unwrap();
    assert!(name.ends_with(".image"));
    let entries = get_images(&vault, &km, "v/b").unwrap();
    assert_eq!(entries.len(), 1);
    // the placeholder raster is square
    assert_eq!(entries[0].1 .1, 100);
}

#[test]
fn video_magic_gets_video_extension() {
    let mut vault = Vault::new();
    let km = unlocked();
    let mut mkv = vec![0x1au8, 0x45, 0xdf, 0xa3];
    mkv.extend(vec![0u8; 32]);
    let name = save_file(&mut vault, &km, mkv, String::from("v/c")).unwrap();
    assert!(name.ends_with(".video"));
}

#[test]
fn generic_payload_gets_file_extension_and_no_sidecars() {
    let mut vault = Vault::new();
    let km = unlocked();
    let name = save_file(&mut vault, &km, b"plain text".to_vec(), String::from("v/d")).unwrap();
    assert!(name.ends_with(".file"));
    assert!(vault.file_get(&format!("v/d/.hash/{}", name)).is_none());
    assert!(vault.file_get(&format!("v/d/.thumbs/{}", name)).is_none());
}

#[test]
fn cover_is_lexicographically_smallest_name() {
    let mut vault = Vault::new();
    let km = unlocked();
    for name in ["b.jpg", "a.jpg", "c.jpg"] {
        let path = format!("v/album/{}", name);
        let enc = media_vault::crypto::encrypt_data(&km, &[1, 2, 3]).unwrap();
        vault.file_set(path.clone(), enc);
        cache_image(&mut vault, &km, &jpeg_bytes(10, 10), &path, 2, 2).unwrap();
    }
    let cover = get_album_thumb(&vault, &km, "v/album").unwrap().unwrap();
    assert_eq!(cover.0, "a.jpg");
    assert!(!cover.1 .0.is_empty());
}

#[test]
fn album_without_cached_entries_has_no_cover() {
    let vault = Vault::new();
    let km = unlocked();
    assert!(get_album_thumb(&vault, &km, "v/empty").unwrap().is_none());
}

#[test]
fn malformed_sidecar_is_a_hard_error() {
    let mut vault = Vault::new();
    let km = unlocked();
    let path = String::from("v/x/file.image");
    let enc = media_vault::crypto::encrypt_data(&km, &[0]).unwrap();
    vault.file_set(path, enc);
    let bad_entry = media_vault::crypto::encrypt_data(&km, b"no-ratio-here").unwrap();
    vault.file_set(String::from("v/x/.hash/file.image"), bad_entry);
    assert!(get_images(&vault, &km, "v/x").is_err());
}

#[test]
fn missing_sidecar_is_skipped_not_an_error() {
    let mut vault = Vault::new();
    let km = unlocked();
    let enc = media_vault::crypto::encrypt_data(&km, &[0]).unwrap();
    vault.file_set(String::from("v/y/naked.file"), enc);
    let entries = get_images(&vault, &km, "v/y").unwrap();
    assert!(entries.is_empty());
}

#[test]
fn unique_names_do_not_collide() {
    let mut vault = Vault::new();
    let km = unlocked();
    let n1 = save_file(&mut vault, &km, b"a".to_vec(), String::from("v/u")).unwrap();
    let n2 = save_file(&mut vault, &km, b"b".to_vec(), String::from("v/u")).unwrap();
    assert_ne!(n1, n2);
    let free = generate_unique_filename(&vault, "v/u", "file").unwrap();
    assert!(vault.file_get(&format!("v/u/{}", free)).is_none());
    assert!(free.contains("_0001."));
    assert!(free.ends_with(".file"));
    let stem = free.strip_suffix(".file").unwrap();
    let (ts, counter) = stem.split_at(stem.len() - 5);
    assert!(counter.starts_with('_'));
    assert!(counter[1..].chars().all(|c| c.is_ascii_digit()));
    assert!(ts.chars().all(|c| c.is_ascii_digit()));
}
