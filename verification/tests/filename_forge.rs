use image_manip::forge::forge;
use image_manip::paths::{conversion_dir, sidecar_path};

#[test]
fn forge_matches_blake3_of_path_and_millis() {
    let path = "fotos/praia.png";
    let millis: i64 = 1_666_000_000_123;
    let mut key = path.as_bytes().to_vec();
    key.extend_from_slice(&millis.to_be_bytes());
    let expected = format!("/out/{}.jpg", blake3::hash(&key).to_hex());
    assert_eq!(forge("/out", path, millis, "jpg"), expected);
}

#[test]
fn forge_matches_blake3_for_negative_millis() {
    let path = "old.bmp";
    let millis: i64 = -45_000;
    let mut key = path.as_bytes().to_vec();
    key.extend_from_slice(&millis.to_be_bytes());
    let expected = format!("d/{}.png", blake3::hash(&key).to_hex());
    assert_eq!(forge("d", path, millis, "png"), expected);
}

#[test]
fn forge_is_deterministic_for_equal_inputs() {
    let a = forge("/out", "a/b/c.jpeg", 1_700_000_000_000, "jpg");
    let b = forge("/out", "a/b/c.jpeg", 1_700_000_000_000, "jpg");
    assert_eq!(a, b);
}

#[test]
fn forge_differs_across_millis() {
    let a = forge("/out", "a/b/c.jpeg", 1_700_000_000_000, "jpg");
    let b = forge("/out", "a/b/c.jpeg", 1_700_000_000_001, "jpg");
    assert_ne!(a, b);
}

#[test]
fn forge_name_shape_is_dir_hex_extension() {
    let name = forge("/tmp/conv", "x.png", 42, "webp");
    assert!(name.starts_with("/tmp/conv/"));
    assert!(name.ends_with(".webp"));
    let hex = &name["/tmp/conv/".len()..name.len() - ".webp".len()];
    assert_eq!(hex.len(), 64);
    assert!(hex.chars().all(|c| c.is_ascii_hexdigit() && !c.is_ascii_uppercase()));
}

#[test]
fn sidecar_and_conversion_paths_extend_exe_dir() {
    assert_eq!(sidecar_path("/opt/tool"), "/opt/tool/image_manip_config.json");
    assert_eq!(conversion_dir("/opt/tool"), "/opt/tool/image_manip_convert");
}
