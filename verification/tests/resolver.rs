use bevy::asset::AssetIoError;
use inline_assets::InlineAssets;
use std::path::PathBuf;

fn not_found(path: &str) -> AssetIoError {
    AssetIoError::NotFound(PathBuf::from(path))
}

#[test]
fn load_of_unknown_path_passes_success_through() {
    let mut assets = InlineAssets::new();
    assets.add("logo.png", &[0x89, 0x50, 0x4E, 0x47]);
    let io = assets.io();
    let loaded = io.load_path("other.png", Ok(vec![1, 2, 3]));
    assert_eq!(loaded.unwrap(), vec![1u8, 2, 3]);
}

#[test]
fn load_of_unknown_path_passes_failure_through() {
    let mut assets = InlineAssets::new();
    assets.add("logo.png", &[0x89, 0x50, 0x4E, 0x47]);
    let io = assets.io();
    match io.load_path("other.png", Err(not_found("other.png"))) {
        Err(AssetIoError::NotFound(path)) => assert_eq!(path, PathBuf::from("other.png")),
        other => panic!("expected the provider's own failure, got {:?}", other),
    }
    match io.load_path("other.png", Err(AssetIoError::PathWatchError(PathBuf::from("w")))) {
        Err(AssetIoError::PathWatchError(path)) => assert_eq!(path, PathBuf::from("w")),
        other => panic!("expected the provider's own failure, got {:?}", other),
    }
    let denied = std::io::Error::new(std::io::ErrorKind::PermissionDenied, "denied");
    match io.load_path("other.png", Err(AssetIoError::Io(denied))) {
        Err(AssetIoError::Io(error)) => {
            assert_eq!(error.kind(), std::io::ErrorKind::PermissionDenied)
        }
        other => panic!("expected the provider's own failure, got {:?}", other),
    }
}

#[test]
fn load_from_empty_table_is_the_provider_result() {
    let io = InlineAssets::new().io();
    assert_eq!(io.load_path("a.bin", Ok(vec![5])).unwrap(), vec![5u8]);
    assert!(matches!(
        io.load_path("a.bin", Err(not_found("a.bin"))),
        Err(AssetIoError::NotFound(_))
    ));
}

#[test]
fn embedded_bytes_do_not_override_a_loaded_file() {
    let mut assets = InlineAssets::new();
    assets.add("logo.png", &[0x89, 0x50, 0x4E, 0x47]);
    let io = assets.io();
    let loaded = io.load_path("logo.png", Ok(vec![0xFF, 0xD8]));
    assert_eq!(loaded.unwrap(), vec![0xFFu8, 0xD8]);
    let empty = io.load_path("logo.png", Ok(Vec::new()));
    assert_eq!(empty.unwrap(), Vec::<u8>::new());
}

#[test]
fn embedded_bytes_replace_a_failed_load() {
    let mut assets = InlineAssets::new();
    assets.add("a.bin", &[1, 2, 3]).add("b.bin", &[]);
    let io = assets.io();
    assert_eq!(io.load_path("a.bin", Err(not_found("a.bin"))).unwrap(), vec![1u8, 2, 3]);
    assert_eq!(io.load_path("b.bin", Err(not_found("b.bin"))).unwrap(), Vec::<u8>::new());
    let denied = std::io::Error::new(std::io::ErrorKind::PermissionDenied, "denied");
    assert_eq!(io.load_path("a.bin", Err(AssetIoError::Io(denied))).unwrap(), vec![1u8, 2, 3]);
}

#[test]
fn failed_load_falls_back_to_the_last_registration() {
    let mut assets = InlineAssets::new();
    assets.add("a.bin", &[1, 2, 3]).add("a.bin", &[4]);
    let io = assets.io();
    assert_eq!(io.load_path("a.bin", Err(not_found("a.bin"))).unwrap(), vec![4u8]);
}

#[test]
fn logo_is_served_from_the_table_when_the_file_is_missing() {
    let mut assets = InlineAssets::new();
    assets.add("logo.png", &[0x89, 0x50, 0x4E, 0x47]);
    let io = assets.io();
    let loaded = io.load_path("logo.png", Err(not_found("logo.png")));
    assert_eq!(loaded.unwrap(), vec![0x89u8, 0x50, 0x4E, 0x47]);
}

#[test]
fn logo_is_served_from_disk_when_the_file_exists() {
    let mut assets = InlineAssets::new();
    assets.add("logo.png", &[0x89, 0x50, 0x4E, 0x47]);
    let io = assets.io();
    let loaded = io.load_path("logo.png", Ok(vec![0x47, 0x49, 0x46, 0x38, 0x39]));
    assert_eq!(loaded.unwrap(), vec![0x47u8, 0x49, 0x46, 0x38, 0x39]);
}

#[test]
fn provider_side_is_a_copy_of_the_table() {
    let mut assets = InlineAssets::new();
    assets.add("a.bin", &[1]);
    let io = assets.io();
    assets.add("a.bin", &[2]).add("b.bin", &[3]);
    assert_eq!(io.load_path("a.bin", Err(not_found("a.bin"))).unwrap(), vec![1u8]);
    assert!(matches!(
        io.load_path("b.bin", Err(not_found("b.bin"))),
        Err(AssetIoError::NotFound(_))
    ));
    assert_eq!(assets.lookup("a.bin"), Some(&[2u8][..]));
}
