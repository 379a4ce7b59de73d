use kira_core::file_manager::{
    get_common_directories, get_file_type, get_parent_path, DirectoryListing, FileCategory,
    FileInfo, FileManagerError, FileSearchResult, StorageInfo,
};

#[test]
fn test_file_info_creation() {
    let info = FileInfo {
        name: "test.txt".to_string(),
        path: "/sdcard/test.txt".to_string(),
        size: 1024,
        permissions: "-rw-r--r--".to_string(),
        is_directory: false,
        is_symlink: false,
        modified: Some(1640000000),
        owner: Some("root".to_string()),
        group: Some("root".to_string()),
    };

    assert_eq!(info.name, "test.txt");
    assert!(!info.is_directory);
}

#[test]
fn test_directory_listing_creation() {
    let listing = DirectoryListing {
        path: "/sdcard".to_string(),
        total_files: 10,
        total_dirs: 5,
        total_size: 1024000,
        files: Vec::new(),
        parent_path: Some("/".to_string()),
    };

    assert_eq!(listing.total_files, 10);
    assert_eq!(listing.total_dirs, 5);
}

#[test]
fn test_storage_info_creation() {
    let storage = StorageInfo {
        path: "/data".to_string(),
        total_bytes: 64_000_000_000,
        used_bytes: 32_000_000_000,
        free_bytes: 32_000_000_000,
        percentage_used: 50,
        filesystem: "/dev/block/sda11".to_string(),
    };

    assert_eq!(storage.percentage_used, 50);
}

#[test]
fn test_file_search_result_creation() {
    let result = FileSearchResult {
        name: "app.apk".to_string(),
        path: "/sdcard/Download/app.apk".to_string(),
        size: 50_000_000,
        is_directory: false,
        matched_line: None,
    };

    assert_eq!(result.size, 50_000_000);
}

#[test]
fn test_get_file_type_image() {
    let file_type = get_file_type("/sdcard/photo.jpg");
    assert_eq!(file_type.category, FileCategory::Image);
    assert_eq!(file_type.extension, Some("jpg".to_string()));
}

#[test]
fn test_get_file_type_apk() {
    let file_type = get_file_type("/sdcard/app.apk");
    assert_eq!(file_type.category, FileCategory::Apk);
    assert_eq!(
        file_type.mime_type,
        "application/vnd.android.package-archive"
    );
}

#[test]
fn test_get_file_type_video() {
    let file_type = get_file_type("/sdcard/movie.mp4");
    assert_eq!(file_type.category, FileCategory::Video);
}

#[test]
fn test_get_file_type_audio() {
    let file_type = get_file_type("/sdcard/music.mp3");
    assert_eq!(file_type.category, FileCategory::Audio);
}

#[test]
fn test_get_file_type_document() {
    let file_type = get_file_type("/sdcard/document.pdf");
    assert_eq!(file_type.category, FileCategory::Document);
}

#[test]
fn test_get_file_type_archive() {
    let file_type = get_file_type("/sdcard/archive.zip");
    assert_eq!(file_type.category, FileCategory::Archive);
}

#[test]
fn test_get_file_type_code() {
    let file_type = get_file_type("/sdcard/main.rs");
    assert_eq!(file_type.category, FileCategory::Code);
}

#[test]
fn test_get_file_type_directory() {
    let file_type = get_file_type("/sdcard/Pictures/");
    assert_eq!(file_type.category, FileCategory::Other);
}

#[test]
fn test_get_file_type_unknown() {
    let file_type = get_file_type("/sdcard/weirdfile.xyz");
    assert_eq!(file_type.category, FileCategory::Other);
}

#[test]
fn test_common_directories() {
    let dirs = get_common_directories();
    assert!(!dirs.is_empty());
    assert!(dirs.iter().any(|(name, _)| *name == "Internal Storage"));
    assert!(dirs.iter().any(|(name, _)| *name == "Download"));
    assert!(dirs.iter().any(|(name, _)| *name == "APK Files"));
}

#[test]
fn test_get_parent_path() {
    assert_eq!(
        get_parent_path("/sdcard/Download/file.txt"),
        Some("/sdcard/Download".to_string())
    );
    assert_eq!(get_parent_path("/sdcard"), Some("/".to_string()));
    assert_eq!(get_parent_path("/"), None);
}

#[test]
fn test_file_manager_error_display() {
    let err = FileManagerError::PathNotFound("/test".to_string());
    assert!(err.message().contains("/test"));

    let err2 = FileManagerError::PermissionDenied("/data".to_string());
    assert!(err2.message().contains("Permission"));

    let err3 = FileManagerError::CommandFailed("error".to_string());
    assert!(err3.message().contains("Command"));
}

#[test]
fn test_storage_percentage_calculation() {
    let storage = StorageInfo {
        path: "/data".to_string(),
        total_bytes: 100_000_000_000,
        used_bytes: 75_000_000_000,
        free_bytes: 25_000_000_000,
        percentage_used: 75,
        filesystem: "/dev/block".to_string(),
    };

    assert_eq!(storage.percentage_used, 75);
}

#[test]
fn test_file_info_symlink() {
    let info = FileInfo {
        name: "link".to_string(),
        path: "/sdcard/link".to_string(),
        size: 0,
        permissions: "lrwxrwxrwx".to_string(),
        is_directory: false,
        is_symlink: true,
        modified: None,
        owner: None,
        group: None,
    };

    assert!(info.is_symlink);
}

#[test]
fn test_file_category_variants() {
    assert_eq!(FileCategory::Directory, FileCategory::Directory);
    assert_ne!(FileCategory::Image, FileCategory::Video);
}
