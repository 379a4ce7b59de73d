use kira_core::app_manager::{
    extract_error_message, parse_top_package, AppInfo, AppManagerError, AppPermissions,
    InstallLocation, InstallResult, PackageFilter, PermissionInfo, PermissionStatus,
    UninstallResult,
};

#[test]
fn test_install_location_from_str() {
    assert_eq!(InstallLocation::from_str("auto"), InstallLocation::Auto);
    assert_eq!(
        InstallLocation::from_str("internalOnly"),
        InstallLocation::InternalOnly
    );
    assert_eq!(
        InstallLocation::from_str("preferExternal"),
        InstallLocation::PreferExternal
    );
    assert_eq!(
        InstallLocation::from_str("unknown"),
        InstallLocation::Unknown
    );
}

#[test]
fn test_permission_status_from_str() {
    assert_eq!(
        PermissionStatus::from_str("granted"),
        PermissionStatus::Granted
    );
    assert_eq!(
        PermissionStatus::from_str("denied"),
        PermissionStatus::Denied
    );
    assert_eq!(
        PermissionStatus::from_str("default"),
        PermissionStatus::Default
    );
    assert_eq!(
        PermissionStatus::from_str("unknown"),
        PermissionStatus::Unknown
    );
}

#[test]
fn test_package_filter_variants() {
    assert_eq!(PackageFilter::All, PackageFilter::All);
    assert_eq!(PackageFilter::System, PackageFilter::System);
    assert_eq!(PackageFilter::ThirdParty, PackageFilter::ThirdParty);
}

#[test]
fn test_app_info_creation() {
    let info = AppInfo {
        package_name: "com.example.app".to_string(),
        version_name: Some("1.0.0".to_string()),
        version_code: Some(1),
        label: Some("Example App".to_string()),
        install_location: InstallLocation::Auto,
        flags: vec!["HAS_CODE".to_string()],
        first_install_time: Some("2024-01-01".to_string()),
        last_update_time: Some("2024-01-15".to_string()),
        apk_path: Some("/data/app/example.apk".to_string()),
        data_dir: Some("/data/data/com.example.app".to_string()),
        is_system_app: false,
        is_enabled: true,
    };

    assert_eq!(info.package_name, "com.example.app");
    assert!(info.is_enabled);
}

#[test]
fn test_install_result_success() {
    let result = InstallResult {
        success: true,
        message: "App installed successfully".to_string(),
        package_name: Some("com.example.app".to_string()),
    };

    assert!(result.success);
    assert!(result.package_name.is_some());
}

#[test]
fn test_install_result_failure() {
    let result = InstallResult {
        success: false,
        message: "INSTALL_FAILED_INSUFFICIENT_STORAGE".to_string(),
        package_name: None,
    };

    assert!(!result.success);
    assert!(result.package_name.is_none());
}

#[test]
fn test_uninstall_result_success() {
    let result = UninstallResult {
        success: true,
        message: "App uninstalled successfully".to_string(),
    };

    assert!(result.success);
}

#[test]
fn test_uninstall_result_failure() {
    let result = UninstallResult {
        success: false,
        message: "DELETE_FAILED_INTERNAL_ERROR".to_string(),
    };

    assert!(!result.success);
}

#[test]
fn test_app_permissions_creation() {
    let perms = AppPermissions {
        package_name: "com.example.app".to_string(),
        permissions: vec![
            PermissionInfo {
                name: "android.permission.INTERNET".to_string(),
                status: PermissionStatus::Granted,
            },
            PermissionInfo {
                name: "android.permission.CAMERA".to_string(),
                status: PermissionStatus::Denied,
            },
        ],
    };

    assert_eq!(perms.permissions.len(), 2);
}

#[test]
fn test_permission_info_granted() {
    let perm = PermissionInfo {
        name: "android.permission.INTERNET".to_string(),
        status: PermissionStatus::Granted,
    };

    assert_eq!(perm.status, PermissionStatus::Granted);
}

#[test]
fn test_permission_info_denied() {
    let perm = PermissionInfo {
        name: "android.permission.ACCESS_FINE_LOCATION".to_string(),
        status: PermissionStatus::Denied,
    };

    assert_eq!(perm.status, PermissionStatus::Denied);
}

#[test]
fn test_app_manager_error_display() {
    let err = AppManagerError::PackageNotFound("com.test.app".to_string());
    assert!(err.message().contains("com.test.app"));

    let err2 = AppManagerError::InstallFailed("error".to_string());
    assert!(err2.message().contains("Install failed"));

    let err3 = AppManagerError::ActivityNotFound("com.app.Main".to_string());
    assert!(err3.message().contains("Launcher activity"));
}

#[test]
fn test_app_info_system_app() {
    let info = AppInfo {
        package_name: "com.android.system".to_string(),
        version_name: Some("1.0".to_string()),
        version_code: Some(1),
        label: Some("System".to_string()),
        install_location: InstallLocation::InternalOnly,
        flags: vec!["SYSTEM".to_string()],
        first_install_time: None,
        last_update_time: None,
        apk_path: None,
        data_dir: None,
        is_system_app: true,
        is_enabled: true,
    };

    assert!(info.is_system_app);
}

#[test]
fn test_app_info_disabled() {
    let info = AppInfo {
        package_name: "com.example.disabled".to_string(),
        version_name: None,
        version_code: None,
        label: None,
        install_location: InstallLocation::Unknown,
        flags: vec![],
        first_install_time: None,
        last_update_time: None,
        apk_path: None,
        data_dir: None,
        is_system_app: false,
        is_enabled: false,
    };

    assert!(!info.is_enabled);
}

#[test]
fn test_extract_error_message() {
    let output = "Failure [INSTALL_FAILED_INSUFFICIENT_STORAGE]: Storage verification failed";
    let msg = extract_error_message(output);
    assert!(msg.contains("Failure"));

    let output2 = "Error: something went wrong";
    let msg2 = extract_error_message(output2);
    assert!(msg2.contains("Error"));
}

#[test]
fn test_pm_list_packages_command_format() {
    let command = "pm list packages -3".to_string();
    assert!(command.contains("packages"));
    assert!(command.contains("-3"));
}

#[test]
fn test_pm_install_command_format() {
    let command = format!("pm install -g /sdcard/Download/app.apk");
    assert!(command.contains("install"));
    assert!(command.contains("-g"));
}

#[test]
fn test_pm_uninstall_command_format() {
    let package = "com.brave.browser";
    let command = format!("pm uninstall {}", package);
    assert_eq!(command, "pm uninstall com.brave.browser");
}

#[test]
fn test_pm_uninstall_keep_data_command_format() {
    let package = "com.brave.browser";
    let command = format!("pm uninstall -k {}", package);
    assert_eq!(command, "pm uninstall -k com.brave.browser");
}

#[test]
fn app_manager_test_am_force_stop_command_format() {
    let package = "com.example.app";
    let command = format!("am force-stop {}", package);
    assert_eq!(command, "am force-stop com.example.app");
}

#[test]
fn test_am_start_command_format() {
    let activity = "com.example.app/.MainActivity";
    let command = format!("am start -n {}", activity);
    assert_eq!(command, "am start -n com.example.app/.MainActivity");
}

#[test]
fn test_parse_top_package_valid() {
    let sample_output = "
  some random stuff
  top-activity 4567:com.something.app/com.something.MainActivity another_thing
  more text
";
    let top = parse_top_package(sample_output);
    assert_eq!(top.name, "com.something.app");
    assert_eq!(top.pid, Some(4567));
}

#[test]
fn test_parse_top_package_empty() {
    let sample_output = "No top-activity here";
    let top = parse_top_package(sample_output);
    assert_eq!(top.name, "");
    assert_eq!(top.pid, None);
}
