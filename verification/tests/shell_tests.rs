use kira_core::shell::{
    BatteryInfo, CommandOutput, DeviceStatus, FileEntry, MountInfo, NetworkInterface, ShellError,
    ShellExecutor,
};

#[test]
fn test_command_output_creation() {
    let output = CommandOutput {
        stdout: "Hello World".to_string(),
        stderr: "".to_string(),
        exit_code: 0,
        duration_ms: 100,
    };

    assert_eq!(output.stdout, "Hello World");
    assert_eq!(output.exit_code, 0);
    assert_eq!(output.duration_ms, 100);
}

#[test]
fn test_shell_executor_new() {
    let executor = ShellExecutor::new();
    assert!(executor.sessions.is_empty());
}

#[test]
fn test_shell_executor_default() {
    let executor = ShellExecutor::default();
    assert!(executor.sessions.is_empty());
}

#[test]
fn test_file_entry_creation() {
    let entry = FileEntry {
        name: "test.txt".to_string(),
        permissions: "-rw-r--r--".to_string(),
        size: 1024,
        is_directory: false,
    };

    assert_eq!(entry.name, "test.txt");
    assert!(!entry.is_directory);
}

#[test]
fn test_file_entry_directory() {
    let entry = FileEntry {
        name: "mydir".to_string(),
        permissions: "drwxr-xr-x".to_string(),
        size: 4096,
        is_directory: true,
    };

    assert!(entry.is_directory);
}

#[test]
fn test_device_status_creation() {
    let status = DeviceStatus {
        uptime_secs: 3600,
        total_memory: 8_000_000_000,
        free_memory: 4_000_000_000,
        available_memory: 6_000_000_000,
        load_average_1m: "1.5".to_string(),
        load_average_5m: "1.2".to_string(),
        load_average_15m: "1.0".to_string(),
    };

    assert_eq!(status.uptime_secs, 3600);
    assert!(!status.load_average_1m.is_empty());
}

#[test]
fn test_mount_info_creation() {
    let mount = MountInfo {
        device: "/dev/block/sda1".to_string(),
        mount_point: "/data".to_string(),
        fs_type: "ext4".to_string(),
        options: "rw,seclabel".to_string(),
    };

    assert_eq!(mount.mount_point, "/data");
    assert_eq!(mount.fs_type, "ext4");
}

#[test]
fn test_network_interface_creation() {
    let iface = NetworkInterface {
        name: "wlan0".to_string(),
        state: "UP".to_string(),
        ip_address: "192.168.1.100".to_string(),
    };

    assert_eq!(iface.name, "wlan0");
    assert_eq!(iface.state, "UP");
}

#[test]
fn test_battery_info_creation() {
    let battery = BatteryInfo {
        level: 75,
        scale: 100,
        percentage: 75,
        status: "Charging".to_string(),
        health: "Good".to_string(),
        plugged: "USB".to_string(),
        voltage: 4200,
        temperature_tenths: 255,
        technology: "Li-ion".to_string(),
    };

    assert_eq!(battery.percentage, 75);
    assert_eq!(battery.temperature_tenths, 255);
}

#[test]
fn test_shell_error_display() {
    let err = ShellError::DeviceNotFound;
    assert!(err.message().contains("Device"));

    let err2 = ShellError::CommandFailed("test".to_string());
    assert!(err2.message().contains("Command failed"));

    let err3 = ShellError::IOError("io error".to_string());
    assert!(err3.message().contains("IO Error"));
}

#[test]
fn test_shell_error_variants() {
    let err1 = ShellError::Timeout;
    let err2 = ShellError::Timeout;
    assert_eq!(err1, err2);

    let err3 = ShellError::PermissionDenied;
    let err4 = ShellError::PermissionDenied;
    assert_eq!(err3, err4);
}

#[test]
fn test_command_output_with_stderr() {
    let output = CommandOutput {
        stdout: "result".to_string(),
        stderr: "error message".to_string(),
        exit_code: 1,
        duration_ms: 50,
    };

    assert_eq!(output.stderr, "error message");
    assert_eq!(output.exit_code, 1);
}

#[test]
fn test_device_status_memory_calculation() {
    let total = 8_000_000_000u64;
    let free = 2_000_000_000u64;
    let available = 5_000_000_000u64;

    let status = DeviceStatus {
        uptime_secs: 100,
        total_memory: total,
        free_memory: free,
        available_memory: available,
        load_average_1m: "0.5".to_string(),
        load_average_5m: "0.3".to_string(),
        load_average_15m: "0.2".to_string(),
    };

    assert_eq!(status.total_memory, total);
    assert!(status.free_memory < status.total_memory);
}

#[test]
fn test_shell_command_format_getprop() {
    let key = "ro.product.model";
    let command = format!("getprop {}", key);
    assert_eq!(command, "getprop ro.product.model");
}

#[test]
fn test_shell_command_format_setprop() {
    let key = "debug.sf.hwc";
    let value = "1";
    let command = format!("setprop {} {}", key, value);
    assert_eq!(command, "setprop debug.sf.hwc 1");
}

#[test]
fn test_shell_command_format_su() {
    let cmd = "ls -la";
    let su_cmd = format!("su -c '{}'", cmd.replace("'", "'\\''"));
    assert_eq!(su_cmd, "su -c 'ls -la'");
}

#[test]
fn test_shell_command_format_su_with_single_quotes() {
    let cmd = "echo 'hello world'";
    let su_cmd = format!("su -c '{}'", cmd.replace("'", "'\\''"));
    assert_eq!(su_cmd, "su -c 'echo '\\''hello world'\\'''");
}

#[test]
fn test_battery_percentage_calculation() {
    let battery = BatteryInfo {
        level: 50,
        scale: 100,
        percentage: 50,
        status: "Discharging".to_string(),
        health: "Good".to_string(),
        plugged: "".to_string(),
        voltage: 3700,
        temperature_tenths: 300,
        technology: "Li-ion".to_string(),
    };

    assert_eq!(battery.percentage, 50);
}

#[test]
fn test_device_status_uptime() {
    let status = DeviceStatus {
        uptime_secs: 86400,
        total_memory: 1_000_000,
        free_memory: 500_000,
        available_memory: 600_000,
        load_average_1m: "0.1".to_string(),
        load_average_5m: "0.1".to_string(),
        load_average_15m: "0.1".to_string(),
    };

    assert_eq!(status.uptime_secs, 86400);
}
