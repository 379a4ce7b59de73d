use kira_core::process::{MemoryInfo, ProcessError, ProcessInfo};

#[test]
fn test_process_info_creation() {
    let process = ProcessInfo {
        pid: 1234,
        name: "com.example.app".to_string(),
        user: "u0_a123".to_string(),
    };

    assert_eq!(process.pid, 1234);
    assert_eq!(process.name, "com.example.app");
    assert_eq!(process.user, "u0_a123");
}

#[test]
fn test_process_info_clone() {
    let original = ProcessInfo {
        pid: 1234,
        name: "com.example.app".to_string(),
        user: "u0_a123".to_string(),
    };

    let cloned = original.clone();
    assert_eq!(original, cloned);
}

#[test]
fn test_memory_info_creation() {
    let memory = MemoryInfo {
        total: "1024000".to_string(),
        free: "512000".to_string(),
        used: "512000".to_string(),
        threshold: "102400".to_string(),
        low_memory: false,
    };

    assert_eq!(memory.total, "1024000");
    assert!(!memory.low_memory);
}

#[test]
fn test_memory_info_low_memory() {
    let memory = MemoryInfo {
        total: "1024000".to_string(),
        free: "512000".to_string(),
        used: "512000".to_string(),
        threshold: "102400".to_string(),
        low_memory: true,
    };

    assert!(memory.low_memory);
}

#[test]
fn test_process_error_display() {
    let err_not_found = ProcessError::ProcessNotFound(1234);
    assert!(err_not_found.message().contains("1234"));

    let err_package = ProcessError::PackageNotFound("com.test.app".to_string());
    assert!(err_package.message().contains("com.test.app"));

    let err_permission = ProcessError::PermissionDenied;
    assert!(err_permission.message().contains("Permission"));

    let err_command = ProcessError::CommandFailed("test error".to_string());
    assert!(err_command.message().contains("test error"));
}

#[test]
fn test_process_error_partial_eq() {
    assert_eq!(
        ProcessError::ProcessNotFound(1),
        ProcessError::ProcessNotFound(1)
    );
    assert_ne!(
        ProcessError::ProcessNotFound(1),
        ProcessError::ProcessNotFound(2)
    );

    assert_eq!(
        ProcessError::PackageNotFound("com.app".to_string()),
        ProcessError::PackageNotFound("com.app".to_string())
    );
    assert_ne!(
        ProcessError::PackageNotFound("com.app1".to_string()),
        ProcessError::PackageNotFound("com.app2".to_string())
    );

    assert_eq!(
        ProcessError::PermissionDenied,
        ProcessError::PermissionDenied
    );
}

#[test]
fn test_ps_output_parsing() {
    let ps_output = "USER           PID  PPID     VSZ    RSS WCHAN            ADDR S NAME\n\
                     u0_a123        1234     1   10240   5120 0                   0 S com.example.app\n\
                     u0_a456        5678     1   20480   8192 0                   0 S system_server";

    let processes: Vec<ProcessInfo> = ps_output
        .lines()
        .skip(1)
        .filter_map(|line| {
            let parts: Vec<&str> = line.split_whitespace().collect();
            if parts.len() >= 9 {
                let user = parts[0].to_string();
                let pid = parts[1].parse::<u32>().ok()?;
                let name = parts.last()?.to_string();
                Some(ProcessInfo { pid, name, user })
            } else {
                None
            }
        })
        .collect();

    assert_eq!(processes.len(), 2);
    assert_eq!(processes[0].pid, 1234);
    assert_eq!(processes[0].name, "com.example.app");
    assert_eq!(processes[1].pid, 5678);
    assert_eq!(processes[1].name, "system_server");
}

#[test]
fn test_package_name_filter() {
    let processes = vec![
        ProcessInfo {
            pid: 1,
            name: "com.paget96.batteryguru".to_string(),
            user: "u0_a123".to_string(),
        },
        ProcessInfo {
            pid: 2,
            name: "com.android.phone".to_string(),
            user: "u0_a456".to_string(),
        },
        ProcessInfo {
            pid: 3,
            name: "batteryguru_helper".to_string(),
            user: "u0_a789".to_string(),
        },
    ];

    let matching: Vec<ProcessInfo> = processes
        .into_iter()
        .filter(|p| p.name.contains("batteryguru"))
        .collect();

    assert_eq!(matching.len(), 2);
}

#[test]
fn test_kill_command_format() {
    let pid = 12345;
    let command = format!("kill {}", pid);
    assert_eq!(command, "kill 12345");
}

#[test]
fn process_test_am_force_stop_command_format() {
    let package = "com.paget96.batteryguru";
    let command = format!("am force-stop {}", package);
    assert_eq!(command, "am force-stop com.paget96.batteryguru");
}

#[test]
fn test_proc_status_parsing() {
    let status_output = "Name:\tcom.example.app\n\
                        State:\tS (sleeping)\n\
                        Pid:\t1234\n\
                        VmRSS:\t512000 kB\n\
                        VmSize:\t1024000 kB";

    let mut mem_used = String::new();

    for line in status_output.lines() {
        if line.starts_with("VmRSS:") {
            mem_used = line.split_whitespace().nth(1).unwrap_or("0").to_string();
        }
    }

    assert_eq!(mem_used, "512000");
}

#[test]
fn test_process_error_debug() {
    let err = ProcessError::ProcessNotFound(999);
    let debug_str = format!("{:?}", err);
    assert!(debug_str.contains("ProcessNotFound"));
    assert!(debug_str.contains("999"));
}
