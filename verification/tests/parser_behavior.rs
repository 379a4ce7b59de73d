//! Scenario tests for the report parsers: mandatory-key behaviour, listing
//! aggregates, per-line tolerance, and the snapshot assemblers.

use kira_core::app_manager::{
    package_list_command, parse_app_info, parse_app_permissions, parse_install_output,
    parse_launcher_activity, parse_package_list, parse_uninstall_output, InstallLocation,
    PackageFilter, PermissionStatus,
};
use kira_core::fastboot::{FastbootDeviceInfo, FastbootError, FlashPartition, slot_supported};
use kira_core::file_manager::{
    file_basename, file_stem_of, get_file_type, parse_directory_listing, parse_ls_line,
    parse_quick_storage, parse_storage_info, FileCategory,
};
use kira_core::info::{assemble_device_info, extract_refresh_rate, max_refresh_rate_from_text,
    parse_battery, parse_storage_df};
use kira_core::logcat::{parse_buffer_list, parse_log_buffer, LogLevel, LogcatEntry, LogcatFilter};
use kira_core::performance::{
    build_performance_profile, parse_battery_info, parse_cpu_stat, parse_meminfo, parse_uptime,
    PerformanceError,
};
use kira_core::process::{
    filter_processes_by_package, force_stop_outcome, kill_outcome, parse_process_list,
    parse_process_memory, parse_services, ProcessError, ProcessInfo,
};
use kira_core::root::{output_indicates_root, root_status_from, su_probe_found, RootStatus};
use kira_core::shell::{interpret_output, parse_battery_dump, parse_device_status,
    parse_file_entries, parse_mounts, parse_networks, su_command};

// Mandatory keys decide between a parsed report and the structural failure.
#[test]
fn battery_report_requires_level() {
    let with_level = "status: 2\nlevel: 42\nvoltage: 4000\ntemperature: 250";
    let without_level = "status: 2\nvoltage: 4000\ntemperature: 250";

    let parsed = parse_battery_info(with_level).unwrap();
    assert_eq!(parsed.level, 42);
    assert_eq!(parsed.voltage, 4000);
    assert_eq!(parsed.temperature, 250);

    assert_eq!(parse_battery_info(without_level), None);
}

#[test]
fn memory_report_requires_total() {
    let with_total = "MemTotal: 2048 kB\nMemFree: 100 kB";
    let without_total = "MemFree: 100 kB\nMemAvailable: 50 kB";
    let zero_total = "MemTotal: 0 kB\nMemFree: 100 kB";

    let parsed = parse_meminfo(with_total).unwrap();
    assert_eq!(parsed.total_kb, 2048);
    assert_eq!(parsed.free_kb, 100);
    assert_eq!(parsed.available_kb, 0);

    assert_eq!(parse_meminfo(without_total), None);
    assert_eq!(parse_meminfo(zero_total), None);
}

// Directory listing aggregates: files + dirs == entries, size sums non-dirs.
#[test]
fn directory_listing_aggregates() {
    let output = "total 64\n\
        drwxr-xr-x 2 root root 4096 1640000000 12:00 x Pictures\n\
        -rw-r--r-- 1 root root  100 1640000001 12:00 x a.txt\n\
        -rw-r--r-- 1 root root  250 1640000002 12:00 x b c.txt\n\
        garbage line\n\
        drwxr-xr-x 4 root root 4096 1640000003 12:00 x Movies\n\
        -rw-r--r-- 1 root root    7 1640000004 12:00 x d.bin";

    let listing = parse_directory_listing(output, "/sdcard");
    assert_eq!(listing.files.len(), 5);
    assert_eq!(listing.total_dirs, 2);
    assert_eq!(listing.total_files, 3);
    assert_eq!(listing.total_files + listing.total_dirs, listing.files.len());
    assert_eq!(listing.total_size, 100 + 250 + 7);
    assert_eq!(listing.parent_path, Some("/".to_string()));
    assert_eq!(listing.files[2].name, "b c.txt");
    assert_eq!(listing.files[2].path, "/sdcard/b c.txt");
}

#[test]
fn ls_line_grammar() {
    let line = "-rw-r--r-- 1 root sdcard_rw 1024 1640000000 12:00 x notes with spaces.txt";
    let fi = parse_ls_line(line, "/sdcard/").unwrap();
    assert_eq!(fi.name, "notes with spaces.txt");
    assert_eq!(fi.path, "/sdcard/notes with spaces.txt");
    assert_eq!(fi.size, 1024);
    assert_eq!(fi.owner, Some("root".to_string()));
    assert_eq!(fi.group, Some("sdcard_rw".to_string()));
    assert_eq!(fi.modified, Some(1640000000));
    assert!(!fi.is_directory);

    // dot entries are dropped, short lines do not match
    assert!(parse_ls_line("drwxr-xr-x 2 root root 4096 1640000000 12:00 x .", "/sdcard").is_none());
    assert!(parse_ls_line("too short line", "/sdcard").is_none());
}

// Log buffer parsing yields exactly one entry per input line, blank lines
// included.
#[test]
fn log_buffer_entry_per_line() {
    let text = "01-15 10:30:45.123  1234  5678 I Tag: hello\n\
\n\
complete garbage line\n\
[Tag] W bracketed message\n\
\t \n\
another stray line";
    let entries = parse_log_buffer(text);
    // six input lines, six entries, in order
    assert_eq!(entries.len(), text.lines().count());
    assert_eq!(entries.len(), 6);
    assert_eq!(entries[0].pid, 1234);
    assert_eq!(entries[1].message, "");
    assert_eq!(entries[2].message, "complete garbage line");
    assert_eq!(entries[3].tag, "Tag");
    assert_eq!(entries[4].message, "");
    assert_eq!(entries[5].message, "another stray line");
}

#[test]
fn buffer_list_report() {
    let text = "main: ring buffer is 256Kb (255Kb consumed), max entry is 5120b\n\
        unrelated line\n\
        system: ring buffer is 256Kb (80Kb consumed), max entry is 5120b";
    let buffers = parse_buffer_list(text);
    assert_eq!(buffers, vec!["main".to_string(), "system".to_string()]);
}

// Storage reports.
#[test]
fn storage_info_for_path() {
    let output = "Filesystem     1K-blocks     Used Available Use% Mounted on\n\
        /dev/block/dm-5 61087724 51941784   9013172  86% /data";
    let info = parse_storage_info(output, "/data").unwrap();
    assert_eq!(info.filesystem, "/dev/block/dm-5");
    assert_eq!(info.total_bytes, 61087724 * 1024);
    assert_eq!(info.used_bytes, 51941784 * 1024);
    assert_eq!(info.free_bytes, 9013172 * 1024);
    assert_eq!(info.percentage_used, 85);
    assert_eq!(info.path, "/data");

    assert!(parse_storage_info("nothing here", "/data").is_none());
}

#[test]
fn quick_storage_overview() {
    let output = "Filesystem 1K-blocks Used Available Use% Mounted on\n\
        /dev/block/dm-5 1000 400 600 40% /data\n\
        remote:/share 500 100 400 20% /mnt/remote:/x\n\
        tmpfs 200 50 150 25% /dev";
    let all = parse_quick_storage(output);
    assert_eq!(all.len(), 2);
    assert_eq!(all[0].path, "/data");
    assert_eq!(all[0].total_bytes, 1000 * 1024);
    assert_eq!(all[0].percentage_used, 40);
    assert_eq!(all[1].path, "/dev");
}

#[test]
fn storage_summary_line() {
    let s = parse_storage_df("/dev/block/dm-5 61087724 51941784 9013172 86% /data").unwrap();
    assert_eq!(s.total, "61087724");
    assert_eq!(s.used, "51941784");
    assert_eq!(s.free, "9013172");
    assert!(parse_storage_df("only two tokens").is_none());
}

// Path helpers and file types.
#[test]
fn path_helpers() {
    assert_eq!(file_basename("/a/b/c.txt"), "c.txt");
    assert_eq!(file_basename("/a/b/"), "b");
    assert_eq!(file_basename("/"), "");
    assert_eq!(file_stem_of("/data/app/MyApp-1.2.apk"), "MyApp-1.2");
    assert_eq!(file_stem_of(".hidden"), ".hidden");
}

#[test]
fn file_type_uppercase_extension_is_folded() {
    let t = get_file_type("/x/PHOTO.JPG");
    assert_eq!(t.extension, Some("jpg".to_string()));
    assert_eq!(t.category, FileCategory::Image);
}

// Refresh rate extraction.
#[test]
fn refresh_rate_lines() {
    assert_eq!(extract_refresh_rate("refreshRate=60.0"), Some(60));
    assert_eq!(extract_refresh_rate("  RefreshRate: 119.88 Hz"), Some(119));
    assert_eq!(extract_refresh_rate("refreshrate 90"), Some(90));
    assert_eq!(extract_refresh_rate("no marker here"), None);
    assert_eq!(extract_refresh_rate("refreshRate=abc"), None);

    let dump = "mode 1 refreshRate=60.0\nmode 2 refreshRate=120.0\nmode 3 RefreshRate: 90.0";
    assert_eq!(max_refresh_rate_from_text(dump), Some(120));
    assert_eq!(max_refresh_rate_from_text("nothing relevant"), None);
}

// Identity snapshot: each field independent of the others.
#[test]
fn device_snapshot_fields_are_independent() {
    let info = assemble_device_info(
        "SER123",
        Some("Pixel".to_string()),
        None,
        Some("14".to_string()),
        None,
        None,
        "level: 77",
        Some("/dev/block 100 40 60".to_string()),
        None,
        Some("refreshRate=120.0".to_string()),
        Some("2024-01-05".to_string()),
        None,
    );
    assert_eq!(info.serial, "SER123");
    assert_eq!(info.model, Some("Pixel".to_string()));
    assert_eq!(info.manufacturer, None);
    assert_eq!(info.battery, Some(77));
    let storage = info.storage.unwrap();
    assert_eq!(storage.total, "100");
    assert_eq!(storage.used, "40");
    assert_eq!(storage.free, "60");
    assert_eq!(info.refresh_rate, Some(120));
    let build = info.build.unwrap();
    assert_eq!(build.security_patch, Some("2024-01-05".to_string()));
    assert_eq!(build.build_id, None);
}

// The composite performance profile keeps per-probe outcomes independent.
#[test]
fn performance_profile_partial_failure() {
    let profile = build_performance_profile(
        Ok("MemTotal: 1000 kB\nMemFree: 100 kB\nMemAvailable: 300 kB".to_string()),
        Err(PerformanceError::CommandFailed("transport down".to_string())),
        Ok("cpu  1 2 3 4 5 6 7 8\ncpu0 10 20 30 40 50 60 70 80\ncpu1 11 21 31 41 51 61 71 81".to_string()),
        Ok("1608000\n2016000".to_string()),
        Ok("no flips here".to_string()),
        Ok("54321.99 1234.5".to_string()),
        77,
    );
    let mem = profile.memory.unwrap();
    assert_eq!(mem.total_kb, 1000);
    assert_eq!(mem.available_kb, 300);
    assert!(matches!(
        profile.battery,
        Err(PerformanceError::CommandFailed(_))
    ));
    let cpus = profile.cpu.unwrap();
    assert_eq!(cpus.len(), 2);
    assert_eq!(cpus[0].times.user, 10);
    assert_eq!(cpus[0].speed_mhz, Some(1608));
    assert_eq!(cpus[1].speed_mhz, Some(2016));
    assert!(matches!(profile.fps, Err(PerformanceError::ParseError(_))));
    assert_eq!(profile.uptime.unwrap(), 54321);
}

#[test]
fn uptime_whole_seconds() {
    assert_eq!(parse_uptime("12345.67 23456.78"), 12345);
    assert_eq!(parse_uptime("not a number"), 0);
    assert_eq!(parse_uptime(""), 0);
}

// Shell output classification and quoting.
#[test]
fn command_output_classification() {
    let ok = interpret_output("all good", 5);
    assert_eq!(ok.stdout, "all good");
    assert_eq!(ok.stderr, "");
    assert_eq!(ok.exit_code, 0);
    assert_eq!(ok.duration_ms, 5);

    let bad = interpret_output("partial result\nerror: no such tool", 9);
    assert_eq!(bad.stdout, "partial result");
    assert_eq!(bad.stderr, "error: no such tool");
    assert_eq!(bad.exit_code, 1);
}

#[test]
fn su_quoting() {
    assert_eq!(su_command("ls -la"), "su -c 'ls -la'");
    assert_eq!(
        su_command("echo 'hello world'"),
        "su -c 'echo '\\''hello world'\\'''"
    );
}

#[test]
fn device_status_report() {
    let status = parse_device_status(
        "12345.67 23456.78",
        "MemTotal: 1024 kB\nMemFree: 512 kB\nMemAvailable: 256 kB",
        "1.5 1.2 abc 2/300 4567",
    );
    assert_eq!(status.uptime_secs, 12345);
    assert_eq!(status.total_memory, 1024 * 1024);
    assert_eq!(status.free_memory, 512 * 1024);
    assert_eq!(status.available_memory, 256 * 1024);
    assert_eq!(status.load_average_1m, "1.5");
    assert_eq!(status.load_average_5m, "1.2");
    assert_eq!(status.load_average_15m, "0");
}

#[test]
fn mounts_report() {
    let output = "/dev/block/dm-5 /data ext4 rw,seclabel 0 0\nshort line";
    let mounts = parse_mounts(output);
    assert_eq!(mounts.len(), 1);
    assert_eq!(mounts[0].device, "/dev/block/dm-5");
    assert_eq!(mounts[0].mount_point, "/data");
    assert_eq!(mounts[0].fs_type, "ext4");
    assert_eq!(mounts[0].options, "rw,seclabel");
}

#[test]
fn network_report() {
    let output = "1: lo: <LOOPBACK,UP,LOWER_UP> mtu 65536 qdisc noqueue state UNKNOWN\n\
        inet 127.0.0.1/8 scope host lo\n\
        2: wlan0: <BROADCAST,MULTICAST,UP,LOWER_UP> mtu 1500 qdisc mq state UP\n\
        inet 192.168.1.100/24 brd 192.168.1.255 scope global wlan0\n\
        3: dummy0: <BROADCAST> mtu 1500 qdisc noop state DOWN";
    let ifaces = parse_networks(output);
    assert_eq!(ifaces.len(), 2);
    assert_eq!(ifaces[0].name, "wlan0");
    assert_eq!(ifaces[0].state, "UP");
    assert_eq!(ifaces[0].ip_address, "192.168.1.100");
    assert_eq!(ifaces[1].name, "dummy0");
    assert_eq!(ifaces[1].state, "DOWN");
    assert_eq!(ifaces[1].ip_address, "");
}

#[test]
fn full_battery_dump() {
    let output = "Current Battery Service state:\n\
        level: 85\n\
        scale: 100\n\
        status: 2\n\
        health: 2\n\
        plugged: 1\n\
        voltage: 4123\n\
        temperature: 320\n\
        technology: Li-poly";
    let b = parse_battery_dump(output);
    assert_eq!(b.level, 85);
    assert_eq!(b.scale, 100);
    assert_eq!(b.percentage, 85);
    assert_eq!(b.status, "2");
    assert_eq!(b.voltage, 4123);
    assert_eq!(b.temperature_tenths, 320);
    assert_eq!(b.technology, "Li-poly");
}

// Process reports and outcomes.
#[test]
fn process_list_report() {
    let output = "USER PID PPID VSZ RSS WCHAN ADDR S NAME\n\
        u0_a1 100 1 10 5 0 0 S com.app.one\n\
        bad line\n\
        u0_a2 200 1 20 8 0 0 S com.app.two";
    let ps = parse_process_list(output);
    assert_eq!(ps.len(), 2);
    assert_eq!(ps[0].pid, 100);
    assert_eq!(ps[0].user, "u0_a1");
    assert_eq!(ps[1].name, "com.app.two");
}

#[test]
fn process_memory_report() {
    let mem = parse_process_memory(
        "Name:\tapp\nVmSize:\t1024000 kB\nVmRSS:\t512000 kB",
        "MemFree: 200000 kB\nMemAvailable: 300000 kB\nLowMemory: yes",
    );
    assert_eq!(mem.total, "1024000");
    assert_eq!(mem.used, "512000");
    assert_eq!(mem.free, "200000");
    assert_eq!(mem.threshold, "300000");
    assert!(mem.low_memory);
}

#[test]
fn services_report() {
    let output = "  * Service[com.example/.Svc] something\nno marker\n  * Service[other.pkg/.S2]";
    let svcs = parse_services(output);
    assert_eq!(
        svcs,
        vec!["com.example/.Svc".to_string(), "other.pkg/.S2".to_string()]
    );
}

#[test]
fn process_filter_by_package() {
    let procs = vec![
        ProcessInfo { pid: 1, name: "com.paget96.batteryguru".to_string(), user: "a".to_string() },
        ProcessInfo { pid: 2, name: "com.android.phone".to_string(), user: "b".to_string() },
        ProcessInfo { pid: 3, name: "batteryguru_helper".to_string(), user: "c".to_string() },
    ];
    let matched = filter_processes_by_package(procs, "batteryguru");
    assert_eq!(matched.len(), 2);
    assert_eq!(matched[0].pid, 1);
    assert_eq!(matched[1].pid, 3);
}

#[test]
fn kill_outcomes() {
    assert_eq!(kill_outcome(""), Ok(()));
    assert_eq!(
        kill_outcome("kill: Operation not permitted"),
        Err(ProcessError::PermissionDenied)
    );
    assert_eq!(force_stop_outcome("", "com.x"), Ok(()));
    assert_eq!(
        force_stop_outcome("Error: unknown package", "com.x"),
        Err(ProcessError::PackageNotFound("com.x".to_string()))
    );
}

// The battery level line's value is all text after the first colon.
#[test]
fn battery_level_value_is_whole_remainder() {
    assert_eq!(parse_battery("level: 42"), Some(42));
    // trailing text after a second colon makes the value unparsable
    assert_eq!(parse_battery("level:12:34"), None);
}

// Only cpu<digits> first tokens name a core.
#[test]
fn cpu_lines_require_numbered_core() {
    assert_eq!(parse_cpu_stat("cpufoo 1 2 3 4 5 6 7 8").len(), 0);
    assert_eq!(parse_cpu_stat("cpu 1 2 3 4 5 6 7 8").len(), 0);
    assert_eq!(parse_cpu_stat("cpu7 1 2 3 4 5 6 7 8").len(), 1);
}

// Root probes.
#[test]
fn root_probes() {
    assert!(output_indicates_root("uid=0(root) gid=0(root)"));
    assert!(!output_indicates_root("uid=2000(shell)"));
    assert!(su_probe_found("-rwxr-xr-x 1 root root 100 /system/bin/su"));
    assert!(!su_probe_found("ls: /system/bin/su: No such file or directory"));
    assert_eq!(root_status_from(true, false), RootStatus::Rooted);
    assert_eq!(root_status_from(false, true), RootStatus::SuBinaryExists);
    assert_eq!(root_status_from(false, false), RootStatus::NotRooted);
}

// Package management.
#[test]
fn package_listing() {
    let output = "package:com.example.app\nnoise\npackage:org.other";
    assert_eq!(
        parse_package_list(output),
        vec!["com.example.app".to_string(), "org.other".to_string()]
    );
    assert_eq!(package_list_command(PackageFilter::All), "pm list packages ");
    assert_eq!(
        package_list_command(PackageFilter::ThirdParty),
        "pm list packages -3"
    );
}

#[test]
fn app_dump_scan() {
    let dump = "Package [com.example.app]\n\
        versionName=2.3.4\n\
        versionCode=234 minSdk=26\n\
        pkgFlags=SYSTEM HAS_CODE\n\
        installLocation=auto\n\
        codePath=/data/app/com.example.app\n\
        enabled=true for user 0";
    let info = parse_app_info(dump, "com.example.app");
    assert_eq!(info.package_name, "com.example.app");
    assert_eq!(info.version_name, Some("2.3.4".to_string()));
    assert_eq!(info.version_code, Some(234));
    assert_eq!(info.install_location, InstallLocation::Auto);
    assert!(info.is_system_app);
    assert!(info.is_enabled);
    assert_eq!(info.apk_path, Some("/data/app/com.example.app".to_string()));
    assert_eq!(info.label, None);

    // a dump with none of the attribute prefixes still yields a record
    let bare = parse_app_info("nothing known", "com.x");
    assert_eq!(bare.version_name, None);
    assert_eq!(bare.install_location, InstallLocation::Unknown);
    assert!(bare.is_enabled);
}

#[test]
fn permission_dump_scan() {
    let dump = "  android.permission.INTERNET: granted=true [x]\n\
        ignored line\n\
        [name=android.permission.CAMERA] granted=false";
    let perms = parse_app_permissions(dump, "com.x");
    assert_eq!(perms.package_name, "com.x");
    assert_eq!(perms.permissions.len(), 1);
    assert_eq!(perms.permissions[0].name, "android.permission.CAMERA");
    assert_eq!(perms.permissions[0].status, PermissionStatus::Denied);
}

#[test]
fn install_outcomes() {
    let ok = parse_install_output("Performing Streamed Install\nSuccess", "/tmp/My-App.apk");
    assert!(ok.success);
    assert_eq!(ok.message, "App installed successfully");
    assert_eq!(ok.package_name, Some("My-App".to_string()));

    let bad = parse_install_output("Failure [INSTALL_FAILED_INVALID_APK]", "/tmp/My-App.apk");
    assert!(!bad.success);
    assert!(bad.message.contains("INSTALL_FAILED_INVALID_APK"));
    assert_eq!(bad.package_name, None);

    let gone = parse_uninstall_output("Success", false);
    assert!(gone.success);
    assert_eq!(gone.message, "App uninstalled successfully");
    let kept = parse_uninstall_output("Success", true);
    assert_eq!(kept.message, "App uninstalled (data kept)");
    let failed = parse_uninstall_output("Failure [DELETE_FAILED_INTERNAL_ERROR]", false);
    assert!(!failed.success);
}

#[test]
fn launcher_resolution() {
    assert_eq!(
        parse_launcher_activity("com.example/.Main\n"),
        Some("com.example/.Main".to_string())
    );
    assert_eq!(parse_launcher_activity("   "), None);
    assert_eq!(parse_launcher_activity("error: null match"), None);
}

// Bootloader-side decisions.
#[test]
fn fastboot_decisions() {
    assert!(slot_supported(Ok("yes".to_string())));
    assert!(!slot_supported(Ok("no".to_string())));
    assert!(!slot_supported(Err("io".to_string())));

    assert_eq!(FlashPartition::Boot.as_str(), "boot");
    assert_eq!(
        FlashPartition::Custom("vbmeta".to_string()).as_str(),
        "vbmeta"
    );

    let info = FastbootDeviceInfo::from_vars(
        Err("read failed".to_string()),
        Some("panther".to_string()),
        None,
        None,
        Some("slider-1.2".to_string()),
        None,
    );
    assert_eq!(info.serial, "unknown");
    assert_eq!(info.product, Some("panther".to_string()));
    assert_eq!(info.bootloader, Some("slider-1.2".to_string()));

    let bare = FastbootDeviceInfo::from_serial(Some("ABC".to_string()));
    assert_eq!(bare.serial, "ABC");
    assert_eq!(bare.model, None);

    let err = FastbootError::ProtocolError("bad reply".to_string());
    assert!(err.message().contains("bad reply"));
}

// A filter with several conditions set matches an entry exactly when each
// single-condition filter matches it on its own.
#[test]
fn filter_conjunction_decomposes() {
    let combined = LogcatFilter {
        tag: Some("Net".to_string()),
        level: Some(LogLevel::Warning),
        message_contains: Some("drop".to_string()),
    };
    let tag_only = LogcatFilter {
        tag: Some("Net".to_string()),
        level: None,
        message_contains: None,
    };
    let level_only = LogcatFilter {
        tag: None,
        level: Some(LogLevel::Warning),
        message_contains: None,
    };
    let msg_only = LogcatFilter {
        tag: None,
        level: None,
        message_contains: Some("drop".to_string()),
    };

    let entries = [
        ("NetMonitor", LogLevel::Error, "packet drop"),
        ("NetMonitor", LogLevel::Info, "packet drop"),
        ("Audio", LogLevel::Error, "packet drop"),
        ("NetMonitor", LogLevel::Error, "all fine"),
        ("Audio", LogLevel::Debug, "all fine"),
    ];
    for (tag, level, message) in entries {
        let e = LogcatEntry {
            tag: tag.to_string(),
            level,
            message: message.to_string(),
            ..Default::default()
        };
        assert_eq!(
            combined.matches(&e),
            tag_only.matches(&e) && level_only.matches(&e) && msg_only.matches(&e)
        );
    }
}
