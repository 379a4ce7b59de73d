use kira_core::logcat::{
    filter_entries, parse_logcat_line, LogLevel, LogcatBuffer, LogcatEntry, LogcatError,
    LogcatFilter,
};

#[test]
fn test_log_level_from_char() {
    assert_eq!(LogLevel::from('V'), LogLevel::Verbose);
    assert_eq!(LogLevel::from('D'), LogLevel::Debug);
    assert_eq!(LogLevel::from('I'), LogLevel::Info);
    assert_eq!(LogLevel::from('W'), LogLevel::Warning);
    assert_eq!(LogLevel::from('E'), LogLevel::Error);
    assert_eq!(LogLevel::from('F'), LogLevel::Fatal);
    assert_eq!(LogLevel::from('S'), LogLevel::Silent);
}

#[test]
fn test_log_level_display() {
    assert_eq!(LogLevel::Verbose.as_str(), "V");
    assert_eq!(LogLevel::Info.as_str(), "I");
    assert_eq!(LogLevel::Error.as_str(), "E");
}

#[test]
fn test_logcat_buffer_as_str() {
    assert_eq!(LogcatBuffer::Main.as_str(), "main");
    assert_eq!(LogcatBuffer::System.as_str(), "system");
    assert_eq!(LogcatBuffer::Radio.as_str(), "radio");
}

#[test]
fn test_logcat_filter_default() {
    let filter = LogcatFilter::default();
    assert!(filter.level.is_some());
}

#[test]
fn test_logcat_filter_by_tag() {
    let filter = LogcatFilter {
        tag: Some("ActivityManager".to_string()),
        level: None,
        message_contains: None,
    };

    let entry = LogcatEntry {
        timestamp: "01-15 12:00:00.000".to_string(),
        pid: 1234,
        tid: 1234,
        level: LogLevel::Info,
        tag: "ActivityManager".to_string(),
        message: "Process started".to_string(),
        raw: String::new(),
    };

    assert!(filter.matches(&entry));

    let entry2 = LogcatEntry {
        tag: "OtherTag".to_string(),
        ..entry.clone()
    };

    assert!(!filter.matches(&entry2));
}

#[test]
fn test_logcat_filter_by_level() {
    let filter = LogcatFilter {
        tag: None,
        level: Some(LogLevel::Warning),
        message_contains: None,
    };

    let warning_entry = LogcatEntry {
        level: LogLevel::Warning,
        ..Default::default()
    };

    let error_entry = LogcatEntry {
        level: LogLevel::Error,
        ..Default::default()
    };

    let debug_entry = LogcatEntry {
        level: LogLevel::Debug,
        ..Default::default()
    };

    assert!(filter.matches(&warning_entry));
    assert!(filter.matches(&error_entry));
    assert!(!filter.matches(&debug_entry));
}

#[test]
fn test_logcat_filter_by_message() {
    let filter = LogcatFilter {
        tag: None,
        level: None,
        message_contains: Some("error".to_string()),
    };

    let entry1 = LogcatEntry {
        message: "An error occurred".to_string(),
        ..Default::default()
    };

    let entry2 = LogcatEntry {
        message: "Everything is fine".to_string(),
        ..Default::default()
    };

    assert!(filter.matches(&entry1));
    assert!(!filter.matches(&entry2));
}

#[test]
fn test_parse_logcat_threadtime_format() {
    let line = "01-15 12:00:00.123  1234  5678 I ActivityManager: Starting activity";

    let entry = parse_logcat_line(line).unwrap();

    assert_eq!(entry.pid, 1234);
    assert_eq!(entry.tid, 5678);
    assert_eq!(entry.level, LogLevel::Info);
    assert_eq!(entry.tag, "ActivityManager");
    assert!(entry.message.contains("Starting activity"));
}

#[test]
fn test_parse_logcat_brief_format() {
    let line = "[ActivityManager] I Starting activity";

    let entry = parse_logcat_line(line).unwrap();

    assert_eq!(entry.tag, "ActivityManager");
    assert_eq!(entry.level, LogLevel::Info);
    assert!(entry.message.contains("Starting activity"));
}

#[test]
fn test_parse_logcat_empty_line() {
    // every input line yields exactly one entry; a blank line becomes the
    // degenerate fallback with the trimmed (empty) text as its message
    let entry = parse_logcat_line("").unwrap();
    assert_eq!(entry.pid, 0);
    assert_eq!(entry.tid, 0);
    assert_eq!(entry.level, LogLevel::Debug);
    assert_eq!(entry.message, "");

    let entry2 = parse_logcat_line("   ").unwrap();
    assert_eq!(entry2.level, LogLevel::Debug);
    assert_eq!(entry2.message, "");
}

#[test]
fn test_parse_logcat_error_level() {
    let line = "01-15 12:00:00.123  1234  5678 E System: Error occurred";

    let entry = parse_logcat_line(line).unwrap();

    assert_eq!(entry.level, LogLevel::Error);
}

#[test]
fn test_parse_logcat_debug_level() {
    let line = "01-15 12:00:00.123  1234  5678 D MyApp: Debug message";

    let entry = parse_logcat_line(line).unwrap();

    assert_eq!(entry.level, LogLevel::Debug);
}

#[test]
fn test_filter_entries_function() {
    let entries = vec![
        LogcatEntry {
            tag: "ActivityManager".to_string(),
            level: LogLevel::Info,
            message: "Starting".to_string(),
            ..Default::default()
        },
        LogcatEntry {
            tag: "MyApp".to_string(),
            level: LogLevel::Debug,
            message: "Debug info".to_string(),
            ..Default::default()
        },
    ];

    let filter = LogcatFilter {
        tag: Some("ActivityManager".to_string()),
        level: None,
        message_contains: None,
    };

    let filtered = filter_entries(entries, filter);

    assert_eq!(filtered.len(), 1);
    assert_eq!(filtered[0].tag, "ActivityManager");
}

#[test]
fn test_logcat_entry_default() {
    let entry = LogcatEntry::default();

    assert_eq!(entry.pid, 0);
    assert_eq!(entry.level, LogLevel::Debug);
    assert!(entry.raw.is_empty());
}

#[test]
fn test_logcat_error_display() {
    let err = LogcatError::DeviceNotFound;
    assert!(err.message().contains("Device"));

    let err2 = LogcatError::IOError("test".to_string());
    assert!(err2.message().contains("IO Error"));

    let err3 = LogcatError::ParseError("parse failed".to_string());
    assert!(err3.message().contains("Parse Error"));

    let err4 = LogcatError::StreamClosed;
    assert!(err4.message().contains("closed"));
}

#[test]
fn test_multiple_tags_filter() {
    let filter = LogcatFilter {
        tag: Some("Activity".to_string()),
        level: None,
        message_contains: None,
    };

    let entry1 = LogcatEntry {
        tag: "ActivityManager".to_string(),
        level: LogLevel::Info,
        ..Default::default()
    };

    let entry2 = LogcatEntry {
        tag: "ActivityTaskManager".to_string(),
        level: LogLevel::Info,
        ..Default::default()
    };

    let entry3 = LogcatEntry {
        tag: "WindowManager".to_string(),
        level: LogLevel::Info,
        ..Default::default()
    };

    assert!(filter.matches(&entry1));
    assert!(filter.matches(&entry2));
    assert!(!filter.matches(&entry3));
}

#[test]
fn test_case_sensitive_tag_filter() {
    let filter = LogcatFilter {
        tag: Some("activity".to_string()),
        level: None,
        message_contains: None,
    };

    let entry = LogcatEntry {
        tag: "ActivityManager".to_string(),
        ..Default::default()
    };

    assert!(!filter.matches(&entry));
}

#[test]
fn test_logcat_entry_clone() {
    let entry = LogcatEntry {
        timestamp: "01-15 12:00:00".to_string(),
        pid: 1234,
        tid: 5678,
        level: LogLevel::Error,
        tag: "MyApp".to_string(),
        message: "Error message".to_string(),
        raw: "raw line".to_string(),
    };

    let cloned = entry.clone();

    assert_eq!(entry.timestamp, cloned.timestamp);
    assert_eq!(entry.pid, cloned.pid);
    assert_eq!(entry.tag, cloned.tag);
}
