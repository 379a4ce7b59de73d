//! Scenario tests for the streaming engine's state machine: the lifecycle,
//! filtered delivery, and failure on spawn.

use kira_core::logcat::{LogLevel, LogcatFilter};
use kira_core::stream::{LogStream, StreamState};

#[test]
fn stream_delivers_matching_lines_then_closes() {
    let filter = LogcatFilter {
        tag: Some("Net".to_string()),
        level: None,
        message_contains: None,
    };
    let mut stream = LogStream::new(filter);
    assert_eq!(stream.state, StreamState::Idle);

    stream.begin();
    assert_eq!(stream.state, StreamState::Starting);
    stream.spawn_result(true);
    assert_eq!(stream.state, StreamState::Streaming);

    let lines = [
        "01-15 10:00:00.001  10  11 I NetMonitor: up",
        "01-15 10:00:00.002  10  11 I Audio: beep",
        "01-15 10:00:00.003  10  11 W NetMonitor: slow",
        "01-15 10:00:00.004  10  11 E Camera: fail",
        "01-15 10:00:00.005  10  11 I NetMonitor: down",
    ];
    let mut delivered = Vec::new();
    for line in &lines {
        if let Some(entry) = stream.accept_line(line) {
            delivered.push(entry);
        }
    }
    assert_eq!(delivered.len(), 3);
    assert_eq!(stream.delivered, 3);
    assert!(delivered.iter().all(|e| e.tag.contains("Net")));
    assert_eq!(delivered[0].message, "up");
    assert_eq!(delivered[2].message, "down");

    // cancellation: stop delivery, terminate the source, then close
    stream.begin_drain();
    assert_eq!(stream.state, StreamState::Draining);
    stream.close();
    assert_eq!(stream.state, StreamState::Closed);
    assert_eq!(stream.delivered, 3);
}

#[test]
fn stream_spawn_failure_is_terminal() {
    let mut stream = LogStream::new(LogcatFilter::default());
    stream.begin();
    stream.spawn_result(false);
    assert_eq!(stream.state, StreamState::Failed);
    assert_eq!(stream.delivered, 0);
}

#[test]
fn stream_level_filtering() {
    let filter = LogcatFilter {
        tag: None,
        level: Some(LogLevel::Error),
        message_contains: None,
    };
    let mut stream = LogStream::new(filter);
    stream.begin();
    stream.spawn_result(true);
    assert!(stream
        .accept_line("01-15 10:00:00.001  1  2 I Tag: info line")
        .is_none());
    assert!(stream
        .accept_line("01-15 10:00:00.002  1  2 E Tag: error line")
        .is_some());
    assert!(stream
        .accept_line("01-15 10:00:00.003  1  2 F Tag: fatal line")
        .is_some());
    assert!(stream.accept_line("   ").is_none());
    assert_eq!(stream.delivered, 2);
}
