//! Parsing and streaming layer for device telemetry.
//!
//! The library turns loosely structured diagnostic command output into typed
//! records (memory, battery, CPU, processes, packages, files, log lines) and
//! drives a cancellable, filtered log stream as a pure state machine.  All
//! transport (issuing commands, spawning the log source) is left to the
//! caller; every function here is total over plain text input.

pub mod app_manager;
pub mod fastboot;
pub mod file_manager;
pub mod info;
pub mod logcat;
pub mod performance;
pub mod process;
pub mod root;
pub mod shell;
pub mod stream;
pub mod text;

pub use logcat::filter_entries;
pub use logcat::parse_logcat_line;
pub use logcat::LogcatBuffer;
pub use logcat::LogcatEntry;
pub use logcat::LogcatError;
pub use logcat::LogcatFilter;
pub use logcat::LogLevel;
pub use stream::LogStream;
pub use stream::StreamState;
