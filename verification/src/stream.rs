//! The log streaming engine as a pure state machine.
//!
//! The engine owns every decision of a streaming session: which parsed lines
//! pass the filter, and how the session moves through its lifecycle
//! `Idle -> Starting -> Streaming -> Draining -> Closed`, with `Failed`
//! reachable from `Starting` when the external source cannot be spawned.
//! The caller runs the loop: it spawns the long-running source, feeds each
//! line to [`LogStream::accept_line`], sends accepted entries to its
//! consumer, and on end-of-stream, consumer loss or cancellation calls
//! [`LogStream::begin_drain`], terminates the source, and only then
//! [`LogStream::close`].  Entries are only ever produced in `Streaming`, and
//! `Closed` can only be reached through `Draining`, so the shutdown order
//! (terminate the source before declaring the stream closed) is part of the
//! contract.

use vstd::prelude::*;

use crate::logcat::{spec_matches, spec_parse_logcat_line, LogcatEntry, LogcatFilter};

verus! {

/// Lifecycle of one streaming session.
#[derive(Debug, Clone, Copy, PartialEq, Eq, Structural)]
pub enum StreamState {
    /// Created, source not yet requested.
    Idle,
    /// The external source is being spawned.
    Starting,
    /// Lines are being read, filtered and delivered.
    Streaming,
    /// Delivery has stopped; the source is being terminated.
    Draining,
    /// The source is gone and no further entries will be delivered.
    Closed,
    /// Spawning the source failed; no background work was started.
    Failed,
}

/// One streaming session: its lifecycle state, the caller's filter, and a
/// count of the entries delivered so far.
pub struct LogStream {
    pub state: StreamState,
    pub filter: LogcatFilter,
    pub delivered: u64,
}

impl LogStream {
    /// A fresh idle session for the given filter.
    pub fn new(filter: LogcatFilter) -> (s: Self)
        ensures
            s.state == StreamState::Idle,
            s.filter == filter,
            s.delivered == 0,
    {
        LogStream { state: StreamState::Idle, filter, delivered: 0 }
    }

    /// The caller is about to spawn the external source.
    pub fn begin(&mut self)
        requires
            old(self).state == StreamState::Idle,
        ensures
            final(self).state == StreamState::Starting,
            final(self).filter == old(self).filter,
            final(self).delivered == old(self).delivered,
    {
        self.state = StreamState::Starting;
    }

    /// Records whether spawning the source succeeded.  On failure the
    /// session is terminal and no reading ever happens.
    pub fn spawn_result(&mut self, ok: bool)
        requires
            old(self).state == StreamState::Starting,
        ensures
            final(self).state == if ok {
                StreamState::Streaming
            } else {
                StreamState::Failed
            },
            final(self).filter == old(self).filter,
            final(self).delivered == old(self).delivered,
    {
        if ok {
            self.state = StreamState::Streaming;
        } else {
            self.state = StreamState::Failed;
        }
    }

    /// Decides one line read from the source: parses it with the log line
    /// grammars (every line yields an entry, blank lines the degenerate one)
    /// and applies the filter.  Returns the entry to deliver, or nothing when
    /// the filter rejects it.  Only legal while streaming, so nothing is ever
    /// delivered after draining began.
    pub fn accept_line(&mut self, line: &str) -> (r: Option<LogcatEntry>)
        requires
            old(self).state == StreamState::Streaming,
        ensures
            final(self).state == StreamState::Streaming,
            final(self).filter == old(self).filter,
            match spec_parse_logcat_line(line@) {
                Some(ev) => {
                    if spec_matches(old(self).filter@, ev) {
                        (match r {
                            Some(e) => e@ == ev,
                            None => false,
                        }) && final(self).delivered == if old(self).delivered < u64::MAX {
                            old(self).delivered + 1
                        } else {
                            old(self).delivered as int
                        }
                    } else {
                        r is None && final(self).delivered == old(self).delivered
                    }
                },
                None => r is None && final(self).delivered == old(self).delivered,
            },
    {
        match crate::logcat::parse_logcat_line(line) {
            Some(e) => {
                if self.filter.matches(&e) {
                    if self.delivered < u64::MAX {
                        self.delivered = self.delivered + 1;
                    }
                    Some(e)
                } else {
                    None
                }
            },
            None => None,
        }
    }

    /// Stops delivery: triggered by end-of-stream on the source, by the
    /// consumer going away, or by explicit cancellation.  The caller must
    /// now terminate the source and then call [`LogStream::close`].
    pub fn begin_drain(&mut self)
        requires
            old(self).state == StreamState::Streaming,
        ensures
            final(self).state == StreamState::Draining,
            final(self).filter == old(self).filter,
            final(self).delivered == old(self).delivered,
    {
        self.state = StreamState::Draining;
    }

    /// The source has been terminated; the session is closed for good.
    pub fn close(&mut self)
        requires
            old(self).state == StreamState::Draining,
        ensures
            final(self).state == StreamState::Closed,
            final(self).filter == old(self).filter,
            final(self).delivered == old(self).delivered,
    {
        self.state = StreamState::Closed;
    }
}

} // verus!
