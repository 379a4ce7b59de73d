//! Log line grammars, log levels, filters and the entry record.
//!
//! Two competing line grammars are tried in order: the threadtime layout
//! (`timestamp pid tid level tag: message`) and the brief layout
//! (`[tag] level message`).  A line matching neither — a blank line included
//! — becomes a degenerate entry carrying the trimmed line as its message, so
//! every input line yields exactly one entry, never a hard parse error.

use vstd::prelude::*;

use crate::text::{
    contains_sub, find_char, join_from, lemma_split_ws_nonempty, parse_u32, spec_contains,
    spec_find_char, spec_join_from, spec_lines, spec_parse_u32, spec_split_ws, spec_trim,
    spec_trim_char, split_lines, split_ws, trim, trim_char,
};

verus! {

// ---------------------------------------------------------------------------
// Log levels
// ---------------------------------------------------------------------------
/// Severity of a log entry, from least to most severe.
#[derive(Debug, Clone, Copy, PartialEq, Eq, PartialOrd, Ord)]
pub enum LogLevel {
    Verbose,
    Debug,
    Info,
    Warning,
    Error,
    Fatal,
    Silent,
}

/// Position of a level in the severity order
/// `Verbose < Debug < Info < Warning < Error < Fatal < Silent`.
pub open spec fn level_rank(l: LogLevel) -> int {
    match l {
        LogLevel::Verbose => 0,
        LogLevel::Debug => 1,
        LogLevel::Info => 2,
        LogLevel::Warning => 3,
        LogLevel::Error => 4,
        LogLevel::Fatal => 5,
        LogLevel::Silent => 6,
    }
}

/// The level a single-character level code denotes; unknown codes fall back
/// to `Debug`.
pub open spec fn level_from_char(c: char) -> LogLevel {
    if c == 'V' {
        LogLevel::Verbose
    } else if c == 'D' {
        LogLevel::Debug
    } else if c == 'I' {
        LogLevel::Info
    } else if c == 'W' {
        LogLevel::Warning
    } else if c == 'E' {
        LogLevel::Error
    } else if c == 'F' {
        LogLevel::Fatal
    } else if c == 'S' {
        LogLevel::Silent
    } else {
        LogLevel::Debug
    }
}

impl From<char> for LogLevel {
    fn from(c: char) -> (r: Self) {
        if c == 'V' {
            LogLevel::Verbose
        } else if c == 'D' {
            LogLevel::Debug
        } else if c == 'I' {
            LogLevel::Info
        } else if c == 'W' {
            LogLevel::Warning
        } else if c == 'E' {
            LogLevel::Error
        } else if c == 'F' {
            LogLevel::Fatal
        } else if c == 'S' {
            LogLevel::Silent
        } else {
            LogLevel::Debug
        }
    }
}

impl vstd::std_specs::convert::FromSpecImpl<char> for LogLevel {
    open spec fn obeys_from_spec() -> bool {
        true
    }

    open spec fn from_spec(c: char) -> Self {
        level_from_char(c)
    }
}

impl LogLevel {
    /// Numeric severity, usable in executable comparisons.
    pub fn rank(&self) -> (r: u8)
        ensures
            r as int == level_rank(*self),
    {
        match self {
            LogLevel::Verbose => 0,
            LogLevel::Debug => 1,
            LogLevel::Info => 2,
            LogLevel::Warning => 3,
            LogLevel::Error => 4,
            LogLevel::Fatal => 5,
            LogLevel::Silent => 6,
        }
    }

    /// The single-character code for this level.
    pub fn as_str(&self) -> (r: &'static str)
        ensures
            level_from_char(r@[0]) == *self,
            r@.len() == 1,
    {
        proof {
            reveal_strlit("V");
            reveal_strlit("D");
            reveal_strlit("I");
            reveal_strlit("W");
            reveal_strlit("E");
            reveal_strlit("F");
            reveal_strlit("S");
        }
        match self {
            LogLevel::Verbose => "V",
            LogLevel::Debug => "D",
            LogLevel::Info => "I",
            LogLevel::Warning => "W",
            LogLevel::Error => "E",
            LogLevel::Fatal => "F",
            LogLevel::Silent => "S",
        }
    }
}

/// The severity order is total: ranks are comparable, equal ranks mean equal
/// levels, and the order is transitive.  Together with the rank values this
/// fixes the chain `Verbose < Debug < Info < Warning < Error < Fatal < Silent`.
pub proof fn lemma_level_order_total(a: LogLevel, b: LogLevel, c: LogLevel)
    ensures
        level_rank(a) <= level_rank(b) || level_rank(b) <= level_rank(a),
        level_rank(a) == level_rank(b) ==> a == b,
        level_rank(a) <= level_rank(b) && level_rank(b) <= level_rank(c) ==> level_rank(a)
            <= level_rank(c),
        level_rank(LogLevel::Verbose) < level_rank(LogLevel::Debug) < level_rank(LogLevel::Info)
            < level_rank(LogLevel::Warning) < level_rank(LogLevel::Error) < level_rank(
            LogLevel::Fatal,
        ) < level_rank(LogLevel::Silent),
{
}

// ---------------------------------------------------------------------------
// Buffers
// ---------------------------------------------------------------------------
/// The device-side log buffer a stream or snapshot reads from.
#[derive(Debug, Clone, PartialEq)]
pub enum LogcatBuffer {
    Main,
    System,
    Radio,
    Events,
    Crash,
    Default,
}

impl LogcatBuffer {
    /// The buffer name used on the log command line; `Default` selects `main`.
    pub fn as_str(&self) -> (r: &'static str)
        ensures
            r@ == spec_buffer_str(*self),
    {
        proof {
            reveal_strlit("main");
            reveal_strlit("system");
            reveal_strlit("radio");
            reveal_strlit("events");
            reveal_strlit("crash");
        }
        match self {
            LogcatBuffer::Main => "main",
            LogcatBuffer::System => "system",
            LogcatBuffer::Radio => "radio",
            LogcatBuffer::Events => "events",
            LogcatBuffer::Crash => "crash",
            LogcatBuffer::Default => "main",
        }
    }
}

pub open spec fn spec_buffer_str(b: LogcatBuffer) -> Seq<char> {
    match b {
        LogcatBuffer::Main => "main"@,
        LogcatBuffer::System => "system"@,
        LogcatBuffer::Radio => "radio"@,
        LogcatBuffer::Events => "events"@,
        LogcatBuffer::Crash => "crash"@,
        LogcatBuffer::Default => "main"@,
    }
}

// ---------------------------------------------------------------------------
// Entries
// ---------------------------------------------------------------------------
/// One parsed log line.  `raw` always keeps the original line for fallback
/// rendering; the other fields depend on which grammar matched.
#[derive(Debug, PartialEq)]
pub struct LogcatEntry {
    pub timestamp: String,
    pub pid: u32,
    pub tid: u32,
    pub level: LogLevel,
    pub tag: String,
    pub message: String,
    pub raw: String,
}

/// Mathematical image of an entry: its strings as character sequences.
#[verifier::ext_equal]
pub struct LogcatEntryView {
    pub timestamp: Seq<char>,
    pub pid: u32,
    pub tid: u32,
    pub level: LogLevel,
    pub tag: Seq<char>,
    pub message: Seq<char>,
    pub raw: Seq<char>,
}

impl View for LogcatEntry {
    type V = LogcatEntryView;

    open spec fn view(&self) -> LogcatEntryView {
        LogcatEntryView {
            timestamp: self.timestamp@,
            pid: self.pid,
            tid: self.tid,
            level: self.level,
            tag: self.tag@,
            message: self.message@,
            raw: self.raw@,
        }
    }
}

impl Clone for LogcatEntry {
    fn clone(&self) -> (r: Self)
        ensures
            r == *self,
    {
        LogcatEntry {
            timestamp: self.timestamp.clone(),
            pid: self.pid,
            tid: self.tid,
            level: self.level,
            tag: self.tag.clone(),
            message: self.message.clone(),
            raw: self.raw.clone(),
        }
    }
}

impl Default for LogcatEntry {
    /// An empty entry: zero pid and tid, `Debug` level, empty strings.
    fn default() -> (r: Self)
        ensures
            r@.timestamp.len() == 0,
            r@.pid == 0,
            r@.tid == 0,
            r@.level == LogLevel::Debug,
            r@.tag.len() == 0,
            r@.message.len() == 0,
            r@.raw.len() == 0,
    {
        LogcatEntry {
            timestamp: String::new(),
            pid: 0,
            tid: 0,
            level: LogLevel::Debug,
            tag: String::new(),
            message: String::new(),
            raw: String::new(),
        }
    }
}

// ---------------------------------------------------------------------------
// Filters
// ---------------------------------------------------------------------------
/// A conjunction of optional conditions on an entry: a tag substring, a
/// minimum severity (inclusive) and a message substring.  A filter with all
/// fields absent matches everything.
#[derive(Debug, PartialEq)]
pub struct LogcatFilter {
    pub tag: Option<String>,
    pub level: Option<LogLevel>,
    pub message_contains: Option<String>,
}

impl Clone for LogcatFilter {
    fn clone(&self) -> (r: Self)
        ensures
            r == *self,
    {
        LogcatFilter {
            tag: match &self.tag {
                Some(t) => Some(t.clone()),
                None => None,
            },
            level: self.level,
            message_contains: match &self.message_contains {
                Some(m) => Some(m.clone()),
                None => None,
            },
        }
    }
}

#[verifier::ext_equal]
pub struct LogcatFilterView {
    pub tag: Option<Seq<char>>,
    pub level: Option<LogLevel>,
    pub message_contains: Option<Seq<char>>,
}

impl View for LogcatFilter {
    type V = LogcatFilterView;

    open spec fn view(&self) -> LogcatFilterView {
        LogcatFilterView {
            tag: match self.tag {
                Some(ref t) => Some(t@),
                None => None,
            },
            level: self.level,
            message_contains: match self.message_contains {
                Some(ref m) => Some(m@),
                None => None,
            },
        }
    }
}

impl Default for LogcatFilter {
    /// The default filter keeps entries of `Info` severity and above.
    fn default() -> (r: Self)
        ensures
            r@.tag is None,
            r@.level == Some(LogLevel::Info),
            r@.message_contains is None,
    {
        LogcatFilter { tag: None, level: Some(LogLevel::Info), message_contains: None }
    }
}

/// Whether a filter accepts an entry: each present condition must hold, an
/// absent condition is vacuously true.
pub open spec fn spec_matches(f: LogcatFilterView, e: LogcatEntryView) -> bool {
    (match f.tag {
        Some(t) => spec_contains(e.tag, t),
        None => true,
    }) && (match f.level {
        Some(l) => level_rank(e.level) >= level_rank(l),
        None => true,
    }) && (match f.message_contains {
        Some(m) => spec_contains(e.message, m),
        None => true,
    })
}

impl LogcatFilter {
    /// Tests an entry against the filter's conjunction of conditions.
    pub fn matches(&self, entry: &LogcatEntry) -> (r: bool)
        ensures
            r == spec_matches(self@, entry@),
    {
        if let Some(ref tag) = self.tag {
            if !contains_sub(entry.tag.as_str(), tag.as_str()) {
                return false;
            }
        }
        if let Some(level) = self.level {
            if entry.level.rank() < level.rank() {
                return false;
            }
        }
        if let Some(ref msg) = self.message_contains {
            if !contains_sub(entry.message.as_str(), msg.as_str()) {
                return false;
            }
        }
        true
    }
}

/// A filter with several conditions set accepts an entry exactly when each
/// single-condition filter accepts it on its own: conjunction of conditions
/// is order-independent and splits into independent checks.
pub proof fn lemma_filter_conjunction(f: LogcatFilterView, e: LogcatEntryView)
    ensures
        spec_matches(f, e) <==> spec_matches(
            LogcatFilterView { tag: f.tag, level: None, message_contains: None },
            e,
        ) && spec_matches(
            LogcatFilterView { tag: None, level: f.level, message_contains: None },
            e,
        ) && spec_matches(
            LogcatFilterView { tag: None, level: None, message_contains: f.message_contains },
            e,
        ),
{
}

// ---------------------------------------------------------------------------
// Filtering a batch of entries
// ---------------------------------------------------------------------------
/// The subsequence of `s` accepted by filter `f`, in order.
pub open spec fn spec_keep(f: LogcatFilterView, s: Seq<LogcatEntry>) -> Seq<LogcatEntry>
    decreases s.len(),
{
    if s.len() == 0 {
        Seq::empty()
    } else {
        (if spec_matches(f, s[0]@) {
            seq![s[0]]
        } else {
            Seq::empty()
        }) + spec_keep(f, s.drop_first())
    }
}

proof fn lemma_keep_snoc(f: LogcatFilterView, s: Seq<LogcatEntry>, x: LogcatEntry)
    ensures
        spec_keep(f, s.push(x)) =~= spec_keep(f, s) + (if spec_matches(f, x@) {
            seq![x]
        } else {
            Seq::<LogcatEntry>::empty()
        }),
    decreases s.len(),
{
    if s.len() == 0 {
        assert(s.push(x).drop_first() =~= Seq::<LogcatEntry>::empty());
        assert(s.push(x)[0] == x);
        assert(spec_keep(f, s) =~= Seq::<LogcatEntry>::empty());
        assert(spec_keep(f, s.push(x).drop_first()) == spec_keep(f, s));
        assert(spec_keep(f, s.push(x)) =~= (if spec_matches(f, x@) {
            seq![x]
        } else {
            Seq::<LogcatEntry>::empty()
        }));
    } else {
        assert(s.push(x)[0] == s[0]);
        assert(s.push(x).drop_first() =~= s.drop_first().push(x));
        lemma_keep_snoc(f, s.drop_first(), x);
        let ifx: Seq<LogcatEntry> = if spec_matches(f, x@) {
            seq![x]
        } else {
            Seq::empty()
        };
        let if0: Seq<LogcatEntry> = if spec_matches(f, s[0]@) {
            seq![s[0]]
        } else {
            Seq::empty()
        };
        assert(spec_keep(f, s.push(x)) =~= if0 + (spec_keep(f, s.drop_first()) + ifx));
        assert(if0 + (spec_keep(f, s.drop_first()) + ifx) =~= (if0 + spec_keep(f, s.drop_first()))
            + ifx);
    }
}

/// Keeps exactly the entries the filter accepts, preserving their order.
#[verifier::loop_isolation(false)]
pub fn filter_entries(entries: Vec<LogcatEntry>, filter: LogcatFilter) -> (r: Vec<LogcatEntry>)
    ensures
        r@ == spec_keep(filter@, entries@),
{
    let n = entries.len();
    let mut r: Vec<LogcatEntry> = Vec::new();
    let mut i: usize = 0;
    proof {
        assert(entries@.subrange(0, 0) =~= Seq::<LogcatEntry>::empty());
    }
    while i < n
        invariant
            0 <= i <= n,
            n == entries@.len(),
            r@ == spec_keep(filter@, entries@.subrange(0, i as int)),
        decreases n - i,
    {
        let e = &entries[i];
        proof {
            assert(entries@.subrange(0, i as int).push(entries@[i as int]) =~= entries@.subrange(
                0,
                i as int + 1,
            ));
            lemma_keep_snoc(filter@, entries@.subrange(0, i as int), entries@[i as int]);
        }
        if filter.matches(e) {
            r.push(e.clone());
            proof {
                // clone of a struct of Strings and plain values keeps the value
                assert(r@ =~= spec_keep(filter@, entries@.subrange(0, i as int + 1)));
            }
        } else {
            proof {
                assert(r@ =~= spec_keep(filter@, entries@.subrange(0, i as int + 1)));
            }
        }
        i = i + 1;
    }
    proof {
        assert(entries@.subrange(0, n as int) =~= entries@);
    }
    r
}

// ---------------------------------------------------------------------------
// Line grammars
// ---------------------------------------------------------------------------
/// The threadtime layout: `date time pid tid level tag: message`, at least
/// seven whitespace tokens, with integral third and fourth tokens.
pub open spec fn spec_threadtime(line: Seq<char>) -> Option<LogcatEntryView> {
    let toks = spec_split_ws(line);
    if toks.len() >= 7 {
        match (spec_parse_u32(toks[2]), spec_parse_u32(toks[3])) {
            (Some(pid), Some(tid)) => Some(
                LogcatEntryView {
                    timestamp: toks[0],
                    pid: pid,
                    tid: tid,
                    level: level_from_char(toks[4][0]),
                    tag: spec_trim_char(toks[5], ':'),
                    message: spec_join_from(toks, 6),
                    raw: line,
                },
            ),
            _ => None,
        }
    } else {
        None
    }
}

/// The brief layout: a bracketed tag, then a level code, then the message.
/// A line whose first closing bracket precedes its first opening one, or
/// whose text after the tag is too short for a level code and message,
/// matches only as far as its shape allows — never as a hard error.
pub open spec fn spec_brief(line: Seq<char>) -> Option<LogcatEntryView> {
    match (spec_find_char(line, '['), spec_find_char(line, ']')) {
        (Some(bs), Some(be)) => if bs + 1 <= be {
            let rest = spec_trim(line.subrange(be + 1, line.len() as int));
            Some(
                LogcatEntryView {
                    timestamp: Seq::empty(),
                    pid: 0,
                    tid: 0,
                    level: if rest.len() > 0 {
                        level_from_char(rest[0])
                    } else {
                        LogLevel::Info
                    },
                    tag: line.subrange(bs + 1, be),
                    message: if rest.len() >= 2 {
                        spec_trim(rest.subrange(2, rest.len() as int))
                    } else {
                        Seq::empty()
                    },
                    raw: line,
                },
            )
        } else {
            None
        },
        _ => None,
    }
}

/// The degenerate entry a line matching no grammar becomes: the whole line
/// as its message, zero pid and tid, `Debug` level.
pub open spec fn spec_fallback(line: Seq<char>) -> LogcatEntryView {
    LogcatEntryView {
        timestamp: Seq::empty(),
        pid: 0,
        tid: 0,
        level: LogLevel::Debug,
        tag: Seq::empty(),
        message: line,
        raw: line,
    }
}

/// What parsing one raw line yields: the first grammar that matches the
/// trimmed line, with the degenerate entry as the final fallback — one entry
/// for every input line, blank lines included, never a hard parse error.
pub open spec fn spec_parse_logcat_line(raw: Seq<char>) -> Option<LogcatEntryView> {
    let line = spec_trim(raw);
    match spec_threadtime(line) {
        Some(e) => Some(e),
        None => match spec_brief(line) {
            Some(e) => Some(e),
            None => Some(spec_fallback(line)),
        },
    }
}

/// Parses one line in the threadtime layout.
pub fn parse_threadtime_format(line: &str) -> (r: Option<LogcatEntry>)
    ensures
        match r {
            Some(e) => spec_threadtime(line@) == Some(e@),
            None => spec_threadtime(line@) is None,
        },
{
    let toks = split_ws(line);
    proof {
        lemma_split_ws_nonempty(line@);
    }
    let ghost tv = spec_split_ws(line@);
    if toks.len() >= 7 {
        proof {
            assert(toks@[2]@ == tv[2]);
            assert(toks@[3]@ == tv[3]);
            assert(toks@[4]@ == tv[4]);
            assert(toks@[5]@ == tv[5]);
            assert(toks@[0]@ == tv[0]);
        }
        let pid = match parse_u32(toks[2].as_str()) {
            Some(v) => v,
            None => {
                return None;
            },
        };
        let tid = match parse_u32(toks[3].as_str()) {
            Some(v) => v,
            None => {
                return None;
            },
        };
        let level_char = toks[4].as_str().get_char(0);
        let level = LogLevel::from(level_char);
        let tag = trim_char(toks[5].as_str(), ':').to_owned();
        let message = join_from(&toks, 6);
        let timestamp = toks[0].clone();
        let e = LogcatEntry { timestamp, pid, tid, level, tag, message, raw: line.to_owned() };
        proof {
            let ev = spec_threadtime(line@)->Some_0;
            assert(e@ =~= ev);
        }
        Some(e)
    } else {
        None
    }
}

/// Parses one line in the brief layout.
pub fn parse_brief_format(line: &str) -> (r: Option<LogcatEntry>)
    ensures
        match r {
            Some(e) => spec_brief(line@) == Some(e@),
            None => spec_brief(line@) is None,
        },
{
    let n = s_len(line);
    let bs = match find_char(line, '[') {
        Some(i) => i,
        None => {
            return None;
        },
    };
    let be = match find_char(line, ']') {
        Some(i) => i,
        None => {
            return None;
        },
    };
    proof {
        crate::text::lemma_find_char_props(line@, '[');
        crate::text::lemma_find_char_props(line@, ']');
    }
    if bs + 1 > be {
        return None;
    }
    let tag = line.substring_char(bs + 1, be).to_owned();
    let rest = trim(line.substring_char(be + 1, n));
    let m = s_len(rest);
    let level_char = if m > 0 {
        rest.get_char(0)
    } else {
        'I'
    };
    let level = LogLevel::from(level_char);
    let message = if m >= 2 {
        trim(rest.substring_char(2, m)).to_owned()
    } else {
        String::new()
    };
    let e = LogcatEntry {
        timestamp: String::new(),
        pid: 0,
        tid: 0,
        level,
        tag,
        message,
        raw: line.to_owned(),
    };
    proof {
        let ev = spec_brief(line@)->Some_0;
        assert(e@ =~= ev);
    }
    Some(e)
}

/// The character length of a string slice.
fn s_len(s: &str) -> (r: usize)
    ensures
        r == s@.len(),
{
    s.unicode_len()
}

/// Parses one raw log line: every input line yields exactly one entry —
/// threadtime first, then brief, then the degenerate fallback, which a blank
/// line also becomes — never a hard parse error.
pub fn parse_logcat_line(line: &str) -> (r: Option<LogcatEntry>)
    ensures
        r is Some,
        match r {
            Some(e) => spec_parse_logcat_line(line@) == Some(e@),
            None => false,
        },
        match r {
            // whichever grammar matched, the trimmed line is kept verbatim
            Some(e) => e@.raw == spec_trim(line@),
            None => true,
        },
{
    let t = trim(line);
    if let Some(e) = parse_threadtime_format(t) {
        return Some(e);
    }
    if let Some(e) = parse_brief_format(t) {
        return Some(e);
    }
    let e = LogcatEntry {
        timestamp: String::new(),
        pid: 0,
        tid: 0,
        level: LogLevel::Debug,
        tag: String::new(),
        message: t.to_owned(),
        raw: t.to_owned(),
    };
    proof {
        assert(e@ =~= spec_fallback(spec_trim(line@)));
    }
    Some(e)
}

/// In the threadtime layout, the parsed pid and tid are exactly the third
/// and fourth whitespace tokens of the line read as integers; such a line
/// always yields an entry.
pub proof fn lemma_threadtime_pid_tid(line: Seq<char>)
    requires
        spec_split_ws(line).len() >= 7,
        spec_parse_u32(spec_split_ws(line)[2]) is Some,
        spec_parse_u32(spec_split_ws(line)[3]) is Some,
    ensures
        match spec_parse_logcat_line(line) {
            Some(e) => Some(e.pid) == spec_parse_u32(spec_split_ws(line)[2]) && Some(e.tid)
                == spec_parse_u32(spec_split_ws(line)[3]),
            None => false,
        },
{
    // tokenization is invariant under the trim the parser applies first
    crate::text::lemma_split_ws_trim(line);
    crate::text::lemma_split_ws_nonempty(spec_trim(line));
}

// ---------------------------------------------------------------------------
// Whole-buffer parsing
// ---------------------------------------------------------------------------
/// Parses a whole captured buffer: exactly one entry for every input line,
/// in order — the consumer never receives fewer entries than lines fed in.
#[verifier::loop_isolation(false)]
pub fn parse_log_buffer(text: &str) -> (r: Vec<LogcatEntry>)
    ensures
        r@.len() == spec_lines(text@).len(),
        forall|i: int|
            0 <= i < r@.len() ==> spec_parse_logcat_line(spec_lines(text@)[i]) == Some(
                #[trigger] r@[i]@,
            ),
{
    let ls = split_lines(text);
    let ghost lv = spec_lines(text@);
    let n = ls.len();
    let mut r: Vec<LogcatEntry> = Vec::new();
    let mut i: usize = 0;
    while i < n
        invariant
            0 <= i <= n,
            n == lv.len(),
            r@.len() == i,
            forall|k: int|
                0 <= k < i ==> spec_parse_logcat_line(lv[k]) == Some(#[trigger] r@[k]@),
        decreases n - i,
    {
        proof {
            assert(ls@[i as int]@ == lv[i as int]);
        }
        match parse_logcat_line(ls[i].as_str()) {
            Some(e) => {
                r.push(e);
            },
            None => {
                proof {
                    assert(false);
                }
            },
        }
        i = i + 1;
    }
    r
}

// ---------------------------------------------------------------------------
// Buffer list output
// ---------------------------------------------------------------------------
/// The buffer name named by one line of buffer-size output: the last
/// whitespace token before the first colon.
pub open spec fn spec_buffer_name(l: Seq<char>) -> Seq<char> {
    let pre = match spec_find_char(l, ':') {
        Some(i) => l.subrange(0, i),
        None => l,
    };
    let toks = spec_split_ws(pre);
    if toks.len() > 0 {
        toks.last()
    } else {
        Seq::empty()
    }
}

/// The buffer names listed by the log tool's size report: one per line that
/// mentions a ring buffer and names one.
pub open spec fn spec_buffer_list(ls: Seq<Seq<char>>) -> Seq<Seq<char>>
    decreases ls.len(),
{
    if ls.len() == 0 {
        Seq::empty()
    } else {
        (if spec_contains(ls[0], "ring buffer"@) && spec_buffer_name(ls[0]).len() > 0 {
            seq![spec_buffer_name(ls[0])]
        } else {
            Seq::empty()
        }) + spec_buffer_list(ls.drop_first())
    }
}

proof fn lemma_buffer_list_snoc(ls: Seq<Seq<char>>, x: Seq<char>)
    ensures
        spec_buffer_list(ls.push(x)) =~= spec_buffer_list(ls) + (if spec_contains(
            x,
            "ring buffer"@,
        ) && spec_buffer_name(x).len() > 0 {
            seq![spec_buffer_name(x)]
        } else {
            Seq::<Seq<char>>::empty()
        }),
    decreases ls.len(),
{
    if ls.len() == 0 {
        assert(ls.push(x).drop_first() =~= Seq::<Seq<char>>::empty());
        assert(ls.push(x)[0] == x);
        assert(spec_buffer_list(ls) =~= Seq::<Seq<char>>::empty());
        assert(spec_buffer_list(ls.push(x).drop_first()) == spec_buffer_list(ls));
        assert(spec_buffer_list(ls.push(x)) =~= (if spec_contains(x, "ring buffer"@)
            && spec_buffer_name(x).len() > 0 {
            seq![spec_buffer_name(x)]
        } else {
            Seq::<Seq<char>>::empty()
        }));
    } else {
        assert(ls.push(x)[0] == ls[0]);
        assert(ls.push(x).drop_first() =~= ls.drop_first().push(x));
        lemma_buffer_list_snoc(ls.drop_first(), x);
        let ifx: Seq<Seq<char>> = if spec_contains(x, "ring buffer"@) && spec_buffer_name(x).len()
            > 0 {
            seq![spec_buffer_name(x)]
        } else {
            Seq::empty()
        };
        let if0: Seq<Seq<char>> = if spec_contains(ls[0], "ring buffer"@) && spec_buffer_name(
            ls[0],
        ).len() > 0 {
            seq![spec_buffer_name(ls[0])]
        } else {
            Seq::empty()
        };
        assert(spec_buffer_list(ls.push(x)) =~= if0 + (spec_buffer_list(ls.drop_first()) + ifx));
        assert(if0 + (spec_buffer_list(ls.drop_first()) + ifx) =~= (if0 + spec_buffer_list(
            ls.drop_first(),
        )) + ifx);
    }
}

/// Extracts the buffer names from the log tool's buffer-size report.
#[verifier::loop_isolation(false)]
pub fn parse_buffer_list(text: &str) -> (r: Vec<String>)
    ensures
        r.deep_view() == spec_buffer_list(spec_lines(text@)),
{
    let ls = split_lines(text);
    let ghost lv = spec_lines(text@);
    let n = ls.len();
    let mut r: Vec<String> = Vec::new();
    let mut i: usize = 0;
    proof {
        assert(lv.subrange(0, 0) =~= Seq::<Seq<char>>::empty());
        assert(r.deep_view() =~= Seq::<Seq<char>>::empty());
        assert(r.deep_view() =~= spec_buffer_list(lv.subrange(0, 0)));
    }
    while i < n
        invariant
            0 <= i <= n,
            n == lv.len(),
            r.deep_view() == spec_buffer_list(lv.subrange(0, i as int)),
        decreases n - i,
    {
        proof {
            assert(ls@[i as int]@ == lv[i as int]);
            assert(lv.subrange(0, i as int).push(lv[i as int]) =~= lv.subrange(0, i as int + 1));
            lemma_buffer_list_snoc(lv.subrange(0, i as int), lv[i as int]);
        }
        let line = ls[i].as_str();
        if contains_sub(line, "ring buffer") {
            let pre = match find_char(line, ':') {
                Some(j) => {
                    proof {
                        crate::text::lemma_find_char_props(line@, ':');
                    }
                    line.substring_char(0, j)
                },
                None => line,
            };
            let toks = split_ws(pre);
            if toks.len() > 0 {
                let name = toks[toks.len() - 1].clone();
                proof {
                    assert(toks@[toks@.len() - 1]@ == spec_split_ws(pre@).last());
                }
                if name.as_str().unicode_len() > 0 {
                    let ghost old_r = r;
                    r.push(name);
                    proof {
                        crate::text::lemma_deep_view_push(old_r, name, r);
                        assert(r.deep_view() =~= spec_buffer_list(lv.subrange(0, i as int + 1)));
                    }
                } else {
                    proof {
                        assert(r.deep_view() =~= spec_buffer_list(lv.subrange(0, i as int + 1)));
                    }
                }
            } else {
                proof {
                    assert(r.deep_view() =~= spec_buffer_list(lv.subrange(0, i as int + 1)));
                }
            }
        } else {
            proof {
                assert(r.deep_view() =~= spec_buffer_list(lv.subrange(0, i as int + 1)));
            }
        }
        i = i + 1;
    }
    proof {
        assert(lv.subrange(0, n as int) =~= lv);
    }
    r
}

// ---------------------------------------------------------------------------
// Errors
// ---------------------------------------------------------------------------
/// Failures of the log subsystem: the device is gone, the transport failed,
/// output was not text, or the stream was already closed.
#[derive(Debug, Clone, PartialEq)]
pub enum LogcatError {
    DeviceNotFound,
    IOError(String),
    ParseError(String),
    StreamClosed,
}

impl LogcatError {
    /// A human-readable description of the failure.
    pub fn message(&self) -> (r: String)
        ensures
            match self {
                LogcatError::DeviceNotFound => r@ == "Device not found"@,
                LogcatError::IOError(m) => r@ == "IO Error: "@ + m@,
                LogcatError::ParseError(m) => r@ == "Parse Error: "@ + m@,
                LogcatError::StreamClosed => r@ == "Logcat stream closed"@,
            },
    {
        match self {
            LogcatError::DeviceNotFound => String::from_str("Device not found"),
            LogcatError::IOError(m) => {
                let mut s = String::from_str("IO Error: ");
                s.append(m.as_str());
                s
            },
            LogcatError::ParseError(m) => {
                let mut s = String::from_str("Parse Error: ");
                s.append(m.as_str());
                s
            },
            LogcatError::StreamClosed => String::from_str("Logcat stream closed"),
        }
    }
}

} // verus!
