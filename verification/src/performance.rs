//! Report parsers for performance telemetry: memory, battery, per-core CPU
//! counters and the display server's flip counter, plus the aggregate
//! performance profile with its per-field outcomes.

use vstd::prelude::*;

use crate::text::{
    all_digits, decimal_trunc, find_char, find_sub, is_digit,
    lemma_find_char_props, lemma_find_sub_props, parse_u32, parse_u64,
    spec_decimal_value, spec_find_char, spec_find_sub, spec_lines, spec_parse_u32, spec_parse_u64,
    spec_split_ws, spec_trim, spec_u64_or0, split_lines, split_ws, str_eq, trim,
};

verus! {

/// Memory counters in kilobytes.  The three counters are independent; only a
/// present, non-zero total makes the report valid.
#[derive(Debug, Clone, PartialEq, Eq, Structural)]
pub struct MemoryInfo {
    pub total_kb: u64,
    pub free_kb: u64,
    pub available_kb: u64,
}

/// Battery state: charge level, temperature in tenths of a degree, voltage
/// in millivolts.  Only constructed when a `level` field was actually found.
#[derive(Debug, Clone, PartialEq, Eq, Structural)]
pub struct BatteryInfo {
    pub level: u32,
    pub temperature: u32,
    pub voltage: u32,
}

/// Monotonically accumulating scheduler counters of one logical core.
#[derive(Debug, Clone, Copy, PartialEq, Eq, Structural)]
#[verifier::ext_equal]
pub struct CpuTimes {
    pub user: u64,
    pub nice: u64,
    pub sys: u64,
    pub idle: u64,
    pub iowait: u64,
    pub irq: u64,
    pub softirq: u64,
}

/// One logical core's counters, with its clock speed when known.
#[derive(Debug, Clone, Copy, PartialEq, Eq, Structural)]
#[verifier::ext_equal]
pub struct CpuInfo {
    pub times: CpuTimes,
    pub speed_mhz: Option<u32>,
}

/// A display flip counter reading and when it was taken.
#[derive(Debug, Clone, Copy, PartialEq, Eq, Structural)]
pub struct FpsData {
    pub flips: u64,
    pub timestamp_ms: u64,
}

/// Failures of the performance probes: the transport failed, or a report
/// lacked its defining field.
#[derive(Debug, Clone, PartialEq)]
pub enum PerformanceError {
    CommandFailed(String),
    ParseError(String),
}

impl PerformanceError {
    /// A human-readable description of the failure.
    pub fn message(&self) -> (r: String)
        ensures
            match self {
                PerformanceError::CommandFailed(m) => r@ == "Command failed: "@ + m@,
                PerformanceError::ParseError(m) => r@ == "Parse error: "@ + m@,
            },
    {
        match self {
            PerformanceError::CommandFailed(m) => {
                let mut s = String::from_str("Command failed: ");
                s.append(m.as_str());
                s
            },
            PerformanceError::ParseError(m) => {
                let mut s = String::from_str("Parse error: ");
                s.append(m.as_str());
                s
            },
        }
    }
}

// ---------------------------------------------------------------------------
// Memory report
// ---------------------------------------------------------------------------
/// Folds the memory report lines over the three counters: a line whose first
/// token names a counter overwrites it with the second token's value (zero
/// when not a number).
pub open spec fn meminfo_fold(ls: Seq<Seq<char>>, acc: (u64, u64, u64)) -> (u64, u64, u64)
    decreases ls.len(),
{
    if ls.len() == 0 {
        acc
    } else {
        let toks = spec_split_ws(ls[0]);
        let acc2 = if toks.len() >= 2 {
            let v = match spec_parse_u64(toks[1]) {
                Some(v) => v,
                None => 0u64,
            };
            if toks[0] == "MemTotal:"@ {
                (v, acc.1, acc.2)
            } else if toks[0] == "MemFree:"@ {
                (acc.0, v, acc.2)
            } else if toks[0] == "MemAvailable:"@ {
                (acc.0, acc.1, v)
            } else {
                acc
            }
        } else {
            acc
        };
        meminfo_fold(ls.drop_first(), acc2)
    }
}

/// What the memory report denotes: the folded counters, valid only when the
/// total is present and non-zero.
pub open spec fn spec_parse_meminfo(text: Seq<char>) -> Option<MemoryInfo> {
    let t = meminfo_fold(spec_lines(text), (0u64, 0u64, 0u64));
    if t.0 > 0 {
        Some(MemoryInfo { total_kb: t.0, free_kb: t.1, available_kb: t.2 })
    } else {
        None
    }
}

/// Parses a memory report.  Returns a value exactly when the mandatory
/// total is present and non-zero; a report without it is the wrong report,
/// not a degraded one.
#[verifier::loop_isolation(false)]
pub fn parse_meminfo(output: &str) -> (r: Option<MemoryInfo>)
    ensures
        r == spec_parse_meminfo(output@),
        r is Some <==> meminfo_fold(spec_lines(output@), (0u64, 0u64, 0u64)).0 > 0,
{
    let ls = split_lines(output);
    let ghost lv = spec_lines(output@);
    let n = ls.len();
    let mut total: u64 = 0;
    let mut free: u64 = 0;
    let mut avail: u64 = 0;
    let mut i: usize = 0;
    proof {
        reveal_strlit("MemTotal:");
        reveal_strlit("MemFree:");
        reveal_strlit("MemAvailable:");
        assert(lv.subrange(0, n as int) =~= lv);
    }
    while i < n
        invariant
            0 <= i <= n,
            n == lv.len(),
            meminfo_fold(lv, (0u64, 0u64, 0u64)) == meminfo_fold(
                lv.subrange(i as int, n as int),
                (total, free, avail),
            ),
        decreases n - i,
    {
        let ghost pre = lv.subrange(i as int, n as int);
        proof {
            assert(pre[0] == lv[i as int]);
            assert(pre.drop_first() =~= lv.subrange(i as int + 1, n as int));
            assert(ls@[i as int]@ == lv[i as int]);
        }
        let toks = split_ws(ls[i].as_str());
        if toks.len() >= 2 {
            proof {
                assert(toks@[0]@ == spec_split_ws(lv[i as int])[0]);
                assert(toks@[1]@ == spec_split_ws(lv[i as int])[1]);
            }
            let v = match parse_u64(toks[1].as_str()) {
                Some(v) => v,
                None => 0,
            };
            if str_eq(toks[0].as_str(), "MemTotal:") {
                total = v;
            } else if str_eq(toks[0].as_str(), "MemFree:") {
                free = v;
            } else if str_eq(toks[0].as_str(), "MemAvailable:") {
                avail = v;
            }
        }
        i = i + 1;
    }
    proof {
        assert(lv.subrange(n as int, n as int) =~= Seq::<Seq<char>>::empty());
    }
    if total > 0 {
        Some(MemoryInfo { total_kb: total, free_kb: free, available_kb: avail })
    } else {
        None
    }
}

/// The line's first token is the mandatory total key.
pub open spec fn meminfo_line_sets_total(l: Seq<char>) -> bool {
    let toks = spec_split_ws(l);
    toks.len() >= 2 && toks[0] == "MemTotal:"@
}

/// A memory report none of whose lines carry the total key leaves the total
/// counter untouched, so a report without its mandatory key is always the
/// structural failure, never a degraded value.
pub proof fn lemma_meminfo_total_decides(ls: Seq<Seq<char>>, acc: (u64, u64, u64))
    ensures
        (forall|i: int| 0 <= i < ls.len() ==> !meminfo_line_sets_total(#[trigger] ls[i]))
            ==> meminfo_fold(ls, acc).0 == acc.0,
    decreases ls.len(),
{
    if ls.len() > 0 {
        let toks = spec_split_ws(ls[0]);
        let acc2 = if toks.len() >= 2 {
            let v = match spec_parse_u64(toks[1]) {
                Some(v) => v,
                None => 0u64,
            };
            if toks[0] == "MemTotal:"@ {
                (v, acc.1, acc.2)
            } else if toks[0] == "MemFree:"@ {
                (acc.0, v, acc.2)
            } else if toks[0] == "MemAvailable:"@ {
                (acc.0, acc.1, v)
            } else {
                acc
            }
        } else {
            acc
        };
        lemma_meminfo_total_decides(ls.drop_first(), acc2);
        if forall|i: int| 0 <= i < ls.len() ==> !meminfo_line_sets_total(#[trigger] ls[i]) {
            assert(!meminfo_line_sets_total(ls[0]));
            assert(acc2.0 == acc.0);
            assert(forall|i: int|
                0 <= i < ls.drop_first().len() ==> ls.drop_first()[i] == ls[i + 1]
                    && !meminfo_line_sets_total(#[trigger] ls.drop_first()[i]));
        }
    }
}

/// A memory report whose last total-key line carries a positive value always
/// parses: the folded total is exactly that line's value, so the presence of
/// the mandatory key (with a usable value on its last occurrence) decides in
/// favour of a parsed report.
pub proof fn lemma_meminfo_total_present(ls: Seq<Seq<char>>, acc: (u64, u64, u64), i: int)
    requires
        0 <= i < ls.len(),
        meminfo_line_sets_total(ls[i]),
        forall|j: int| i < j < ls.len() ==> !meminfo_line_sets_total(#[trigger] ls[j]),
    ensures
        meminfo_fold(ls, acc).0 == spec_u64_or0(spec_split_ws(ls[i])[1]),
    decreases i,
{
    let toks = spec_split_ws(ls[0]);
    let acc2 = if toks.len() >= 2 {
        let v = match spec_parse_u64(toks[1]) {
            Some(v) => v,
            None => 0u64,
        };
        if toks[0] == "MemTotal:"@ {
            (v, acc.1, acc.2)
        } else if toks[0] == "MemFree:"@ {
            (acc.0, v, acc.2)
        } else if toks[0] == "MemAvailable:"@ {
            (acc.0, acc.1, v)
        } else {
            acc
        }
    } else {
        acc
    };
    let rest = ls.drop_first();
    assert(forall|j: int| 0 <= j < rest.len() ==> rest[j] == ls[j + 1]);
    if i == 0 {
        assert(acc2.0 == spec_u64_or0(toks[1]));
        assert(forall|j: int|
            0 <= j < rest.len() ==> !meminfo_line_sets_total(#[trigger] rest[j])) by {
            assert(forall|j: int|
                0 <= j < rest.len() ==> rest[j] == ls[j + 1] && !meminfo_line_sets_total(
                    ls[j + 1],
                ));
        }
        lemma_meminfo_total_decides(rest, acc2);
    } else {
        assert(rest[i - 1] == ls[i]);
        assert(forall|j: int|
            i - 1 < j < rest.len() ==> !meminfo_line_sets_total(#[trigger] rest[j])) by {
            assert(forall|j: int|
                i - 1 < j < rest.len() ==> rest[j] == ls[j + 1] && !meminfo_line_sets_total(
                    ls[j + 1],
                ));
        }
        lemma_meminfo_total_present(rest, acc2, i - 1);
    }
}

// ---------------------------------------------------------------------------
// Battery report
// ---------------------------------------------------------------------------
/// Folds the battery dump lines: a trimmed `key: value` line with an
/// unsigned value overwrites the named counter; seeing `level` marks the
/// report valid.
pub open spec fn battery_fold(ls: Seq<Seq<char>>, acc: (u32, u32, u32, bool)) -> (
    u32,
    u32,
    u32,
    bool,
)
    decreases ls.len(),
{
    if ls.len() == 0 {
        acc
    } else {
        let l = spec_trim(ls[0]);
        let acc2 = match spec_find_char(l, ':') {
            Some(i) => {
                let key = spec_trim(l.subrange(0, i));
                match spec_parse_u32(spec_trim(l.subrange(i + 1, l.len() as int))) {
                    Some(v) => if key == "level"@ {
                        (v, acc.1, acc.2, true)
                    } else if key == "temperature"@ {
                        (acc.0, v, acc.2, acc.3)
                    } else if key == "voltage"@ {
                        (acc.0, acc.1, v, acc.3)
                    } else {
                        acc
                    },
                    None => acc,
                }
            },
            None => acc,
        };
        battery_fold(ls.drop_first(), acc2)
    }
}

/// What the battery dump denotes: the folded counters, valid only when a
/// `level` line was found.
pub open spec fn spec_parse_battery_info(text: Seq<char>) -> Option<BatteryInfo> {
    let t = battery_fold(spec_lines(text), (0u32, 0u32, 0u32, false));
    if t.3 {
        Some(BatteryInfo { level: t.0, temperature: t.1, voltage: t.2 })
    } else {
        None
    }
}

/// Parses a battery dump.  Returns a value exactly when the mandatory
/// `level` field is present; dumps without it are a structural failure.
#[verifier::loop_isolation(false)]
pub fn parse_battery_info(output: &str) -> (r: Option<BatteryInfo>)
    ensures
        r == spec_parse_battery_info(output@),
        r is Some <==> battery_fold(spec_lines(output@), (0u32, 0u32, 0u32, false)).3,
{
    let ls = split_lines(output);
    let ghost lv = spec_lines(output@);
    let n = ls.len();
    let mut level: u32 = 0;
    let mut temperature: u32 = 0;
    let mut voltage: u32 = 0;
    let mut found: bool = false;
    let mut i: usize = 0;
    proof {
        reveal_strlit("level");
        reveal_strlit("temperature");
        reveal_strlit("voltage");
        assert(lv.subrange(0, n as int) =~= lv);
    }
    while i < n
        invariant
            0 <= i <= n,
            n == lv.len(),
            battery_fold(lv, (0u32, 0u32, 0u32, false)) == battery_fold(
                lv.subrange(i as int, n as int),
                (level, temperature, voltage, found),
            ),
        decreases n - i,
    {
        let ghost pre = lv.subrange(i as int, n as int);
        proof {
            assert(pre[0] == lv[i as int]);
            assert(pre.drop_first() =~= lv.subrange(i as int + 1, n as int));
            assert(ls@[i as int]@ == lv[i as int]);
        }
        let line = trim(ls[i].as_str());
        let nl = line.unicode_len();
        match find_char(line, ':') {
            Some(j) => {
                proof {
                    lemma_find_char_props(line@, ':');
                }
                let key = trim(line.substring_char(0, j));
                let val = trim(line.substring_char(j + 1, nl));
                match parse_u32(val) {
                    Some(v) => {
                        if str_eq(key, "level") {
                            level = v;
                            found = true;
                        } else if str_eq(key, "temperature") {
                            temperature = v;
                        } else if str_eq(key, "voltage") {
                            voltage = v;
                        }
                    },
                    None => {},
                }
            },
            None => {},
        }
        i = i + 1;
    }
    proof {
        assert(lv.subrange(n as int, n as int) =~= Seq::<Seq<char>>::empty());
    }
    if found {
        Some(BatteryInfo { level, temperature, voltage })
    } else {
        None
    }
}

/// A battery dump with a `level: <number>` line always yields a value, and
/// one whose lines never carry the `level` key never does: the mandatory key
/// alone decides between a parsed report and the structural failure.
pub proof fn lemma_battery_level_decides(ls: Seq<Seq<char>>, acc: (u32, u32, u32, bool))
    ensures
        !acc.3 && (forall|i: int|
            0 <= i < ls.len() ==> !battery_line_sets_level(#[trigger] ls[i])) ==> !battery_fold(
            ls,
            acc,
        ).3,
        acc.3 || (exists|i: int|
            0 <= i < ls.len() && battery_line_sets_level(#[trigger] ls[i])) ==> battery_fold(
            ls,
            acc,
        ).3,
    decreases ls.len(),
{
    if ls.len() > 0 {
        let l = spec_trim(ls[0]);
        let acc2 = match spec_find_char(l, ':') {
            Some(i) => {
                let key = spec_trim(l.subrange(0, i));
                match spec_parse_u32(spec_trim(l.subrange(i + 1, l.len() as int))) {
                    Some(v) => if key == "level"@ {
                        (v, acc.1, acc.2, true)
                    } else if key == "temperature"@ {
                        (acc.0, v, acc.2, acc.3)
                    } else if key == "voltage"@ {
                        (acc.0, acc.1, v, acc.3)
                    } else {
                        acc
                    },
                    None => acc,
                }
            },
            None => acc,
        };
        lemma_battery_level_decides(ls.drop_first(), acc2);
        assert(forall|i: int| 1 <= i < ls.len() ==> ls[i] == ls.drop_first()[i - 1]);
        if !acc.3 && (forall|i: int|
            0 <= i < ls.len() ==> !battery_line_sets_level(#[trigger] ls[i])) {
            assert(!battery_line_sets_level(ls[0]));
            assert(!acc2.3);
            assert(forall|i: int|
                0 <= i < ls.drop_first().len() ==> !battery_line_sets_level(
                    #[trigger] ls.drop_first()[i],
                ));
        }
        if acc.3 {
            assert(acc2.3);
        } else if exists|i: int| 0 <= i < ls.len() && battery_line_sets_level(#[trigger] ls[i]) {
            let w = choose|i: int| 0 <= i < ls.len() && battery_line_sets_level(#[trigger] ls[i]);
            if w == 0 {
                assert(acc2.3);
            } else {
                assert(ls.drop_first()[w - 1] == ls[w]);
            }
        }
    }
}

/// The line, trimmed, is `level : <unsigned>` — the mandatory battery field.
pub open spec fn battery_line_sets_level(l0: Seq<char>) -> bool {
    let l = spec_trim(l0);
    match spec_find_char(l, ':') {
        Some(i) => spec_trim(l.subrange(0, i)) == "level"@ && spec_parse_u32(
            spec_trim(l.subrange(i + 1, l.len() as int)),
        ) is Some,
        None => false,
    }
}

// ---------------------------------------------------------------------------
// CPU stat report
// ---------------------------------------------------------------------------
/// The token names one logical core: `cpu` followed by one or more digits.
/// The bare aggregate `cpu` and any other first token are excluded.
pub open spec fn is_core_token(t: Seq<char>) -> bool {
    t.len() > 3 && t.subrange(0, 3) == "cpu"@ && all_digits(t.subrange(3, t.len() as int))
}

/// What one stat line contributes: a per-core record for lines of at least
/// eight tokens whose first token is `cpu` followed by one or more digits.
pub open spec fn spec_cpu_line(l0: Seq<char>) -> Option<CpuInfo> {
    let l = spec_trim(l0);
    let toks = spec_split_ws(l);
    if toks.len() >= 8 && is_core_token(toks[0]) {
        Some(
            CpuInfo {
                times: CpuTimes {
                    user: spec_tok_u64(toks[1]),
                    nice: spec_tok_u64(toks[2]),
                    sys: spec_tok_u64(toks[3]),
                    idle: spec_tok_u64(toks[4]),
                    iowait: spec_tok_u64(toks[5]),
                    irq: spec_tok_u64(toks[6]),
                    softirq: spec_tok_u64(toks[7]),
                },
                speed_mhz: None,
            },
        )
    } else {
        None
    }
}

/// Decides whether a token names one logical core.
fn is_core_token_exec(t: &str) -> (r: bool)
    ensures
        r == is_core_token(t@),
{
    proof {
        reveal_strlit("cpu");
    }
    let n = t.unicode_len();
    if n <= 3 {
        return false;
    }
    if !str_eq(t.substring_char(0, 3), "cpu") {
        return false;
    }
    let mut k: usize = 3;
    while k < n && crate::text::is_digit_exec(t.get_char(k))
        invariant
            3 <= k <= n,
            n == t@.len(),
            forall|j: int| 3 <= j < k ==> crate::text::is_digit(#[trigger] t@[j]),
        decreases n - k,
    {
        k = k + 1;
    }
    let ghost suffix = t@.subrange(3, t@.len() as int);
    if k < n {
        proof {
            assert(suffix[k - 3] == t@[k as int]);
            assert(!all_digits(suffix));
        }
        false
    } else {
        proof {
            assert(forall|j: int| 0 <= j < suffix.len() ==> #[trigger] suffix[j] == t@[j + 3]);
            assert(all_digits(suffix));
        }
        true
    }
}

/// A token's unsigned value, zero when it is not a number.
pub open spec fn spec_tok_u64(t: Seq<char>) -> u64 {
    match spec_parse_u64(t) {
        Some(v) => v,
        None => 0u64,
    }
}

/// The per-core records of a whole stat report, in line order; the aggregate
/// line and malformed lines contribute nothing.
pub open spec fn spec_cpu_list(ls: Seq<Seq<char>>) -> Seq<CpuInfo>
    decreases ls.len(),
{
    if ls.len() == 0 {
        Seq::empty()
    } else {
        (match spec_cpu_line(ls[0]) {
            Some(c) => seq![c],
            None => Seq::empty(),
        }) + spec_cpu_list(ls.drop_first())
    }
}

proof fn lemma_cpu_list_snoc(ls: Seq<Seq<char>>, x: Seq<char>)
    ensures
        spec_cpu_list(ls.push(x)) =~= spec_cpu_list(ls) + (match spec_cpu_line(x) {
            Some(c) => seq![c],
            None => Seq::<CpuInfo>::empty(),
        }),
    decreases ls.len(),
{
    if ls.len() == 0 {
        assert(ls.push(x).drop_first() =~= Seq::<Seq<char>>::empty());
        assert(ls.push(x)[0] == x);
        assert(spec_cpu_list(ls) =~= Seq::<CpuInfo>::empty());
        assert(spec_cpu_list(ls.push(x).drop_first()) == spec_cpu_list(ls));
        assert(spec_cpu_list(ls.push(x)) =~= (match spec_cpu_line(x) {
            Some(c) => seq![c],
            None => Seq::<CpuInfo>::empty(),
        }));
    } else {
        assert(ls.push(x)[0] == ls[0]);
        assert(ls.push(x).drop_first() =~= ls.drop_first().push(x));
        lemma_cpu_list_snoc(ls.drop_first(), x);
        let ifx: Seq<CpuInfo> = match spec_cpu_line(x) {
            Some(c) => seq![c],
            None => Seq::empty(),
        };
        let if0: Seq<CpuInfo> = match spec_cpu_line(ls[0]) {
            Some(c) => seq![c],
            None => Seq::empty(),
        };
        assert(spec_cpu_list(ls.push(x)) =~= if0 + (spec_cpu_list(ls.drop_first()) + ifx));
        assert(if0 + (spec_cpu_list(ls.drop_first()) + ifx) =~= (if0 + spec_cpu_list(
            ls.drop_first(),
        )) + ifx);
    }
}

/// Reads a token's value, zero when it is not a number.
fn tok_u64(t: &String) -> (r: u64)
    ensures
        r == spec_tok_u64(t@),
{
    match parse_u64(t.as_str()) {
        Some(v) => v,
        None => 0,
    }
}

/// Parses the per-core counters of a CPU stat report.  Lines are accepted
/// only when their first token matches `cpu<digits>`; the bare aggregate
/// `cpu` line and any other first token are excluded.
#[verifier::loop_isolation(false)]
pub fn parse_cpu_stat(output: &str) -> (r: Vec<CpuInfo>)
    ensures
        r@ == spec_cpu_list(spec_lines(output@)),
{
    let ls = split_lines(output);
    let ghost lv = spec_lines(output@);
    let n = ls.len();
    let mut r: Vec<CpuInfo> = Vec::new();
    let mut i: usize = 0;
    proof {
        reveal_strlit("cpu");
        assert(lv.subrange(0, 0) =~= Seq::<Seq<char>>::empty());
    }
    while i < n
        invariant
            0 <= i <= n,
            n == lv.len(),
            r@ == spec_cpu_list(lv.subrange(0, i as int)),
        decreases n - i,
    {
        proof {
            assert(ls@[i as int]@ == lv[i as int]);
            assert(lv.subrange(0, i as int).push(lv[i as int]) =~= lv.subrange(0, i as int + 1));
            lemma_cpu_list_snoc(lv.subrange(0, i as int), lv[i as int]);
        }
        let line = trim(ls[i].as_str());
        let toks = split_ws(line);
        proof {
            assert(forall|k: int|
                0 <= k < toks@.len() ==> #[trigger] toks@[k]@ == spec_split_ws(line@)[k]);
        }
        if toks.len() >= 8 && is_core_token_exec(toks[0].as_str()) {
            let c = CpuInfo {
                times: CpuTimes {
                    user: tok_u64(&toks[1]),
                    nice: tok_u64(&toks[2]),
                    sys: tok_u64(&toks[3]),
                    idle: tok_u64(&toks[4]),
                    iowait: tok_u64(&toks[5]),
                    irq: tok_u64(&toks[6]),
                    softirq: tok_u64(&toks[7]),
                },
                speed_mhz: None,
            };
            r.push(c);
            proof {
                assert(spec_cpu_line(lv[i as int]) == Some(c));
                assert(r@ =~= spec_cpu_list(lv.subrange(0, i as int + 1)));
            }
        } else {
            proof {
                assert(spec_cpu_line(lv[i as int]) is None);
                assert(r@ =~= spec_cpu_list(lv.subrange(0, i as int + 1)));
            }
        }
        i = i + 1;
    }
    proof {
        assert(lv.subrange(0, n as int) =~= lv);
    }
    r
}

// ---------------------------------------------------------------------------
// Flip counter report
// ---------------------------------------------------------------------------
/// What one line contributes to the flip count: the digits right after the
/// first `flips=` marker of the trimmed line, when there are any and they
/// fit the counter.
pub open spec fn spec_flips_line(l0: Seq<char>) -> Option<u64> {
    let l = spec_trim(l0);
    match spec_find_sub(l, "flips="@) {
        Some(i) => {
            let rem = l.subrange(i + 6, l.len() as int);
            let d = rem.subrange(0, digit_run(rem));
            spec_parse_u64(d)
        },
        None => None,
    }
}

/// Length of the maximal digit prefix.
pub open spec fn digit_run(s: Seq<char>) -> int
    decreases s.len(),
{
    if s.len() > 0 && is_digit(s[0]) {
        1 + digit_run(s.drop_first())
    } else {
        0
    }
}

proof fn lemma_digit_run_at(s: Seq<char>, j: int)
    requires
        0 <= j <= s.len(),
        forall|k: int| 0 <= k < j ==> is_digit(#[trigger] s[k]),
        j == s.len() || !is_digit(s[j]),
    ensures
        digit_run(s) == j,
    decreases j,
{
    if j > 0 {
        lemma_digit_run_at(s.drop_first(), j - 1);
    }
}

/// The flip count of a whole report: the first line that yields one.
pub open spec fn spec_parse_flips(ls: Seq<Seq<char>>) -> Option<u64>
    decreases ls.len(),
{
    if ls.len() == 0 {
        None
    } else {
        match spec_flips_line(ls[0]) {
            Some(v) => Some(v),
            None => spec_parse_flips(ls.drop_first()),
        }
    }
}

/// Finds the display server's flip counter: the first line carrying
/// `flips=<digits>`.
#[verifier::loop_isolation(false)]
pub fn parse_flips_count(output: &str) -> (r: Option<u64>)
    ensures
        r == spec_parse_flips(spec_lines(output@)),
{
    let ls = split_lines(output);
    let ghost lv = spec_lines(output@);
    let n = ls.len();
    let mut i: usize = 0;
    proof {
        assert(lv.subrange(0, n as int) =~= lv);
    }
    while i < n
        invariant
            0 <= i <= n,
            n == lv.len(),
            spec_parse_flips(lv) == spec_parse_flips(lv.subrange(i as int, n as int)),
        decreases n - i,
    {
        proof {
            assert(ls@[i as int]@ == lv[i as int]);
            let pre = lv.subrange(i as int, n as int);
            assert(pre[0] == lv[i as int]);
            assert(pre.drop_first() =~= lv.subrange(i as int + 1, n as int));
        }
        let line = trim(ls[i].as_str());
        let nl = line.unicode_len();
        match find_sub(line, "flips=") {
            Some(idx) => {
                proof {
                    lemma_find_sub_props(line@, "flips="@);
                    reveal_strlit("flips=");
                }
                let rem = line.substring_char(idx + 6, nl);
                let rn = rem.unicode_len();
                let mut j: usize = 0;
                while j < rn && crate::text::is_digit_exec(rem.get_char(j))
                    invariant
                        0 <= j <= rn,
                        forall|k: int| 0 <= k < j ==> is_digit(#[trigger] rem@[k]),
                    decreases rn - j,
                {
                    j = j + 1;
                }
                proof {
                    lemma_digit_run_at(rem@, j as int);
                }
                let digits = rem.substring_char(0, j);
                match parse_u64(digits) {
                    Some(v) => {
                        return Some(v);
                    },
                    None => {},
                }
            },
            None => {},
        }
        i = i + 1;
    }
    proof {
        assert(lv.subrange(n as int, n as int) =~= Seq::<Seq<char>>::empty());
    }
    None
}

// ---------------------------------------------------------------------------
// CPU clock speeds
// ---------------------------------------------------------------------------
/// The per-core clock speeds in megahertz a speeds listing denotes: each
/// line's trimmed text read as kilohertz, divided by a thousand; lines that
/// are not numbers contribute nothing.
pub open spec fn spec_cpu_speeds(ls: Seq<Seq<char>>) -> Seq<u32>
    decreases ls.len(),
{
    if ls.len() == 0 {
        Seq::empty()
    } else {
        (match spec_parse_u32(spec_trim(ls[0])) {
            Some(v) => seq![(v / 1000) as u32],
            None => Seq::empty(),
        }) + spec_cpu_speeds(ls.drop_first())
    }
}

proof fn lemma_cpu_speeds_snoc(ls: Seq<Seq<char>>, x: Seq<char>)
    ensures
        spec_cpu_speeds(ls.push(x)) =~= spec_cpu_speeds(ls) + (match spec_parse_u32(spec_trim(x)) {
            Some(v) => seq![(v / 1000) as u32],
            None => Seq::<u32>::empty(),
        }),
    decreases ls.len(),
{
    if ls.len() == 0 {
        assert(ls.push(x).drop_first() =~= Seq::<Seq<char>>::empty());
        assert(ls.push(x)[0] == x);
        assert(spec_cpu_speeds(ls) =~= Seq::<u32>::empty());
        assert(spec_cpu_speeds(ls.push(x).drop_first()) == spec_cpu_speeds(ls));
        assert(spec_cpu_speeds(ls.push(x)) =~= (match spec_parse_u32(spec_trim(x)) {
            Some(v) => seq![(v / 1000) as u32],
            None => Seq::<u32>::empty(),
        }));
    } else {
        assert(ls.push(x)[0] == ls[0]);
        assert(ls.push(x).drop_first() =~= ls.drop_first().push(x));
        lemma_cpu_speeds_snoc(ls.drop_first(), x);
        let ifx: Seq<u32> = match spec_parse_u32(spec_trim(x)) {
            Some(v) => seq![(v / 1000) as u32],
            None => Seq::empty(),
        };
        let if0: Seq<u32> = match spec_parse_u32(spec_trim(ls[0])) {
            Some(v) => seq![(v / 1000) as u32],
            None => Seq::empty(),
        };
        assert(spec_cpu_speeds(ls.push(x)) =~= if0 + (spec_cpu_speeds(ls.drop_first()) + ifx));
        assert(if0 + (spec_cpu_speeds(ls.drop_first()) + ifx) =~= (if0 + spec_cpu_speeds(
            ls.drop_first(),
        )) + ifx);
    }
}

/// Reads the per-core clock speeds from a speeds listing.
#[verifier::loop_isolation(false)]
pub fn parse_cpu_speeds(output: &str) -> (r: Vec<u32>)
    ensures
        r@ == spec_cpu_speeds(spec_lines(output@)),
{
    let ls = split_lines(output);
    let ghost lv = spec_lines(output@);
    let n = ls.len();
    let mut r: Vec<u32> = Vec::new();
    let mut i: usize = 0;
    proof {
        assert(lv.subrange(0, 0) =~= Seq::<Seq<char>>::empty());
    }
    while i < n
        invariant
            0 <= i <= n,
            n == lv.len(),
            r@ == spec_cpu_speeds(lv.subrange(0, i as int)),
        decreases n - i,
    {
        proof {
            assert(ls@[i as int]@ == lv[i as int]);
            assert(lv.subrange(0, i as int).push(lv[i as int]) =~= lv.subrange(0, i as int + 1));
            lemma_cpu_speeds_snoc(lv.subrange(0, i as int), lv[i as int]);
        }
        match parse_u32(trim(ls[i].as_str())) {
            Some(v) => {
                r.push(v / 1000);
            },
            None => {},
        }
        proof {
            assert(r@ =~= spec_cpu_speeds(lv.subrange(0, i as int + 1)));
        }
        i = i + 1;
    }
    proof {
        assert(lv.subrange(0, n as int) =~= lv);
    }
    r
}

/// Assigns known clock speeds to the first cores, index by index; cores
/// beyond the speeds list keep theirs unknown.
#[verifier::loop_isolation(false)]
pub fn merge_cpu_speeds(cpus: &mut Vec<CpuInfo>, speeds: &Vec<u32>)
    ensures
        final(cpus)@.len() == old(cpus)@.len(),
        forall|i: int|
            0 <= i < final(cpus)@.len() ==> #[trigger] final(cpus)@[i] == (CpuInfo {
                times: old(cpus)@[i].times,
                speed_mhz: if i < speeds@.len() {
                    Some(speeds@[i])
                } else {
                    old(cpus)@[i].speed_mhz
                },
            }),
{
    let n = cpus.len();
    let m = speeds.len();
    let mut i: usize = 0;
    while i < n && i < m
        invariant
            0 <= i <= n,
            0 <= i <= m,
            n == cpus@.len(),
            m == speeds@.len(),
            cpus@.len() == old(cpus)@.len(),
            forall|k: int|
                0 <= k < i ==> #[trigger] cpus@[k] == (CpuInfo {
                    times: old(cpus)@[k].times,
                    speed_mhz: Some(speeds@[k]),
                }),
            forall|k: int| i <= k < n ==> #[trigger] cpus@[k] == old(cpus)@[k],
        decreases n - i,
    {
        let t = cpus[i].times;
        cpus.set(i, CpuInfo { times: t, speed_mhz: Some(speeds[i]) });
        i = i + 1;
    }
    proof {
        assert forall|k: int| 0 <= k < cpus@.len() implies #[trigger] cpus@[k] == (CpuInfo {
            times: old(cpus)@[k].times,
            speed_mhz: if k < speeds@.len() {
                Some(speeds@[k])
            } else {
                old(cpus)@[k].speed_mhz
            },
        }) by {
            if k >= i {
                assert(cpus@[k] == old(cpus)@[k]);
                assert(cpus@[k] =~= (CpuInfo {
                    times: old(cpus)@[k].times,
                    speed_mhz: old(cpus)@[k].speed_mhz,
                }));
            }
        }
    }
}

// ---------------------------------------------------------------------------
// Uptime
// ---------------------------------------------------------------------------
/// The whole seconds of an uptime report: its first whitespace token read as
/// a decimal number and truncated, zero when there is none or it is not a
/// number.
pub open spec fn spec_uptime_secs(text: Seq<char>) -> u64 {
    let toks = spec_split_ws(text);
    if toks.len() > 0 {
        match spec_decimal_value(toks[0]) {
            Some(v) => if v > u64::MAX {
                u64::MAX
            } else {
                v as u64
            },
            None => 0u64,
        }
    } else {
        0u64
    }
}

/// Reads the whole seconds of an uptime report.
pub fn parse_uptime(output: &str) -> (r: u64)
    ensures
        r == spec_uptime_secs(output@),
{
    let toks = split_ws(output);
    if toks.len() > 0 {
        proof {
            assert(toks@[0]@ == spec_split_ws(output@)[0]);
        }
        match decimal_trunc(toks[0].as_str(), u64::MAX) {
            Some(v) => v,
            None => 0,
        }
    } else {
        0
    }
}

// ---------------------------------------------------------------------------
// The aggregate profile
// ---------------------------------------------------------------------------
/// A composite performance snapshot.  Every probe is its own outcome: one
/// failing probe never blocks the others.
#[derive(Debug, PartialEq)]
pub struct PerformanceProfile {
    pub memory: Result<MemoryInfo, PerformanceError>,
    pub battery: Result<BatteryInfo, PerformanceError>,
    pub cpu: Result<Vec<CpuInfo>, PerformanceError>,
    pub fps: Result<FpsData, PerformanceError>,
    pub uptime: Result<u64, PerformanceError>,
}

/// Builds the composite snapshot from the five probes' raw outputs, each
/// already its own success-or-failure.  Each field depends only on its own
/// probe: a transport failure is passed through, a received report is
/// parsed, and a report missing its defining field becomes the structural
/// parse error.
pub fn build_performance_profile(
    meminfo_out: Result<String, PerformanceError>,
    battery_out: Result<String, PerformanceError>,
    stat_out: Result<String, PerformanceError>,
    speeds_out: Result<String, PerformanceError>,
    surface_out: Result<String, PerformanceError>,
    uptime_out: Result<String, PerformanceError>,
    timestamp_ms: u64,
) -> (r: PerformanceProfile)
    ensures
        match (&r.memory, &meminfo_out) {
            (Ok(m), Ok(t)) => spec_parse_meminfo(t@) == Some(*m),
            (Err(PerformanceError::ParseError(msg)), Ok(t)) => spec_parse_meminfo(t@) is None
                && msg@ == "Failed to parse meminfo"@,
            (Err(e1), Err(e2)) => e1 == e2,
            _ => false,
        },
        match (&r.battery, &battery_out) {
            (Ok(b), Ok(t)) => spec_parse_battery_info(t@) == Some(*b),
            (Err(PerformanceError::ParseError(msg)), Ok(t)) => spec_parse_battery_info(t@) is None
                && msg@ == "Failed to parse battery info"@,
            (Err(e1), Err(e2)) => e1 == e2,
            _ => false,
        },
        match (&r.cpu, &stat_out) {
            (Ok(v), Ok(t)) => v@ == merged_cpu_view(t@, &speeds_out),
            (Err(e1), Err(e2)) => e1 == e2,
            _ => false,
        },
        match (&r.fps, &surface_out) {
            (Ok(f), Ok(t)) => spec_parse_flips(spec_lines(t@)) == Some(f.flips) && f.timestamp_ms
                == timestamp_ms,
            (Err(PerformanceError::ParseError(msg)), Ok(t)) => spec_parse_flips(
                spec_lines(t@),
            ) is None && msg@ == "Could not find flips count"@,
            (Err(e1), Err(e2)) => e1 == e2,
            _ => false,
        },
        match (&r.uptime, &uptime_out) {
            (Ok(u), Ok(t)) => u == spec_uptime_secs(t@),
            (Err(e1), Err(e2)) => e1 == e2,
            _ => false,
        },
{
    let memory = match meminfo_out {
        Ok(t) => match parse_meminfo(t.as_str()) {
            Some(m) => Ok(m),
            None => Err(PerformanceError::ParseError(String::from_str("Failed to parse meminfo"))),
        },
        Err(e) => Err(e),
    };
    let battery = match battery_out {
        Ok(t) => match parse_battery_info(t.as_str()) {
            Some(b) => Ok(b),
            None => Err(
                PerformanceError::ParseError(String::from_str("Failed to parse battery info")),
            ),
        },
        Err(e) => Err(e),
    };
    let cpu = match stat_out {
        Ok(t) => {
            let mut cpus = parse_cpu_stat(t.as_str());
            match &speeds_out {
                Ok(st) => {
                    let speeds = parse_cpu_speeds(st.as_str());
                    merge_cpu_speeds(&mut cpus, &speeds);
                    proof {
                        assert(cpus@ =~= merged_cpu_view(t@, &speeds_out));
                    }
                },
                Err(_) => {
                    proof {
                        assert(cpus@ =~= merged_cpu_view(t@, &speeds_out));
                    }
                },
            }
            Ok(cpus)
        },
        Err(e) => Err(e),
    };
    let fps = match surface_out {
        Ok(t) => match parse_flips_count(t.as_str()) {
            Some(f) => Ok(FpsData { flips: f, timestamp_ms }),
            None => Err(
                PerformanceError::ParseError(String::from_str("Could not find flips count")),
            ),
        },
        Err(e) => Err(e),
    };
    let uptime = match uptime_out {
        Ok(t) => Ok(parse_uptime(t.as_str())),
        Err(e) => Err(e),
    };
    PerformanceProfile { memory, battery, cpu, fps, uptime }
}

/// The per-core list after applying whatever speeds listing was received.
pub open spec fn merged_cpu_view(
    stat_text: Seq<char>,
    speeds_out: &Result<String, PerformanceError>,
) -> Seq<CpuInfo> {
    let base = spec_cpu_list(spec_lines(stat_text));
    match speeds_out {
        Ok(st) => {
            let speeds = spec_cpu_speeds(spec_lines(st@));
            Seq::new(
                base.len(),
                |i: int|
                    CpuInfo {
                        times: base[i].times,
                        speed_mhz: if i < speeds.len() {
                            Some(speeds[i])
                        } else {
                            base[i].speed_mhz
                        },
                    },
            )
        },
        Err(_) => base,
    }
}

} // verus!
