//! The device identity snapshot and the small report parsers that feed it:
//! the battery level line, the display dump's refresh rates, and the
//! single-line storage summary.  Every field of the snapshot is independently
//! present or absent; one missing probe never blocks the others.

use vstd::prelude::*;

use crate::text::{
    contains_sub, dec_run_len, decimal_trunc, find_char, find_sub_lower, is_dec_char,
    is_digit_exec, is_space, is_space_exec, lemma_dec_run_at, lemma_find_char_props,
    lemma_find_sub_props, lemma_lower_fixed, lemma_skip_char_front_at, lemma_skip_spaces_at,
    lemma_split_ws_nonempty, lower_char, lower_char_exec, parse_u8, skip_char_front, skip_spaces,
    spec_ascii_lower, spec_contains, spec_decimal_value, spec_find_char, spec_find_sub,
    spec_lines, spec_parse_u8, spec_split_ws, spec_trim, split_lines, split_ws, trim,
};

verus! {

// ---------------------------------------------------------------------------
// Types
// ---------------------------------------------------------------------------
/// Capacity summary of the main data filesystem, kept as the original
/// decimal strings to preserve unit formatting.  When present, all three
/// fields are non-empty.
#[derive(Debug, PartialEq)]
pub struct Storage {
    pub total: String,
    pub used: String,
    pub free: String,
}

#[verifier::ext_equal]
pub struct StorageView {
    pub total: Seq<char>,
    pub used: Seq<char>,
    pub free: Seq<char>,
}

impl View for Storage {
    type V = StorageView;

    open spec fn view(&self) -> StorageView {
        StorageView { total: self.total@, used: self.used@, free: self.free@ }
    }
}

impl Clone for Storage {
    fn clone(&self) -> (r: Self)
        ensures
            r == *self,
    {
        Storage { total: self.total.clone(), used: self.used.clone(), free: self.free.clone() }
    }
}

/// Build identity details.
#[derive(Debug, PartialEq)]
pub struct BuildInfo {
    pub security_patch: Option<String>,
    pub build_id: Option<String>,
}

impl Clone for BuildInfo {
    fn clone(&self) -> (r: Self)
        ensures
            r == *self,
    {
        BuildInfo {
            security_patch: match &self.security_patch {
                Some(s) => Some(s.clone()),
                None => None,
            },
            build_id: match &self.build_id {
                Some(s) => Some(s.clone()),
                None => None,
            },
        }
    }
}

/// A point-in-time identity snapshot of one device.  Every optional field is
/// independently present or absent.
#[derive(Debug, PartialEq)]
pub struct DeviceInfo {
    pub serial: String,
    pub model: Option<String>,
    pub manufacturer: Option<String>,
    pub android_version: Option<String>,
    pub abi: Option<String>,
    pub slot: Option<String>,
    pub battery: Option<u8>,
    pub storage: Option<Storage>,
    pub screen_resolution: Option<String>,
    pub refresh_rate: Option<u32>,
    pub build: Option<BuildInfo>,
}

/// One row of a device listing.
#[derive(Debug, PartialEq)]
pub struct DeviceListItem {
    pub serial: String,
    pub model: Option<String>,
}

/// How a reboot request leaves the device.
#[derive(Debug, Clone, Copy, PartialEq, Eq, Structural)]
pub enum RebootMode {
    Normal,
    Recovery,
    Bootloader,
    Fastboot,
    Sideload,
    SideloadAutoReboot,
}

pub open spec fn opt_seq(o: &Option<String>) -> Option<Seq<char>> {
    match o {
        Some(s) => Some(s@),
        None => None,
    }
}

// ---------------------------------------------------------------------------
// Battery level line
// ---------------------------------------------------------------------------
/// The first line mentioning a level field.
pub open spec fn spec_level_line(ls: Seq<Seq<char>>) -> Option<Seq<char>>
    decreases ls.len(),
{
    if ls.len() == 0 {
        None
    } else if spec_contains(ls[0], "level:"@) {
        Some(ls[0])
    } else {
        spec_level_line(ls.drop_first())
    }
}

/// The battery level a dump excerpt denotes: on the first line mentioning a
/// level field, all remaining text after the first colon, trimmed, read as a
/// small number.
pub open spec fn spec_battery_level(text: Seq<char>) -> Option<u8> {
    match spec_level_line(spec_lines(text)) {
        Some(l) => match spec_find_char(l, ':') {
            Some(i) => spec_parse_u8(spec_trim(l.subrange(i + 1, l.len() as int))),
            None => None,
        },
        None => None,
    }
}

/// Reads the battery level from a dump excerpt.
#[verifier::loop_isolation(false)]
pub fn parse_battery(raw: &str) -> (r: Option<u8>)
    ensures
        r == spec_battery_level(raw@),
{
    let ls = split_lines(raw);
    let ghost lv = spec_lines(raw@);
    let n = ls.len();
    let mut i: usize = 0;
    proof {
        reveal_strlit("level:");
        assert(lv.subrange(0, n as int) =~= lv);
    }
    while i < n
        invariant
            0 <= i <= n,
            n == lv.len(),
            spec_level_line(lv) == spec_level_line(lv.subrange(i as int, n as int)),
        decreases n - i,
    {
        proof {
            assert(ls@[i as int]@ == lv[i as int]);
            let pre = lv.subrange(i as int, n as int);
            assert(pre[0] == lv[i as int]);
            assert(pre.drop_first() =~= lv.subrange(i as int + 1, n as int));
        }
        let line = ls[i].as_str();
        if contains_sub(line, "level:") {
            let nl = line.unicode_len();
            match find_char(line, ':') {
                Some(j) => {
                    proof {
                        lemma_find_char_props(line@, ':');
                    }
                    return parse_u8(trim(line.substring_char(j + 1, nl)));
                },
                None => {
                    return None;
                },
            }
        }
        i = i + 1;
    }
    proof {
        assert(lv.subrange(n as int, n as int) =~= Seq::<Seq<char>>::empty());
    }
    None
}

// ---------------------------------------------------------------------------
// Refresh rate
// ---------------------------------------------------------------------------
/// The rate one display dump line names: the decimal number after the first
/// case-insensitive rate marker, with leading colons, equals signs and
/// whitespace skipped, truncated to whole hertz.
pub open spec fn spec_refresh_rate(line: Seq<char>) -> Option<u32> {
    let low = spec_ascii_lower(line);
    match spec_find_sub(low, "refreshrate"@) {
        Some(i) => {
            let rest = low.subrange(i + 11, low.len() as int);
            let a = skip_char_front(rest, ':');
            let b = skip_char_front(a, '=');
            let c = skip_spaces(b);
            let run = c.subrange(0, dec_run_len(c));
            match spec_decimal_value(run) {
                Some(v) => Some(
                    (if v > u32::MAX {
                        u32::MAX as int
                    } else {
                        v
                    }) as u32,
                ),
                None => None,
            }
        },
        None => None,
    }
}

/// Extracts the rate named on one display dump line, matching the marker
/// case-insensitively.
#[verifier::loop_isolation(false)]
pub fn extract_refresh_rate(line: &str) -> (r: Option<u32>)
    ensures
        r == spec_refresh_rate(line@),
{
    proof {
        reveal_strlit("refreshrate");
    }
    let n = line.unicode_len();
    let ghost low = spec_ascii_lower(line@);
    let start = match find_sub_lower(line, "refreshrate") {
        Some(i) => i,
        None => {
            return None;
        },
    };
    proof {
        lemma_find_sub_props(low, "refreshrate"@);
        assert(low.len() == n);
    }
    let ghost rest = low.subrange(start + 11, n as int);
    let mut j = start + 11;
    while j < n && lower_char_exec(line.get_char(j)) == ':'
        invariant
            start + 11 <= j <= n,
            forall|k: int| start + 11 <= k < j ==> #[trigger] low[k] == ':',
        decreases n - j,
    {
        proof {
            assert(low[j as int] == lower_char(line@[j as int]));
        }
        j = j + 1;
    }
    proof {
        assert(forall|k: int| 0 <= k < j - (start + 11) ==> #[trigger] rest[k] == ':');
        lemma_skip_char_front_at(rest, ':', j - (start + 11));
        assert(skip_char_front(rest, ':') =~= low.subrange(j as int, n as int));
    }
    let ghost a = low.subrange(j as int, n as int);
    let mut j2 = j;
    while j2 < n && lower_char_exec(line.get_char(j2)) == '='
        invariant
            j <= j2 <= n,
            forall|k: int| j <= k < j2 ==> #[trigger] low[k] == '=',
        decreases n - j2,
    {
        proof {
            assert(low[j2 as int] == lower_char(line@[j2 as int]));
        }
        j2 = j2 + 1;
    }
    proof {
        assert(forall|k: int| 0 <= k < j2 - j ==> #[trigger] a[k] == '=');
        lemma_skip_char_front_at(a, '=', j2 - j);
        assert(skip_char_front(a, '=') =~= low.subrange(j2 as int, n as int));
    }
    let ghost b = low.subrange(j2 as int, n as int);
    let mut j3 = j2;
    while j3 < n && is_space_lower(line, j3)
        invariant
            j2 <= j3 <= n,
            n == line@.len(),
            forall|k: int| j2 <= k < j3 ==> is_space(#[trigger] low[k]),
        decreases n - j3,
    {
        proof {
            assert(low[j3 as int] == lower_char(line@[j3 as int]));
        }
        j3 = j3 + 1;
    }
    proof {
        assert(forall|k: int| 0 <= k < j3 - j2 ==> is_space(#[trigger] b[k]));
        lemma_skip_spaces_at(b, j3 - j2);
        assert(skip_spaces(b) =~= low.subrange(j3 as int, n as int));
    }
    let ghost c = low.subrange(j3 as int, n as int);
    let mut j4 = j3;
    while j4 < n && is_dec_lower(line, j4)
        invariant
            j3 <= j4 <= n,
            n == line@.len(),
            forall|k: int| j3 <= k < j4 ==> is_dec_char(#[trigger] low[k]),
        decreases n - j4,
    {
        proof {
            assert(low[j4 as int] == lower_char(line@[j4 as int]));
        }
        j4 = j4 + 1;
    }
    proof {
        assert(forall|k: int| 0 <= k < j4 - j3 ==> is_dec_char(#[trigger] c[k]));
        if j4 < n {
            assert(low[j4 as int] == lower_char(line@[j4 as int]));
        }
        lemma_dec_run_at(c, j4 - j3);
        assert(c.subrange(0, dec_run_len(c)) =~= low.subrange(j3 as int, j4 as int));
        assert(forall|k: int| j3 <= k < j4 ==> #[trigger] line@[k] == low[k]) by {
            assert forall|k: int| j3 <= k < j4 implies #[trigger] line@[k] == low[k] by {
                lemma_lower_fixed(line@[k]);
            }
        }
        assert(line@.subrange(j3 as int, j4 as int) =~= low.subrange(j3 as int, j4 as int));
    }
    let run = line.substring_char(j3, j4);
    proof {
        crate::text::lemma_decimal_nonneg(run@);
    }
    match decimal_trunc(run, u32::MAX as u64) {
        Some(v) => Some(v as u32),
        None => None,
    }
}

/// Whether the lowercased character at an index is whitespace.
fn is_space_lower(line: &str, k: usize) -> (r: bool)
    requires
        k < line@.len(),
    ensures
        r == is_space(lower_char(line@[k as int])),
{
    is_space_exec(lower_char_exec(line.get_char(k)))
}

/// Whether the lowercased character at an index is a digit or a dot.
fn is_dec_lower(line: &str, k: usize) -> (r: bool)
    requires
        k < line@.len(),
    ensures
        r == is_dec_char(lower_char(line@[k as int])),
{
    let c = lower_char_exec(line.get_char(k));
    is_digit_exec(c) || c == '.'
}

/// The highest rate any marker line of a whole display dump names.
pub open spec fn refresh_fold(ls: Seq<Seq<char>>, acc: u32) -> u32
    decreases ls.len(),
{
    if ls.len() == 0 {
        acc
    } else {
        let step = if spec_contains(ls[0], "refreshRate"@) || spec_contains(
            ls[0],
            "RefreshRate"@,
        ) {
            match spec_refresh_rate(ls[0]) {
                Some(v) => if v > acc {
                    v
                } else {
                    acc
                },
                None => acc,
            }
        } else {
            acc
        };
        refresh_fold(ls.drop_first(), step)
    }
}

/// What a whole display dump says the maximum refresh rate is: the highest
/// rate named on a marker line, or nothing when no line names a positive
/// one.
pub open spec fn spec_max_refresh(text: Seq<char>) -> Option<u32> {
    let m = refresh_fold(spec_lines(text), 0u32);
    if m > 0 {
        Some(m)
    } else {
        None
    }
}

/// Finds the maximum refresh rate a display dump names.
#[verifier::loop_isolation(false)]
pub fn max_refresh_rate_from_text(output: &str) -> (r: Option<u32>)
    ensures
        r == spec_max_refresh(output@),
{
    let ls = split_lines(output);
    let ghost lv = spec_lines(output@);
    let n = ls.len();
    let mut max_rate: u32 = 0;
    let mut i: usize = 0;
    proof {
        reveal_strlit("refreshRate");
        reveal_strlit("RefreshRate");
        assert(lv.subrange(0, n as int) =~= lv);
    }
    while i < n
        invariant
            0 <= i <= n,
            n == lv.len(),
            refresh_fold(lv, 0u32) == refresh_fold(lv.subrange(i as int, n as int), max_rate),
        decreases n - i,
    {
        proof {
            assert(ls@[i as int]@ == lv[i as int]);
            let pre = lv.subrange(i as int, n as int);
            assert(pre[0] == lv[i as int]);
            assert(pre.drop_first() =~= lv.subrange(i as int + 1, n as int));
        }
        let line = ls[i].as_str();
        if contains_sub(line, "refreshRate") || contains_sub(line, "RefreshRate") {
            match extract_refresh_rate(line) {
                Some(rate) => {
                    if rate > max_rate {
                        max_rate = rate;
                    }
                },
                None => {},
            }
        }
        i = i + 1;
    }
    proof {
        assert(lv.subrange(n as int, n as int) =~= Seq::<Seq<char>>::empty());
    }
    if max_rate > 0 {
        Some(max_rate)
    } else {
        None
    }
}

// ---------------------------------------------------------------------------
// Storage summary
// ---------------------------------------------------------------------------
/// What the one-line usage summary denotes: its second, third and fourth
/// whitespace tokens, which are never empty.
pub open spec fn spec_storage_summary(df: Seq<char>) -> Option<StorageView> {
    let toks = spec_split_ws(df);
    if toks.len() >= 4 {
        Some(StorageView { total: toks[1], used: toks[2], free: toks[3] })
    } else {
        None
    }
}

/// Reads the usage summary line.  A present result always carries three
/// non-empty capacity strings.
pub fn parse_storage_df(df: &str) -> (r: Option<Storage>)
    ensures
        match r {
            Some(s) => spec_storage_summary(df@) == Some(s@) && s@.total.len() > 0 && s@.used.len()
                > 0 && s@.free.len() > 0,
            None => spec_storage_summary(df@) is None,
        },
{
    let toks = split_ws(df);
    proof {
        lemma_split_ws_nonempty(df@);
    }
    if toks.len() >= 4 {
        proof {
            assert(toks@[1]@ == spec_split_ws(df@)[1]);
            assert(toks@[2]@ == spec_split_ws(df@)[2]);
            assert(toks@[3]@ == spec_split_ws(df@)[3]);
        }
        let s = Storage { total: toks[1].clone(), used: toks[2].clone(), free: toks[3].clone() };
        proof {
            assert(s@ =~= spec_storage_summary(df@)->Some_0);
        }
        Some(s)
    } else {
        None
    }
}

// ---------------------------------------------------------------------------
// The identity snapshot
// ---------------------------------------------------------------------------
/// Assembles the identity snapshot from the probes' raw outputs.  Each field
/// depends only on its own probe, so one absent or unparsable probe never
/// blocks the others.
pub fn assemble_device_info(
    serial: &str,
    model: Option<String>,
    manufacturer: Option<String>,
    android_version: Option<String>,
    abi: Option<String>,
    slot: Option<String>,
    battery_raw: &str,
    storage_df: Option<String>,
    screen_resolution: Option<String>,
    display_dump: Option<String>,
    security_patch: Option<String>,
    build_id: Option<String>,
) -> (r: DeviceInfo)
    ensures
        r.serial@ == serial@,
        opt_seq(&r.model) == opt_seq(&model),
        opt_seq(&r.manufacturer) == opt_seq(&manufacturer),
        opt_seq(&r.android_version) == opt_seq(&android_version),
        opt_seq(&r.abi) == opt_seq(&abi),
        opt_seq(&r.slot) == opt_seq(&slot),
        r.battery == spec_battery_level(battery_raw@),
        (match r.storage {
            Some(ref s) => Some(s@),
            None => None,
        }) == (match storage_df {
            Some(t) => spec_storage_summary(t@),
            None => None,
        }),
        opt_seq(&r.screen_resolution) == opt_seq(&screen_resolution),
        r.refresh_rate == (match display_dump {
            Some(t) => spec_max_refresh(t@),
            None => None,
        }),
        (match r.build {
            Some(ref b) => opt_seq(&b.security_patch) == opt_seq(&security_patch) && opt_seq(
                &b.build_id,
            ) == opt_seq(&build_id),
            None => false,
        }),
{
    let battery = parse_battery(battery_raw);
    let storage = match &storage_df {
        Some(t) => parse_storage_df(t.as_str()),
        None => None,
    };
    let refresh_rate = match &display_dump {
        Some(t) => max_refresh_rate_from_text(t.as_str()),
        None => None,
    };
    DeviceInfo {
        serial: serial.to_owned(),
        model,
        manufacturer,
        android_version,
        abi,
        slot,
        battery,
        storage,
        screen_resolution,
        refresh_rate,
        build: Some(BuildInfo { security_patch, build_id }),
    }
}

} // verus!
