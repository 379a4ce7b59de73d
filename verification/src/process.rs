//! Process listing and per-process memory parsers, and the outcome checks of
//! the kill commands.

use vstd::prelude::*;

use crate::text::{
    contains_sub, parse_u32, spec_contains, spec_lines, spec_parse_u32, spec_split_ws,
    spec_starts_with, split_lines, split_ws, starts_with, };

verus! {

/// One running process: its id, owning user and executable name.
#[derive(Debug, PartialEq)]
pub struct ProcessInfo {
    pub pid: u32,
    pub name: String,
    pub user: String,
}

#[verifier::ext_equal]
pub struct ProcessInfoView {
    pub pid: u32,
    pub name: Seq<char>,
    pub user: Seq<char>,
}

impl View for ProcessInfo {
    type V = ProcessInfoView;

    open spec fn view(&self) -> ProcessInfoView {
        ProcessInfoView { pid: self.pid, name: self.name@, user: self.user@ }
    }
}

impl Clone for ProcessInfo {
    fn clone(&self) -> (r: Self)
        ensures
            r == *self,
    {
        ProcessInfo { pid: self.pid, name: self.name.clone(), user: self.user.clone() }
    }
}

/// A process's memory counters, kept as the raw kilobyte fields of the
/// status reports.
#[derive(Debug, Clone, PartialEq)]
pub struct MemoryInfo {
    pub total: String,
    pub free: String,
    pub used: String,
    pub threshold: String,
    pub low_memory: bool,
}

/// Failures of the process subsystem.
#[derive(Debug, Clone, PartialEq)]
pub enum ProcessError {
    ProcessNotFound(u32),
    PackageNotFound(String),
    PermissionDenied,
    CommandFailed(String),
}

impl ProcessError {
    /// A human-readable description of the failure.
    pub fn message(&self) -> (r: String)
        ensures
            match self {
                ProcessError::ProcessNotFound(pid) => r@ == "Process with PID "@
                    + spec_u32_digits(*pid) + " not found"@,
                ProcessError::PackageNotFound(p) => r@ == "Package "@ + p@ + " not found"@,
                ProcessError::PermissionDenied => r@ == "Permission denied to kill process"@,
                ProcessError::CommandFailed(m) => r@ == "Command failed: "@ + m@,
            },
    {
        match self {
            ProcessError::ProcessNotFound(pid) => {
                let mut s = String::from_str("Process with PID ");
                s.append(u32_digits(*pid).as_str());
                s.append(" not found");
                proof {
                    assert(s@ =~= "Process with PID "@ + spec_u32_digits(*pid) + " not found"@);
                }
                s
            },
            ProcessError::PackageNotFound(p) => {
                let mut s = String::from_str("Package ");
                s.append(p.as_str());
                s.append(" not found");
                s
            },
            ProcessError::PermissionDenied => String::from_str(
                "Permission denied to kill process",
            ),
            ProcessError::CommandFailed(m) => {
                let mut s = String::from_str("Command failed: ");
                s.append(m.as_str());
                s
            },
        }
    }
}

/// The decimal digits of a number, most significant first.
pub open spec fn spec_u32_digits(v: u32) -> Seq<char>
    decreases v,
{
    if v < 10 {
        seq![digit_char(v as int)]
    } else {
        spec_u32_digits(v / 10).push(digit_char((v % 10) as int))
    }
}

/// The character of one digit value.
pub open spec fn digit_char(d: int) -> char {
    (('0' as u8) + d as u8) as char
}

/// Renders a number in decimal.
pub fn u32_digits(v: u32) -> (r: String)
    ensures
        r@ == spec_u32_digits(v),
    decreases v,
{
    let d: u8 = ('0' as u8) + (v % 10) as u8;
    let mut buf: Vec<u8> = Vec::new();
    if v < 10 {
        buf.push(d);
        let r = crate::text::string_from_ascii(buf);
        proof {
            assert(r@ =~= spec_u32_digits(v));
        }
        r
    } else {
        let mut r = u32_digits(v / 10);
        buf.push(d);
        let tail = crate::text::string_from_ascii(buf);
        proof {
            assert(tail@ =~= seq![digit_char((v % 10) as int)]);
        }
        r.append(tail.as_str());
        proof {
            assert(r@ =~= spec_u32_digits(v));
        }
        r
    }
}

// ---------------------------------------------------------------------------
// Process list
// ---------------------------------------------------------------------------
/// What one process-list line denotes: at least nine whitespace tokens with
/// an integral second token — the user, the id, and the last token as the
/// executable name.
pub open spec fn spec_process_line(l: Seq<char>) -> Option<ProcessInfoView> {
    let toks = spec_split_ws(l);
    if toks.len() >= 9 {
        match spec_parse_u32(toks[1]) {
            Some(pid) => Some(ProcessInfoView { pid: pid, name: toks.last(), user: toks[0] }),
            None => None,
        }
    } else {
        None
    }
}

/// The processes a whole listing names, header line skipped.
pub open spec fn spec_process_list(ls: Seq<Seq<char>>) -> Seq<ProcessInfoView>
    decreases ls.len(),
{
    if ls.len() == 0 {
        Seq::empty()
    } else {
        spec_process_list(ls.drop_last()) + (match spec_process_line(ls.last()) {
            Some(p) => seq![p],
            None => Seq::empty(),
        })
    }
}

pub open spec fn process_views(s: Seq<ProcessInfo>) -> Seq<ProcessInfoView> {
    Seq::new(s.len(), |i: int| s[i]@)
}

/// Parses a process listing: one record per well-formed line after the
/// header; malformed lines are skipped, never an error.
#[verifier::loop_isolation(false)]
pub fn parse_process_list(output: &str) -> (r: Vec<ProcessInfo>)
    ensures
        process_views(r@) == spec_process_list(crate::file_manager::listing_body(output@)),
{
    let ls = split_lines(output);
    let ghost body = crate::file_manager::listing_body(output@);
    let n = ls.len();
    let mut r: Vec<ProcessInfo> = Vec::new();
    let mut i: usize = 1;
    proof {
        assert(process_views(r@) =~= Seq::<ProcessInfoView>::empty());
        assert(process_views(r@) =~= spec_process_list(body.subrange(0, 0)));
    }
    while i < n
        invariant
            1 <= i <= n || (n == 0 && i == 1),
            n == spec_lines(output@).len(),
            n >= 1 ==> body.len() == n - 1,
            n == 0 ==> body.len() == 0,
            process_views(r@) == spec_process_list(body.subrange(0, i - 1)),
        decreases n - i,
    {
        proof {
            assert(ls@[i as int]@ == spec_lines(output@)[i as int]);
            assert(body[i - 1] == spec_lines(output@)[i as int]);
            assert(body.subrange(0, i as int).drop_last() =~= body.subrange(0, i - 1));
            assert(body.subrange(0, i as int).last() == body[i - 1]);
        }
        let ghost old_views = process_views(r@);
        let line = ls[i].as_str();
        let toks = split_ws(line);
        if toks.len() >= 9 {
            proof {
                assert(toks@[1]@ == spec_split_ws(line@)[1]);
                assert(toks@[0]@ == spec_split_ws(line@)[0]);
                assert(toks@[toks@.len() - 1]@ == spec_split_ws(line@).last());
            }
            match parse_u32(toks[1].as_str()) {
                Some(pid) => {
                    let p = ProcessInfo {
                        pid,
                        name: toks[toks.len() - 1].clone(),
                        user: toks[0].clone(),
                    };
                    proof {
                        assert(p@ =~= spec_process_line(body[i - 1])->Some_0);
                    }
                    r.push(p);
                    proof {
                        assert(process_views(r@) =~= old_views.push(
                            spec_process_line(body[i - 1])->Some_0,
                        ));
                        assert(process_views(r@) =~= spec_process_list(body.subrange(0, i as int)));
                    }
                },
                None => {
                    proof {
                        assert(process_views(r@) =~= spec_process_list(body.subrange(0, i as int)));
                    }
                },
            }
        } else {
            proof {
                assert(process_views(r@) =~= spec_process_list(body.subrange(0, i as int)));
            }
        }
        i = i + 1;
    }
    proof {
        if n >= 1 {
            assert(body.subrange(0, n - 1) =~= body);
        } else {
            assert(body.subrange(0, 0) =~= body);
        }
    }
    r
}

// ---------------------------------------------------------------------------
// Kill outcomes
// ---------------------------------------------------------------------------
/// Judges a kill command's output: a permission complaint is the error, any
/// other output is success.
pub fn kill_outcome(output: &str) -> (r: Result<(), ProcessError>)
    ensures
        r is Err <==> spec_contains(output@, "Operation not permitted"@) || spec_contains(
            output@,
            "Permission denied"@,
        ),
        r is Err ==> r == Err::<(), ProcessError>(ProcessError::PermissionDenied),
{
    proof {
        reveal_strlit("Operation not permitted");
        reveal_strlit("Permission denied");
    }
    if contains_sub(output, "Operation not permitted") || contains_sub(
        output,
        "Permission denied",
    ) {
        Err(ProcessError::PermissionDenied)
    } else {
        Ok(())
    }
}

/// Judges a force-stop command's output: any reported error means the
/// package was not found.
pub fn force_stop_outcome(output: &str, package_name: &str) -> (r: Result<(), ProcessError>)
    ensures
        r is Err <==> spec_contains(output@, "Error"@) || spec_contains(output@, "failed"@),
        r is Err ==> (match r {
            Err(ProcessError::PackageNotFound(p)) => p@ == package_name@,
            _ => false,
        }),
{
    proof {
        reveal_strlit("Error");
        reveal_strlit("failed");
    }
    if contains_sub(output, "Error") || contains_sub(output, "failed") {
        Err(ProcessError::PackageNotFound(package_name.to_owned()))
    } else {
        Ok(())
    }
}

// ---------------------------------------------------------------------------
// Per-process memory
// ---------------------------------------------------------------------------
/// The second whitespace token of the first line with the given prefix, or
/// the fallback `0`.
pub open spec fn spec_field_after(ls: Seq<Seq<char>>, key: Seq<char>) -> Seq<char>
    decreases ls.len(),
{
    if ls.len() == 0 {
        "0"@
    } else if spec_starts_with(ls[0], key) {
        let toks = spec_split_ws(ls[0]);
        let v = if toks.len() >= 2 {
            toks[1]
        } else {
            "0"@
        };
        spec_field_scan_rest(ls.drop_first(), key, v)
    } else {
        spec_field_after(ls.drop_first(), key)
    }
}

/// Later matching lines overwrite the field, as a fold does.
pub open spec fn spec_field_scan_rest(ls: Seq<Seq<char>>, key: Seq<char>, acc: Seq<char>) -> Seq<
    char,
>
    decreases ls.len(),
{
    if ls.len() == 0 {
        acc
    } else if spec_starts_with(ls[0], key) {
        let toks = spec_split_ws(ls[0]);
        let v = if toks.len() >= 2 {
            toks[1]
        } else {
            "0"@
        };
        spec_field_scan_rest(ls.drop_first(), key, v)
    } else {
        spec_field_scan_rest(ls.drop_first(), key, acc)
    }
}

/// Reads the second token of the last line with the given prefix, `0` when
/// no line matches or the line has no second token.
#[verifier::loop_isolation(false)]
pub fn field_after(output: &str, key: &str) -> (r: String)
    ensures
        r@ == spec_field_after(spec_lines(output@), key@),
{
    let ls = split_lines(output);
    let ghost lv = spec_lines(output@);
    let n = ls.len();
    let mut acc = String::from_str("0");
    let mut seen = false;
    let mut i: usize = 0;
    proof {
        reveal_strlit("0");
        assert(lv.subrange(0, n as int) =~= lv);
    }
    while i < n
        invariant
            0 <= i <= n,
            n == lv.len(),
            !seen ==> acc@ == "0"@ && spec_field_after(lv, key@) == spec_field_after(
                lv.subrange(i as int, n as int),
                key@,
            ),
            seen ==> spec_field_after(lv, key@) == spec_field_scan_rest(
                lv.subrange(i as int, n as int),
                key@,
                acc@,
            ),
        decreases n - i,
    {
        proof {
            assert(ls@[i as int]@ == lv[i as int]);
            let pre = lv.subrange(i as int, n as int);
            assert(pre[0] == lv[i as int]);
            assert(pre.drop_first() =~= lv.subrange(i as int + 1, n as int));
        }
        let line = ls[i].as_str();
        if starts_with(line, key) {
            let toks = split_ws(line);
            if toks.len() >= 2 {
                proof {
                    assert(toks@[1]@ == spec_split_ws(line@)[1]);
                }
                acc = toks[1].clone();
            } else {
                acc = String::from_str("0");
            }
            seen = true;
        }
        i = i + 1;
    }
    proof {
        assert(lv.subrange(n as int, n as int) =~= Seq::<Seq<char>>::empty());
    }
    acc
}

/// Assembles a process's memory record from its status report and the
/// system's memory report: sizes from the process, free space and threshold
/// from the system, and the low-memory flag from its marker line.
pub fn parse_process_memory(status_out: &str, meminfo_out: &str) -> (r: MemoryInfo)
    ensures
        r.used@ == spec_field_after(spec_lines(status_out@), "VmRSS:"@),
        r.total@ == spec_field_after(spec_lines(status_out@), "VmSize:"@),
        r.free@ == spec_field_after(spec_lines(meminfo_out@), "MemFree:"@),
        r.threshold@ == spec_field_after(spec_lines(meminfo_out@), "MemAvailable:"@),
        r.low_memory == spec_low_memory(spec_lines(meminfo_out@)),
{
    let used = field_after(status_out, "VmRSS:");
    let total = field_after(status_out, "VmSize:");
    let free = field_after(meminfo_out, "MemFree:");
    let threshold = field_after(meminfo_out, "MemAvailable:");
    let low_memory = low_memory_flag(meminfo_out);
    MemoryInfo { total, free, used, threshold, low_memory }
}

/// Whether the last low-memory marker line reports pressure.
pub open spec fn spec_low_memory(ls: Seq<Seq<char>>) -> bool
    decreases ls.len(),
{
    if ls.len() == 0 {
        false
    } else {
        let rest = spec_low_memory(ls.drop_last());
        if spec_starts_with(ls.last(), "LowMemory:"@) {
            spec_contains(ls.last(), "yes"@) || spec_contains(ls.last(), "1"@)
        } else {
            rest
        }
    }
}

#[verifier::loop_isolation(false)]
fn low_memory_flag(output: &str) -> (r: bool)
    ensures
        r == spec_low_memory(spec_lines(output@)),
{
    let ls = split_lines(output);
    let ghost lv = spec_lines(output@);
    let n = ls.len();
    let mut flag = false;
    let mut i: usize = 0;
    proof {
        reveal_strlit("LowMemory:");
        reveal_strlit("yes");
        reveal_strlit("1");
        assert(flag == spec_low_memory(lv.subrange(0, 0)));
    }
    while i < n
        invariant
            0 <= i <= n,
            n == lv.len(),
            flag == spec_low_memory(lv.subrange(0, i as int)),
        decreases n - i,
    {
        proof {
            assert(ls@[i as int]@ == lv[i as int]);
            assert(lv.subrange(0, i as int + 1).drop_last() =~= lv.subrange(0, i as int));
            assert(lv.subrange(0, i as int + 1).last() == lv[i as int]);
        }
        let line = ls[i].as_str();
        if starts_with(line, "LowMemory:") {
            flag = contains_sub(line, "yes") || contains_sub(line, "1");
        }
        i = i + 1;
    }
    proof {
        assert(lv.subrange(0, n as int) =~= lv);
    }
    flag
}

// ---------------------------------------------------------------------------
// Running services
// ---------------------------------------------------------------------------
/// What one dump line names: the text between the service marker's bracket
/// and the line's first closing bracket after it.
pub open spec fn spec_service_line(l: Seq<char>) -> Option<Seq<char>> {
    match crate::text::spec_find_sub(l, "Service["@) {
        Some(i) => {
            match crate::text::spec_find_char(l, ']') {
                Some(e) => if e >= i + 8 {
                    Some(l.subrange(i + 8, e))
                } else {
                    None
                },
                None => None,
            }
        },
        None => None,
    }
}

pub open spec fn spec_service_list(ls: Seq<Seq<char>>) -> Seq<Seq<char>>
    decreases ls.len(),
{
    if ls.len() == 0 {
        Seq::empty()
    } else {
        spec_service_list(ls.drop_last()) + (match spec_service_line(ls.last()) {
            Some(s) => seq![s],
            None => Seq::empty(),
        })
    }
}

/// Collects the service names a services dump lists; lines whose brackets do
/// not pair up are skipped, never an error.
#[verifier::loop_isolation(false)]
pub fn parse_services(output: &str) -> (r: Vec<String>)
    ensures
        r.deep_view() == spec_service_list(spec_lines(output@)),
{
    let ls = split_lines(output);
    let ghost lv = spec_lines(output@);
    let n = ls.len();
    let mut r: Vec<String> = Vec::new();
    let mut i: usize = 0;
    proof {
        reveal_strlit("Service[");
        assert(r.deep_view() =~= Seq::<Seq<char>>::empty());
        assert(r.deep_view() =~= spec_service_list(lv.subrange(0, 0)));
    }
    while i < n
        invariant
            0 <= i <= n,
            n == lv.len(),
            r.deep_view() == spec_service_list(lv.subrange(0, i as int)),
        decreases n - i,
    {
        proof {
            assert(ls@[i as int]@ == lv[i as int]);
            assert(lv.subrange(0, i as int + 1).drop_last() =~= lv.subrange(0, i as int));
            assert(lv.subrange(0, i as int + 1).last() == lv[i as int]);
        }
        let ghost old_dv = r.deep_view();
        let line = ls[i].as_str();
        match crate::text::find_sub(line, "Service[") {
            Some(s) => {
                proof {
                    crate::text::lemma_find_sub_props(line@, "Service["@);
                }
                match crate::text::find_char(line, ']') {
                    Some(e) => {
                        proof {
                            crate::text::lemma_find_char_props(line@, ']');
                        }
                        if e >= 8 && e - 8 >= s {
                            let name = line.substring_char(s + 8, e).to_owned();
                            let ghost old_r = r;
                            r.push(name);
                            proof {
                                crate::text::lemma_deep_view_push(old_r, name, r);
                                assert(r.deep_view() =~= spec_service_list(
                                    lv.subrange(0, i as int + 1),
                                ));
                            }
                        } else {
                            proof {
                                assert(r.deep_view() =~= spec_service_list(
                                    lv.subrange(0, i as int + 1),
                                ));
                            }
                        }
                    },
                    None => {
                        proof {
                            assert(r.deep_view() =~= spec_service_list(
                                lv.subrange(0, i as int + 1),
                            ));
                        }
                    },
                }
            },
            None => {
                proof {
                    assert(r.deep_view() =~= spec_service_list(lv.subrange(0, i as int + 1)));
                }
            },
        }
        i = i + 1;
    }
    proof {
        assert(lv.subrange(0, n as int) =~= lv);
    }
    r
}

// ---------------------------------------------------------------------------
// Matching processes
// ---------------------------------------------------------------------------
/// The processes whose executable mentions the package, in order.
pub open spec fn spec_matching_processes(s: Seq<ProcessInfo>, pkg: Seq<char>) -> Seq<ProcessInfo>
    decreases s.len(),
{
    if s.len() == 0 {
        Seq::empty()
    } else {
        spec_matching_processes(s.drop_last(), pkg) + (if spec_contains(s.last()@.name, pkg)
            || spec_starts_with(s.last()@.name, pkg) {
            seq![s.last()]
        } else {
            Seq::empty()
        })
    }
}

/// Keeps the processes whose executable names the package, preserving order.
#[verifier::loop_isolation(false)]
pub fn filter_processes_by_package(processes: Vec<ProcessInfo>, package_name: &str) -> (r: Vec<
    ProcessInfo,
>)
    ensures
        r@ == spec_matching_processes(processes@, package_name@),
{
    let n = processes.len();
    let mut r: Vec<ProcessInfo> = Vec::new();
    let mut i: usize = 0;
    proof {
        assert(processes@.subrange(0, 0) =~= Seq::<ProcessInfo>::empty());
        assert(r@ =~= spec_matching_processes(processes@.subrange(0, 0), package_name@));
    }
    while i < n
        invariant
            0 <= i <= n,
            n == processes@.len(),
            r@ == spec_matching_processes(processes@.subrange(0, i as int), package_name@),
        decreases n - i,
    {
        proof {
            assert(processes@.subrange(0, i as int + 1).drop_last() =~= processes@.subrange(
                0,
                i as int,
            ));
            assert(processes@.subrange(0, i as int + 1).last() == processes@[i as int]);
        }
        let p = &processes[i];
        if contains_sub(p.name.as_str(), package_name) || starts_with(
            p.name.as_str(),
            package_name,
        ) {
            r.push(p.clone());
        }
        proof {
            assert(r@ =~= spec_matching_processes(
                processes@.subrange(0, i as int + 1),
                package_name@,
            ));
        }
        i = i + 1;
    }
    proof {
        assert(processes@.subrange(0, n as int) =~= processes@);
    }
    r
}

} // verus!
