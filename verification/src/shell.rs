//! Shell-facing records and parsers: classifying captured command output,
//! quoting commands for a privileged shell, and the report parsers for file
//! entries, device status, mounts, network interfaces and the full battery
//! dump.

use vstd::prelude::*;

use crate::performance::spec_uptime_secs;
use crate::process::{spec_field_after, field_after};
use crate::file_manager::{kb_to_bytes, listing_body};
use crate::text::{
    contains_sub, find_sub, join_from, lemma_find_char_props, lemma_find_sub_props, parse_u32,
    quote_escape, spec_contains, spec_decimal_value, spec_find_char, spec_find_sub,
    spec_join_from, spec_lines, spec_parse_u32, spec_quote_escaped, spec_split_ws, spec_trim,
    spec_u64_or0, split_lines, split_ws, starts_with, str_eq, trim, u64_or0, decimal_trunc,
    find_char, spec_starts_with,
};

verus! {

// ---------------------------------------------------------------------------
// Command output
// ---------------------------------------------------------------------------
/// Captured output of one command, split into its normal and error parts.
#[derive(Debug, Clone, PartialEq)]
pub struct CommandOutput {
    pub stdout: String,
    pub stderr: String,
    pub exit_code: i32,
    pub duration_ms: u64,
}

#[verifier::ext_equal]
pub struct CommandOutputView {
    pub stdout: Seq<char>,
    pub stderr: Seq<char>,
    pub exit_code: i32,
    pub duration_ms: u64,
}

impl View for CommandOutput {
    type V = CommandOutputView;

    open spec fn view(&self) -> CommandOutputView {
        CommandOutputView {
            stdout: self.stdout@,
            stderr: self.stderr@,
            exit_code: self.exit_code,
            duration_ms: self.duration_ms,
        }
    }
}

/// How a captured output is classified: text around the first lowercase
/// error marker becomes a trimmed normal part and an error part with exit
/// code one; output without the marker is all normal with exit code zero.
pub open spec fn spec_command_output(output: Seq<char>, duration_ms: u64) -> CommandOutputView {
    match spec_find_sub(output, "error:"@) {
        Some(i) => CommandOutputView {
            stdout: spec_trim(output.subrange(0, i)),
            stderr: "error:"@ + output.subrange(i + 6, output.len() as int),
            exit_code: 1,
            duration_ms: duration_ms,
        },
        None => CommandOutputView {
            stdout: output,
            stderr: Seq::empty(),
            exit_code: 0,
            duration_ms: duration_ms,
        },
    }
}

/// Splits a captured output into its normal and error parts.
pub fn interpret_output(output: &str, duration_ms: u64) -> (r: CommandOutput)
    ensures
        r@ == spec_command_output(output@, duration_ms),
{
    proof {
        reveal_strlit("error:");
    }
    let n = output.unicode_len();
    match find_sub(output, "error:") {
        Some(i) => {
            proof {
                lemma_find_sub_props(output@, "error:"@);
            }
            let stdout = trim(output.substring_char(0, i)).to_owned();
            let mut stderr = String::from_str("error:");
            stderr.append(output.substring_char(i + 6, n));
            let r = CommandOutput { stdout, stderr, exit_code: 1, duration_ms };
            proof {
                assert(r@ =~= spec_command_output(output@, duration_ms));
            }
            r
        },
        None => {
            let r = CommandOutput {
                stdout: output.to_owned(),
                stderr: String::new(),
                exit_code: 0,
                duration_ms,
            };
            proof {
                assert(r@ =~= spec_command_output(output@, duration_ms));
            }
            r
        },
    }
}

/// The command line that runs a command through the privileged shell: the
/// command, its single quotes escaped, inside a single-quoted word.
pub fn su_command(command: &str) -> (r: String)
    ensures
        r@ == "su -c '"@ + spec_quote_escaped(command@) + "'"@,
{
    let mut r = String::from_str("su -c '");
    let escaped = quote_escape(command);
    r.append(escaped.as_str());
    r.append("'");
    proof {
        assert(r@ =~= "su -c '"@ + spec_quote_escaped(command@) + "'"@);
    }
    r
}

// ---------------------------------------------------------------------------
// Sessions
// ---------------------------------------------------------------------------
/// A named shell session and its environment.
#[derive(Debug, Clone, PartialEq)]
pub struct ShellSession {
    pub id: String,
    pub working_dir: String,
    pub env: Vec<(String, String)>,
    pub is_root: bool,
}

/// The session registry of the shell layer; fresh executors hold none.
pub struct ShellExecutor {
    pub sessions: Vec<ShellSession>,
}

impl ShellExecutor {
    /// A fresh executor with no sessions.
    pub fn new() -> (r: Self)
        ensures
            r.sessions@.len() == 0,
    {
        ShellExecutor { sessions: Vec::new() }
    }
}

impl Default for ShellExecutor {
    /// Same as [`ShellExecutor::new`].
    fn default() -> (r: Self)
        ensures
            r.sessions@.len() == 0,
    {
        ShellExecutor { sessions: Vec::new() }
    }
}

/// Failures of the shell layer.
#[derive(Debug, Clone, PartialEq)]
pub enum ShellError {
    DeviceNotFound,
    CommandFailed(String),
    Timeout,
    PermissionDenied,
    IOError(String),
}

impl ShellError {
    /// A human-readable description of the failure.
    pub fn message(&self) -> (r: String)
        ensures
            match self {
                ShellError::DeviceNotFound => r@ == "Device not found"@,
                ShellError::CommandFailed(m) => r@ == "Command failed: "@ + m@,
                ShellError::Timeout => r@ == "Command timed out"@,
                ShellError::PermissionDenied => r@ == "Permission denied"@,
                ShellError::IOError(m) => r@ == "IO Error: "@ + m@,
            },
    {
        match self {
            ShellError::DeviceNotFound => String::from_str("Device not found"),
            ShellError::CommandFailed(m) => {
                let mut s = String::from_str("Command failed: ");
                s.append(m.as_str());
                s
            },
            ShellError::Timeout => String::from_str("Command timed out"),
            ShellError::PermissionDenied => String::from_str("Permission denied"),
            ShellError::IOError(m) => {
                let mut s = String::from_str("IO Error: ");
                s.append(m.as_str());
                s
            },
        }
    }
}

// ---------------------------------------------------------------------------
// File entries
// ---------------------------------------------------------------------------
/// One entry of a simple file listing.
#[derive(Debug, PartialEq)]
pub struct FileEntry {
    pub name: String,
    pub permissions: String,
    pub size: u64,
    pub is_directory: bool,
}

#[verifier::ext_equal]
pub struct FileEntryView {
    pub name: Seq<char>,
    pub permissions: Seq<char>,
    pub size: u64,
    pub is_directory: bool,
}

impl View for FileEntry {
    type V = FileEntryView;

    open spec fn view(&self) -> FileEntryView {
        FileEntryView {
            name: self.name@,
            permissions: self.permissions@,
            size: self.size,
            is_directory: self.is_directory,
        }
    }
}

impl Clone for FileEntry {
    fn clone(&self) -> (r: Self)
        ensures
            r == *self,
    {
        FileEntry {
            name: self.name.clone(),
            permissions: self.permissions.clone(),
            size: self.size,
            is_directory: self.is_directory,
        }
    }
}

/// What one listing line denotes: at least nine whitespace tokens, a name
/// joined from the ninth on.
pub open spec fn spec_file_entry_line(l: Seq<char>) -> Option<FileEntryView> {
    let toks = spec_split_ws(l);
    if toks.len() >= 9 {
        Some(
            FileEntryView {
                name: spec_join_from(toks, 8),
                permissions: toks[0],
                size: spec_u64_or0(toks[4]),
                is_directory: toks[0].len() > 0 && toks[0][0] == 'd',
            },
        )
    } else {
        None
    }
}

pub open spec fn spec_file_entries(ls: Seq<Seq<char>>) -> Seq<FileEntryView>
    decreases ls.len(),
{
    if ls.len() == 0 {
        Seq::empty()
    } else {
        spec_file_entries(ls.drop_last()) + (match spec_file_entry_line(ls.last()) {
            Some(e) => seq![e],
            None => Seq::empty(),
        })
    }
}

pub open spec fn entry_views(s: Seq<FileEntry>) -> Seq<FileEntryView> {
    Seq::new(s.len(), |i: int| s[i]@)
}

/// Parses a simple file listing, header line skipped; malformed lines are
/// dropped, never an error.
#[verifier::loop_isolation(false)]
pub fn parse_file_entries(output: &str) -> (r: Vec<FileEntry>)
    ensures
        entry_views(r@) == spec_file_entries(listing_body(output@)),
{
    let ls = split_lines(output);
    let ghost body = listing_body(output@);
    let n = ls.len();
    let mut r: Vec<FileEntry> = Vec::new();
    let mut i: usize = 1;
    proof {
        assert(entry_views(r@) =~= Seq::<FileEntryView>::empty());
        assert(entry_views(r@) =~= spec_file_entries(body.subrange(0, 0)));
    }
    while i < n
        invariant
            1 <= i <= n || (n == 0 && i == 1),
            n == spec_lines(output@).len(),
            n >= 1 ==> body.len() == n - 1,
            n == 0 ==> body.len() == 0,
            entry_views(r@) == spec_file_entries(body.subrange(0, i - 1)),
        decreases n - i,
    {
        proof {
            assert(ls@[i as int]@ == spec_lines(output@)[i as int]);
            assert(body[i - 1] == spec_lines(output@)[i as int]);
            assert(body.subrange(0, i as int).drop_last() =~= body.subrange(0, i - 1));
            assert(body.subrange(0, i as int).last() == body[i - 1]);
        }
        let ghost old_views = entry_views(r@);
        let line = ls[i].as_str();
        let toks = split_ws(line);
        if toks.len() >= 9 {
            proof {
                crate::text::lemma_split_ws_nonempty(line@);
                assert(forall|k: int|
                    0 <= k < toks@.len() ==> #[trigger] toks@[k]@ == spec_split_ws(line@)[k]);
            }
            let permissions = toks[0].clone();
            let pn = permissions.as_str().unicode_len();
            let first = if pn > 0 {
                permissions.as_str().get_char(0)
            } else {
                ' '
            };
            let e = FileEntry {
                name: join_from(&toks, 8),
                permissions,
                size: u64_or0(toks[4].as_str()),
                is_directory: first == 'd',
            };
            proof {
                assert(e@ =~= spec_file_entry_line(body[i - 1])->Some_0);
            }
            r.push(e);
            proof {
                assert(entry_views(r@) =~= old_views.push(
                    spec_file_entry_line(body[i - 1])->Some_0,
                ));
                assert(entry_views(r@) =~= spec_file_entries(body.subrange(0, i as int)));
            }
        } else {
            proof {
                assert(entry_views(r@) =~= spec_file_entries(body.subrange(0, i as int)));
            }
        }
        i = i + 1;
    }
    proof {
        if n >= 1 {
            assert(body.subrange(0, n - 1) =~= body);
        } else {
            assert(body.subrange(0, 0) =~= body);
        }
    }
    r
}

// ---------------------------------------------------------------------------
// Device status
// ---------------------------------------------------------------------------
/// Uptime, memory and load of the device at one instant.  The load averages
/// are kept exactly as the report printed them.
#[derive(Debug, Clone, PartialEq)]
pub struct DeviceStatus {
    pub uptime_secs: u64,
    pub total_memory: u64,
    pub free_memory: u64,
    pub available_memory: u64,
    pub load_average_1m: String,
    pub load_average_5m: String,
    pub load_average_15m: String,
}

/// The load tokens kept from the first `k` whitespace tokens: those that
/// read as decimal numbers, in order.
pub open spec fn valid_loads(toks: Seq<Seq<char>>, k: int) -> Seq<Seq<char>>
    decreases toks.len(),
{
    if k <= 0 || toks.len() == 0 {
        Seq::empty()
    } else {
        (if spec_decimal_value(toks[0]) is Some {
            seq![toks[0]]
        } else {
            Seq::empty()
        }) + valid_loads(toks.drop_first(), k - 1)
    }
}

/// The load average at a position, `0` when the report had too few.
pub open spec fn spec_load_at(text: Seq<char>, idx: int) -> Seq<char> {
    let v = valid_loads(spec_split_ws(text), 3);
    if 0 <= idx < v.len() {
        v[idx]
    } else {
        "0"@
    }
}

/// A memory field of the status report, scaled from kilobytes to bytes.
pub open spec fn spec_mem_bytes(text: Seq<char>, key: Seq<char>) -> u64 {
    kb_to_bytes(spec_u64_or0(spec_field_after(spec_lines(text), key)))
}

/// Assembles the device status from the three probe outputs: whole seconds
/// of uptime, the three memory counters scaled to bytes, and the first three
/// load tokens kept verbatim.  Each field reads only its own probe.
pub fn parse_device_status(uptime_out: &str, meminfo_out: &str, loadavg_out: &str) -> (r:
    DeviceStatus)
    ensures
        r.uptime_secs == spec_uptime_secs(uptime_out@),
        r.total_memory == spec_mem_bytes(meminfo_out@, "MemTotal:"@),
        r.free_memory == spec_mem_bytes(meminfo_out@, "MemFree:"@),
        r.available_memory == spec_mem_bytes(meminfo_out@, "MemAvailable:"@),
        r.load_average_1m@ == spec_load_at(loadavg_out@, 0),
        r.load_average_5m@ == spec_load_at(loadavg_out@, 1),
        r.load_average_15m@ == spec_load_at(loadavg_out@, 2),
{
    let uptime_secs = crate::performance::parse_uptime(uptime_out);
    let total_memory = mem_bytes(meminfo_out, "MemTotal:");
    let free_memory = mem_bytes(meminfo_out, "MemFree:");
    let available_memory = mem_bytes(meminfo_out, "MemAvailable:");
    let loads = collect_loads(loadavg_out);
    let load_average_1m = load_at(&loads, 0);
    let load_average_5m = load_at(&loads, 1);
    let load_average_15m = load_at(&loads, 2);
    DeviceStatus {
        uptime_secs,
        total_memory,
        free_memory,
        available_memory,
        load_average_1m,
        load_average_5m,
        load_average_15m,
    }
}

fn mem_bytes(output: &str, key: &str) -> (r: u64)
    ensures
        r == spec_mem_bytes(output@, key@),
{
    let tok = field_after(output, key);
    let kb = u64_or0(tok.as_str());
    if kb > u64::MAX / 1024 {
        u64::MAX
    } else {
        kb * 1024
    }
}

#[verifier::loop_isolation(false)]
fn collect_loads(output: &str) -> (r: Vec<String>)
    ensures
        r.deep_view() == valid_loads(spec_split_ws(output@), 3),
{
    let toks = split_ws(output);
    let ghost tv = spec_split_ws(output@);
    let n = toks.len();
    let lim = if n < 3 {
        n
    } else {
        3
    };
    let mut r: Vec<String> = Vec::new();
    let mut j: usize = 0;
    proof {
        assert(r.deep_view() =~= Seq::<Seq<char>>::empty());
        assert(tv.subrange(0, n as int) =~= tv);
    }
    while j < lim
        invariant
            0 <= j <= lim,
            lim == if n < 3 {
                n as int
            } else {
                3
            },
            n == tv.len(),
            valid_loads(tv, 3) == r.deep_view() + valid_loads(
                tv.subrange(j as int, n as int),
                3 - j,
            ),
        decreases lim - j,
    {
        proof {
            let pre = tv.subrange(j as int, n as int);
            assert(pre[0] == tv[j as int]);
            assert(pre.drop_first() =~= tv.subrange(j as int + 1, n as int));
            assert(toks@[j as int]@ == tv[j as int]);
        }
        let ghost old_r = r;
        match decimal_trunc(toks[j].as_str(), u64::MAX) {
            Some(_) => {
                let t = toks[j].clone();
                r.push(t);
                proof {
                    crate::text::lemma_deep_view_push(old_r, t, r);
                    assert(r.deep_view() + valid_loads(tv.subrange(j as int + 1, n as int), 3 - j
                        - 1) =~= old_r.deep_view() + valid_loads(
                        tv.subrange(j as int, n as int),
                        3 - j,
                    ));
                }
            },
            None => {
                proof {
                    assert(r.deep_view() + valid_loads(tv.subrange(j as int + 1, n as int), 3 - j
                        - 1) =~= old_r.deep_view() + valid_loads(
                        tv.subrange(j as int, n as int),
                        3 - j,
                    ));
                }
            },
        }
        j = j + 1;
    }
    proof {
        if lim == n {
            assert(tv.subrange(lim as int, n as int).len() == 0);
            assert(valid_loads(tv.subrange(lim as int, n as int), 3 - lim) =~= Seq::<
                Seq<char>,
            >::empty());
        } else {
            assert(valid_loads(tv.subrange(lim as int, n as int), 0) =~= Seq::<Seq<char>>::empty());
        }
        assert(r.deep_view() + Seq::<Seq<char>>::empty() =~= r.deep_view());
    }
    r
}

fn load_at(loads: &Vec<String>, idx: usize) -> (r: String)
    ensures
        r@ == if 0 <= idx < loads.deep_view().len() {
            loads.deep_view()[idx as int]
        } else {
            "0"@
        },
{
    proof {
        reveal_strlit("0");
    }
    if idx < loads.len() {
        proof {
            assert(loads@[idx as int]@ == loads.deep_view()[idx as int]);
        }
        loads[idx].clone()
    } else {
        String::from_str("0")
    }
}

// ---------------------------------------------------------------------------
// Mounts
// ---------------------------------------------------------------------------
/// One mounted filesystem.
#[derive(Debug, PartialEq)]
pub struct MountInfo {
    pub device: String,
    pub mount_point: String,
    pub fs_type: String,
    pub options: String,
}

#[verifier::ext_equal]
pub struct MountInfoView {
    pub device: Seq<char>,
    pub mount_point: Seq<char>,
    pub fs_type: Seq<char>,
    pub options: Seq<char>,
}

impl View for MountInfo {
    type V = MountInfoView;

    open spec fn view(&self) -> MountInfoView {
        MountInfoView {
            device: self.device@,
            mount_point: self.mount_point@,
            fs_type: self.fs_type@,
            options: self.options@,
        }
    }
}

impl Clone for MountInfo {
    fn clone(&self) -> (r: Self)
        ensures
            r == *self,
    {
        MountInfo {
            device: self.device.clone(),
            mount_point: self.mount_point.clone(),
            fs_type: self.fs_type.clone(),
            options: self.options.clone(),
        }
    }
}

/// What one mount-table line denotes: its first four whitespace tokens.
pub open spec fn spec_mount_line(l: Seq<char>) -> Option<MountInfoView> {
    let toks = spec_split_ws(l);
    if toks.len() >= 4 {
        Some(
            MountInfoView {
                device: toks[0],
                mount_point: toks[1],
                fs_type: toks[2],
                options: toks[3],
            },
        )
    } else {
        None
    }
}

pub open spec fn spec_mount_list(ls: Seq<Seq<char>>) -> Seq<MountInfoView>
    decreases ls.len(),
{
    if ls.len() == 0 {
        Seq::empty()
    } else {
        spec_mount_list(ls.drop_last()) + (match spec_mount_line(ls.last()) {
            Some(m) => seq![m],
            None => Seq::empty(),
        })
    }
}

pub open spec fn mount_views(s: Seq<MountInfo>) -> Seq<MountInfoView> {
    Seq::new(s.len(), |i: int| s[i]@)
}

/// Parses the mount table: one record per line with at least four fields.
#[verifier::loop_isolation(false)]
pub fn parse_mounts(output: &str) -> (r: Vec<MountInfo>)
    ensures
        mount_views(r@) == spec_mount_list(spec_lines(output@)),
{
    let ls = split_lines(output);
    let ghost lv = spec_lines(output@);
    let n = ls.len();
    let mut r: Vec<MountInfo> = Vec::new();
    let mut i: usize = 0;
    proof {
        assert(mount_views(r@) =~= Seq::<MountInfoView>::empty());
        assert(mount_views(r@) =~= spec_mount_list(lv.subrange(0, 0)));
    }
    while i < n
        invariant
            0 <= i <= n,
            n == lv.len(),
            mount_views(r@) == spec_mount_list(lv.subrange(0, i as int)),
        decreases n - i,
    {
        proof {
            assert(ls@[i as int]@ == lv[i as int]);
            assert(lv.subrange(0, i as int + 1).drop_last() =~= lv.subrange(0, i as int));
            assert(lv.subrange(0, i as int + 1).last() == lv[i as int]);
        }
        let ghost old_views = mount_views(r@);
        let line = ls[i].as_str();
        let toks = split_ws(line);
        if toks.len() >= 4 {
            proof {
                assert(forall|k: int|
                    0 <= k < toks@.len() ==> #[trigger] toks@[k]@ == spec_split_ws(line@)[k]);
            }
            let m = MountInfo {
                device: toks[0].clone(),
                mount_point: toks[1].clone(),
                fs_type: toks[2].clone(),
                options: toks[3].clone(),
            };
            proof {
                assert(m@ =~= spec_mount_line(lv[i as int])->Some_0);
            }
            r.push(m);
            proof {
                assert(mount_views(r@) =~= old_views.push(spec_mount_line(lv[i as int])->Some_0));
                assert(mount_views(r@) =~= spec_mount_list(lv.subrange(0, i as int + 1)));
            }
        } else {
            proof {
                assert(mount_views(r@) =~= spec_mount_list(lv.subrange(0, i as int + 1)));
            }
        }
        i = i + 1;
    }
    proof {
        assert(lv.subrange(0, n as int) =~= lv);
    }
    r
}

// ---------------------------------------------------------------------------
// Network interfaces
// ---------------------------------------------------------------------------
/// One network interface, its link state and its address.
#[derive(Debug, PartialEq)]
pub struct NetworkInterface {
    pub name: String,
    pub state: String,
    pub ip_address: String,
}

#[verifier::ext_equal]
pub struct NetworkInterfaceView {
    pub name: Seq<char>,
    pub state: Seq<char>,
    pub ip_address: Seq<char>,
}

impl View for NetworkInterface {
    type V = NetworkInterfaceView;

    open spec fn view(&self) -> NetworkInterfaceView {
        NetworkInterfaceView {
            name: self.name@,
            state: self.state@,
            ip_address: self.ip_address@,
        }
    }
}

impl Clone for NetworkInterface {
    fn clone(&self) -> (r: Self)
        ensures
            r == *self,
    {
        NetworkInterface {
            name: self.name.clone(),
            state: self.state.clone(),
            ip_address: self.ip_address.clone(),
        }
    }
}

/// Scan state of the interface parser: finished interfaces and the one being
/// filled in.
#[verifier::ext_equal]
pub struct NetAcc {
    pub done: Seq<NetworkInterfaceView>,
    pub cur: Option<NetworkInterfaceView>,
}

/// The interface name a header line carries: the first whitespace token of
/// the text between the first and second `": "` markers.
pub open spec fn spec_iface_name(l: Seq<char>) -> Seq<char> {
    match spec_find_sub(l, ": "@) {
        Some(i) => {
            let rest = l.subrange(i + 2, l.len() as int);
            let piece = match spec_find_sub(rest, ": "@) {
                Some(j) => rest.subrange(0, j),
                None => rest,
            };
            let toks = spec_split_ws(piece);
            if toks.len() > 0 {
                toks[0]
            } else {
                Seq::empty()
            }
        },
        None => Seq::empty(),
    }
}

/// What one line does to the scan: a header line closes the current
/// interface and may open a new one (skipping the loopback); an address line
/// fills the current interface's address.
pub open spec fn net_step(l: Seq<char>, acc: NetAcc) -> NetAcc {
    if spec_contains(l, ": "@) {
        let done2 = match acc.cur {
            Some(c) => acc.done.push(c),
            None => acc.done,
        };
        let name = spec_iface_name(l);
        if name.len() > 0 && name != "lo"@ {
            NetAcc {
                done: done2,
                cur: Some(
                    NetworkInterfaceView {
                        name: name,
                        state: if spec_contains(l, "state UP"@) {
                            "UP"@
                        } else {
                            "DOWN"@
                        },
                        ip_address: Seq::empty(),
                    },
                ),
            }
        } else {
            NetAcc { done: done2, cur: None }
        }
    } else {
        match acc.cur {
            Some(c) => if spec_contains(l, "inet "@) {
                let toks = spec_split_ws(spec_trim(l));
                let inet = if toks.len() >= 2 {
                    toks[1]
                } else {
                    Seq::empty()
                };
                let ip = match spec_find_char(inet, '/') {
                    Some(k) => inet.subrange(0, k),
                    None => inet,
                };
                NetAcc {
                    done: acc.done,
                    cur: Some(
                        NetworkInterfaceView { name: c.name, state: c.state, ip_address: ip },
                    ),
                }
            } else {
                acc
            },
            None => acc,
        }
    }
}

/// The interfaces a whole address report names, the last one closed at the
/// end.
pub open spec fn net_fold(ls: Seq<Seq<char>>, acc: NetAcc) -> Seq<NetworkInterfaceView>
    decreases ls.len(),
{
    if ls.len() == 0 {
        match acc.cur {
            Some(c) => acc.done.push(c),
            None => acc.done,
        }
    } else {
        net_fold(ls.drop_first(), net_step(ls[0], acc))
    }
}

pub open spec fn net_views(s: Seq<NetworkInterface>) -> Seq<NetworkInterfaceView> {
    Seq::new(s.len(), |i: int| s[i]@)
}

/// Parses an address report into its interfaces: header lines open an
/// interface (the loopback is skipped), address lines fill in the address,
/// and the interface in progress is closed at the end.
#[verifier::loop_isolation(false)]
pub fn parse_networks(output: &str) -> (r: Vec<NetworkInterface>)
    ensures
        net_views(r@) == net_fold(spec_lines(output@), NetAcc { done: Seq::empty(), cur: None }),
{
    let ls = split_lines(output);
    let ghost lv = spec_lines(output@);
    let n = ls.len();
    let mut r: Vec<NetworkInterface> = Vec::new();
    let mut cur: Option<NetworkInterface> = None;
    let mut i: usize = 0;
    proof {
        reveal_strlit(": ");
        reveal_strlit("state UP");
        reveal_strlit("UP");
        reveal_strlit("DOWN");
        reveal_strlit("inet ");
        reveal_strlit("lo");
        assert(net_views(r@) =~= Seq::<NetworkInterfaceView>::empty());
        assert(lv.subrange(0, n as int) =~= lv);
    }
    while i < n
        invariant
            0 <= i <= n,
            n == lv.len(),
            net_fold(lv, NetAcc { done: Seq::empty(), cur: None }) == net_fold(
                lv.subrange(i as int, n as int),
                NetAcc {
                    done: net_views(r@),
                    cur: match cur {
                        Some(ref c) => Some(c@),
                        None => None,
                    },
                },
            ),
        decreases n - i,
    {
        let ghost acc_in = NetAcc {
            done: net_views(r@),
            cur: match cur {
                Some(ref c) => Some(c@),
                None => None,
            },
        };
        proof {
            assert(ls@[i as int]@ == lv[i as int]);
            let pre = lv.subrange(i as int, n as int);
            assert(pre[0] == lv[i as int]);
            assert(pre.drop_first() =~= lv.subrange(i as int + 1, n as int));
        }
        let line = ls[i].as_str();
        if contains_sub(line, ": ") {
            match cur {
                Some(c) => {
                    let ghost old_views = net_views(r@);
                    let ghost cv = c@;
                    r.push(c);
                    proof {
                        assert(net_views(r@) =~= old_views.push(cv));
                    }
                },
                None => {},
            }
            cur = None;
            let nl = line.unicode_len();
            let mut name = String::new();
            match find_sub(line, ": ") {
                Some(p) => {
                    proof {
                        lemma_find_sub_props(line@, ": "@);
                    }
                    let rest = line.substring_char(p + 2, nl);
                    let piece = match find_sub(rest, ": ") {
                        Some(q) => {
                            proof {
                                lemma_find_sub_props(rest@, ": "@);
                            }
                            rest.substring_char(0, q)
                        },
                        None => rest,
                    };
                    let ptoks = split_ws(piece);
                    if ptoks.len() > 0 {
                        proof {
                            assert(ptoks@[0]@ == spec_split_ws(piece@)[0]);
                        }
                        name = ptoks[0].clone();
                    }
                },
                None => {},
            }
            proof {
                assert(name@ == spec_iface_name(lv[i as int]));
            }
            if name.as_str().unicode_len() > 0 && !str_eq(name.as_str(), "lo") {
                let state = if contains_sub(line, "state UP") {
                    String::from_str("UP")
                } else {
                    String::from_str("DOWN")
                };
                let c = NetworkInterface { name, state, ip_address: String::new() };
                proof {
                    assert(Some(c@) =~= net_step(lv[i as int], acc_in).cur);
                }
                cur = Some(c);
            }
            proof {
                let acc_out = NetAcc {
                    done: net_views(r@),
                    cur: match cur {
                        Some(ref c) => Some(c@),
                        None => None,
                    },
                };
                assert(acc_out =~= net_step(lv[i as int], acc_in));
            }
        } else {
            let has_cur = cur.is_some();
            if has_cur && contains_sub(line, "inet ") {
                let t = trim(line);
                let toks = split_ws(t);
                let mut ip = String::new();
                if toks.len() >= 2 {
                    proof {
                        assert(toks@[1]@ == spec_split_ws(t@)[1]);
                    }
                    let inet = toks[1].as_str();
                    ip = match find_char(inet, '/') {
                        Some(k) => {
                            proof {
                                lemma_find_char_props(inet@, '/');
                            }
                            inet.substring_char(0, k).to_owned()
                        },
                        None => inet.to_owned(),
                    };
                }
                match cur {
                    Some(c) => {
                        let c2 = NetworkInterface {
                            name: c.name,
                            state: c.state,
                            ip_address: ip,
                        };
                        proof {
                            assert(Some(c2@) =~= net_step(lv[i as int], acc_in).cur);
                        }
                        cur = Some(c2);
                    },
                    None => {},
                }
            }
            proof {
                let acc_out = NetAcc {
                    done: net_views(r@),
                    cur: match cur {
                        Some(ref c) => Some(c@),
                        None => None,
                    },
                };
                assert(acc_out =~= net_step(lv[i as int], acc_in));
            }
        }
        i = i + 1;
    }
    match cur {
        Some(c) => {
            let ghost old_views = net_views(r@);
            let ghost cv = c@;
            r.push(c);
            proof {
                assert(net_views(r@) =~= old_views.push(cv));
                assert(lv.subrange(n as int, n as int) =~= Seq::<Seq<char>>::empty());
            }
        },
        None => {
            proof {
                assert(lv.subrange(n as int, n as int) =~= Seq::<Seq<char>>::empty());
            }
        },
    }
    r
}

// ---------------------------------------------------------------------------
// Full battery dump
// ---------------------------------------------------------------------------
/// The full battery record of the service dump.  The temperature is kept in
/// tenths of a degree as reported; the percentage is the level scaled to one
/// hundred, in whole percent.
#[derive(Debug, PartialEq)]
pub struct BatteryInfo {
    pub level: u32,
    pub scale: u32,
    pub percentage: u32,
    pub status: String,
    pub health: String,
    pub plugged: String,
    pub voltage: u32,
    pub temperature_tenths: i32,
    pub technology: String,
}

/// Scan state of the battery dump parser.
#[verifier::ext_equal]
pub struct BatteryAcc {
    pub level: u32,
    pub scale: u32,
    pub status: Seq<char>,
    pub health: Seq<char>,
    pub plugged: Seq<char>,
    pub voltage: u32,
    pub temperature: i32,
    pub technology: Seq<char>,
}

/// The state before any dump line was seen: a full scale and everything else
/// zero or empty.
pub open spec fn battery_acc_init() -> BatteryAcc {
    BatteryAcc {
        level: 0u32,
        scale: 100u32,
        status: Seq::empty(),
        health: Seq::empty(),
        plugged: Seq::empty(),
        voltage: 0u32,
        temperature: 0i32,
        technology: Seq::empty(),
    }
}

/// The second whitespace token of a line, or nothing.
pub open spec fn tok1(l: Seq<char>) -> Seq<char> {
    let toks = spec_split_ws(l);
    if toks.len() >= 2 {
        toks[1]
    } else {
        Seq::empty()
    }
}

/// The second token as an unsigned number, or the fallback.
pub open spec fn tok1_u32(l: Seq<char>, fallback: u32) -> u32 {
    match spec_parse_u32(tok1(l)) {
        Some(v) => v,
        None => fallback,
    }
}

/// The second token as a signed number, or zero.
pub open spec fn tok1_i32(l: Seq<char>) -> i32 {
    match crate::text::spec_parse_i32(tok1(l)) {
        Some(v) => v,
        None => 0i32,
    }
}

/// What one trimmed dump line overwrites.
pub open spec fn battery_step(l0: Seq<char>, acc: BatteryAcc) -> BatteryAcc {
    let l = spec_trim(l0);
    if spec_starts_with(l, "level:"@) {
        BatteryAcc { level: tok1_u32(l, 0u32), ..acc }
    } else if spec_starts_with(l, "scale:"@) {
        BatteryAcc { scale: tok1_u32(l, 100u32), ..acc }
    } else if spec_starts_with(l, "status:"@) {
        BatteryAcc { status: tok1(l), ..acc }
    } else if spec_starts_with(l, "health:"@) {
        BatteryAcc { health: tok1(l), ..acc }
    } else if spec_starts_with(l, "plugged:"@) {
        BatteryAcc { plugged: tok1(l), ..acc }
    } else if spec_starts_with(l, "voltage:"@) {
        BatteryAcc { voltage: tok1_u32(l, 0u32), ..acc }
    } else if spec_starts_with(l, "temperature:"@) {
        BatteryAcc { temperature: tok1_i32(l), ..acc }
    } else if spec_starts_with(l, "technology:"@) {
        BatteryAcc { technology: tok1(l), ..acc }
    } else {
        acc
    }
}

pub open spec fn battery_dump_fold(ls: Seq<Seq<char>>, acc: BatteryAcc) -> BatteryAcc
    decreases ls.len(),
{
    if ls.len() == 0 {
        acc
    } else {
        battery_dump_fold(ls.drop_first(), battery_step(ls[0], acc))
    }
}

/// The level scaled to one hundred, in whole percent, saturating; zero when
/// the scale is zero.
pub open spec fn spec_battery_percent(level: u32, scale: u32) -> u32 {
    if scale > 0 {
        if level as int * 100 / scale as int > u32::MAX {
            u32::MAX
        } else {
            (level as int * 100 / scale as int) as u32
        }
    } else {
        0u32
    }
}

fn battery_percent(level: u32, scale: u32) -> (r: u32)
    ensures
        r == spec_battery_percent(level, scale),
{
    if scale > 0 {
        let p: u64 = level as u64 * 100 / scale as u64;
        if p > u32::MAX as u64 {
            u32::MAX
        } else {
            p as u32
        }
    } else {
        0
    }
}

/// Parses the full battery dump: each recognized `key:` line overwrites its
/// field, and the percentage is computed from the final level and scale.
/// Every field is optional; missing keys keep their defaults.
#[verifier::loop_isolation(false)]
pub fn parse_battery_dump(output: &str) -> (r: BatteryInfo)
    ensures
        ({
            let acc = battery_dump_fold(spec_lines(output@), battery_acc_init());
            r.level == acc.level && r.scale == acc.scale && r.percentage == spec_battery_percent(
                acc.level,
                acc.scale,
            ) && r.status@ == acc.status && r.health@ == acc.health && r.plugged@ == acc.plugged
                && r.voltage == acc.voltage && r.temperature_tenths == acc.temperature
                && r.technology@ == acc.technology
        }),
{
    let ls = split_lines(output);
    let ghost lv = spec_lines(output@);
    let n = ls.len();
    let mut level: u32 = 0;
    let mut scale: u32 = 100;
    let mut status = String::new();
    let mut health = String::new();
    let mut plugged = String::new();
    let mut voltage: u32 = 0;
    let mut temperature: i32 = 0;
    let mut technology = String::new();
    let mut i: usize = 0;
    proof {
        reveal_strlit("level:");
        reveal_strlit("scale:");
        reveal_strlit("status:");
        reveal_strlit("health:");
        reveal_strlit("plugged:");
        reveal_strlit("voltage:");
        reveal_strlit("temperature:");
        reveal_strlit("technology:");
        assert(lv.subrange(0, n as int) =~= lv);
    }
    while i < n
        invariant
            0 <= i <= n,
            n == lv.len(),
            battery_dump_fold(lv, battery_acc_init()) == battery_dump_fold(
                lv.subrange(i as int, n as int),
                BatteryAcc {
                    level: level,
                    scale: scale,
                    status: status@,
                    health: health@,
                    plugged: plugged@,
                    voltage: voltage,
                    temperature: temperature,
                    technology: technology@,
                },
            ),
        decreases n - i,
    {
        let ghost acc_in = BatteryAcc {
            level: level,
            scale: scale,
            status: status@,
            health: health@,
            plugged: plugged@,
            voltage: voltage,
            temperature: temperature,
            technology: technology@,
        };
        proof {
            assert(ls@[i as int]@ == lv[i as int]);
            let pre = lv.subrange(i as int, n as int);
            assert(pre[0] == lv[i as int]);
            assert(pre.drop_first() =~= lv.subrange(i as int + 1, n as int));
        }
        let line = trim(ls[i].as_str());
        let toks = split_ws(line);
        let second: &str = if toks.len() >= 2 {
            proof {
                assert(toks@[1]@ == spec_split_ws(line@)[1]);
            }
            toks[1].as_str()
        } else {
            ""
        };
        proof {
            reveal_strlit("");
            assert(second@ == tok1(line@));
        }
        if starts_with(line, "level:") {
            level = match parse_u32(second) {
                Some(v) => v,
                None => 0,
            };
        } else if starts_with(line, "scale:") {
            scale = match parse_u32(second) {
                Some(v) => v,
                None => 100,
            };
        } else if starts_with(line, "status:") {
            status = second.to_owned();
        } else if starts_with(line, "health:") {
            health = second.to_owned();
        } else if starts_with(line, "plugged:") {
            plugged = second.to_owned();
        } else if starts_with(line, "voltage:") {
            voltage = match parse_u32(second) {
                Some(v) => v,
                None => 0,
            };
        } else if starts_with(line, "temperature:") {
            temperature = match crate::text::parse_i32(second) {
                Some(v) => v,
                None => 0,
            };
        } else if starts_with(line, "technology:") {
            technology = second.to_owned();
        }
        proof {
            let acc_out = BatteryAcc {
                level: level,
                scale: scale,
                status: status@,
                health: health@,
                plugged: plugged@,
                voltage: voltage,
                temperature: temperature,
                technology: technology@,
            };
            assert(acc_out =~= battery_step(lv[i as int], acc_in));
        }
        i = i + 1;
    }
    proof {
        assert(lv.subrange(n as int, n as int) =~= Seq::<Seq<char>>::empty());
    }
    BatteryInfo {
        level,
        scale,
        percentage: battery_percent(level, scale),
        status,
        health,
        plugged,
        voltage,
        temperature_tenths: temperature,
        technology,
    }
}

} // verus!
