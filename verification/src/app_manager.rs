//! Package management parsers: the package list, the tolerant free-text scan
//! of an app dump, permission lines, install and uninstall outcomes, and the
//! foreground-activity line.
//!
//! The app dump scan keeps every attribute optional: a field absent from the
//! dump leaves its attribute empty rather than failing the parse, since dump
//! layouts drift across vendors and versions.

use vstd::prelude::*;

use crate::file_manager::spec_file_stem;
use crate::text::{
    contains_sub, find_char, find_sub, lemma_find_char_props, lemma_find_sub_props, parse_i64,
    parse_u32, spec_contains, spec_find_char, spec_find_sub, spec_lines, spec_parse_i64,
    spec_parse_u32, spec_split_char, spec_split_ws, spec_starts_with, spec_strip_all, spec_trim,
    split_char, split_lines, split_ws, starts_with, str_eq, strip_all, strip_prefix, trim,
    vec_contains_str,
};

verus! {

// ---------------------------------------------------------------------------
// Types
// ---------------------------------------------------------------------------
/// Where a package asks to be installed.
#[derive(Debug, Clone, Copy, PartialEq, Eq, Structural)]
pub enum InstallLocation {
    Auto,
    InternalOnly,
    PreferExternal,
    Unknown,
}

/// The location a dump value denotes; unknown values fall back to `Unknown`.
pub open spec fn spec_install_location(s: Seq<char>) -> InstallLocation {
    if s == "auto"@ {
        InstallLocation::Auto
    } else if s == "internalOnly"@ {
        InstallLocation::InternalOnly
    } else if s == "preferExternal"@ {
        InstallLocation::PreferExternal
    } else {
        InstallLocation::Unknown
    }
}

impl InstallLocation {
    /// Reads a dump value.
    pub fn from_str(s: &str) -> (r: Self)
        ensures
            r == spec_install_location(s@),
    {
        proof {
            reveal_strlit("auto");
            reveal_strlit("internalOnly");
            reveal_strlit("preferExternal");
        }
        if str_eq(s, "auto") {
            InstallLocation::Auto
        } else if str_eq(s, "internalOnly") {
            InstallLocation::InternalOnly
        } else if str_eq(s, "preferExternal") {
            InstallLocation::PreferExternal
        } else {
            InstallLocation::Unknown
        }
    }
}

/// A permission's decision state.
#[derive(Debug, Clone, Copy, PartialEq, Eq, Structural)]
pub enum PermissionStatus {
    Granted,
    Denied,
    Default,
    Unknown,
}

pub open spec fn spec_permission_status(s: Seq<char>) -> PermissionStatus {
    if s == "granted"@ {
        PermissionStatus::Granted
    } else if s == "denied"@ {
        PermissionStatus::Denied
    } else if s == "default"@ {
        PermissionStatus::Default
    } else {
        PermissionStatus::Unknown
    }
}

impl PermissionStatus {
    /// Reads a dump value.
    pub fn from_str(s: &str) -> (r: Self)
        ensures
            r == spec_permission_status(s@),
    {
        proof {
            reveal_strlit("granted");
            reveal_strlit("denied");
            reveal_strlit("default");
        }
        if str_eq(s, "granted") {
            PermissionStatus::Granted
        } else if str_eq(s, "denied") {
            PermissionStatus::Denied
        } else if str_eq(s, "default") {
            PermissionStatus::Default
        } else {
            PermissionStatus::Unknown
        }
    }
}

/// Everything a package dump tells about one app; each attribute is
/// independently optional.
#[derive(Debug, Clone, PartialEq)]
pub struct AppInfo {
    pub package_name: String,
    pub version_name: Option<String>,
    pub version_code: Option<i64>,
    pub label: Option<String>,
    pub install_location: InstallLocation,
    pub flags: Vec<String>,
    pub first_install_time: Option<String>,
    pub last_update_time: Option<String>,
    pub apk_path: Option<String>,
    pub data_dir: Option<String>,
    pub is_system_app: bool,
    pub is_enabled: bool,
}

/// The attributes the dump scan accumulates.
#[verifier::ext_equal]
pub struct AppInfoAcc {
    pub version_name: Option<Seq<char>>,
    pub version_code: Option<i64>,
    pub label: Option<Seq<char>>,
    pub install_location: InstallLocation,
    pub flags: Seq<Seq<char>>,
    pub first_install_time: Option<Seq<char>>,
    pub last_update_time: Option<Seq<char>>,
    pub apk_path: Option<Seq<char>>,
    pub data_dir: Option<Seq<char>>,
    pub is_system_app: bool,
    pub is_enabled: bool,
}

pub open spec fn opt_view(o: Option<String>) -> Option<Seq<char>> {
    match o {
        Some(s) => Some(s@),
        None => None,
    }
}

/// The foreground package named by an activity dump.
#[derive(Debug, Clone, PartialEq)]
pub struct TopPackage {
    pub name: String,
    pub pid: Option<u32>,
}

#[verifier::ext_equal]
pub struct TopPackageView {
    pub name: Seq<char>,
    pub pid: Option<u32>,
}

impl View for TopPackage {
    type V = TopPackageView;

    open spec fn view(&self) -> TopPackageView {
        TopPackageView { name: self.name@, pid: self.pid }
    }
}

/// A package's permission decisions.
#[derive(Debug, Clone, PartialEq)]
pub struct AppPermissions {
    pub package_name: String,
    pub permissions: Vec<PermissionInfo>,
}

/// One permission and its decision.
#[derive(Debug, Clone, PartialEq)]
pub struct PermissionInfo {
    pub name: String,
    pub status: PermissionStatus,
}

#[verifier::ext_equal]
pub struct PermissionInfoView {
    pub name: Seq<char>,
    pub status: PermissionStatus,
}

impl View for PermissionInfo {
    type V = PermissionInfoView;

    open spec fn view(&self) -> PermissionInfoView {
        PermissionInfoView { name: self.name@, status: self.status }
    }
}

/// Outcome of an install attempt.
#[derive(Debug, Clone, PartialEq)]
pub struct InstallResult {
    pub success: bool,
    pub message: String,
    pub package_name: Option<String>,
}

/// Outcome of an uninstall attempt.
#[derive(Debug, Clone, PartialEq)]
pub struct UninstallResult {
    pub success: bool,
    pub message: String,
}

/// Which installed packages a listing asks for.
#[derive(Debug, Clone, Copy, PartialEq, Eq, Structural)]
pub enum PackageFilter {
    All,
    System,
    ThirdParty,
    Enabled,
    Disabled,
}

/// The package-list command a filter selects.
pub fn package_list_command(filter: PackageFilter) -> (r: String)
    ensures
        r@ == match filter {
            PackageFilter::All => "pm list packages "@,
            PackageFilter::System => "pm list packages -s"@,
            PackageFilter::ThirdParty => "pm list packages -3"@,
            PackageFilter::Enabled => "pm list packages -e"@,
            PackageFilter::Disabled => "pm list packages -d"@,
        },
{
    match filter {
        PackageFilter::All => String::from_str("pm list packages "),
        PackageFilter::System => String::from_str("pm list packages -s"),
        PackageFilter::ThirdParty => String::from_str("pm list packages -3"),
        PackageFilter::Enabled => String::from_str("pm list packages -e"),
        PackageFilter::Disabled => String::from_str("pm list packages -d"),
    }
}

/// Failures of the package subsystem.
#[derive(Debug, Clone, PartialEq)]
pub enum AppManagerError {
    PackageNotFound(String),
    ActivityNotFound(String),
    InstallFailed(String),
    UninstallFailed(String),
    CommandFailed(String),
    ParseError(String),
    PermissionDenied(String),
}

impl AppManagerError {
    /// A human-readable description of the failure.
    pub fn message(&self) -> (r: String)
        ensures
            match self {
                AppManagerError::PackageNotFound(p) => r@ == "Package not found: "@ + p@,
                AppManagerError::ActivityNotFound(p) => r@ == "Launcher activity not found: "@
                    + p@,
                AppManagerError::InstallFailed(m) => r@ == "Install failed: "@ + m@,
                AppManagerError::UninstallFailed(m) => r@ == "Uninstall failed: "@ + m@,
                AppManagerError::CommandFailed(m) => r@ == "Command failed: "@ + m@,
                AppManagerError::ParseError(m) => r@ == "Parse error: "@ + m@,
                AppManagerError::PermissionDenied(m) => r@ == "Permission denied: "@ + m@,
            },
    {
        let (head, tail): (&str, &String) = match self {
            AppManagerError::PackageNotFound(p) => ("Package not found: ", p),
            AppManagerError::ActivityNotFound(p) => ("Launcher activity not found: ", p),
            AppManagerError::InstallFailed(m) => ("Install failed: ", m),
            AppManagerError::UninstallFailed(m) => ("Uninstall failed: ", m),
            AppManagerError::CommandFailed(m) => ("Command failed: ", m),
            AppManagerError::ParseError(m) => ("Parse error: ", m),
            AppManagerError::PermissionDenied(m) => ("Permission denied: ", m),
        };
        let mut s = head.to_owned();
        s.append(tail.as_str());
        s
    }
}

// ---------------------------------------------------------------------------
// Package list
// ---------------------------------------------------------------------------
/// The package names a listing output carries: the text after each line's
/// `package:` prefix.
pub open spec fn spec_package_list(ls: Seq<Seq<char>>) -> Seq<Seq<char>>
    decreases ls.len(),
{
    if ls.len() == 0 {
        Seq::empty()
    } else {
        spec_package_list(ls.drop_last()) + (if spec_starts_with(ls.last(), "package:"@) {
            seq![ls.last().subrange("package:"@.len() as int, ls.last().len() as int)]
        } else {
            Seq::empty()
        })
    }
}

/// Reads the package names from a listing output.
#[verifier::loop_isolation(false)]
pub fn parse_package_list(output: &str) -> (r: Vec<String>)
    ensures
        r.deep_view() == spec_package_list(spec_lines(output@)),
{
    let ls = split_lines(output);
    let ghost lv = spec_lines(output@);
    let n = ls.len();
    let mut r: Vec<String> = Vec::new();
    let mut i: usize = 0;
    proof {
        reveal_strlit("package:");
        assert(lv.subrange(0, 0) =~= Seq::<Seq<char>>::empty());
        assert(r.deep_view() =~= Seq::<Seq<char>>::empty());
        assert(r.deep_view() =~= spec_package_list(lv.subrange(0, 0)));
    }
    while i < n
        invariant
            0 <= i <= n,
            n == lv.len(),
            r.deep_view() == spec_package_list(lv.subrange(0, i as int)),
        decreases n - i,
    {
        proof {
            assert(ls@[i as int]@ == lv[i as int]);
            assert(lv.subrange(0, i as int + 1).drop_last() =~= lv.subrange(0, i as int));
            assert(lv.subrange(0, i as int + 1).last() == lv[i as int]);
        }
        match strip_prefix(ls[i].as_str(), "package:") {
            Some(p) => {
                let name = p.to_owned();
                let ghost old_r = r;
                r.push(name);
                proof {
                    crate::text::lemma_deep_view_push(old_r, name, r);
                    assert(r.deep_view() =~= spec_package_list(lv.subrange(0, i as int + 1)));
                }
            },
            None => {
                proof {
                    assert(r.deep_view() =~= spec_package_list(lv.subrange(0, i as int + 1)));
                }
            },
        }
        i = i + 1;
    }
    proof {
        assert(lv.subrange(0, n as int) =~= lv);
    }
    r
}

// ---------------------------------------------------------------------------
// App dump
// ---------------------------------------------------------------------------
/// What one dump line contributes to the accumulated attributes: the first
/// recognized `key=` prefix of the trimmed line overwrites its attribute;
/// unknown lines change nothing.
pub open spec fn app_line_step(l0: Seq<char>, acc: AppInfoAcc) -> AppInfoAcc {
    let l = spec_trim(l0);
    if spec_starts_with(l, "versionName="@) {
        AppInfoAcc { version_name: Some(spec_strip_all(l, "versionName="@)), ..acc }
    } else if spec_starts_with(l, "versionCode="@) {
        let code = spec_split_char(spec_strip_all(l, "versionCode="@), ' ')[0];
        AppInfoAcc { version_code: spec_parse_i64(code), ..acc }
    } else if spec_starts_with(l, "pkgFlags="@) {
        let flags = spec_split_char(spec_strip_all(l, "pkgFlags="@), ' ');
        AppInfoAcc { flags: flags, is_system_app: flags.contains("SYSTEM"@), ..acc }
    } else if spec_starts_with(l, "installLocation="@) {
        AppInfoAcc {
            install_location: spec_install_location(spec_strip_all(l, "installLocation="@)),
            ..acc
        }
    } else if spec_starts_with(l, "firstInstallTime="@) {
        AppInfoAcc { first_install_time: Some(spec_strip_all(l, "firstInstallTime="@)), ..acc }
    } else if spec_starts_with(l, "lastUpdateTime="@) {
        AppInfoAcc { last_update_time: Some(spec_strip_all(l, "lastUpdateTime="@)), ..acc }
    } else if spec_starts_with(l, "codePath="@) {
        AppInfoAcc { apk_path: Some(spec_strip_all(l, "codePath="@)), ..acc }
    } else if spec_starts_with(l, "dataDir="@) {
        AppInfoAcc { data_dir: Some(spec_strip_all(l, "dataDir="@)), ..acc }
    } else if spec_starts_with(l, "label="@) {
        AppInfoAcc { label: Some(spec_strip_all(l, "label="@)), ..acc }
    } else if spec_starts_with(l, "enabled="@) {
        AppInfoAcc { is_enabled: spec_contains(l, "true"@), ..acc }
    } else {
        acc
    }
}

pub open spec fn app_fold(ls: Seq<Seq<char>>, acc: AppInfoAcc) -> AppInfoAcc
    decreases ls.len(),
{
    if ls.len() == 0 {
        acc
    } else {
        app_fold(ls.drop_first(), app_line_step(ls[0], acc))
    }
}

/// The attributes before any dump line was seen: everything absent, location
/// unknown, enabled.
pub open spec fn app_acc_init() -> AppInfoAcc {
    AppInfoAcc {
        version_name: None,
        version_code: None,
        label: None,
        install_location: InstallLocation::Unknown,
        flags: Seq::empty(),
        first_install_time: None,
        last_update_time: None,
        apk_path: None,
        data_dir: None,
        is_system_app: false,
        is_enabled: true,
    }
}

/// Scans a package dump for the known attribute prefixes.  Every attribute
/// is independently optional: absence leaves it empty, never fails the scan.
#[verifier::loop_isolation(false)]
pub fn parse_app_info(output: &str, package_name: &str) -> (r: AppInfo)
    ensures
        r.package_name@ == package_name@,
        ({
            let acc = app_fold(spec_lines(output@), app_acc_init());
            opt_view(r.version_name) == acc.version_name && r.version_code == acc.version_code
                && opt_view(r.label) == acc.label && r.install_location == acc.install_location
                && r.flags.deep_view() == acc.flags && opt_view(r.first_install_time)
                == acc.first_install_time && opt_view(r.last_update_time) == acc.last_update_time
                && opt_view(r.apk_path) == acc.apk_path && opt_view(r.data_dir) == acc.data_dir
                && r.is_system_app == acc.is_system_app && r.is_enabled == acc.is_enabled
        }),
{
    let ls = split_lines(output);
    let ghost lv = spec_lines(output@);
    let n = ls.len();
    let mut version_name: Option<String> = None;
    let mut version_code: Option<i64> = None;
    let mut label: Option<String> = None;
    let mut install_location = InstallLocation::Unknown;
    let mut flags: Vec<String> = Vec::new();
    let mut first_install_time: Option<String> = None;
    let mut last_update_time: Option<String> = None;
    let mut apk_path: Option<String> = None;
    let mut data_dir: Option<String> = None;
    let mut is_system_app = false;
    let mut is_enabled = true;
    let mut i: usize = 0;
    proof {
        reveal_strlit("versionName=");
        reveal_strlit("versionCode=");
        reveal_strlit("pkgFlags=");
        reveal_strlit("installLocation=");
        reveal_strlit("firstInstallTime=");
        reveal_strlit("lastUpdateTime=");
        reveal_strlit("codePath=");
        reveal_strlit("dataDir=");
        reveal_strlit("label=");
        reveal_strlit("enabled=");
        reveal_strlit("SYSTEM");
        reveal_strlit("true");
        assert(lv.subrange(0, n as int) =~= lv);
        assert(flags.deep_view() =~= Seq::<Seq<char>>::empty());
    }
    while i < n
        invariant
            0 <= i <= n,
            n == lv.len(),
            app_fold(lv, app_acc_init()) == app_fold(
                lv.subrange(i as int, n as int),
                AppInfoAcc {
                    version_name: opt_view(version_name),
                    version_code: version_code,
                    label: opt_view(label),
                    install_location: install_location,
                    flags: flags.deep_view(),
                    first_install_time: opt_view(first_install_time),
                    last_update_time: opt_view(last_update_time),
                    apk_path: opt_view(apk_path),
                    data_dir: opt_view(data_dir),
                    is_system_app: is_system_app,
                    is_enabled: is_enabled,
                },
            ),
        decreases n - i,
    {
        let ghost acc_in = AppInfoAcc {
            version_name: opt_view(version_name),
            version_code: version_code,
            label: opt_view(label),
            install_location: install_location,
            flags: flags.deep_view(),
            first_install_time: opt_view(first_install_time),
            last_update_time: opt_view(last_update_time),
            apk_path: opt_view(apk_path),
            data_dir: opt_view(data_dir),
            is_system_app: is_system_app,
            is_enabled: is_enabled,
        };
        proof {
            let pre = lv.subrange(i as int, n as int);
            assert(pre[0] == lv[i as int]);
            assert(pre.drop_first() =~= lv.subrange(i as int + 1, n as int));
            assert(ls@[i as int]@ == lv[i as int]);
        }
        let line = trim(ls[i].as_str());
        if starts_with(line, "versionName=") {
            version_name = Some(strip_all(line, "versionName="));
        } else if starts_with(line, "versionCode=") {
            let v = strip_all(line, "versionCode=");
            let pieces = split_char(v.as_str(), ' ');
            proof {
                assert(spec_split_char(v@, ' ').len() >= 1);
                assert(pieces@[0]@ == spec_split_char(v@, ' ')[0]);
            }
            version_code = parse_i64(pieces[0].as_str());
        } else if starts_with(line, "pkgFlags=") {
            let v = strip_all(line, "pkgFlags=");
            flags = split_char(v.as_str(), ' ');
            is_system_app = vec_contains_str(&flags, "SYSTEM");
        } else if starts_with(line, "installLocation=") {
            let v = strip_all(line, "installLocation=");
            install_location = InstallLocation::from_str(v.as_str());
        } else if starts_with(line, "firstInstallTime=") {
            first_install_time = Some(strip_all(line, "firstInstallTime="));
        } else if starts_with(line, "lastUpdateTime=") {
            last_update_time = Some(strip_all(line, "lastUpdateTime="));
        } else if starts_with(line, "codePath=") {
            apk_path = Some(strip_all(line, "codePath="));
        } else if starts_with(line, "dataDir=") {
            data_dir = Some(strip_all(line, "dataDir="));
        } else if starts_with(line, "label=") {
            label = Some(strip_all(line, "label="));
        } else if starts_with(line, "enabled=") {
            is_enabled = contains_sub(line, "true");
        }
        proof {
            let acc_out = AppInfoAcc {
                version_name: opt_view(version_name),
                version_code: version_code,
                label: opt_view(label),
                install_location: install_location,
                flags: flags.deep_view(),
                first_install_time: opt_view(first_install_time),
                last_update_time: opt_view(last_update_time),
                apk_path: opt_view(apk_path),
                data_dir: opt_view(data_dir),
                is_system_app: is_system_app,
                is_enabled: is_enabled,
            };
            assert(acc_out =~= app_line_step(lv[i as int], acc_in));
        }
        i = i + 1;
    }
    proof {
        assert(lv.subrange(n as int, n as int) =~= Seq::<Seq<char>>::empty());
    }
    AppInfo {
        package_name: package_name.to_owned(),
        version_name,
        version_code,
        label,
        install_location,
        flags,
        first_install_time,
        last_update_time,
        apk_path,
        data_dir,
        is_system_app,
        is_enabled,
    }
}

// ---------------------------------------------------------------------------
// Permissions
// ---------------------------------------------------------------------------
/// What one dump line contributes to the permission list: a line carrying a
/// grant decision, a `name=` marker and a closing bracket after it names one
/// permission.
pub open spec fn spec_permission_line(l: Seq<char>) -> Option<PermissionInfoView> {
    if spec_contains(l, "granted=true"@) || spec_contains(l, "granted=false"@) {
        match spec_find_sub(l, "name="@) {
            Some(i) => {
                let nl = l.subrange(i, l.len() as int);
                match spec_find_char(nl, ']') {
                    Some(e) => if e >= 5 {
                        Some(
                            PermissionInfoView {
                                name: nl.subrange(5, e),
                                status: if spec_contains(l, "granted=true"@) {
                                    PermissionStatus::Granted
                                } else {
                                    PermissionStatus::Denied
                                },
                            },
                        )
                    } else {
                        None
                    },
                    None => None,
                }
            },
            None => None,
        }
    } else {
        None
    }
}

pub open spec fn spec_permission_list(ls: Seq<Seq<char>>) -> Seq<PermissionInfoView>
    decreases ls.len(),
{
    if ls.len() == 0 {
        Seq::empty()
    } else {
        spec_permission_list(ls.drop_last()) + (match spec_permission_line(ls.last()) {
            Some(p) => seq![p],
            None => Seq::empty(),
        })
    }
}

pub open spec fn permission_views(s: Seq<PermissionInfo>) -> Seq<PermissionInfoView> {
    Seq::new(s.len(), |i: int| s[i]@)
}

/// Collects the granted and denied permissions a package dump lists.
#[verifier::loop_isolation(false)]
pub fn parse_app_permissions(output: &str, package_name: &str) -> (r: AppPermissions)
    ensures
        r.package_name@ == package_name@,
        permission_views(r.permissions@) == spec_permission_list(spec_lines(output@)),
{
    let ls = split_lines(output);
    let ghost lv = spec_lines(output@);
    let n = ls.len();
    let mut permissions: Vec<PermissionInfo> = Vec::new();
    let mut i: usize = 0;
    proof {
        reveal_strlit("granted=true");
        reveal_strlit("granted=false");
        reveal_strlit("name=");
        assert(permission_views(permissions@) =~= Seq::<PermissionInfoView>::empty());
        assert(permission_views(permissions@) =~= spec_permission_list(lv.subrange(0, 0)));
    }
    while i < n
        invariant
            0 <= i <= n,
            n == lv.len(),
            permission_views(permissions@) == spec_permission_list(lv.subrange(0, i as int)),
        decreases n - i,
    {
        proof {
            assert(ls@[i as int]@ == lv[i as int]);
            assert(lv.subrange(0, i as int + 1).drop_last() =~= lv.subrange(0, i as int));
            assert(lv.subrange(0, i as int + 1).last() == lv[i as int]);
        }
        let ghost old_views = permission_views(permissions@);
        let line = ls[i].as_str();
        let g_true = contains_sub(line, "granted=true");
        let g_false = contains_sub(line, "granted=false");
        if g_true || g_false {
            match find_sub(line, "name=") {
                Some(ns) => {
                    proof {
                        lemma_find_sub_props(line@, "name="@);
                    }
                    let nl = line.substring_char(ns, line.unicode_len());
                    match find_char(nl, ']') {
                        Some(e) => {
                            proof {
                                lemma_find_char_props(nl@, ']');
                            }
                            if e >= 5 {
                                let p = PermissionInfo {
                                    name: nl.substring_char(5, e).to_owned(),
                                    status: if g_true {
                                        PermissionStatus::Granted
                                    } else {
                                        PermissionStatus::Denied
                                    },
                                };
                                proof {
                                    assert(p@ =~= spec_permission_line(lv[i as int])->Some_0);
                                }
                                permissions.push(p);
                                proof {
                                    assert(permission_views(permissions@) =~= old_views.push(
                                        spec_permission_line(lv[i as int])->Some_0,
                                    ));
                                    assert(permission_views(permissions@) =~= spec_permission_list(
                                        lv.subrange(0, i as int + 1),
                                    ));
                                }
                            } else {
                                proof {
                                    assert(permission_views(permissions@) =~= spec_permission_list(
                                        lv.subrange(0, i as int + 1),
                                    ));
                                }
                            }
                        },
                        None => {
                            proof {
                                assert(permission_views(permissions@) =~= spec_permission_list(
                                    lv.subrange(0, i as int + 1),
                                ));
                            }
                        },
                    }
                },
                None => {
                    proof {
                        assert(permission_views(permissions@) =~= spec_permission_list(
                            lv.subrange(0, i as int + 1),
                        ));
                    }
                },
            }
        } else {
            proof {
                assert(permission_views(permissions@) =~= spec_permission_list(
                    lv.subrange(0, i as int + 1),
                ));
            }
        }
        i = i + 1;
    }
    proof {
        assert(lv.subrange(0, n as int) =~= lv);
    }
    AppPermissions { package_name: package_name.to_owned(), permissions }
}

// ---------------------------------------------------------------------------
// Command outcomes
// ---------------------------------------------------------------------------
/// Whether a line reports a failure.
pub open spec fn is_error_line(l: Seq<char>) -> bool {
    spec_contains(l, "Failure"@) || spec_contains(l, "Error"@) || spec_contains(l, "error"@)
}

/// The first failure line of an output, trimmed.
pub open spec fn spec_first_error_line(ls: Seq<Seq<char>>) -> Option<Seq<char>>
    decreases ls.len(),
{
    if ls.len() == 0 {
        None
    } else if is_error_line(ls[0]) {
        Some(spec_trim(ls[0]))
    } else {
        spec_first_error_line(ls.drop_first())
    }
}

/// The failure text of an output: its first failure line, else its last
/// line, else a fixed fallback.
pub open spec fn spec_error_message(text: Seq<char>) -> Seq<char> {
    let ls = spec_lines(text);
    match spec_first_error_line(ls) {
        Some(l) => l,
        None => if ls.len() > 0 {
            ls.last()
        } else {
            "Unknown error"@
        },
    }
}

/// Picks the failure text out of a command output: the first line mentioning
/// a failure, else the last line, else a fixed fallback.
#[verifier::loop_isolation(false)]
pub fn extract_error_message(output: &str) -> (r: String)
    ensures
        r@ == spec_error_message(output@),
{
    let ls = split_lines(output);
    let ghost lv = spec_lines(output@);
    let n = ls.len();
    let mut i: usize = 0;
    proof {
        reveal_strlit("Failure");
        reveal_strlit("Error");
        reveal_strlit("error");
        assert(lv.subrange(0, n as int) =~= lv);
    }
    while i < n
        invariant
            0 <= i <= n,
            n == lv.len(),
            spec_first_error_line(lv) == spec_first_error_line(lv.subrange(i as int, n as int)),
        decreases n - i,
    {
        proof {
            assert(ls@[i as int]@ == lv[i as int]);
            let pre = lv.subrange(i as int, n as int);
            assert(pre[0] == lv[i as int]);
            assert(pre.drop_first() =~= lv.subrange(i as int + 1, n as int));
        }
        let line = ls[i].as_str();
        if contains_sub(line, "Failure") || contains_sub(line, "Error") || contains_sub(
            line,
            "error",
        ) {
            return trim(line).to_owned();
        }
        i = i + 1;
    }
    proof {
        assert(lv.subrange(n as int, n as int) =~= Seq::<Seq<char>>::empty());
    }
    if n > 0 {
        proof {
            assert(ls@[n - 1]@ == lv.last());
        }
        ls[n - 1].clone()
    } else {
        proof {
            reveal_strlit("Unknown error");
        }
        String::from_str("Unknown error")
    }
}

/// Reads an install attempt's output: a reported success carries the package
/// name derived from the archive's file name; anything else carries the
/// output's failure text.
pub fn parse_install_output(output: &str, apk_path: &str) -> (r: InstallResult)
    ensures
        r.success == spec_contains(output@, "Success"@),
        spec_contains(output@, "Success"@) ==> r.message@ == "App installed successfully"@ && (
        match r.package_name {
            Some(p) => p@ == match spec_file_stem(apk_path@) {
                Some(f) => f,
                None => Seq::<char>::empty(),
            },
            None => false,
        }),
        !spec_contains(output@, "Success"@) ==> r.message@ == spec_error_message(output@)
            && r.package_name is None,
{
    proof {
        reveal_strlit("Success");
    }
    if contains_sub(output, "Success") {
        let name = crate::file_manager::file_stem_of(apk_path);
        InstallResult {
            success: true,
            message: String::from_str("App installed successfully"),
            package_name: Some(name),
        }
    } else {
        InstallResult {
            success: false,
            message: extract_error_message(output),
            package_name: None,
        }
    }
}

/// Reads an uninstall attempt's output; the success text says whether data
/// was kept.
pub fn parse_uninstall_output(output: &str, keep_data: bool) -> (r: UninstallResult)
    ensures
        r.success == spec_contains(output@, "Success"@),
        spec_contains(output@, "Success"@) ==> r.message@ == if keep_data {
            "App uninstalled (data kept)"@
        } else {
            "App uninstalled successfully"@
        },
        !spec_contains(output@, "Success"@) ==> r.message@ == spec_error_message(output@),
{
    proof {
        reveal_strlit("Success");
    }
    if contains_sub(output, "Success") {
        UninstallResult {
            success: true,
            message: if keep_data {
                String::from_str("App uninstalled (data kept)")
            } else {
                String::from_str("App uninstalled successfully")
            },
        }
    } else {
        UninstallResult { success: false, message: extract_error_message(output) }
    }
}

/// What a launcher resolution output denotes: the trimmed text, unless it is
/// empty or mentions a null match.
pub open spec fn spec_launcher_activity(text: Seq<char>) -> Option<Seq<char>> {
    let t = spec_trim(text);
    if t.len() == 0 || spec_contains(t, "null"@) {
        None
    } else {
        Some(t)
    }
}

/// Reads the resolved launcher activity, if one was found.
pub fn parse_launcher_activity(output: &str) -> (r: Option<String>)
    ensures
        match r {
            Some(t) => spec_launcher_activity(output@) == Some(t@),
            None => spec_launcher_activity(output@) is None,
        },
{
    proof {
        reveal_strlit("null");
    }
    let t = trim(output);
    if t.unicode_len() == 0 || contains_sub(t, "null") {
        None
    } else {
        Some(t.to_owned())
    }
}

// ---------------------------------------------------------------------------
// Foreground activity
// ---------------------------------------------------------------------------
/// The first line mentioning the foreground-activity marker, trimmed.
pub open spec fn spec_top_line(ls: Seq<Seq<char>>) -> Option<Seq<char>>
    decreases ls.len(),
{
    if ls.len() == 0 {
        None
    } else if spec_contains(ls[0], "top-activity"@) {
        Some(spec_trim(ls[0]))
    } else {
        spec_top_line(ls.drop_first())
    }
}

/// The empty result: no foreground activity.
pub open spec fn spec_no_top() -> TopPackageView {
    TopPackageView { name: Seq::empty(), pid: None }
}

/// What the activity dump denotes: the second-to-last token of the marker
/// line, read as `pid:package/activity`; anything else is the empty result.
pub open spec fn spec_top_package(text: Seq<char>) -> TopPackageView {
    match spec_top_line(spec_lines(text)) {
        Some(l) => {
            let toks = spec_split_ws(l);
            if toks.len() >= 2 {
                let pieces = spec_split_char(toks[toks.len() - 2], ':');
                if pieces.len() == 2 {
                    TopPackageView {
                        name: match spec_find_char(pieces[1], '/') {
                            Some(si) => pieces[1].subrange(0, si),
                            None => pieces[1],
                        },
                        pid: spec_parse_u32(pieces[0]),
                    }
                } else {
                    spec_no_top()
                }
            } else {
                spec_no_top()
            }
        },
        None => spec_no_top(),
    }
}

/// Finds the foreground package in an activity dump.  A dump without the
/// marker yields the explicit empty result, not an error.
#[verifier::loop_isolation(false)]
pub fn parse_top_package(output: &str) -> (r: TopPackage)
    ensures
        r@ == spec_top_package(output@),
{
    let ls = split_lines(output);
    let ghost lv = spec_lines(output@);
    let n = ls.len();
    let mut i: usize = 0;
    proof {
        reveal_strlit("top-activity");
        assert(lv.subrange(0, n as int) =~= lv);
    }
    while i < n
        invariant
            0 <= i <= n,
            n == lv.len(),
            spec_top_line(lv) == spec_top_line(lv.subrange(i as int, n as int)),
        decreases n - i,
    {
        proof {
            assert(ls@[i as int]@ == lv[i as int]);
            let pre = lv.subrange(i as int, n as int);
            assert(pre[0] == lv[i as int]);
            assert(pre.drop_first() =~= lv.subrange(i as int + 1, n as int));
        }
        let line = ls[i].as_str();
        if contains_sub(line, "top-activity") {
            let tl = trim(line);
            let toks = split_ws(tl);
            if toks.len() >= 2 {
                proof {
                    assert(toks@[toks@.len() - 2]@ == spec_split_ws(tl@)[toks@.len() - 2]);
                }
                let pkg = toks[toks.len() - 2].as_str();
                let pieces = split_char(pkg, ':');
                if pieces.len() == 2 {
                    proof {
                        assert(pieces@[0]@ == spec_split_char(pkg@, ':')[0]);
                        assert(pieces@[1]@ == spec_split_char(pkg@, ':')[1]);
                    }
                    let pid = parse_u32(pieces[0].as_str());
                    let second = pieces[1].as_str();
                    let name = match find_char(second, '/') {
                        Some(si) => {
                            proof {
                                lemma_find_char_props(second@, '/');
                            }
                            second.substring_char(0, si).to_owned()
                        },
                        None => second.to_owned(),
                    };
                    let r = TopPackage { name, pid };
                    proof {
                        assert(r@ =~= spec_top_package(output@));
                    }
                    return r;
                }
                let r = TopPackage { name: String::new(), pid: None };
                proof {
                    assert(r@ =~= spec_no_top());
                }
                return r;
            }
            let r = TopPackage { name: String::new(), pid: None };
            proof {
                assert(r@ =~= spec_no_top());
            }
            return r;
        }
        i = i + 1;
    }
    proof {
        assert(lv.subrange(n as int, n as int) =~= Seq::<Seq<char>>::empty());
    }
    let r = TopPackage { name: String::new(), pid: None };
    proof {
        assert(r@ =~= spec_no_top());
    }
    r
}

} // verus!
