//! Directory listings, storage reports, path helpers and file-type
//! classification.
//!
//! The listing parser applies the long-listing line grammar to every line
//! after the header, classifies entries into files and directories, and keeps
//! the aggregate counts as a fold over the entries: the file and directory
//! counts always add up to the number of entries, and the total size is the
//! (saturated) sum of the non-directory sizes.

use vstd::prelude::*;

use crate::text::{
    ends_with, join_from, lemma_rfind_char_props, lemma_skip_char_back_at,
    lemma_skip_char_front_at, lower_char, parse_u64, rfind_char, skip_char_back, spec_ascii_lower,
    spec_contains, spec_ends_with, spec_join_from, spec_lines, spec_parse_u64, spec_rfind_char,
    spec_split_ws, spec_u64_or0, split_lines, split_ws, str_eq, u64_or0, contains_sub,
    spec_starts_with, starts_with,
};

verus! {

// ---------------------------------------------------------------------------
// Types
// ---------------------------------------------------------------------------
/// One entry of a directory listing.
#[derive(Debug, PartialEq)]
pub struct FileInfo {
    pub name: String,
    pub path: String,
    pub size: u64,
    pub permissions: String,
    pub is_directory: bool,
    pub is_symlink: bool,
    pub modified: Option<u64>,
    pub owner: Option<String>,
    pub group: Option<String>,
}

#[verifier::ext_equal]
pub struct FileInfoView {
    pub name: Seq<char>,
    pub path: Seq<char>,
    pub size: u64,
    pub permissions: Seq<char>,
    pub is_directory: bool,
    pub is_symlink: bool,
    pub modified: Option<u64>,
    pub owner: Option<Seq<char>>,
    pub group: Option<Seq<char>>,
}

impl View for FileInfo {
    type V = FileInfoView;

    open spec fn view(&self) -> FileInfoView {
        FileInfoView {
            name: self.name@,
            path: self.path@,
            size: self.size,
            permissions: self.permissions@,
            is_directory: self.is_directory,
            is_symlink: self.is_symlink,
            modified: self.modified,
            owner: match self.owner {
                Some(ref o) => Some(o@),
                None => None,
            },
            group: match self.group {
                Some(ref g) => Some(g@),
                None => None,
            },
        }
    }
}

impl Clone for FileInfo {
    fn clone(&self) -> (r: Self)
        ensures
            r == *self,
    {
        FileInfo {
            name: self.name.clone(),
            path: self.path.clone(),
            size: self.size,
            permissions: self.permissions.clone(),
            is_directory: self.is_directory,
            is_symlink: self.is_symlink,
            modified: self.modified,
            owner: match &self.owner {
                Some(o) => Some(o.clone()),
                None => None,
            },
            group: match &self.group {
                Some(g) => Some(g.clone()),
                None => None,
            },
        }
    }
}

/// A directory's entries with their aggregate counts.
#[derive(Debug, Clone, PartialEq)]
pub struct DirectoryListing {
    pub path: String,
    pub total_files: usize,
    pub total_dirs: usize,
    pub total_size: u64,
    pub files: Vec<FileInfo>,
    pub parent_path: Option<String>,
}

/// Space usage of one mounted filesystem, in bytes; the used percentage is
/// kept in whole percent, truncated.
#[derive(Debug, Clone, PartialEq)]
pub struct StorageInfo {
    pub path: String,
    pub total_bytes: u64,
    pub used_bytes: u64,
    pub free_bytes: u64,
    pub percentage_used: u64,
    pub filesystem: String,
}

#[verifier::ext_equal]
pub struct StorageInfoView {
    pub path: Seq<char>,
    pub total_bytes: u64,
    pub used_bytes: u64,
    pub free_bytes: u64,
    pub percentage_used: u64,
    pub filesystem: Seq<char>,
}

impl View for StorageInfo {
    type V = StorageInfoView;

    open spec fn view(&self) -> StorageInfoView {
        StorageInfoView {
            path: self.path@,
            total_bytes: self.total_bytes,
            used_bytes: self.used_bytes,
            free_bytes: self.free_bytes,
            percentage_used: self.percentage_used,
            filesystem: self.filesystem@,
        }
    }
}

/// One hit of a file search.
#[derive(Debug, Clone, PartialEq)]
pub struct FileSearchResult {
    pub name: String,
    pub path: String,
    pub size: u64,
    pub is_directory: bool,
    pub matched_line: Option<String>,
}

/// A path's classification by its extension.
#[derive(Debug, Clone, PartialEq)]
pub struct FileType {
    pub extension: Option<String>,
    pub mime_type: String,
    pub category: FileCategory,
}

#[verifier::ext_equal]
pub struct FileTypeView {
    pub extension: Option<Seq<char>>,
    pub mime_type: Seq<char>,
    pub category: FileCategory,
}

impl View for FileType {
    type V = FileTypeView;

    open spec fn view(&self) -> FileTypeView {
        FileTypeView {
            extension: match self.extension {
                Some(ref e) => Some(e@),
                None => None,
            },
            mime_type: self.mime_type@,
            category: self.category,
        }
    }
}

/// Broad content classes, decided by extension.
#[derive(Debug, Clone, Copy, PartialEq, Eq, Structural)]
pub enum FileCategory {
    Directory,
    Image,
    Video,
    Audio,
    Document,
    Archive,
    Apk,
    Code,
    Other,
}

/// Failures of the file subsystem.
#[derive(Debug, Clone, PartialEq)]
pub enum FileManagerError {
    PathNotFound(String),
    FileNotFound(String),
    PermissionDenied(String),
    CommandFailed(String),
    ParseError(String),
    NotADirectory(String),
}

impl FileManagerError {
    /// A human-readable description of the failure.
    pub fn message(&self) -> (r: String)
        ensures
            match self {
                FileManagerError::PathNotFound(p) => r@ == "Path not found: "@ + p@,
                FileManagerError::FileNotFound(p) => r@ == "File not found: "@ + p@,
                FileManagerError::PermissionDenied(p) => r@ == "Permission denied: "@ + p@,
                FileManagerError::CommandFailed(m) => r@ == "Command failed: "@ + m@,
                FileManagerError::ParseError(m) => r@ == "Parse error: "@ + m@,
                FileManagerError::NotADirectory(p) => r@ == "Not a directory: "@ + p@,
            },
    {
        let (head, tail): (&str, &String) = match self {
            FileManagerError::PathNotFound(p) => ("Path not found: ", p),
            FileManagerError::FileNotFound(p) => ("File not found: ", p),
            FileManagerError::PermissionDenied(p) => ("Permission denied: ", p),
            FileManagerError::CommandFailed(m) => ("Command failed: ", m),
            FileManagerError::ParseError(m) => ("Parse error: ", m),
            FileManagerError::NotADirectory(p) => ("Not a directory: ", p),
        };
        let mut s = head.to_owned();
        s.append(tail.as_str());
        s
    }
}

// ---------------------------------------------------------------------------
// Path helpers
// ---------------------------------------------------------------------------
/// The last path component: the text after the last slash, ignoring trailing
/// slashes; nothing for the root, an empty path, or a `.`/`..` component.
pub open spec fn spec_file_name(p: Seq<char>) -> Option<Seq<char>> {
    let q = skip_char_back(p, '/');
    if q.len() == 0 {
        None
    } else {
        let f = match spec_rfind_char(q, '/') {
            Some(i) => q.subrange(i + 1, q.len() as int),
            None => q,
        };
        if f.len() == 0 || f == "."@ || f == ".."@ {
            None
        } else {
            Some(f)
        }
    }
}

/// The extension of the last path component: the text after its last dot,
/// none when there is no dot or only a leading one.
pub open spec fn spec_extension(p: Seq<char>) -> Option<Seq<char>> {
    match spec_file_name(p) {
        Some(f) => match spec_rfind_char(f, '.') {
            Some(i) => if i > 0 {
                Some(f.subrange(i + 1, f.len() as int))
            } else {
                None
            },
            None => None,
        },
        None => None,
    }
}

/// The last path component without its extension.
pub open spec fn spec_file_stem(p: Seq<char>) -> Option<Seq<char>> {
    match spec_file_name(p) {
        Some(f) => match spec_rfind_char(f, '.') {
            Some(i) => if i > 0 {
                Some(f.subrange(0, i))
            } else {
                Some(f)
            },
            None => Some(f),
        },
        None => None,
    }
}

/// The parent of a path: the text before its last component, `/` when the
/// component hangs off the root, the empty string for a bare relative
/// component, and nothing for the root or an empty path.
pub open spec fn spec_parent(p: Seq<char>) -> Option<Seq<char>> {
    let q = skip_char_back(p, '/');
    if q.len() == 0 {
        None
    } else {
        match spec_rfind_char(q, '/') {
            None => Some(Seq::empty()),
            Some(i) => {
                let pre = skip_char_back(q.subrange(0, i), '/');
                if pre.len() == 0 {
                    Some("/"@)
                } else {
                    Some(pre)
                }
            },
        }
    }
}

/// Strips trailing slashes.
#[verifier::loop_isolation(false)]
fn strip_trailing_slashes(p: &str) -> (r: &str)
    ensures
        r@ == skip_char_back(p@, '/'),
{
    let n = p.unicode_len();
    let mut b: usize = n;
    while b > 0 && p.get_char(b - 1) == '/'
        invariant
            0 <= b <= n,
            forall|k: int| b <= k < n ==> #[trigger] p@[k] == '/',
        decreases b,
    {
        b = b - 1;
    }
    proof {
        lemma_skip_char_back_at(p@, '/', b as int);
    }
    p.substring_char(0, b)
}

/// The last path component, or the empty string when there is none.
pub fn file_basename(p: &str) -> (r: String)
    ensures
        r@ == match spec_file_name(p@) {
            Some(f) => f,
            None => Seq::<char>::empty(),
        },
{
    let q = strip_trailing_slashes(p);
    let qn = q.unicode_len();
    if qn == 0 {
        return String::new();
    }
    let f = match rfind_char(q, '/') {
        Some(i) => {
            proof {
                lemma_rfind_char_props(q@, '/');
            }
            q.substring_char(i + 1, qn)
        },
        None => q,
    };
    proof {
        reveal_strlit(".");
        reveal_strlit("..");
    }
    if f.unicode_len() == 0 || str_eq(f, ".") || str_eq(f, "..") {
        String::new()
    } else {
        f.to_owned()
    }
}

/// The last path component without its extension, or the empty string.
pub fn file_stem_of(p: &str) -> (r: String)
    ensures
        r@ == match spec_file_stem(p@) {
            Some(f) => f,
            None => Seq::<char>::empty(),
        },
{
    let q = strip_trailing_slashes(p);
    let qn = q.unicode_len();
    if qn == 0 {
        return String::new();
    }
    let f = match rfind_char(q, '/') {
        Some(i) => {
            proof {
                lemma_rfind_char_props(q@, '/');
            }
            q.substring_char(i + 1, qn)
        },
        None => q,
    };
    proof {
        reveal_strlit(".");
        reveal_strlit("..");
    }
    if f.unicode_len() == 0 || str_eq(f, ".") || str_eq(f, "..") {
        return String::new();
    }
    match rfind_char(f, '.') {
        Some(i) => {
            proof {
                lemma_rfind_char_props(f@, '.');
            }
            if i > 0 {
                f.substring_char(0, i).to_owned()
            } else {
                f.to_owned()
            }
        },
        None => f.to_owned(),
    }
}

/// The parent path, as [`spec_parent`] defines it.
pub fn get_parent_path(path: &str) -> (r: Option<String>)
    ensures
        match r {
            Some(t) => spec_parent(path@) == Some(t@),
            None => spec_parent(path@) is None,
        },
{
    let q = strip_trailing_slashes(path);
    let qn = q.unicode_len();
    if qn == 0 {
        return None;
    }
    match rfind_char(q, '/') {
        None => Some(String::new()),
        Some(i) => {
            proof {
                lemma_rfind_char_props(q@, '/');
            }
            let pre = strip_trailing_slashes(q.substring_char(0, i));
            if pre.unicode_len() == 0 {
                proof {
                    reveal_strlit("/");
                }
                let root = "/".to_owned();
                Some(root)
            } else {
                Some(pre.to_owned())
            }
        },
    }
}

// ---------------------------------------------------------------------------
// Listing line grammar
// ---------------------------------------------------------------------------
/// What one long-listing line denotes: at least nine whitespace tokens
/// (permissions, links, owner, group, size, modify time, and a name joined
/// from the ninth token on); `.` and `..` entries are dropped.
pub open spec fn spec_ls_line(line: Seq<char>, base: Seq<char>) -> Option<FileInfoView> {
    let toks = spec_split_ws(line);
    if toks.len() < 9 {
        None
    } else {
        let name = spec_join_from(toks, 8);
        if name == "."@ || name == ".."@ {
            None
        } else {
            Some(
                FileInfoView {
                    name: name,
                    path: if spec_ends_with(base, "/"@) {
                        base + name
                    } else {
                        base + "/"@ + name
                    },
                    size: spec_u64_or0(toks[4]),
                    permissions: toks[0],
                    is_directory: toks[0].len() > 0 && toks[0][0] == 'd',
                    is_symlink: toks[0].len() > 0 && toks[0][0] == 'l',
                    modified: spec_parse_u64(toks[5]),
                    owner: Some(toks[2]),
                    group: Some(toks[3]),
                },
            )
        }
    }
}

/// Parses one long-listing line against a base path.
pub fn parse_ls_line(line: &str, base_path: &str) -> (r: Option<FileInfo>)
    ensures
        match r {
            Some(e) => spec_ls_line(line@, base_path@) == Some(e@),
            None => spec_ls_line(line@, base_path@) is None,
        },
{
    let toks = split_ws(line);
    if toks.len() < 9 {
        return None;
    }
    proof {
        crate::text::lemma_split_ws_nonempty(line@);
        assert(forall|k: int|
            0 <= k < toks@.len() ==> #[trigger] toks@[k]@ == spec_split_ws(line@)[k]);
    }
    let name = join_from(&toks, 8);
    proof {
        reveal_strlit(".");
        reveal_strlit("..");
        reveal_strlit("/");
    }
    if str_eq(name.as_str(), ".") || str_eq(name.as_str(), "..") {
        return None;
    }
    let mut path = base_path.to_owned();
    if !ends_with(base_path, "/") {
        path.append("/");
    }
    path.append(name.as_str());
    let permissions = toks[0].clone();
    let pn = permissions.as_str().unicode_len();
    let first = if pn > 0 {
        permissions.as_str().get_char(0)
    } else {
        ' '
    };
    let size = u64_or0(toks[4].as_str());
    let modified = parse_u64(toks[5].as_str());
    let owner = Some(toks[2].clone());
    let group = Some(toks[3].clone());
    let e = FileInfo {
        name,
        path,
        size,
        permissions,
        is_directory: first == 'd',
        is_symlink: first == 'l',
        modified,
        owner,
        group,
    };
    proof {
        let ev = spec_ls_line(line@, base_path@)->Some_0;
        assert(e@.path =~= ev.path);
        assert(e@ =~= ev);
    }
    Some(e)
}

// ---------------------------------------------------------------------------
// Whole listings
// ---------------------------------------------------------------------------
/// The entries a listing's body lines denote, in order.
pub open spec fn spec_dir_entries(ls: Seq<Seq<char>>, base: Seq<char>) -> Seq<FileInfoView>
    decreases ls.len(),
{
    if ls.len() == 0 {
        Seq::empty()
    } else {
        spec_dir_entries(ls.drop_last(), base) + (match spec_ls_line(ls.last(), base) {
            Some(e) => seq![e],
            None => Seq::empty(),
        })
    }
}

/// How many entries are directories.
pub open spec fn num_dirs(s: Seq<FileInfoView>) -> int
    decreases s.len(),
{
    if s.len() == 0 {
        0
    } else {
        num_dirs(s.drop_last()) + if s.last().is_directory {
            1int
        } else {
            0int
        }
    }
}

/// The sum of the sizes of the non-directory entries.
pub open spec fn sum_file_sizes(s: Seq<FileInfoView>) -> int
    decreases s.len(),
{
    if s.len() == 0 {
        0
    } else {
        sum_file_sizes(s.drop_last()) + if s.last().is_directory {
            0int
        } else {
            s.last().size as int
        }
    }
}

proof fn lemma_counts_bounds(s: Seq<FileInfoView>)
    ensures
        0 <= num_dirs(s) <= s.len(),
        0 <= sum_file_sizes(s),
    decreases s.len(),
{
    if s.len() > 0 {
        lemma_counts_bounds(s.drop_last());
    }
}

/// The views of a vector of entries.
pub open spec fn file_views(s: Seq<FileInfo>) -> Seq<FileInfoView> {
    Seq::new(s.len(), |i: int| s[i]@)
}

/// The body of a listing: every line after the header.
pub open spec fn listing_body(text: Seq<char>) -> Seq<Seq<char>> {
    let lv = spec_lines(text);
    if lv.len() >= 1 {
        lv.subrange(1, lv.len() as int)
    } else {
        Seq::empty()
    }
}

/// Parses a whole long listing: the header line is skipped, each remaining
/// line goes through the line grammar, and the aggregates are exact — the
/// file and directory counts add up to the number of entries, and the total
/// size is the sum of the non-directory sizes (saturated at the counter's
/// limit).
#[verifier::loop_isolation(false)]
pub fn parse_directory_listing(output: &str, path: &str) -> (r: DirectoryListing)
    ensures
        r.path@ == path@,
        file_views(r.files@) == spec_dir_entries(listing_body(output@), path@),
        r.total_dirs == num_dirs(file_views(r.files@)),
        r.total_files + r.total_dirs == r.files@.len(),
        r.total_size == if sum_file_sizes(file_views(r.files@)) > u64::MAX {
            u64::MAX as int
        } else {
            sum_file_sizes(file_views(r.files@))
        },
        match r.parent_path {
            Some(ref t) => spec_parent(path@) == Some(t@),
            None => spec_parent(path@) is None,
        },
{
    let ls = split_lines(output);
    let ghost body = listing_body(output@);
    let n = ls.len();
    let mut files: Vec<FileInfo> = Vec::new();
    let mut total_files: usize = 0;
    let mut total_dirs: usize = 0;
    let mut total_size: u64 = 0;
    let mut i: usize = 1;
    proof {
        assert(body.subrange(0, 0) =~= Seq::<Seq<char>>::empty());
        assert(file_views(files@) =~= Seq::<FileInfoView>::empty());
        assert(file_views(files@) =~= spec_dir_entries(body.subrange(0, 0), path@));
    }
    while i < n
        invariant
            1 <= i <= n || (n == 0 && i == 1),
            n == spec_lines(output@).len(),
            n >= 1 ==> body.len() == n - 1,
            n == 0 ==> body.len() == 0,
            file_views(files@) == spec_dir_entries(body.subrange(0, i - 1), path@),
            total_dirs == num_dirs(file_views(files@)),
            total_files + total_dirs == files@.len(),
            total_size == if sum_file_sizes(file_views(files@)) > u64::MAX {
                u64::MAX as int
            } else {
                sum_file_sizes(file_views(files@))
            },
        decreases n - i,
    {
        proof {
            assert(ls@[i as int]@ == spec_lines(output@)[i as int]);
            assert(body[i - 1] == spec_lines(output@)[i as int]);
            assert(body.subrange(0, i as int).drop_last() =~= body.subrange(0, i - 1));
            assert(body.subrange(0, i as int).last() == body[i - 1]);
            lemma_counts_bounds(file_views(files@));
        }
        let ghost old_views = file_views(files@);
        match parse_ls_line(ls[i].as_str(), path) {
            Some(fi) => {
                let is_dir = fi.is_directory;
                let sz = fi.size;
                let ghost fiv = fi@;
                files.push(fi);
                proof {
                    assert(file_views(files@) =~= old_views.push(fiv));
                    assert(file_views(files@) =~= spec_dir_entries(
                        body.subrange(0, i as int),
                        path@,
                    ));
                    assert(file_views(files@).drop_last() =~= old_views);
                }
                let flen = files.len();
                proof {
                    assert(total_files + total_dirs < flen);
                }
                if is_dir {
                    total_dirs = total_dirs + 1;
                } else {
                    total_files = total_files + 1;
                    if total_size > u64::MAX - sz {
                        total_size = u64::MAX;
                    } else {
                        total_size = total_size + sz;
                    }
                }
            },
            None => {
                proof {
                    assert(file_views(files@) =~= spec_dir_entries(
                        body.subrange(0, i as int),
                        path@,
                    ));
                }
            },
        }
        i = i + 1;
    }
    proof {
        if n >= 1 {
            assert(body.subrange(0, n - 1) =~= body);
        } else {
            assert(body.subrange(0, 0) =~= body);
        }
    }
    let parent_path = get_parent_path(path);
    DirectoryListing {
        path: path.to_owned(),
        total_files,
        total_dirs,
        total_size,
        files,
        parent_path,
    }
}

// ---------------------------------------------------------------------------
// Storage reports
// ---------------------------------------------------------------------------
/// Kilobytes scaled to bytes, saturating.
pub open spec fn kb_to_bytes(kb: u64) -> u64 {
    if kb as int * 1024 > u64::MAX {
        u64::MAX
    } else {
        (kb * 1024) as u64
    }
}

fn kb_to_bytes_exec(kb: u64) -> (r: u64)
    ensures
        r == kb_to_bytes(kb),
{
    if kb > u64::MAX / 1024 {
        u64::MAX
    } else {
        kb * 1024
    }
}

/// Whole percent used, truncated; zero when the total is zero.
pub open spec fn spec_percent_used(used: u64, total: u64) -> u64 {
    if total > 0 {
        if used as int * 100 / total as int > u64::MAX {
            u64::MAX
        } else {
            (used as int * 100 / total as int) as u64
        }
    } else {
        0u64
    }
}

fn percent_used_exec(used: u64, total: u64) -> (r: u64)
    ensures
        r == spec_percent_used(used, total),
{
    if total > 0 {
        let p: u128 = used as u128 * 100 / total as u128;
        if p > u64::MAX as u128 {
            u64::MAX
        } else {
            p as u64
        }
    } else {
        0
    }
}

/// What one usage line denotes when asked about a path: the line must
/// mention the path (or end with its unrooted form) and carry at least six
/// tokens; sizes are kilobyte fields scaled to bytes.
pub open spec fn spec_storage_line(l: Seq<char>, path: Seq<char>) -> Option<StorageInfoView> {
    let toks = spec_split_ws(l);
    if (spec_contains(l, path) || spec_ends_with(l, crate::text::skip_char_front(path, '/')))
        && toks.len() >= 6 {
        let total = kb_to_bytes(spec_u64_or0(toks[1]));
        let used = kb_to_bytes(spec_u64_or0(toks[2]));
        let free = kb_to_bytes(spec_u64_or0(toks[3]));
        Some(
            StorageInfoView {
                path: path,
                total_bytes: total,
                used_bytes: used,
                free_bytes: free,
                percentage_used: spec_percent_used(used, total),
                filesystem: toks[0],
            },
        )
    } else {
        None
    }
}

/// The first line of the usage report that answers for the path.
pub open spec fn spec_storage_info(text: Seq<char>, path: Seq<char>) -> Option<StorageInfoView>
    decreases spec_lines(text).len(),
{
    spec_storage_scan(spec_lines(text), path)
}

pub open spec fn spec_storage_scan(ls: Seq<Seq<char>>, path: Seq<char>) -> Option<StorageInfoView>
    decreases ls.len(),
{
    if ls.len() == 0 {
        None
    } else {
        match spec_storage_line(ls[0], path) {
            Some(v) => Some(v),
            None => spec_storage_scan(ls.drop_first(), path),
        }
    }
}

/// Finds the usage of the filesystem answering for a path in a usage report.
/// Nothing is found when no line mentions the path with enough fields.
#[verifier::loop_isolation(false)]
pub fn parse_storage_info(output: &str, path: &str) -> (r: Option<StorageInfo>)
    ensures
        match r {
            Some(s) => spec_storage_info(output@, path@) == Some(s@),
            None => spec_storage_info(output@, path@) is None,
        },
{
    let ls = split_lines(output);
    let ghost lv = spec_lines(output@);
    let n = ls.len();
    let mut i: usize = 0;
    let unrooted = strip_leading_slashes(path);
    proof {
        assert(lv.subrange(0, n as int) =~= lv);
    }
    while i < n
        invariant
            0 <= i <= n,
            n == lv.len(),
            unrooted@ == crate::text::skip_char_front(path@, '/'),
            spec_storage_scan(lv, path@) == spec_storage_scan(
                lv.subrange(i as int, n as int),
                path@,
            ),
        decreases n - i,
    {
        proof {
            assert(ls@[i as int]@ == lv[i as int]);
            let pre = lv.subrange(i as int, n as int);
            assert(pre[0] == lv[i as int]);
            assert(pre.drop_first() =~= lv.subrange(i as int + 1, n as int));
        }
        let line = ls[i].as_str();
        if contains_sub(line, path) || ends_with(line, unrooted) {
            let toks = split_ws(line);
            if toks.len() >= 6 {
                proof {
                    assert(forall|k: int|
                        0 <= k < toks@.len() ==> #[trigger] toks@[k]@ == spec_split_ws(line@)[k]);
                }
                let total = kb_to_bytes_exec(u64_or0(toks[1].as_str()));
                let used = kb_to_bytes_exec(u64_or0(toks[2].as_str()));
                let free = kb_to_bytes_exec(u64_or0(toks[3].as_str()));
                let s = StorageInfo {
                    path: path.to_owned(),
                    total_bytes: total,
                    used_bytes: used,
                    free_bytes: free,
                    percentage_used: percent_used_exec(used, total),
                    filesystem: toks[0].clone(),
                };
                proof {
                    let sv = spec_storage_line(lv[i as int], path@)->Some_0;
                    assert(s@ =~= sv);
                }
                return Some(s);
            }
        }
        i = i + 1;
    }
    proof {
        assert(lv.subrange(n as int, n as int) =~= Seq::<Seq<char>>::empty());
    }
    None
}

// ---------------------------------------------------------------------------
// File types
// ---------------------------------------------------------------------------
/// ASCII-lowercases a fully ASCII text; anything else is kept unchanged.
pub open spec fn spec_lower_ascii(s: Seq<char>) -> Seq<char> {
    if (forall|i: int| 0 <= i < s.len() ==> ((#[trigger] s[i]) as int) < 128) {
        spec_ascii_lower(s)
    } else {
        s
    }
}

#[verifier::loop_isolation(false)]
fn lower_ascii_string(s: &str) -> (r: String)
    ensures
        r@ == spec_lower_ascii(s@),
{
    let n = s.unicode_len();
    let mut v: Vec<u8> = Vec::new();
    let mut i: usize = 0;
    while i < n
        invariant
            0 <= i <= n,
            v@.len() == i,
            forall|k: int| 0 <= k < i ==> ((#[trigger] s@[k]) as int) < 128,
            forall|k: int| 0 <= k < i ==> #[trigger] v@[k] == (lower_char(s@[k]) as u8),
            forall|k: int| 0 <= k < i ==> #[trigger] v@[k] < 128,
        decreases n - i,
    {
        let c = s.get_char(i);
        let cv = c as u32;
        if cv >= 128 {
            proof {
                assert((s@[i as int] as int) >= 128);
            }
            return s.to_owned();
        }
        let lc = crate::text::lower_char_exec(c);
        proof {
            assert((lc as int) < 128);
        }
        v.push(lc as u8);
        i = i + 1;
    }
    let r = crate::text::string_from_ascii(v);
    proof {
        assert(r@ =~= spec_ascii_lower(s@));
    }
    r
}

/// The lowercased extension a path is classified by.
pub open spec fn spec_lower_extension(p: Seq<char>) -> Option<Seq<char>> {
    match spec_extension(p) {
        Some(e) => Some(spec_lower_ascii(e)),
        None => None,
    }
}

/// The content class and media type an extension denotes.
pub open spec fn spec_classify(e: Option<Seq<char>>) -> (Seq<char>, FileCategory) {
    match e {
        Some(x) => if x == "jpg"@ || x == "jpeg"@ || x == "png"@ || x == "gif"@ || x == "bmp"@ || x
            == "webp"@ || x == "heic"@ {
            ("image/jpeg"@, FileCategory::Image)
        } else if x == "mp4"@ || x == "mkv"@ || x == "avi"@ || x == "mov"@ || x == "webm"@ || x
            == "3gp"@ {
            ("video/mp4"@, FileCategory::Video)
        } else if x == "mp3"@ || x == "wav"@ || x == "ogg"@ || x == "flac"@ || x == "aac"@ || x
            == "m4a"@ {
            ("audio/mpeg"@, FileCategory::Audio)
        } else if x == "pdf"@ || x == "doc"@ || x == "docx"@ || x == "xls"@ || x == "xlsx"@ || x
            == "ppt"@ || x == "pptx"@ || x == "txt"@ {
            ("application/pdf"@, FileCategory::Document)
        } else if x == "zip"@ || x == "rar"@ || x == "7z"@ || x == "tar"@ || x == "gz"@ || x
            == "bz2"@ {
            ("application/zip"@, FileCategory::Archive)
        } else if x == "apk"@ {
            ("application/vnd.android.package-archive"@, FileCategory::Apk)
        } else if x == "rs"@ || x == "js"@ || x == "ts"@ || x == "py"@ || x == "java"@ || x
            == "kt"@ || x == "cpp"@ || x == "c"@ || x == "h"@ || x == "html"@ || x == "css"@ || x
            == "json"@ || x == "xml"@ || x == "yaml"@ || x == "yml"@ || x == "toml"@ {
            ("text/plain"@, FileCategory::Code)
        } else {
            ("application/octet-stream"@, FileCategory::Other)
        },
        None => ("application/octet-stream"@, FileCategory::Other),
    }
}

/// Classifies a path by its lowercased extension into a content class and a
/// representative media type.
pub fn get_file_type(path: &str) -> (r: FileType)
    ensures
        r@.extension == spec_lower_extension(path@),
        (r@.mime_type, r@.category) == spec_classify(spec_lower_extension(path@)),
{
    let q = strip_trailing_slashes(path);
    let qn = q.unicode_len();
    let mut ext: Option<String> = None;
    if qn > 0 {
        let f = match rfind_char(q, '/') {
            Some(i) => {
                proof {
                    lemma_rfind_char_props(q@, '/');
                }
                q.substring_char(i + 1, qn)
            },
            None => q,
        };
        proof {
            reveal_strlit(".");
            reveal_strlit("..");
        }
        if !(f.unicode_len() == 0 || str_eq(f, ".") || str_eq(f, "..")) {
            match rfind_char(f, '.') {
                Some(i) => {
                    proof {
                        lemma_rfind_char_props(f@, '.');
                    }
                    if i > 0 {
                        ext = Some(lower_ascii_string(f.substring_char(i + 1, f.unicode_len())));
                    }
                },
                None => {},
            }
        }
    }
    let (mime, category): (&str, FileCategory) = match &ext {
        Some(x) => {
            let x = x.as_str();
            if str_eq(x, "jpg") || str_eq(x, "jpeg") || str_eq(x, "png") || str_eq(x, "gif")
                || str_eq(x, "bmp") || str_eq(x, "webp") || str_eq(x, "heic") {
                ("image/jpeg", FileCategory::Image)
            } else if str_eq(x, "mp4") || str_eq(x, "mkv") || str_eq(x, "avi") || str_eq(x, "mov")
                || str_eq(x, "webm") || str_eq(x, "3gp") {
                ("video/mp4", FileCategory::Video)
            } else if str_eq(x, "mp3") || str_eq(x, "wav") || str_eq(x, "ogg") || str_eq(x, "flac")
                || str_eq(x, "aac") || str_eq(x, "m4a") {
                ("audio/mpeg", FileCategory::Audio)
            } else if str_eq(x, "pdf") || str_eq(x, "doc") || str_eq(x, "docx") || str_eq(x, "xls")
                || str_eq(x, "xlsx") || str_eq(x, "ppt") || str_eq(x, "pptx") || str_eq(x, "txt") {
                ("application/pdf", FileCategory::Document)
            } else if str_eq(x, "zip") || str_eq(x, "rar") || str_eq(x, "7z") || str_eq(x, "tar")
                || str_eq(x, "gz") || str_eq(x, "bz2") {
                ("application/zip", FileCategory::Archive)
            } else if str_eq(x, "apk") {
                ("application/vnd.android.package-archive", FileCategory::Apk)
            } else if str_eq(x, "rs") || str_eq(x, "js") || str_eq(x, "ts") || str_eq(x, "py")
                || str_eq(x, "java") || str_eq(x, "kt") || str_eq(x, "cpp") || str_eq(x, "c")
                || str_eq(x, "h") || str_eq(x, "html") || str_eq(x, "css") || str_eq(x, "json")
                || str_eq(x, "xml") || str_eq(x, "yaml") || str_eq(x, "yml") || str_eq(x, "toml") {
                ("text/plain", FileCategory::Code)
            } else {
                ("application/octet-stream", FileCategory::Other)
            }
        },
        None => ("application/octet-stream", FileCategory::Other),
    };
    FileType { extension: ext, mime_type: mime.to_owned(), category }
}

/// Well-known browsing entry points: a display name and a device path each.
pub fn get_common_directories() -> (r: Vec<(&'static str, &'static str)>)
    ensures
        r@.len() == 10,
        r@[0].0@ == "Internal Storage"@ && r@[0].1@ == "/sdcard"@,
        r@[1].0@ == "Download"@ && r@[1].1@ == "/sdcard/Download"@,
        r@[2].0@ == "Pictures"@ && r@[2].1@ == "/sdcard/Pictures"@,
        r@[3].0@ == "DCIM"@ && r@[3].1@ == "/sdcard/DCIM"@,
        r@[4].0@ == "Movies"@ && r@[4].1@ == "/sdcard/Movies"@,
        r@[5].0@ == "Music"@ && r@[5].1@ == "/sdcard/Music"@,
        r@[6].0@ == "Documents"@ && r@[6].1@ == "/sdcard/Documents"@,
        r@[7].0@ == "Android Data"@ && r@[7].1@ == "/data/data"@,
        r@[8].0@ == "APK Files"@ && r@[8].1@ == "/data/app"@,
        r@[9].0@ == "Root"@ && r@[9].1@ == "/"@,
{
    let mut r: Vec<(&'static str, &'static str)> = Vec::new();
    r.push(("Internal Storage", "/sdcard"));
    r.push(("Download", "/sdcard/Download"));
    r.push(("Pictures", "/sdcard/Pictures"));
    r.push(("DCIM", "/sdcard/DCIM"));
    r.push(("Movies", "/sdcard/Movies"));
    r.push(("Music", "/sdcard/Music"));
    r.push(("Documents", "/sdcard/Documents"));
    r.push(("Android Data", "/data/data"));
    r.push(("APK Files", "/data/app"));
    r.push(("Root", "/"));
    r
}

/// Strips leading slashes.
#[verifier::loop_isolation(false)]
fn strip_leading_slashes(p: &str) -> (r: &str)
    ensures
        r@ == crate::text::skip_char_front(p@, '/'),
{
    let n = p.unicode_len();
    let mut a: usize = 0;
    while a < n && p.get_char(a) == '/'
        invariant
            0 <= a <= n,
            forall|k: int| 0 <= k < a ==> #[trigger] p@[k] == '/',
        decreases n - a,
    {
        a = a + 1;
    }
    proof {
        lemma_skip_char_front_at(p@, '/', a as int);
    }
    p.substring_char(a, n)
}

/// What one overview line denotes: at least six tokens whose last is a
/// rooted mount point that carries no remote marker.
pub open spec fn spec_quick_storage_line(l: Seq<char>) -> Option<StorageInfoView> {
    let toks = spec_split_ws(l);
    if toks.len() >= 6 {
        let path = toks.last();
        if spec_starts_with(path, "/"@) && !spec_contains(path, ":/"@) {
            let total = kb_to_bytes(spec_u64_or0(toks[1]));
            let used = kb_to_bytes(spec_u64_or0(toks[2]));
            let free = kb_to_bytes(spec_u64_or0(toks[3]));
            Some(
                StorageInfoView {
                    path: path,
                    total_bytes: total,
                    used_bytes: used,
                    free_bytes: free,
                    percentage_used: spec_percent_used(used, total),
                    filesystem: toks[0],
                },
            )
        } else {
            None
        }
    } else {
        None
    }
}

/// The mounted filesystems a whole usage overview lists, header line
/// skipped.
pub open spec fn spec_quick_storage(ls: Seq<Seq<char>>) -> Seq<StorageInfoView>
    decreases ls.len(),
{
    if ls.len() == 0 {
        Seq::empty()
    } else {
        spec_quick_storage(ls.drop_last()) + (match spec_quick_storage_line(ls.last()) {
            Some(v) => seq![v],
            None => Seq::empty(),
        })
    }
}

pub open spec fn storage_views(s: Seq<StorageInfo>) -> Seq<StorageInfoView> {
    Seq::new(s.len(), |i: int| s[i]@)
}

/// Reads every mounted filesystem from a usage overview: one record per
/// rooted, local mount line after the header.
#[verifier::loop_isolation(false)]
pub fn parse_quick_storage(output: &str) -> (r: Vec<StorageInfo>)
    ensures
        storage_views(r@) == spec_quick_storage(listing_body(output@)),
{
    let ls = split_lines(output);
    let ghost body = listing_body(output@);
    let n = ls.len();
    let mut r: Vec<StorageInfo> = Vec::new();
    let mut i: usize = 1;
    proof {
        reveal_strlit("/");
        reveal_strlit(":/");
        assert(body.subrange(0, 0) =~= Seq::<Seq<char>>::empty());
        assert(storage_views(r@) =~= Seq::<StorageInfoView>::empty());
        assert(storage_views(r@) =~= spec_quick_storage(body.subrange(0, 0)));
    }
    while i < n
        invariant
            1 <= i <= n || (n == 0 && i == 1),
            n == spec_lines(output@).len(),
            n >= 1 ==> body.len() == n - 1,
            n == 0 ==> body.len() == 0,
            storage_views(r@) == spec_quick_storage(body.subrange(0, i - 1)),
        decreases n - i,
    {
        proof {
            assert(ls@[i as int]@ == spec_lines(output@)[i as int]);
            assert(body[i - 1] == spec_lines(output@)[i as int]);
            assert(body.subrange(0, i as int).drop_last() =~= body.subrange(0, i - 1));
            assert(body.subrange(0, i as int).last() == body[i - 1]);
        }
        let ghost old_views = storage_views(r@);
        let line = ls[i].as_str();
        let toks = split_ws(line);
        if toks.len() >= 6 {
            proof {
                assert(forall|k: int|
                    0 <= k < toks@.len() ==> #[trigger] toks@[k]@ == spec_split_ws(line@)[k]);
            }
            let last_tok = toks[toks.len() - 1].as_str();
            if starts_with(last_tok, "/") && !contains_sub(last_tok, ":/") {
                let total = kb_to_bytes_exec(u64_or0(toks[1].as_str()));
                let used = kb_to_bytes_exec(u64_or0(toks[2].as_str()));
                let free = kb_to_bytes_exec(u64_or0(toks[3].as_str()));
                let s = StorageInfo {
                    path: last_tok.to_owned(),
                    total_bytes: total,
                    used_bytes: used,
                    free_bytes: free,
                    percentage_used: percent_used_exec(used, total),
                    filesystem: toks[0].clone(),
                };
                proof {
                    let sv = spec_quick_storage_line(body[i - 1])->Some_0;
                    assert(s@ =~= sv);
                }
                r.push(s);
                proof {
                    assert(storage_views(r@) =~= old_views.push(
                        spec_quick_storage_line(body[i - 1])->Some_0,
                    ));
                    assert(storage_views(r@) =~= spec_quick_storage(body.subrange(0, i as int)));
                }
            } else {
                proof {
                    assert(storage_views(r@) =~= spec_quick_storage(body.subrange(0, i as int)));
                }
            }
        } else {
            proof {
                assert(storage_views(r@) =~= spec_quick_storage(body.subrange(0, i as int)));
            }
        }
        i = i + 1;
    }
    proof {
        if n >= 1 {
            assert(body.subrange(0, n - 1) =~= body);
        } else {
            assert(body.subrange(0, 0) =~= body);
        }
    }
    r
}

} // verus!
