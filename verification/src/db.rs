//! Where the database file lives.  The candidate places are tried in order of
//! preference (next to the program, the user's data folder, the working
//! folder); each is inspected and the first one that really works is taken.
//! Probing the file system is the server's part: this module holds what is
//! decided from the answers, and the texts the decisions are reported with.

use crate::error::{ApiError, ErrV};
use crate::text::{cat, cat3, copy_string, join, join_strings, owned, str_eq};
use vstd::prelude::*;

verus! {

/// Which kind of place a candidate is.  Seeding a new database from an existing
/// one is done only for the user data place, never for the working folder.
#[derive(Clone, Copy, Debug, PartialEq, Eq, Structural)]
pub enum LocationKind {
    /// Next to the program (portable mode).
    Portable,
    /// The user's data folder (where an install into a protected folder lands).
    UserData,
    /// The working folder (the last resort).
    WorkingDir,
}

/// A candidate database file.
#[derive(Debug, Clone)]
pub struct DbCandidate {
    pub path: String,
    pub kind: LocationKind,
    /// Where this place comes from, for the log.
    pub label: String,
}

impl DbCandidate {
    pub fn is_portable(&self) -> (r: bool)
        ensures
            r == (self.kind == LocationKind::Portable),
    {
        self.kind == LocationKind::Portable
    }
}

/// The place taken, with the candidates skipped on the way and why.
#[derive(Debug, Clone)]
pub struct DbLocation {
    pub path: String,
    pub portable: bool,
    pub label: String,
    pub skipped: Vec<String>,
}

pub open spec fn brief_spec(path: Seq<char>, portable: bool) -> Seq<char> {
    path + "（"@ + (if portable {
        "便携模式"@
    } else {
        "用户目录"@
    }) + "）"@
}

impl DbLocation {
    /// One line: `<path>（便携模式）` or `<path>（用户目录）`.
    pub fn brief(&self) -> (r: String)
        ensures
            r@ == brief_spec(self.path@, self.portable),
    {
        let mode = if self.portable {
            "便携模式"
        } else {
            "用户目录"
        };
        let a = cat3(self.path.as_str(), "（", mode);
        cat(a.as_str(), "）")
    }
}

/// What the inspection of one candidate found, and whether it can be used.
#[derive(Debug, Clone)]
pub struct CandidateProbe {
    pub label: String,
    pub path: String,
    pub portable: bool,
    /// The folder of the file.
    pub dir: String,
    /// Whether the database file exists already.
    pub file_exists: bool,
    /// Whether a file can be created in the folder.
    pub dir_writable: bool,
    /// Whether the existing file opens for writing (`None` when there is none).
    pub file_writable: Option<bool>,
    pub ok: bool,
    pub reason: String,
}

pub open spec fn yes_no(b: bool) -> Seq<char> {
    if b {
        "是"@
    } else {
        "否"@
    }
}

pub open spec fn tri_state(b: Option<bool>) -> Seq<char> {
    match b {
        Some(true) => "是"@,
        Some(false) => "否"@,
        None => "—"@,
    }
}

/// The one-line summary of an inspection.
pub open spec fn describe_spec(p: CandidateProbe) -> Seq<char> {
    "["@ + (if p.ok {
        "可用"@
    } else {
        "跳过"@
    }) + "] "@ + p.label@ + " | 目录可写="@ + yes_no(p.dir_writable) + " | 库已存在="@ + yes_no(p.file_exists)
        + " | 库可写="@ + tri_state(p.file_writable) + " | "@ + p.reason@ + " | "@ + p.path@
}

fn yes_no_text(b: bool) -> (r: &'static str)
    ensures
        r@ == yes_no(b),
{
    if b {
        "是"
    } else {
        "否"
    }
}

impl CandidateProbe {
    pub fn describe(&self) -> (r: String)
        ensures
            r@ == describe_spec(*self),
    {
        let verdict = if self.ok {
            "可用"
        } else {
            "跳过"
        };
        let fw = match self.file_writable {
            Some(true) => "是",
            Some(false) => "否",
            None => "—",
        };
        let a = cat3("[", verdict, "] ");
        let b = cat3(a.as_str(), self.label.as_str(), " | 目录可写=");
        let c = cat3(b.as_str(), yes_no_text(self.dir_writable), " | 库已存在=");
        let d = cat3(c.as_str(), yes_no_text(self.file_exists), " | 库可写=");
        let e = cat3(d.as_str(), fw, " | ");
        let f = cat3(e.as_str(), self.reason.as_str(), " | ");
        let g = cat(f.as_str(), self.path.as_str());
        assert(g@ =~= describe_spec(*self));
        g
    }
}

/// Whether a candidate can be used, and why: an existing file must open for
/// writing; without one, the folder must take a new file.
pub open spec fn verdict(file_exists: bool, dir_writable: bool, file_writable: bool) -> (bool, Seq<char>) {
    if file_exists {
        if file_writable {
            (true, "已存在的 crm.db 可读写"@)
        } else {
            (false, "已存在的 crm.db 不可写（只读属性或 ACL 拒绝写）"@)
        }
    } else if dir_writable {
        (true, "目录可写，可直接新建库"@)
    } else {
        (false, "目录不可写（权限不足 / 只读 / 受控文件夹访问拦截）"@)
    }
}

/// The inspection of a candidate from what the file system answered: its
/// folder, whether the file exists, whether the folder takes a new file, and
/// (read only when the file exists) whether the file opens for writing.
pub fn inspect_candidate(
    cand: &DbCandidate,
    dir: String,
    file_exists: bool,
    dir_writable: bool,
    file_writable: bool,
) -> (r: CandidateProbe)
    ensures
        r.label@ == cand.label@,
        r.path@ == cand.path@,
        r.portable == (cand.kind == LocationKind::Portable),
        r.dir@ == dir@,
        r.file_exists == file_exists,
        r.dir_writable == dir_writable,
        r.file_writable == (if file_exists {
            Some(file_writable)
        } else {
            None
        }),
        (r.ok, r.reason@) == verdict(file_exists, dir_writable, file_writable),
{
    let fw = if file_exists {
        Some(file_writable)
    } else {
        None
    };
    let (ok, reason) = if file_exists {
        if file_writable {
            (true, "已存在的 crm.db 可读写")
        } else {
            (false, "已存在的 crm.db 不可写（只读属性或 ACL 拒绝写）")
        }
    } else if dir_writable {
        (true, "目录可写，可直接新建库")
    } else {
        (false, "目录不可写（权限不足 / 只读 / 受控文件夹访问拦截）")
    };
    CandidateProbe {
        label: copy_string(&cand.label),
        path: copy_string(&cand.path),
        portable: cand.is_portable(),
        dir,
        file_exists,
        dir_writable,
        file_writable: fw,
        ok,
        reason: owned(reason),
    }
}

/// `p` is `d/f` in a form every platform splits the same way: `d` is not
/// empty, holds no `:` or `\\`, does not start with `//` and does not end with
/// `/` or `.`; `f` is a non-empty name other than `.` with no `/` or `\\`.
pub open spec fn simple_parent(p: Seq<char>, d: Seq<char>) -> bool {
    let f = p.subrange(d.len() + 1int, p.len() as int);
    &&& d.len() > 0
    &&& p.len() > d.len() + 1
    &&& p.subrange(0, d.len() as int) == d
    &&& p[d.len() as int] == '/'
    &&& !d.contains(':') && !d.contains('\\')
    &&& !(d.len() >= 2 && d[0] == '/' && d[1] == '/')
    &&& d.last() != '/' && d.last() != '.'
    &&& !f.contains('/') && !f.contains('\\')
    &&& f != seq!['.']
}

/// Every plain `d/f` split of `p` has the parent `d`.
pub open spec fn parent_of_plain(p: Seq<char>, parent: Option<Seq<char>>) -> bool {
    forall|d: Seq<char>| #[trigger] simple_parent(p, d) ==> parent == Some(d)
}

pub open spec fn opt_text(o: Option<String>) -> Option<Seq<char>> {
    match o {
        Some(s) => Some(s@),
        None => None,
    }
}

/// `std::path::Path::parent` of `p`, as text (the conversion is lossless: the
/// parent is a leading part of `p`, cut at a separator).  The contract claims
/// that a parent, when there is one, is a leading part of `p`, and that for a
/// path `d/f` of the plain form of `simple_parent` it is `d` ("the path without
/// its final component").  Where else a path splits depends on the
/// platform's path syntax and is not stated.
#[verifier::external_body]
fn path_parent(p: &str) -> (r: Option<String>)
    ensures
        r matches Some(q) ==> q@.len() <= p@.len() && q@ == p@.subrange(0, q@.len() as int),
        parent_of_plain(p@, opt_text(r)),
{
    std::path::Path::new(p).parent().map(|d| d.to_string_lossy().into_owned())
}

/// The folder of a file: its parent, or `.` when it has none.
pub open spec fn dir_or_dot(parent: Option<Seq<char>>) -> Seq<char> {
    match parent {
        Some(d) => if d.len() > 0 {
            d
        } else {
            "."@
        },
        None => "."@,
    }
}

/// The folder of a file given its parent (as `Path::parent` gives it).
pub fn folder_of(parent: Option<String>) -> (r: String)
    ensures
        r@ == dir_or_dot(
            match parent {
                Some(d) => Some(d@),
                None => None,
            },
        ),
{
    proof {
        reveal_strlit(".");
    }
    match parent {
        Some(d) => if d.as_str().is_empty() {
            owned(".")
        } else {
            d
        },
        None => owned("."),
    }
}

/// The folder of the file `p`: its parent, or `.` when it has none (or an
/// empty one).  The folder is `.` or a leading part of `p`; for a plain `d/f`
/// it is `d`.
pub fn parent_dir(p: &str) -> (r: String)
    ensures
        r@.len() > 0,
        r@ == "."@ || (r@.len() <= p@.len() && r@ == p@.subrange(0, r@.len() as int)),
        forall|d: Seq<char>| #[trigger] simple_parent(p@, d) ==> r@ == d,
{
    proof {
        reveal_strlit(".");
    }
    folder_of(path_parent(p))
}

/// The path of a companion file (`crm.db` -> `crm.db-wal`).
pub fn append_suffix(p: &str, suffix: &str) -> (r: String)
    ensures
        r@ == p@ + suffix@,
{
    cat(p, suffix)
}

/// The candidates in order of preference.  `portable` is the program's folder
/// as shown and the database path in it; `user` is the data folder
/// (`<base>\Bcrm`) as shown and the database path in it.  The working folder
/// comes last.
pub open spec fn candidates_spec(
    portable: Option<(Seq<char>, Seq<char>)>,
    user: Option<(Seq<char>, Seq<char>)>,
) -> Seq<(Seq<char>, LocationKind, Seq<char>)> {
    (match portable {
        Some((dir, path)) => seq![(path, LocationKind::Portable, "exe 同级目录（便携）: "@ + dir)],
        None => Seq::empty(),
    }) + (match user {
        Some((dir, path)) => seq![(path, LocationKind::UserData, "用户数据目录: "@ + dir)],
        None => Seq::empty(),
    }) + seq![("./crm.db"@, LocationKind::WorkingDir, "当前工作目录（最后兜底）"@)]
}

pub open spec fn cand_view(c: DbCandidate) -> (Seq<char>, LocationKind, Seq<char>) {
    (c.path@, c.kind, c.label@)
}

pub open spec fn cands_view(s: Seq<DbCandidate>) -> Seq<(Seq<char>, LocationKind, Seq<char>)> {
    s.map_values(|c: DbCandidate| cand_view(c))
}

pub open spec fn pair_view(p: Option<(String, String)>) -> Option<(Seq<char>, Seq<char>)> {
    match p {
        Some((a, b)) => Some((a@, b@)),
        None => None,
    }
}

pub fn db_candidates(portable: Option<(String, String)>, user: Option<(String, String)>) -> (r: Vec<DbCandidate>)
    ensures
        cands_view(r@) == candidates_spec(pair_view(portable), pair_view(user)),
{
    let ghost pv = pair_view(portable);
    let ghost uv = pair_view(user);
    let mut out: Vec<DbCandidate> = Vec::new();
    match portable {
        Some((dir, path)) => {
            out.push(DbCandidate { path, kind: LocationKind::Portable, label: cat("exe 同级目录（便携）: ", dir.as_str()) });
        },
        None => {},
    }
    let ghost first = cands_view(out@);
    match user {
        Some((dir, path)) => {
            out.push(DbCandidate { path, kind: LocationKind::UserData, label: cat("用户数据目录: ", dir.as_str()) });
        },
        None => {},
    }
    let ghost second = cands_view(out@);
    out.push(DbCandidate { path: owned("./crm.db"), kind: LocationKind::WorkingDir, label: owned("当前工作目录（最后兜底）") });
    assert(cands_view(out@) =~= candidates_spec(pv, uv));
    out
}

/// The candidates whose key was not seen before, in order: two candidates with
/// the same key name the same file, and the earlier (more portable) one stays.
pub open spec fn first_of_keys(s: Seq<(Seq<char>, LocationKind, Seq<char>)>, keys: Seq<Seq<char>>) -> Seq<
    (Seq<char>, LocationKind, Seq<char>),
>
    decreases s.len(),
{
    if s.len() == 0 || keys.len() == 0 {
        Seq::empty()
    } else if keys.drop_last().contains(keys.last()) {
        first_of_keys(s.drop_last(), keys.drop_last())
    } else {
        first_of_keys(s.drop_last(), keys.drop_last()).push(s.last())
    }
}

/// Drops the candidates that name a file named before; `keys` holds the key of
/// each candidate (its path made canonical, as far as the file system allows).
pub fn dedup_candidates(cands: Vec<DbCandidate>, keys: &Vec<String>) -> (r: Vec<DbCandidate>)
    requires
        cands.len() == keys.len(),
    ensures
        cands_view(r@) == first_of_keys(cands_view(cands@), keys.deep_view()),
{
    let ghost cv = cands_view(cands@);
    let ghost kv = keys.deep_view();
    let mut out: Vec<DbCandidate> = Vec::new();
    let mut seen: Vec<String> = Vec::new();
    let mut rest = cands;
    let mut i: usize = 0;
    assert(cv.subrange(0, 0) =~= Seq::<(Seq<char>, LocationKind, Seq<char>)>::empty());
    assert(kv.subrange(0, 0) =~= Seq::<Seq<char>>::empty());
    while i < keys.len()
        invariant
            i <= keys.len(),
            keys.len() == cv.len(),
            kv == keys.deep_view(),
            rest@.len() + i == keys.len(),
            forall|q: int| 0 <= q < rest@.len() ==> #[trigger] cand_view(rest@[q]) == cv[i + q],
            seen.deep_view() == kv.subrange(0, i as int),
            cands_view(out@) == first_of_keys(cv.subrange(0, i as int), kv.subrange(0, i as int)),
        decreases keys.len() - i,
    {
        let ghost cs = cv.subrange(0, i + 1);
        let ghost ks = kv.subrange(0, i + 1);
        assert(cs.drop_last() =~= cv.subrange(0, i as int));
        assert(ks.drop_last() =~= kv.subrange(0, i as int));
        assert(ks.last() == keys@[i as int]@);
        let c = rest.remove(0);
        assert(cand_view(c) == cv[i as int]);
        let dup = crate::text::contains_str(&seen, keys[i].as_str());
        if !dup {
            let ghost before = cands_view(out@);
            out.push(c);
            assert(cands_view(out@) =~= before.push(cv[i as int]));
        }
        let ghost seen_before = seen.deep_view();
        seen.push(copy_string(&keys[i]));
        assert(seen.deep_view() =~= seen_before.push(keys@[i as int]@));
        assert forall|q: int| 0 <= q < rest@.len() implies #[trigger] cand_view(rest@[q]) == cv[i + 1 + q] by {
        }
        i += 1;
    }
    assert(cv.subrange(0, keys.len() as int) =~= cv);
    assert(kv.subrange(0, keys.len() as int) =~= kv);
    out
}

/// The place predicted without opening anything: the first candidate when it is
/// usable (reported as portable), else the first candidate that is not
/// portable, else `./crm.db`.
pub open spec fn resolve_spec(cands: Seq<(Seq<char>, LocationKind, Seq<char>)>, first_usable: bool) -> (Seq<char>, bool) {
    if cands.len() > 0 && first_usable {
        (cands[0].0, true)
    } else {
        match first_not_portable(cands) {
            Some(p) => (p, false),
            None => ("./crm.db"@, false),
        }
    }
}

pub open spec fn first_not_portable(cands: Seq<(Seq<char>, LocationKind, Seq<char>)>) -> Option<Seq<char>>
    decreases cands.len(),
{
    if cands.len() == 0 {
        None
    } else if cands[0].1 != LocationKind::Portable {
        Some(cands[0].0)
    } else {
        first_not_portable(cands.drop_first())
    }
}

/// The preferred place, predicted without opening or creating anything;
/// `first_usable` is whether the first candidate's file (or, without one, its
/// folder) can be written.
pub fn resolve_db_path(cands: &Vec<DbCandidate>, first_usable: bool) -> (r: (String, bool))
    ensures
        (r.0@, r.1) == resolve_spec(cands_view(cands@), first_usable),
{
    let ghost cv = cands_view(cands@);
    if cands.len() > 0 && first_usable {
        return (copy_string(&cands[0].path), true);
    }
    let mut i: usize = 0;
    assert(cv.subrange(0, cv.len() as int) =~= cv);
    while i < cands.len()
        invariant
            i <= cands.len(),
            cv == cands_view(cands@),
            cv.len() == cands.len(),
            first_not_portable(cv) == first_not_portable(cv.subrange(i as int, cv.len() as int)),
            !(cv.len() > 0 && first_usable),
        decreases cands.len() - i,
    {
        let ghost rest = cv.subrange(i as int, cv.len() as int);
        assert(rest.drop_first() =~= cv.subrange(i + 1, cv.len() as int));
        assert(rest[0] == cand_view(cands@[i as int]));
        if !cands[i].is_portable() {
            return (copy_string(&cands[i].path), false);
        }
        i += 1;
    }
    (owned("./crm.db"), false)
}

// ---------------------------------------------------------------------------
// Trying the candidates in turn
// ---------------------------------------------------------------------------

/// What the search for a usable place has met so far.
#[derive(Debug)]
pub struct FallbackLog {
    pub skipped: Vec<String>,
    pub last_err: Option<String>,
}

pub open spec fn skip_line(label: Seq<char>, why: Seq<char>) -> Seq<char> {
    label + " —— "@ + why
}

impl FallbackLog {
    pub fn new() -> (r: FallbackLog)
        ensures
            r.skipped@.len() == 0,
            r.last_err is None,
    {
        FallbackLog { skipped: Vec::new(), last_err: None }
    }

    /// A candidate whose inspection refused it.
    pub fn refused(&mut self, cand: &DbCandidate, probe: &CandidateProbe)
        ensures
            final(self).skipped.deep_view() == old(self).skipped.deep_view().push(skip_line(cand.label@, probe.reason@)),
            final(self).last_err matches Some(e) && e@ == cand.path@ + ": "@ + probe.reason@,
    {
        let line = cat3(cand.label.as_str(), " —— ", probe.reason.as_str());
        let ghost before = self.skipped.deep_view();
        self.skipped.push(line);
        assert(self.skipped.deep_view() =~= before.push(skip_line(cand.label@, probe.reason@)));
        self.last_err = Some(cat3(cand.path.as_str(), ": ", probe.reason.as_str()));
    }

    /// The database at `src` was copied to the candidate as its first data.
    pub fn seeded(&mut self, cand: &DbCandidate, src: &str)
        ensures
            final(self).skipped.deep_view() == old(self).skipped.deep_view().push(
                skip_line(cand.label@, "已从 "@ + src@ + " 拷贝初始数据库"@),
            ),
            final(self).last_err == old(self).last_err,
    {
        let why = cat3("已从 ", src, " 拷贝初始数据库");
        let line = cat3(cand.label.as_str(), " —— ", why.as_str());
        let ghost before = self.skipped.deep_view();
        self.skipped.push(line);
        assert(self.skipped.deep_view() =~= before.push(skip_line(cand.label@, "已从 "@ + src@ + " 拷贝初始数据库"@)));
    }

    /// Copying the first data failed; the candidate is tried empty.
    pub fn seed_failed(&mut self, cand: &DbCandidate, err: &str)
        ensures
            final(self).skipped.deep_view() == old(self).skipped.deep_view().push(
                skip_line(cand.label@, "拷贝初始数据库失败（忽略，按空库继续）: "@ + err@),
            ),
            final(self).last_err == old(self).last_err,
    {
        let why = cat("拷贝初始数据库失败（忽略，按空库继续）: ", err);
        let line = cat3(cand.label.as_str(), " —— ", why.as_str());
        let ghost before = self.skipped.deep_view();
        self.skipped.push(line);
        assert(self.skipped.deep_view() =~= before.push(
            skip_line(cand.label@, "拷贝初始数据库失败（忽略，按空库继续）: "@ + err@),
        ));
    }

    /// Opening the candidate, or the write probe on it, failed with `err`.
    pub fn open_failed(&mut self, cand: &DbCandidate, err: &str)
        ensures
            final(self).skipped.deep_view() == old(self).skipped.deep_view().push(
                skip_line(cand.label@, "打开/写探针失败: "@ + err@),
            ),
            final(self).last_err matches Some(e) && e@ == err@,
    {
        let why = cat("打开/写探针失败: ", err);
        let line = cat3(cand.label.as_str(), " —— ", why.as_str());
        let ghost before = self.skipped.deep_view();
        self.skipped.push(line);
        assert(self.skipped.deep_view() =~= before.push(skip_line(cand.label@, "打开/写探针失败: "@ + err@)));
        self.last_err = Some(owned(err));
    }

    /// The place taken: the candidate, with what was skipped before it.
    pub fn location(self, cand: &DbCandidate) -> (r: DbLocation)
        ensures
            r.path@ == cand.path@,
            r.portable == (cand.kind == LocationKind::Portable),
            r.label@ == cand.label@,
            r.skipped.deep_view() == self.skipped.deep_view(),
    {
        DbLocation {
            path: copy_string(&cand.path),
            portable: cand.is_portable(),
            label: copy_string(&cand.label),
            skipped: self.skipped,
        }
    }

    /// The failure when no candidate worked: how many there were, every skipped
    /// one, and the last error.
    pub fn exhausted(&self, n: usize) -> (r: ApiError)
        ensures
            r@ == exhausted_spec(*self, n as nat),
    {
        let count = crate::text::usize_text(n);
        let lines = join_strings(&self.skipped, "\n");
        let last = match &self.last_err {
            Some(e) => copy_string(e),
            None => owned("未知"),
        };
        let a = cat3("所有候选数据库位置都不可用（共 ", count.as_str(), " 个）：\n");
        let b = cat3(a.as_str(), lines.as_str(), "\n最后错误：");
        let m = cat(b.as_str(), last.as_str());
        ApiError::internal(m.as_str())
    }
}

/// The failure when none of `n` candidates worked: how many there were, every
/// skipped one, and the last error.
pub open spec fn exhausted_spec(log: FallbackLog, n: nat) -> crate::error::ErrV {
    crate::error::err(
        50002,
        500,
        "所有候选数据库位置都不可用（共 "@ + crate::text::nat_text(n) + " 个）：\n"@ + join(log.skipped.deep_view(), "\n"@)
            + "\n最后错误："@ + match log.last_err {
            Some(e) => e@,
            None => "未知"@,
        },
    )
}

/// The search for a usable place, candidate by candidate in order: the
/// candidate it stands at (each earlier one was refused by its inspection or
/// failed to open) and what it has met so far.
#[derive(Debug)]
pub struct FallbackSearch {
    pub at: usize,
    pub log: FallbackLog,
}

/// What the search does next: try the candidate at an index, or give up.
#[derive(Debug)]
pub enum FallbackStep {
    Try(usize),
    GiveUp(ApiError),
}

impl FallbackSearch {
    /// The search over `n` candidates, standing at the first.
    pub fn start(n: usize) -> (r: (FallbackSearch, FallbackStep))
        ensures
            r.0.at == 0,
            r.0.log.skipped@.len() == 0,
            r.0.log.last_err is None,
            match r.1 {
                FallbackStep::Try(j) => j == 0 && n > 0,
                FallbackStep::GiveUp(e) => n == 0 && e@ == exhausted_spec(r.0.log, 0),
            },
    {
        let search = FallbackSearch { at: 0, log: FallbackLog::new() };
        if n > 0 {
            (search, FallbackStep::Try(0))
        } else {
            let e = search.log.exhausted(0);
            (search, FallbackStep::GiveUp(e))
        }
    }

    /// Moves past the candidate the search stands at.
    fn advance(&mut self, n: usize) -> (r: FallbackStep)
        requires
            old(self).at < n,
        ensures
            final(self).at == old(self).at + 1,
            final(self).log == old(self).log,
            match r {
                FallbackStep::Try(j) => j == final(self).at && j < n,
                FallbackStep::GiveUp(e) => final(self).at == n && e@ == exhausted_spec(final(self).log, n as nat),
            },
    {
        self.at = self.at + 1;
        if self.at < n {
            FallbackStep::Try(self.at)
        } else {
            FallbackStep::GiveUp(self.log.exhausted(n))
        }
    }

    /// The candidate the search stands at was refused by its inspection: the
    /// next candidate, or giving up after the last.
    pub fn refused(&mut self, cands: &Vec<DbCandidate>, probe: &CandidateProbe) -> (r: FallbackStep)
        requires
            old(self).at < cands.len(),
        ensures
            final(self).at == old(self).at + 1,
            final(self).log.skipped.deep_view() == old(self).log.skipped.deep_view().push(
                skip_line(cands@[old(self).at as int].label@, probe.reason@),
            ),
            final(self).log.last_err matches Some(e) && e@ == cands@[old(self).at as int].path@ + ": "@ + probe.reason@,
            match r {
                FallbackStep::Try(j) => j == final(self).at && j < cands.len(),
                FallbackStep::GiveUp(e) => final(self).at == cands.len() && e@ == exhausted_spec(final(self).log, cands.len() as nat),
            },
    {
        self.log.refused(&cands[self.at], probe);
        self.advance(cands.len())
    }

    /// Opening the candidate the search stands at failed with `err`: the next
    /// candidate, or giving up after the last.
    pub fn open_failed(&mut self, cands: &Vec<DbCandidate>, err: &str) -> (r: FallbackStep)
        requires
            old(self).at < cands.len(),
        ensures
            final(self).at == old(self).at + 1,
            final(self).log.skipped.deep_view() == old(self).log.skipped.deep_view().push(
                skip_line(cands@[old(self).at as int].label@, "打开/写探针失败: "@ + err@),
            ),
            final(self).log.last_err matches Some(e) && e@ == err@,
            match r {
                FallbackStep::Try(j) => j == final(self).at && j < cands.len(),
                FallbackStep::GiveUp(e) => final(self).at == cands.len() && e@ == exhausted_spec(final(self).log, cands.len() as nat),
            },
    {
        self.log.open_failed(&cands[self.at], err);
        self.advance(cands.len())
    }

    /// The candidate the search stands at opened: it is the place taken, with
    /// what was skipped before it.
    pub fn opened(self, cands: &Vec<DbCandidate>) -> (r: DbLocation)
        requires
            self.at < cands.len(),
        ensures
            r.path@ == cands@[self.at as int].path@,
            r.portable == (cands@[self.at as int].kind == LocationKind::Portable),
            r.label@ == cands@[self.at as int].label@,
            r.skipped.deep_view() == self.log.skipped.deep_view(),
    {
        let at = self.at;
        self.log.location(&cands[at])
    }
}

/// Whether the candidate gets a copy of an existing database as its first data:
/// only the user data place, only when it has no database yet, and only from
/// another file.
pub open spec fn seed_wanted(kind: LocationKind, file_exists: bool, source_differs: Option<bool>) -> bool {
    kind == LocationKind::UserData && !file_exists && source_differs == Some(true)
}

/// `source_differs` is `None` when no readable database was found among the
/// candidates, else whether that database is another file than the candidate.
pub fn wants_seed(cand: &DbCandidate, probe: &CandidateProbe, source_differs: Option<bool>) -> (r: bool)
    ensures
        r == seed_wanted(cand.kind, probe.file_exists, source_differs),
{
    cand.kind == LocationKind::UserData && !probe.file_exists && match source_differs {
        Some(d) => d,
        None => false,
    }
}

} // verus!
