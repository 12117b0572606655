//! What the desktop shell decides about the WebView2 user data folder: whether
//! its owner is a privileged account (a folder created by an elevated process,
//! which an ordinary user's WebView2 cannot take over), and the diagnosis shown
//! when the window cannot be created; the places tried for that folder; and
//! the start-up check that removes a folder an elevated process left behind.

use crate::text::{cat, cat3, chars_of, contains_text, has_text, lower, owned, to_lower};
use vstd::prelude::*;

verus! {

/// Whether an owner is an administrators or system account rather than a user.
pub open spec fn privileged(owner: Seq<char>) -> bool {
    has_text(lower(owner), "administrators"@) || has_text(lower(owner), "system"@)
}

pub fn owner_is_privileged(owner: &str) -> (r: bool)
    ensures
        r == privileged(owner@),
{
    let o = to_lower(owner);
    let oc = chars_of(o.as_str());
    let a = chars_of("administrators");
    let s = chars_of("system");
    contains_text(&oc, &a) || contains_text(&oc, &s)
}

pub open spec fn yes_no(b: bool) -> Seq<char> {
    if b {
        "是"@
    } else {
        "否"@
    }
}

/// The owner as shown: the owner read, `(取不到)` when it could not be read,
/// `(目录不存在)` for a missing folder.
pub open spec fn owner_shown(present: bool, owner: Option<Seq<char>>) -> Seq<char> {
    if present {
        match owner {
            Some(o) => o,
            None => "(取不到)"@,
        }
    } else {
        "(目录不存在)"@
    }
}

pub open spec fn takeover_warning() -> Seq<char> {
    "\n⚠️ 所有者不是当前用户，而是 Administrators/System —— 这是「双击没反应」的\n已知原因：该目录被提权进程创建过，普通用户身份下 WebView2 无法接管它。\n删除该目录（只是浏览器缓存，不影响 crm.db 数据）后，以普通用户双击即可重建。\n"@
}

/// The diagnosis of the WebView2 user data folder: its path, whether it exists,
/// its owner, whether the user can write it (a missing folder counts as
/// writable), and the known cause when a privileged account owns it.
pub open spec fn hint_spec(dir: Seq<char>, present: bool, owner: Option<Seq<char>>, writable: bool) -> Seq<char> {
    let shown = owner_shown(present, owner);
    "WebView2 用户数据目录诊断：\n"@ + "  路径        : "@ + dir + "\n"@ + "  是否存在    : "@ + yes_no(present) + "\n"@
        + "  所有者      : "@ + shown + "\n"@ + "  当前用户可写: "@ + yes_no(!present || writable) + "\n"@ + (if present
        && privileged(shown) {
        takeover_warning()
    } else {
        Seq::empty()
    })
}

/// `owner` is what reading the folder's owner gave and `writable` whether a
/// file could be created in it; both are read only when the folder present.
pub fn webview_dir_hint(dir: &str, present: bool, owner: Option<String>, writable: bool) -> (r: String)
    ensures
        r@ == hint_spec(
            dir@,
            present,
            match owner {
                Some(o) => Some(o@),
                None => None,
            },
            writable,
        ),
{
    let shown = if present {
        match owner {
            Some(o) => o,
            None => owned("(取不到)"),
        }
    } else {
        owned("(目录不存在)")
    };
    let w = if !present || writable {
        "是"
    } else {
        "否"
    };
    let e = if present {
        "是"
    } else {
        "否"
    };
    let suspicious = present && owner_is_privileged(shown.as_str());
    let a = cat3("WebView2 用户数据目录诊断：\n", "  路径        : ", dir);
    let b = cat3(a.as_str(), "\n", "  是否存在    : ");
    let c = cat3(b.as_str(), e, "\n");
    let d = cat3(c.as_str(), "  所有者      : ", shown.as_str());
    let f = cat3(d.as_str(), "\n", "  当前用户可写: ");
    let g = cat3(f.as_str(), w, "\n");
    let out = if suspicious {
        cat(
            g.as_str(),
            "\n⚠️ 所有者不是当前用户，而是 Administrators/System —— 这是「双击没反应」的\n已知原因：该目录被提权进程创建过，普通用户身份下 WebView2 无法接管它。\n删除该目录（只是浏览器缓存，不影响 crm.db 数据）后，以普通用户双击即可重建。\n",
        )
    } else {
        g
    };
    assert(out@ =~= hint_spec(
        dir@,
        present,
        match owner {
            Some(o) => Some(o@),
            None => None,
        },
        writable,
    ));
    out
}

/// A place for the WebView2 user data folder, in the order tried.
#[derive(Debug, Clone)]
pub struct WebviewCandidate {
    pub path: String,
    pub portable: bool,
    /// Where this place comes from, for the log.
    pub label: String,
}

pub open spec fn wv_candidate(path: Seq<char>, portable: bool, prefix: Seq<char>) -> (Seq<char>, bool, Seq<char>) {
    (path, portable, prefix + path)
}

/// The places for the WebView2 user data folder: the hidden folder beside the
/// program (portable), the `Bcrm\WebView2` folder of the user's data, and the
/// folder the shell would take by default.
pub open spec fn webview_candidates_spec(portable: Option<Seq<char>>, user: Option<Seq<char>>, fallback: Seq<char>) -> Seq<
    (Seq<char>, bool, Seq<char>),
> {
    let a = match portable {
        Some(p) => seq![wv_candidate(p, true, "exe 同级（便携）: "@)],
        None => Seq::empty(),
    };
    let b = match user {
        Some(u) => seq![wv_candidate(u, false, "用户数据目录: "@)],
        None => Seq::empty(),
    };
    a + b + seq![wv_candidate(fallback, false, "Tauri 默认位: "@)]
}

pub open spec fn wv_view(c: WebviewCandidate) -> (Seq<char>, bool, Seq<char>) {
    (c.path@, c.portable, c.label@)
}

pub open spec fn opt_view(o: Option<String>) -> Option<Seq<char>> {
    match o {
        Some(s) => Some(s@),
        None => None,
    }
}

/// `portable` is the hidden folder beside the program when the program's
/// folder is known, `user` the folder under the user's data when that is
/// known, `fallback` the default folder of the shell.
pub fn webview_candidates(portable: Option<String>, user: Option<String>, fallback: String) -> (r: Vec<WebviewCandidate>)
    ensures
        r@.len() == webview_candidates_spec(opt_view(portable), opt_view(user), fallback@).len(),
        forall|i: int|
            0 <= i < r@.len() ==> wv_view(#[trigger] r@[i]) == webview_candidates_spec(
                opt_view(portable),
                opt_view(user),
                fallback@,
            )[i],
{
    let ghost want = webview_candidates_spec(opt_view(portable), opt_view(user), fallback@);
    let mut out: Vec<WebviewCandidate> = Vec::new();
    match portable {
        Some(p) => {
            let label = cat("exe 同级（便携）: ", p.as_str());
            out.push(WebviewCandidate { path: p, portable: true, label });
        },
        None => {},
    }
    match user {
        Some(u) => {
            let label = cat("用户数据目录: ", u.as_str());
            out.push(WebviewCandidate { path: u, portable: false, label });
        },
        None => {},
    }
    let label = cat("Tauri 默认位: ", fallback.as_str());
    out.push(WebviewCandidate { path: fallback, portable: false, label });
    assert forall|i: int| 0 <= i < out@.len() implies wv_view(#[trigger] out@[i]) == want[i] by {}
    out
}

/// What the start-up check of the WebView2 user data folder does next.
#[derive(Debug, Clone, PartialEq, Eq)]
pub enum HealStep {
    /// Nothing to repair: the line for the log.
    Done(String),
    /// A privileged account owns the folder (the owner is given): whether that
    /// is a problem depends on who this process runs as.
    CheckIdentity(String),
    /// The folder belongs to a privileged account (first) and this process
    /// runs as an ordinary user (second): remove the folder so that it is made
    /// again.
    Remove(String, String),
}

pub enum HealStepV {
    Done(Seq<char>),
    CheckIdentity(Seq<char>),
    Remove(Seq<char>, Seq<char>),
}

impl View for HealStep {
    type V = HealStepV;

    open spec fn view(&self) -> HealStepV {
        match self {
            HealStep::Done(s) => HealStepV::Done(s@),
            HealStep::CheckIdentity(o) => HealStepV::CheckIdentity(o@),
            HealStep::Remove(o, m) => HealStepV::Remove(o@, m@),
        }
    }
}

pub open spec fn heal_head(dir: Seq<char>) -> Seq<char> {
    "WebView2 用户数据目录: "@ + dir
}

/// The first step of the check: a missing folder is made at the first start;
/// a folder whose owner cannot be read is left alone; a folder owned by an
/// ordinary user is fine; one owned by a privileged account needs the
/// process's own identity.
pub open spec fn heal_start_spec(dir: Seq<char>, present: bool, owner: Option<Seq<char>>) -> HealStepV {
    if !present {
        HealStepV::Done(heal_head(dir) + "（不存在，首次启动会创建）"@)
    } else {
        match owner {
            None => HealStepV::Done(heal_head(dir) + "（所有者读不到，跳过体检）"@),
            Some(o) => if !privileged(o) {
                HealStepV::Done(heal_head(dir) + "（所有者 "@ + o + "，正常）"@)
            } else {
                HealStepV::CheckIdentity(o)
            },
        }
    }
}

/// `owner` is read only when the folder is present.
pub fn heal_start(dir: &str, present: bool, owner: Option<String>) -> (r: HealStep)
    ensures
        r@ == heal_start_spec(dir@, present, opt_view(owner)),
{
    if !present {
        return HealStep::Done(cat3("WebView2 用户数据目录: ", dir, "（不存在，首次启动会创建）"));
    }
    match owner {
        None => HealStep::Done(cat3("WebView2 用户数据目录: ", dir, "（所有者读不到，跳过体检）")),
        Some(o) => {
            if !owner_is_privileged(o.as_str()) {
                let a = cat3("WebView2 用户数据目录: ", dir, "（所有者 ");
                HealStep::Done(cat3(a.as_str(), o.as_str(), "，正常）"))
            } else {
                HealStep::CheckIdentity(o)
            }
        },
    }
}

/// The second step: when this process runs as a privileged account too, the
/// folder is its own and usable; otherwise it is removed. An identity that
/// could not be read counts as the empty one.
pub open spec fn heal_identity_spec(dir: Seq<char>, owner: Seq<char>, me: Option<Seq<char>>) -> HealStepV {
    let m = match me {
        Some(m) => m,
        None => Seq::empty(),
    };
    if privileged(m) {
        HealStepV::Done(heal_head(dir) + "（所有者 "@ + owner + "，当前进程同为管理员身份，可用）"@)
    } else {
        HealStepV::Remove(owner, m)
    }
}

/// `me` is the owner of a file this process has just created.
pub fn heal_identity(dir: &str, owner: &str, me: Option<String>) -> (r: HealStep)
    ensures
        r@ == heal_identity_spec(dir@, owner@, opt_view(me)),
{
    let m = match me {
        Some(m) => m,
        None => String::new(),
    };
    if owner_is_privileged(m.as_str()) {
        let a = cat3("WebView2 用户数据目录: ", dir, "（所有者 ");
        HealStep::Done(cat3(a.as_str(), owner, "，当前进程同为管理员身份，可用）"))
    } else {
        HealStep::Remove(owned(owner), m)
    }
}

/// The warning logged before the folder is removed.
pub fn heal_warning(owner: &str, me: &str) -> (r: String)
    ensures
        r@ == "[WARN] WebView2 用户数据目录属于 "@ + owner@ + "，但当前进程是普通用户（"@ + me@
            + "）—— 这正是「双击没反应、窗口不出现」的已知根因。尝试删除后重建。"@,
{
    let a = cat3("[WARN] WebView2 用户数据目录属于 ", owner, "，但当前进程是普通用户（");
    cat3(a.as_str(), me, "）—— 这正是「双击没反应、窗口不出现」的已知根因。尝试删除后重建。")
}

/// The line for the log once the removal was tried: repaired, or the error
/// and what the user has to do.
pub open spec fn heal_outcome_spec(dir: Seq<char>, owner: Seq<char>, err: Option<Seq<char>>) -> Seq<char> {
    match err {
        None => heal_head(dir) + " —— 已自动修复（原属 "@ + owner + "，已删除，稍后重建）"@,
        Some(e) => heal_head(dir) + " —— ⚠️ 属 "@ + owner + " 且删除失败（"@ + e
            + "）。请关闭所有 BCRM 窗口后手动删除该目录再启动。"@,
    }
}

/// `err` is the error of the removal, if it failed.
pub fn heal_outcome(dir: &str, owner: &str, err: Option<String>) -> (r: String)
    ensures
        r@ == heal_outcome_spec(dir@, owner@, opt_view(err)),
{
    match err {
        None => {
            let a = cat3("WebView2 用户数据目录: ", dir, " —— 已自动修复（原属 ");
            cat3(a.as_str(), owner, "，已删除，稍后重建）")
        },
        Some(e) => {
            let a = cat3("WebView2 用户数据目录: ", dir, " —— ⚠️ 属 ");
            let b = cat3(a.as_str(), owner, " 且删除失败（");
            cat3(b.as_str(), e.as_str(), "）。请关闭所有 BCRM 窗口后手动删除该目录再启动。")
        },
    }
}

/// The text shown when the program cannot start: the error and the files
/// beside the program that tell more.
pub fn fatal_detail(msg: &str) -> (r: String)
    ensures
        r@ == "BCRM 启动失败：\n\n"@ + msg@
            + "\n\n排查线索：程序所在目录下的\n· bcrm-launcher.log（启动过程）\n· bcrm-launcher-error.log（本次错误）\n· bcrm-db-check.txt（运行 bcrm-desktop.exe --db-check 生成）"@,
{
    cat3(
        "BCRM 启动失败：\n\n",
        msg,
        "\n\n排查线索：程序所在目录下的\n· bcrm-launcher.log（启动过程）\n· bcrm-launcher-error.log（本次错误）\n· bcrm-db-check.txt（运行 bcrm-desktop.exe --db-check 生成）",
    )
}

/// The question asked when the window cannot be created: the error, the
/// diagnosis of the user data folder, and what each answer does.
pub fn repair_prompt(err: &str, hint: &str) -> (r: String)
    ensures
        r@ == "BCRM 界面无法创建。\n\n错误："@ + err@ + "\n\n"@ + hint@
            + "\n▶ 点「是」：删除上面的目录并重新启动程序。\n该目录只是 WebView2 的浏览器缓存，删除不影响 crm.db 里的业务数据。\n▶ 点「否」：保持现状，只看日志（bcrm-launcher.log）。\n\n说明：以后请【直接双击】启动，不要右键「以管理员身份运行」——\n用管理员身份跑过之后，这个目录又会变成管理员所有，问题重现。"@,
{
    let a = cat3("BCRM 界面无法创建。\n\n错误：", err, "\n\n");
    cat3(
        a.as_str(),
        hint,
        "\n▶ 点「是」：删除上面的目录并重新启动程序。\n该目录只是 WebView2 的浏览器缓存，删除不影响 crm.db 里的业务数据。\n▶ 点「否」：保持现状，只看日志（bcrm-launcher.log）。\n\n说明：以后请【直接双击】启动，不要右键「以管理员身份运行」——\n用管理员身份跑过之后，这个目录又会变成管理员所有，问题重现。",
    )
}

/// What the user is told when the folder could not be removed.
pub fn repair_failed(err: &str, dir: &str) -> (r: String)
    ensures
        r@ == "删除失败："@ + err@ + "\n\n请手动删除下面这个目录（先关掉所有 BCRM 窗口），再重新双击程序：\n\n"@ + dir@,
{
    let a = cat3("删除失败：", err, "\n\n请手动删除下面这个目录（先关掉所有 BCRM 窗口），再重新双击程序：\n\n");
    cat(a.as_str(), dir)
}

/// The check removes a folder only when it is present, its owner was read and
/// is a privileged account, and this process runs as an ordinary user: a
/// folder made by an elevated process and used by an unelevated one.
pub proof fn law_heal_removes_only_foreign_folders(
    dir: Seq<char>,
    present: bool,
    owner: Option<Seq<char>>,
    me: Option<Seq<char>>,
)
    ensures
        heal_start_spec(dir, present, owner) matches HealStepV::CheckIdentity(o) ==> {
            &&& present
            &&& owner == Some(o)
            &&& privileged(o)
            &&& (heal_identity_spec(dir, o, me) matches HealStepV::Remove(o2, m) ==> o2 == o && !privileged(m)
                && me.unwrap_or(Seq::empty()) == m)
        },
{
}

} // verus!
