//! The database self-check report, shared by the console server and the desktop
//! shell: who runs the program, each candidate place as inspected, and what
//! happened when the database was opened.  The facts are gathered by the caller;
//! this module writes them up and decides the exit code.

use crate::db::{brief_spec, describe_spec, CandidateProbe, DbLocation};
use crate::error::ApiError;
use crate::routes::{counts_view, rows_sum, rows_total, totals_fit};
use crate::text::{cat, cat3, copy_string, i64_text, int_text, nat_text, owned, u64_text, usize_text};
use vstd::prelude::*;

verus! {

/// What is known of the database once it opened.
#[derive(Debug)]
pub struct OpenSummary {
    pub location: DbLocation,
    /// Tables of the whitelist.
    pub table_count: usize,
    /// Rows of each table of the database (none when they could not be counted).
    pub counts: Vec<(String, i64)>,
    /// Whether the write probe passed.
    pub writable: bool,
    /// Size of the database file in bytes, when it could be read.
    pub file_size: Option<u64>,
}

/// The facts the report is written from.
#[derive(Debug)]
pub struct DiagnosticsInput {
    pub user_domain: Option<String>,
    pub user_name: Option<String>,
    /// Whether the process uses 64-bit pointers.
    pub wide_pointers: bool,
    pub exe: Option<String>,
    /// The user data base folder (`LOCALAPPDATA`, else `APPDATA`).
    pub data_base: Option<String>,
    /// Each candidate place as inspected, in order.
    pub probes: Vec<CandidateProbe>,
    /// The database as opened, or why no place worked.
    pub opened: Result<OpenSummary, ApiError>,
}

pub open spec fn line(s: Seq<char>) -> Seq<char> {
    s + "\n"@
}

pub open spec fn text_or(o: Option<String>, d: Seq<char>) -> Seq<char> {
    match o {
        Some(s) => s@,
        None => d,
    }
}

/// The numbered inspection lines, `1. ...` first.
pub open spec fn probe_lines(ps: Seq<CandidateProbe>) -> Seq<char>
    decreases ps.len(),
{
    if ps.len() == 0 {
        Seq::empty()
    } else {
        probe_lines(ps.drop_last()) + line(nat_text(ps.len()) + ". "@ + describe_spec(ps.last()))
    }
}

pub open spec fn report_head(i: DiagnosticsInput) -> Seq<char> {
    line("BCRM 数据库自检报告"@) + line("=================================================="@) + line(
        "用户      : "@ + text_or(i.user_domain, "?"@) + "\\"@ + text_or(i.user_name, "?"@),
    ) + line(
        "进程位数  : "@ + (if i.wide_pointers {
            "64 位"@
        } else {
            "32 位"@
        }),
    ) + line("可执行文件: "@ + text_or(i.exe, "(取不到)"@)) + line("数据目录基: "@ + text_or(i.data_base, "(取不到)"@))
        + line(""@) + line("候选位置体检（按优先级，逐个实测）"@) + line("--------------------------------------------------"@)
        + probe_lines(i.probes@) + line(""@) + line("实际落点（打开 + 建表检查 + 写探针）"@) + line(
        "--------------------------------------------------"@,
    )
}

pub open spec fn skipped_lines(s: Seq<Seq<char>>) -> Seq<char>
    decreases s.len(),
{
    if s.len() == 0 {
        Seq::empty()
    } else {
        skipped_lines(s.drop_last()) + "  · "@ + s.last() + "\n"@
    }
}

pub open spec fn opened_text(o: OpenSummary) -> Seq<char> {
    skipped_lines(o.location.skipped.deep_view()) + "  选用    : "@ + brief_spec(o.location.path@, o.location.portable)
        + "\n"@ + "  表白名单: "@ + nat_text(o.table_count as nat) + " 张\n"@ + "  数据行数: "@ + int_text(
        rows_total(counts_view(o.counts@)),
    ) + " 行（"@ + nat_text(o.counts@.len()) + " 张表）\n"@ + "  写探针  : "@ + (if o.writable {
        "通过"@
    } else {
        "失败"@
    }) + "\n"@ + (match o.file_size {
        Some(n) => "  库文件  : "@ + nat_text(n as nat) + " 字节\n"@,
        None => Seq::empty(),
    }) + "\n结论: 可用（数据库可读可写，应用能正常打开）"@
}

pub open spec fn failed_text(e: ApiError) -> Seq<char> {
    "  失败: "@ + (seq!['['] + nat_text(e.code as nat) + seq![']', ' '] + e.message@) + "\n\n"@
        + "结论: 不可用（请管理员检查目录 ACL，或把程序放到有写权限的目录）"@
}

/// The whole report.
pub open spec fn report_spec(i: DiagnosticsInput) -> Seq<char> {
    report_head(i) + match i.opened {
        Ok(o) => opened_text(o),
        Err(e) => failed_text(e),
    }
}

/// Whether the row counts of an opened database can be summed.
pub open spec fn counts_fit(i: DiagnosticsInput) -> bool {
    match i.opened {
        Ok(o) => totals_fit(counts_view(o.counts@)),
        Err(_) => true,
    }
}

fn text_line(x: &str) -> (r: String)
    ensures
        r@ == line(x@),
{
    cat(x, "\n")
}

fn head_text(i: &DiagnosticsInput) -> (r: String)
    ensures
        r@ == report_head(*i),
{
    let dom = match &i.user_domain {
        Some(s) => copy_string(s),
        None => owned("?"),
    };
    let user = match &i.user_name {
        Some(s) => copy_string(s),
        None => owned("?"),
    };
    let exe = match &i.exe {
        Some(s) => copy_string(s),
        None => owned("(取不到)"),
    };
    let base = match &i.data_base {
        Some(s) => copy_string(s),
        None => owned("(取不到)"),
    };
    let bits = if i.wide_pointers {
        "64 位"
    } else {
        "32 位"
    };
    let mut out = text_line("BCRM 数据库自检报告");
    out = cat(out.as_str(), text_line("==================================================").as_str());
    let u = cat3("用户      : ", dom.as_str(), "\\");
    let u2 = cat(u.as_str(), user.as_str());
    out = cat(out.as_str(), text_line(u2.as_str()).as_str());
    let b = cat("进程位数  : ", bits);
    out = cat(out.as_str(), text_line(b.as_str()).as_str());
    let x = cat("可执行文件: ", exe.as_str());
    out = cat(out.as_str(), text_line(x.as_str()).as_str());
    let d = cat("数据目录基: ", base.as_str());
    out = cat(out.as_str(), text_line(d.as_str()).as_str());
    out = cat(out.as_str(), text_line("").as_str());
    out = cat(out.as_str(), text_line("候选位置体检（按优先级，逐个实测）").as_str());
    out = cat(out.as_str(), text_line("--------------------------------------------------").as_str());
    let ghost before = out@;
    let mut k: usize = 0;
    assert(i.probes@.subrange(0, 0) =~= Seq::<CandidateProbe>::empty());
    assert(before + probe_lines(i.probes@.subrange(0, 0)) =~= before);
    while k < i.probes.len()
        invariant
            k <= i.probes.len(),
            out@ == before + probe_lines(i.probes@.subrange(0, k as int)),
        decreases i.probes.len() - k,
    {
        let ghost sub = i.probes@.subrange(0, k + 1);
        assert(sub.drop_last() =~= i.probes@.subrange(0, k as int));
        let n = usize_text(k + 1);
        let desc = i.probes[k].describe();
        let l = cat3(n.as_str(), ". ", desc.as_str());
        let l2 = text_line(l.as_str());
        let ghost prev = out@;
        out = cat(out.as_str(), l2.as_str());
        assert(out@ =~= before + probe_lines(sub));
        k += 1;
    }
    assert(i.probes@.subrange(0, i.probes.len() as int) =~= i.probes@);
    out = cat(out.as_str(), text_line("").as_str());
    out = cat(out.as_str(), text_line("实际落点（打开 + 建表检查 + 写探针）").as_str());
    out = cat(out.as_str(), text_line("--------------------------------------------------").as_str());
    out
}

fn opened_report(o: &OpenSummary) -> (r: String)
    requires
        totals_fit(counts_view(o.counts@)),
    ensures
        r@ == opened_text(*o),
{
    let mut out = String::new();
    let mut k: usize = 0;
    let ghost sk = o.location.skipped.deep_view();
    assert(sk.subrange(0, 0) =~= Seq::<Seq<char>>::empty());
    while k < o.location.skipped.len()
        invariant
            k <= o.location.skipped.len(),
            sk == o.location.skipped.deep_view(),
            out@ == skipped_lines(sk.subrange(0, k as int)),
        decreases o.location.skipped.len() - k,
    {
        let ghost sub = sk.subrange(0, k + 1);
        assert(sub.drop_last() =~= sk.subrange(0, k as int));
        assert(sub.last() == o.location.skipped@[k as int]@);
        let l = cat3("  · ", o.location.skipped[k].as_str(), "\n");
        out = cat(out.as_str(), l.as_str());
        assert(out@ =~= skipped_lines(sub));
        k += 1;
    }
    assert(sk.subrange(0, o.location.skipped.len() as int) =~= sk);
    let brief = o.location.brief();
    let a = cat3("  选用    : ", brief.as_str(), "\n");
    out = cat(out.as_str(), a.as_str());
    let n = usize_text(o.table_count);
    let b = cat3("  表白名单: ", n.as_str(), " 张\n");
    out = cat(out.as_str(), b.as_str());
    let total = rows_sum(&o.counts);
    let t = i64_text(total);
    let c = usize_text(o.counts.len());
    let d1 = cat3("  数据行数: ", t.as_str(), " 行（");
    let d2 = cat3(d1.as_str(), c.as_str(), " 张表）\n");
    out = cat(out.as_str(), d2.as_str());
    let probe = if o.writable {
        "通过"
    } else {
        "失败"
    };
    let e = cat3("  写探针  : ", probe, "\n");
    out = cat(out.as_str(), e.as_str());
    match o.file_size {
        Some(size) => {
            let s = u64_text(size);
            let f = cat3("  库文件  : ", s.as_str(), " 字节\n");
            out = cat(out.as_str(), f.as_str());
        },
        None => {},
    }
    out = cat(out.as_str(), "\n结论: 可用（数据库可读可写，应用能正常打开）");
    assert(out@ =~= opened_text(*o));
    out
}

/// The self-check report and the exit code: 0 when the database opened (it can
/// be read and written), 1 when no place worked.
pub fn diagnostics_report(i: &DiagnosticsInput) -> (r: (String, i32))
    requires
        counts_fit(*i),
    ensures
        r.0@ == report_spec(*i),
        r.1 == (if i.opened is Ok {
            0i32
        } else {
            1i32
        }),
{
    let head = head_text(i);
    match &i.opened {
        Ok(o) => {
            let body = opened_report(o);
            (cat(head.as_str(), body.as_str()), 0)
        },
        Err(e) => {
            let d = e.describe();
            let a = cat3("  失败: ", d.as_str(), "\n\n");
            let b = cat(a.as_str(), "结论: 不可用（请管理员检查目录 ACL，或把程序放到有写权限的目录）");
            assert(b@ =~= failed_text(*e));
            (cat(head.as_str(), b.as_str()), 1)
        },
    }
}

} // verus!
