//! The error that every operation of the API answers with: a numeric code from
//! the error handbook, the HTTP status it maps to, a message, optional
//! field-level errors and an optional list of allowed names.

use crate::json::{clone_json, Json, JsonV};
use crate::text::{cat, cat3, copy_string, copy_strings, owned};
use vstd::prelude::*;

verus! {

/// One field-level validation failure, for the front end to highlight.
#[derive(Debug)]
pub struct FieldError {
    pub field: String,
    pub reason: String,
    pub expected: Option<Vec<String>>,
    pub actual: Option<Json>,
}

pub struct FieldErrV {
    pub field: Seq<char>,
    pub reason: Seq<char>,
    pub expected: Option<Seq<Seq<char>>>,
    pub actual: Option<JsonV>,
}

impl View for FieldError {
    type V = FieldErrV;

    open spec fn view(&self) -> FieldErrV {
        FieldErrV {
            field: self.field@,
            reason: self.reason@,
            expected: match self.expected {
                Some(v) => Some(v.deep_view()),
                None => None,
            },
            actual: match self.actual {
                Some(j) => Some(j@),
                None => None,
            },
        }
    }
}

pub open spec fn field_errs_view(s: Seq<FieldError>) -> Seq<FieldErrV> {
    s.map_values(|f: FieldError| f@)
}

#[derive(Debug)]
pub struct ApiError {
    pub code: u32,
    /// HTTP status code
    pub status: u16,
    pub message: String,
    pub errors: Vec<FieldError>,
    pub allowed_columns: Option<Vec<String>>,
}

pub struct ErrV {
    pub code: u32,
    pub status: u16,
    pub message: Seq<char>,
    pub errors: Seq<FieldErrV>,
    pub allowed: Option<Seq<Seq<char>>>,
}

impl View for ApiError {
    type V = ErrV;

    open spec fn view(&self) -> ErrV {
        ErrV {
            code: self.code,
            status: self.status,
            message: self.message@,
            errors: field_errs_view(self.errors@),
            allowed: match self.allowed_columns {
                Some(v) => Some(v.deep_view()),
                None => None,
            },
        }
    }
}

// ---------------------------------------------------------------------------
// The error handbook, as values
// ---------------------------------------------------------------------------

pub open spec fn fe(field: Seq<char>, reason: Seq<char>) -> FieldErrV {
    FieldErrV { field, reason, expected: None, actual: None }
}

pub open spec fn err(code: u32, status: u16, message: Seq<char>) -> ErrV {
    ErrV { code, status, message, errors: Seq::empty(), allowed: None }
}

pub open spec fn e_validation_many(errors: Seq<FieldErrV>) -> ErrV {
    ErrV { errors, ..err(40001, 400, "字段校验失败"@) }
}

pub open spec fn e_validation(field: Seq<char>, reason: Seq<char>) -> ErrV {
    e_validation_many(seq![fe(field, reason)])
}

pub open spec fn e_param(msg: Seq<char>) -> ErrV {
    err(40002, 400, msg)
}

pub open spec fn e_bad_json(field: Seq<char>) -> ErrV {
    ErrV { errors: seq![fe(field, "不是合法的 JSON"@)], ..err(40003, 400, "JSON 列内容非法"@) }
}

pub open spec fn e_unknown_table(name: Seq<char>, allowed: Seq<Seq<char>>) -> ErrV {
    ErrV { allowed: Some(allowed), ..err(40004, 400, "未知表名: "@ + name) }
}

pub open spec fn e_unknown_column(table: Seq<char>, column: Seq<char>, allowed: Seq<Seq<char>>) -> ErrV {
    ErrV { allowed: Some(allowed), ..err(40004, 400, "表 "@ + table + " 上不存在列 "@ + column) }
}

pub open spec fn e_unknown_operator(op: Seq<char>) -> ErrV {
    err(40004, 400, "未知查询操作符: "@ + op + "（可用操作符见接口文档 6.3）"@)
}

pub open spec fn e_over_limit(msg: Seq<char>) -> ErrV {
    err(40006, 400, msg)
}

pub open spec fn e_not_found(msg: Seq<char>) -> ErrV {
    err(40401, 404, msg)
}

impl FieldError {
    pub fn new(field: &str, reason: &str) -> (r: FieldError)
        ensures
            r@ == fe(field@, reason@),
    {
        FieldError { field: owned(field), reason: owned(reason), expected: None, actual: None }
    }

    pub fn with_expected(self, expected: Vec<String>) -> (r: FieldError)
        ensures
            r@ == (FieldErrV { expected: Some(expected.deep_view()), ..self@ }),
    {
        FieldError { expected: Some(expected), ..self }
    }

    pub fn with_actual(self, actual: Json) -> (r: FieldError)
        ensures
            r@ == (FieldErrV { actual: Some(actual@), ..self@ }),
    {
        FieldError { actual: Some(actual), ..self }
    }

    /// A copy of this field error.
    pub fn duplicate(&self) -> (r: FieldError)
        ensures
            r@ == self@,
    {
        FieldError {
            field: copy_string(&self.field),
            reason: copy_string(&self.reason),
            expected: match &self.expected {
                Some(v) => Some(copy_strings(v)),
                None => None,
            },
            actual: match &self.actual {
                Some(j) => Some(clone_json(j)),
                None => None,
            },
        }
    }
}

impl ApiError {
    pub fn new(code: u32, status: u16, message: &str) -> (r: ApiError)
        ensures
            r@ == err(code, status, message@),
    {
        let r = ApiError {
            code,
            status,
            message: owned(message),
            errors: Vec::new(),
            allowed_columns: None,
        };
        assert(r@.errors =~= Seq::<FieldErrV>::empty());
        r
    }

    pub fn with_errors(self, errors: Vec<FieldError>) -> (r: ApiError)
        ensures
            r@ == (ErrV { errors: field_errs_view(errors@), ..self@ }),
    {
        ApiError { errors, ..self }
    }

    pub fn with_allowed(self, cols: Vec<String>) -> (r: ApiError)
        ensures
            r@ == (ErrV { allowed: Some(cols.deep_view()), ..self@ }),
    {
        ApiError { allowed_columns: Some(cols), ..self }
    }

    /// 40001: one field failed validation.
    pub fn validation(field: &str, reason: &str) -> (r: ApiError)
        ensures
            r@ == e_validation(field@, reason@),
    {
        let mut v: Vec<FieldError> = Vec::new();
        v.push(FieldError::new(field, reason));
        let r = ApiError::new(40001, 400, "字段校验失败").with_errors(v);
        assert(r@.errors =~= seq![fe(field@, reason@)]);
        r
    }

    /// 40001: several fields failed validation.
    pub fn validation_many(errors: Vec<FieldError>) -> (r: ApiError)
        ensures
            r@ == e_validation_many(field_errs_view(errors@)),
    {
        ApiError::new(40001, 400, "字段校验失败").with_errors(errors)
    }

    /// 40002: malformed parameter.
    pub fn param(msg: &str) -> (r: ApiError)
        ensures
            r@ == e_param(msg@),
    {
        ApiError::new(40002, 400, msg)
    }

    /// 40003: a JSON column received text that is not JSON.
    pub fn bad_json(field: &str) -> (r: ApiError)
        ensures
            r@ == e_bad_json(field@),
    {
        let mut v: Vec<FieldError> = Vec::new();
        v.push(FieldError::new(field, "不是合法的 JSON"));
        let r = ApiError::new(40003, 400, "JSON 列内容非法").with_errors(v);
        assert(r@.errors =~= seq![fe(field@, "不是合法的 JSON"@)]);
        r
    }

    /// 40004: unknown table, with the names that exist.
    pub fn unknown_table(name: &str, allowed: Vec<String>) -> (r: ApiError)
        ensures
            r@ == e_unknown_table(name@, allowed.deep_view()),
    {
        let m = cat("未知表名: ", name);
        ApiError::new(40004, 400, m.as_str()).with_allowed(allowed)
    }

    /// 40004: unknown column of a table, with the columns that exist.
    pub fn unknown_column(table: &str, column: &str, allowed: Vec<String>) -> (r: ApiError)
        ensures
            r@ == e_unknown_column(table@, column@, allowed.deep_view()),
    {
        let m = cat3("表 ", table, " 上不存在列 ");
        let m = cat(m.as_str(), column);
        ApiError::new(40004, 400, m.as_str()).with_allowed(allowed)
    }

    /// 40004: unknown query operator.
    pub fn unknown_operator(op: &str) -> (r: ApiError)
        ensures
            r@ == e_unknown_operator(op@),
    {
        let m = cat3("未知查询操作符: ", op, "（可用操作符见接口文档 6.3）");
        ApiError::new(40004, 400, m.as_str())
    }

    /// 40004: malformed path.
    pub fn bad_path(msg: &str) -> (r: ApiError)
        ensures
            r@ == err(40004, 400, msg@),
    {
        ApiError::new(40004, 400, msg)
    }

    /// 40005: dangerous operation refused.
    pub fn dangerous(msg: &str) -> (r: ApiError)
        ensures
            r@ == err(40005, 400, msg@),
    {
        ApiError::new(40005, 400, msg)
    }

    /// 40006: a limit was exceeded.
    pub fn over_limit(msg: &str) -> (r: ApiError)
        ensures
            r@ == e_over_limit(msg@),
    {
        ApiError::new(40006, 400, msg)
    }

    /// 40008: foreign key target missing.
    pub fn foreign_key(msg: &str) -> (r: ApiError)
        ensures
            r@ == err(40008, 400, msg@),
    {
        ApiError::new(40008, 400, msg)
    }

    /// 40401: record not found.
    pub fn not_found(msg: &str) -> (r: ApiError)
        ensures
            r@ == e_not_found(msg@),
    {
        ApiError::new(40401, 404, msg)
    }

    /// 40901: unique key conflict.
    pub fn conflict(msg: &str) -> (r: ApiError)
        ensures
            r@ == err(40901, 409, msg@),
    {
        ApiError::new(40901, 409, msg)
    }

    /// 50001: database error.
    pub fn db(msg: &str) -> (r: ApiError)
        ensures
            r@ == err(50001, 500, msg@),
    {
        ApiError::new(50001, 500, msg)
    }

    /// 50002: internal error.
    pub fn internal(msg: &str) -> (r: ApiError)
        ensures
            r@ == err(50002, 500, msg@),
    {
        ApiError::new(50002, 500, msg)
    }

    /// `"[{code}] {message}"`, what `Display` shows for the error.
    pub fn describe(&self) -> (r: String)
        ensures
            r@ == seq!['['] + crate::text::nat_text(self.code as nat) + seq![']', ' '] + self.message@,
    {
        let c = crate::text::u64_text(self.code as u64);
        proof {
            reveal_strlit("[");
            reveal_strlit("] ");
        }
        let a = cat3("[", c.as_str(), "] ");
        cat(a.as_str(), self.message.as_str())
    }
}

// ---------------------------------------------------------------------------
// SQLite failures
// ---------------------------------------------------------------------------

/// Extended result codes of SQLite's constraint failures (sqlite3.h).
pub const SQLITE_CONSTRAINT_CHECK: i32 = 275;
pub const SQLITE_CONSTRAINT_FOREIGNKEY: i32 = 787;
pub const SQLITE_CONSTRAINT_NOTNULL: i32 = 1299;
pub const SQLITE_CONSTRAINT_PRIMARYKEY: i32 = 1555;
pub const SQLITE_CONSTRAINT_UNIQUE: i32 = 2067;

/// What the error mapping reads of a database error: for an SQLite failure its
/// extended code, whether its primary code is "busy" and its message; and the
/// error's display text.
#[derive(Debug, Clone)]
pub struct DbFailure {
    pub sqlite: Option<SqliteFailure>,
    pub display: String,
}

#[derive(Debug, Clone)]
pub struct SqliteFailure {
    pub extended_code: i32,
    pub busy: bool,
    pub detail: Option<String>,
}

pub open spec fn or_default(d: Option<String>) -> Seq<char> {
    match d {
        Some(s) => s@,
        None => Seq::empty(),
    }
}

pub open spec fn or_text(detail: Seq<char>, fallback: Seq<char>) -> Seq<char> {
    if detail.len() == 0 {
        fallback
    } else {
        detail
    }
}

/// The API error that a database error is answered with.
pub open spec fn db_failure_error(f: DbFailure) -> ErrV {
    let generic = err(50001, 500, "数据库错误: "@ + f.display@);
    match f.sqlite {
        Some(s) => {
            let d = or_default(s.detail);
            if s.extended_code == SQLITE_CONSTRAINT_UNIQUE || s.extended_code
                == SQLITE_CONSTRAINT_PRIMARYKEY {
                err(
                    40901,
                    409,
                    if d.len() == 0 {
                        "唯一键冲突：记录已存在"@
                    } else {
                        "唯一键冲突："@ + d
                    },
                )
            } else if s.extended_code == SQLITE_CONSTRAINT_NOTNULL {
                err(40001, 400, or_text(d, "必填字段缺失"@))
            } else if s.extended_code == SQLITE_CONSTRAINT_CHECK {
                err(42201, 422, or_text(d, "CHECK 约束失败"@))
            } else if s.extended_code == SQLITE_CONSTRAINT_FOREIGNKEY {
                err(40008, 400, or_text(d, "外键目标不存在"@))
            } else if s.busy {
                err(50301, 503, "数据库忙，请重试"@)
            } else {
                generic
            }
        },
        None => generic,
    }
}

fn text_or(detail: &String, fallback: &str) -> (r: String)
    ensures
        r@ == or_text(detail@, fallback@),
{
    if detail.as_str().is_empty() {
        proof {
            assert(detail@.len() == 0);
        }
        owned(fallback)
    } else {
        copy_string(detail)
    }
}

impl ApiError {
    /// Maps a database error to the API error it is answered with (unique and
    /// primary key conflicts, missing required fields, CHECK and foreign key
    /// failures, a busy database, anything else).
    pub fn from_db_failure(f: &DbFailure) -> (r: ApiError)
        ensures
            r@ == db_failure_error(*f),
    {
        if let Some(s) = &f.sqlite {
            let detail = match &s.detail {
                Some(d) => copy_string(d),
                None => String::new(),
            };
            let c = s.extended_code;
            if c == SQLITE_CONSTRAINT_UNIQUE || c == SQLITE_CONSTRAINT_PRIMARYKEY {
                let m = if detail.as_str().is_empty() {
                    owned("唯一键冲突：记录已存在")
                } else {
                    cat("唯一键冲突：", detail.as_str())
                };
                return ApiError::conflict(m.as_str());
            }
            if c == SQLITE_CONSTRAINT_NOTNULL {
                let m = text_or(&detail, "必填字段缺失");
                return ApiError::new(40001, 400, m.as_str());
            }
            if c == SQLITE_CONSTRAINT_CHECK {
                let m = text_or(&detail, "CHECK 约束失败");
                return ApiError::new(42201, 422, m.as_str());
            }
            if c == SQLITE_CONSTRAINT_FOREIGNKEY {
                let m = text_or(&detail, "外键目标不存在");
                return ApiError::foreign_key(m.as_str());
            }
            if s.busy {
                return ApiError::new(50301, 503, "数据库忙，请重试");
            }
        }
        let m = cat("数据库错误: ", f.display.as_str());
        ApiError::db(m.as_str())
    }
}


// ---------------------------------------------------------------------------
// Results of steps taken in order
// ---------------------------------------------------------------------------

/// The results of steps taken left to right: all the values, or the first refusal.
pub open spec fn collect<A>(s: Seq<Result<A, ErrV>>) -> Result<Seq<A>, ErrV>
    decreases s.len(),
{
    if s.len() == 0 {
        Ok(Seq::empty())
    } else {
        match collect(s.drop_last()) {
            Err(e) => Err(e),
            Ok(xs) => match s.last() {
                Ok(x) => Ok(xs.push(x)),
                Err(e) => Err(e),
            },
        }
    }
}

/// A refusal among the first steps is the refusal of all of them.
pub proof fn lemma_collect_prefix_err<A>(s: Seq<Result<A, ErrV>>, k: int)
    requires
        0 <= k <= s.len(),
        collect(s.subrange(0, k)) is Err,
    ensures
        collect(s) == collect(s.subrange(0, k)),
    decreases s.len() - k,
{
    if k < s.len() {
        assert(s.subrange(0, k + 1).drop_last() =~= s.subrange(0, k));
        lemma_collect_prefix_err(s, k + 1);
    } else {
        assert(s.subrange(0, k) =~= s);
    }
}

/// One more step: the collected prefix grows by the step's value, or takes its refusal.
pub proof fn lemma_collect_step<A>(s: Seq<Result<A, ErrV>>, i: int)
    requires
        0 <= i < s.len(),
    ensures
        collect(s.subrange(0, i + 1)) == (match collect(s.subrange(0, i)) {
            Err(e) => Err(e),
            Ok(xs) => match s[i] {
                Ok(x) => Ok(xs.push(x)),
                Err(e) => Err(e),
            },
        }),
{
    assert(s.subrange(0, i + 1).drop_last() =~= s.subrange(0, i));
}

pub proof fn lemma_collect_all<A>(s: Seq<Result<A, ErrV>>)
    ensures
        collect(s.subrange(0, s.len() as int)) == collect(s),
{
    assert(s.subrange(0, s.len() as int) =~= s);
}

/// The sequences of `s`, one after another.
pub open spec fn concat_all<A>(s: Seq<Seq<A>>) -> Seq<A>
    decreases s.len(),
{
    if s.len() == 0 {
        Seq::empty()
    } else {
        concat_all(s.drop_last()) + s.last()
    }
}

pub proof fn lemma_concat_step<A>(s: Seq<Seq<A>>, i: int)
    requires
        0 <= i < s.len(),
    ensures
        concat_all(s.subrange(0, i + 1)) == concat_all(s.subrange(0, i)) + s[i],
{
    assert(s.subrange(0, i + 1).drop_last() =~= s.subrange(0, i));
}
} // verus!
