//! The restricted `where` language: a lexer and a recursive-descent parser that
//! produce a `Cond`.
//!
//! Accepted: `column op value`, `IN (...)`, `BETWEEN a AND b`, `IS [NOT] NULL`,
//! `AND / OR / NOT` and parentheses at any depth.  Refused: semicolons, SQL
//! comments and every construct not listed; unknown columns are refused as well.
//! The expression text never reaches SQL: it only becomes a parameterised condition.

use crate::error::{e_param, ApiError, ErrV};
use crate::json::{debug_str, debug_text, json_text, jv, jv_seq, lemma_jv_seq_push, to_json_text, Json, JsonV};
use crate::query::ast::{cv, cv_seq, lemma_cv_seq, lemma_cv_seq_push, resolve, resolve_spec, Cond, CondV, Leaf, LeafV, Op};
use crate::schema::{Registry, Table};
use crate::text::{
    alphanumeric, cat, cat3, char_alphabetic, chars_of, find_char, first_index, float_literal, i64_of_text, i64_text, int_text,
    is_alphabetic, is_alphanumeric, is_digit, is_float_literal, is_ws, is_ws_char, nat_text, owned,
    parse_i64_chars, slice_chars, str_eq, string_of, to_upper, upper, usize_text,
};
use vstd::prelude::*;

verus! {

/// A token of the `where` language.  A decimal number with a point keeps its text.
#[derive(Debug, Clone, PartialEq)]
pub enum Tok {
    Ident(String),
    Str(String),
    Num(String),
    Int(i64),
    LParen,
    RParen,
    Comma,
    Eq,
    Ne,
    Gt,
    Gte,
    Lt,
    Lte,
    And,
    Or,
    Not,
    In,
    Like,
    Between,
    Is,
    Null,
    True,
    False,
}

pub enum TokV {
    Ident(Seq<char>),
    Str(Seq<char>),
    Num(Seq<char>),
    Int(i64),
    LParen,
    RParen,
    Comma,
    Eq,
    Ne,
    Gt,
    Gte,
    Lt,
    Lte,
    And,
    Or,
    Not,
    In,
    Like,
    Between,
    Is,
    Null,
    True,
    False,
}

impl View for Tok {
    type V = TokV;

    open spec fn view(&self) -> TokV {
        match self {
            Tok::Ident(s) => TokV::Ident(s@),
            Tok::Str(s) => TokV::Str(s@),
            Tok::Num(s) => TokV::Num(s@),
            Tok::Int(i) => TokV::Int(*i),
            Tok::LParen => TokV::LParen,
            Tok::RParen => TokV::RParen,
            Tok::Comma => TokV::Comma,
            Tok::Eq => TokV::Eq,
            Tok::Ne => TokV::Ne,
            Tok::Gt => TokV::Gt,
            Tok::Gte => TokV::Gte,
            Tok::Lt => TokV::Lt,
            Tok::Lte => TokV::Lte,
            Tok::And => TokV::And,
            Tok::Or => TokV::Or,
            Tok::Not => TokV::Not,
            Tok::In => TokV::In,
            Tok::Like => TokV::Like,
            Tok::Between => TokV::Between,
            Tok::Is => TokV::Is,
            Tok::Null => TokV::Null,
            Tok::True => TokV::True,
            Tok::False => TokV::False,
        }
    }
}

pub open spec fn toks_view(s: Seq<Tok>) -> Seq<TokV> {
    s.map_values(|t: Tok| t@)
}

pub open spec fn opt_tok(t: Option<Tok>) -> Option<TokV> {
    match t {
        Some(x) => Some(x@),
        None => None,
    }
}

// ---------------------------------------------------------------------------
// Lexer
// ---------------------------------------------------------------------------

/// Characters of an identifier: letters, digits, `_`, `.` (related table or JSON path) and CJK.
pub open spec fn ident_char(c: char) -> bool {
    alphanumeric(c) || c == '_' || c == '.' || ('\u{4e00}' <= c && c <= '\u{9fff}')
}

/// The body of a quoted string from `k` on: its text and the index after the closing
/// quote, or nothing when the quote is never closed.  A doubled quote stands for one
/// quote; a backslash takes the next character as it is.
pub open spec fn scan_quoted(cs: Seq<char>, k: int, q: char) -> Option<(Seq<char>, int)>
    decreases cs.len() - k,
{
    if k < 0 || k >= cs.len() {
        None
    } else if cs[k] == q {
        if k + 1 < cs.len() && cs[k + 1] == q {
            prepend(seq![q], scan_quoted(cs, k + 2, q))
        } else {
            Some((Seq::empty(), k + 1))
        }
    } else if cs[k] == '\\' && k + 1 < cs.len() {
        prepend(seq![cs[k + 1]], scan_quoted(cs, k + 2, q))
    } else {
        prepend(seq![cs[k]], scan_quoted(cs, k + 1, q))
    }
}

pub open spec fn prepend(a: Seq<char>, r: Option<(Seq<char>, int)>) -> Option<(Seq<char>, int)> {
    match r {
        Some((s, e)) => Some((a + s, e)),
        None => None,
    }
}

/// The end of the run of digits and points from `k`, and whether a point was seen;
/// nothing when a second point shows up.
pub open spec fn scan_number(cs: Seq<char>, k: int, dot: bool) -> Option<(int, bool)>
    decreases cs.len() - k,
{
    if 0 <= k < cs.len() && (is_digit(cs[k]) || cs[k] == '.') {
        if cs[k] == '.' {
            if dot {
                None
            } else {
                scan_number(cs, k + 1, true)
            }
        } else {
            scan_number(cs, k + 1, dot)
        }
    } else {
        Some((k, dot))
    }
}

/// The end of the run of identifier characters from `k`.
pub open spec fn scan_word(cs: Seq<char>, k: int) -> int
    decreases cs.len() - k,
{
    if 0 <= k < cs.len() && ident_char(cs[k]) {
        scan_word(cs, k + 1)
    } else {
        k
    }
}

/// A word is a keyword whatever its ASCII case; otherwise an identifier.
pub open spec fn word_tok(w: Seq<char>) -> TokV {
    let u = upper(w);
    if u == "AND"@ {
        TokV::And
    } else if u == "OR"@ {
        TokV::Or
    } else if u == "NOT"@ {
        TokV::Not
    } else if u == "IN"@ {
        TokV::In
    } else if u == "LIKE"@ {
        TokV::Like
    } else if u == "BETWEEN"@ {
        TokV::Between
    } else if u == "IS"@ {
        TokV::Is
    } else if u == "NULL"@ {
        TokV::Null
    } else if u == "TRUE"@ {
        TokV::True
    } else if u == "FALSE"@ {
        TokV::False
    } else {
        TokV::Ident(w)
    }
}

/// Digits without their leading zeros (one `0` is kept for zero).
pub open spec fn strip_zeros(d: Seq<char>) -> Seq<char>
    decreases d.len(),
{
    if d.len() > 1 && d[0] == '0' {
        strip_zeros(d.drop_first())
    } else {
        d
    }
}

/// A decimal `[-]digits.[digits]` in JSON's form: no leading zeros before the
/// point (but one) and at least one digit after it; `007.5` is `7.5` and `1.`
/// is `1.0`.  The number it stands for is the same.
pub open spec fn json_decimal(s: Seq<char>) -> Seq<char> {
    let neg = s.len() > 0 && s[0] == '-';
    let b = if neg {
        s.drop_first()
    } else {
        s
    };
    match first_index(b, '.') {
        None => s,
        Some(i) => {
            let ip = b.subrange(0, i);
            let fp = b.subrange(i + 1, b.len() as int);
            (if neg {
                seq!['-']
            } else {
                Seq::empty()
            }) + (if ip.len() == 0 {
                seq!['0']
            } else {
                strip_zeros(ip)
            }) + seq!['.'] + (if fp.len() == 0 {
                seq!['0']
            } else {
                fp
            })
        },
    }
}

/// The number token written by `cs[i..e]`: a number with a point is kept as
/// its text in JSON's decimal form.
pub open spec fn number_tok(s: Seq<char>, dot: bool) -> Result<TokV, ErrV> {
    if dot {
        if float_literal(s) {
            Ok(TokV::Num(json_decimal(s)))
        } else {
            Err(e_param("非法数字: "@ + s))
        }
    } else {
        match i64_of_text(s) {
            Some(n) => Ok(TokV::Int(n)),
            None => Err(e_param("非法整数: "@ + s)),
        }
    }
}

/// One step of the lexer at `i`: a token (or nothing, for white space) and where the
/// next step starts, or the refusal.
pub open spec fn lex_step(cs: Seq<char>, i: int) -> Result<(Option<TokV>, int), ErrV> {
    let c = cs[i];
    let more = i + 1 < cs.len();
    if is_ws(c) {
        Ok((None, i + 1))
    } else if c == ';' {
        Err(e_param("where 表达式不允许分号"@))
    } else if (c == '-' && more && cs[i + 1] == '-') || (c == '/' && more && cs[i + 1] == '*') {
        Err(e_param("where 表达式不允许 SQL 注释"@))
    } else if c == '\'' || c == '"' {
        match scan_quoted(cs, i + 1, c) {
            None => Err(e_param("where 表达式中的字符串未闭合"@)),
            Some((s, e)) => Ok((Some(TokV::Str(s)), e)),
        }
    } else if c == '(' {
        Ok((Some(TokV::LParen), i + 1))
    } else if c == ')' {
        Ok((Some(TokV::RParen), i + 1))
    } else if c == ',' {
        Ok((Some(TokV::Comma), i + 1))
    } else if more && c == '>' && cs[i + 1] == '=' {
        Ok((Some(TokV::Gte), i + 2))
    } else if more && c == '<' && cs[i + 1] == '=' {
        Ok((Some(TokV::Lte), i + 2))
    } else if more && ((c == '<' && cs[i + 1] == '>') || (c == '!' && cs[i + 1] == '=')) {
        Ok((Some(TokV::Ne), i + 2))
    } else if c == '=' {
        Ok((Some(TokV::Eq), i + 1))
    } else if c == '>' {
        Ok((Some(TokV::Gt), i + 1))
    } else if c == '<' {
        Ok((Some(TokV::Lt), i + 1))
    } else if is_digit(c) || (c == '-' && more && is_digit(cs[i + 1])) {
        match scan_number(cs, if c == '-' { i + 1 } else { i }, false) {
            None => Err(e_param("where 表达式中数字格式非法"@)),
            Some((e, dot)) => match number_tok(cs.subrange(i, e), dot) {
                Ok(t) => Ok((Some(t), e)),
                Err(x) => Err(x),
            },
        }
    } else if char_alphabetic(c) || c == '_' {
        let e = scan_word(cs, i);
        Ok((Some(word_tok(cs.subrange(i, e))), e))
    } else {
        Err(e_param("where 表达式中出现非法字符: "@ + seq![c]))
    }
}

pub proof fn lemma_scan_quoted(cs: Seq<char>, k: int, q: char)
    ensures
        scan_quoted(cs, k, q) matches Some((s, e)) ==> k < e <= cs.len(),
    decreases cs.len() - k,
{
    if 0 <= k < cs.len() {
        if cs[k] == q {
            if k + 1 < cs.len() && cs[k + 1] == q {
                lemma_scan_quoted(cs, k + 2, q);
            }
        } else if cs[k] == '\\' && k + 1 < cs.len() {
            lemma_scan_quoted(cs, k + 2, q);
        } else {
            lemma_scan_quoted(cs, k + 1, q);
        }
    }
}

pub proof fn lemma_scan_number(cs: Seq<char>, k: int, dot: bool)
    requires
        0 <= k <= cs.len(),
    ensures
        scan_number(cs, k, dot) matches Some((e, d)) ==> k <= e <= cs.len() && (k < cs.len()
            && is_digit(cs[k]) ==> k < e),
    decreases cs.len() - k,
{
    if k < cs.len() && (is_digit(cs[k]) || cs[k] == '.') {
        lemma_scan_number(cs, k + 1, dot || cs[k] == '.');
    }
}

pub proof fn lemma_scan_word(cs: Seq<char>, k: int)
    requires
        0 <= k <= cs.len(),
    ensures
        k <= scan_word(cs, k) <= cs.len(),
    decreases cs.len() - k,
{
    if k < cs.len() && ident_char(cs[k]) {
        lemma_scan_word(cs, k + 1);
    }
}

/// Each step of the lexer moves forward and stays within the text.
pub proof fn lemma_step_advances(cs: Seq<char>, i: int)
    requires
        0 <= i < cs.len(),
    ensures
        lex_step(cs, i) matches Ok((t, j)) ==> i < j <= cs.len(),
{
    let c = cs[i];
    lemma_scan_quoted(cs, i + 1, c);
    lemma_scan_number(cs, if c == '-' && i + 1 < cs.len() { i + 1 } else { i }, false);
    lemma_scan_word(cs, i + 1);
    if char_alphabetic(c) || c == '_' {
        assert(ident_char(c));
        assert(scan_word(cs, i) == scan_word(cs, i + 1));
    }
}

/// The tokens of `cs[i..]`, or the first refusal.
pub open spec fn lex_from(cs: Seq<char>, i: int) -> Result<Seq<TokV>, ErrV>
    decreases cs.len() - i,
{
    if i < 0 || i >= cs.len() {
        Ok(Seq::empty())
    } else {
        proof {
            lemma_step_advances(cs, i);
        }
        match lex_step(cs, i) {
            Err(e) => Err(e),
            Ok((t, j)) => match lex_from(cs, j) {
                Err(e) => Err(e),
                Ok(rest) => Ok(
                    match t {
                        Some(x) => seq![x] + rest,
                        None => rest,
                    },
                ),
            },
        }
    }
}

/// The tokens of a `where` expression, or why it is refused.
pub open spec fn lex_spec(src: Seq<char>) -> Result<Seq<TokV>, ErrV> {
    lex_from(src, 0)
}


proof fn lemma_prepend(a: Seq<char>, b: Seq<char>, r: Option<(Seq<char>, int)>)
    ensures
        prepend(a, prepend(b, r)) == prepend(a + b, r),
{
    match r {
        Some((s, e)) => {
            assert(a + (b + s) =~= (a + b) + s);
        },
        None => {},
    }
}

/// Reads the body of a quoted string that starts at `start`.
fn read_quoted(cs: &Vec<char>, start: usize, q: char) -> (r: Option<(String, usize)>)
    requires
        start <= cs.len(),
    ensures
        match r {
            Some((s, e)) => scan_quoted(cs@, start as int, q) == Some((s@, e as int)),
            None => scan_quoted(cs@, start as int, q) is None,
        },
{
    let mut acc: Vec<char> = Vec::new();
    let mut k: usize = start;
    assert(prepend(acc@, scan_quoted(cs@, k as int, q)) == scan_quoted(cs@, k as int, q)) by {
        match scan_quoted(cs@, k as int, q) {
            Some((s, e)) => assert(acc@ + s =~= s),
            None => {},
        }
    }
    while k < cs.len()
        invariant
            start <= k <= cs.len(),
            scan_quoted(cs@, start as int, q) == prepend(acc@, scan_quoted(cs@, k as int, q)),
        decreases cs.len() - k,
    {
        let ch = cs[k];
        let ghost old_acc = acc@;
        if ch == q {
            if k + 1 < cs.len() && cs[k + 1] == q {
                acc.push(q);
                proof {
                    lemma_prepend(old_acc, seq![q], scan_quoted(cs@, k + 2, q));
                    assert(old_acc + seq![q] =~= acc@);
                }
                k = k + 2;
            } else {
                assert(acc@ + Seq::<char>::empty() =~= acc@);
                return Some((string_of(acc.as_slice()), k + 1));
            }
        } else if ch == '\\' && k + 1 < cs.len() {
            let nx = cs[k + 1];
            acc.push(nx);
            proof {
                lemma_prepend(old_acc, seq![nx], scan_quoted(cs@, k + 2, q));
                assert(old_acc + seq![nx] =~= acc@);
            }
            k = k + 2;
        } else {
            acc.push(ch);
            proof {
                lemma_prepend(old_acc, seq![ch], scan_quoted(cs@, k + 1, q));
                assert(old_acc + seq![ch] =~= acc@);
            }
            k = k + 1;
        }
    }
    None
}

/// Reads a run of digits and points from `start`.
fn read_number(cs: &Vec<char>, start: usize) -> (r: Option<(usize, bool)>)
    requires
        start <= cs.len(),
    ensures
        match r {
            Some((e, d)) => scan_number(cs@, start as int, false) == Some((e as int, d)),
            None => scan_number(cs@, start as int, false) is None,
        },
{
    let mut k: usize = start;
    let mut dot = false;
    while k < cs.len() && (('0' <= cs[k] && cs[k] <= '9') || cs[k] == '.')
        invariant
            start <= k <= cs.len(),
            scan_number(cs@, start as int, false) == scan_number(cs@, k as int, dot),
        decreases cs.len() - k,
    {
        if cs[k] == '.' {
            if dot {
                return None;
            }
            dot = true;
        }
        k += 1;
    }
    Some((k, dot))
}

/// Reads a run of identifier characters from `start`.
fn read_word(cs: &Vec<char>, start: usize) -> (r: usize)
    requires
        start <= cs.len(),
    ensures
        r == scan_word(cs@, start as int),
{
    let mut k: usize = start;
    while k < cs.len()
        invariant
            start <= k <= cs.len(),
            scan_word(cs@, start as int) == scan_word(cs@, k as int),
        ensures
            scan_word(cs@, start as int) == k as int,
        decreases cs.len() - k,
    {
        let ch = cs[k];
        let ok = is_alphanumeric(ch) || ch == '_' || ch == '.' || ('\u{4e00}' <= ch && ch <= '\u{9fff}');
        if !ok {
            break;
        }
        k += 1;
    }
    k
}

fn word_token(w: &Vec<char>) -> (r: Tok)
    ensures
        r@ == word_tok(w@),
{
    let ws = string_of(w.as_slice());
    let u = to_upper(ws.as_str());
    let us = u.as_str();
    if str_eq(us, "AND") {
        Tok::And
    } else if str_eq(us, "OR") {
        Tok::Or
    } else if str_eq(us, "NOT") {
        Tok::Not
    } else if str_eq(us, "IN") {
        Tok::In
    } else if str_eq(us, "LIKE") {
        Tok::Like
    } else if str_eq(us, "BETWEEN") {
        Tok::Between
    } else if str_eq(us, "IS") {
        Tok::Is
    } else if str_eq(us, "NULL") {
        Tok::Null
    } else if str_eq(us, "TRUE") {
        Tok::True
    } else if str_eq(us, "FALSE") {
        Tok::False
    } else {
        Tok::Ident(ws)
    }
}

fn strip_zeros_exec(d: &Vec<char>) -> (r: Vec<char>)
    ensures
        r@ == strip_zeros(d@),
{
    let mut k: usize = 0;
    assert(d@.subrange(0, d.len() as int) =~= d@);
    while k + 1 < d.len() && d[k] == '0'
        invariant
            k < d.len() || d.len() == 0,
            k <= d.len(),
            strip_zeros(d@.subrange(k as int, d.len() as int)) == strip_zeros(d@),
        decreases d.len() - k,
    {
        assert(d@.subrange(k as int, d.len() as int).drop_first() =~= d@.subrange(k + 1, d.len() as int));
        k += 1;
    }
    let r = slice_chars(d, k, d.len());
    assert(r@ == d@.subrange(k as int, d.len() as int));
    r
}

/// `json_decimal` of `s`.
fn decimal_text(s: &Vec<char>) -> (r: String)
    ensures
        r@ == json_decimal(s@),
{
    let neg = s.len() > 0 && s[0] == '-';
    let b = if neg {
        slice_chars(s, 1, s.len())
    } else {
        slice_chars(s, 0, s.len())
    };
    assert(b@ == (if neg { s@.drop_first() } else { s@ }));
    match find_char(&b, '.') {
        None => string_of(s.as_slice()),
        Some(i) => {
            let ip = slice_chars(&b, 0, i);
            let fp = slice_chars(&b, i + 1, b.len());
            let mut out: Vec<char> = Vec::new();
            if neg {
                out.push('-');
            }
            if ip.len() == 0 {
                out.push('0');
            } else {
                let z = strip_zeros_exec(&ip);
                let mut j: usize = 0;
                let ghost start = out@;
                while j < z.len()
                    invariant
                        j <= z.len(),
                        out@ == start + z@.subrange(0, j as int),
                    decreases z.len() - j,
                {
                    out.push(z[j]);
                    assert(z@.subrange(0, j + 1) =~= z@.subrange(0, j as int).push(z@[j as int]));
                    j += 1;
                }
                assert(z@.subrange(0, z.len() as int) =~= z@);
            }
            out.push('.');
            if fp.len() == 0 {
                out.push('0');
            } else {
                let mut j: usize = 0;
                let ghost start = out@;
                while j < fp.len()
                    invariant
                        j <= fp.len(),
                        out@ == start + fp@.subrange(0, j as int),
                    decreases fp.len() - j,
                {
                    out.push(fp[j]);
                    assert(fp@.subrange(0, j + 1) =~= fp@.subrange(0, j as int).push(fp@[j as int]));
                    j += 1;
                }
                assert(fp@.subrange(0, fp.len() as int) =~= fp@);
            }
            let r = string_of(out.as_slice());
            assert(r@ =~= json_decimal(s@));
            r
        },
    }
}

fn number_token(s: &Vec<char>, dot: bool) -> (r: Result<Tok, ApiError>)
    ensures
        match r {
            Ok(t) => number_tok(s@, dot) == Ok::<TokV, ErrV>(t@),
            Err(e) => number_tok(s@, dot) == Err::<TokV, ErrV>(e@),
        },
{
    let text = string_of(s.as_slice());
    if dot {
        if is_float_literal(s) {
            Ok(Tok::Num(decimal_text(s)))
        } else {
            let m = cat("非法数字: ", text.as_str());
            Err(ApiError::param(m.as_str()))
        }
    } else {
        match parse_i64_chars(s) {
            Some(n) => Ok(Tok::Int(n)),
            None => {
                let m = cat("非法整数: ", text.as_str());
                Err(ApiError::param(m.as_str()))
            },
        }
    }
}

/// One step of the lexer at `i`.
fn step(cs: &Vec<char>, i: usize) -> (r: Result<(Option<Tok>, usize), ApiError>)
    requires
        i < cs.len(),
    ensures
        match r {
            Ok((t, j)) => lex_step(cs@, i as int) == Ok::<(Option<TokV>, int), ErrV>((opt_tok(t), j as int)),
            Err(e) => lex_step(cs@, i as int) == Err::<(Option<TokV>, int), ErrV>(e@),
        },
{
    let c = cs[i];
    let more = i + 1 < cs.len();
    if is_ws_char(c) {
        return Ok((None, i + 1));
    }
    if c == ';' {
        return Err(ApiError::param("where 表达式不允许分号"));
    }
    if (c == '-' && more && cs[i + 1] == '-') || (c == '/' && more && cs[i + 1] == '*') {
        return Err(ApiError::param("where 表达式不允许 SQL 注释"));
    }
    if c == '\'' || c == '"' {
        return match read_quoted(cs, i + 1, c) {
            None => Err(ApiError::param("where 表达式中的字符串未闭合")),
            Some((s, e)) => Ok((Some(Tok::Str(s)), e)),
        };
    }
    if c == '(' {
        return Ok((Some(Tok::LParen), i + 1));
    }
    if c == ')' {
        return Ok((Some(Tok::RParen), i + 1));
    }
    if c == ',' {
        return Ok((Some(Tok::Comma), i + 1));
    }
    if more && c == '>' && cs[i + 1] == '=' {
        return Ok((Some(Tok::Gte), i + 2));
    }
    if more && c == '<' && cs[i + 1] == '=' {
        return Ok((Some(Tok::Lte), i + 2));
    }
    if more && ((c == '<' && cs[i + 1] == '>') || (c == '!' && cs[i + 1] == '=')) {
        return Ok((Some(Tok::Ne), i + 2));
    }
    if c == '=' {
        return Ok((Some(Tok::Eq), i + 1));
    }
    if c == '>' {
        return Ok((Some(Tok::Gt), i + 1));
    }
    if c == '<' {
        return Ok((Some(Tok::Lt), i + 1));
    }
    if ('0' <= c && c <= '9') || (c == '-' && more && '0' <= cs[i + 1] && cs[i + 1] <= '9') {
        let k = if c == '-' { i + 1 } else { i };
        proof {
            lemma_scan_number(cs@, k as int, false);
        }
        return match read_number(cs, k) {
            None => Err(ApiError::param("where 表达式中数字格式非法")),
            Some((e, dot)) => {
                let s = slice_chars(cs, i, e);
                match number_token(&s, dot) {
                    Ok(t) => Ok((Some(t), e)),
                    Err(x) => Err(x),
                }
            },
        };
    }
    if is_alphabetic(c) || c == '_' {
        let e = read_word(cs, i);
        proof {
            lemma_scan_word(cs@, i as int);
        }
        let w = slice_chars(cs, i, e);
        return Ok((Some(word_token(&w)), e));
    }
    let mut one: Vec<char> = Vec::new();
    one.push(c);
    let cstr = string_of(one.as_slice());
    assert(cstr@ =~= seq![c]);
    let m = cat("where 表达式中出现非法字符: ", cstr.as_str());
    Err(ApiError::param(m.as_str()))
}

/// Splits a `where` expression into tokens.
pub fn lex(src: &str) -> (r: Result<Vec<Tok>, ApiError>)
    ensures
        match r {
            Ok(v) => lex_spec(src@) == Ok::<Seq<TokV>, ErrV>(toks_view(v@)),
            Err(e) => lex_spec(src@) == Err::<Seq<TokV>, ErrV>(e@),
        },
{
    let cs = chars_of(src);
    let mut out: Vec<Tok> = Vec::new();
    let mut i: usize = 0;
    assert(lex_spec(src@) == (match lex_from(cs@, 0) {
        Ok(rest) => Ok(toks_view(out@) + rest),
        Err(e) => Err(e),
    })) by {
        match lex_from(cs@, 0) {
            Ok(rest) => assert(toks_view(out@) + rest =~= rest),
            Err(e) => {},
        }
    }
    while i < cs.len()
        invariant
            i <= cs.len(),
            cs@ == src@,
            lex_spec(src@) == (match lex_from(cs@, i as int) {
                Ok(rest) => Ok(toks_view(out@) + rest),
                Err(e) => Err::<Seq<TokV>, ErrV>(e),
            }),
        decreases cs.len() - i,
    {
        proof {
            lemma_step_advances(cs@, i as int);
        }
        let (t, j) = step(&cs, i)?;
        let ghost before = toks_view(out@);
        match t {
            Some(x) => {
                out.push(x);
                proof {
                    assert(toks_view(out@) =~= before.push(x@));
                    match lex_from(cs@, j as int) {
                        Ok(rest) => assert(before + (seq![x@] + rest) =~= toks_view(out@) + rest),
                        Err(e) => {},
                    }
                }
            },
            None => {},
        }
        i = j;
    }
    assert(toks_view(out@) + Seq::<TokV>::empty() =~= toks_view(out@));
    Ok(out)
}

// ---------------------------------------------------------------------------
// Parser (specification)
// ---------------------------------------------------------------------------

pub open spec fn tok_at(toks: Seq<TokV>, p: int) -> Option<TokV> {
    if 0 <= p < toks.len() {
        Some(toks[p])
    } else {
        None
    }
}

pub open spec fn is_tok(toks: Seq<TokV>, p: int, t: TokV) -> bool {
    tok_at(toks, p) == Some(t)
}

/// `Debug` text of a token (a number with a point shows the number as
/// serde_json writes it).
pub open spec fn tok_debug(t: TokV) -> Seq<char> {
    match t {
        TokV::Ident(s) => "Ident("@ + debug_text(s) + ")"@,
        TokV::Str(s) => "Str("@ + debug_text(s) + ")"@,
        TokV::Num(s) => "Num("@ + json_text(JsonV::Num(s)) + ")"@,
        TokV::Int(i) => "Int("@ + int_text(i as int) + ")"@,
        TokV::LParen => "LParen"@,
        TokV::RParen => "RParen"@,
        TokV::Comma => "Comma"@,
        TokV::Eq => "Eq"@,
        TokV::Ne => "Ne"@,
        TokV::Gt => "Gt"@,
        TokV::Gte => "Gte"@,
        TokV::Lt => "Lt"@,
        TokV::Lte => "Lte"@,
        TokV::And => "And"@,
        TokV::Or => "Or"@,
        TokV::Not => "Not"@,
        TokV::In => "In"@,
        TokV::Like => "Like"@,
        TokV::Between => "Between"@,
        TokV::Is => "Is"@,
        TokV::Null => "Null"@,
        TokV::True => "True"@,
        TokV::False => "False"@,
    }
}

/// `Debug` text of an optional token.
pub open spec fn opt_debug(t: Option<TokV>) -> Seq<char> {
    match t {
        Some(x) => "Some("@ + tok_debug(x) + ")"@,
        None => "None"@,
    }
}

/// The value a token stands for.
pub open spec fn value_of(t: Option<TokV>) -> Result<JsonV, ErrV> {
    match t {
        Some(TokV::Str(s)) => Ok(JsonV::Str(s)),
        Some(TokV::Int(i)) => Ok(JsonV::Int(i)),
        Some(TokV::Num(s)) => Ok(JsonV::Num(s)),
        Some(TokV::Null) => Ok(JsonV::Null),
        Some(TokV::True) => Ok(JsonV::Int(1)),
        Some(TokV::False) => Ok(JsonV::Int(0)),
        Some(TokV::Ident(w)) => Ok(JsonV::Str(w)),
        _ => Err(e_param("where 表达式中期望一个值，实际遇到: "@ + opt_debug(t))),
    }
}

pub open spec fn e_missing(what: Seq<char>, p: int) -> ErrV {
    e_param("where 表达式缺少 "@ + what + "（位置 "@ + nat_text(p as nat) + "）"@)
}

/// Consumes the token `t` at `p`, or says what is missing.
pub open spec fn expect_at(toks: Seq<TokV>, p: int, t: TokV, what: Seq<char>) -> Result<int, ErrV> {
    if is_tok(toks, p, t) {
        Ok(p + 1)
    } else {
        Err(e_missing(what, p))
    }
}

/// The comparison operator a token stands for.
pub open spec fn compare_op(t: Option<TokV>) -> Result<Op, ErrV> {
    match t {
        Some(TokV::Eq) => Ok(Op::Eq),
        Some(TokV::Ne) => Ok(Op::Ne),
        Some(TokV::Gt) => Ok(Op::Gt),
        Some(TokV::Gte) => Ok(Op::Gte),
        Some(TokV::Lt) => Ok(Op::Lt),
        Some(TokV::Lte) => Ok(Op::Lte),
        _ => Err(e_param("where 表达式缺少比较运算符，实际遇到: "@ + opt_debug(t))),
    }
}

/// A leaf on `col`, once the column has been checked against the table.
pub open spec fn leaf_at(t: Table, reg: Registry, col: Seq<char>, op: Op, vals: Seq<JsonV>, p: int) -> Result<(CondV, int), ErrV> {
    match resolve_spec(t, reg, col, op) {
        Err(e) => Err(e),
        Ok(_) => Ok((CondV::Leaf(LeafV { column: col, op, values: vals }), p)),
    }
}

/// More `, value` items of an `IN` list from `p`.
pub open spec fn in_more(toks: Seq<TokV>, p: int, acc: Seq<JsonV>) -> Result<(Seq<JsonV>, int), ErrV>
    decreases toks.len() - p,
{
    if is_tok(toks, p, TokV::Comma) {
        match value_of(tok_at(toks, p + 1)) {
            Err(e) => Err(e),
            Ok(v) => in_more(toks, p + 2, acc.push(v)),
        }
    } else {
        Ok((acc, p))
    }
}

/// The values of an `IN` list from `p`: one value, then `, value` items.
pub open spec fn in_list(toks: Seq<TokV>, p: int) -> Result<(Seq<JsonV>, int), ErrV> {
    match value_of(tok_at(toks, p)) {
        Err(e) => Err(e),
        Ok(v) => in_more(toks, p + 1, seq![v]),
    }
}

/// What follows the column name of a comparison at `p`.
pub open spec fn after_column(toks: Seq<TokV>, p: int, col: Seq<char>, t: Table, reg: Registry) -> Result<(CondV, int), ErrV> {
    if is_tok(toks, p, TokV::Is) {
        let neg = is_tok(toks, p + 1, TokV::Not);
        match expect_at(toks, if neg { p + 2 } else { p + 1 }, TokV::Null, "NULL"@) {
            Err(e) => Err(e),
            Ok(q) => leaf_at(t, reg, col, if neg { Op::IsNotNull } else { Op::IsNull }, Seq::empty(), q),
        }
    } else {
        let neg = is_tok(toks, p, TokV::Not) && (is_tok(toks, p + 1, TokV::In) || is_tok(toks, p + 1, TokV::Like)
            || is_tok(toks, p + 1, TokV::Between));
        let q = if neg { p + 1 } else { p };
        if is_tok(toks, q, TokV::In) {
            match expect_at(toks, q + 1, TokV::LParen, "左括号"@) {
                Err(e) => Err(e),
                Ok(q1) => match in_list(toks, q1) {
                    Err(e) => Err(e),
                    Ok((vals, q2)) => match expect_at(toks, q2, TokV::RParen, "右括号"@) {
                        Err(e) => Err(e),
                        Ok(q3) => leaf_at(t, reg, col, if neg { Op::Nin } else { Op::In }, vals, q3),
                    },
                },
            }
        } else if is_tok(toks, q, TokV::Like) {
            match value_of(tok_at(toks, q + 1)) {
                Err(e) => Err(e),
                Ok(v) => leaf_at(t, reg, col, if neg { Op::NLike } else { Op::Like }, seq![v], q + 2),
            }
        } else if is_tok(toks, q, TokV::Between) {
            match value_of(tok_at(toks, q + 1)) {
                Err(e) => Err(e),
                Ok(a) => match expect_at(toks, q + 2, TokV::And, "AND"@) {
                    Err(e) => Err(e),
                    Ok(q1) => match value_of(tok_at(toks, q1)) {
                        Err(e) => Err(e),
                        Ok(b) => leaf_at(t, reg, col, Op::Between, seq![a, b], q1 + 1),
                    },
                },
            }
        } else if neg {
            Err(e_param("where 表达式中 NOT 只能用于 IN / LIKE / BETWEEN"@))
        } else {
            match compare_op(tok_at(toks, q)) {
                Err(e) => Err(e),
                Ok(op) => match value_of(tok_at(toks, q + 1)) {
                    Err(e) => Err(e),
                    Ok(v) => leaf_at(t, reg, col, op, seq![v], q + 2),
                },
            }
        }
    }
}

/// A comparison at `p`: a column name and what follows it.
pub open spec fn p_comparison(toks: Seq<TokV>, p: int, t: Table, reg: Registry) -> Result<(CondV, int), ErrV> {
    match tok_at(toks, p) {
        Some(TokV::Ident(col)) => after_column(toks, p + 1, col, t, reg),
        _ => Err(e_param("where 表达式中期望列名，实际遇到: "@ + opt_debug(tok_at(toks, p)))),
    }
}

/// `a <= b <= n`: a parse that started at `a` stopped at `b`, inside the tokens.
pub open spec fn fwd(a: int, b: int, n: int) -> bool {
    a <= b <= n
}

/// One condition, or several joined by `OR`, from `p`.
pub open spec fn p_or(toks: Seq<TokV>, p: int, t: Table, reg: Registry) -> Result<(CondV, int), ErrV>
    decreases toks.len() - p, 6int,
{
    match p_and(toks, p, t, reg) {
        Err(e) => Err(e),
        Ok((c, p1)) => if fwd(p, p1, toks.len() as int) {
            or_more(toks, p1, seq![c], t, reg)
        } else {
            Ok((c, p1))
        },
    }
}

/// Further `OR` operands after `parts`, from `p`.
pub open spec fn or_more(toks: Seq<TokV>, p: int, parts: Seq<CondV>, t: Table, reg: Registry) -> Result<(CondV, int), ErrV>
    decreases toks.len() - p, 5int,
{
    if is_tok(toks, p, TokV::Or) {
        match p_and(toks, p + 1, t, reg) {
            Err(e) => Err(e),
            Ok((c, p1)) => if fwd(p + 1, p1, toks.len() as int) {
                or_more(toks, p1, parts.push(c), t, reg)
            } else {
                Ok((c, p1))
            },
        }
    } else {
        Ok((if parts.len() == 1 { parts[0] } else { CondV::Or(parts) }, p))
    }
}

/// One condition, or several joined by `AND`, from `p`.
pub open spec fn p_and(toks: Seq<TokV>, p: int, t: Table, reg: Registry) -> Result<(CondV, int), ErrV>
    decreases toks.len() - p, 4int,
{
    match p_unary(toks, p, t, reg) {
        Err(e) => Err(e),
        Ok((c, p1)) => if fwd(p, p1, toks.len() as int) {
            and_more(toks, p1, seq![c], t, reg)
        } else {
            Ok((c, p1))
        },
    }
}

/// Further `AND` operands after `parts`, from `p`.
pub open spec fn and_more(toks: Seq<TokV>, p: int, parts: Seq<CondV>, t: Table, reg: Registry) -> Result<(CondV, int), ErrV>
    decreases toks.len() - p, 3int,
{
    if is_tok(toks, p, TokV::And) {
        match p_unary(toks, p + 1, t, reg) {
            Err(e) => Err(e),
            Ok((c, p1)) => if fwd(p + 1, p1, toks.len() as int) {
                and_more(toks, p1, parts.push(c), t, reg)
            } else {
                Ok((c, p1))
            },
        }
    } else {
        Ok((if parts.len() == 1 { parts[0] } else { CondV::And(parts) }, p))
    }
}

/// `NOT` repeated, then a primary condition, from `p`.
pub open spec fn p_unary(toks: Seq<TokV>, p: int, t: Table, reg: Registry) -> Result<(CondV, int), ErrV>
    decreases toks.len() - p, 2int,
{
    if is_tok(toks, p, TokV::Not) {
        match p_unary(toks, p + 1, t, reg) {
            Err(e) => Err(e),
            Ok((c, p1)) => Ok((CondV::Not(Box::new(c)), p1)),
        }
    } else {
        p_primary(toks, p, t, reg)
    }
}

/// A parenthesised condition or a comparison, from `p`.
pub open spec fn p_primary(toks: Seq<TokV>, p: int, t: Table, reg: Registry) -> Result<(CondV, int), ErrV>
    decreases toks.len() - p, 1int,
{
    if is_tok(toks, p, TokV::LParen) {
        match p_or(toks, p + 1, t, reg) {
            Err(e) => Err(e),
            Ok((c, p1)) => match expect_at(toks, p1, TokV::RParen, "右括号"@) {
                Err(e) => Err(e),
                Ok(p2) => Ok((c, p2)),
            },
        }
    } else {
        p_comparison(toks, p, t, reg)
    }
}

/// The condition a `where` expression stands for, or why it is refused.
pub open spec fn where_spec(t: Table, reg: Registry, src: Seq<char>) -> Result<CondV, ErrV> {
    match lex_spec(src) {
        Err(e) => Err(e),
        Ok(toks) => if toks.len() == 0 {
            Err(e_param("where 表达式为空"@))
        } else {
            match p_or(toks, 0, t, reg) {
                Err(e) => Err(e),
                Ok((c, p)) => if p != toks.len() {
                    Err(
                        e_param(
                            "where 表达式存在多余内容（已解析 "@ + nat_text(p as nat) + " / "@ + nat_text(toks.len())
                                + " 个记号）"@,
                        ),
                    )
                } else {
                    Ok(c)
                },
            }
        },
    }
}

// ---------------------------------------------------------------------------
// Parser
// ---------------------------------------------------------------------------

fn tok_eq(a: &Tok, b: &Tok) -> (r: bool)
    ensures
        r == (a@ == b@),
{
    match a {
        Tok::Ident(x) => match b {
            Tok::Ident(y) => str_eq(x.as_str(), y.as_str()),
            _ => false,
        },
        Tok::Str(x) => match b {
            Tok::Str(y) => str_eq(x.as_str(), y.as_str()),
            _ => false,
        },
        Tok::Num(x) => match b {
            Tok::Num(y) => str_eq(x.as_str(), y.as_str()),
            _ => false,
        },
        Tok::Int(x) => match b {
            Tok::Int(y) => *x == *y,
            _ => false,
        },
        Tok::LParen => matches!(b, Tok::LParen),
        Tok::RParen => matches!(b, Tok::RParen),
        Tok::Comma => matches!(b, Tok::Comma),
        Tok::Eq => matches!(b, Tok::Eq),
        Tok::Ne => matches!(b, Tok::Ne),
        Tok::Gt => matches!(b, Tok::Gt),
        Tok::Gte => matches!(b, Tok::Gte),
        Tok::Lt => matches!(b, Tok::Lt),
        Tok::Lte => matches!(b, Tok::Lte),
        Tok::And => matches!(b, Tok::And),
        Tok::Or => matches!(b, Tok::Or),
        Tok::Not => matches!(b, Tok::Not),
        Tok::In => matches!(b, Tok::In),
        Tok::Like => matches!(b, Tok::Like),
        Tok::Between => matches!(b, Tok::Between),
        Tok::Is => matches!(b, Tok::Is),
        Tok::Null => matches!(b, Tok::Null),
        Tok::True => matches!(b, Tok::True),
        Tok::False => matches!(b, Tok::False),
    }
}

fn clone_tok(t: &Tok) -> (r: Tok)
    ensures
        r@ == t@,
{
    match t {
        Tok::Ident(x) => Tok::Ident(owned(x.as_str())),
        Tok::Str(x) => Tok::Str(owned(x.as_str())),
        Tok::Num(x) => Tok::Num(owned(x.as_str())),
        Tok::Int(x) => Tok::Int(*x),
        Tok::LParen => Tok::LParen,
        Tok::RParen => Tok::RParen,
        Tok::Comma => Tok::Comma,
        Tok::Eq => Tok::Eq,
        Tok::Ne => Tok::Ne,
        Tok::Gt => Tok::Gt,
        Tok::Gte => Tok::Gte,
        Tok::Lt => Tok::Lt,
        Tok::Lte => Tok::Lte,
        Tok::And => Tok::And,
        Tok::Or => Tok::Or,
        Tok::Not => Tok::Not,
        Tok::In => Tok::In,
        Tok::Like => Tok::Like,
        Tok::Between => Tok::Between,
        Tok::Is => Tok::Is,
        Tok::Null => Tok::Null,
        Tok::True => Tok::True,
        Tok::False => Tok::False,
    }
}

fn tok_debug_text(t: &Tok) -> (r: String)
    ensures
        r@ == tok_debug(t@),
{
    match t {
        Tok::Ident(x) => {
            let d = debug_str(x.as_str());
            cat3("Ident(", d.as_str(), ")")
        },
        Tok::Str(x) => {
            let d = debug_str(x.as_str());
            cat3("Str(", d.as_str(), ")")
        },
        Tok::Num(x) => {
            let d = to_json_text(&Json::Num(owned(x.as_str())));
            cat3("Num(", d.as_str(), ")")
        },
        Tok::Int(i) => {
            let d = i64_text(*i);
            cat3("Int(", d.as_str(), ")")
        },
        Tok::LParen => owned("LParen"),
        Tok::RParen => owned("RParen"),
        Tok::Comma => owned("Comma"),
        Tok::Eq => owned("Eq"),
        Tok::Ne => owned("Ne"),
        Tok::Gt => owned("Gt"),
        Tok::Gte => owned("Gte"),
        Tok::Lt => owned("Lt"),
        Tok::Lte => owned("Lte"),
        Tok::And => owned("And"),
        Tok::Or => owned("Or"),
        Tok::Not => owned("Not"),
        Tok::In => owned("In"),
        Tok::Like => owned("Like"),
        Tok::Between => owned("Between"),
        Tok::Is => owned("Is"),
        Tok::Null => owned("Null"),
        Tok::True => owned("True"),
        Tok::False => owned("False"),
    }
}

fn opt_debug_text(t: &Option<Tok>) -> (r: String)
    ensures
        r@ == opt_debug(opt_tok(*t)),
{
    match t {
        Some(x) => {
            let d = tok_debug_text(x);
            cat3("Some(", d.as_str(), ")")
        },
        None => owned("None"),
    }
}

struct Parser<'a> {
    toks: Vec<Tok>,
    pos: usize,
    table: &'a Table,
    reg: &'a Registry,
}

/// `b` is `a` after some parsing: the same tokens and schema, the position moved forward.
spec fn kept<'a>(a: Parser<'a>, b: Parser<'a>) -> bool {
    &&& b.toks@ == a.toks@
    &&& b.table == a.table
    &&& b.reg == a.reg
    &&& a.pos <= b.pos <= b.toks.len()
}

impl<'a> Parser<'a> {
    spec fn tv(&self) -> Seq<TokV> {
        toks_view(self.toks@)
    }

    /// Whether the token at `k` is `t`.
    fn at(&self, k: usize, t: &Tok) -> (r: bool)
        ensures
            r == is_tok(self.tv(), k as int, t@),
    {
        k < self.toks.len() && tok_eq(&self.toks[k], t)
    }

    fn eat(&mut self, t: &Tok) -> (r: bool)
        requires
            old(self).pos <= old(self).toks.len(),
        ensures
            kept(*old(self), *final(self)),
            r == is_tok(old(self).tv(), old(self).pos as int, t@),
            final(self).pos == (if r { old(self).pos + 1 } else { old(self).pos as int }),
    {
        if self.at(self.pos, t) {
            self.pos = self.pos + 1;
            true
        } else {
            false
        }
    }

    fn next(&mut self) -> (r: Option<Tok>)
        requires
            old(self).pos <= old(self).toks.len(),
        ensures
            kept(*old(self), *final(self)),
            opt_tok(r) == tok_at(old(self).tv(), old(self).pos as int),
            final(self).pos == (if r is Some { old(self).pos + 1 } else { old(self).pos as int }),
    {
        if self.pos < self.toks.len() {
            let t = clone_tok(&self.toks[self.pos]);
            self.pos = self.pos + 1;
            Some(t)
        } else {
            None
        }
    }

    fn expect(&mut self, t: Tok, what: &str) -> (r: Result<(), ApiError>)
        requires
            old(self).pos <= old(self).toks.len(),
        ensures
            kept(*old(self), *final(self)),
            match r {
                Ok(_) => expect_at(old(self).tv(), old(self).pos as int, t@, what@) == Ok::<int, ErrV>(final(self).pos as int),
                Err(e) => expect_at(old(self).tv(), old(self).pos as int, t@, what@) == Err::<int, ErrV>(e@),
            },
    {
        if self.eat(&t) {
            Ok(())
        } else {
            let n = usize_text(self.pos);
            let m1 = cat3("where 表达式缺少 ", what, "（位置 ");
            let m = cat3(m1.as_str(), n.as_str(), "）");
            assert(m@ =~= "where 表达式缺少 "@ + what@ + "（位置 "@ + nat_text(old(self).pos as nat) + "）"@);
            Err(ApiError::param(m.as_str()))
        }
    }

    fn parse_value(&mut self) -> (r: Result<Json, ApiError>)
        requires
            old(self).pos <= old(self).toks.len(),
        ensures
            kept(*old(self), *final(self)),
            match r {
                Ok(v) => value_of(tok_at(old(self).tv(), old(self).pos as int)) == Ok::<JsonV, ErrV>(v@)
                    && final(self).pos == old(self).pos + 1,
                Err(e) => value_of(tok_at(old(self).tv(), old(self).pos as int)) == Err::<JsonV, ErrV>(e@),
            },
    {
        let t = self.next();
        match t {
            Some(Tok::Str(s)) => Ok(Json::Str(s)),
            Some(Tok::Int(i)) => Ok(Json::Int(i)),
            Some(Tok::Num(f)) => Ok(Json::Num(f)),
            Some(Tok::Null) => Ok(Json::Null),
            Some(Tok::True) => Ok(Json::Int(1)),
            Some(Tok::False) => Ok(Json::Int(0)),
            Some(Tok::Ident(w)) => Ok(Json::Str(w)),
            other => {
                let d = opt_debug_text(&other);
                let m = cat("where 表达式中期望一个值，实际遇到: ", d.as_str());
                Err(ApiError::param(m.as_str()))
            },
        }
    }

    /// The values of an `IN` list.
    fn parse_in_list(&mut self) -> (r: Result<Vec<Json>, ApiError>)
        requires
            old(self).pos <= old(self).toks.len(),
        ensures
            kept(*old(self), *final(self)),
            match r {
                Ok(v) => in_list(old(self).tv(), old(self).pos as int) == Ok::<(Seq<JsonV>, int), ErrV>((jv_seq(v@), final(self).pos as int)),
                Err(e) => in_list(old(self).tv(), old(self).pos as int) == Err::<(Seq<JsonV>, int), ErrV>(e@),
            },
    {
        let ghost start = *self;
        let first = self.parse_value()?;
        let mut vals: Vec<Json> = Vec::new();
        vals.push(first);
        proof {
            lemma_jv_seq_push(Seq::empty(), first);
            assert(Seq::<Json>::empty().push(first) =~= vals@);
            assert(jv_seq(Seq::<Json>::empty()) =~= Seq::<JsonV>::empty());
            assert(seq![first@] =~= Seq::<JsonV>::empty().push(jv(first)));
        }
        loop
            invariant
                start == *old(self),
                kept(start, *self),
                in_list(start.tv(), start.pos as int) == in_more(start.tv(), self.pos as int, jv_seq(vals@)),
            ensures
                kept(start, *self),
                in_list(start.tv(), start.pos as int) == in_more(start.tv(), self.pos as int, jv_seq(vals@)),
                !is_tok(start.tv(), self.pos as int, TokV::Comma),
            decreases self.toks.len() - self.pos,
        {
            if !self.eat(&Tok::Comma) {
                break;
            }
            let v = self.parse_value()?;
            proof {
                lemma_jv_seq_push(vals@, v);
            }
            vals.push(v);
        }
        Ok(vals)
    }
}


impl<'a> Parser<'a> {
    /// Checks `col` against the table and makes the leaf.
    fn leaf(&self, col: String, op: Op, vals: Vec<Json>) -> (r: Result<Cond, ApiError>)
        ensures
            match r {
                Ok(c) => leaf_at(*self.table, *self.reg, col@, op, jv_seq(vals@), 0) == Ok::<(CondV, int), ErrV>((c@, 0)),
                Err(e) => leaf_at(*self.table, *self.reg, col@, op, jv_seq(vals@), 0) == Err::<(CondV, int), ErrV>(e@),
            },
    {
        resolve(self.table, self.reg, col.as_str(), op)?;
        Ok(Cond::Leaf(Leaf::new(col, op, vals)))
    }

    #[verifier::spinoff_prover]
    #[verifier::rlimit(60)]
    fn parse_comparison(&mut self) -> (r: Result<Cond, ApiError>)
        requires
            old(self).pos <= old(self).toks.len(),
        ensures
            kept(*old(self), *final(self)),
            match r {
                Ok(c) => p_comparison(old(self).tv(), old(self).pos as int, *old(self).table, *old(self).reg) == Ok::<(CondV, int), ErrV>((c@, final(self).pos as int)),
                Err(e) => p_comparison(old(self).tv(), old(self).pos as int, *old(self).table, *old(self).reg) == Err::<(CondV, int), ErrV>(e@),
            },
    {
        let ghost tv = self.tv();
        let ghost tb = *self.table;
        let ghost rg = *self.reg;
        let col = match self.next() {
            Some(Tok::Ident(c)) => c,
            other => {
                let d = opt_debug_text(&other);
                let m = cat("where 表达式中期望列名，实际遇到: ", d.as_str());
                return Err(ApiError::param(m.as_str()));
            },
        };
        let ghost p = self.pos as int;
        assert(p_comparison(tv, p - 1, tb, rg) == after_column(tv, p, col@, tb, rg));
        if self.eat(&Tok::Is) {
            let negated = self.eat(&Tok::Not);
            self.expect(Tok::Null, "NULL")?;
            let op = if negated { Op::IsNotNull } else { Op::IsNull };
            let r = self.leaf(col, op, Vec::new());
            assert(jv_seq(Seq::<Json>::empty()) =~= Seq::<JsonV>::empty());
            return r;
        }
        let mut negated = false;
        if self.at(self.pos, &Tok::Not) {
            if self.at(self.pos + 1, &Tok::In) || self.at(self.pos + 1, &Tok::Like) || self.at(
                self.pos + 1,
                &Tok::Between,
            ) {
                self.pos = self.pos + 1;
                negated = true;
            }
        }
        if self.eat(&Tok::In) {
            self.expect(Tok::LParen, "左括号")?;
            let vals = self.parse_in_list()?;
            self.expect(Tok::RParen, "右括号")?;
            let op = if negated { Op::Nin } else { Op::In };
            return self.leaf(col, op, vals);
        }
        if self.eat(&Tok::Like) {
            let v = self.parse_value()?;
            let op = if negated { Op::NLike } else { Op::Like };
            let mut vals: Vec<Json> = Vec::new();
            vals.push(v);
            proof {
                lemma_jv_seq_push(Seq::empty(), v);
                assert(Seq::<Json>::empty().push(v) =~= vals@);
                assert(jv_seq(vals@) =~= seq![v@]);
            }
            return self.leaf(col, op, vals);
        }
        if self.eat(&Tok::Between) {
            let a = self.parse_value()?;
            self.expect(Tok::And, "AND")?;
            let b = self.parse_value()?;
            let mut vals: Vec<Json> = Vec::new();
            vals.push(a);
            vals.push(b);
            proof {
                lemma_jv_seq_push(Seq::empty(), a);
                lemma_jv_seq_push(seq![a], b);
                assert(Seq::<Json>::empty().push(a) =~= seq![a]);
                assert(seq![a].push(b) =~= vals@);
                assert(jv_seq(vals@) =~= seq![a@, b@]);
            }
            return self.leaf(col, Op::Between, vals);
        }
        if negated {
            return Err(ApiError::param("where 表达式中 NOT 只能用于 IN / LIKE / BETWEEN"));
        }
        let op = match self.next() {
            Some(Tok::Eq) => Op::Eq,
            Some(Tok::Ne) => Op::Ne,
            Some(Tok::Gt) => Op::Gt,
            Some(Tok::Gte) => Op::Gte,
            Some(Tok::Lt) => Op::Lt,
            Some(Tok::Lte) => Op::Lte,
            other => {
                let d = opt_debug_text(&other);
                let m = cat("where 表达式缺少比较运算符，实际遇到: ", d.as_str());
                return Err(ApiError::param(m.as_str()));
            },
        };
        let v = self.parse_value()?;
        let mut vals: Vec<Json> = Vec::new();
        vals.push(v);
        proof {
            lemma_jv_seq_push(Seq::empty(), v);
            assert(Seq::<Json>::empty().push(v) =~= vals@);
            assert(jv_seq(vals@) =~= seq![v@]);
        }
        self.leaf(col, op, vals)
    }

    fn parse_primary(&mut self) -> (r: Result<Cond, ApiError>)
        requires
            old(self).pos <= old(self).toks.len(),
        ensures
            kept(*old(self), *final(self)),
            match r {
                Ok(c) => p_primary(old(self).tv(), old(self).pos as int, *old(self).table, *old(self).reg) == Ok::<(CondV, int), ErrV>((c@, final(self).pos as int)),
                Err(e) => p_primary(old(self).tv(), old(self).pos as int, *old(self).table, *old(self).reg) == Err::<(CondV, int), ErrV>(e@),
            },
        decreases old(self).toks@.len() - old(self).pos, 1int,
    {
        if self.eat(&Tok::LParen) {
            let inner = self.parse_or()?;
            self.expect(Tok::RParen, "右括号")?;
            return Ok(inner);
        }
        self.parse_comparison()
    }

    fn parse_unary(&mut self) -> (r: Result<Cond, ApiError>)
        requires
            old(self).pos <= old(self).toks.len(),
        ensures
            kept(*old(self), *final(self)),
            match r {
                Ok(c) => p_unary(old(self).tv(), old(self).pos as int, *old(self).table, *old(self).reg) == Ok::<(CondV, int), ErrV>((c@, final(self).pos as int)),
                Err(e) => p_unary(old(self).tv(), old(self).pos as int, *old(self).table, *old(self).reg) == Err::<(CondV, int), ErrV>(e@),
            },
        decreases old(self).toks@.len() - old(self).pos, 2int,
    {
        if self.eat(&Tok::Not) {
            let c = self.parse_unary()?;
            return Ok(Cond::Not(Box::new(c)));
        }
        self.parse_primary()
    }

    fn parse_and(&mut self) -> (r: Result<Cond, ApiError>)
        requires
            old(self).pos <= old(self).toks.len(),
        ensures
            kept(*old(self), *final(self)),
            match r {
                Ok(c) => p_and(old(self).tv(), old(self).pos as int, *old(self).table, *old(self).reg) == Ok::<(CondV, int), ErrV>((c@, final(self).pos as int)),
                Err(e) => p_and(old(self).tv(), old(self).pos as int, *old(self).table, *old(self).reg) == Err::<(CondV, int), ErrV>(e@),
            },
        decreases old(self).toks@.len() - old(self).pos, 4int,
    {
        let ghost start = *self;
        let first = self.parse_unary()?;
        let mut parts: Vec<Cond> = Vec::new();
        parts.push(first);
        proof {
            lemma_cv_seq(parts@);
            assert(cv_seq(parts@) =~= seq![first@]);
        }
        loop
            invariant
                start == *old(self),
                kept(start, *self),
                parts.len() >= 1,
                p_and(start.tv(), start.pos as int, *start.table, *start.reg) == and_more(
                    start.tv(),
                    self.pos as int,
                    cv_seq(parts@),
                    *start.table,
                    *start.reg,
                ),
            ensures
                kept(start, *self),
                parts.len() >= 1,
                p_and(start.tv(), start.pos as int, *start.table, *start.reg) == and_more(
                    start.tv(),
                    self.pos as int,
                    cv_seq(parts@),
                    *start.table,
                    *start.reg,
                ),
                !is_tok(start.tv(), self.pos as int, TokV::And),
            decreases self.toks.len() - self.pos,
        {
            if !self.eat(&Tok::And) {
                break;
            }
            let c = self.parse_unary()?;
            proof {
                lemma_cv_seq_push(parts@, c);
            }
            parts.push(c);
        }
        proof {
            lemma_cv_seq(parts@);
        }
        if parts.len() == 1 {
            Ok(parts.remove(0))
        } else {
            Ok(Cond::And(parts))
        }
    }

    fn parse_or(&mut self) -> (r: Result<Cond, ApiError>)
        requires
            old(self).pos <= old(self).toks.len(),
        ensures
            kept(*old(self), *final(self)),
            match r {
                Ok(c) => p_or(old(self).tv(), old(self).pos as int, *old(self).table, *old(self).reg) == Ok::<(CondV, int), ErrV>((c@, final(self).pos as int)),
                Err(e) => p_or(old(self).tv(), old(self).pos as int, *old(self).table, *old(self).reg) == Err::<(CondV, int), ErrV>(e@),
            },
        decreases old(self).toks@.len() - old(self).pos, 6int,
    {
        let ghost start = *self;
        let first = self.parse_and()?;
        let mut parts: Vec<Cond> = Vec::new();
        parts.push(first);
        proof {
            lemma_cv_seq(parts@);
            assert(cv_seq(parts@) =~= seq![first@]);
        }
        loop
            invariant
                start == *old(self),
                kept(start, *self),
                parts.len() >= 1,
                p_or(start.tv(), start.pos as int, *start.table, *start.reg) == or_more(
                    start.tv(),
                    self.pos as int,
                    cv_seq(parts@),
                    *start.table,
                    *start.reg,
                ),
            ensures
                kept(start, *self),
                parts.len() >= 1,
                p_or(start.tv(), start.pos as int, *start.table, *start.reg) == or_more(
                    start.tv(),
                    self.pos as int,
                    cv_seq(parts@),
                    *start.table,
                    *start.reg,
                ),
                !is_tok(start.tv(), self.pos as int, TokV::Or),
            decreases self.toks.len() - self.pos,
        {
            if !self.eat(&Tok::Or) {
                break;
            }
            let c = self.parse_and()?;
            proof {
                lemma_cv_seq_push(parts@, c);
            }
            parts.push(c);
        }
        proof {
            lemma_cv_seq(parts@);
        }
        if parts.len() == 1 {
            Ok(parts.remove(0))
        } else {
            Ok(Cond::Or(parts))
        }
    }
}

/// Parses a `where` expression against table `t`: every column it names must resolve.
pub fn parse(t: &Table, reg: &Registry, src: &str) -> (r: Result<Cond, ApiError>)
    ensures
        match r {
            Ok(c) => where_spec(*t, *reg, src@) == Ok::<CondV, ErrV>(c@),
            Err(e) => where_spec(*t, *reg, src@) == Err::<CondV, ErrV>(e@),
        },
{
    let toks = lex(src)?;
    if toks.len() == 0 {
        return Err(ApiError::param("where 表达式为空"));
    }
    let mut p = Parser { toks, pos: 0, table: t, reg };
    let cond = p.parse_or()?;
    if p.pos != p.toks.len() {
        let a = usize_text(p.pos);
        let b = usize_text(p.toks.len());
        let m1 = cat3("where 表达式存在多余内容（已解析 ", a.as_str(), " / ");
        let m = cat3(m1.as_str(), b.as_str(), " 个记号）");
        assert(m@ =~= "where 表达式存在多余内容（已解析 "@ + nat_text(p.pos as nat) + " / "@ + nat_text(p.toks.len() as nat) + " 个记号）"@);
        return Err(ApiError::param(m.as_str()));
    }
    Ok(cond)
}

} // verus!
