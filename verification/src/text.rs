//! Character-level text utilities shared by every parser of the crate:
//! Unicode whitespace trimming, ASCII case folding, integer parsing and
//! printing, splitting and joining.  Everything works on `Seq<char>` views.

use vstd::prelude::*;
use vstd::string::*;

verus! {

// ---------------------------------------------------------------------------
// Conversions between `str`/`String` and vectors of characters
// ---------------------------------------------------------------------------

/// The characters of `s`, in order (std's `str::chars`, collected).
#[verifier::external_body]
pub fn chars_of(s: &str) -> (v: Vec<char>)
    ensures
        v@ == s@,
{
    s.chars().collect()
}

/// The string made of the characters of `v`, in order (std's `FromIterator<char>` for `String`).
#[verifier::external_body]
pub fn string_of(v: &[char]) -> (s: String)
    ensures
        s@ == v@,
{
    v.iter().collect()
}

/// A fresh string with the contents of a literal or slice.
pub fn owned(s: &str) -> (r: String)
    ensures
        r@ == s@,
{
    String::from_str(s)
}

/// A copy of a string.
pub fn copy_string(s: &String) -> (r: String)
    ensures
        r@ == s@,
{
    String::from_str(s.as_str())
}

/// A copy of a vector of strings.
pub fn copy_strings(v: &Vec<String>) -> (r: Vec<String>)
    ensures
        r.deep_view() == v.deep_view(),
{
    let mut out: Vec<String> = Vec::new();
    let mut i: usize = 0;
    while i < v.len()
        invariant
            i <= v.len(),
            out.len() == i,
            forall|k: int| 0 <= k < i ==> #[trigger] out@[k]@ == v@[k]@,
        decreases v.len() - i,
    {
        out.push(copy_string(&v[i]));
        i += 1;
    }
    assert(out.deep_view() =~= v.deep_view());
    out
}

/// `a` followed by `b`.
pub fn cat(a: &str, b: &str) -> (r: String)
    ensures
        r@ == a@ + b@,
{
    let s = String::from_str(a);
    s.concat(b)
}

/// `a`, `b` and `c` one after another.
pub fn cat3(a: &str, b: &str, c: &str) -> (r: String)
    ensures
        r@ == a@ + b@ + c@,
{
    let s = String::from_str(a);
    let s = s.concat(b);
    s.concat(c)
}

// ---------------------------------------------------------------------------
// Character classes
// ---------------------------------------------------------------------------

/// Unicode `White_Space` property (what `char::is_whitespace` tests).
pub open spec fn is_ws(c: char) -> bool {
    ||| ('\u{9}' <= c && c <= '\u{d}')
    ||| c == ' '
    ||| c == '\u{85}'
    ||| c == '\u{a0}'
    ||| c == '\u{1680}'
    ||| ('\u{2000}' <= c && c <= '\u{200a}')
    ||| c == '\u{2028}'
    ||| c == '\u{2029}'
    ||| c == '\u{202f}'
    ||| c == '\u{205f}'
    ||| c == '\u{3000}'
}

pub fn is_ws_char(c: char) -> (r: bool)
    ensures
        r == is_ws(c),
{
    ('\u{9}' <= c && c <= '\u{d}') || c == ' ' || c == '\u{85}' || c == '\u{a0}' || c
        == '\u{1680}' || ('\u{2000}' <= c && c <= '\u{200a}') || c == '\u{2028}' || c
        == '\u{2029}' || c == '\u{202f}' || c == '\u{205f}' || c == '\u{3000}'
}

pub open spec fn is_digit(c: char) -> bool {
    '0' <= c && c <= '9'
}

/// What `char::is_alphabetic` returns for `c` (the Unicode `Alphabetic` property).
pub uninterp spec fn char_alphabetic(c: char) -> bool;

/// What `char::is_numeric` returns for `c` (general categories Nd, Nl, No).
pub uninterp spec fn char_numeric(c: char) -> bool;

/// std's `char::is_alphabetic`: whether `c` has the Unicode `Alphabetic` property.
/// The contract only names the result; the Unicode tables are not restated here.
#[verifier::external_body]
pub fn is_alphabetic(c: char) -> (r: bool)
    ensures
        r == char_alphabetic(c),
{
    c.is_alphabetic()
}

/// std's `char::is_numeric`: whether `c` is in one of the Unicode numeric categories.
/// The contract only names the result.
#[verifier::external_body]
pub fn is_numeric(c: char) -> (r: bool)
    ensures
        r == char_numeric(c),
{
    c.is_numeric()
}

/// `char::is_alphanumeric`, which std documents as alphabetic or numeric.
pub open spec fn alphanumeric(c: char) -> bool {
    char_alphabetic(c) || char_numeric(c)
}

pub fn is_alphanumeric(c: char) -> (r: bool)
    ensures
        r == alphanumeric(c),
{
    is_alphabetic(c) || is_numeric(c)
}

// ---------------------------------------------------------------------------
// ASCII case folding
// ---------------------------------------------------------------------------

pub open spec fn lower_char(c: char) -> char {
    if 'A' <= c && c <= 'Z' {
        (((c as u32) + 32) as u8) as char
    } else {
        c
    }
}

pub open spec fn upper_char(c: char) -> char {
    if 'a' <= c && c <= 'z' {
        (((c as u32) - 32) as u8) as char
    } else {
        c
    }
}

pub open spec fn lower(s: Seq<char>) -> Seq<char> {
    s.map_values(|c: char| lower_char(c))
}

pub open spec fn upper(s: Seq<char>) -> Seq<char> {
    s.map_values(|c: char| upper_char(c))
}

pub fn lower_char_exec(c: char) -> (r: char)
    ensures
        r == lower_char(c),
{
    if 'A' <= c && c <= 'Z' {
        (((c as u32) + 32) as u8) as char
    } else {
        c
    }
}

pub fn upper_char_exec(c: char) -> (r: char)
    ensures
        r == upper_char(c),
{
    if 'a' <= c && c <= 'z' {
        (((c as u32) - 32) as u8) as char
    } else {
        c
    }
}

/// `str::to_ascii_lowercase`.
pub fn to_lower(s: &str) -> (r: String)
    ensures
        r@ == lower(s@),
{
    let v = chars_of(s);
    let mut out: Vec<char> = Vec::new();
    let mut i: usize = 0;
    while i < v.len()
        invariant
            i <= v.len(),
            v@ == s@,
            out@ == lower(v@.subrange(0, i as int)),
        decreases v.len() - i,
    {
        out.push(lower_char_exec(v[i]));
        i += 1;
        assert(lower(v@.subrange(0, i as int)) =~= lower(v@.subrange(0, i - 1)).push(
            lower_char(v@[i - 1]),
        ));
    }
    assert(v@.subrange(0, v.len() as int) =~= v@);
    string_of(out.as_slice())
}

/// `str::to_ascii_uppercase`.
pub fn to_upper(s: &str) -> (r: String)
    ensures
        r@ == upper(s@),
{
    let v = chars_of(s);
    let mut out: Vec<char> = Vec::new();
    let mut i: usize = 0;
    while i < v.len()
        invariant
            i <= v.len(),
            v@ == s@,
            out@ == upper(v@.subrange(0, i as int)),
        decreases v.len() - i,
    {
        out.push(upper_char_exec(v[i]));
        i += 1;
        assert(upper(v@.subrange(0, i as int)) =~= upper(v@.subrange(0, i - 1)).push(
            upper_char(v@[i - 1]),
        ));
    }
    assert(v@.subrange(0, v.len() as int) =~= v@);
    string_of(out.as_slice())
}

// ---------------------------------------------------------------------------
// Trimming
// ---------------------------------------------------------------------------

pub open spec fn trim_start(s: Seq<char>) -> Seq<char>
    decreases s.len(),
{
    if s.len() > 0 && is_ws(s[0]) {
        trim_start(s.drop_first())
    } else {
        s
    }
}

pub open spec fn trim_end(s: Seq<char>) -> Seq<char>
    decreases s.len(),
{
    if s.len() > 0 && is_ws(s.last()) {
        trim_end(s.drop_last())
    } else {
        s
    }
}

/// `str::trim`: whitespace removed at both ends.
pub open spec fn trim(s: Seq<char>) -> Seq<char> {
    trim_end(trim_start(s))
}

/// A copy of `v[a..b]`.
pub fn slice_chars(v: &Vec<char>, a: usize, b: usize) -> (r: Vec<char>)
    requires
        a <= b <= v.len(),
    ensures
        r@ == v@.subrange(a as int, b as int),
{
    let mut out: Vec<char> = Vec::new();
    let mut i: usize = a;
    while i < b
        invariant
            a <= i <= b <= v.len(),
            out@ == v@.subrange(a as int, i as int),
        decreases b - i,
    {
        out.push(v[i]);
        i += 1;
        assert(out@ =~= v@.subrange(a as int, i as int));
    }
    out
}

/// The bounds of the trimmed part of `v`.
pub fn trim_bounds(v: &Vec<char>) -> (r: (usize, usize))
    ensures
        r.0 <= r.1 <= v.len(),
        v@.subrange(r.0 as int, r.1 as int) == trim(v@),
{
    let n = v.len();
    let mut i: usize = 0;
    assert(v@.subrange(0, n as int) =~= v@);
    while i < n && is_ws_char(v[i])
        invariant
            i <= n == v.len(),
            trim_start(v@) == trim_start(v@.subrange(i as int, n as int)),
        decreases n - i,
    {
        assert(v@.subrange(i + 1, n as int) =~= v@.subrange(i as int, n as int).drop_first());
        i += 1;
    }
    assert(trim_start(v@) == v@.subrange(i as int, n as int));
    let mut j: usize = n;
    while j > i && is_ws_char(v[j - 1])
        invariant
            i <= j <= n == v.len(),
            trim(v@) == trim_end(v@.subrange(i as int, j as int)),
        decreases j,
    {
        assert(v@.subrange(i as int, j - 1) =~= v@.subrange(i as int, j as int).drop_last());
        j -= 1;
    }
    (i, j)
}

pub fn trim_chars(v: &Vec<char>) -> (r: Vec<char>)
    ensures
        r@ == trim(v@),
{
    let (a, b) = trim_bounds(v);
    slice_chars(v, a, b)
}

/// `str::trim`, as an owned string.
pub fn trim_str(s: &str) -> (r: String)
    ensures
        r@ == trim(s@),
{
    let v = chars_of(s);
    let t = trim_chars(&v);
    string_of(t.as_slice())
}

// ---------------------------------------------------------------------------
// Comparison and search
// ---------------------------------------------------------------------------

pub fn seq_eq(a: &Vec<char>, b: &Vec<char>) -> (r: bool)
    ensures
        r == (a@ == b@),
{
    if a.len() != b.len() {
        return false;
    }
    let mut i: usize = 0;
    while i < a.len()
        invariant
            i <= a.len() == b.len(),
            forall|k: int| 0 <= k < i ==> a@[k] == b@[k],
        decreases a.len() - i,
    {
        if a[i] != b[i] {
            return false;
        }
        i += 1;
    }
    assert(a@ =~= b@);
    true
}

/// Whether two strings have the same characters.
pub fn str_eq(a: &str, b: &str) -> (r: bool)
    ensures
        r == (a@ == b@),
{
    let x = chars_of(a);
    let y = chars_of(b);
    seq_eq(&x, &y)
}

pub open spec fn starts_with(s: Seq<char>, p: Seq<char>) -> bool {
    p.len() <= s.len() && s.subrange(0, p.len() as int) == p
}

pub open spec fn ends_with(s: Seq<char>, p: Seq<char>) -> bool {
    p.len() <= s.len() && s.subrange(s.len() - p.len(), s.len() as int) == p
}

pub fn has_prefix(s: &Vec<char>, p: &Vec<char>) -> (r: bool)
    ensures
        r == starts_with(s@, p@),
{
    if p.len() > s.len() {
        return false;
    }
    let mut i: usize = 0;
    while i < p.len()
        invariant
            i <= p.len() <= s.len(),
            forall|k: int| 0 <= k < i ==> s@[k] == p@[k],
        decreases p.len() - i,
    {
        if s[i] != p[i] {
            assert(s@.subrange(0, p.len() as int)[i as int] != p@[i as int]);
            return false;
        }
        i += 1;
    }
    assert(s@.subrange(0, p.len() as int) =~= p@);
    true
}

pub fn has_suffix(s: &Vec<char>, p: &Vec<char>) -> (r: bool)
    ensures
        r == ends_with(s@, p@),
{
    if p.len() > s.len() {
        return false;
    }
    let off = s.len() - p.len();
    let mut i: usize = 0;
    while i < p.len()
        invariant
            i <= p.len() <= s.len(),
            off == s.len() - p.len(),
            forall|k: int| 0 <= k < i ==> s@[off + k] == p@[k],
        decreases p.len() - i,
    {
        if s[off + i] != p[i] {
            assert(s@.subrange(off as int, s.len() as int)[i as int] != p@[i as int]);
            return false;
        }
        i += 1;
    }
    assert(s@.subrange(off as int, s.len() as int) =~= p@);
    true
}

/// Index of the first occurrence of `c` in `s`, if any.
pub open spec fn first_index(s: Seq<char>, c: char) -> Option<int> {
    if s.contains(c) {
        Some(choose|i: int| 0 <= i < s.len() && s[i] == c && forall|k: int| 0 <= k < i ==> s[k] != c)
    } else {
        None
    }
}

pub fn find_char(v: &Vec<char>, c: char) -> (r: Option<usize>)
    ensures
        match r {
            Some(i) => i < v.len() && v@[i as int] == c && forall|k: int| 0 <= k < i ==> v@[k] != c,
            None => !v@.contains(c),
        },
        r matches Some(i) ==> first_index(v@, c) == Some(i as int),
        r is None ==> first_index(v@, c) is None,
{
    let mut i: usize = 0;
    while i < v.len()
        invariant
            i <= v.len(),
            forall|k: int| 0 <= k < i ==> v@[k] != c,
        decreases v.len() - i,
    {
        if v[i] == c {
            assert(v@.contains(c));
            let ghost j = choose|j: int| 0 <= j < v@.len() && v@[j] == c && forall|k: int| 0 <= k < j ==> v@[k] != c;
            assert(j == i as int) by {
                if j < i as int {
                } else if j > i as int {
                    assert(v@[i as int] != c);
                }
            }
            return Some(i);
        }
        i += 1;
    }
    None
}

/// Whether `c` occurs in `s`.
pub fn contains_char(s: &str, c: char) -> (r: bool)
    ensures
        r == s@.contains(c),
{
    let v = chars_of(s);
    match find_char(&v, c) {
        Some(_) => true,
        None => false,
    }
}

// ---------------------------------------------------------------------------
// Integers
// ---------------------------------------------------------------------------

pub open spec fn digits_only(s: Seq<char>) -> bool {
    forall|i: int| 0 <= i < s.len() ==> #[trigger] is_digit(s[i])
}

pub open spec fn digit_value(c: char) -> int {
    c as int - '0' as int
}

/// The number written by a string of decimal digits.
pub open spec fn digits_value(s: Seq<char>) -> int
    decreases s.len(),
{
    if s.len() == 0 {
        0
    } else {
        digits_value(s.drop_last()) * 10 + digit_value(s.last())
    }
}

/// The integer written by `s` in the syntax of Rust's `FromStr` for integers:
/// an optional `+` or `-` followed by at least one decimal digit.
pub open spec fn int_of_text(s: Seq<char>) -> Option<int> {
    if s.len() > 0 && (s[0] == '+' || s[0] == '-') {
        let d = s.drop_first();
        if d.len() > 0 && digits_only(d) {
            Some(if s[0] == '-' { -digits_value(d) } else { digits_value(d) })
        } else {
            None
        }
    } else if s.len() > 0 && digits_only(s) {
        Some(digits_value(s))
    } else {
        None
    }
}

/// What `s.parse::<i64>()` gives: the value when it is written correctly and fits.
pub open spec fn i64_of_text(s: Seq<char>) -> Option<i64> {
    match int_of_text(s) {
        Some(v) => if i64::MIN <= v && v <= i64::MAX {
            Some(v as i64)
        } else {
            None
        },
        None => None,
    }
}

/// What `s.parse::<usize>()` gives: like `i64_of_text` but no `-` sign is accepted.
pub open spec fn usize_of_text(s: Seq<char>) -> Option<usize> {
    if s.len() > 0 && s[0] == '-' {
        None
    } else {
        match int_of_text(s) {
            Some(v) => if 0 <= v && v <= usize::MAX {
                Some(v as usize)
            } else {
                None
            },
            None => None,
        }
    }
}

pub proof fn lemma_digits_value_nonneg(s: Seq<char>)
    requires
        digits_only(s),
    ensures
        digits_value(s) >= 0,
    decreases s.len(),
{
    if s.len() > 0 {
        assert(is_digit(s[s.len() - 1]));
        assert(digits_only(s.drop_last())) by {
            assert forall|i: int| 0 <= i < s.drop_last().len() implies #[trigger] is_digit(
                s.drop_last()[i],
            ) by {
                assert(is_digit(s[i]));
            }
        }
        lemma_digits_value_nonneg(s.drop_last());
    }
}

/// A longer run of digits never writes a smaller number than its prefix.
pub proof fn lemma_digits_value_prefix(s: Seq<char>, i: int)
    requires
        digits_only(s),
        0 <= i <= s.len(),
    ensures
        digits_value(s.subrange(0, i)) <= digits_value(s),
    decreases s.len(),
{
    if i < s.len() {
        let t = s.drop_last();
        assert(digits_only(t)) by {
            assert forall|k: int| 0 <= k < t.len() implies #[trigger] is_digit(t[k]) by {
                assert(is_digit(s[k]));
            }
        }
        assert(t.subrange(0, i) =~= s.subrange(0, i));
        lemma_digits_value_prefix(t, i);
        lemma_digits_value_nonneg(t);
        assert(is_digit(s[s.len() - 1]));
    } else {
        assert(s.subrange(0, i) =~= s);
    }
}

/// Reads a run of decimal digits; `None` when some character is not a digit,
/// when the run is empty, or when the number exceeds `bound`.
fn digits_upto(v: &Vec<char>, start: usize, bound: u64) -> (r: Option<u64>)
    requires
        start <= v.len(),
        bound >= 9,
    ensures
        match r {
            Some(x) => start < v.len() && digits_only(v@.subrange(start as int, v.len() as int))
                && x == digits_value(v@.subrange(start as int, v.len() as int)) && x <= bound,
            None => !(start < v.len() && digits_only(v@.subrange(start as int, v.len() as int))
                && digits_value(v@.subrange(start as int, v.len() as int)) <= bound),
        },
{
    if start >= v.len() {
        return None;
    }
    let ghost d = v@.subrange(start as int, v.len() as int);
    let mut acc: u64 = 0;
    let mut i: usize = start;
    while i < v.len()
        invariant
            start <= i <= v.len(),
            d == v@.subrange(start as int, v.len() as int),
            digits_only(v@.subrange(start as int, i as int)),
            acc == digits_value(v@.subrange(start as int, i as int)),
            acc <= bound,
            bound >= 9,
        decreases v.len() - i,
    {
        let c = v[i];
        if !('0' <= c && c <= '9') {
            assert(!is_digit(d[i - start]));
            return None;
        }
        let dv: u64 = (c as u32 - '0' as u32) as u64;
        let ghost prev = v@.subrange(start as int, i as int);
        let ghost next = v@.subrange(start as int, i + 1);
        assert(next.drop_last() =~= prev);
        assert(digits_only(next)) by {
            assert forall|k: int| 0 <= k < next.len() implies #[trigger] is_digit(next[k]) by {
                if k < prev.len() {
                    assert(next[k] == prev[k]);
                }
            }
        }
        if acc > (bound - dv) / 10 {
            // the prefix read so far already exceeds the bound
            proof {
                assert(acc * 10 + dv > bound) by (nonlinear_arith)
                    requires
                        acc > (bound - dv) / 10,
                        dv <= 9,
                        dv <= bound || true,
                ;
                if digits_only(d) {
                    lemma_digits_value_prefix(d, (i + 1 - start) as int);
                    assert(d.subrange(0, (i + 1 - start) as int) =~= next);
                }
            }
            return None;
        }
        assert(acc * 10 + dv <= bound) by (nonlinear_arith)
            requires
                acc <= (bound - dv) / 10,
                dv <= 9,
        ;
        acc = acc * 10 + dv;
        i += 1;
    }
    assert(v@.subrange(start as int, v.len() as int) =~= d);
    Some(acc)
}

/// `s.parse::<i64>()` on the characters of `v`.
pub fn parse_i64_chars(v: &Vec<char>) -> (r: Option<i64>)
    ensures
        r == i64_of_text(v@),
{
    if v.len() == 0 {
        return None;
    }
    let neg = v[0] == '-';
    let signed = v[0] == '-' || v[0] == '+';
    let start: usize = if signed { 1 } else { 0 };
    let bound: u64 = if neg { 9223372036854775808 } else { 9223372036854775807 };
    let ghost d = v@.subrange(start as int, v.len() as int);
    assert(signed ==> d =~= v@.drop_first());
    assert(!signed ==> d =~= v@);
    match digits_upto(v, start, bound) {
        Some(x) => {
            if neg {
                if x == 9223372036854775808 {
                    Some(i64::MIN)
                } else {
                    Some(-(x as i64))
                }
            } else {
                Some(x as i64)
            }
        },
        None => {
            proof {
                if signed {
                    if d.len() > 0 && digits_only(d) {
                        lemma_digits_value_nonneg(d);
                    }
                } else {
                    if v@.len() > 0 && digits_only(v@) {
                        lemma_digits_value_nonneg(v@);
                    }
                }
            }
            None
        },
    }
}

/// `s.trim().parse::<i64>()`.
pub fn parse_i64_trimmed(s: &str) -> (r: Option<i64>)
    ensures
        r == i64_of_text(trim(s@)),
{
    let v = chars_of(s);
    let t = trim_chars(&v);
    parse_i64_chars(&t)
}

/// `s.parse::<usize>()` on the characters of `v`.
pub fn parse_usize_chars(v: &Vec<char>) -> (r: Option<usize>)
    ensures
        r == usize_of_text(v@),
{
    if v.len() == 0 || v[0] == '-' {
        return None;
    }
    let signed = v[0] == '+';
    let start: usize = if signed { 1 } else { 0 };
    let ghost d = v@.subrange(start as int, v.len() as int);
    assert(signed ==> d =~= v@.drop_first());
    assert(!signed ==> d =~= v@);
    let bound: u64 = if usize::MAX as u64 > 0 { usize::MAX as u64 } else { 0 };
    match digits_upto(v, start, bound) {
        Some(x) => {
            proof {
                lemma_digits_value_nonneg(d);
            }
            Some(x as usize)
        },
        None => {
            proof {
                if d.len() > 0 && digits_only(d) {
                    lemma_digits_value_nonneg(d);
                }
            }
            None
        },
    }
}

pub open spec fn digit_char(d: nat) -> char {
    ((d + 48) as u8) as char
}

/// Decimal text of a natural number, as `Display` writes it.
pub open spec fn nat_text(n: nat) -> Seq<char>
    decreases n,
{
    if n < 10 {
        seq![digit_char(n)]
    } else {
        nat_text(n / 10) + seq![digit_char(n % 10)]
    }
}

/// Decimal text of an integer, as `Display` writes it.
pub open spec fn int_text(i: int) -> Seq<char> {
    if i < 0 {
        seq!['-'] + nat_text((-i) as nat)
    } else {
        nat_text(i as nat)
    }
}

/// `m.to_string()` for an unsigned number.
pub fn u64_text(m: u64) -> (r: String)
    ensures
        r@ == nat_text(m as nat),
{
    let mut n: u64 = m / 10;
    let mut suf: Vec<char> = Vec::new();
    suf.push(((m % 10) as u8 + 48) as char);
    assert(suf@ =~= seq![digit_char((m % 10) as nat)]);
    while n > 0
        invariant
            nat_text(m as nat) == (if n == 0 {
                Seq::<char>::empty()
            } else {
                nat_text(n as nat)
            }) + suf@,
        decreases n,
    {
        let d = n % 10;
        suf.insert(0, ((d as u8) + 48) as char);
        let ghost old_n = n;
        n = n / 10;
        assert(nat_text(old_n as nat) =~= (if n == 0 {
            Seq::<char>::empty()
        } else {
            nat_text(n as nat)
        }) + seq![digit_char(d as nat)]);
    }
    assert(nat_text(m as nat) =~= suf@);
    string_of(suf.as_slice())
}

/// `i.to_string()`.
pub fn i64_text(i: i64) -> (r: String)
    ensures
        r@ == int_text(i as int),
{
    if i < 0 {
        let m: u64 = if i == i64::MIN {
            9223372036854775808
        } else {
            (-i) as u64
        };
        let t = u64_text(m);
        proof {
            reveal_strlit("-");
        }
        cat("-", t.as_str())
    } else {
        u64_text(i as u64)
    }
}

/// `n.to_string()` for a `usize`.
pub fn usize_text(n: usize) -> (r: String)
    ensures
        r@ == nat_text(n as nat),
{
    u64_text(n as u64)
}


// ---------------------------------------------------------------------------
// Float literals
// ---------------------------------------------------------------------------

/// A mantissa of Rust's float grammar: digits with at most one `.`, and at least one digit.
pub open spec fn mantissa_ok(m: Seq<char>) -> bool {
    &&& forall|i: int| 0 <= i < m.len() ==> #[trigger] is_digit(m[i]) || m[i] == '.'
    &&& forall|i: int, j: int| 0 <= i < j < m.len() ==> !(#[trigger] m[i] == '.' && #[trigger] m[j] == '.')
    &&& exists|i: int| 0 <= i < m.len() && #[trigger] is_digit(m[i])
}

/// An exponent body of Rust's float grammar: an optional sign and at least one digit.
pub open spec fn exponent_ok(x: Seq<char>) -> bool {
    let d = if x.len() > 0 && (x[0] == '+' || x[0] == '-') {
        x.drop_first()
    } else {
        x
    };
    d.len() > 0 && digits_only(d)
}

pub open spec fn unsigned_float_ok(b: Seq<char>) -> bool {
    ||| b == seq!['i', 'n', 'f']
    ||| b == seq!['i', 'n', 'f', 'i', 'n', 'i', 't', 'y']
    ||| b == seq!['n', 'a', 'n']
    ||| match first_index(b, 'e') {
        None => mantissa_ok(b),
        Some(i) => mantissa_ok(b.subrange(0, i)) && exponent_ok(b.subrange(i + 1, b.len() as int)),
    }
}

/// The strings that `str::parse::<f64>` accepts, by the grammar std documents for
/// `FromStr for f64`: matched after ASCII lowercasing, an optional sign, then `inf`,
/// `infinity`, `nan`, or a decimal number with an optional exponent.
pub open spec fn float_literal(s: Seq<char>) -> bool {
    let t = lower(s);
    let b = if t.len() > 0 && (t[0] == '+' || t[0] == '-') {
        t.drop_first()
    } else {
        t
    };
    unsigned_float_ok(b)
}

fn mantissa_check(m: &Vec<char>) -> (r: bool)
    ensures
        r == mantissa_ok(m@),
{
    let mut dots: usize = 0;
    let mut dot_at: usize = 0;
    let mut digit_seen = false;
    let mut i: usize = 0;
    while i < m.len()
        invariant
            i <= m.len(),
            forall|k: int| 0 <= k < i ==> #[trigger] is_digit(m@[k]) || m@[k] == '.',
            dots <= 1,
            dots == 0 ==> forall|k: int| 0 <= k < i ==> m@[k] != '.',
            dots == 1 ==> dot_at < i && m@[dot_at as int] == '.' && forall|k: int|
                0 <= k < i && k != dot_at ==> m@[k] != '.',
            digit_seen == exists|k: int| 0 <= k < i && #[trigger] is_digit(m@[k]),
        decreases m.len() - i,
    {
        let c = m[i];
        if c == '.' {
            if dots == 1 {
                assert(m@[dot_at as int] == '.' && m@[i as int] == '.');
                return false;
            }
            dots = 1;
            dot_at = i;
        } else if !('0' <= c && c <= '9') {
            assert(!(is_digit(m@[i as int]) || m@[i as int] == '.'));
            return false;
        } else {
            assert(is_digit(m@[i as int]));
            digit_seen = true;
        }
        i += 1;
    }
    digit_seen
}

fn exponent_check(x: &Vec<char>) -> (r: bool)
    ensures
        r == exponent_ok(x@),
{
    let signed = x.len() > 0 && (x[0] == '+' || x[0] == '-');
    let start: usize = if signed { 1 } else { 0 };
    let ghost d = x@.subrange(start as int, x.len() as int);
    assert(signed ==> d =~= x@.drop_first());
    assert(!signed ==> d =~= x@);
    if start >= x.len() {
        return false;
    }
    let mut i: usize = start;
    while i < x.len()
        invariant
            start <= i <= x.len(),
            d == x@.subrange(start as int, x.len() as int),
            d == (if x@.len() > 0 && (x@[0] == '+' || x@[0] == '-') {
                x@.drop_first()
            } else {
                x@
            }),
            forall|k: int| start <= k < i ==> #[trigger] is_digit(x@[k]),
        decreases x.len() - i,
    {
        if !('0' <= x[i] && x[i] <= '9') {
            assert(d[i - start] == x@[i as int]);
            assert(!is_digit(d[i - start]));
            assert(!digits_only(d));
            assert(exponent_ok(x@) == (d.len() > 0 && digits_only(d)));
            return false;
        }
        i += 1;
    }
    assert forall|k: int| 0 <= k < d.len() implies #[trigger] is_digit(d[k]) by {
        assert(is_digit(x@[k + start]));
    }
    true
}

fn lit_eq(a: &Vec<char>, lit: &str) -> (r: bool)
    ensures
        r == (a@ == lit@),
{
    let l = chars_of(lit);
    seq_eq(a, &l)
}

/// Whether `s.parse::<f64>()` succeeds (see `float_literal`).
pub fn is_float_literal(s: &Vec<char>) -> (r: bool)
    ensures
        r == float_literal(s@),
{
    let mut t: Vec<char> = Vec::new();
    let mut i: usize = 0;
    while i < s.len()
        invariant
            i <= s.len(),
            t@ == lower(s@.subrange(0, i as int)),
        decreases s.len() - i,
    {
        t.push(lower_char_exec(s[i]));
        i += 1;
        assert(lower(s@.subrange(0, i as int)) =~= lower(s@.subrange(0, i - 1)).push(
            lower_char(s@[i - 1]),
        ));
    }
    assert(s@.subrange(0, s.len() as int) =~= s@);
    let signed = t.len() > 0 && (t[0] == '+' || t[0] == '-');
    let b = if signed {
        slice_chars(&t, 1, t.len())
    } else {
        slice_chars(&t, 0, t.len())
    };
    assert(signed ==> b@ =~= t@.drop_first());
    assert(!signed ==> b@ =~= t@);
    proof {
        reveal_strlit("inf");
        reveal_strlit("infinity");
        reveal_strlit("nan");
    }
    assert("inf"@ =~= seq!['i', 'n', 'f']);
    assert("infinity"@ =~= seq!['i', 'n', 'f', 'i', 'n', 'i', 't', 'y']);
    assert("nan"@ =~= seq!['n', 'a', 'n']);
    if lit_eq(&b, "inf") || lit_eq(&b, "infinity") || lit_eq(&b, "nan") {
        return true;
    }
    match find_char(&b, 'e') {
        None => mantissa_check(&b),
        Some(e) => {
            let m = slice_chars(&b, 0, e);
            let x = slice_chars(&b, e + 1, b.len());
            mantissa_check(&m) && exponent_check(&x)
        },
    }
}


// ---------------------------------------------------------------------------
// Lexicographic order (what `Ord for String` compares)
// ---------------------------------------------------------------------------

/// `a < b` in the order of `String`: character by character, a proper prefix first.
pub open spec fn seq_lt(a: Seq<char>, b: Seq<char>) -> bool
    decreases a.len(),
{
    if a.len() == 0 {
        b.len() > 0
    } else if b.len() == 0 {
        false
    } else if a[0] != b[0] {
        a[0] < b[0]
    } else {
        seq_lt(a.drop_first(), b.drop_first())
    }
}

pub proof fn lemma_lt_irreflexive(a: Seq<char>)
    ensures
        !seq_lt(a, a),
    decreases a.len(),
{
    if a.len() > 0 {
        lemma_lt_irreflexive(a.drop_first());
    }
}

pub proof fn lemma_lt_total(a: Seq<char>, b: Seq<char>)
    ensures
        a == b || seq_lt(a, b) || seq_lt(b, a),
        !(seq_lt(a, b) && seq_lt(b, a)),
    decreases a.len(),
{
    if a.len() > 0 && b.len() > 0 && a[0] == b[0] {
        lemma_lt_total(a.drop_first(), b.drop_first());
        if a.drop_first() == b.drop_first() {
            assert(a =~= seq![a[0]] + a.drop_first());
            assert(b =~= seq![b[0]] + b.drop_first());
        }
    } else if a.len() == 0 && b.len() == 0 {
        assert(a =~= b);
    }
}

pub proof fn lemma_lt_transitive(a: Seq<char>, b: Seq<char>, c: Seq<char>)
    requires
        seq_lt(a, b),
        seq_lt(b, c),
    ensures
        seq_lt(a, c),
    decreases a.len(),
{
    if a.len() > 0 && b.len() > 0 && c.len() > 0 && a[0] == b[0] && b[0] == c[0] {
        lemma_lt_transitive(a.drop_first(), b.drop_first(), c.drop_first());
    }
}

pub fn chars_lt(a: &Vec<char>, b: &Vec<char>) -> (r: bool)
    ensures
        r == seq_lt(a@, b@),
{
    let mut i: usize = 0;
    assert(a@.subrange(0, a.len() as int) =~= a@);
    assert(b@.subrange(0, b.len() as int) =~= b@);
    while i < a.len() && i < b.len() && a[i] == b[i]
        invariant
            i <= a.len(),
            i <= b.len(),
            seq_lt(a@, b@) == seq_lt(a@.subrange(i as int, a.len() as int), b@.subrange(i as int, b.len() as int)),
        decreases a.len() - i,
    {
        let ghost x = a@.subrange(i as int, a.len() as int);
        let ghost y = b@.subrange(i as int, b.len() as int);
        assert(x.drop_first() =~= a@.subrange(i + 1, a.len() as int));
        assert(y.drop_first() =~= b@.subrange(i + 1, b.len() as int));
        i += 1;
    }
    let ghost x = a@.subrange(i as int, a.len() as int);
    let ghost y = b@.subrange(i as int, b.len() as int);
    if i == a.len() {
        i < b.len()
    } else if i == b.len() {
        false
    } else {
        assert(x[0] == a@[i as int] && y[0] == b@[i as int]);
        a[i] < b[i]
    }
}

/// `a < b` for strings.
pub fn str_lt(a: &str, b: &str) -> (r: bool)
    ensures
        r == seq_lt(a@, b@),
{
    let x = chars_of(a);
    let y = chars_of(b);
    chars_lt(&x, &y)
}

/// Whether `s` occurs in `v`.
pub fn contains_str(v: &Vec<String>, s: &str) -> (r: bool)
    ensures
        r == v.deep_view().contains(s@),
{
    let mut i: usize = 0;
    while i < v.len()
        invariant
            i <= v.len(),
            forall|k: int| 0 <= k < i ==> v@[k]@ != s@,
        decreases v.len() - i,
    {
        if str_eq(v[i].as_str(), s) {
            assert(v.deep_view()[i as int] == s@);
            return true;
        }
        i += 1;
    }
    assert forall|k: int| 0 <= k < v.deep_view().len() implies v.deep_view()[k] != s@ by {
        assert(v.deep_view()[k] == v@[k]@);
    }
    false
}

/// Sequences of strings, element by element.
pub fn strings_eq(a: &Vec<String>, b: &Vec<String>) -> (r: bool)
    ensures
        r == (a.deep_view() == b.deep_view()),
{
    if a.len() != b.len() {
        assert(a.deep_view().len() != b.deep_view().len());
        return false;
    }
    let mut i: usize = 0;
    while i < a.len()
        invariant
            i <= a.len() == b.len(),
            forall|k: int| 0 <= k < i ==> a@[k]@ == b@[k]@,
        decreases a.len() - i,
    {
        if !str_eq(a[i].as_str(), b[i].as_str()) {
            assert(a.deep_view()[i as int] != b.deep_view()[i as int]);
            return false;
        }
        i += 1;
    }
    assert(a.deep_view() =~= b.deep_view());
    true
}

/// The elements of `s` with later repetitions removed, in order of first occurrence.
pub open spec fn dedup(s: Seq<Seq<char>>) -> Seq<Seq<char>>
    decreases s.len(),
{
    if s.len() == 0 {
        Seq::empty()
    } else {
        let d = dedup(s.drop_last());
        if d.contains(s.last()) {
            d
        } else {
            d.push(s.last())
        }
    }
}

/// `a[0] + sep + a[1] + sep + ...`.
pub open spec fn join(a: Seq<Seq<char>>, sep: Seq<char>) -> Seq<char>
    decreases a.len(),
{
    if a.len() == 0 {
        Seq::empty()
    } else if a.len() == 1 {
        a[0]
    } else {
        join(a.drop_last(), sep) + sep + a.last()
    }
}

/// `parts.join(sep)`.
pub fn join_strings(parts: &Vec<String>, sep: &str) -> (r: String)
    ensures
        r@ == join(parts.deep_view(), sep@),
{
    let mut out = String::new();
    let mut i: usize = 0;
    assert(parts.deep_view().subrange(0, 0) =~= Seq::<Seq<char>>::empty());
    while i < parts.len()
        invariant
            i <= parts.len(),
            out@ == join(parts.deep_view().subrange(0, i as int), sep@),
        decreases parts.len() - i,
    {
        let ghost sub = parts.deep_view().subrange(0, i + 1);
        assert(sub.drop_last() =~= parts.deep_view().subrange(0, i as int));
        assert(sub.last() == parts@[i as int]@);
        if i > 0 {
            out = out.concat(sep);
        }
        out = out.concat(parts[i].as_str());
        i += 1;
    }
    assert(parts.deep_view().subrange(0, parts.len() as int) =~= parts.deep_view());
    out
}


/// ASCII lowercasing twice is lowercasing once.
pub proof fn lemma_lower_idempotent(s: Seq<char>)
    ensures
        lower(lower(s)) == lower(s),
{
    assert forall|i: int| 0 <= i < s.len() implies #[trigger] lower_char(lower_char(s[i])) == lower_char(s[i]) by {
        let c = s[i];
        if 'A' <= c && c <= 'Z' {
            assert('a' <= lower_char(c) && lower_char(c) <= 'z');
        }
    }
    assert(lower(lower(s)) =~= lower(s));
}
/// `s[i..i + p.len()]` is `p`.
pub open spec fn occurs_at(s: Seq<char>, p: Seq<char>, i: int) -> bool {
    s.subrange(i, i + p.len()) == p
}

/// Whether `p` occurs in `s` (`str::contains`).
pub open spec fn has_text(s: Seq<char>, p: Seq<char>) -> bool {
    exists|i: int| 0 <= i && i + p.len() <= s.len() && #[trigger] occurs_at(s, p, i)
}

pub fn occurs_here(s: &Vec<char>, p: &Vec<char>, i: usize) -> (r: bool)
    requires
        i + p.len() <= s.len(),
    ensures
        r == occurs_at(s@, p@, i as int),
{
    let mut k: usize = 0;
    while k < p.len()
        invariant
            k <= p.len(),
            i + p.len() <= s.len(),
            forall|q: int| 0 <= q < k ==> s@[i + q] == p@[q],
        decreases p.len() - k,
    {
        if s[i + k] != p[k] {
            assert(s@.subrange(i as int, i + p.len())[k as int] != p@[k as int]);
            return false;
        }
        k += 1;
    }
    assert(s@.subrange(i as int, i + p.len()) =~= p@);
    true
}

pub fn contains_text(s: &Vec<char>, p: &Vec<char>) -> (r: bool)
    ensures
        r == has_text(s@, p@),
{
    if p.len() > s.len() {
        return false;
    }
    if p.len() == 0 {
        assert(s@.subrange(0, 0) =~= p@);
        assert(occurs_at(s@, p@, 0));
        return true;
    }
    let last = s.len() - p.len();
    let mut i: usize = 0;
    while i <= last
        invariant
            last == s.len() - p.len(),
            0 < p.len() <= s.len(),
            i <= last + 1,
            forall|q: int| 0 <= q < i ==> !#[trigger] occurs_at(s@, p@, q),
        decreases last + 1 - i,
    {
        if occurs_here(s, p, i) {
            return true;
        }
        i += 1;
    }
    false
}

/// The decimal text of a natural number is a run of digits that reads back as
/// the number.
pub proof fn lemma_nat_text_reads_back(n: nat)
    ensures
        nat_text(n).len() > 0,
        digits_only(nat_text(n)),
        digits_value(nat_text(n)) == n,
    decreases n,
{
    if n < 10 {
        let c = digit_char(n);
        assert(c as int == n + 48);
        assert(nat_text(n) =~= seq![c]);
        assert(seq![c].drop_last() =~= Seq::<char>::empty());
        assert(digit_value(c) == n);
        assert(digits_value(seq![c]) == digits_value(seq![c].drop_last()) * 10 + digit_value(seq![c].last()));
    } else {
        lemma_nat_text_reads_back(n / 10);
        let c = digit_char(n % 10);
        assert(c as int == n % 10 + 48);
        let s = nat_text(n);
        assert(s == nat_text(n / 10) + seq![c]);
        assert(s.drop_last() =~= nat_text(n / 10));
        assert forall|i: int| 0 <= i < s.len() implies #[trigger] is_digit(s[i]) by {
            if i < s.len() - 1 {
                assert(s[i] == nat_text(n / 10)[i]);
            }
        }
        assert(s.last() == c);
        assert(digit_value(c) == n % 10);
        assert(digits_value(s) == digits_value(s.drop_last()) * 10 + digit_value(s.last()));
        assert(n == (n / 10) * 10 + n % 10);
    }
}

/// The decimal text of an integer reads back as the integer (`i.to_string().parse()`).
pub proof fn lemma_int_text_reads_back(i: i64)
    ensures
        i64_of_text(int_text(i as int)) == Some(i),
{
    if i < 0 {
        let n = (-(i as int)) as nat;
        lemma_nat_text_reads_back(n);
        let s = int_text(i as int);
        assert(s == seq!['-'] + nat_text(n));
        assert(s.drop_first() =~= nat_text(n));
        assert(s[0] == '-');
    } else {
        lemma_nat_text_reads_back(i as nat);
        let s = int_text(i as int);
        assert(is_digit(s[0]));
    }
}

} // verus!
