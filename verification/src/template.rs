//! Request-parameter templates.
//!
//! Query-parameter values may hold calls of the form `{{ current_date() }}`
//! or `{{ few_date_ago(n) }}`. This module scans for such calls, extracts
//! them, and substitutes their values. A call is `{{`, optional
//! whitespace, an identifier, `(`, arguments, `)`, optional whitespace
//! and `}}`, where the closing braces are the first brace after the
//! opening paren: the arguments run to the last `)` before them and may
//! hold anything but a brace. Text that does not form a call is copied
//! through unchanged.

use vstd::prelude::*;
use crate::dates::{Date, format_date_spec, format_date, local_today, minus_days_spec, minus_days};
use crate::errors::ApitapError;
use crate::strutil::{chars_to_string, str_to_chars, matches_at, occurs_at, subvec};

verus! {

pub open spec fn is_ws(c: char) -> bool {
    c == ' ' || c == '\t' || c == '\n' || c == '\r'
}

pub open spec fn is_ident_start(c: char) -> bool {
    ('a' <= c && c <= 'z') || ('A' <= c && c <= 'Z') || c == '_'
}

pub open spec fn is_ident_char(c: char) -> bool {
    is_ident_start(c) || ('0' <= c && c <= '9')
}

/// First position at or after `i` that is not whitespace.
pub open spec fn skip_ws(s: Seq<char>, i: int) -> int
    decreases s.len() - i,
{
    if i < s.len() && is_ws(s[i]) {
        skip_ws(s, i + 1)
    } else {
        i
    }
}

/// First position at or after `i` that is not an identifier character.
pub open spec fn skip_ident(s: Seq<char>, i: int) -> int
    decreases s.len() - i,
{
    if i < s.len() && is_ident_char(s[i]) {
        skip_ident(s, i + 1)
    } else {
        i
    }
}

/// First position at or after `i` that holds a brace, or the length.
pub open spec fn skip_to_brace(s: Seq<char>, i: int) -> int
    decreases s.len() - i,
{
    if i < s.len() && s[i] != '}' {
        skip_to_brace(s, i + 1)
    } else {
        i
    }
}

/// The last non-whitespace position in `[lo, j)`, or `lo - 1` when the
/// range holds only whitespace.
pub open spec fn back_skip_ws(s: Seq<char>, j: int, lo: int) -> int
    decreases j - lo,
    when lo <= j
{
    if j <= lo {
        lo - 1
    } else if is_ws(s[j - 1]) {
        back_skip_ws(s, j - 1, lo)
    } else {
        j - 1
    }
}

pub proof fn lemma_skip_ws_bounds(s: Seq<char>, i: int)
    requires
        0 <= i <= s.len(),
    ensures
        i <= skip_ws(s, i) <= s.len(),
    decreases s.len() - i,
{
    if i < s.len() && is_ws(s[i]) {
        lemma_skip_ws_bounds(s, i + 1);
    }
}

pub proof fn lemma_skip_ident_bounds(s: Seq<char>, i: int)
    requires
        0 <= i <= s.len(),
    ensures
        i <= skip_ident(s, i) <= s.len(),
    decreases s.len() - i,
{
    if i < s.len() && is_ident_char(s[i]) {
        lemma_skip_ident_bounds(s, i + 1);
    }
}

pub proof fn lemma_skip_to_brace_bounds(s: Seq<char>, i: int)
    requires
        0 <= i <= s.len(),
    ensures
        i <= skip_to_brace(s, i) <= s.len(),
        skip_to_brace(s, i) < s.len() ==> s[skip_to_brace(s, i)] == '}',
    decreases s.len() - i,
{
    if i < s.len() && s[i] != '}' {
        lemma_skip_to_brace_bounds(s, i + 1);
    }
}

pub proof fn lemma_back_skip_ws_bounds(s: Seq<char>, j: int, lo: int)
    requires
        0 <= lo <= j <= s.len(),
    ensures
        lo - 1 <= back_skip_ws(s, j, lo) < j,
    decreases j - lo,
{
    if j > lo && is_ws(s[j - 1]) {
        lemma_back_skip_ws_bounds(s, j - 1, lo);
    }
}

/// Attempt to recognise a template call starting at `i`. On success the
/// result holds the capture's start, the capture's end (one past the
/// closing paren) and the end of the whole call (one past `}}`). The
/// closing braces are the first brace after the opening paren; the last
/// non-whitespace character before them must be the closing paren.
pub open spec fn match_at(s: Seq<char>, i: int) -> Option<(int, int, int)> {
    if 0 <= i && i + 2 <= s.len() && s[i] == '{' && s[i + 1] == '{' {
        let a = skip_ws(s, i + 2);
        if a < s.len() && is_ident_start(s[a]) {
            let b = skip_ident(s, a + 1);
            if b < s.len() && s[b] == '(' {
                let j = skip_to_brace(s, b + 1);
                if j + 1 < s.len() && s[j] == '}' && s[j + 1] == '}' {
                    let e = back_skip_ws(s, j, b + 1);
                    if e >= b + 1 && s[e] == ')' {
                        Some((a, e + 1, j + 2))
                    } else {
                        None
                    }
                } else {
                    None
                }
            } else {
                None
            }
        } else {
            None
        }
    } else {
        None
    }
}

pub proof fn lemma_match_at_bounds(s: Seq<char>, i: int)
    requires
        0 <= i <= s.len(),
    ensures
        match_at(s, i) matches Some(m) ==> i + 2 <= m.0 < m.1 < m.2 <= s.len(),
{
    if match_at(s, i) is Some {
        lemma_skip_ws_bounds(s, i + 2);
        let a = skip_ws(s, i + 2);
        lemma_skip_ident_bounds(s, a + 1);
        let b = skip_ident(s, a + 1);
        lemma_skip_to_brace_bounds(s, b + 1);
        let j = skip_to_brace(s, b + 1);
        lemma_back_skip_ws_bounds(s, j, b + 1);
    }
}

/// Every captured call text, scanning left to right; matched spans are
/// not rescanned.
pub open spec fn captures_from(s: Seq<char>, i: int) -> Seq<Seq<char>>
    decreases s.len() - i,
    when 0 <= i <= s.len()
    via captures_from_decreases
{
    if i >= s.len() {
        Seq::empty()
    } else {
        match match_at(s, i) {
            Some(m) => seq![s.subrange(m.0, m.1)] + captures_from(s, m.2),
            None => captures_from(s, i + 1),
        }
    }
}

#[via_fn]
proof fn captures_from_decreases(s: Seq<char>, i: int) {
    lemma_match_at_bounds(s, i);
}

/// Digit value of a decimal digit character.
pub open spec fn dval(c: char) -> int {
    c as u32 as int - 48
}

pub open spec fn is_digit(c: char) -> bool {
    '0' <= c && c <= '9'
}

pub open spec fn all_digits(s: Seq<char>) -> bool {
    forall|j: int| 0 <= j < s.len() ==> is_digit(s[j])
}

/// The value of a digit string.
pub open spec fn digits_val(s: Seq<char>) -> int
    decreases s.len(),
{
    if s.len() == 0 {
        0
    } else {
        digits_val(s.drop_last()) * 10 + dval(s.last())
    }
}

/// Parsing of a signed 64-bit integer: an optional sign, then one or
/// more digits, value within the `i64` range.
pub open spec fn parse_i64_spec(s: Seq<char>) -> Option<int> {
    if s.len() == 0 {
        None
    } else if s[0] == '-' {
        let ds = s.skip(1);
        if ds.len() > 0 && all_digits(ds) && digits_val(ds) <= 0x8000_0000_0000_0000 {
            Some(-digits_val(ds))
        } else {
            None
        }
    } else if s[0] == '+' {
        let ds = s.skip(1);
        if ds.len() > 0 && all_digits(ds) && digits_val(ds) <= 0x7fff_ffff_ffff_ffff {
            Some(digits_val(ds))
        } else {
            None
        }
    } else {
        if all_digits(s) && digits_val(s) <= 0x7fff_ffff_ffff_ffff {
            Some(digits_val(s))
        } else {
            None
        }
    }
}

/// The value a recognised call evaluates to, or the error message it
/// raises, against a fixed `today`.
pub open spec fn eval_call_spec(cap: Seq<char>, today: Date) -> Result<Seq<char>, Seq<char>> {
    if cap == "current_date()"@ {
        Ok(format_date_spec(today))
    } else if cap.len() >= 14 && cap.subrange(0, 13) == "few_date_ago("@ && cap.last() == ')' {
        let args = cap.subrange(13, cap.len() - 1);
        match parse_i64_spec(args) {
            Some(n) => if n < 0 {
                Err("days must be non-negative"@)
            } else {
                match minus_days_spec(today, n as nat) {
                    Some(x) => Ok(format_date_spec(x)),
                    None => Err("date out of range"@),
                }
            },
            None => Err("Invalid argument: "@ + args),
        }
    } else {
        Err("Unknown function: "@ + cap)
    }
}

/// The text with every call substituted, or the first error message,
/// against a fixed `today`.
pub open spec fn subst_from(s: Seq<char>, i: int, today: Date) -> Result<Seq<char>, Seq<char>>
    decreases s.len() - i,
    when 0 <= i <= s.len()
    via subst_from_decreases
{
    if i >= s.len() {
        Ok(Seq::empty())
    } else {
        match match_at(s, i) {
            Some(m) => match eval_call_spec(s.subrange(m.0, m.1), today) {
                Ok(v) => match subst_from(s, m.2, today) {
                    Ok(rest) => Ok(v + rest),
                    Err(e) => Err(e),
                },
                Err(e) => Err(e),
            },
            None => match subst_from(s, i + 1, today) {
                Ok(rest) => Ok(seq![s[i]] + rest),
                Err(e) => Err(e),
            },
        }
    }
}

#[via_fn]
proof fn subst_from_decreases(s: Seq<char>, i: int, today: Date) {
    lemma_match_at_bounds(s, i);
}

/// Prefix a successful substitution result; pass an error through.
pub open spec fn subst_bind(prefix: Seq<char>, r: Result<Seq<char>, Seq<char>>) -> Result<
    Seq<char>,
    Seq<char>,
> {
    match r {
        Ok(rest) => Ok(prefix + rest),
        Err(e) => Err(e),
    }
}

proof fn lemma_bind_assoc(a: Seq<char>, b: Seq<char>, r: Result<Seq<char>, Seq<char>>)
    ensures
        subst_bind(a, subst_bind(b, r)) == subst_bind(a + b, r),
{
    match r {
        Ok(rest) => {
            assert((a + b) + rest =~= a + (b + rest));
        },
        Err(_) => {},
    }
}

pub(crate) fn skip_ws_exec(s: &Vec<char>, i: usize) -> (r: usize)
    requires
        i <= s@.len(),
    ensures
        r as int == skip_ws(s@, i as int),
        i <= r <= s@.len(),
{
    let mut j = i;
    while j < s.len() && (s[j] == ' ' || s[j] == '\t' || s[j] == '\n' || s[j] == '\r')
        invariant
            i <= j <= s@.len(),
            skip_ws(s@, i as int) == skip_ws(s@, j as int),
        decreases s@.len() - j,
    {
        j = j + 1;
    }
    j
}

fn skip_ident_exec(s: &Vec<char>, i: usize) -> (r: usize)
    requires
        i <= s@.len(),
    ensures
        r as int == skip_ident(s@, i as int),
        i <= r <= s@.len(),
{
    let mut j = i;
    while j < s.len() && (('a' <= s[j] && s[j] <= 'z') || ('A' <= s[j] && s[j] <= 'Z') || s[j]
        == '_' || ('0' <= s[j] && s[j] <= '9'))
        invariant
            i <= j <= s@.len(),
            skip_ident(s@, i as int) == skip_ident(s@, j as int),
        decreases s@.len() - j,
    {
        j = j + 1;
    }
    j
}

fn skip_to_brace_exec(s: &Vec<char>, i: usize) -> (r: usize)
    requires
        i <= s@.len(),
    ensures
        r as int == skip_to_brace(s@, i as int),
        i <= r <= s@.len(),
        r < s@.len() ==> s@[r as int] == '}',
{
    let mut j = i;
    while j < s.len() && s[j] != '}'
        invariant
            i <= j <= s@.len(),
            skip_to_brace(s@, i as int) == skip_to_brace(s@, j as int),
        decreases s@.len() - j,
    {
        j = j + 1;
    }
    j
}

fn back_skip_ws_exec(s: &Vec<char>, j: usize, lo: usize) -> (r: Option<usize>)
    requires
        lo <= j <= s@.len(),
    ensures
        match r {
            Some(e) => e as int == back_skip_ws(s@, j as int, lo as int) && lo <= e < j,
            None => back_skip_ws(s@, j as int, lo as int) == lo - 1,
        },
{
    let mut k = j;
    while k > lo && (s[k - 1] == ' ' || s[k - 1] == '\t' || s[k - 1] == '\n' || s[k - 1]
        == '\r')
        invariant
            lo <= k <= j <= s@.len(),
            back_skip_ws(s@, j as int, lo as int) == back_skip_ws(s@, k as int, lo as int),
        decreases k - lo,
    {
        k = k - 1;
    }
    if k == lo {
        None
    } else {
        Some(k - 1)
    }
}

/// Recognise a template call at `i`.
fn try_match(s: &Vec<char>, i: usize) -> (r: Option<(usize, usize, usize)>)
    requires
        i <= s@.len(),
    ensures
        match r {
            Some(m) => {
                &&& match_at(s@, i as int) == Some((m.0 as int, m.1 as int, m.2 as int))
                &&& i + 2 <= m.0 < m.1 < m.2 <= s@.len()
            },
            None => match_at(s@, i as int) is None,
        },
{
    proof {
        lemma_match_at_bounds(s@, i as int);
    }
    if i >= s.len() || s.len() - i < 2 || s[i] != '{' || s[i + 1] != '{' {
        return None;
    }
    let a = skip_ws_exec(s, i + 2);
    if !(a < s.len() && (('a' <= s[a] && s[a] <= 'z') || ('A' <= s[a] && s[a] <= 'Z') || s[a]
        == '_')) {
        return None;
    }
    let b = skip_ident_exec(s, a + 1);
    if !(b < s.len() && s[b] == '(') {
        return None;
    }
    let j = skip_to_brace_exec(s, b + 1);
    if j >= s.len() || s.len() - j < 2 || s[j + 1] != '}' {
        return None;
    }
    match back_skip_ws_exec(s, j, b + 1) {
        Some(e) => {
            if s[e] == ')' {
                Some((a, e + 1, j + 2))
            } else {
                None
            }
        },
        None => None,
    }
}

/// Character-for-character equality.
fn chars_eq(a: &Vec<char>, b: &Vec<char>) -> (r: bool)
    ensures
        r == (a@ == b@),
{
    if a.len() != b.len() {
        proof {
            assert(a@ != b@);
        }
        return false;
    }
    let mut j: usize = 0;
    while j < a.len()
        invariant
            j <= a@.len(),
            a@.len() == b@.len(),
            forall|k: int| 0 <= k < j ==> a@[k] == b@[k],
        decreases a@.len() - j,
    {
        if a[j] != b[j] {
            return false;
        }
        j = j + 1;
    }
    proof {
        assert(a@ =~= b@);
    }
    true
}

/// Parse a signed 64-bit integer out of characters.
pub fn parse_i64_chars(s: &Vec<char>) -> (r: Option<i64>)
    ensures
        match r {
            Some(v) => parse_i64_spec(s@) == Some(v as int),
            None => parse_i64_spec(s@) is None,
        },
{
    if s.len() == 0 {
        return None;
    }
    let (neg, start): (bool, usize) = if s[0] == '-' {
        (true, 1)
    } else if s[0] == '+' {
        (false, 1)
    } else {
        (false, 0)
    };
    if s.len() == start {
        return None;
    }
    let ghost ds = s@.skip(start as int);
    let mut acc: u128 = 0;
    let mut too_big: bool = false;
    let mut j: usize = start;
    while j < s.len()
        invariant
            start <= j <= s@.len(),
            s@.len() > start,
            start == 0 || start == 1,
            start == 1 ==> s@[0] == '-' || s@[0] == '+',
            start == 0 ==> s@[0] != '-' && s@[0] != '+',
            neg <==> (start == 1 && s@[0] == '-'),
            ds == s@.skip(start as int),
            all_digits(s@.subrange(start as int, j as int)),
            !too_big ==> acc as int == digits_val(s@.subrange(start as int, j as int)),
            !too_big ==> acc <= 0x8000_0000_0000_0000,
            too_big ==> digits_val(s@.subrange(start as int, j as int)) > 0x8000_0000_0000_0000,
        decreases s@.len() - j,
    {
        let c = s[j];
        if !('0' <= c && c <= '9') {
            proof {
                assert(!is_digit(s@.skip(start as int)[j - start]));
                assert(!all_digits(s@.skip(start as int)));
                lemma_parse_branch_shape(s@, start as int);
            }
            return None;
        }
        let d: u128 = (c as u32 - 48) as u128;
        proof {
            let pre = s@.subrange(start as int, j as int);
            let post = s@.subrange(start as int, j + 1);
            assert(post.drop_last() =~= pre);
            assert(post.last() == s@[j as int]);
        }
        if too_big {
            proof {
                let pre = s@.subrange(start as int, j as int);
                let post = s@.subrange(start as int, j + 1);
                assert(digits_val(post) == digits_val(pre) * 10 + dval(s@[j as int]));
                assert(dval(s@[j as int]) >= 0);
                assert(digits_val(pre) * 10 >= digits_val(pre)) by (nonlinear_arith)
                    requires
                        digits_val(pre) > 0,
                ;
            }
        } else {
            acc = acc * 10 + d;
            if acc > 0x8000_0000_0000_0000 {
                too_big = true;
            }
        }
        j = j + 1;
        proof {
            assert(all_digits(s@.subrange(start as int, j as int)));
        }
    }
    proof {
        assert(s@.subrange(start as int, s@.len() as int) =~= ds);
        assert(all_digits(ds));
        lemma_parse_branch_shape(s@, start as int);
    }
    if too_big {
        return None;
    }
    if neg {
        proof {
            assert(s@[0] == '-' && start == 1);
        }
        if acc == 0x8000_0000_0000_0000 {
            return Some(i64::MIN);
        }
        let v: i64 = -((acc as u64) as i64);
        return Some(v);
    }
    if acc > 0x7fff_ffff_ffff_ffff {
        return None;
    }
    Some(acc as u64 as i64)
}

/// Relates the sign prefix of `s` to the digit tail that
/// `parse_i64_spec` inspects.
proof fn lemma_parse_branch_shape(s: Seq<char>, start: int)
    requires
        s.len() > start,
        start == 0 || start == 1,
        start == 1 ==> s[0] == '-' || s[0] == '+',
        start == 0 ==> s.len() > 0 && s[0] != '-' && s[0] != '+',
    ensures
        s[0] == '-' && start == 1 ==> parse_i64_spec(s) == spec_parse_tail(
            s.skip(1),
            -0x8000_0000_0000_0000,
            true,
        ),
        s[0] == '+' && start == 1 ==> parse_i64_spec(s) == spec_parse_tail(
            s.skip(1),
            0x7fff_ffff_ffff_ffff,
            false,
        ),
        start == 0 ==> parse_i64_spec(s) == spec_parse_tail(s, 0x7fff_ffff_ffff_ffff, false)
            && s.skip(0) == s,
{
    assert(s.skip(0) =~= s);
}

/// The digit-tail part of integer parsing: all digits, value within the
/// bound given by the sign.
pub open spec fn spec_parse_tail(ds: Seq<char>, bound: int, neg: bool) -> Option<int> {
    if ds.len() > 0 && all_digits(ds) && (if neg {
        -digits_val(ds) >= bound
    } else {
        digits_val(ds) <= bound
    }) {
        if neg {
            Some(-digits_val(ds))
        } else {
            Some(digits_val(ds))
        }
    } else {
        None
    }
}

/// Evaluate one recognised call against a fixed `today`.
fn eval_call(cap: &Vec<char>, today: &Date) -> (r: Result<String, String>)
    requires
        today.valid(),
    ensures
        match r {
            Ok(v) => eval_call_spec(cap@, *today) == Ok::<Seq<char>, Seq<char>>(v@),
            Err(m) => eval_call_spec(cap@, *today) == Err::<Seq<char>, Seq<char>>(m@),
        },
{
    let current = str_to_chars("current_date()");
    if chars_eq(cap, &current) {
        return Ok(format_date(today));
    }
    let few_prefix = str_to_chars("few_date_ago(");
    if cap.len() >= 14 && matches_at(cap, 0, &few_prefix) && cap[cap.len() - 1] == ')' {
        proof {
            reveal_strlit("few_date_ago(");
            assert(cap@.subrange(0, 13) =~= "few_date_ago("@);
            assert(cap@.last() == ')');
        }
        let args = subvec(cap, 13, cap.len() - 1);
        match parse_i64_chars(&args) {
            Some(n) => {
                if n < 0 {
                    return Err(String::from_str("days must be non-negative"));
                }
                match minus_days(today, n as u64) {
                    Some(x) => Ok(format_date(&x)),
                    None => Err(String::from_str("date out of range")),
                }
            },
            None => {
                let msg = chars_to_string(&args);
                Err(String::from_str("Invalid argument: ").concat(msg.as_str()))
            },
        }
    } else {
        proof {
            if cap@.len() >= 14 && cap@.subrange(0, 13) == "few_date_ago("@ && cap@.last()
                == ')' {
                assert(occurs_at(cap@, "few_date_ago("@, 0)) by {
                    reveal_strlit("few_date_ago(");
                }
            }
        }
        let msg = chars_to_string(cap);
        Err(String::from_str("Unknown function: ").concat(msg.as_str()))
    }
}

/// Extract every template call from `text`, in order of appearance.
///
/// Each entry is the call text without the surrounding braces, such as
/// `current_date()`.
pub fn extract_function_names(text: &str) -> (r: Result<Vec<String>, ApitapError>)
    ensures
        r matches Ok(v) && v.deep_view() == captures_from(text@, 0),
{
    let s = str_to_chars(text);
    let mut out: Vec<String> = Vec::new();
    let mut i: usize = 0;
    while i < s.len()
        invariant
            i <= s@.len(),
            s@ == text@,
            captures_from(s@, 0) == out.deep_view() + captures_from(s@, i as int),
        decreases s@.len() - i,
    {
        match try_match(&s, i) {
            Some(m) => {
                let cap = subvec(&s, m.0, m.1);
                let ghost out0 = out.deep_view();
                out.push(chars_to_string(&cap));
                proof {
                    assert(out.deep_view() =~= out0.push(cap@));
                    assert(out0.push(cap@) =~= out0 + seq![s@.subrange(m.0 as int, m.1 as int)]);
                    assert((out0 + seq![s@.subrange(m.0 as int, m.1 as int)]) + captures_from(
                        s@,
                        m.2 as int,
                    ) =~= out0 + (seq![s@.subrange(m.0 as int, m.1 as int)] + captures_from(
                        s@,
                        m.2 as int,
                    )));
                }
                i = m.2;
            },
            None => {
                i = i + 1;
            },
        }
    }
    proof {
        assert(captures_from(s@, i as int) =~= Seq::<Seq<char>>::empty());
        assert(out.deep_view() + Seq::<Seq<char>>::empty() =~= out.deep_view());
    }
    Ok(out)
}

/// Substitute every template call in `text` against a fixed `today`.
pub fn substitute_templates_with(text: &str, today: &Date) -> (r: Result<String, ApitapError>)
    requires
        today.valid(),
    ensures
        match r {
            Ok(v) => subst_from(text@, 0, *today) == Ok::<Seq<char>, Seq<char>>(v@),
            Err(e) => {
                &&& e matches ApitapError::PipelineError(m)
                &&& subst_from(text@, 0, *today) == Err::<Seq<char>, Seq<char>>(m@)
            },
        },
{
    let s = str_to_chars(text);
    let mut out: Vec<char> = Vec::new();
    let mut i: usize = 0;
    while i < s.len()
        invariant
            i <= s@.len(),
            s@ == text@,
            today.valid(),
            subst_from(s@, 0, *today) == subst_bind(out@, subst_from(s@, i as int, *today)),
        decreases s@.len() - i,
    {
        let ghost i0 = i as int;
        match try_match(&s, i) {
            Some(m) => {
                let cap = subvec(&s, m.0, m.1);
                match eval_call(&cap, today) {
                    Ok(v) => {
                        proof {
                            assert(subst_from(s@, i0, *today) == subst_bind(
                                v@,
                                subst_from(s@, m.2 as int, *today),
                            ));
                        }
                        let vc = str_to_chars(v.as_str());
                        let ghost out0 = out@;
                        crate::strutil::push_chars(&mut out, &vc);
                        proof {
                            lemma_bind_assoc(out0, v@, subst_from(s@, m.2 as int, *today));
                        }
                        i = m.2;
                    },
                    Err(msg) => {
                        proof {
                            assert(subst_from(s@, i0, *today) == Err::<Seq<char>, Seq<char>>(
                                msg@,
                            ));
                        }
                        return Err(ApitapError::PipelineError(msg));
                    },
                }
            },
            None => {
                proof {
                    assert(subst_from(s@, i0, *today) == subst_bind(
                        seq![s@[i0]],
                        subst_from(s@, i0 + 1, *today),
                    ));
                }
                let ghost out0 = out@;
                out.push(s[i]);
                i = i + 1;
                proof {
                    assert(out@ =~= out0 + seq![s@[i0]]);
                    lemma_bind_assoc(out0, seq![s@[i0]], subst_from(s@, i0 + 1, *today));
                }
            },
        }
    }
    proof {
        assert(out@ + Seq::<char>::empty() =~= out@);
    }
    Ok(chars_to_string(&out))
}

/// Substitute every template call in `text`, reading today's date from
/// the local clock.
pub fn substitute_templates(text: &str) -> (r: Result<String, ApitapError>)
    ensures
        match r {
            Ok(v) => exists|t: Date|
                t.valid() && subst_from(text@, 0, t) == Ok::<Seq<char>, Seq<char>>(v@),
            Err(e) => {
                &&& e matches ApitapError::PipelineError(m)
                &&& exists|t: Date|
                    t.valid() && subst_from(text@, 0, t) == Err::<Seq<char>, Seq<char>>(m@)
            },
        },
{
    let today = local_today();
    substitute_templates_with(text, &today)
}

/// Evaluate one extracted call, as `{{ ... }}` substitution does: the
/// call `current_date()` yields today, `few_date_ago(n)` yields the date
/// `n` days back, anything else is rejected.
pub fn parse_function(input: &str) -> (r: Result<String, ApitapError>)
    ensures
        match r {
            Ok(v) => exists|t: Date|
                t.valid() && eval_call_spec(input@, t) == Ok::<Seq<char>, Seq<char>>(v@),
            Err(e) => {
                &&& e matches ApitapError::PipelineError(m)
                &&& exists|t: Date|
                    t.valid() && eval_call_spec(input@, t) == Err::<Seq<char>, Seq<char>>(m@)
            },
        },
{
    let today = local_today();
    let cap = str_to_chars(input);
    match eval_call(&cap, &today) {
        Ok(v) => Ok(v),
        Err(m) => Err(ApitapError::PipelineError(m)),
    }
}

/// Substitution is the identity on text without any template call.
pub proof fn lemma_subst_identity_no_captures(s: Seq<char>, i: int, today: Date)
    requires
        0 <= i <= s.len(),
        captures_from(s, i) == Seq::<Seq<char>>::empty(),
    ensures
        subst_from(s, i, today) == Ok::<Seq<char>, Seq<char>>(s.skip(i)),
    decreases s.len() - i,
{
    if i >= s.len() {
        assert(s.skip(i) =~= Seq::<char>::empty());
    } else {
        match match_at(s, i) {
            Some(m) => {
                assert(captures_from(s, i) == seq![s.subrange(m.0, m.1)] + captures_from(
                    s,
                    m.2,
                ));
                assert(captures_from(s, i).len() > 0);
            },
            None => {
                lemma_subst_identity_no_captures(s, i + 1, today);
                assert(seq![s[i]] + s.skip(i + 1) =~= s.skip(i));
            },
        }
    }
}

/// Substituting a second time changes nothing, whenever the first
/// substitution's output holds no template call. Inputs without nested
/// braces leave no call in their output, so substitution is idempotent
/// on them.
pub proof fn lemma_substitute_idempotent(x: Seq<char>, y: Seq<char>, today: Date)
    requires
        subst_from(x, 0, today) == Ok::<Seq<char>, Seq<char>>(y),
        captures_from(y, 0) == Seq::<Seq<char>>::empty(),
    ensures
        subst_from(y, 0, today) == Ok::<Seq<char>, Seq<char>>(y),
{
    lemma_subst_identity_no_captures(y, 0, today);
    assert(y.skip(0) =~= y);
}

/// Text without an opening brace holds no template call.
pub proof fn lemma_no_brace_no_captures(s: Seq<char>, i: int)
    requires
        0 <= i <= s.len(),
        forall|j: int| 0 <= j < s.len() ==> s[j] != '{',
    ensures
        captures_from(s, i) == Seq::<Seq<char>>::empty(),
    decreases s.len() - i,
{
    if i < s.len() {
        assert(match_at(s, i) is None);
        lemma_no_brace_no_captures(s, i + 1);
    }
}

/// Substitution is idempotent on outputs without an opening brace: once
/// the output of a successful substitution holds no `{`, substituting
/// it again changes nothing.
pub proof fn lemma_substitute_idempotent_no_braces(x: Seq<char>, y: Seq<char>, today: Date)
    requires
        subst_from(x, 0, today) == Ok::<Seq<char>, Seq<char>>(y),
        forall|j: int| 0 <= j < y.len() ==> y[j] != '{',
    ensures
        subst_from(y, 0, today) == Ok::<Seq<char>, Seq<char>>(y),
{
    lemma_no_brace_no_captures(y, 0);
    lemma_substitute_idempotent(x, y, today);
}

/// Text without nested braces: every opening brace either starts a
/// template call or is the second character of one's `{{`. A brace
/// inside a call's span would itself have to start a call.
pub open spec fn braces_covered(s: Seq<char>) -> bool {
    forall|p: int|
        0 <= p < s.len() && #[trigger] s[p] == '{' ==> match_at(s, p) is Some || (p >= 1 && s[p
            - 1] == '{' && match_at(s, p - 1) is Some)
}

/// A recognised call ends with `}}`.
proof fn lemma_match_end_chars(s: Seq<char>, i: int)
    requires
        0 <= i <= s.len(),
        match_at(s, i) is Some,
    ensures
        s[match_at(s, i)->Some_0.2 - 1] == '}',
        s[match_at(s, i)->Some_0.2 - 2] == '}',
{
    lemma_match_at_bounds(s, i);
}

/// A successful call evaluation yields a rendered date, which holds no
/// opening brace.
proof fn lemma_eval_ok_no_brace(cap: Seq<char>, today: Date)
    requires
        eval_call_spec(cap, today) is Ok,
    ensures
        forall|j: int|
            0 <= j < eval_call_spec(cap, today)->Ok_0.len() ==> #[trigger] eval_call_spec(
                cap,
                today,
            )->Ok_0[j] != '{',
{
    let v = eval_call_spec(cap, today)->Ok_0;
    if cap == "current_date()"@ {
        crate::dates::lemma_format_no_brace(today);
    } else {
        let args = cap.subrange(13, cap.len() - 1);
        let n = parse_i64_spec(args)->Some_0;
        let x = minus_days_spec(today, n as nat)->Some_0;
        crate::dates::lemma_format_no_brace(x);
    }
}

/// Over covered input the substitution's output holds no opening brace:
/// every brace of the input lies in a call that is consumed whole, and
/// the values substituted in are rendered dates.
proof fn lemma_subst_output_no_brace(s: Seq<char>, i: int, today: Date)
    requires
        0 <= i <= s.len(),
        braces_covered(s),
        i == 0 || s[i - 1] != '{' || match_at(s, i - 1) is None,
    ensures
        subst_from(s, i, today) matches Ok(y) ==> forall|j: int|
            0 <= j < y.len() ==> #[trigger] y[j] != '{',
    decreases s.len() - i,
{
    lemma_match_at_bounds(s, i);
    if i >= s.len() {
    } else {
        match match_at(s, i) {
            Some(m) => {
                lemma_match_end_chars(s, i);
                lemma_subst_output_no_brace(s, m.2, today);
                if subst_from(s, i, today) is Ok {
                    let y = subst_from(s, i, today)->Ok_0;
                    let v = eval_call_spec(s.subrange(m.0, m.1), today)->Ok_0;
                    let rest = subst_from(s, m.2, today)->Ok_0;
                    lemma_eval_ok_no_brace(s.subrange(m.0, m.1), today);
                    assert(y == v + rest);
                    assert forall|j: int| 0 <= j < y.len() implies #[trigger] y[j] != '{' by {
                        if j < v.len() {
                            assert(y[j] == v[j]);
                        } else {
                            assert(y[j] == rest[j - v.len()]);
                        }
                    }
                }
            },
            None => {
                assert(s[i] != '{') by {
                    if s[i] == '{' {
                        assert(match_at(s, i) is Some || (i >= 1 && s[i - 1] == '{' && match_at(
                            s,
                            i - 1,
                        ) is Some));
                    }
                }
                lemma_subst_output_no_brace(s, i + 1, today);
                if subst_from(s, i, today) is Ok {
                    let y = subst_from(s, i, today)->Ok_0;
                    let rest = subst_from(s, i + 1, today)->Ok_0;
                    assert(y == seq![s[i]] + rest);
                    assert forall|j: int| 0 <= j < y.len() implies #[trigger] y[j] != '{' by {
                        if j == 0 {
                            assert(y[j] == s[i]);
                        } else {
                            assert(y[j] == rest[j - 1]);
                        }
                    }
                }
            },
        }
    }
}

/// Substitution is idempotent on inputs without nested braces: when
/// every opening brace of the input belongs to a template call, a
/// successful substitution's output substitutes to itself.
pub proof fn lemma_substitute_templates_idempotent(x: Seq<char>, y: Seq<char>, today: Date)
    requires
        braces_covered(x),
        subst_from(x, 0, today) == Ok::<Seq<char>, Seq<char>>(y),
    ensures
        subst_from(y, 0, today) == Ok::<Seq<char>, Seq<char>>(y),
{
    lemma_subst_output_no_brace(x, 0, today);
    assert forall|j: int| 0 <= j < y.len() implies y[j] != '{' by {
        assert(subst_from(x, 0, today)->Ok_0 == y);
        assert(subst_from(x, 0, today)->Ok_0[j] != '{');
    }
    lemma_substitute_idempotent_no_braces(x, y, today);
}

} // verus!
