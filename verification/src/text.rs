//! Character-level scanning primitives over `&str`, with specification
//! functions on `Seq<char>` that the rest of the crate's contracts are
//! stated against: substring search, digit runs, whitespace trimming,
//! line and token splitting, and decimal evaluation.

use vstd::prelude::*;
use vstd::string::StrSliceExecFns;

verus! {

/// The decimal digits `'0'` through `'9'`.
pub open spec fn is_digit(c: char) -> bool {
    48 <= c as u32 && c as u32 <= 57
}

/// The whitespace characters recognised when trimming and tokenising:
/// space, tab, newline, carriage return, vertical tab and form feed.
pub open spec fn is_wspace(c: char) -> bool {
    c == ' ' || c == '\t' || c == '\n' || c == '\r' || c == '\u{b}' || c == '\u{c}'
}

pub open spec fn all_digits(s: Seq<char>) -> bool {
    forall|i: int| 0 <= i < s.len() ==> is_digit(s[i])
}

/// The needle `n` occurs in `h` starting at index `i`.
pub open spec fn matches_at(h: Seq<char>, n: Seq<char>, i: int) -> bool {
    &&& 0 <= i
    &&& i + n.len() <= h.len()
    &&& forall|j: int| 0 <= j < n.len() ==> h[i + j] == n[j]
}

/// Index of the first occurrence of `n` in `h` at or after `i`, if any.
pub open spec fn find_from(h: Seq<char>, n: Seq<char>, i: int) -> Option<int>
    decreases h.len() - i when 0 <= i <= h.len()
{
    if i + n.len() > h.len() {
        None
    } else if matches_at(h, n, i) {
        Some(i)
    } else {
        find_from(h, n, i + 1)
    }
}

pub open spec fn contains_seq(h: Seq<char>, n: Seq<char>) -> bool {
    find_from(h, n, 0) is Some
}

/// Index of the last occurrence of `n` in `h` at or before `i`, if any.
pub open spec fn rfind_at(h: Seq<char>, n: Seq<char>, i: int) -> Option<int>
    decreases i + 1 when -1 <= i
{
    if i < 0 {
        None
    } else if matches_at(h, n, i) {
        Some(i)
    } else {
        rfind_at(h, n, i - 1)
    }
}

/// Index of the last occurrence of `n` in `h`, if any.
pub open spec fn rfind_seq(h: Seq<char>, n: Seq<char>) -> Option<int> {
    if n.len() <= h.len() {
        rfind_at(h, n, h.len() - n.len())
    } else {
        None
    }
}

pub open spec fn ends_with_seq(h: Seq<char>, n: Seq<char>) -> bool {
    matches_at(h, n, h.len() - n.len())
}

/// Index of the first digit at or after `i`, or `s.len()` if there is none.
pub open spec fn next_digit(s: Seq<char>, i: int) -> int
    decreases s.len() - i when 0 <= i <= s.len()
{
    if i >= s.len() {
        s.len() as int
    } else if is_digit(s[i]) {
        i
    } else {
        next_digit(s, i + 1)
    }
}

/// End of the digit run beginning at `i`: the first non-digit index at or
/// after `i`, or `s.len()`.
pub open spec fn run_end(s: Seq<char>, i: int) -> int
    decreases s.len() - i when 0 <= i <= s.len()
{
    if i < s.len() && is_digit(s[i]) {
        run_end(s, i + 1)
    } else {
        i
    }
}

/// First non-whitespace index at or after `i`, or `s.len()`.
pub open spec fn skip_ws(s: Seq<char>, i: int) -> int
    decreases s.len() - i when 0 <= i <= s.len()
{
    if i < s.len() && is_wspace(s[i]) {
        skip_ws(s, i + 1)
    } else {
        i
    }
}

/// Start of the maximal whitespace run ending just before `i`.
pub open spec fn ws_start_back(s: Seq<char>, i: int) -> int
    decreases i when 0 <= i <= s.len()
{
    if i > 0 && is_wspace(s[i - 1]) {
        ws_start_back(s, i - 1)
    } else {
        i
    }
}

/// End of the maximal non-whitespace run beginning at `i`.
pub open spec fn token_end(s: Seq<char>, i: int) -> int
    decreases s.len() - i when 0 <= i <= s.len()
{
    if i < s.len() && !is_wspace(s[i]) {
        token_end(s, i + 1)
    } else {
        i
    }
}

/// `s` with leading and trailing whitespace removed.
pub open spec fn trim_seq(s: Seq<char>) -> Seq<char> {
    let a = skip_ws(s, 0);
    let b = ws_start_back(s, s.len() as int);
    if a <= b {
        s.subrange(a, b)
    } else {
        Seq::empty()
    }
}

/// `s` without a trailing carriage return, if it has one.
pub open spec fn strip_cr(s: Seq<char>) -> Seq<char> {
    if s.len() > 0 && s.last() == '\r' {
        s.drop_last()
    } else {
        s
    }
}

/// Index of the next line feed at or after `i`, or `s.len()`.
pub open spec fn find_nl(s: Seq<char>, i: int) -> int
    decreases s.len() - i when 0 <= i <= s.len()
{
    if i >= s.len() {
        s.len() as int
    } else if s[i] == '\n' {
        i
    } else {
        find_nl(s, i + 1)
    }
}

/// The lines of `s` from index `i` on: chunks split at line feeds, each with
/// a trailing carriage return removed, the final line ending optional.
pub open spec fn lines_from(s: Seq<char>, i: int) -> Seq<Seq<char>>
    decreases s.len() - i when 0 <= i <= s.len()
{
    if i >= s.len() {
        Seq::empty()
    } else {
        let j = find_nl(s, i);
        if i <= j <= s.len() {
            if j < s.len() {
                seq![strip_cr(s.subrange(i, j))] + lines_from(s, j + 1)
            } else {
                seq![strip_cr(s.subrange(i, j))]
            }
        } else {
            Seq::empty()
        }
    }
}

/// The whitespace-separated tokens of `s` from index `i` on.
pub open spec fn tokens_from(s: Seq<char>, i: int) -> Seq<Seq<char>>
    decreases s.len() - i when 0 <= i <= s.len()
{
    if i >= s.len() {
        Seq::empty()
    } else if is_wspace(s[i]) {
        tokens_from(s, i + 1)
    } else {
        let e = token_end(s, i);
        if i < e <= s.len() {
            seq![s.subrange(i, e)] + tokens_from(s, e)
        } else {
            Seq::empty()
        }
    }
}

pub proof fn lemma_token_end_bounds(s: Seq<char>, i: int)
    requires
        0 <= i <= s.len(),
    ensures
        i <= token_end(s, i) <= s.len(),
    decreases s.len() - i,
{
    if i < s.len() && !is_wspace(s[i]) {
        lemma_token_end_bounds(s, i + 1);
    }
}

pub proof fn lemma_run_end_bounds(s: Seq<char>, i: int)
    requires
        0 <= i <= s.len(),
    ensures
        i <= run_end(s, i) <= s.len(),
    decreases s.len() - i,
{
    if i < s.len() && is_digit(s[i]) {
        lemma_run_end_bounds(s, i + 1);
    }
}

pub proof fn lemma_skip_ws_bounds(s: Seq<char>, i: int)
    requires
        0 <= i <= s.len(),
    ensures
        i <= skip_ws(s, i) <= s.len(),
    decreases s.len() - i,
{
    if i < s.len() && is_wspace(s[i]) {
        lemma_skip_ws_bounds(s, i + 1);
    }
}

pub proof fn lemma_ws_start_back_bounds(s: Seq<char>, i: int)
    requires
        0 <= i <= s.len(),
    ensures
        0 <= ws_start_back(s, i) <= i,
    decreases i,
{
    if i > 0 && is_wspace(s[i - 1]) {
        lemma_ws_start_back_bounds(s, i - 1);
    }
}

/// Value of a digit sequence read as a decimal numeral.
pub open spec fn dec_val(s: Seq<char>) -> int
    decreases s.len(),
{
    if s.len() == 0 {
        0
    } else {
        dec_val(s.drop_last()) * 10 + (s.last() as u32) - 48
    }
}

pub fn digit(c: char) -> (r: bool)
    ensures
        r == is_digit(c),
{
    let u = c as u32;
    48 <= u && u <= 57
}

pub fn wspace(c: char) -> (r: bool)
    ensures
        r == is_wspace(c),
{
    c == ' ' || c == '\t' || c == '\n' || c == '\r' || c == '\u{b}' || c == '\u{c}'
}

pub fn check_all_digits(s: &str) -> (r: bool)
    ensures
        r == all_digits(s@),
{
    let n = s.unicode_len();
    let mut i: usize = 0;
    while i < n
        invariant
            n == s@.len(),
            i <= n,
            forall|k: int| 0 <= k < i ==> is_digit(s@[k]),
        decreases n - i,
    {
        if !digit(s.get_char(i)) {
            return false;
        }
        i += 1;
    }
    true
}

/// First occurrence of `pat` in `s` at or after `from`.
pub fn find_sub(s: &str, pat: &str, from: usize) -> (r: Option<usize>)
    requires
        from <= s@.len(),
    ensures
        match r {
            Some(j) => find_from(s@, pat@, from as int) == Some(j as int) && j <= s@.len(),
            None => find_from(s@, pat@, from as int) is None,
        },
{
    let n = s.unicode_len();
    let m = pat.unicode_len();
    if m > n || from > n - m {
        assert(find_from(s@, pat@, from as int) is None);
        return None;
    }
    if m == 0 {
        assert(matches_at(s@, pat@, from as int));
        return Some(from);
    }
    let mut i: usize = from;
    while i <= n - m
        invariant
            n == s@.len(),
            m == pat@.len(),
            1 <= m <= n,
            from <= i <= n - m + 1,
            find_from(s@, pat@, from as int) == find_from(s@, pat@, i as int),
        decreases n - i,
    {
        let mut j: usize = 0;
        let mut hit = true;
        while j < m
            invariant
                n == s@.len(),
                m == pat@.len(),
                i + m <= n,
                j <= m,
                hit ==> forall|k: int| 0 <= k < j ==> s@[i + k] == pat@[k],
                !hit ==> !matches_at(s@, pat@, i as int),
            decreases m - j,
        {
            if s.get_char(i + j) != pat.get_char(j) {
                hit = false;
                j = m;
            } else {
                j += 1;
            }
        }
        if hit {
            assert(matches_at(s@, pat@, i as int));
            return Some(i);
        }
        assert(!matches_at(s@, pat@, i as int));
        i += 1;
    }
    assert(find_from(s@, pat@, i as int) is None);
    None
}

pub fn contains_sub(s: &str, pat: &str) -> (r: bool)
    ensures
        r == contains_seq(s@, pat@),
{
    find_sub(s, pat, 0).is_some()
}

/// Last occurrence of `pat` in `s`.
pub fn rfind_sub(s: &str, pat: &str) -> (r: Option<usize>)
    ensures
        match r {
            Some(j) => rfind_seq(s@, pat@) == Some(j as int) && j <= s@.len(),
            None => rfind_seq(s@, pat@) is None,
        },
{
    let n = s.unicode_len();
    let m = pat.unicode_len();
    if m > n {
        return None;
    }
    let mut i: usize = n - m;
    loop
        invariant
            n == s@.len(),
            m == pat@.len(),
            m <= n,
            i <= n - m,
            rfind_seq(s@, pat@) == rfind_at(s@, pat@, i as int),
        decreases i + 1,
    {
        let mut j: usize = 0;
        let mut hit = true;
        while j < m
            invariant
                n == s@.len(),
                m == pat@.len(),
                i + m <= n,
                j <= m,
                hit ==> forall|k: int| 0 <= k < j ==> s@[i + k] == pat@[k],
                !hit ==> !matches_at(s@, pat@, i as int),
            decreases m - j,
        {
            if s.get_char(i + j) != pat.get_char(j) {
                hit = false;
                j = m;
            } else {
                j += 1;
            }
        }
        if hit {
            assert(matches_at(s@, pat@, i as int));
            return Some(i);
        }
        assert(!matches_at(s@, pat@, i as int));
        if i == 0 {
            assert(rfind_at(s@, pat@, -1) is None);
            return None;
        }
        i -= 1;
    }
}

pub fn ends_with_sub(s: &str, pat: &str) -> (r: bool)
    ensures
        r == ends_with_seq(s@, pat@),
{
    let n = s.unicode_len();
    let m = pat.unicode_len();
    if m > n {
        return false;
    }
    let i = n - m;
    let mut j: usize = 0;
    while j < m
        invariant
            n == s@.len(),
            m == pat@.len(),
            i == n - m,
            j <= m,
            forall|k: int| 0 <= k < j ==> s@[i + k] == pat@[k],
        decreases m - j,
    {
        if s.get_char(i + j) != pat.get_char(j) {
            assert(!matches_at(s@, pat@, i as int));
            return false;
        }
        j += 1;
    }
    assert(matches_at(s@, pat@, i as int));
    true
}

pub fn next_digit_at(s: &str, i: usize) -> (r: usize)
    requires
        i <= s@.len(),
    ensures
        r == next_digit(s@, i as int),
        i <= r <= s@.len(),
{
    let n = s.unicode_len();
    let mut j: usize = i;
    while j < n
        invariant
            i <= j <= n,
            n == s@.len(),
            next_digit(s@, i as int) == next_digit(s@, j as int),
        decreases n - j,
    {
        if digit(s.get_char(j)) {
            return j;
        }
        j += 1;
    }
    j
}

pub fn run_end_at(s: &str, i: usize) -> (r: usize)
    requires
        i <= s@.len(),
    ensures
        r == run_end(s@, i as int),
        i <= r <= s@.len(),
{
    let n = s.unicode_len();
    let mut j: usize = i;
    while j < n
        invariant
            i <= j <= n,
            n == s@.len(),
            run_end(s@, i as int) == run_end(s@, j as int),
        decreases n - j,
    {
        if !digit(s.get_char(j)) {
            return j;
        }
        j += 1;
    }
    j
}

pub fn skip_ws_at(s: &str, i: usize) -> (r: usize)
    requires
        i <= s@.len(),
    ensures
        r == skip_ws(s@, i as int),
        i <= r <= s@.len(),
{
    let n = s.unicode_len();
    let mut j: usize = i;
    while j < n
        invariant
            i <= j <= n,
            n == s@.len(),
            skip_ws(s@, i as int) == skip_ws(s@, j as int),
        decreases n - j,
    {
        if !wspace(s.get_char(j)) {
            return j;
        }
        j += 1;
    }
    j
}

pub fn token_end_at(s: &str, i: usize) -> (r: usize)
    requires
        i <= s@.len(),
    ensures
        r == token_end(s@, i as int),
        i <= r <= s@.len(),
{
    let n = s.unicode_len();
    let mut j: usize = i;
    while j < n
        invariant
            i <= j <= n,
            n == s@.len(),
            token_end(s@, i as int) == token_end(s@, j as int),
        decreases n - j,
    {
        if wspace(s.get_char(j)) {
            return j;
        }
        j += 1;
    }
    j
}

pub fn find_nl_at(s: &str, i: usize) -> (r: usize)
    requires
        i <= s@.len(),
    ensures
        r == find_nl(s@, i as int),
        i <= r <= s@.len(),
{
    let n = s.unicode_len();
    let mut j: usize = i;
    while j < n
        invariant
            i <= j <= n,
            n == s@.len(),
            find_nl(s@, i as int) == find_nl(s@, j as int),
        decreases n - j,
    {
        if s.get_char(j) == '\n' {
            return j;
        }
        j += 1;
    }
    j
}

pub fn ws_back_at(s: &str, i: usize) -> (r: usize)
    requires
        i <= s@.len(),
    ensures
        r == ws_start_back(s@, i as int),
        r <= i,
{
    let mut j: usize = i;
    while j > 0
        invariant
            j <= i <= s@.len(),
            ws_start_back(s@, i as int) == ws_start_back(s@, j as int),
        decreases j,
    {
        if !wspace(s.get_char(j - 1)) {
            return j;
        }
        j -= 1;
    }
    j
}

pub proof fn lemma_skip_ws_stop(s: Seq<char>, i: int)
    requires
        0 <= i <= s.len(),
    ensures
        skip_ws(s, i) == s.len() || (skip_ws(s, i) < s.len() && !is_wspace(s[skip_ws(s, i)])),
    decreases s.len() - i,
{
    if i < s.len() && is_wspace(s[i]) {
        lemma_skip_ws_stop(s, i + 1);
    } else {
        lemma_skip_ws_bounds(s, i);
    }
}

pub proof fn lemma_ws_start_back_above(s: Seq<char>, i: int, k: int)
    requires
        0 <= k < i <= s.len(),
        !is_wspace(s[k]),
    ensures
        ws_start_back(s, i) >= k + 1,
    decreases i,
{
    if i > 0 && is_wspace(s[i - 1]) {
        lemma_ws_start_back_above(s, i - 1, k);
    }
}

/// Leading and trailing whitespace removed; the returned slice views as
/// `trim_seq` of the argument's view.
pub fn trim_of(s: &str) -> (r: &str)
    ensures
        r@ == trim_seq(s@),
{
    let n = s.unicode_len();
    let a = skip_ws_at(s, 0);
    if a == n {
        proof {
            lemma_ws_start_back_bounds(s@, n as int);
        }
        return s.substring_char(n, n);
    }
    proof {
        lemma_skip_ws_stop(s@, 0);
        lemma_ws_start_back_above(s@, n as int, a as int);
    }
    let b = ws_back_at(s, n);
    s.substring_char(a, b)
}

/// The lines of `s`, as `str::lines` yields them: split at line feeds, a
/// trailing carriage return removed from each, the final line ending
/// optional.
pub fn split_lines<'a>(s: &'a str) -> (r: Vec<&'a str>)
    ensures
        r@.map_values(|t: &str| t@) == lines_from(s@, 0),
{
    let n = s.unicode_len();
    let mut out: Vec<&str> = Vec::new();
    let mut i: usize = 0;
    proof {
        assert(lines_from(s@, 0) =~= out@.map_values(|t: &str| t@) + lines_from(s@, 0));
    }
    while i < n
        invariant
            i <= n,
            n == s@.len(),
            lines_from(s@, 0) =~= out@.map_values(|t: &str| t@) + lines_from(s@, i as int),
        decreases n - i,
    {
        let ghost out0 = out@;
        let j = find_nl_at(s, i);
        let line = if j > i && s.get_char(j - 1) == '\r' {
            s.substring_char(i, j - 1)
        } else {
            s.substring_char(i, j)
        };
        proof {
            if j > i && s@[j - 1] == '\r' {
                assert(s@.subrange(i as int, j as int).drop_last() =~= s@.subrange(
                    i as int,
                    j - 1,
                ));
            }
            assert(line@ == strip_cr(s@.subrange(i as int, j as int)));
        }
        out.push(line);
        proof {
            assert(out@.map_values(|t: &str| t@) =~= out0.map_values(|t: &str| t@) + seq![
                line@,
            ]);
        }
        if j < n {
            i = j + 1;
        } else {
            i = n;
        }
        proof {
            assert(lines_from(s@, 0) =~= out@.map_values(|t: &str| t@) + lines_from(
                s@,
                i as int,
            ));
        }
    }
    out
}

/// The whitespace-separated tokens of `s`, as `str::split_whitespace`
/// yields them.
pub fn split_tokens<'a>(s: &'a str) -> (r: Vec<&'a str>)
    ensures
        r@.map_values(|t: &str| t@) == tokens_from(s@, 0),
{
    let n = s.unicode_len();
    let mut out: Vec<&str> = Vec::new();
    let mut i: usize = 0;
    proof {
        assert(tokens_from(s@, 0) =~= out@.map_values(|t: &str| t@) + tokens_from(s@, 0));
    }
    while i < n
        invariant
            i <= n,
            n == s@.len(),
            tokens_from(s@, 0) =~= out@.map_values(|t: &str| t@) + tokens_from(s@, i as int),
        decreases n - i,
    {
        if wspace(s.get_char(i)) {
            i += 1;
        } else {
            let ghost out0 = out@;
            proof {
                lemma_token_end_bounds(s@, i + 1);
            }
            let e = token_end_at(s, i);
            let tok = s.substring_char(i, e);
            out.push(tok);
            proof {
                assert(out@.map_values(|t: &str| t@) =~= out0.map_values(|t: &str| t@) + seq![
                    tok@,
                ]);
                assert(tokens_from(s@, 0) =~= out@.map_values(|t: &str| t@) + tokens_from(
                    s@,
                    e as int,
                ));
            }
            i = e;
        }
    }
    out
}

pub proof fn lemma_next_digit_stop(s: Seq<char>, i: int)
    requires
        0 <= i <= s.len(),
    ensures
        next_digit(s, i) == s.len() || (next_digit(s, i) < s.len() && is_digit(
            s[next_digit(s, i)],
        )),
    decreases s.len() - i,
{
    if i < s.len() && !is_digit(s[i]) {
        lemma_next_digit_stop(s, i + 1);
    }
}

pub proof fn lemma_run_all_digits(s: Seq<char>, i: int)
    requires
        0 <= i <= s.len(),
    ensures
        forall|k: int| i <= k < run_end(s, i) ==> is_digit(s[k]),
    decreases s.len() - i,
{
    lemma_run_end_bounds(s, i);
    if i < s.len() && is_digit(s[i]) {
        lemma_run_all_digits(s, i + 1);
    }
}

pub proof fn lemma_find_from_some(h: Seq<char>, n: Seq<char>, i: int, j: int)
    requires
        0 <= i <= h.len(),
        find_from(h, n, i) == Some(j),
    ensures
        matches_at(h, n, j),
        i <= j,
    decreases h.len() - i,
{
    if i + n.len() <= h.len() && !matches_at(h, n, i) {
        lemma_find_from_some(h, n, i + 1, j);
    }
}

pub proof fn lemma_rfind_at_some(h: Seq<char>, n: Seq<char>, i: int, j: int)
    requires
        -1 <= i,
        rfind_at(h, n, i) == Some(j),
    ensures
        matches_at(h, n, j),
        j <= i,
    decreases i + 1,
{
    if i >= 0 && !matches_at(h, n, i) {
        lemma_rfind_at_some(h, n, i - 1, j);
    }
}

pub proof fn lemma_dec_val_nonneg(s: Seq<char>)
    requires
        all_digits(s),
    ensures
        dec_val(s) >= 0,
    decreases s.len(),
{
    if s.len() > 0 {
        assert(all_digits(s.drop_last()));
        lemma_dec_val_nonneg(s.drop_last());
    }
}

pub proof fn lemma_dec_val_prefix_mono(s: Seq<char>, i: int, j: int)
    requires
        all_digits(s),
        0 <= i <= j <= s.len(),
    ensures
        dec_val(s.subrange(0, i)) <= dec_val(s.subrange(0, j)),
    decreases j - i,
{
    if i < j {
        lemma_dec_val_prefix_mono(s, i, j - 1);
        assert(s.subrange(0, j).drop_last() =~= s.subrange(0, j - 1));
        assert(all_digits(s.subrange(0, j - 1)));
        lemma_dec_val_nonneg(s.subrange(0, j - 1));
    }
}

/// Decimal value of the digit run `s[a..b)`, if it fits in a `u64`.
pub fn parse_u64_range(s: &str, a: usize, b: usize) -> (r: Option<u64>)
    requires
        a <= b <= s@.len(),
        all_digits(s@.subrange(a as int, b as int)),
    ensures
        ({
            let v = dec_val(s@.subrange(a as int, b as int));
            if v <= u64::MAX {
                r == Some(v as u64)
            } else {
                r is None
            }
        }),
{
    let ghost t = s@.subrange(a as int, b as int);
    let max10 = u64::MAX / 10;
    let maxl = u64::MAX % 10;
    let mut acc: u64 = 0;
    let mut i: usize = a;
    proof {
        assert(t.subrange(0, 0) =~= Seq::<char>::empty());
    }
    while i < b
        invariant
            a <= i <= b <= s@.len(),
            t == s@.subrange(a as int, b as int),
            all_digits(t),
            max10 == u64::MAX / 10,
            maxl == u64::MAX % 10,
            acc == dec_val(t.subrange(0, i - a)),
        decreases b - i,
    {
        let c = s.get_char(i);
        proof {
            assert(t[i - a] == s@[i as int]);
        }
        let d = (c as u32 - 48) as u64;
        let ghost pre = t.subrange(0, i - a);
        proof {
            assert(t.subrange(0, i - a + 1).drop_last() =~= pre);
            assert(t.subrange(0, i - a + 1).last() == t[i - a]);
        }
        if acc > max10 || (acc == max10 && d > maxl) {
            proof {
                assert(dec_val(t.subrange(0, i - a + 1)) > u64::MAX);
                lemma_dec_val_prefix_mono(t, i - a + 1, t.len() as int);
                assert(t.subrange(0, t.len() as int) =~= t);
            }
            return None;
        }
        acc = acc * 10 + d;
        i += 1;
    }
    proof {
        assert(t.subrange(0, (b - a) as int) =~= t);
    }
    Some(acc)
}

} // verus!
