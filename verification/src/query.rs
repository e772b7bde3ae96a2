//! Resolution of process, package, property and memory-map queries over the
//! device's line-oriented textual listings.  Each function takes the listing
//! text as a plain string; obtaining that text from the device is I/O and
//! lives outside this crate.

use vstd::prelude::*;
use vstd::string::StringExecFns;
use vstd::string::StrSliceExecFns;
use crate::command::UtilError;
use crate::text::{
    all_digits, contains_seq, ends_with_seq, find_from, lines_from, rfind_seq, tokens_from,
    trim_seq,
};
use crate::text::{
    check_all_digits, contains_sub, ends_with_sub, find_sub, lemma_find_from_some,
    lemma_rfind_at_some, rfind_sub, split_lines, split_tokens, trim_of,
};

verus! {

/// The whitespace-delimited columns of one process-listing line.
pub open spec fn ps_line_tokens(line: Seq<char>) -> Seq<Seq<char>> {
    tokens_from(trim_seq(line), 0)
}

/// A process-listing line matches `s` when it has at least two columns and
/// its last column (the process name) contains `s` as a substring.
pub open spec fn ps_line_match(line: Seq<char>, s: Seq<char>) -> bool {
    let t = ps_line_tokens(line);
    t.len() >= 2 && contains_seq(t.last(), s)
}

/// The pid (second column) and name (last column) of the first matching
/// line at or after index `i`, in listing order.
pub open spec fn ps_first(lines: Seq<Seq<char>>, s: Seq<char>, i: int) -> Option<(Seq<char>, Seq<
    char,
>)>
    decreases lines.len() - i when 0 <= i <= lines.len()
{
    if i >= lines.len() {
        None
    } else if ps_line_match(lines[i], s) {
        Some((ps_line_tokens(lines[i])[1], ps_line_tokens(lines[i]).last()))
    } else {
        ps_first(lines, s, i + 1)
    }
}

/// Scans a `ps -e` style process listing for the first line whose last
/// column contains `s`, returning that line's pid and name columns, and
/// `NotFound` when no line matches.
pub fn fuzzy_runing(s: &str, listing: &str) -> (r: Result<(String, String), UtilError>)
    ensures
        match ps_first(lines_from(listing@, 0), s@, 0) {
            Some(q) => r matches Ok(p) && p.0@ == q.0 && p.1@ == q.1,
            None => r matches Err(UtilError::NotFound { wanted }) && wanted@ == s@,
        },
{
    let lines = split_lines(listing);
    let ghost lq = lines_from(listing@, 0);
    let mut k: usize = 0;
    while k < lines.len()
        invariant
            k <= lines.len(),
            lq == lines_from(listing@, 0),
            lines@.map_values(|t: &str| t@) == lq,
            ps_first(lq, s@, 0) == ps_first(lq, s@, k as int),
        decreases lines.len() - k,
    {
        let line = lines[k];
        proof {
            assert(line@ == lq[k as int]);
        }
        let trimmed = trim_of(line);
        let toks = split_tokens(trimmed);
        proof {
            assert(toks@.map_values(|t: &str| t@) == ps_line_tokens(lq[k as int]));
        }
        if toks.len() >= 2 {
            let last = toks[toks.len() - 1];
            proof {
                assert(last@ == ps_line_tokens(lq[k as int]).last());
            }
            if contains_sub(last, s) {
                proof {
                    assert(ps_line_match(lq[k as int], s@));
                    assert(toks@.map_values(|t: &str| t@)[1] == toks@[1]@);
                    assert(ps_first(lq, s@, k as int) == Some(
                        (ps_line_tokens(lq[k as int])[1], ps_line_tokens(lq[k as int]).last()),
                    ));
                }
                let pid = String::from_str(toks[1]);
                let name = String::from_str(last);
                return Ok((pid, name));
            }
        }
        proof {
            assert(!ps_line_match(lq[k as int], s@));
        }
        k += 1;
    }
    Err(UtilError::NotFound { wanted: String::from_str(s) })
}

/// Whether resolving `package` to a pid needs the live process listing:
/// a purely numeric identifier is returned verbatim without one.
pub fn needs_process_listing(package: &str) -> (r: bool)
    ensures
        r == !all_digits(package@),
{
    !check_all_digits(package)
}

/// Resolves a package or process identifier to a pid: a purely numeric
/// identifier is returned unchanged whatever the listing holds; any other
/// identifier is fuzzy-matched against the process listing, first match in
/// listing order winning.
pub fn pid_of(package: &str, listing: &str) -> (r: Result<String, UtilError>)
    ensures
        all_digits(package@) ==> (r matches Ok(p) && p@ == package@),
        !all_digits(package@) ==> match ps_first(lines_from(listing@, 0), package@, 0) {
            Some(q) => r matches Ok(p) && p@ == q.0,
            None => r matches Err(UtilError::NotFound { wanted }) && wanted@ == package@,
        },
{
    if check_all_digits(package) {
        Ok(String::from_str(package))
    } else {
        match fuzzy_runing(package, listing) {
            Ok(p) => Ok(p.0),
            Err(e) => Err(e),
        }
    }
}

/// The package name carried by one package-listing line: the text after the
/// last `=`, or the whole line when it has none.
pub open spec fn pkg_value(line: Seq<char>) -> Seq<char> {
    match rfind_seq(line, "="@) {
        Some(j) => if 0 <= j && j + 1 <= line.len() {
            line.subrange(j + 1, line.len() as int)
        } else {
            line
        },
        None => line,
    }
}

/// The value of the first line at or after `i` that contains `s`.
pub open spec fn pkg_first(lines: Seq<Seq<char>>, s: Seq<char>, i: int) -> Option<Seq<char>>
    decreases lines.len() - i when 0 <= i <= lines.len()
{
    if i >= lines.len() {
        None
    } else if contains_seq(lines[i], s) {
        Some(pkg_value(lines[i]))
    } else {
        pkg_first(lines, s, i + 1)
    }
}

/// Scans a `pm list packages -f` style listing for the first line containing
/// `s` and returns the package name after that line's last `=`; `NotFound`
/// when no line contains `s`.
pub fn fuzzy_package(s: &str, listing: &str) -> (r: Result<String, UtilError>)
    ensures
        match pkg_first(lines_from(listing@, 0), s@, 0) {
            Some(v) => r matches Ok(p) && p@ == v,
            None => r matches Err(UtilError::NotFound { wanted }) && wanted@ == s@,
        },
{
    proof {
        reveal_strlit("=");
    }
    let lines = split_lines(listing);
    let ghost lq = lines_from(listing@, 0);
    let mut k: usize = 0;
    while k < lines.len()
        invariant
            k <= lines.len(),
            lq == lines_from(listing@, 0),
            lines@.map_values(|t: &str| t@) == lq,
            pkg_first(lq, s@, 0) == pkg_first(lq, s@, k as int),
        decreases lines.len() - k,
    {
        let line = lines[k];
        proof {
            reveal_strlit("=");
            assert(line@ == lq[k as int]);
        }
        if contains_sub(line, s) {
            let n = line.unicode_len();
            let p = match rfind_sub(line, "=") {
                Some(j) => {
                    proof {
                        lemma_rfind_at_some(line@, "="@, line@.len() - 1, j as int);
                        assert(j + 1 <= n);
                    }
                    line.substring_char(j + 1, n)
                },
                None => line,
            };
            assert(p@ == pkg_value(lq[k as int]));
            return Ok(String::from_str(p));
        }
        k += 1;
    }
    Err(UtilError::NotFound { wanted: String::from_str(s) })
}

/// Whether any line of the listing, at or after `i`, ends with `lib`.
pub open spec fn maps_hit(lines: Seq<Seq<char>>, lib: Seq<char>, i: int) -> bool
    decreases lines.len() - i when 0 <= i <= lines.len()
{
    if i >= lines.len() {
        false
    } else if ends_with_seq(lines[i], lib) {
        true
    } else {
        maps_hit(lines, lib, i + 1)
    }
}

/// Checks a process's mapped-memory listing for `library`: `Ok(true)` when
/// some line ends with it, and an `Injection` error — "not yet loaded, keep
/// polling" — when none does.
pub fn check_inject_so_succeed(library: &str, maps: &str) -> (r: Result<bool, UtilError>)
    ensures
        maps_hit(lines_from(maps@, 0), library@, 0) ==> (r matches Ok(b) && b == true),
        !maps_hit(lines_from(maps@, 0), library@, 0) ==> (r matches Err(
            UtilError::Injection { library: l },
        ) && l@ == library@),
{
    let lines = split_lines(maps);
    let ghost lq = lines_from(maps@, 0);
    let mut k: usize = 0;
    while k < lines.len()
        invariant
            k <= lines.len(),
            lq == lines_from(maps@, 0),
            lines@.map_values(|t: &str| t@) == lq,
            maps_hit(lq, library@, 0) == maps_hit(lq, library@, k as int),
        decreases lines.len() - k,
    {
        let line = lines[k];
        proof {
            assert(line@ == lq[k as int]);
        }
        if ends_with_sub(line, library) {
            assert(maps_hit(lq, library@, k as int));
            return Ok(true);
        }
        k += 1;
    }
    Err(UtilError::Injection { library: String::from_str(library) })
}

/// The value extracted from one property-table line by the bracketed-pair
/// pattern `[key]: [value]`: the text between the line's last `]: [` and its
/// last `]`, provided a `[` opens before the separator.  `None` when the
/// line does not fit the pattern.
pub open spec fn prop_value(line: Seq<char>) -> Option<Seq<char>> {
    match rfind_seq(line, "]: ["@) {
        None => None,
        Some(j) => match find_from(line, "["@, 0) {
            None => None,
            Some(i) => if i < j {
                match rfind_seq(line, "]"@) {
                    None => None,
                    Some(k) => if j + 4 <= k && k <= line.len() {
                        Some(line.subrange(j + 4, k))
                    } else {
                        None
                    },
                }
            } else {
                None
            },
        },
    }
}

/// Index of the first line at or after `i` that contains `key`.
pub open spec fn prop_first(lines: Seq<Seq<char>>, key: Seq<char>, i: int) -> Option<int>
    decreases lines.len() - i when 0 <= i <= lines.len()
{
    if i >= lines.len() {
        None
    } else if contains_seq(lines[i], key) {
        Some(i)
    } else {
        prop_first(lines, key, i + 1)
    }
}

/// Looks `key` up in a property table: the first line containing `key`
/// decides, and its bracketed value is returned; a `Property` error when no
/// line contains `key` or that line's pattern is malformed.
pub fn get_android_prop(key: &str, props: &str) -> (r: Result<String, UtilError>)
    ensures
        match prop_first(lines_from(props@, 0), key@, 0) {
            Some(ix) => match prop_value(lines_from(props@, 0)[ix]) {
                Some(v) => r matches Ok(p) && p@ == v,
                None => r matches Err(UtilError::Property),
            },
            None => r matches Err(UtilError::Property),
        },
{
    proof {
        reveal_strlit("]: [");
        reveal_strlit("[");
        reveal_strlit("]");
    }
    let lines = split_lines(props);
    let ghost lq = lines_from(props@, 0);
    let mut k: usize = 0;
    while k < lines.len()
        invariant
            k <= lines.len(),
            lq == lines_from(props@, 0),
            lines@.map_values(|t: &str| t@) == lq,
            prop_first(lq, key@, 0) == prop_first(lq, key@, k as int),
        decreases lines.len() - k,
    {
        let line = lines[k];
        proof {
            reveal_strlit("]: [");
            reveal_strlit("[");
            reveal_strlit("]");
            assert(line@ == lq[k as int]);
        }
        if contains_sub(line, key) {
            assert(prop_first(lq, key@, 0) == Some(k as int));
            match rfind_sub(line, "]: [") {
                None => {
                    return Err(UtilError::Property);
                },
                Some(j) => {
                    let n = line.unicode_len();
                    proof {
                        lemma_rfind_at_some(line@, "]: ["@, line@.len() - 4, j as int);
                        assert(j + 4 <= n);
                    }
                    match find_sub(line, "[", 0) {
                        None => {
                            return Err(UtilError::Property);
                        },
                        Some(i) => {
                            proof {
                                lemma_find_from_some(line@, "["@, 0, i as int);
                            }
                            if i >= j {
                                return Err(UtilError::Property);
                            }
                            match rfind_sub(line, "]") {
                                None => {
                                    return Err(UtilError::Property);
                                },
                                Some(kk) => {
                                    proof {
                                        lemma_rfind_at_some(line@, "]"@, line@.len() - 1, kk as int);
                                    }
                                    if kk >= j + 4 {
                                        let v = line.substring_char(j + 4, kk);
                                        assert(prop_value(lq[k as int]) == Some(v@));
                                        return Ok(String::from_str(v));
                                    }
                                    return Err(UtilError::Property);
                                },
                            }
                        },
                    }
                },
            }
        }
        k += 1;
    }
    Err(UtilError::Property)
}

/// Index of the first path at or after `i` that contains `file`.
pub open spec fn path_first(paths: Seq<Seq<char>>, file: Seq<char>, i: int) -> Option<int>
    decreases paths.len() - i when 0 <= i <= paths.len()
{
    if i >= paths.len() {
        None
    } else if contains_seq(paths[i], file) {
        Some(i)
    } else {
        path_first(paths, file, i + 1)
    }
}

/// The first path in `files` that contains `file` as a substring, in the
/// order given; `None` when no path does.
pub fn find_file(file: &str, files: &Vec<String>) -> (r: Option<String>)
    ensures
        match path_first(files.deep_view(), file@, 0) {
            Some(ix) => r matches Some(p) && p@ == files.deep_view()[ix],
            None => r is None,
        },
{
    let ghost pq = files.deep_view();
    let mut k: usize = 0;
    while k < files.len()
        invariant
            k <= files.len(),
            pq == files.deep_view(),
            path_first(pq, file@, 0) == path_first(pq, file@, k as int),
        decreases files.len() - k,
    {
        proof {
            assert(files[k as int]@ == pq[k as int]);
        }
        if contains_sub(files[k].as_str(), file) {
            return Some(files[k].clone());
        }
        k += 1;
    }
    None
}

/// `find_file` over the paths walked from the build-output directory; the
/// walk itself is file I/O and happens outside this crate.
pub fn get_built_file(file: &str, files: &Vec<String>) -> (r: Option<String>)
    ensures
        match path_first(files.deep_view(), file@, 0) {
            Some(ix) => r matches Some(p) && p@ == files.deep_view()[ix],
            None => r is None,
        },
{
    find_file(file, files)
}

/// A package-identifier character: an ASCII letter or digit.
pub open spec fn is_pkg_char(c: char) -> bool {
    (97 <= c as u32 && c as u32 <= 122) || (65 <= c as u32 && c as u32 <= 90) || (48 <= c as u32
        && c as u32 <= 57)
}

/// End of the maximal run of package characters beginning at `i`.
pub open spec fn pkg_run_end(s: Seq<char>, i: int) -> int
    decreases s.len() - i when 0 <= i <= s.len()
{
    if i < s.len() && is_pkg_char(s[i]) {
        pkg_run_end(s, i + 1)
    } else {
        i
    }
}

/// End of the maximal run of package characters and dots beginning at `i`.
pub open spec fn pkg_dot_run_end(s: Seq<char>, i: int) -> int
    decreases s.len() - i when 0 <= i <= s.len()
{
    if i < s.len() && (is_pkg_char(s[i]) || s[i] == '.') {
        pkg_dot_run_end(s, i + 1)
    } else {
        i
    }
}

/// Leftmost match of the resumed-activity package pattern, scanned from
/// `i`: the literal `com`, one character that is not a line feed, a run of
/// letters and digits, one more non-line-feed character, then a run of
/// letters, digits and dots.  When the text ends, or a line feed follows,
/// right after a non-empty first run, that run's last character counts as
/// the second single character and the final run is empty.  Yields the
/// match's start and end.
pub open spec fn app_find(t: Seq<char>, i: int) -> Option<(int, int)>
    decreases t.len() - i when 0 <= i <= t.len()
{
    match find_from(t, "com"@, i) {
        None => None,
        Some(p) => if i <= p && p < t.len() {
            if p + 3 < t.len() && t[p + 3] != '\n' {
                let r1 = pkg_run_end(t, p + 4);
                if p + 4 <= r1 <= t.len() {
                    if r1 < t.len() && t[r1] != '\n' {
                        let end = pkg_dot_run_end(t, r1 + 1);
                        if r1 + 1 <= end <= t.len() {
                            Some((p, end))
                        } else {
                            None
                        }
                    } else if r1 > p + 4 {
                        Some((p, r1))
                    } else {
                        app_find(t, p + 1)
                    }
                } else {
                    None
                }
            } else {
                app_find(t, p + 1)
            }
        } else {
            None
        },
    }
}

fn pkg_char(c: char) -> (r: bool)
    ensures
        r == is_pkg_char(c),
{
    let u = c as u32;
    (97 <= u && u <= 122) || (65 <= u && u <= 90) || (48 <= u && u <= 57)
}

fn pkg_run_end_at(s: &str, i: usize) -> (r: usize)
    requires
        i <= s@.len(),
    ensures
        r == pkg_run_end(s@, i as int),
        i <= r <= s@.len(),
{
    let n = s.unicode_len();
    let mut j: usize = i;
    while j < n
        invariant
            i <= j <= n,
            n == s@.len(),
            pkg_run_end(s@, i as int) == pkg_run_end(s@, j as int),
        decreases n - j,
    {
        if !pkg_char(s.get_char(j)) {
            return j;
        }
        j += 1;
    }
    j
}

fn pkg_dot_run_end_at(s: &str, i: usize) -> (r: usize)
    requires
        i <= s@.len(),
    ensures
        r == pkg_dot_run_end(s@, i as int),
        i <= r <= s@.len(),
{
    let n = s.unicode_len();
    let mut j: usize = i;
    while j < n
        invariant
            i <= j <= n,
            n == s@.len(),
            pkg_dot_run_end(s@, i as int) == pkg_dot_run_end(s@, j as int),
        decreases n - j,
    {
        let c = s.get_char(j);
        if !pkg_char(c) && c != '.' {
            return j;
        }
        j += 1;
    }
    j
}

/// Extracts the foreground application's package path from an activity
/// dump: the leftmost match of the `com...` package pattern anywhere in the
/// text, and `NotFound` for the pattern root when the text holds none.
pub fn current_app(output: &str) -> (r: Result<String, UtilError>)
    ensures
        match app_find(output@, 0) {
            Some(g) => r matches Ok(s) && s@ == output@.subrange(g.0, g.1),
            None => r matches Err(UtilError::NotFound { wanted }) && wanted@ == "com"@,
        },
{
    let n = output.unicode_len();
    let mut i: usize = 0;
    loop
        invariant
            i <= n,
            n == output@.len(),
            app_find(output@, 0) == app_find(output@, i as int),
        decreases n - i,
    {
        match find_sub(output, "com", i) {
            None => {
                return Err(UtilError::NotFound { wanted: String::from_str("com") });
            },
            Some(p) => {
                proof {
                    reveal_strlit("com");
                    lemma_find_from_some(output@, "com"@, i as int, p as int);
                }
                if p + 3 < n && output.get_char(p + 3) != '\n' {
                    let r1 = pkg_run_end_at(output, p + 4);
                    if r1 < n && output.get_char(r1) != '\n' {
                        let end = pkg_dot_run_end_at(output, r1 + 1);
                        return Ok(String::from_str(output.substring_char(p, end)));
                    } else if r1 > p + 4 {
                        return Ok(String::from_str(output.substring_char(p, r1)));
                    } else {
                        i = p + 1;
                    }
                } else {
                    i = p + 1;
                }
            },
        }
    }
}

} // verus!
