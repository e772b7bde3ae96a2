//! The memory-report parser: a section-aware state machine that consumes
//! the raw text of one process's memory report and emits a structured
//! sample.  Sections run one way — header, then the pss table, then the
//! application summary, then the discarded remainder — with transitions
//! triggered by literal markers, and a line that neither transitions nor
//! matches its section's pattern is silently skipped.  The parser never
//! fails: malformed input degrades to a partial (possibly empty) sample.

use vstd::prelude::*;
use vstd::string::StrSliceExecFns;
use vstd::string::StringExecFns;
use crate::command::UtilError;
use crate::text::{
    contains_seq, dec_val, find_from, lines_from, next_digit, rfind_seq, run_end, trim_seq,
    ws_start_back,
};
use crate::text::{
    contains_sub, find_sub, lemma_find_from_some, lemma_next_digit_stop, lemma_rfind_at_some,
    lemma_run_all_digits, lemma_run_end_bounds, next_digit_at, parse_u64_range, rfind_sub,
    run_end_at, split_lines, trim_of, ws_back_at,
};

verus! {

/// The sections of a memory report, in the order the parser walks them.
pub enum Section {
    Header,
    Pss,
    Summary,
    Objects,
}

/// One structured sample parsed from a memory report.  Both header series
/// open with the literal `index` label; when the report carried a
/// well-formed identity line, both value series open with the sample's
/// `cursor` and run parallel to their headers.
#[derive(Debug)]
pub struct PssInfo {
    pub package_name: String,
    pub pid: String,
    pub pss_header: Vec<String>,
    pub pss_values: Vec<u64>,
    pub cursor: u64,
    pub app_header: Vec<String>,
    pub app_values: Vec<u64>,
}

/// The mathematical model of a parse in progress: the sample's fields over
/// sequences, the current section, whether the identity line has been seen,
/// and the counter value a match will consume.
pub struct ParseModel {
    pub section: Section,
    pub package: Seq<char>,
    pub pid: Seq<char>,
    pub pss_header: Seq<Seq<char>>,
    pub pss_values: Seq<u64>,
    pub app_header: Seq<Seq<char>>,
    pub app_values: Seq<u64>,
    pub cursor: u64,
    pub matched: bool,
    pub counter: u64,
}

/// The identity line's captured groups: pid digits and bracketed name, from
/// a trimmed line of the shape `** MEMINFO in pid <digits> [<name>] **`,
/// the name running to the line's last `] **`.
pub open spec fn identity_match(t: Seq<char>) -> Option<(Seq<char>, Seq<char>)> {
    match find_from(t, "** MEMINFO in pid "@, 0) {
        None => None,
        Some(i) => {
            let d = i + "** MEMINFO in pid "@.len();
            if 0 <= d <= t.len() {
                let e = run_end(t, d);
                if d < e && e + 2 <= t.len() && t[e] == ' ' && t[e + 1] == '[' {
                    match rfind_seq(t, "] **"@) {
                        Some(m) => if e + 2 <= m && m <= t.len() {
                            Some((t.subrange(d, e), t.subrange(e + 2, m)))
                        } else {
                            None
                        },
                        None => None,
                    }
                } else {
                    None
                }
            } else {
                None
            }
        },
    }
}

/// The pss-table pattern, scanned from `i`: the first digit run that has a
/// non-digit label before it, a space right after it, and a value that fits
/// in `u64`.  Yields `(label_start, run_start, run_end)`.
pub open spec fn pss_find(s: Seq<char>, i: int) -> Option<(int, int, int)>
    decreases s.len() - i when 0 <= i <= s.len()
{
    let d = next_digit(s, i);
    if !(i <= d < s.len()) {
        None
    } else {
        let e = run_end(s, d);
        if i < e <= s.len() {
            if i < d && e < s.len() && s[e] == ' ' && dec_val(s.subrange(d, e)) <= u64::MAX {
                Some((i, d, e))
            } else {
                pss_find(s, e)
            }
        } else {
            None
        }
    }
}

/// The summary pattern, scanned from `i`: the first digit run preceded by
/// whitespace, a colon, and a non-empty non-digit label, with a value that
/// fits in `u64`.  Yields `(label_start, colon, run_start, run_end)`.
pub open spec fn sum_find(s: Seq<char>, i: int) -> Option<(int, int, int, int)>
    decreases s.len() - i when 0 <= i <= s.len()
{
    let d = next_digit(s, i);
    if !(i <= d < s.len()) {
        None
    } else {
        let e = run_end(s, d);
        if i < e <= s.len() {
            let w = ws_start_back(s, d);
            if i + 1 < w && w < d && s[w - 1] == ':' && dec_val(s.subrange(d, e)) <= u64::MAX {
                Some((i, w - 1, d, e))
            } else {
                sum_find(s, e)
            }
        } else {
            None
        }
    }
}

/// The model a parse starts from, with the counter value `c0` it may
/// consume.
pub open spec fn init_model(c0: u64) -> ParseModel {
    ParseModel {
        section: Section::Header,
        package: Seq::empty(),
        pid: Seq::empty(),
        pss_header: seq!["index"@],
        pss_values: Seq::empty(),
        app_header: seq!["index"@],
        app_values: Seq::empty(),
        cursor: 0,
        matched: false,
        counter: c0,
    }
}

/// One parser step: the effect of one (raw) report line on the model.
pub open spec fn step_line(m: ParseModel, raw: Seq<char>) -> ParseModel {
    let t = trim_seq(raw);
    match m.section {
        Section::Header => {
            if contains_seq(t, "------"@) {
                ParseModel { section: Section::Pss, ..m }
            } else {
                match identity_match(t) {
                    Some(g) => if !m.matched {
                        ParseModel {
                            package: g.1,
                            pid: g.0,
                            cursor: m.counter,
                            matched: true,
                            pss_values: m.pss_values.push(m.counter),
                            app_values: m.app_values.push(m.counter),
                            ..m
                        }
                    } else {
                        m
                    },
                    None => m,
                }
            }
        },
        Section::Pss => {
            if contains_seq(t, "App Summary"@) {
                ParseModel { section: Section::Summary, ..m }
            } else {
                match pss_find(t, 0) {
                    Some(g) => ParseModel {
                        pss_header: m.pss_header.push(trim_seq(t.subrange(g.0, g.1))),
                        pss_values: m.pss_values.push(((dec_val(t.subrange(g.1, g.2)) / 1024) as u64)),
                        ..m
                    },
                    None => m,
                }
            }
        },
        Section::Summary => {
            if contains_seq(t, "Objects"@) {
                ParseModel { section: Section::Objects, ..m }
            } else {
                match sum_find(t, 0) {
                    Some(g) => ParseModel {
                        app_header: m.app_header.push(trim_seq(t.subrange(g.0, g.1))),
                        app_values: m.app_values.push(((dec_val(t.subrange(g.2, g.3)) / 1024) as u64)),
                        ..m
                    },
                    None => m,
                }
            }
        },
        Section::Objects => m,
    }
}

/// The model after folding the lines from index `i` on.
pub open spec fn parse_from(m: ParseModel, lines: Seq<Seq<char>>, i: int) -> ParseModel
    decreases lines.len() - i when 0 <= i <= lines.len()
{
    if i >= lines.len() {
        m
    } else {
        parse_from(step_line(m, lines[i]), lines, i + 1)
    }
}

/// The model of parsing the whole report `s` with counter value `c0`.
pub open spec fn parse_report(s: Seq<char>, c0: u64) -> ParseModel {
    parse_from(init_model(c0), lines_from(s, 0), 0)
}

/// The model an executable parse state corresponds to.
pub open spec fn model_of(p: PssInfo, section: Section, matched: bool, c0: u64) -> ParseModel {
    ParseModel {
        section,
        package: p.package_name@,
        pid: p.pid@,
        pss_header: p.pss_header.deep_view(),
        pss_values: p.pss_values@,
        app_header: p.app_header.deep_view(),
        app_values: p.app_values@,
        cursor: p.cursor,
        matched,
        counter: c0,
    }
}

fn match_identity(t: &str) -> (r: Option<(String, String)>)
    ensures
        match identity_match(t@) {
            Some(g) => r matches Some(p) && p.0@ == g.0 && p.1@ == g.1,
            None => r is None,
        },
{
    proof {
        reveal_strlit("** MEMINFO in pid ");
        reveal_strlit("] **");
    }
    let lit = "** MEMINFO in pid ";
    let n = t.unicode_len();
    match find_sub(t, lit, 0) {
        None => None,
        Some(i) => {
            proof {
                lemma_find_from_some(t@, lit@, 0, i as int);
            }
            let litlen = lit.unicode_len();
            let d = i + litlen;
            let e = run_end_at(t, d);
            if d < e && e < n && e + 1 < n && t.get_char(e) == ' ' && t.get_char(e + 1) == '[' {
                match rfind_sub(t, "] **") {
                    Some(m) => {
                        proof {
                            lemma_rfind_at_some(t@, "] **"@, t@.len() - 4, m as int);
                        }
                        if e + 2 <= m {
                            let pid = String::from_str(t.substring_char(d, e));
                            let name = String::from_str(t.substring_char(e + 2, m));
                            Some((pid, name))
                        } else {
                            None
                        }
                    },
                    None => None,
                }
            } else {
                None
            }
        },
    }
}

fn match_pss(t: &str) -> (r: Option<(String, u64)>)
    ensures
        match pss_find(t@, 0) {
            Some(g) => r matches Some(p) && p.0@ == trim_seq(t@.subrange(g.0, g.1)) && p.1
                == dec_val(t@.subrange(g.1, g.2)),
            None => r is None,
        },
{
    let n = t.unicode_len();
    let mut cur: usize = 0;
    loop
        invariant
            cur <= n,
            n == t@.len(),
            pss_find(t@, 0) == pss_find(t@, cur as int),
        decreases n - cur,
    {
        let d = next_digit_at(t, cur);
        if d == n {
            return None;
        }
        proof {
            lemma_next_digit_stop(t@, cur as int);
            lemma_run_end_bounds(t@, d + 1);
        }
        let e = run_end_at(t, d);
        assert(d < e);
        if cur < d && e < n && t.get_char(e) == ' ' {
            proof {
                lemma_run_all_digits(t@, d as int);
                assert forall|k: int| 0 <= k < e - d implies crate::text::is_digit(
                    t@.subrange(d as int, e as int)[k],
                ) by {
                    assert(t@.subrange(d as int, e as int)[k] == t@[d + k]);
                }
                crate::text::lemma_dec_val_nonneg(t@.subrange(d as int, e as int));
            }
            match parse_u64_range(t, d, e) {
                Some(v) => {
                    let label = String::from_str(trim_of(t.substring_char(cur, d)));
                    return Some((label, v));
                },
                None => {
                    cur = e;
                },
            }
        } else {
            cur = e;
        }
    }
}

fn match_sum(t: &str) -> (r: Option<(String, u64)>)
    ensures
        match sum_find(t@, 0) {
            Some(g) => r matches Some(p) && p.0@ == trim_seq(t@.subrange(g.0, g.1)) && p.1
                == dec_val(t@.subrange(g.2, g.3)),
            None => r is None,
        },
{
    let n = t.unicode_len();
    let mut cur: usize = 0;
    loop
        invariant
            cur <= n,
            n == t@.len(),
            sum_find(t@, 0) == sum_find(t@, cur as int),
        decreases n - cur,
    {
        let d = next_digit_at(t, cur);
        if d == n {
            return None;
        }
        proof {
            lemma_next_digit_stop(t@, cur as int);
            lemma_run_end_bounds(t@, d + 1);
        }
        let e = run_end_at(t, d);
        assert(d < e);
        let w = ws_back_at(t, d);
        if cur + 1 < w && w < d && t.get_char(w - 1) == ':' {
            proof {
                lemma_run_all_digits(t@, d as int);
                assert forall|k: int| 0 <= k < e - d implies crate::text::is_digit(
                    t@.subrange(d as int, e as int)[k],
                ) by {
                    assert(t@.subrange(d as int, e as int)[k] == t@[d + k]);
                }
                crate::text::lemma_dec_val_nonneg(t@.subrange(d as int, e as int));
            }
            match parse_u64_range(t, d, e) {
                Some(v) => {
                    let label = String::from_str(trim_of(t.substring_char(cur, w - 1)));
                    return Some((label, v));
                },
                None => {
                    cur = e;
                },
            }
        } else {
            cur = e;
        }
    }
}

impl PssInfo {
    /// A fresh, empty sample: empty identity, both header series holding
    /// only the `index` label, both value series empty, cursor zero.
    pub fn new() -> (r: PssInfo)
        ensures
            model_of(r, Section::Header, false, 0) == init_model(0),
    {
        let mut ph: Vec<String> = Vec::new();
        ph.push(String::from_str("index"));
        let mut ah: Vec<String> = Vec::new();
        ah.push(String::from_str("index"));
        let r = PssInfo {
            package_name: String::new(),
            pid: String::new(),
            pss_header: ph,
            pss_values: Vec::new(),
            cursor: 0,
            app_header: ah,
            app_values: Vec::new(),
        };
        proof {
            assert(r.pss_header.deep_view() =~= seq!["index"@]);
            assert(r.app_header.deep_view() =~= seq!["index"@]);
            assert(r.pss_values@ =~= Seq::<u64>::empty());
            assert(r.app_values@ =~= Seq::<u64>::empty());
        }
        r
    }

    /// Consumes the sample counter once: records its value as this sample's
    /// cursor and opens both value series with it.
    pub fn inc_index(&mut self, counter: &mut u64)
        requires
            *old(counter) < u64::MAX,
        ensures
            *final(counter) == *old(counter) + 1,
            final(self).cursor == *old(counter),
            final(self).pss_values@ == old(self).pss_values@.push(*old(counter)),
            final(self).app_values@ == old(self).app_values@.push(*old(counter)),
            final(self).package_name == old(self).package_name,
            final(self).pid == old(self).pid,
            final(self).pss_header == old(self).pss_header,
            final(self).app_header == old(self).app_header,
    {
        self.cursor = *counter;
        *counter = *counter + 1;
        self.pss_values.push(self.cursor);
        self.app_values.push(self.cursor);
    }
}

/// Parses the full text of one memory report into a sample, consuming the
/// shared sample counter exactly once if (and only if) the report carries a
/// well-formed identity line.  The parse never fails: the result is always
/// `Ok`, and malformed input yields a partial or empty sample.
pub fn dump_pss(report: &str, counter: &mut u64) -> (r: Result<PssInfo, UtilError>)
    requires
        *old(counter) < u64::MAX,
    ensures
        r is Ok,
        ({
            let m = parse_report(report@, *old(counter));
            &&& r matches Ok(p) && model_of(p, m.section, m.matched, *old(counter)) == m
            &&& m.matched ==> *final(counter) == *old(counter) + 1
            &&& !m.matched ==> *final(counter) == *old(counter)
        }),
{
    let ghost c0 = *counter;
    let lines = split_lines(report);
    let ghost lq = lines_from(report@, 0);
    let mut pss = PssInfo::new();
    let mut section = Section::Header;
    let mut matched = false;
    let mut k: usize = 0;
    while k < lines.len()
        invariant
            k <= lines.len(),
            c0 == *old(counter),
            c0 < u64::MAX,
            matched ==> *counter == c0 + 1,
            !matched ==> *counter == c0,
            lq == lines_from(report@, 0),
            lines@.map_values(|t: &str| t@) == lq,
            parse_from(model_of(pss, section, matched, c0), lq, k as int) == parse_from(
                init_model(c0),
                lq,
                0,
            ),
        decreases lines.len() - k,
    {
        let line = lines[k];
        proof {
            assert(line@ == lq[k as int]);
        }
        let ghost pre = model_of(pss, section, matched, c0);
        let t = trim_of(line);
        match section {
            Section::Header => {
                if contains_sub(t, "------") {
                    section = Section::Pss;
                } else {
                    match match_identity(t) {
                        Some(g) => {
                            if !matched {
                                pss.package_name = g.1;
                                pss.pid = g.0;
                                pss.inc_index(counter);
                                matched = true;
                            }
                        },
                        None => {},
                    }
                }
            },
            Section::Pss => {
                if contains_sub(t, "App Summary") {
                    section = Section::Summary;
                } else {
                    match match_pss(t) {
                        Some(g) => {
                            let ghost ph0 = pss.pss_header.deep_view();
                            pss.pss_header.push(g.0);
                            pss.pss_values.push(g.1 / 1024);
                            proof {
                                assert(pss.pss_header.deep_view() =~= ph0.push(g.0@));
                            }
                        },
                        None => {},
                    }
                }
            },
            Section::Summary => {
                if contains_sub(t, "Objects") {
                    section = Section::Objects;
                } else {
                    match match_sum(t) {
                        Some(g) => {
                            let ghost ah0 = pss.app_header.deep_view();
                            pss.app_header.push(g.0);
                            pss.app_values.push(g.1 / 1024);
                            proof {
                                assert(pss.app_header.deep_view() =~= ah0.push(g.0@));
                            }
                        },
                        None => {},
                    }
                }
            },
            Section::Objects => {},
        }
        proof {
            assert(model_of(pss, section, matched, c0) == step_line(pre, lq[k as int]));
        }
        k += 1;
    }
    Ok(pss)
}

} // verus!
