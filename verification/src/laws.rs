//! Laws of the memory-report parser, stated over its model and proved once
//! and for all: the sample invariant, strict growth of the cursor across
//! successive parses, independence of everything but the cursor from the
//! counter, and the round trip for a well-formed report.

use vstd::prelude::*;
use crate::pss::{
    identity_match, init_model, parse_from, parse_report, pss_find, step_line, sum_find,
    ParseModel, Section,
};
use crate::text::{contains_seq, dec_val, trim_seq};

verus! {

/// The invariant every reachable parse model satisfies: both header series
/// open with the `index` label; the value series run one short of their
/// headers until the identity line is seen and in step with them after;
/// when the identity line has been seen the cursor is the counter the
/// parse began with and opens both value series.
pub open spec fn wf_model(m: ParseModel, c0: u64) -> bool {
    &&& m.counter == c0
    &&& m.pss_header.len() >= 1 && m.pss_header[0] == "index"@
    &&& m.app_header.len() >= 1 && m.app_header[0] == "index"@
    &&& (m.matched ==> {
        &&& m.pss_header.len() == m.pss_values.len()
        &&& m.app_header.len() == m.app_values.len()
        &&& m.cursor == c0
        &&& m.pss_values[0] == m.cursor
        &&& m.app_values[0] == m.cursor
    })
    &&& (!m.matched ==> {
        &&& m.pss_header.len() == m.pss_values.len() + 1
        &&& m.app_header.len() == m.app_values.len() + 1
        &&& m.package == Seq::<char>::empty()
        &&& m.pid == Seq::<char>::empty()
        &&& m.cursor == 0
    })
    &&& (m.section is Header && !m.matched ==> m.pss_header.len() == 1 && m.app_header.len() == 1)
    &&& (m.section is Header || m.section is Pss ==> m.app_header.len() == 1)
}

pub proof fn lemma_step_wf(m: ParseModel, raw: Seq<char>, c0: u64)
    requires
        wf_model(m, c0),
    ensures
        wf_model(step_line(m, raw), c0),
{
}

pub proof fn lemma_parse_from_wf(m: ParseModel, lines: Seq<Seq<char>>, i: int, c0: u64)
    requires
        wf_model(m, c0),
        0 <= i <= lines.len(),
    ensures
        wf_model(parse_from(m, lines, i), c0),
    decreases lines.len() - i,
{
    if i < lines.len() {
        lemma_step_wf(m, lines[i], c0);
        lemma_parse_from_wf(step_line(m, lines[i]), lines, i + 1, c0);
    }
}

/// Law: every parse yields a well-formed sample model — headers open with
/// `index`, the value series run parallel to their headers exactly when the
/// identity line was seen, and in that case the cursor is the counter the
/// parse began with and opens both value series.
pub proof fn lemma_sample_invariant(s: Seq<char>, c0: u64)
    ensures
        wf_model(parse_report(s, c0), c0),
{
    lemma_parse_from_wf(init_model(c0), crate::text::lines_from(s, 0), 0, c0);
}

/// Law: within one run the counter threads from parse to parse, so when two
/// successive reports both carry an identity line the second sample's
/// cursor is strictly greater than the first's.
pub proof fn lemma_cursor_strictly_increases(r1: Seq<char>, r2: Seq<char>, c0: u64)
    requires
        c0 < u64::MAX,
    ensures
        ({
            let m1 = parse_report(r1, c0);
            let m2 = parse_report(
                r2,
                if m1.matched {
                    (c0 + 1) as u64
                } else {
                    c0
                },
            );
            m1.matched && m2.matched ==> m1.cursor < m2.cursor
        }),
{
    lemma_sample_invariant(r1, c0);
    let m1 = parse_report(r1, c0);
    if m1.matched {
        lemma_sample_invariant(r2, (c0 + 1) as u64);
    } else {
        lemma_sample_invariant(r2, c0);
    }
}

/// Law: an empty report yields the empty sample — empty identity, both
/// header series holding only the `index` label, both value series empty,
/// and the counter untouched.
pub proof fn lemma_empty_report(c0: u64)
    ensures
        parse_report(Seq::empty(), c0) == init_model(c0),
{
    assert(crate::text::lines_from(Seq::<char>::empty(), 0) =~= Seq::<Seq<char>>::empty());
}

/// Two models that agree on everything except, possibly, the cursor slot of
/// the value series and the counter that produced it.
pub open spec fn similar(m1: ParseModel, m2: ParseModel) -> bool {
    &&& m1.section == m2.section
    &&& m1.matched == m2.matched
    &&& m1.package == m2.package
    &&& m1.pid == m2.pid
    &&& m1.pss_header == m2.pss_header
    &&& m1.app_header == m2.app_header
    &&& m1.pss_values.len() == m2.pss_values.len()
    &&& m1.app_values.len() == m2.app_values.len()
    &&& (forall|j: int|
        0 <= j < m1.pss_values.len() && !(m1.matched && j == 0) ==> m1.pss_values[j]
            == m2.pss_values[j])
    &&& (forall|j: int|
        0 <= j < m1.app_values.len() && !(m1.matched && j == 0) ==> m1.app_values[j]
            == m2.app_values[j])
}

pub proof fn lemma_step_similar(m1: ParseModel, m2: ParseModel, raw: Seq<char>, c1: u64, c2: u64)
    requires
        similar(m1, m2),
        wf_model(m1, c1),
        wf_model(m2, c2),
    ensures
        similar(step_line(m1, raw), step_line(m2, raw)),
{
}

pub proof fn lemma_parse_from_similar(
    m1: ParseModel,
    m2: ParseModel,
    lines: Seq<Seq<char>>,
    i: int,
    c1: u64,
    c2: u64,
)
    requires
        similar(m1, m2),
        wf_model(m1, c1),
        wf_model(m2, c2),
        0 <= i <= lines.len(),
    ensures
        similar(parse_from(m1, lines, i), parse_from(m2, lines, i)),
    decreases lines.len() - i,
{
    if i < lines.len() {
        lemma_step_similar(m1, m2, lines[i], c1, c2);
        lemma_step_wf(m1, lines[i], c1);
        lemma_step_wf(m2, lines[i], c2);
        lemma_parse_from_similar(
            step_line(m1, lines[i]),
            step_line(m2, lines[i]),
            lines,
            i + 1,
            c1,
            c2,
        );
    }
}

/// Law: parsing the same report text twice yields identical identities,
/// header series and — apart from the cursor slot — value series, whatever
/// counter values the two parses began with; when no identity line was
/// seen, even the value series are identical.
pub proof fn lemma_parse_counter_independent(s: Seq<char>, c1: u64, c2: u64)
    ensures
        similar(parse_report(s, c1), parse_report(s, c2)),
        !parse_report(s, c1).matched ==> parse_report(s, c1).pss_values == parse_report(
            s,
            c2,
        ).pss_values && parse_report(s, c1).app_values == parse_report(s, c2).app_values,
{
    lemma_parse_from_similar(
        init_model(c1),
        init_model(c2),
        crate::text::lines_from(s, 0),
        0,
        c1,
        c2,
    );
    let m1 = parse_report(s, c1);
    let m2 = parse_report(s, c2);
    if !m1.matched {
        assert(m1.pss_values =~= m2.pss_values);
        assert(m1.app_values =~= m2.app_values);
    }
}

/// A raw report line whose trimmed form carries the identity pattern with
/// the given pid and name, and is not a section-ending dash line.
pub open spec fn identity_line_shape(raw: Seq<char>, pid: Seq<char>, name: Seq<char>) -> bool {
    &&& !contains_seq(trim_seq(raw), "------"@)
    &&& identity_match(trim_seq(raw)) == Some((pid, name))
}

/// A raw line whose trimmed form carries the dash run that ends the header
/// section.
pub open spec fn dash_line_shape(raw: Seq<char>) -> bool {
    contains_seq(trim_seq(raw), "------"@)
}

/// A raw line whose trimmed form carries the summary-section marker.
pub open spec fn marker_line_shape(raw: Seq<char>) -> bool {
    contains_seq(trim_seq(raw), "App Summary"@)
}

/// A raw pss-table line carrying `label` and the digit run of value `v`.
pub open spec fn pss_line_shape(raw: Seq<char>, label: Seq<char>, v: int) -> bool {
    let t = trim_seq(raw);
    &&& !contains_seq(t, "App Summary"@)
    &&& match pss_find(t, 0) {
        Some(g) => trim_seq(t.subrange(g.0, g.1)) == label && dec_val(t.subrange(g.1, g.2)) == v,
        None => false,
    }
}

/// A raw summary line carrying `label` and the digit run of value `v`.
pub open spec fn sum_line_shape(raw: Seq<char>, label: Seq<char>, v: int) -> bool {
    let t = trim_seq(raw);
    &&& !contains_seq(t, "Objects"@)
    &&& match sum_find(t, 0) {
        Some(g) => trim_seq(t.subrange(g.0, g.1)) == label && dec_val(t.subrange(g.2, g.3)) == v,
        None => false,
    }
}

pub proof fn lemma_pss_fold(
    m: ParseModel,
    lines: Seq<Seq<char>>,
    i: int,
    j: int,
    labels: Seq<Seq<char>>,
    vals: Seq<int>,
)
    requires
        m.section is Pss,
        0 <= i <= j <= lines.len(),
        labels.len() == j - i,
        vals.len() == j - i,
        forall|k: int| i <= k < j ==> pss_line_shape(lines[k], labels[k - i], vals[k - i]),
    ensures
        parse_from(m, lines, i) == parse_from(
            ParseModel {
                pss_header: m.pss_header + labels,
                pss_values: m.pss_values + vals.map_values(|v: int| (v / 1024) as u64),
                ..m
            },
            lines,
            j,
        ),
    decreases j - i,
{
    let vmap = |v: int| (v / 1024) as u64;
    if i == j {
        assert(m.pss_header + labels =~= m.pss_header);
        assert(m.pss_values + vals.map_values(vmap) =~= m.pss_values);
        assert(ParseModel {
            pss_header: m.pss_header + labels,
            pss_values: m.pss_values + vals.map_values(vmap),
            ..m
        } == m);
    } else {
        assert(pss_line_shape(lines[i], labels[0], vals[0]));
        let m1 = step_line(m, lines[i]);
        let g = pss_find(trim_seq(lines[i]), 0)->0;
        assert(m1 == ParseModel {
            pss_header: m.pss_header.push(labels[0]),
            pss_values: m.pss_values.push(vmap(vals[0])),
            ..m
        });
        lemma_pss_fold(m1, lines, i + 1, j, labels.skip(1), vals.skip(1));
        assert(m1.pss_header + labels.skip(1) =~= m.pss_header + labels);
        assert(vals.skip(1).map_values(vmap) =~= vals.map_values(vmap).skip(1));
        assert(m1.pss_values + vals.map_values(vmap).skip(1) =~= m.pss_values + vals.map_values(
            vmap,
        ));
    }
}

pub proof fn lemma_sum_fold(
    m: ParseModel,
    lines: Seq<Seq<char>>,
    i: int,
    j: int,
    labels: Seq<Seq<char>>,
    vals: Seq<int>,
)
    requires
        m.section is Summary,
        0 <= i <= j <= lines.len(),
        labels.len() == j - i,
        vals.len() == j - i,
        forall|k: int| i <= k < j ==> sum_line_shape(lines[k], labels[k - i], vals[k - i]),
    ensures
        parse_from(m, lines, i) == parse_from(
            ParseModel {
                app_header: m.app_header + labels,
                app_values: m.app_values + vals.map_values(|v: int| (v / 1024) as u64),
                ..m
            },
            lines,
            j,
        ),
    decreases j - i,
{
    let vmap = |v: int| (v / 1024) as u64;
    if i == j {
        assert(m.app_header + labels =~= m.app_header);
        assert(m.app_values + vals.map_values(vmap) =~= m.app_values);
        assert(ParseModel {
            app_header: m.app_header + labels,
            app_values: m.app_values + vals.map_values(vmap),
            ..m
        } == m);
    } else {
        assert(sum_line_shape(lines[i], labels[0], vals[0]));
        let m1 = step_line(m, lines[i]);
        assert(m1 == ParseModel {
            app_header: m.app_header.push(labels[0]),
            app_values: m.app_values.push(vmap(vals[0])),
            ..m
        });
        lemma_sum_fold(m1, lines, i + 1, j, labels.skip(1), vals.skip(1));
        assert(m1.app_header + labels.skip(1) =~= m.app_header + labels);
        assert(vals.skip(1).map_values(vmap) =~= vals.map_values(vmap).skip(1));
        assert(m1.app_values + vals.map_values(vmap).skip(1) =~= m.app_values + vals.map_values(
            vmap,
        ));
    }
}

/// Law: round trip.  A handcrafted report of an identity line, a dash
/// line, N pss lines, the summary marker and M summary lines parses to a
/// sample whose identity is the captured pid and name, whose pss series
/// have length N+1 — the `index` label and the cursor in front — with each
/// value the source digit run divided by 1024, and likewise M+1 for the
/// summary series.
pub proof fn lemma_round_trip(
    lines: Seq<Seq<char>>,
    pid: Seq<char>,
    name: Seq<char>,
    labels: Seq<Seq<char>>,
    vals: Seq<int>,
    slabels: Seq<Seq<char>>,
    svals: Seq<int>,
    c0: u64,
)
    requires
        lines.len() == 3 + labels.len() + slabels.len(),
        vals.len() == labels.len(),
        svals.len() == slabels.len(),
        identity_line_shape(lines[0], pid, name),
        dash_line_shape(lines[1]),
        forall|k: int| 0 <= k < labels.len() ==> pss_line_shape(lines[2 + k], labels[k], vals[k]),
        marker_line_shape(lines[2 + labels.len() as int]),
        forall|k: int|
            0 <= k < slabels.len() ==> sum_line_shape(
                lines[3 + labels.len() as int + k],
                slabels[k],
                svals[k],
            ),
    ensures
        ({
            let m = parse_from(init_model(c0), lines, 0);
            &&& m.matched && m.package == name && m.pid == pid && m.cursor == c0
            &&& m.pss_header == seq!["index"@] + labels
            &&& m.pss_values == seq![c0] + vals.map_values(|v: int| (v / 1024) as u64)
            &&& m.app_header == seq!["index"@] + slabels
            &&& m.app_values == seq![c0] + svals.map_values(|v: int| (v / 1024) as u64)
            &&& m.pss_header.len() == labels.len() + 1 && m.pss_values.len() == labels.len() + 1
            &&& m.app_header.len() == slabels.len() + 1 && m.app_values.len() == slabels.len() + 1
        }),
{
    let vmap = |v: int| (v / 1024) as u64;
    let m0 = init_model(c0);
    let m1 = step_line(m0, lines[0]);
    assert(m1 == ParseModel {
        package: name,
        pid: pid,
        cursor: c0,
        matched: true,
        pss_values: m0.pss_values.push(c0),
        app_values: m0.app_values.push(c0),
        ..m0
    });
    let m2 = step_line(m1, lines[1]);
    assert(m2 == ParseModel { section: Section::Pss, ..m1 });
    assert(parse_from(m0, lines, 0) == parse_from(m1, lines, 1));
    assert(parse_from(m1, lines, 1) == parse_from(m2, lines, 2));
    let n = labels.len() as int;
    assert forall|k: int| 2 <= k < 2 + n implies pss_line_shape(
        lines[k],
        labels[k - 2],
        vals[k - 2],
    ) by {}
    lemma_pss_fold(m2, lines, 2, 2 + n, labels, vals);
    let m3 = ParseModel {
        pss_header: m2.pss_header + labels,
        pss_values: m2.pss_values + vals.map_values(vmap),
        ..m2
    };
    let m4 = step_line(m3, lines[2 + n]);
    assert(m4 == ParseModel { section: Section::Summary, ..m3 });
    assert(parse_from(m3, lines, 2 + n) == parse_from(m4, lines, 3 + n));
    let sn = slabels.len() as int;
    assert forall|k: int| 3 + n <= k < 3 + n + sn implies sum_line_shape(
        lines[k],
        slabels[k - (3 + n)],
        svals[k - (3 + n)],
    ) by {}
    lemma_sum_fold(m4, lines, 3 + n, 3 + n + sn, slabels, svals);
    let m5 = ParseModel {
        app_header: m4.app_header + slabels,
        app_values: m4.app_values + svals.map_values(vmap),
        ..m4
    };
    assert(parse_from(m5, lines, lines.len() as int) == m5);
    assert(m5.pss_header =~= seq!["index"@] + labels);
    assert(m5.pss_values =~= seq![c0] + vals.map_values(vmap));
    assert(m5.app_header =~= seq!["index"@] + slabels);
    assert(m5.app_values =~= seq![c0] + svals.map_values(vmap));
}

} // verus!
