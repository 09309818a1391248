//! The text rendering of a report and its hints.

use vstd::prelude::*;

use vstd::utf8::encode_utf8;
use super::{DnsHint, DnsReport, HintView, MxRecord, MxView, ReportView, Severity};
use super::hints::hint_views;
use crate::text::{
    contains_text, decimal, digit_char, join, lemma_repeat_add, pad_left, pad_right, push_decimal,
    push_joined, push_pad_left, push_pad_right, push_repeat, push_repeat_per_byte, repeat,
};

verus! {

// =====================================================================
// Rendering
// =====================================================================

pub open spec fn nl() -> Seq<char> {
    "\n"@
}

/// One line of the MX table: preference right-aligned in 3 columns, the
/// exchange left-aligned in 40, then the addresses.
pub open spec fn mx_line(m: MxView) -> Seq<char> {
    "  "@ + pad_left(decimal(m.preference as nat), 3) + "  "@ + pad_right(m.exchange, 40) + "  ["@
        + (if m.ips.len() == 0 {
        "<unresolved>"@
    } else {
        join(m.ips, ", "@)
    }) + "]"@ + nl()
}

pub open spec fn mx_lines(mx: Seq<MxView>) -> Seq<char>
    decreases mx.len(),
{
    if mx.len() == 0 {
        seq![]
    } else {
        mx_lines(mx.drop_last()) + mx_line(mx.last())
    }
}

pub open spec fn mx_section(r: ReportView) -> Seq<char> {
    if r.mx.len() == 0 {
        "MX:    (none)"@ + nl()
    } else {
        "MX:"@ + nl() + mx_lines(r.mx)
    }
}

pub open spec fn spf_section(r: ReportView) -> Seq<char> {
    match r.spf {
        Some(spf) => "SPF:   "@ + spf.raw + nl() + match spf.all_qualifier {
            Some(q) => "         (all-qualifier: '"@ + q + "all')"@ + nl(),
            None => seq![],
        },
        None => "SPF:   (none)"@ + nl(),
    }
}

pub open spec fn dmarc_section(r: ReportView) -> Seq<char> {
    match r.dmarc {
        Some(d) => "DMARC: "@ + d.raw + nl(),
        None => "DMARC: (none)"@ + nl(),
    }
}

/// The badge shown before a hint of each severity.
pub open spec fn badge(s: Severity) -> Seq<char> {
    match s {
        Severity::Critical => "[CRIT]"@,
        Severity::Warning => "[WARN]"@,
        Severity::Info => "[info]"@,
    }
}

pub open spec fn hint_line(h: HintView) -> Seq<char> {
    "  "@ + badge(h.severity) + " "@ + h.text + nl()
}

pub open spec fn hint_lines(hs: Seq<HintView>) -> Seq<char>
    decreases hs.len(),
{
    if hs.len() == 0 {
        seq![]
    } else {
        hint_lines(hs.drop_last()) + hint_line(hs.last())
    }
}

pub open spec fn hints_section(hs: Seq<HintView>) -> Seq<char> {
    if hs.len() == 0 {
        "Hints: (none - the basics look healthy)"@ + nl()
    } else {
        "Hints:"@ + nl() + hint_lines(hs)
    }
}

/// The title of a rendering: the domain, underlined with as many dashes as
/// 20 plus the byte length of the domain, then a blank line.
pub open spec fn render_title(r: ReportView) -> Seq<char> {
    "DNS audit for "@ + r.domain + nl() + repeat("-"@, (20 + encode_utf8(r.domain).len()) as nat)
        + nl() + nl()
}

/// What `render_report` writes: the title, then the MX, SPF, DMARC and hint
/// sections, separated by blank lines.
pub open spec fn rendering(r: ReportView, hs: Seq<HintView>) -> Seq<char> {
    render_title(r) + mx_section(r) + nl() + spf_section(r) + nl() + dmarc_section(r) + nl()
        + hints_section(hs)
}

fn push_mx_line(s: &mut String, m: &MxRecord)
    ensures
        final(s)@ == old(s)@ + mx_line(m@),
{
    let mut pref = String::new();
    push_decimal(&mut pref, m.preference as u32);
    s.append("  ");
    push_pad_left(s, pref.as_str(), 3);
    s.append("  ");
    push_pad_right(s, m.exchange.as_str(), 40);
    s.append("  [");
    if m.ips.len() == 0 {
        s.append("<unresolved>");
    } else {
        push_joined(s, &m.ips, ", ");
    }
    s.append("]");
    s.append("\n");
    assert(s@ =~= old(s)@ + mx_line(m@));
}

fn push_title(s: &mut String, report: &DnsReport)
    ensures
        final(s)@ == old(s)@ + render_title(report@),
{
    let ghost r = report@;
    s.append("DNS audit for ");
    s.append(report.domain.as_str());
    s.append("\n");
    push_repeat(s, "-", 20);
    push_repeat_per_byte(s, "-", report.domain.as_str());
    proof {
        lemma_repeat_add("-"@, 20, encode_utf8(r.domain).len());
    }
    s.append("\n");
    s.append("\n");
    assert(s@ =~= old(s)@ + render_title(r));
}

fn push_mx_section(s: &mut String, report: &DnsReport)
    ensures
        final(s)@ == old(s)@ + mx_section(report@) + nl(),
{
    let ghost r = report@;
    if report.mx.len() == 0 {
        s.append("MX:    (none)");
        s.append("\n");
    } else {
        s.append("MX:");
        s.append("\n");
        let ghost start = s@;
        let mut i: usize = 0;
        assert(r.mx.take(0) =~= seq![]);
        assert(start + mx_lines(seq![]) =~= start);
        while i < report.mx.len()
            invariant
                i <= report.mx@.len(),
                r == report@,
                s@ == start + mx_lines(r.mx.take(i as int)),
            decreases report.mx@.len() - i,
        {
            assert(r.mx.take(i + 1).drop_last() =~= r.mx.take(i as int));
            assert(r.mx.take(i + 1).last() == report.mx@[i as int]@);
            push_mx_line(s, &report.mx[i]);
            i = i + 1;
        }
        assert(r.mx.take(report.mx@.len() as int) =~= r.mx);
    }
    s.append("\n");
    assert(s@ =~= old(s)@ + mx_section(r) + nl());
}

fn push_spf_section(s: &mut String, report: &DnsReport)
    ensures
        final(s)@ == old(s)@ + spf_section(report@) + nl(),
{
    match &report.spf {
        Some(spf) => {
            s.append("SPF:   ");
            s.append(spf.raw.as_str());
            s.append("\n");
            if let Some(q) = &spf.all_qualifier {
                s.append("         (all-qualifier: '");
                s.append(q.as_str());
                s.append("all')");
                s.append("\n");
            }
        },
        None => {
            s.append("SPF:   (none)");
            s.append("\n");
        },
    }
    s.append("\n");
    assert(s@ =~= old(s)@ + spf_section(report@) + nl());
}

fn push_dmarc_section(s: &mut String, report: &DnsReport)
    ensures
        final(s)@ == old(s)@ + dmarc_section(report@) + nl(),
{
    match &report.dmarc {
        Some(d) => {
            s.append("DMARC: ");
            s.append(d.raw.as_str());
            s.append("\n");
        },
        None => {
            s.append("DMARC: (none)");
            s.append("\n");
        },
    }
    s.append("\n");
    assert(s@ =~= old(s)@ + dmarc_section(report@) + nl());
}

fn push_hints_section(s: &mut String, hints: &[DnsHint])
    ensures
        final(s)@ == old(s)@ + hints_section(hint_views(hints@)),
{
    let ghost hv = hint_views(hints@);
    if hints.len() == 0 {
        s.append("Hints: (none - the basics look healthy)");
        s.append("\n");
    } else {
        s.append("Hints:");
        s.append("\n");
        let ghost start = s@;
        let mut i: usize = 0;
        assert(hv.take(0) =~= seq![]);
        assert(start + hint_lines(seq![]) =~= start);
        while i < hints.len()
            invariant
                i <= hints@.len(),
                hv == hint_views(hints@),
                s@ == start + hint_lines(hv.take(i as int)),
            decreases hints@.len() - i,
        {
            assert(hv.take(i + 1).drop_last() =~= hv.take(i as int));
            assert(hv.take(i + 1).last() == hints@[i as int]@);
            let h = &hints[i];
            s.append("  ");
            match h.severity {
                Severity::Critical => s.append("[CRIT]"),
                Severity::Warning => s.append("[WARN]"),
                Severity::Info => s.append("[info]"),
            }
            s.append(" ");
            s.append(h.text.as_str());
            s.append("\n");
            i = i + 1;
            assert(s@ =~= start + hint_lines(hv.take(i as int)));
        }
        assert(hv.take(hints@.len() as int) =~= hv);
    }
    assert(s@ =~= old(s)@ + hints_section(hv));
}

/// Multi-line text rendering of a report and its hints, with no colour
/// escape codes.
pub fn render_report(report: &DnsReport, hints: &[DnsHint]) -> (s: String)
    ensures
        s@ == rendering(report@, hint_views(hints@)),
{
    let mut s = String::new();
    push_title(&mut s, report);
    push_mx_section(&mut s, report);
    push_spf_section(&mut s, report);
    push_dmarc_section(&mut s, report);
    push_hints_section(&mut s, hints);
    assert(s@ =~= rendering(report@, hint_views(hints@)));
    s
}

proof fn lemma_hint_lines_add(a: Seq<HintView>, b: Seq<HintView>)
    ensures
        hint_lines(a + b) == hint_lines(a) + hint_lines(b),
    decreases b.len(),
{
    if b.len() == 0 {
        assert(a + b =~= a);
        assert(hint_lines(a) + Seq::<char>::empty() =~= hint_lines(a));
    } else {
        lemma_hint_lines_add(a, b.drop_last());
        assert((a + b).drop_last() =~= a + b.drop_last());
        assert((a + b).last() == b.last());
        assert(hint_lines(a) + hint_lines(b.drop_last()) + hint_line(b.last()) =~= hint_lines(a)
            + (hint_lines(b.drop_last()) + hint_line(b.last())));
    }
}

proof fn lemma_hint_line_at(hs: Seq<HintView>, i: int) -> (at: int)
    requires
        0 <= i < hs.len(),
    ensures
        0 <= at,
        at + hint_line(hs[i]).len() <= hint_lines(hs).len(),
        hint_lines(hs).subrange(at, at + hint_line(hs[i]).len() as int) == hint_line(hs[i]),
{
    let h = hs[i];
    let lo = hs.take(i);
    let hi = hs.skip(i + 1);
    assert(hs =~= lo + seq![h] + hi);
    lemma_hint_lines_add(lo + seq![h], hi);
    lemma_hint_lines_add(lo, seq![h]);
    let e = Seq::<HintView>::empty();
    assert(seq![h].drop_last() =~= e);
    assert(seq![h].last() == h);
    assert(hint_lines(e) == Seq::<char>::empty());
    assert(hint_lines(seq![h]) =~= hint_line(h));
    let at: int = hint_lines(lo).len() as int;
    assert(hint_lines(hs).subrange(at, at + hint_line(h).len() as int) =~= hint_line(h));
    at
}

/// The rendering opens with the audited domain, and shows every hint on a
/// line of its own, with its severity badge and its text.
pub proof fn rendering_shows_domain_and_every_hint(r: ReportView, hs: Seq<HintView>)
    ensures
        rendering(r, hs).take(14 + r.domain.len() as int) == "DNS audit for "@ + r.domain,
        forall|i: int|
            0 <= i < hs.len() ==> contains_text(rendering(r, hs), #[trigger] hint_line(hs[i])),
{
    reveal_strlit("DNS audit for ");
    let out = rendering(r, hs);
    assert(out.take(14 + r.domain.len() as int) =~= "DNS audit for "@ + r.domain);
    let before = render_title(r) + mx_section(r) + nl() + spf_section(r) + nl() + dmarc_section(r)
        + nl() + "Hints:"@ + nl();
    if hs.len() > 0 {
        assert(out =~= before + hint_lines(hs));
    }
    assert forall|i: int| 0 <= i < hs.len() implies contains_text(out, #[trigger] hint_line(hs[i])) by {
        let at = lemma_hint_line_at(hs, i);
        let k: int = before.len() + at;
        let len: int = hint_line(hs[i]).len() as int;
        assert(out.subrange(k, k + len) =~= hint_lines(hs).subrange(at, at + len));
    }
}

proof fn lemma_hint_line_badge(h: HintView)
    ensures
        h.severity == Severity::Critical ==> hint_line(h) == "  [CRIT] "@ + h.text + "\n"@,
        h.severity == Severity::Warning ==> hint_line(h) == "  [WARN] "@ + h.text + "\n"@,
        h.severity == Severity::Info ==> hint_line(h) == "  [info] "@ + h.text + "\n"@,
{
    reveal_strlit("  ");
    reveal_strlit(" ");
    match h.severity {
        Severity::Critical => {
            reveal_strlit("[CRIT]");
            reveal_strlit("  [CRIT] ");
            assert("  "@ + "[CRIT]"@ + " "@ =~= "  [CRIT] "@);
            assert(hint_line(h) =~= "  [CRIT] "@ + h.text + "\n"@);
        },
        Severity::Warning => {
            reveal_strlit("[WARN]");
            reveal_strlit("  [WARN] ");
            assert("  "@ + "[WARN]"@ + " "@ =~= "  [WARN] "@);
            assert(hint_line(h) =~= "  [WARN] "@ + h.text + "\n"@);
        },
        Severity::Info => {
            reveal_strlit("[info]");
            reveal_strlit("  [info] ");
            assert("  "@ + "[info]"@ + " "@ =~= "  [info] "@);
            assert(hint_line(h) =~= "  [info] "@ + h.text + "\n"@);
        },
    }
}

/// The three badges differ, so the badge of a hint line tells its severity.
pub proof fn badges_tell_severities_apart(a: Severity, b: Severity)
    ensures
        badge(a) == badge(b) ==> a == b,
{
    reveal_strlit("[CRIT]");
    reveal_strlit("[WARN]");
    reveal_strlit("[info]");
    if badge(a) == badge(b) {
        assert(badge(a)[1] == badge(b)[1]);
    }
}

/// Every hint is shown on a line that carries the badge of its severity and
/// only that: `[CRIT]` for Critical, `[WARN]` for Warning, `[info]` for
/// Info, then the hint's text.
pub proof fn each_hint_line_carries_its_severity_badge(r: ReportView, hs: Seq<HintView>)
    ensures
        forall|i: int|
            0 <= i < hs.len() && hs[i].severity == Severity::Critical ==> contains_text(
                rendering(r, hs),
                "  [CRIT] "@ + (#[trigger] hs[i]).text + "\n"@,
            ),
        forall|i: int|
            0 <= i < hs.len() && hs[i].severity == Severity::Warning ==> contains_text(
                rendering(r, hs),
                "  [WARN] "@ + (#[trigger] hs[i]).text + "\n"@,
            ),
        forall|i: int|
            0 <= i < hs.len() && hs[i].severity == Severity::Info ==> contains_text(
                rendering(r, hs),
                "  [info] "@ + (#[trigger] hs[i]).text + "\n"@,
            ),
{
    rendering_shows_domain_and_every_hint(r, hs);
    assert forall|i: int| 0 <= i < hs.len() implies {
        &&& hs[i].severity == Severity::Critical ==> contains_text(
            rendering(r, hs),
            "  [CRIT] "@ + (#[trigger] hs[i]).text + "\n"@,
        )
        &&& hs[i].severity == Severity::Warning ==> contains_text(
            rendering(r, hs),
            "  [WARN] "@ + hs[i].text + "\n"@,
        )
        &&& hs[i].severity == Severity::Info ==> contains_text(
            rendering(r, hs),
            "  [info] "@ + hs[i].text + "\n"@,
        )
    } by {
        lemma_hint_line_badge(hs[i]);
        assert(contains_text(rendering(r, hs), hint_line(hs[i])));
    }
}

// ---------------------------------------------------------------------
// No escape codes
// ---------------------------------------------------------------------

/// The escape character that starts terminal colour codes.
pub open spec fn esc() -> char {
    '\u{1b}'
}

/// Whether `s` holds no `c`.
pub open spec fn free_of(s: Seq<char>, c: char) -> bool {
    forall|i: int| 0 <= i < s.len() ==> s[i] != c
}

/// Whether none of the texts of a report holds `c`.
pub open spec fn report_free_of(r: ReportView, c: char) -> bool {
    &&& free_of(r.domain, c)
    &&& forall|i: int|
        0 <= i < r.mx.len() ==> free_of((#[trigger] r.mx[i]).exchange, c) && forall|j: int|
            0 <= j < r.mx[i].ips.len() ==> free_of(#[trigger] r.mx[i].ips[j], c)
    &&& r.spf matches Some(spf) ==> free_of(spf.raw, c) && (spf.all_qualifier matches Some(q)
        ==> free_of(q, c))
    &&& r.dmarc matches Some(d) ==> free_of(d.raw, c)
}

proof fn lemma_free_add(a: Seq<char>, b: Seq<char>, c: char)
    ensures
        free_of(a + b, c) == (free_of(a, c) && free_of(b, c)),
{
    if free_of(a + b, c) {
        assert forall|i: int| 0 <= i < a.len() implies a[i] != c by {
            assert(a[i] == (a + b)[i]);
        }
        assert forall|i: int| 0 <= i < b.len() implies b[i] != c by {
            assert(b[i] == (a + b)[a.len() + i]);
        }
    }
}

proof fn lemma_repeat_free(piece: Seq<char>, n: nat, c: char)
    requires
        free_of(piece, c),
    ensures
        free_of(repeat(piece, n), c),
    decreases n,
{
    if n > 0 {
        lemma_repeat_free(piece, (n - 1) as nat, c);
        lemma_free_add(repeat(piece, (n - 1) as nat), piece, c);
    }
}

proof fn lemma_decimal_free(n: nat)
    ensures
        free_of(decimal(n), esc()),
    decreases n,
{
    if n >= 10 {
        lemma_decimal_free(n / 10);
        lemma_free_add(decimal(n / 10), seq![digit_char(n % 10)], esc());
        assert(decimal(n / 10).push(digit_char(n % 10)) =~= decimal(n / 10) + seq![
            digit_char(n % 10),
        ]);
    }
}

proof fn lemma_join_free(items: Seq<Seq<char>>, sep: Seq<char>, c: char)
    requires
        free_of(sep, c),
        forall|j: int| 0 <= j < items.len() ==> free_of(#[trigger] items[j], c),
    ensures
        free_of(join(items, sep), c),
    decreases items.len(),
{
    if items.len() > 1 {
        lemma_join_free(items.drop_last(), sep, c);
        lemma_free_add(join(items.drop_last(), sep), sep, c);
        lemma_free_add(join(items.drop_last(), sep) + sep, items.last(), c);
        assert(items.last() == items[items.len() - 1]);
    } else if items.len() == 1 {
        assert(items[0] == items[0]);
    }
}

proof fn lemma_mx_lines_free(mx: Seq<MxView>)
    requires
        forall|i: int|
            0 <= i < mx.len() ==> free_of((#[trigger] mx[i]).exchange, esc()) && forall|j: int|
                0 <= j < mx[i].ips.len() ==> free_of(#[trigger] mx[i].ips[j], esc()),
    ensures
        free_of(mx_lines(mx), esc()),
    decreases mx.len(),
{
    if mx.len() > 0 {
        lemma_mx_lines_free(mx.drop_last());
        let m = mx.last();
        assert(m == mx[mx.len() - 1]);
        reveal_strlit("  ");
        reveal_strlit("  [");
        reveal_strlit("<unresolved>");
        reveal_strlit(", ");
        reveal_strlit("]");
        reveal_strlit("\n");
        reveal_strlit(" ");
        lemma_decimal_free(m.preference as nat);
        let p = decimal(m.preference as nat);
        if p.len() < 3 {
            lemma_repeat_free(" "@, (3 - p.len()) as nat, esc());
            lemma_free_add(repeat(" "@, (3 - p.len()) as nat), p, esc());
        }
        if m.exchange.len() < 40 {
            lemma_repeat_free(" "@, (40 - m.exchange.len()) as nat, esc());
            lemma_free_add(m.exchange, repeat(" "@, (40 - m.exchange.len()) as nat), esc());
        }
        let ips = if m.ips.len() == 0 {
            "<unresolved>"@
        } else {
            join(m.ips, ", "@)
        };
        if m.ips.len() > 0 {
            lemma_join_free(m.ips, ", "@, esc());
        }
        let a = "  "@ + pad_left(p, 3);
        lemma_free_add("  "@, pad_left(p, 3), esc());
        lemma_free_add(a, "  "@, esc());
        lemma_free_add(a + "  "@, pad_right(m.exchange, 40), esc());
        lemma_free_add(a + "  "@ + pad_right(m.exchange, 40), "  ["@, esc());
        lemma_free_add(a + "  "@ + pad_right(m.exchange, 40) + "  ["@, ips, esc());
        lemma_free_add(a + "  "@ + pad_right(m.exchange, 40) + "  ["@ + ips, "]"@, esc());
        lemma_free_add(a + "  "@ + pad_right(m.exchange, 40) + "  ["@ + ips + "]"@, nl(), esc());
        lemma_free_add(mx_lines(mx.drop_last()), mx_line(m), esc());
    }
}

proof fn lemma_hint_lines_free(hs: Seq<HintView>)
    requires
        forall|i: int| 0 <= i < hs.len() ==> free_of((#[trigger] hs[i]).text, esc()),
    ensures
        free_of(hint_lines(hs), esc()),
    decreases hs.len(),
{
    if hs.len() > 0 {
        lemma_hint_lines_free(hs.drop_last());
        let h = hs.last();
        assert(h == hs[hs.len() - 1]);
        reveal_strlit("  ");
        reveal_strlit(" ");
        reveal_strlit("\n");
        reveal_strlit("[CRIT]");
        reveal_strlit("[WARN]");
        reveal_strlit("[info]");
        lemma_free_add("  "@, badge(h.severity), esc());
        lemma_free_add("  "@ + badge(h.severity), " "@, esc());
        lemma_free_add("  "@ + badge(h.severity) + " "@, h.text, esc());
        lemma_free_add("  "@ + badge(h.severity) + " "@ + h.text, nl(), esc());
        lemma_free_add(hint_lines(hs.drop_last()), hint_line(h), esc());
    }
}

proof fn lemma_title_free(r: ReportView)
    requires
        free_of(r.domain, esc()),
    ensures
        free_of(render_title(r), esc()),
{
    reveal_strlit("DNS audit for ");
    reveal_strlit("\n");
    reveal_strlit("-");
    lemma_repeat_free("-"@, (20 + encode_utf8(r.domain).len()) as nat, esc());
    let dashes = repeat("-"@, (20 + encode_utf8(r.domain).len()) as nat);
    lemma_free_add("DNS audit for "@, r.domain, esc());
    lemma_free_add("DNS audit for "@ + r.domain, nl(), esc());
    lemma_free_add("DNS audit for "@ + r.domain + nl(), dashes, esc());
    lemma_free_add("DNS audit for "@ + r.domain + nl() + dashes, nl(), esc());
    lemma_free_add("DNS audit for "@ + r.domain + nl() + dashes + nl(), nl(), esc());
}

proof fn lemma_mx_section_free(r: ReportView)
    requires
        report_free_of(r, esc()),
    ensures
        free_of(mx_section(r), esc()),
{
    reveal_strlit("\n");
    reveal_strlit("MX:    (none)");
    reveal_strlit("MX:");
    if r.mx.len() > 0 {
        lemma_mx_lines_free(r.mx);
        lemma_free_add("MX:"@, nl(), esc());
        lemma_free_add("MX:"@ + nl(), mx_lines(r.mx), esc());
    } else {
        lemma_free_add("MX:    (none)"@, nl(), esc());
    }
}

proof fn lemma_spf_section_free(r: ReportView)
    requires
        report_free_of(r, esc()),
    ensures
        free_of(spf_section(r), esc()),
{
    reveal_strlit("\n");
    reveal_strlit("SPF:   ");
    reveal_strlit("         (all-qualifier: '");
    reveal_strlit("all')");
    reveal_strlit("SPF:   (none)");
    match r.spf {
        Some(spf) => {
            let q = match spf.all_qualifier {
                Some(q) => "         (all-qualifier: '"@ + q + "all')"@ + nl(),
                None => seq![],
            };
            if let Some(qq) = spf.all_qualifier {
                lemma_free_add("         (all-qualifier: '"@, qq, esc());
                lemma_free_add("         (all-qualifier: '"@ + qq, "all')"@, esc());
                lemma_free_add("         (all-qualifier: '"@ + qq + "all')"@, nl(), esc());
            }
            lemma_free_add("SPF:   "@, spf.raw, esc());
            lemma_free_add("SPF:   "@ + spf.raw, nl(), esc());
            lemma_free_add("SPF:   "@ + spf.raw + nl(), q, esc());
        },
        None => {
            lemma_free_add("SPF:   (none)"@, nl(), esc());
        },
    }
}

proof fn lemma_dmarc_section_free(r: ReportView)
    requires
        report_free_of(r, esc()),
    ensures
        free_of(dmarc_section(r), esc()),
{
    reveal_strlit("\n");
    reveal_strlit("DMARC: ");
    reveal_strlit("DMARC: (none)");
    match r.dmarc {
        Some(d) => {
            lemma_free_add("DMARC: "@, d.raw, esc());
            lemma_free_add("DMARC: "@ + d.raw, nl(), esc());
        },
        None => {
            lemma_free_add("DMARC: (none)"@, nl(), esc());
        },
    }
}

proof fn lemma_hints_section_free(hs: Seq<HintView>)
    requires
        forall|i: int| 0 <= i < hs.len() ==> free_of((#[trigger] hs[i]).text, esc()),
    ensures
        free_of(hints_section(hs), esc()),
{
    reveal_strlit("\n");
    reveal_strlit("Hints: (none - the basics look healthy)");
    reveal_strlit("Hints:");
    if hs.len() > 0 {
        lemma_hint_lines_free(hs);
        lemma_free_add("Hints:"@, nl(), esc());
        lemma_free_add("Hints:"@ + nl(), hint_lines(hs), esc());
    } else {
        lemma_free_add("Hints: (none - the basics look healthy)"@, nl(), esc());
    }
}

/// The rendering holds no escape character (so no colour codes) unless
/// one of the texts it shows does.
pub proof fn rendering_has_no_escape_codes(r: ReportView, hs: Seq<HintView>)
    requires
        report_free_of(r, esc()),
        forall|i: int| 0 <= i < hs.len() ==> free_of((#[trigger] hs[i]).text, esc()),
    ensures
        free_of(rendering(r, hs), esc()),
{
    reveal_strlit("\n");
    lemma_title_free(r);
    lemma_mx_section_free(r);
    lemma_spf_section_free(r);
    lemma_dmarc_section_free(r);
    lemma_hints_section_free(hs);
    let t = render_title(r);
    let a = t + mx_section(r);
    let b = a + nl();
    let c = b + spf_section(r);
    let d = c + nl();
    let e = d + dmarc_section(r);
    let f = e + nl();
    lemma_free_add(t, mx_section(r), esc());
    lemma_free_add(a, nl(), esc());
    lemma_free_add(b, spf_section(r), esc());
    lemma_free_add(c, nl(), esc());
    lemma_free_add(d, dmarc_section(r), esc());
    lemma_free_add(e, nl(), esc());
    lemma_free_add(f, hints_section(hs), esc());
}

} // verus!
