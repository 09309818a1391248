//! The interpretation of a report: which hints it calls for, and in which
//! order.

use vstd::prelude::*;

use super::{DmarcView, DnsHint, DnsReport, HintView, MxRecord, MxView, ReportView, Severity};
use crate::text::{contains_text, decimal, eq_str, join, lemma_join_push, push_decimal};

verus! {

// =====================================================================
// Interpretation - what would IT actually do about this report?
// =====================================================================

// The English texts of the hints.  A domain, a list of exchanges, a policy
// or a number stands before a text that begins with a space or a dot, or
// between a `_HEAD` and its `_TAIL`.

pub const TEXT_NO_MX: &'static str = " has no MX records.  Mail to this domain will bounce with 'unrouteable address' on every receiver.";
pub const TEXT_MX_NO_A_HEAD: &'static str = "MX hostname(s) without A/AAAA records: ";
pub const TEXT_MX_NO_A_TAIL: &'static str = ".  Receivers will fail to resolve where to deliver - fix the forward DNS for these hosts.";
pub const TEXT_NO_SPF: &'static str = " has no SPF record.  Many receivers (Microsoft 365, Yahoo, AOL) treat this as 'suspicious' and may junk or reject the mail.";
pub const TEXT_SPF_PLUS_HEAD: &'static str = "SPF record ends with '+all' - this means 'anyone in the world may send as ";
pub const TEXT_SPF_PLUS_TAIL: &'static str = "'.  Effectively no policy. Change to '-all' (strict) or '~all' (softfail).";
pub const TEXT_SPF_NEUTRAL: &'static str = "SPF record ends with '?all' (neutral).  Receivers cannot use SPF to distinguish legitimate mail from forgeries.  Tighten to '~all' or '-all'.";
pub const TEXT_SPF_NO_ALL: &'static str = "SPF record has no 'all' mechanism.  Per RFC 7208 this is treated as 'neutral' by most receivers. Append '~all' or '-all' to make the policy explicit.";
pub const TEXT_NO_DMARC_MID: &'static str = " has no DMARC record at _dmarc.";
pub const TEXT_NO_DMARC_TAIL: &'static str = ".  Without DMARC, receivers will not honour your SPF / DKIM alignment - spoofing of your domain is harder to block.";
pub const TEXT_DMARC_P_NONE: &'static str = "DMARC policy is 'p=none' (monitor-only).  Useful for the first weeks after deploying DMARC; tighten to p=quarantine then p=reject once aggregate reports look clean.";
pub const TEXT_DMARC_P_UNKNOWN_HEAD: &'static str = "DMARC policy 'p=";
pub const TEXT_DMARC_P_UNKNOWN_TAIL: &'static str = "' is not a value any receiver recognises.  Use 'none', 'quarantine', or 'reject'.";
pub const TEXT_DMARC_NO_P: &'static str = "DMARC record is missing the required 'p=' tag.  Receivers will ignore the record.";
pub const TEXT_PCT_HEAD: &'static str = "DMARC pct=";
pub const TEXT_PCT_TAIL: &'static str = ": only that percentage of non-aligned mail is acted on.  Fine while rolling out, but raise to pct=100 once reports are clean.";

pub open spec fn hint_view(id: Seq<char>, severity: Severity, text: Seq<char>) -> HintView {
    HintView { id, text, severity }
}

/// The views of a sequence of hints.
pub open spec fn hint_views(hs: Seq<DnsHint>) -> Seq<HintView> {
    hs.map_values(|h: DnsHint| h@)
}

/// The exchanges of the MX records that have no address, in order.
pub open spec fn unresolved_exchanges(mx: Seq<MxView>) -> Seq<Seq<char>>
    decreases mx.len(),
{
    if mx.len() == 0 {
        seq![]
    } else if mx.last().ips.len() == 0 {
        unresolved_exchanges(mx.drop_last()).push(mx.last().exchange)
    } else {
        unresolved_exchanges(mx.drop_last())
    }
}

/// The hints on the MX records: none at all is critical, and so are
/// exchanges without an address.
pub open spec fn mx_hints(r: ReportView) -> Seq<HintView> {
    if r.mx.len() == 0 {
        seq![hint_view("no_mx"@, Severity::Critical, r.domain + TEXT_NO_MX@)]
    } else if unresolved_exchanges(r.mx).len() > 0 {
        seq![
            hint_view(
                "mx_no_a"@,
                Severity::Critical,
                TEXT_MX_NO_A_HEAD@ + join(unresolved_exchanges(r.mx), ", "@) + TEXT_MX_NO_A_TAIL@,
            ),
        ]
    } else {
        seq![]
    }
}

/// The hints on the SPF record: a missing record, `+all`, `?all` and a
/// missing `all` are flagged; `-all`, `~all` (and any other qualifier) are
/// not.
pub open spec fn spf_hints(r: ReportView) -> Seq<HintView> {
    match r.spf {
        None => seq![hint_view("no_spf"@, Severity::Warning, r.domain + TEXT_NO_SPF@)],
        Some(spf) => match spf.all_qualifier {
            Some(q) => if q == "+"@ {
                seq![
                    hint_view(
                        "spf_plus_all"@,
                        Severity::Critical,
                        TEXT_SPF_PLUS_HEAD@ + r.domain + TEXT_SPF_PLUS_TAIL@,
                    ),
                ]
            } else if q == "?"@ {
                seq![hint_view("spf_neutral_all"@, Severity::Warning, TEXT_SPF_NEUTRAL@)]
            } else {
                seq![]
            },
            None => seq![hint_view("spf_no_all"@, Severity::Warning, TEXT_SPF_NO_ALL@)],
        },
    }
}

/// The hint on the DMARC policy: `none` is worth knowing, `quarantine` and
/// `reject` are healthy, anything else or no policy is a warning.
pub open spec fn dmarc_policy_hints(d: DmarcView) -> Seq<HintView> {
    match d.policy {
        Some(p) => if p == "none"@ {
            seq![hint_view("dmarc_p_none"@, Severity::Info, TEXT_DMARC_P_NONE@)]
        } else if p == "quarantine"@ || p == "reject"@ {
            seq![]
        } else {
            seq![
                hint_view(
                    "dmarc_p_unknown"@,
                    Severity::Warning,
                    TEXT_DMARC_P_UNKNOWN_HEAD@ + p + TEXT_DMARC_P_UNKNOWN_TAIL@,
                ),
            ]
        },
        None => seq![hint_view("dmarc_no_p"@, Severity::Warning, TEXT_DMARC_NO_P@)],
    }
}

/// The hint on a sampling rate below 100%.
pub open spec fn dmarc_pct_hints(d: DmarcView) -> Seq<HintView> {
    match d.pct {
        Some(p) => if p < 100 {
            seq![
                hint_view(
                    "dmarc_pct_low"@,
                    Severity::Info,
                    TEXT_PCT_HEAD@ + decimal(p as nat) + TEXT_PCT_TAIL@,
                ),
            ]
        } else {
            seq![]
        },
        None => seq![],
    }
}

/// The hints on the DMARC record.
pub open spec fn dmarc_hints(r: ReportView) -> Seq<HintView> {
    match r.dmarc {
        None => seq![
            hint_view(
                "no_dmarc"@,
                Severity::Warning,
                r.domain + TEXT_NO_DMARC_MID@ + r.domain + TEXT_NO_DMARC_TAIL@,
            ),
        ],
        Some(d) => dmarc_policy_hints(d) + dmarc_pct_hints(d),
    }
}

/// All hints on a report, before ordering: MX, then SPF, then DMARC.
pub open spec fn report_hints(r: ReportView) -> Seq<HintView> {
    mx_hints(r) + spf_hints(r) + dmarc_hints(r)
}

/// The hints of `hs` that have severity `sev`, in their order.
pub open spec fn with_severity(hs: Seq<HintView>, sev: Severity) -> Seq<HintView>
    decreases hs.len(),
{
    if hs.len() == 0 {
        seq![]
    } else if hs.last().severity == sev {
        with_severity(hs.drop_last(), sev).push(hs.last())
    } else {
        with_severity(hs.drop_last(), sev)
    }
}

/// `hs` stably ordered by severity, Critical first.
pub open spec fn by_severity(hs: Seq<HintView>) -> Seq<HintView> {
    with_severity(hs, Severity::Critical) + with_severity(hs, Severity::Warning) + with_severity(
        hs,
        Severity::Info,
    )
}

/// What `interpret` returns for a report.
pub open spec fn interpretation(r: ReportView) -> Seq<HintView> {
    by_severity(report_hints(r))
}

proof fn lemma_with_severity_push(hs: Seq<HintView>, h: HintView, sev: Severity)
    ensures
        with_severity(hs.push(h), sev) == if h.severity == sev {
            with_severity(hs, sev).push(h)
        } else {
            with_severity(hs, sev)
        },
{
    assert(hs.push(h).drop_last() =~= hs);
    assert(hs.push(h).last() == h);
}

/// Orders hints stably by severity, Critical first.
fn sort_by_severity(hints: Vec<DnsHint>) -> (res: Vec<DnsHint>)
    ensures
        hint_views(res@) == by_severity(hint_views(hints@)),
{
    let ghost all = hint_views(hints@);
    let mut rest = hints;
    let mut crit: Vec<DnsHint> = Vec::new();
    let mut warn: Vec<DnsHint> = Vec::new();
    let mut info: Vec<DnsHint> = Vec::new();
    let ghost mut done: int = 0;
    assert(hints@.skip(0) =~= hints@);
    while rest.len() > 0
        invariant
            0 <= done <= hints@.len(),
            all == hint_views(hints@),
            rest@ == hints@.skip(done),
            hint_views(crit@) == with_severity(all.take(done), Severity::Critical),
            hint_views(warn@) == with_severity(all.take(done), Severity::Warning),
            hint_views(info@) == with_severity(all.take(done), Severity::Info),
        decreases rest@.len(),
    {
        let h = rest.remove(0);
        let ghost hv = h@;
        proof {
            assert(h == hints@[done]);
            assert(all.take(done + 1) =~= all.take(done).push(hv));
            lemma_with_severity_push(all.take(done), hv, Severity::Critical);
            lemma_with_severity_push(all.take(done), hv, Severity::Warning);
            lemma_with_severity_push(all.take(done), hv, Severity::Info);
        }
        let ghost (c0, w0, i0) = (crit@, warn@, info@);
        match h.severity {
            Severity::Critical => crit.push(h),
            Severity::Warning => warn.push(h),
            Severity::Info => info.push(h),
        }
        proof {
            assert(hint_views(c0.push(h)) =~= hint_views(c0).push(hv));
            assert(hint_views(w0.push(h)) =~= hint_views(w0).push(hv));
            assert(hint_views(i0.push(h)) =~= hint_views(i0).push(hv));
            done = done + 1;
            assert(rest@ =~= hints@.skip(done));
        }
    }
    assert(all.take(done) =~= all);
    let ghost (c0, w0, i0) = (crit@, warn@, info@);
    crit.append(&mut warn);
    crit.append(&mut info);
    assert(hint_views(crit@) =~= hint_views(c0) + hint_views(w0) + hint_views(i0));
    crit
}

/// The exchanges without an address joined with `", "`, and their number.
fn unresolved_list(mx: &Vec<MxRecord>) -> (r: (String, usize))
    ensures
        r.0@ == join(unresolved_exchanges(mx@.map_values(|m: MxRecord| m@)), ", "@),
        r.1 == unresolved_exchanges(mx@.map_values(|m: MxRecord| m@)).len(),
{
    let ghost mv = mx@.map_values(|m: MxRecord| m@);
    let mut s = String::new();
    let mut count: usize = 0;
    let mut i: usize = 0;
    assert(mv.take(0) =~= seq![]);
    while i < mx.len()
        invariant
            i <= mx@.len(),
            mv == mx@.map_values(|m: MxRecord| m@),
            s@ == join(unresolved_exchanges(mv.take(i as int)), ", "@),
            count == unresolved_exchanges(mv.take(i as int)).len(),
            count <= i,
        decreases mx@.len() - i,
    {
        let ghost before = unresolved_exchanges(mv.take(i as int));
        assert(mv.take(i + 1).drop_last() =~= mv.take(i as int));
        assert(mv.take(i + 1).last() == mx@[i as int]@);
        if mx[i].ips.len() == 0 {
            proof {
                lemma_join_push(before, ", "@, mx@[i as int].exchange@);
            }
            if count > 0 {
                s.append(", ");
            }
            s.append(mx[i].exchange.as_str());
            count = count + 1;
        }
        i = i + 1;
    }
    assert(mv.take(mx@.len() as int) =~= mv);
    (s, count)
}

/// Converts a report into a flat list of hints, sorted by severity
/// (Critical first).  The English text in each hint is a usable default; a
/// localised version can be keyed by `DnsHint::id`.
#[verifier::spinoff_prover]
pub fn interpret(report: &DnsReport) -> (res: Vec<DnsHint>)
    ensures
        hint_views(res@) == interpretation(report@),
{
    let ghost r = report@;
    let mut out: Vec<DnsHint> = Vec::new();

    // ---- MX ---------------------------------------------------------
    if report.mx.len() == 0 {
        let mut t = String::new();
        t.append(report.domain.as_str());
        t.append(TEXT_NO_MX);
        out.push(DnsHint { id: "no_mx", severity: Severity::Critical, text: t });
    } else {
        let (list, count) = unresolved_list(&report.mx);
        if count > 0 {
            let mut t = String::new();
            t.append(TEXT_MX_NO_A_HEAD);
            t.append(list.as_str());
            t.append(TEXT_MX_NO_A_TAIL);
            out.push(DnsHint { id: "mx_no_a", severity: Severity::Critical, text: t });
        }
    }
    assert(hint_views(out@) =~= mx_hints(r));
    let ghost after_mx = out@;

    // ---- SPF --------------------------------------------------------
    match &report.spf {
        None => {
            let mut t = String::new();
            t.append(report.domain.as_str());
            t.append(TEXT_NO_SPF);
            out.push(DnsHint { id: "no_spf", severity: Severity::Warning, text: t });
        },
        Some(spf) => match &spf.all_qualifier {
            Some(q) => {
                if eq_str(q.as_str(), "+") {
                    let mut t = String::new();
                    t.append(TEXT_SPF_PLUS_HEAD);
                    t.append(report.domain.as_str());
                    t.append(TEXT_SPF_PLUS_TAIL);
                    out.push(DnsHint { id: "spf_plus_all", severity: Severity::Critical, text: t });
                } else if eq_str(q.as_str(), "?") {
                    let mut t = String::new();
                    t.append(TEXT_SPF_NEUTRAL);
                    out.push(DnsHint { id: "spf_neutral_all", severity: Severity::Warning, text: t });
                }
            },
            None => {
                let mut t = String::new();
                t.append(TEXT_SPF_NO_ALL);
                out.push(DnsHint { id: "spf_no_all", severity: Severity::Warning, text: t });
            },
        },
    }
    assert(hint_views(out@) =~= hint_views(after_mx) + spf_hints(r));
    let ghost after_spf = out@;

    // ---- DMARC ------------------------------------------------------
    match &report.dmarc {
        None => {
            let mut t = String::new();
            t.append(report.domain.as_str());
            t.append(TEXT_NO_DMARC_MID);
            t.append(report.domain.as_str());
            t.append(TEXT_NO_DMARC_TAIL);
            out.push(DnsHint { id: "no_dmarc", severity: Severity::Warning, text: t });
        },
        Some(d) => {
            match &d.policy {
                Some(p) => {
                    if eq_str(p.as_str(), "none") {
                        let mut t = String::new();
                        t.append(TEXT_DMARC_P_NONE);
                        out.push(DnsHint { id: "dmarc_p_none", severity: Severity::Info, text: t });
                    } else if eq_str(p.as_str(), "quarantine") || eq_str(p.as_str(), "reject") {
                        // Healthy: nothing to flag.
                    } else {
                        let mut t = String::new();
                        t.append(TEXT_DMARC_P_UNKNOWN_HEAD);
                        t.append(p.as_str());
                        t.append(TEXT_DMARC_P_UNKNOWN_TAIL);
                        out.push(DnsHint { id: "dmarc_p_unknown", severity: Severity::Warning, text: t });
                    }
                },
                None => {
                    let mut t = String::new();
                    t.append(TEXT_DMARC_NO_P);
                    out.push(DnsHint { id: "dmarc_no_p", severity: Severity::Warning, text: t });
                },
            }
            if let Some(pct) = d.pct {
                if pct < 100 {
                    let mut t = String::new();
                    t.append(TEXT_PCT_HEAD);
                    push_decimal(&mut t, pct as u32);
                    t.append(TEXT_PCT_TAIL);
                    out.push(DnsHint { id: "dmarc_pct_low", severity: Severity::Info, text: t });
                }
            }
        },
    }
    assert(hint_views(out@) =~= hint_views(after_spf) + dmarc_hints(r));
    assert(hint_views(out@) =~= report_hints(r));
    sort_by_severity(out)
}

// ---------------------------------------------------------------------
// Laws of the interpretation
// ---------------------------------------------------------------------

/// The rank by which hints are ordered: Critical first, then Warning, then
/// Info.
pub open spec fn rank(s: Severity) -> int {
    match s {
        Severity::Critical => 0,
        Severity::Warning => 1,
        Severity::Info => 2,
    }
}

proof fn lemma_with_severity_only(hs: Seq<HintView>, sev: Severity)
    ensures
        forall|i: int|
            0 <= i < with_severity(hs, sev).len() ==> (#[trigger] with_severity(hs, sev)[i]).severity
                == sev,
    decreases hs.len(),
{
    if hs.len() > 0 {
        lemma_with_severity_only(hs.drop_last(), sev);
    }
}

proof fn lemma_with_severity_none(hs: Seq<HintView>, sev: Severity)
    requires
        forall|i: int| 0 <= i < hs.len() ==> (#[trigger] hs[i]).severity != sev,
    ensures
        with_severity(hs, sev) == Seq::<HintView>::empty(),
    decreases hs.len(),
{
    if hs.len() > 0 {
        assert(hs.last() == hs[hs.len() - 1]);
        lemma_with_severity_none(hs.drop_last(), sev);
    }
}

proof fn lemma_with_severity_all(hs: Seq<HintView>, sev: Severity)
    requires
        forall|i: int| 0 <= i < hs.len() ==> (#[trigger] hs[i]).severity == sev,
    ensures
        with_severity(hs, sev) == hs,
    decreases hs.len(),
{
    if hs.len() > 0 {
        assert(hs.last() == hs[hs.len() - 1]);
        lemma_with_severity_all(hs.drop_last(), sev);
        assert(hs.drop_last().push(hs.last()) =~= hs);
    }
}

proof fn lemma_with_severity_prepend(h: HintView, rest: Seq<HintView>, sev: Severity)
    ensures
        with_severity(seq![h] + rest, sev) == if h.severity == sev {
            seq![h] + with_severity(rest, sev)
        } else {
            with_severity(rest, sev)
        },
    decreases rest.len(),
{
    let e = Seq::<HintView>::empty();
    if rest.len() == 0 {
        assert(seq![h] + rest =~= seq![h]);
        assert(seq![h].drop_last() =~= e);
        assert(seq![h].last() == h);
        assert(with_severity(e, sev) == e);
        assert(rest =~= e);
        assert(seq![h] + e =~= seq![h]);
        assert(e.push(h) =~= seq![h]);
    } else {
        lemma_with_severity_prepend(h, rest.drop_last(), sev);
        assert((seq![h] + rest).drop_last() =~= seq![h] + rest.drop_last());
        assert((seq![h] + rest).last() == rest.last());
        if h.severity == sev {
            assert((seq![h] + with_severity(rest.drop_last(), sev)).push(rest.last()) =~= seq![h]
                + with_severity(rest.drop_last(), sev).push(rest.last()));
        }
    }
}

proof fn lemma_with_severity_contains(hs: Seq<HintView>, i: int)
    requires
        0 <= i < hs.len(),
    ensures
        with_severity(hs, hs[i].severity).contains(hs[i]),
    decreases hs.len(),
{
    let sev = hs[i].severity;
    if i == hs.len() - 1 {
        assert(with_severity(hs, sev).last() == hs[i]);
    } else {
        lemma_with_severity_contains(hs.drop_last(), i);
        let w = with_severity(hs.drop_last(), sev);
        let k = choose|k: int| 0 <= k < w.len() && w[k] == hs[i];
        if hs.last().severity == sev {
            assert(w.push(hs.last())[k] == hs[i]);
        }
    }
}

proof fn lemma_by_severity_permutes(hs: Seq<HintView>)
    ensures
        by_severity(hs).to_multiset() =~= hs.to_multiset(),
    decreases hs.len(),
{
    broadcast use vstd::seq_lib::group_to_multiset_ensures, vstd::multiset::group_multiset_axioms;

    let c = with_severity(hs, Severity::Critical);
    let w = with_severity(hs, Severity::Warning);
    let f = with_severity(hs, Severity::Info);
    vstd::seq_lib::lemma_multiset_commutative(c + w, f);
    vstd::seq_lib::lemma_multiset_commutative(c, w);
    if hs.len() == 0 {
        assert(hs.to_multiset() =~= vstd::multiset::Multiset::empty());
    } else {
        let p = hs.drop_last();
        let x = hs.last();
        assert(p.push(x) =~= hs);
        lemma_by_severity_permutes(p);
        lemma_with_severity_push(p, x, Severity::Critical);
        lemma_with_severity_push(p, x, Severity::Warning);
        lemma_with_severity_push(p, x, Severity::Info);
        let pc = with_severity(p, Severity::Critical);
        let pw = with_severity(p, Severity::Warning);
        let pf = with_severity(p, Severity::Info);
        vstd::seq_lib::lemma_multiset_commutative(pc + pw, pf);
        vstd::seq_lib::lemma_multiset_commutative(pc, pw);
        vstd::seq_lib::to_multiset_build(p, x);
        vstd::seq_lib::to_multiset_build(pc, x);
        vstd::seq_lib::to_multiset_build(pw, x);
        vstd::seq_lib::to_multiset_build(pf, x);
    }
}

/// `interpret` returns each hint that the report calls for exactly once,
/// ordered by severity with Critical first (and, within one severity, in the
/// order MX, SPF, DMARC).
pub proof fn interpret_orders_every_hint_by_severity(r: ReportView)
    ensures
        interpretation(r).to_multiset() == report_hints(r).to_multiset(),
        forall|i: int, j: int|
            0 <= i < j < interpretation(r).len() ==> rank(interpretation(r)[i].severity) <= rank(
                interpretation(r)[j].severity,
            ),
{
    let hs = report_hints(r);
    lemma_by_severity_permutes(hs);
    let c = with_severity(hs, Severity::Critical);
    let w = with_severity(hs, Severity::Warning);
    let f = with_severity(hs, Severity::Info);
    lemma_with_severity_only(hs, Severity::Critical);
    lemma_with_severity_only(hs, Severity::Warning);
    lemma_with_severity_only(hs, Severity::Info);
    let b = interpretation(r);
    assert forall|i: int, j: int| 0 <= i < j < b.len() implies rank(b[i].severity) <= rank(
        b[j].severity,
    ) by {
        if i < c.len() {
            assert(b[i] == c[i]);
        } else if i < c.len() + w.len() {
            assert(b[i] == w[i - c.len()]);
            if j < c.len() + w.len() {
                assert(b[j] == w[j - c.len()]);
            } else {
                assert(b[j] == f[j - c.len() - w.len()]);
            }
        } else {
            assert(b[i] == f[i - c.len() - w.len()]);
            assert(b[j] == f[j - c.len() - w.len()]);
        }
    }
}

/// A report without MX records is answered with the Critical `no_mx` hint,
/// first in the list.
pub proof fn missing_mx_is_critical(r: ReportView)
    requires
        r.mx.len() == 0,
    ensures
        interpretation(r).len() > 0,
        interpretation(r)[0].id == "no_mx"@,
        interpretation(r)[0].severity == Severity::Critical,
{
    let h = hint_view("no_mx"@, Severity::Critical, r.domain + TEXT_NO_MX@);
    let rest = spf_hints(r) + dmarc_hints(r);
    assert(report_hints(r) =~= seq![h] + rest);
    lemma_with_severity_prepend(h, rest, Severity::Critical);
    let b = interpretation(r);
    assert(b[0] == (seq![h] + with_severity(rest, Severity::Critical))[0]);
}

/// An SPF record whose `all` mechanism is `+all` is answered with the
/// Critical `spf_plus_all` hint.
pub proof fn plus_all_is_critical(r: ReportView)
    requires
        r.spf matches Some(spf) && spf.all_qualifier == Some("+"@),
    ensures
        exists|i: int|
            0 <= i < interpretation(r).len() && (#[trigger] interpretation(r)[i]).id
                == "spf_plus_all"@ && interpretation(r)[i].severity == Severity::Critical,
{
    let hs = report_hints(r);
    let k = mx_hints(r).len() as int;
    assert(hs[k] == spf_hints(r)[0]);
    lemma_with_severity_contains(hs, k);
    let c = with_severity(hs, Severity::Critical);
    let j = choose|j: int| 0 <= j < c.len() && c[j] == hs[k];
    assert(interpretation(r)[j] == c[j]);
}

proof fn lemma_unresolved_contains(mx: Seq<MxView>, k: int)
    requires
        0 <= k < mx.len(),
        mx[k].ips.len() == 0,
    ensures
        unresolved_exchanges(mx).contains(mx[k].exchange),
    decreases mx.len(),
{
    if k == mx.len() - 1 {
        assert(unresolved_exchanges(mx).last() == mx[k].exchange);
    } else {
        lemma_unresolved_contains(mx.drop_last(), k);
        let u = unresolved_exchanges(mx.drop_last());
        let j = choose|j: int| 0 <= j < u.len() && u[j] == mx[k].exchange;
        if mx.last().ips.len() == 0 {
            assert(u.push(mx.last().exchange)[j] == mx[k].exchange);
        }
    }
}

proof fn lemma_join_contains(items: Seq<Seq<char>>, sep: Seq<char>, j: int)
    requires
        0 <= j < items.len(),
    ensures
        contains_text(join(items, sep), items[j]),
    decreases items.len(),
{
    let joined = join(items, sep);
    if items.len() == 1 {
        let at: int = 0;
        assert(joined.subrange(at, at + items[j].len()) =~= items[j]);
    } else if j == items.len() - 1 {
        let at: int = (join(items.drop_last(), sep) + sep).len() as int;
        assert(joined.subrange(at, at + items[j].len()) =~= items[j]);
    } else {
        lemma_join_contains(items.drop_last(), sep, j);
        let prev = join(items.drop_last(), sep);
        let x = items.drop_last()[j];
        let at = choose|at: int|
            0 <= at && at + x.len() <= prev.len() && #[trigger] prev.subrange(at, at + x.len())
                == x;
        assert(x == items[j]);
        assert(joined.subrange(at, at + items[j].len()) =~= prev.subrange(at, at + x.len()));
    }
}

/// An MX record without addresses is answered with the Critical `mx_no_a`
/// hint, whose text names its exchange.
pub proof fn unresolved_mx_is_critical(r: ReportView, k: int)
    requires
        0 <= k < r.mx.len(),
        r.mx[k].ips.len() == 0,
    ensures
        exists|i: int|
            0 <= i < interpretation(r).len() && (#[trigger] interpretation(r)[i]).id
                == "mx_no_a"@ && interpretation(r)[i].severity == Severity::Critical
                && contains_text(interpretation(r)[i].text, r.mx[k].exchange),
{
    lemma_unresolved_contains(r.mx, k);
    let u = unresolved_exchanges(r.mx);
    let j = choose|j: int| 0 <= j < u.len() && u[j] == r.mx[k].exchange;
    lemma_join_contains(u, ", "@, j);
    let list = join(u, ", "@);
    let x = r.mx[k].exchange;
    let at = choose|at: int|
        0 <= at && at + x.len() <= list.len() && #[trigger] list.subrange(at, at + x.len()) == x;
    let text = TEXT_MX_NO_A_HEAD@ + list + TEXT_MX_NO_A_TAIL@;
    let off: int = TEXT_MX_NO_A_HEAD@.len() as int;
    assert(text.subrange(off + at, off + at + x.len()) =~= list.subrange(at, at + x.len()));
    let hs = report_hints(r);
    assert(hs[0] == mx_hints(r)[0]);
    lemma_with_severity_contains(hs, 0);
    let c = with_severity(hs, Severity::Critical);
    let i = choose|i: int| 0 <= i < c.len() && c[i] == hs[0];
    assert(interpretation(r)[i] == c[i]);
}

/// The basics of mail delivery being in place: MX records that all resolve,
/// an SPF record whose `all` is neither `+all` nor `?all`, and a DMARC
/// record with a recognised policy.
pub open spec fn basics_in_place(r: ReportView) -> bool {
    &&& r.mx.len() > 0
    &&& forall|i: int| 0 <= i < r.mx.len() ==> (#[trigger] r.mx[i]).ips.len() > 0
    &&& r.spf matches Some(spf)
    &&& spf.all_qualifier matches Some(q)
    &&& q != "+"@ && q != "?"@
    &&& r.dmarc matches Some(d)
    &&& d.policy matches Some(p)
    &&& (p == "none"@ || p == "quarantine"@ || p == "reject"@)
}

proof fn lemma_all_resolved(mx: Seq<MxView>)
    requires
        forall|i: int| 0 <= i < mx.len() ==> (#[trigger] mx[i]).ips.len() > 0,
    ensures
        unresolved_exchanges(mx).len() == 0,
    decreases mx.len(),
{
    if mx.len() > 0 {
        assert(mx.last() == mx[mx.len() - 1]);
        lemma_all_resolved(mx.drop_last());
    }
}

/// When the basics are in place, `interpret` raises nothing Critical and
/// nothing Warning: at most Info-level hints remain.
pub proof fn healthy_report_is_quiet(r: ReportView)
    requires
        basics_in_place(r),
    ensures
        forall|i: int|
            0 <= i < interpretation(r).len() ==> (#[trigger] interpretation(r)[i]).severity
                == Severity::Info,
{
    lemma_all_resolved(r.mx);
    let d = r.dmarc->0;
    let hs = report_hints(r);
    assert(hs =~= dmarc_policy_hints(d) + dmarc_pct_hints(d));
    assert forall|i: int| 0 <= i < hs.len() implies (#[trigger] hs[i]).severity
        == Severity::Info by {
        if i < dmarc_policy_hints(d).len() {
            assert(hs[i] == dmarc_policy_hints(d)[i]);
        } else {
            assert(hs[i] == dmarc_pct_hints(d)[i - dmarc_policy_hints(d).len()]);
        }
    }
    lemma_with_severity_none(hs, Severity::Critical);
    lemma_with_severity_none(hs, Severity::Warning);
    lemma_with_severity_all(hs, Severity::Info);
    assert(interpretation(r) =~= hs);
}

/// A report whose basics are in place and that has nothing to note: MX
/// records that all resolve, SPF ending in `-all` or `~all`, and a DMARC
/// policy of `quarantine` or `reject` acting on all mail.
pub open spec fn nothing_to_flag(r: ReportView) -> bool {
    &&& r.mx.len() > 0
    &&& forall|i: int| 0 <= i < r.mx.len() ==> (#[trigger] r.mx[i]).ips.len() > 0
    &&& r.spf matches Some(spf)
    &&& spf.all_qualifier matches Some(q)
    &&& (q == seq!['-'] || q == seq!['~'])
    &&& r.dmarc matches Some(d)
    &&& (d.policy == Some("quarantine"@) || d.policy == Some("reject"@))
    &&& (d.pct matches Some(p) ==> p >= 100)
}

/// A report with nothing to flag gets no hint at all: a `quarantine` or
/// `reject` policy is healthy, and so are `-all` and `~all`.
pub proof fn healthy_policy_raises_no_hint(r: ReportView)
    requires
        nothing_to_flag(r),
    ensures
        interpretation(r).len() == 0,
{
    reveal_strlit("+");
    reveal_strlit("?");
    reveal_strlit("none");
    reveal_strlit("quarantine");
    reveal_strlit("reject");
    lemma_all_resolved(r.mx);
    let d = r.dmarc->0;
    let q = r.spf->0.all_qualifier->0;
    assert(q != "+"@ && q != "?"@) by {
        if q == "+"@ {
            assert(q[0] == "+"@[0]);
        }
        if q == "?"@ {
            assert(q[0] == "?"@[0]);
        }
    }
    let p = d.policy->0;
    assert(p != "none"@) by {
        if p == "none"@ {
            assert(p.len() == "none"@.len());
        }
    }
    assert(mx_hints(r) =~= Seq::<HintView>::empty());
    assert(spf_hints(r) =~= Seq::<HintView>::empty());
    assert(dmarc_policy_hints(d) =~= Seq::<HintView>::empty());
    assert(dmarc_pct_hints(d) =~= Seq::<HintView>::empty());
    let hs = report_hints(r);
    assert(hs =~= Seq::<HintView>::empty());
    lemma_with_severity_none(hs, Severity::Critical);
    lemma_with_severity_none(hs, Severity::Warning);
    lemma_with_severity_none(hs, Severity::Info);
}

proof fn lemma_concat_contains(a: Seq<HintView>, b: Seq<HintView>, h: HintView)
    requires
        (a + b).contains(h),
    ensures
        a.contains(h) || b.contains(h),
{
    let k = choose|k: int| 0 <= k < (a + b).len() && (a + b)[k] == h;
    if k < a.len() {
        assert(a[k] == h);
    } else {
        assert(b[k - a.len()] == h);
    }
}

/// The `dmarc_p_none` hint is raised only for a DMARC record whose policy is
/// exactly `none`, and a policy of `none` always raises it.
pub proof fn p_none_hint_only_for_policy_none(r: ReportView)
    ensures
        forall|i: int|
            0 <= i < interpretation(r).len() && (#[trigger] interpretation(r)[i]).id
                == "dmarc_p_none"@ ==> (r.dmarc matches Some(d) && d.policy == Some("none"@)),
        (r.dmarc matches Some(d) && d.policy == Some("none"@)) ==> exists|i: int|
            0 <= i < interpretation(r).len() && (#[trigger] interpretation(r)[i]).id
                == "dmarc_p_none"@ && interpretation(r)[i].severity == Severity::Info,
{
    broadcast use vstd::seq_lib::to_multiset_contains;

    reveal_strlit("dmarc_p_none");
    reveal_strlit("no_mx");
    reveal_strlit("mx_no_a");
    reveal_strlit("no_spf");
    reveal_strlit("spf_plus_all");
    reveal_strlit("spf_neutral_all");
    reveal_strlit("spf_no_all");
    reveal_strlit("no_dmarc");
    reveal_strlit("dmarc_p_unknown");
    reveal_strlit("dmarc_no_p");
    reveal_strlit("dmarc_pct_low");
    interpret_orders_every_hint_by_severity(r);
    let out = interpretation(r);
    let hs = report_hints(r);
    assert forall|i: int|
        0 <= i < out.len() && (#[trigger] out[i]).id == "dmarc_p_none"@ implies (r.dmarc matches Some(
        d,
    ) && d.policy == Some("none"@)) by {
        let h = out[i];
        assert(out.contains(h));
        assert(out.to_multiset().count(h) > 0);
        assert(hs.contains(h));
        lemma_concat_contains(mx_hints(r) + spf_hints(r), dmarc_hints(r), h);
        if (mx_hints(r) + spf_hints(r)).contains(h) {
            lemma_concat_contains(mx_hints(r), spf_hints(r), h);
            if mx_hints(r).contains(h) {
                assert(h.id[0] != 'd' || h.id.len() != 12);
            } else {
                assert(h.id[0] != 'd');
            }
        } else {
            match r.dmarc {
                None => {
                    assert(h.id.len() != 12);
                },
                Some(d) => {
                    lemma_concat_contains(dmarc_policy_hints(d), dmarc_pct_hints(d), h);
                    if dmarc_pct_hints(d).contains(h) {
                        assert(h.id.len() != 12);
                    } else {
                        let ph = dmarc_policy_hints(d);
                        let k = choose|k: int| 0 <= k < ph.len() && ph[k] == h;
                        match d.policy {
                            None => {
                                assert(h.id.len() != 12);
                            },
                            Some(p) => {
                                assert(p == "none"@ || h.id.len() != 12);
                            },
                        }
                    }
                },
            }
        }
    }
    if r.dmarc matches Some(d) && d.policy == Some("none"@) {
        let d = r.dmarc->0;
        let k = (mx_hints(r) + spf_hints(r)).len() as int;
        let h = hint_view("dmarc_p_none"@, Severity::Info, TEXT_DMARC_P_NONE@);
        assert(dmarc_policy_hints(d)[0] == h);
        assert(hs[k] == h);
        assert(hs.contains(h));
        assert(hs.to_multiset().count(h) > 0);
        assert(out.contains(h));
        let j = choose|j: int| 0 <= j < out.len() && out[j] == h;
        assert(out[j].id == "dmarc_p_none"@);
    }
}

/// Why a hint with a given id is raised, and at which severity: each hint
/// id stands for one finding about the report and always has the same
/// severity.
pub open spec fn hint_has_its_cause(r: ReportView, h: HintView) -> bool {
    &&& h.id == "no_mx"@ ==> h.severity == Severity::Critical && r.mx.len() == 0
    &&& h.id == "mx_no_a"@ ==> h.severity == Severity::Critical && exists|k: int|
        0 <= k < r.mx.len() && (#[trigger] r.mx[k]).ips.len() == 0
    &&& h.id == "no_spf"@ ==> h.severity == Severity::Warning && r.spf is None
    &&& h.id == "spf_plus_all"@ ==> h.severity == Severity::Critical && (r.spf matches Some(spf)
        && spf.all_qualifier == Some(seq!['+']))
    &&& h.id == "spf_neutral_all"@ ==> h.severity == Severity::Warning && (r.spf matches Some(
        spf,
    ) && spf.all_qualifier == Some(seq!['?']))
    &&& h.id == "spf_no_all"@ ==> h.severity == Severity::Warning && (r.spf matches Some(spf)
        && spf.all_qualifier is None)
    &&& h.id == "no_dmarc"@ ==> h.severity == Severity::Warning && r.dmarc is None
    &&& h.id == "dmarc_p_none"@ ==> h.severity == Severity::Info && (r.dmarc matches Some(d)
        && d.policy == Some("none"@))
    &&& h.id == "dmarc_p_unknown"@ ==> h.severity == Severity::Warning && (r.dmarc matches Some(
        d,
    ) && d.policy matches Some(p) && p != "none"@ && p != "quarantine"@ && p != "reject"@)
    &&& h.id == "dmarc_no_p"@ ==> h.severity == Severity::Warning && (r.dmarc matches Some(d)
        && d.policy is None)
    &&& h.id == "dmarc_pct_low"@ ==> h.severity == Severity::Info && (r.dmarc matches Some(d)
        && d.pct matches Some(p) && p < 100)
}

/// The ids that hints carry.
pub open spec fn is_hint_id(id: Seq<char>) -> bool {
    ||| id == "no_mx"@ || id == "mx_no_a"@
    ||| id == "no_spf"@ || id == "spf_plus_all"@ || id == "spf_neutral_all"@ || id
        == "spf_no_all"@
    ||| id == "no_dmarc"@ || id == "dmarc_p_none"@ || id == "dmarc_p_unknown"@ || id
        == "dmarc_no_p"@ || id == "dmarc_pct_low"@
}

proof fn lemma_some_unresolved(mx: Seq<MxView>)
    requires
        unresolved_exchanges(mx).len() > 0,
    ensures
        exists|k: int| 0 <= k < mx.len() && (#[trigger] mx[k]).ips.len() == 0,
{
    if forall|k: int| 0 <= k < mx.len() ==> (#[trigger] mx[k]).ips.len() > 0 {
        lemma_all_resolved(mx);
    }
}

proof fn lemma_hint_ids_differ()
    ensures
        "no_mx"@ != "mx_no_a"@,
        "no_mx"@ != "no_spf"@,
        "no_mx"@ != "spf_plus_all"@,
        "no_mx"@ != "spf_neutral_all"@,
        "no_mx"@ != "spf_no_all"@,
        "no_mx"@ != "no_dmarc"@,
        "no_mx"@ != "dmarc_p_none"@,
        "no_mx"@ != "dmarc_p_unknown"@,
        "no_mx"@ != "dmarc_no_p"@,
        "no_mx"@ != "dmarc_pct_low"@,
        "mx_no_a"@ != "no_spf"@,
        "mx_no_a"@ != "spf_plus_all"@,
        "mx_no_a"@ != "spf_neutral_all"@,
        "mx_no_a"@ != "spf_no_all"@,
        "mx_no_a"@ != "no_dmarc"@,
        "mx_no_a"@ != "dmarc_p_none"@,
        "mx_no_a"@ != "dmarc_p_unknown"@,
        "mx_no_a"@ != "dmarc_no_p"@,
        "mx_no_a"@ != "dmarc_pct_low"@,
        "no_spf"@ != "spf_plus_all"@,
        "no_spf"@ != "spf_neutral_all"@,
        "no_spf"@ != "spf_no_all"@,
        "no_spf"@ != "no_dmarc"@,
        "no_spf"@ != "dmarc_p_none"@,
        "no_spf"@ != "dmarc_p_unknown"@,
        "no_spf"@ != "dmarc_no_p"@,
        "no_spf"@ != "dmarc_pct_low"@,
        "spf_plus_all"@ != "spf_neutral_all"@,
        "spf_plus_all"@ != "spf_no_all"@,
        "spf_plus_all"@ != "no_dmarc"@,
        "spf_plus_all"@ != "dmarc_p_none"@,
        "spf_plus_all"@ != "dmarc_p_unknown"@,
        "spf_plus_all"@ != "dmarc_no_p"@,
        "spf_plus_all"@ != "dmarc_pct_low"@,
        "spf_neutral_all"@ != "spf_no_all"@,
        "spf_neutral_all"@ != "no_dmarc"@,
        "spf_neutral_all"@ != "dmarc_p_none"@,
        "spf_neutral_all"@ != "dmarc_p_unknown"@,
        "spf_neutral_all"@ != "dmarc_no_p"@,
        "spf_neutral_all"@ != "dmarc_pct_low"@,
        "spf_no_all"@ != "no_dmarc"@,
        "spf_no_all"@ != "dmarc_p_none"@,
        "spf_no_all"@ != "dmarc_p_unknown"@,
        "spf_no_all"@ != "dmarc_no_p"@,
        "spf_no_all"@ != "dmarc_pct_low"@,
        "no_dmarc"@ != "dmarc_p_none"@,
        "no_dmarc"@ != "dmarc_p_unknown"@,
        "no_dmarc"@ != "dmarc_no_p"@,
        "no_dmarc"@ != "dmarc_pct_low"@,
        "dmarc_p_none"@ != "dmarc_p_unknown"@,
        "dmarc_p_none"@ != "dmarc_no_p"@,
        "dmarc_p_none"@ != "dmarc_pct_low"@,
        "dmarc_p_unknown"@ != "dmarc_no_p"@,
        "dmarc_p_unknown"@ != "dmarc_pct_low"@,
        "dmarc_no_p"@ != "dmarc_pct_low"@,
{
    reveal_strlit("no_mx");
    reveal_strlit("mx_no_a");
    reveal_strlit("no_spf");
    reveal_strlit("spf_plus_all");
    reveal_strlit("spf_neutral_all");
    reveal_strlit("spf_no_all");
    reveal_strlit("no_dmarc");
    reveal_strlit("dmarc_p_none");
    reveal_strlit("dmarc_p_unknown");
    reveal_strlit("dmarc_no_p");
    reveal_strlit("dmarc_pct_low");
    assert("no_mx"@.len() != "mx_no_a"@.len());
    assert("no_mx"@.len() != "no_spf"@.len());
    assert("no_mx"@.len() != "spf_plus_all"@.len());
    assert("no_mx"@.len() != "spf_neutral_all"@.len());
    assert("no_mx"@.len() != "spf_no_all"@.len());
    assert("no_mx"@.len() != "no_dmarc"@.len());
    assert("no_mx"@.len() != "dmarc_p_none"@.len());
    assert("no_mx"@.len() != "dmarc_p_unknown"@.len());
    assert("no_mx"@.len() != "dmarc_no_p"@.len());
    assert("no_mx"@.len() != "dmarc_pct_low"@.len());
    assert("mx_no_a"@.len() != "no_spf"@.len());
    assert("mx_no_a"@.len() != "spf_plus_all"@.len());
    assert("mx_no_a"@.len() != "spf_neutral_all"@.len());
    assert("mx_no_a"@.len() != "spf_no_all"@.len());
    assert("mx_no_a"@.len() != "no_dmarc"@.len());
    assert("mx_no_a"@.len() != "dmarc_p_none"@.len());
    assert("mx_no_a"@.len() != "dmarc_p_unknown"@.len());
    assert("mx_no_a"@.len() != "dmarc_no_p"@.len());
    assert("mx_no_a"@.len() != "dmarc_pct_low"@.len());
    assert("no_spf"@.len() != "spf_plus_all"@.len());
    assert("no_spf"@.len() != "spf_neutral_all"@.len());
    assert("no_spf"@.len() != "spf_no_all"@.len());
    assert("no_spf"@.len() != "no_dmarc"@.len());
    assert("no_spf"@.len() != "dmarc_p_none"@.len());
    assert("no_spf"@.len() != "dmarc_p_unknown"@.len());
    assert("no_spf"@.len() != "dmarc_no_p"@.len());
    assert("no_spf"@.len() != "dmarc_pct_low"@.len());
    assert("spf_plus_all"@.len() != "spf_neutral_all"@.len());
    assert("spf_plus_all"@.len() != "spf_no_all"@.len());
    assert("spf_plus_all"@.len() != "no_dmarc"@.len());
    assert("spf_plus_all"@[0] != "dmarc_p_none"@[0]);
    assert("spf_plus_all"@.len() != "dmarc_p_unknown"@.len());
    assert("spf_plus_all"@.len() != "dmarc_no_p"@.len());
    assert("spf_plus_all"@.len() != "dmarc_pct_low"@.len());
    assert("spf_neutral_all"@.len() != "spf_no_all"@.len());
    assert("spf_neutral_all"@.len() != "no_dmarc"@.len());
    assert("spf_neutral_all"@.len() != "dmarc_p_none"@.len());
    assert("spf_neutral_all"@[0] != "dmarc_p_unknown"@[0]);
    assert("spf_neutral_all"@.len() != "dmarc_no_p"@.len());
    assert("spf_neutral_all"@.len() != "dmarc_pct_low"@.len());
    assert("spf_no_all"@.len() != "no_dmarc"@.len());
    assert("spf_no_all"@.len() != "dmarc_p_none"@.len());
    assert("spf_no_all"@.len() != "dmarc_p_unknown"@.len());
    assert("spf_no_all"@[0] != "dmarc_no_p"@[0]);
    assert("spf_no_all"@.len() != "dmarc_pct_low"@.len());
    assert("no_dmarc"@.len() != "dmarc_p_none"@.len());
    assert("no_dmarc"@.len() != "dmarc_p_unknown"@.len());
    assert("no_dmarc"@.len() != "dmarc_no_p"@.len());
    assert("no_dmarc"@.len() != "dmarc_pct_low"@.len());
    assert("dmarc_p_none"@.len() != "dmarc_p_unknown"@.len());
    assert("dmarc_p_none"@.len() != "dmarc_no_p"@.len());
    assert("dmarc_p_none"@.len() != "dmarc_pct_low"@.len());
    assert("dmarc_p_unknown"@.len() != "dmarc_no_p"@.len());
    assert("dmarc_p_unknown"@.len() != "dmarc_pct_low"@.len());
    assert("dmarc_no_p"@.len() != "dmarc_pct_low"@.len());
}

proof fn lemma_report_hint_cause(r: ReportView, h: HintView)
    requires
        report_hints(r).contains(h),
    ensures
        hint_has_its_cause(r, h),
        is_hint_id(h.id),
{
    lemma_hint_ids_differ();
    reveal_strlit("+");
    reveal_strlit("?");
    assert("+"@ =~= seq!['+'] && "?"@ =~= seq!['?']);
    lemma_concat_contains(mx_hints(r) + spf_hints(r), dmarc_hints(r), h);
    if (mx_hints(r) + spf_hints(r)).contains(h) {
        lemma_concat_contains(mx_hints(r), spf_hints(r), h);
        if mx_hints(r).contains(h) {
            let k = choose|k: int| 0 <= k < mx_hints(r).len() && mx_hints(r)[k] == h;
            if r.mx.len() > 0 {
                lemma_some_unresolved(r.mx);
            }
        } else {
            let k = choose|k: int| 0 <= k < spf_hints(r).len() && spf_hints(r)[k] == h;
        }
    } else {
        match r.dmarc {
            None => {
                let k = choose|k: int| 0 <= k < dmarc_hints(r).len() && dmarc_hints(r)[k] == h;
            },
            Some(d) => {
                lemma_concat_contains(dmarc_policy_hints(d), dmarc_pct_hints(d), h);
                if dmarc_pct_hints(d).contains(h) {
                    let k = choose|k: int|
                        0 <= k < dmarc_pct_hints(d).len() && dmarc_pct_hints(d)[k] == h;
                } else {
                    let k = choose|k: int|
                        0 <= k < dmarc_policy_hints(d).len() && dmarc_policy_hints(d)[k] == h;
                }
            },
        }
    }
}

/// Every hint that `interpret` returns carries one of the known ids, and is
/// raised only for its finding and at its fixed severity: `no_mx` and
/// `mx_no_a` (Critical) for missing or unresolved MX records, `no_spf`,
/// `spf_neutral_all` and `spf_no_all` (Warning) and `spf_plus_all`
/// (Critical) for the SPF record, `no_dmarc`, `dmarc_p_unknown` and
/// `dmarc_no_p` (Warning) and `dmarc_p_none` and `dmarc_pct_low` (Info) for
/// the DMARC record.
pub proof fn every_hint_has_its_cause(r: ReportView)
    ensures
        forall|i: int|
            0 <= i < interpretation(r).len() ==> is_hint_id(
                (#[trigger] interpretation(r)[i]).id,
            ) && hint_has_its_cause(r, interpretation(r)[i]),
{
    broadcast use vstd::seq_lib::to_multiset_contains;

    interpret_orders_every_hint_by_severity(r);
    let out = interpretation(r);
    let hs = report_hints(r);
    assert forall|i: int| 0 <= i < out.len() implies is_hint_id((#[trigger] out[i]).id)
        && hint_has_its_cause(r, out[i]) by {
        let h = out[i];
        assert(out.contains(h));
        assert(out.to_multiset().count(h) > 0);
        assert(hs.contains(h));
        lemma_report_hint_cause(r, h);
    }
}

/// Whether `interpret` raises a hint with id `id` for `r`.
pub open spec fn raises(r: ReportView, id: Seq<char>) -> bool {
    exists|i: int| 0 <= i < interpretation(r).len() && (#[trigger] interpretation(r)[i]).id == id
}

proof fn lemma_raised(r: ReportView, k: int)
    requires
        0 <= k < report_hints(r).len(),
    ensures
        raises(r, report_hints(r)[k].id),
{
    broadcast use vstd::seq_lib::to_multiset_contains;

    interpret_orders_every_hint_by_severity(r);
    let h = report_hints(r)[k];
    assert(report_hints(r).contains(h));
    assert(report_hints(r).to_multiset().count(h) > 0);
    assert(interpretation(r).contains(h));
    let i = choose|i: int| 0 <= i < interpretation(r).len() && interpretation(r)[i] == h;
    assert(interpretation(r)[i].id == h.id);
}

/// Every finding is raised: a missing SPF or DMARC record, an SPF record
/// with `?all` or without `all`, a DMARC record without a policy, with a
/// policy of `none` or an unrecognised one, or with a sampling rate below
/// 100%, each gets its hint (the MX findings and `+all` are covered by the
/// laws above).
pub proof fn every_finding_is_raised(r: ReportView)
    ensures
        r.mx.len() == 0 ==> raises(r, "no_mx"@),
        r.spf is None ==> raises(r, "no_spf"@),
        (r.spf matches Some(spf) && spf.all_qualifier == Some(seq!['?'])) ==> raises(
            r,
            "spf_neutral_all"@,
        ),
        (r.spf matches Some(spf) && spf.all_qualifier is None) ==> raises(r, "spf_no_all"@),
        r.dmarc is None ==> raises(r, "no_dmarc"@),
        (r.dmarc matches Some(d) && d.policy is None) ==> raises(r, "dmarc_no_p"@),
        (r.dmarc matches Some(d) && d.policy matches Some(p) && p != "none"@ && p
            != "quarantine"@ && p != "reject"@) ==> raises(r, "dmarc_p_unknown"@),
        (r.dmarc matches Some(d) && d.pct matches Some(p) && p < 100) ==> raises(
            r,
            "dmarc_pct_low"@,
        ),
{
    reveal_strlit("+");
    reveal_strlit("?");
    assert("+"@ =~= seq!['+'] && "?"@ =~= seq!['?']);
    assert(seq!['?'] != seq!['+']) by {
        assert(seq!['?'][0] != seq!['+'][0]);
    }
    let hs = report_hints(r);
    let m = mx_hints(r).len() as int;
    let sp = spf_hints(r).len() as int;
    if r.mx.len() == 0 {
        assert(hs[0] == mx_hints(r)[0]);
        lemma_raised(r, 0);
    }
    if r.spf is None || (r.spf matches Some(spf) && (spf.all_qualifier == Some(seq!['?'])
        || spf.all_qualifier is None)) {
        assert(hs[m] == spf_hints(r)[0]);
        lemma_raised(r, m);
    }
    if r.dmarc is None {
        assert(hs[m + sp] == dmarc_hints(r)[0]);
        lemma_raised(r, m + sp);
    }
    if r.dmarc matches Some(d) {
        let d = r.dmarc->0;
        let ph = dmarc_policy_hints(d);
        if ph.len() > 0 {
            assert(hs[m + sp] == ph[0]);
            lemma_raised(r, m + sp);
        }
        if d.pct matches Some(p) && p < 100 {
            let k = m + sp + ph.len();
            assert(hs[k] == dmarc_pct_hints(d)[0]);
            lemma_raised(r, k);
        }
    }
}

} // verus!
