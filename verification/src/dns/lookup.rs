//! What the lookups of an audit need decided: the domain name to audit,
//! the name of the DMARC record, the exchange names and order of MX records,
//! and the choice among TXT records.

use vstd::prelude::*;

use super::records::{dmarc_of, parse_dmarc, parse_spf, spf_of};
use super::{DmarcRecord, DnsError, MxRecord, SpfRecord};
use crate::text::{
    chars_of, find_char_in, from_utf8_lossy, lemma_find_char, lowercased, starts_with, starts_with_str,
    string_of, string_views, strip_trailing, strip_trailing_end, to_lowercase, trim, trim_range,
    utf8_lossy,
};

verus! {

// =====================================================================
// MX records
// =====================================================================

/// The records of `s` with preference `p`, in their order.
pub open spec fn with_preference(s: Seq<MxRecord>, p: u16) -> Seq<MxRecord>
    decreases s.len(),
{
    if s.len() == 0 {
        seq![]
    } else if s.last().preference == p {
        with_preference(s.drop_last(), p).push(s.last())
    } else {
        with_preference(s.drop_last(), p)
    }
}

/// Whether the records of `s` come in ascending order of preference.
pub open spec fn sorted_by_preference(s: Seq<MxRecord>) -> bool {
    forall|i: int, j: int| 0 <= i < j < s.len() ==> s[i].preference <= s[j].preference
}

proof fn lemma_with_preference_add(a: Seq<MxRecord>, b: Seq<MxRecord>, p: u16)
    ensures
        with_preference(a + b, p) == with_preference(a, p) + with_preference(b, p),
    decreases b.len(),
{
    if b.len() == 0 {
        assert(a + b =~= a);
        assert(with_preference(a, p) + Seq::<MxRecord>::empty() =~= with_preference(a, p));
    } else {
        lemma_with_preference_add(a, b.drop_last(), p);
        assert((a + b).drop_last() =~= a + b.drop_last());
        assert((a + b).last() == b.last());
        if b.last().preference == p {
            assert(with_preference(a, p) + with_preference(b.drop_last(), p).push(b.last()) =~= (
            with_preference(a, p) + with_preference(b.drop_last(), p)).push(b.last()));
        }
    }
}

proof fn lemma_with_preference_none(s: Seq<MxRecord>, p: u16)
    requires
        forall|i: int| 0 <= i < s.len() ==> (#[trigger] s[i]).preference != p,
    ensures
        with_preference(s, p) == Seq::<MxRecord>::empty(),
    decreases s.len(),
{
    if s.len() > 0 {
        assert(s.last() == s[s.len() - 1]);
        lemma_with_preference_none(s.drop_last(), p);
    }
}

proof fn lemma_with_preference_single(x: MxRecord, p: u16)
    ensures
        with_preference(seq![x], p) == if x.preference == p {
            seq![x]
        } else {
            Seq::<MxRecord>::empty()
        },
{
    assert(seq![x].drop_last() =~= Seq::<MxRecord>::empty());
    assert(seq![x].last() == x);
    assert(with_preference(Seq::<MxRecord>::empty(), p) == Seq::<MxRecord>::empty());
    assert(Seq::<MxRecord>::empty().push(x) =~= seq![x]);
}

/// Orders MX records by preference, lowest (most preferred) first, keeping
/// records of equal preference in the order given.
pub fn sort_mx_records(records: Vec<MxRecord>) -> (res: Vec<MxRecord>)
    ensures
        res@.to_multiset() == records@.to_multiset(),
        sorted_by_preference(res@),
        forall|p: u16| #[trigger] with_preference(res@, p) == with_preference(records@, p),
{
    broadcast use vstd::seq_lib::group_to_multiset_ensures;

    let ghost all = records@;
    let mut rest = records;
    let mut out: Vec<MxRecord> = Vec::new();
    let ghost mut done: int = 0;
    assert(all.skip(0) =~= all);
    assert(all.take(0) =~= Seq::<MxRecord>::empty());
    while rest.len() > 0
        invariant
            0 <= done <= all.len(),
            rest@ == all.skip(done),
            out@.to_multiset() == all.take(done).to_multiset(),
            sorted_by_preference(out@),
            forall|p: u16| #[trigger] with_preference(out@, p) == with_preference(all.take(done), p),
        decreases rest@.len(),
    {
        let x = rest.remove(0);
        assert(x == all[done]);
        let mut k: usize = out.len();
        while k > 0 && out[k - 1].preference > x.preference
            invariant
                k <= out@.len(),
                forall|i: int| k <= i < out@.len() ==> (#[trigger] out@[i]).preference > x.preference,
            decreases k,
        {
            k = k - 1;
        }
        assert(forall|i: int| 0 <= i < k ==> (#[trigger] out@[i]).preference <= x.preference) by {
            assert forall|i: int| 0 <= i < k implies (#[trigger] out@[i]).preference
                <= x.preference by {
                assert(out@[i].preference <= out@[k - 1].preference);
            }
        }
        let ghost before = out@;
        out.insert(k, x);
        proof {
            vstd::seq_lib::to_multiset_insert(before, k as int, x);
            vstd::seq_lib::to_multiset_build(all.take(done), x);
            assert(out@ == before.insert(k as int, x));
            let lo = before.take(k as int);
            let hi = before.skip(k as int);
            assert(before =~= lo + hi);
            assert(out@ =~= lo + seq![x] + hi);
            assert(all.take(done + 1) =~= all.take(done).push(x));
            assert forall|p: u16| #[trigger] with_preference(out@, p) == with_preference(
                all.take(done + 1),
                p,
            ) by {
                lemma_with_preference_add(lo + seq![x], hi, p);
                lemma_with_preference_add(lo, seq![x], p);
                lemma_with_preference_add(lo, hi, p);
                lemma_with_preference_single(x, p);
                lemma_with_preference_add(all.take(done), seq![x], p);
                assert(all.take(done) + seq![x] =~= all.take(done + 1));
                if x.preference == p {
                    assert forall|i: int| 0 <= i < hi.len() implies (#[trigger] hi[i]).preference
                        != p by {
                        assert(hi[i] == before[k + i]);
                    }
                    lemma_with_preference_none(hi, p);
                    assert(with_preference(lo, p) + Seq::<MxRecord>::empty() =~= with_preference(
                        lo,
                        p,
                    ));
                } else {
                    assert(with_preference(lo, p) + Seq::<MxRecord>::empty() =~= with_preference(
                        lo,
                        p,
                    ));
                    assert(with_preference(all.take(done), p) + Seq::<MxRecord>::empty()
                        =~= with_preference(all.take(done), p));
                }
            }
            done = done + 1;
            assert(rest@ =~= all.skip(done));
        }
    }
    assert(all.take(done) =~= all);
    out
}

// =====================================================================
// Names and TXT records
// =====================================================================

/// A domain name that an audit can look up: not empty, and holding a dot.
pub open spec fn usable_domain(name: Seq<char>) -> bool {
    name.len() > 0 && name.contains('.')
}

/// `Ok(name)` when the name is usable, else the `BadDomain` error naming it.
pub open spec fn domain_checked(r: Result<String, DnsError>, name: Seq<char>) -> bool {
    match r {
        Ok(d) => usable_domain(name) && d@ == name,
        Err(e) => {
            &&& !usable_domain(name)
            &&& e matches DnsError::BadDomain(m)
            &&& m@ == name
        },
    }
}

/// Checks a lowercased domain name: usable when it is not empty and holds a
/// dot; otherwise the error names it.
pub fn check_domain(lowered: String) -> (r: Result<String, DnsError>)
    ensures
        domain_checked(r, lowered@),
{
    let v = chars_of(lowered.as_str());
    let k = find_char_in(&v, 0, v.len(), '.');
    proof {
        assert(v@.subrange(0, v@.len() as int) =~= lowered@);
        lemma_find_char(lowered@, '.');
        if lowered@.contains('.') {
            let j = choose|j: int| 0 <= j < lowered@.len() && lowered@[j] == '.';
            assert(j >= k);
        }
    }
    if v.len() == 0 || k == v.len() {
        Err(DnsError::BadDomain(lowered))
    } else {
        Ok(lowered)
    }
}

/// The name that an audit looks up for `domain`: surrounding whitespace and
/// trailing dots removed, then lowercased.
pub open spec fn audit_name(domain: Seq<char>) -> Seq<char> {
    lowercased(strip_trailing(trim(domain), '.'))
}

/// Normalises the domain given for an audit and checks it: the name must
/// not be empty and must hold a dot.
pub fn prepare_domain(domain: &str) -> (r: Result<String, DnsError>)
    ensures
        domain_checked(r, audit_name(domain@)),
{
    let v = chars_of(domain);
    let (a, b) = trim_range(&v, 0, v.len());
    let e = strip_trailing_end(&v, a, b, '.');
    assert(v@.subrange(0, v@.len() as int) =~= domain@);
    let stripped = string_of(&v, a, e);
    let lowered = to_lowercase(stripped.as_str());
    check_domain(lowered)
}

/// The name of the DMARC record of `domain`.
pub fn dmarc_name(domain: &str) -> (r: String)
    ensures
        r@ == "_dmarc."@ + domain@,
{
    let mut r = String::new();
    r.append("_dmarc.");
    r.append(domain);
    r
}

/// An MX exchange name as reported: without its trailing dots.
pub fn exchange_host(name: &str) -> (r: String)
    ensures
        r@ == strip_trailing(name@, '.'),
{
    let v = chars_of(name);
    let e = strip_trailing_end(&v, 0, v.len(), '.');
    assert(v@.subrange(0, v@.len() as int) =~= name@);
    string_of(&v, 0, e)
}

/// The first of `values` that begins with `prefix` (case-sensitive).
pub open spec fn first_with_prefix(values: Seq<Seq<char>>, prefix: Seq<char>) -> Option<Seq<char>>
    decreases values.len(),
{
    if values.len() == 0 {
        None
    } else if starts_with(values[0], prefix) {
        Some(values[0])
    } else {
        first_with_prefix(values.drop_first(), prefix)
    }
}

/// Returns the first of `values` that begins with `prefix`
/// (case-sensitive, as RFC 7208 and RFC 7489 ask of the version tag).
pub fn select_with_prefix(values: &Vec<String>, prefix: &str) -> (r: Option<String>)
    ensures
        r.deep_view() == first_with_prefix(string_views(values@), prefix@),
{
    let ghost vs = string_views(values@);
    let mut i: usize = 0;
    assert(vs.skip(0) =~= vs);
    while i < values.len()
        invariant
            i <= values@.len(),
            vs == string_views(values@),
            first_with_prefix(vs, prefix@) == first_with_prefix(vs.skip(i as int), prefix@),
        decreases values@.len() - i,
    {
        assert(vs.skip(i as int)[0] == values@[i as int]@);
        assert(vs.skip(i as int).drop_first() =~= vs.skip(i + 1));
        if starts_with_str(values[i].as_str(), prefix) {
            return Some(values[i].clone());
        }
        i = i + 1;
    }
    None
}

/// The value chosen among TXT values begins with the prefix asked for and
/// is one of them; when none is chosen, no value begins with the prefix.
pub proof fn selected_value_has_prefix(values: Seq<Seq<char>>, prefix: Seq<char>)
    ensures
        first_with_prefix(values, prefix) matches Some(v) ==> starts_with(v, prefix)
            && values.contains(v),
        first_with_prefix(values, prefix) is None ==> forall|i: int|
            0 <= i < values.len() ==> !starts_with(#[trigger] values[i], prefix),
    decreases values.len(),
{
    if values.len() > 0 && !starts_with(values[0], prefix) {
        selected_value_has_prefix(values.drop_first(), prefix);
        let rest = values.drop_first();
        if let Some(v) = first_with_prefix(values, prefix) {
            let k = choose|k: int| 0 <= k < rest.len() && rest[k] == v;
            assert(values[k + 1] == v);
        } else {
            assert forall|i: int| 0 <= i < values.len() implies !starts_with(
                #[trigger] values[i],
                prefix,
            ) by {
                if i > 0 {
                    assert(values[i] == rest[i - 1]);
                }
            }
        }
    } else if values.len() > 0 {
        assert(values[0] == values[0]);
    }
}

/// The value of a TXT record: its character-strings, each decoded from
/// UTF-8 (invalid sequences replaced), concatenated.
pub open spec fn txt_value(chunks: Seq<Seq<u8>>) -> Seq<char>
    decreases chunks.len(),
{
    if chunks.len() == 0 {
        seq![]
    } else {
        txt_value(chunks.drop_last()) + utf8_lossy(chunks.last())
    }
}

/// The values of TXT records, each given as its character-strings.
pub open spec fn txt_values(records: Seq<Seq<Seq<u8>>>) -> Seq<Seq<char>> {
    records.map_values(|r: Seq<Seq<u8>>| txt_value(r))
}

fn txt_record_value(chunks: &Vec<Vec<u8>>) -> (r: String)
    ensures
        r@ == txt_value(chunks.deep_view()),
{
    let ghost cs = chunks.deep_view();
    let mut r = String::new();
    let mut i: usize = 0;
    assert(cs.take(0) =~= seq![]);
    while i < chunks.len()
        invariant
            i <= chunks@.len(),
            cs == chunks.deep_view(),
            r@ == txt_value(cs.take(i as int)),
        decreases chunks@.len() - i,
    {
        let part = from_utf8_lossy(chunks[i].as_slice());
        assert(cs.take(i + 1).drop_last() =~= cs.take(i as int));
        assert(cs.take(i + 1).last() == chunks@[i as int]@);
        r.append(part.as_str());
        i = i + 1;
    }
    assert(cs.take(chunks@.len() as int) =~= cs);
    r
}

/// Among TXT records, each given as its character-strings, the value of
/// the first one that begins with `prefix` (case-sensitive).  A TXT record
/// may be split into several character-strings (RFC 1035 3.3.14, RFC 7208
/// 3.3); they are concatenated to recover the logical value.
pub fn txt_record_matching(records: &Vec<Vec<Vec<u8>>>, prefix: &str) -> (r: Option<String>)
    ensures
        r.deep_view() == first_with_prefix(txt_values(records.deep_view()), prefix@),
{
    let ghost rs = records.deep_view();
    let mut values: Vec<String> = Vec::new();
    let mut i: usize = 0;
    while i < records.len()
        invariant
            i <= records@.len(),
            rs == records.deep_view(),
            string_views(values@) == txt_values(rs.take(i as int)),
        decreases records@.len() - i,
    {
        let value = txt_record_value(&records[i]);
        assert(rs[i as int] == records@[i as int].deep_view());
        assert(txt_values(rs.take(i + 1)) =~= txt_values(rs.take(i as int)).push(
            txt_value(rs[i as int]),
        ));
        values.push(value);
        assert(string_views(values@) =~= txt_values(rs.take(i + 1)));
        i = i + 1;
    }
    assert(rs.take(records@.len() as int) =~= rs);
    select_with_prefix(&values, prefix)
}

/// The SPF record among the TXT records at a domain: the first whose value
/// begins with `v=spf1`, parsed.
pub fn spf_from_txt_records(records: &Vec<Vec<Vec<u8>>>) -> (r: Option<SpfRecord>)
    ensures
        match first_with_prefix(txt_values(records.deep_view()), "v=spf1"@) {
            Some(v) => r is Some && r->0@ == spf_of(v),
            None => r is None,
        },
{
    match txt_record_matching(records, "v=spf1") {
        Some(raw) => Some(parse_spf(raw.as_str())),
        None => None,
    }
}

/// The DMARC record among the TXT records at `_dmarc.<domain>`: the first
/// whose value begins with `v=DMARC1`, parsed.
pub fn dmarc_from_txt_records(records: &Vec<Vec<Vec<u8>>>) -> (r: Option<DmarcRecord>)
    ensures
        match first_with_prefix(txt_values(records.deep_view()), "v=DMARC1"@) {
            Some(v) => r is Some && r->0@ == dmarc_of(v),
            None => r is None,
        },
{
    match txt_record_matching(records, "v=DMARC1") {
        Some(raw) => Some(parse_dmarc(raw.as_str())),
        None => None,
    }
}

} // verus!
