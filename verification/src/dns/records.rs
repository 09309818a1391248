//! The SPF and DMARC record parsers.

use vstd::prelude::*;

use super::{DmarcRecord, DmarcView, SpfRecord, SpfView};
use crate::text::{
    chars_of, find_char_in, is_space_char, lemma_find_char, lemma_split_acc, parse_u8,
    parse_u8_range, push_char, range_eq_str, split, split_once, string_of, trim, trim_range, words,
    words_acc,
};

verus! {

// =====================================================================
// SPF
// =====================================================================

/// The qualifier characters of an SPF mechanism.
pub open spec fn is_qualifier(c: char) -> bool {
    c == '-' || c == '~' || c == '?' || c == '+'
}

/// The qualifier of `term` when it is the `all` mechanism: its leading
/// qualifier character, or `+` when it has none.
pub open spec fn all_qualifier_of(term: Seq<char>) -> Option<Seq<char>> {
    if term.len() > 0 && is_qualifier(term[0]) {
        if term.drop_first() == "all"@ {
            Some(seq![term[0]])
        } else {
            None
        }
    } else if term == "all"@ {
        Some(seq!['+'])
    } else {
        None
    }
}

/// The qualifier of the first `all` mechanism among `terms`.
pub open spec fn first_all_qualifier(terms: Seq<Seq<char>>) -> Option<Seq<char>>
    decreases terms.len(),
{
    if terms.len() == 0 {
        None
    } else if all_qualifier_of(terms[0]) is Some {
        all_qualifier_of(terms[0])
    } else {
        first_all_qualifier(terms.drop_first())
    }
}

/// The record that `parse_spf` makes of `raw`.
pub open spec fn spf_of(raw: Seq<char>) -> SpfView {
    SpfView { raw, all_qualifier: first_all_qualifier(words(raw)) }
}

fn term_all_qualifier(v: &Vec<char>, a: usize, b: usize) -> (r: Option<String>)
    requires
        a <= b <= v@.len(),
    ensures
        r.deep_view() == all_qualifier_of(v@.subrange(a as int, b as int)),
{
    let ghost term = v@.subrange(a as int, b as int);
    if a < b && (v[a] == '-' || v[a] == '~' || v[a] == '?' || v[a] == '+') {
        assert(term.drop_first() =~= v@.subrange(a + 1, b as int));
        if range_eq_str(v, a + 1, b, "all") {
            let mut q = String::new();
            push_char(&mut q, v[a]);
            assert(q@ =~= seq![term[0]]);
            Some(q)
        } else {
            None
        }
    } else if range_eq_str(v, a, b, "all") {
        let mut q = String::new();
        push_char(&mut q, '+');
        assert(q@ =~= seq!['+']);
        Some(q)
    } else {
        None
    }
}

proof fn lemma_first_all_cons(cur: Seq<char>, rest: Seq<Seq<char>>)
    ensures
        first_all_qualifier(seq![cur] + rest) == if all_qualifier_of(cur) is Some {
            all_qualifier_of(cur)
        } else {
            first_all_qualifier(rest)
        },
{
    assert((seq![cur] + rest)[0] == cur);
    assert((seq![cur] + rest).drop_first() =~= rest);
}

/// Parses an SPF record: keeps the raw text and finds the qualifier of its
/// first `all` mechanism among the whitespace-separated terms.
pub fn parse_spf(raw: &str) -> (r: SpfRecord)
    ensures
        r@ == spf_of(raw@),
{
    let v = chars_of(raw);
    let n = v.len();
    let mut i: usize = 0;
    let mut t: usize = 0;
    let mut found: Option<String> = None;
    assert(v@.skip(0) =~= v@);
    assert(v@.subrange(0, 0) =~= seq![]);
    while i < n && found.is_none()
        invariant
            n == v@.len(),
            t <= i <= n,
            found is None ==> first_all_qualifier(words(v@)) == first_all_qualifier(
                words_acc(v@.skip(i as int), v@.subrange(t as int, i as int)),
            ),
            found is Some ==> found.deep_view() == first_all_qualifier(words(v@)),
        decreases n - i,
    {
        let ghost cur = v@.subrange(t as int, i as int);
        let ghost rest = v@.skip(i as int);
        assert(rest[0] == v@[i as int]);
        assert(rest.drop_first() =~= v@.skip(i + 1));
        if is_space_char(v[i]) {
            if t < i {
                found = term_all_qualifier(&v, t, i);
                proof {
                    lemma_first_all_cons(cur, words_acc(v@.skip(i + 1), seq![]));
                }
            } else {
                assert(cur.len() == 0);
                assert(seq![] + words_acc(v@.skip(i + 1), seq![]) =~= words_acc(
                    v@.skip(i + 1),
                    seq![],
                ));
            }
            i = i + 1;
            t = i;
            assert(v@.subrange(t as int, i as int) =~= seq![]);
        } else {
            assert(cur.push(v@[i as int]) =~= v@.subrange(t as int, i + 1));
            i = i + 1;
        }
    }
    if found.is_none() {
        let ghost cur = v@.subrange(t as int, n as int);
        assert(v@.skip(n as int) =~= seq![]);
        if t < n {
            found = term_all_qualifier(&v, t, n);
            proof {
                lemma_first_all_cons(cur, seq![]);
                assert(seq![cur] + seq![] =~= seq![cur]);
            }
        }
    }
    let r = SpfRecord { raw: raw.to_string(), all_qualifier: found };
    r
}

proof fn lemma_first_all_qualifier_sign(terms: Seq<Seq<char>>)
    ensures
        first_all_qualifier(terms) matches Some(q) ==> q.len() == 1 && is_qualifier(q[0]),
    decreases terms.len(),
{
    if terms.len() > 0 && all_qualifier_of(terms[0]) is None {
        lemma_first_all_qualifier_sign(terms.drop_first());
    }
}

/// The qualifier that `parse_spf` reports is always one of the four signs
/// `-`, `~`, `?`, `+`.
pub proof fn spf_qualifier_is_a_sign(raw: Seq<char>)
    ensures
        spf_of(raw).all_qualifier matches Some(q) ==> q.len() == 1 && is_qualifier(q[0]),
{
    lemma_first_all_qualifier_sign(words(raw));
}

/// Whether a term of an SPF record is an `all` mechanism: `all` itself, or
/// `all` behind one of the qualifiers `-`, `~`, `?`, `+`.
pub open spec fn is_all_mechanism(term: Seq<char>) -> bool {
    term == "all"@ || (term.len() == 4 && is_qualifier(term[0]) && term.subrange(1, 4) == "all"@)
}

/// Whether `terms[k]` is the first `all` mechanism among `terms`.
pub open spec fn first_all_term_at(terms: Seq<Seq<char>>, k: int) -> bool {
    &&& 0 <= k < terms.len()
    &&& is_all_mechanism(terms[k])
    &&& forall|j: int| 0 <= j < k ==> !is_all_mechanism(#[trigger] terms[j])
}

proof fn lemma_all_qualifier_of(term: Seq<char>)
    ensures
        all_qualifier_of(term) is Some <==> is_all_mechanism(term),
        all_qualifier_of(term) matches Some(q) ==> (term == q + "all"@ || (term == "all"@ && q
            == seq!['+'])),
{
    reveal_strlit("all");
    if term.len() > 0 && is_qualifier(term[0]) {
        if term.drop_first() == "all"@ {
            assert(term.drop_first() =~= term.subrange(1, 4));
            assert(term =~= seq![term[0]] + "all"@);
        } else {
            if term.len() == 4 {
                assert(term.drop_first() =~= term.subrange(1, 4));
            }
            assert(term != "all"@) by {
                if term == "all"@ {
                    assert(term[0] == 'a');
                }
            }
        }
    } else if term != "all"@ {
        assert(!is_all_mechanism(term));
    }
}

proof fn lemma_first_all_qualifier(terms: Seq<Seq<char>>)
    ensures
        first_all_qualifier(terms) matches Some(q) ==> exists|k: int|
            first_all_term_at(terms, k) && (terms[k] == q + "all"@ || (terms[k] == "all"@ && q
                == seq!['+'])),
        first_all_qualifier(terms) is None ==> forall|k: int|
            0 <= k < terms.len() ==> !is_all_mechanism(#[trigger] terms[k]),
    decreases terms.len(),
{
    if terms.len() > 0 {
        lemma_all_qualifier_of(terms[0]);
        let rest = terms.drop_first();
        lemma_first_all_qualifier(rest);
        if all_qualifier_of(terms[0]) is Some {
            assert(first_all_term_at(terms, 0));
        } else {
            match first_all_qualifier(rest) {
                Some(q) => {
                    let k = choose|k: int|
                        first_all_term_at(rest, k) && (rest[k] == q + "all"@ || (rest[k] == "all"@
                            && q == seq!['+']));
                    assert(terms[k + 1] == rest[k]);
                    assert forall|j: int| 0 <= j < k + 1 implies !is_all_mechanism(
                        #[trigger] terms[j],
                    ) by {
                        if j > 0 {
                            assert(terms[j] == rest[j - 1]);
                        }
                    }
                    assert(first_all_term_at(terms, k + 1));
                },
                None => {
                    assert forall|k: int| 0 <= k < terms.len() implies !is_all_mechanism(
                        #[trigger] terms[k],
                    ) by {
                        if k > 0 {
                            assert(terms[k] == rest[k - 1]);
                        }
                    }
                },
            }
        }
    }
}

/// The qualifier that `parse_spf` reports comes from the first `all`
/// mechanism among the whitespace-separated terms of the record: that term
/// is the qualifier followed by `all`, or `all` alone for `+`.  When no
/// term is an `all` mechanism, no qualifier is reported.
pub proof fn spf_qualifier_comes_from_first_all_term(raw: Seq<char>)
    ensures
        spf_of(raw).all_qualifier matches Some(q) ==> exists|k: int|
            first_all_term_at(words(raw), k) && (words(raw)[k] == q + "all"@ || (words(raw)[k]
                == "all"@ && q == seq!['+'])),
        spf_of(raw).all_qualifier is None ==> forall|k: int|
            0 <= k < words(raw).len() ==> !is_all_mechanism(#[trigger] words(raw)[k]),
{
    lemma_first_all_qualifier(words(raw));
}

// =====================================================================
// DMARC
// =====================================================================

/// The record after reading one `;`-separated tag: `p=`, `sp=` and `pct=`
/// set their field (a `pct` value that is not a `u8` clears it); anything
/// else, and a tag without `=`, leaves the record as it is.
pub open spec fn apply_dmarc_tag(d: DmarcView, tag: Seq<char>) -> DmarcView {
    match split_once(trim(tag), '=') {
        None => d,
        Some((k0, v0)) => {
            let k = trim(k0);
            let v = trim(v0);
            if k == "p"@ {
                DmarcView { policy: Some(v), ..d }
            } else if k == "sp"@ {
                DmarcView { subdomain_policy: Some(v), ..d }
            } else if k == "pct"@ {
                DmarcView { pct: parse_u8(v), ..d }
            } else {
                d
            }
        },
    }
}

/// The record after reading `tags` in order.
pub open spec fn apply_dmarc_tags(d: DmarcView, tags: Seq<Seq<char>>) -> DmarcView
    decreases tags.len(),
{
    if tags.len() == 0 {
        d
    } else {
        apply_dmarc_tags(apply_dmarc_tag(d, tags[0]), tags.drop_first())
    }
}

/// The record that `parse_dmarc` makes of `raw`.
pub open spec fn dmarc_of(raw: Seq<char>) -> DmarcView {
    apply_dmarc_tags(
        DmarcView { raw, policy: None, subdomain_policy: None, pct: None },
        split(raw, ';'),
    )
}

fn apply_tag(rec: &mut DmarcRecord, v: &Vec<char>, lo: usize, hi: usize)
    requires
        lo <= hi <= v@.len(),
    ensures
        final(rec)@ == apply_dmarc_tag(old(rec)@, v@.subrange(lo as int, hi as int)),
{
    let (a, b) = trim_range(v, lo, hi);
    let e = find_char_in(v, a, b, '=');
    let ghost t = v@.subrange(a as int, b as int);
    proof {
        lemma_find_char(t, '=');
    }
    if e == b {
        return;
    }
    assert(t.take(e - a) =~= v@.subrange(a as int, e as int));
    assert(t.skip(e - a + 1) =~= v@.subrange(e + 1, b as int));
    let (ka, kb) = trim_range(v, a, e);
    let (va, vb) = trim_range(v, e + 1, b);
    if range_eq_str(v, ka, kb, "p") {
        rec.policy = Some(string_of(v, va, vb));
    } else if range_eq_str(v, ka, kb, "sp") {
        rec.subdomain_policy = Some(string_of(v, va, vb));
    } else if range_eq_str(v, ka, kb, "pct") {
        rec.pct = parse_u8_range(v, va, vb);
    }
}

/// Parses a DMARC record: keeps the raw text and reads the `p=`, `sp=` and
/// `pct=` tags of its `;`-separated list, surrounding whitespace ignored; a
/// later tag overrides an earlier one.
pub fn parse_dmarc(raw: &str) -> (r: DmarcRecord)
    ensures
        r@ == dmarc_of(raw@),
{
    let v = chars_of(raw);
    let n = v.len();
    let mut rec = DmarcRecord {
        raw: raw.to_string(),
        policy: None,
        subdomain_policy: None,
        pct: None,
    };
    let mut i: usize = 0;
    assert(v@.skip(0) =~= v@);
    loop
        invariant_except_break
            n == v@.len(),
            i <= n,
            rec@.raw == raw@,
            dmarc_of(raw@) == apply_dmarc_tags(rec@, split(v@.skip(i as int), ';')),
        ensures
            rec@ == dmarc_of(raw@),
        decreases n - i,
    {
        let k = find_char_in(&v, i, n, ';');
        let ghost s = v@.skip(i as int);
        proof {
            assert(v@.subrange(i as int, n as int) =~= s);
            lemma_split_acc(s, ';', seq![]);
            lemma_find_char(s, ';');
        }
        apply_tag(&mut rec, &v, i, k);
        proof {
            let piece = v@.subrange(i as int, k as int);
            if k < n {
                assert(seq![] + s.take(k - i) =~= piece);
                assert(s.skip(k - i + 1) =~= v@.skip(k + 1));
                let rest = split(v@.skip(k + 1), ';');
                assert((seq![piece] + rest)[0] == piece);
                assert((seq![piece] + rest).drop_first() =~= rest);
            } else {
                assert(seq![] + s =~= piece);
                assert(seq![piece][0] == piece);
                assert(seq![piece].drop_first() =~= Seq::<Seq<char>>::empty());
                assert(apply_dmarc_tags(rec@, Seq::<Seq<char>>::empty()) == rec@);
            }
        }
        if k == n {
            break;
        }
        i = k + 1;
    }
    rec
}

/// The key of a `;`-separated DMARC tag: the trimmed text before its first
/// `=`, when it has one.
pub open spec fn tag_key(tag: Seq<char>) -> Option<Seq<char>> {
    match split_once(trim(tag), '=') {
        Some((k, v)) => Some(trim(k)),
        None => None,
    }
}

/// The value of a `;`-separated DMARC tag: the trimmed text after its
/// first `=`.
pub open spec fn tag_value(tag: Seq<char>) -> Seq<char> {
    match split_once(trim(tag), '=') {
        Some((k, v)) => trim(v),
        None => seq![],
    }
}

/// Whether `tags[i]` is the last tag of `tags` with key `key`.
pub open spec fn last_tag_with_key(tags: Seq<Seq<char>>, key: Seq<char>, i: int) -> bool {
    &&& 0 <= i < tags.len()
    &&& tag_key(tags[i]) == Some(key)
    &&& forall|j: int| i < j < tags.len() ==> tag_key(#[trigger] tags[j]) != Some(key)
}

proof fn lemma_tag_policy(d: DmarcView, tag: Seq<char>)
    ensures
        apply_dmarc_tag(d, tag).policy == if tag_key(tag) == Some("p"@) {
            Some(tag_value(tag))
        } else {
            d.policy
        },
        apply_dmarc_tag(d, tag).subdomain_policy == if tag_key(tag) == Some("sp"@) {
            Some(tag_value(tag))
        } else {
            d.subdomain_policy
        },
        apply_dmarc_tag(d, tag).pct == if tag_key(tag) == Some("pct"@) {
            parse_u8(tag_value(tag))
        } else {
            d.pct
        },
{
    reveal_strlit("p");
    reveal_strlit("sp");
    reveal_strlit("pct");
    assert("sp"@.len() != "p"@.len() && "pct"@.len() != "p"@.len() && "pct"@.len()
        != "sp"@.len());
}

proof fn lemma_tags_policy(d: DmarcView, tags: Seq<Seq<char>>)
    ensures
        (forall|j: int| 0 <= j < tags.len() ==> tag_key(#[trigger] tags[j]) != Some("p"@))
            ==> apply_dmarc_tags(d, tags).policy == d.policy,
        forall|i: int|
            last_tag_with_key(tags, "p"@, i) ==> apply_dmarc_tags(d, tags).policy == Some(
                tag_value(#[trigger] tags[i]),
            ),
        (forall|j: int| 0 <= j < tags.len() ==> tag_key(#[trigger] tags[j]) != Some("sp"@))
            ==> apply_dmarc_tags(d, tags).subdomain_policy == d.subdomain_policy,
        forall|i: int|
            last_tag_with_key(tags, "sp"@, i) ==> apply_dmarc_tags(d, tags).subdomain_policy
                == Some(tag_value(#[trigger] tags[i])),
        (forall|j: int| 0 <= j < tags.len() ==> tag_key(#[trigger] tags[j]) != Some("pct"@))
            ==> apply_dmarc_tags(d, tags).pct == d.pct,
        forall|i: int|
            last_tag_with_key(tags, "pct"@, i) ==> apply_dmarc_tags(d, tags).pct == parse_u8(
                tag_value(#[trigger] tags[i]),
            ),
    decreases tags.len(),
{
    if tags.len() > 0 {
        let d1 = apply_dmarc_tag(d, tags[0]);
        let rest = tags.drop_first();
        lemma_tag_policy(d, tags[0]);
        lemma_tags_policy(d1, rest);
        assert forall|j: int| 0 <= j < rest.len() implies rest[j] == tags[j + 1] by {}
        assert forall|i: int| last_tag_with_key(tags, "p"@, i) implies apply_dmarc_tags(
            d,
            tags,
        ).policy == Some(tag_value(#[trigger] tags[i])) by {
            if i > 0 {
                assert(last_tag_with_key(rest, "p"@, i - 1));
            } else {
                assert forall|j: int| 0 <= j < rest.len() implies tag_key(#[trigger] rest[j])
                    != Some("p"@) by {
                    assert(rest[j] == tags[j + 1]);
                }
            }
        }
        assert forall|i: int| last_tag_with_key(tags, "sp"@, i) implies apply_dmarc_tags(
            d,
            tags,
        ).subdomain_policy == Some(tag_value(#[trigger] tags[i])) by {
            if i > 0 {
                assert(last_tag_with_key(rest, "sp"@, i - 1));
            } else {
                assert forall|j: int| 0 <= j < rest.len() implies tag_key(#[trigger] rest[j])
                    != Some("sp"@) by {
                    assert(rest[j] == tags[j + 1]);
                }
            }
        }
        assert forall|i: int| last_tag_with_key(tags, "pct"@, i) implies apply_dmarc_tags(
            d,
            tags,
        ).pct == parse_u8(tag_value(#[trigger] tags[i])) by {
            if i > 0 {
                assert(last_tag_with_key(rest, "pct"@, i - 1));
            } else {
                assert forall|j: int| 0 <= j < rest.len() implies tag_key(#[trigger] rest[j])
                    != Some("pct"@) by {
                    assert(rest[j] == tags[j + 1]);
                }
            }
        }
        if forall|j: int| 0 <= j < tags.len() ==> tag_key(#[trigger] tags[j]) != Some("pct"@) {
            assert forall|j: int| 0 <= j < rest.len() implies tag_key(#[trigger] rest[j])
                != Some("pct"@) by {
                assert(rest[j] == tags[j + 1]);
            }
            assert(tag_key(tags[0]) != Some("pct"@));
        }
        if forall|j: int| 0 <= j < tags.len() ==> tag_key(#[trigger] tags[j]) != Some("p"@) {
            assert forall|j: int| 0 <= j < rest.len() implies tag_key(#[trigger] rest[j])
                != Some("p"@) by {
                assert(rest[j] == tags[j + 1]);
            }
            assert(tag_key(tags[0]) != Some("p"@));
        }
        if forall|j: int| 0 <= j < tags.len() ==> tag_key(#[trigger] tags[j]) != Some("sp"@) {
            assert forall|j: int| 0 <= j < rest.len() implies tag_key(#[trigger] rest[j])
                != Some("sp"@) by {
                assert(rest[j] == tags[j + 1]);
            }
            assert(tag_key(tags[0]) != Some("sp"@));
        }
    }
}

proof fn lemma_last_tag_exists(tags: Seq<Seq<char>>, key: Seq<char>, i: int)
    requires
        0 <= i < tags.len(),
        tag_key(tags[i]) == Some(key),
    ensures
        exists|k: int| last_tag_with_key(tags, key, k),
    decreases tags.len() - i,
{
    if exists|j: int| i < j < tags.len() && tag_key(#[trigger] tags[j]) == Some(key) {
        let j = choose|j: int| i < j < tags.len() && tag_key(#[trigger] tags[j]) == Some(key);
        lemma_last_tag_exists(tags, key, j);
    } else {
        assert(last_tag_with_key(tags, key, i));
    }
}

/// `parse_dmarc` takes the policy from the `p` tags alone: there is a
/// policy exactly when some `;`-separated tag has the key `p` (keys and
/// values trimmed), and it is the value of the last such tag.  The
/// subdomain policy is read the same way from the `sp` tags, the sampling
/// rate is the last `pct` value read as a `u8`, and no tag sets another
/// tag's field.
pub proof fn dmarc_fields_are_their_last_tags(raw: Seq<char>)
    ensures
        dmarc_of(raw).policy is Some <==> exists|i: int|
            0 <= i < split(raw, ';').len() && tag_key(#[trigger] split(raw, ';')[i]) == Some(
                "p"@,
            ),
        forall|i: int|
            last_tag_with_key(split(raw, ';'), "p"@, i) ==> dmarc_of(raw).policy == Some(
                tag_value(#[trigger] split(raw, ';')[i]),
            ),
        dmarc_of(raw).subdomain_policy is Some <==> exists|i: int|
            0 <= i < split(raw, ';').len() && tag_key(#[trigger] split(raw, ';')[i]) == Some(
                "sp"@,
            ),
        forall|i: int|
            last_tag_with_key(split(raw, ';'), "sp"@, i) ==> dmarc_of(raw).subdomain_policy
                == Some(tag_value(#[trigger] split(raw, ';')[i])),
        (forall|j: int|
            0 <= j < split(raw, ';').len() ==> tag_key(#[trigger] split(raw, ';')[j]) != Some(
                "pct"@,
            )) ==> dmarc_of(raw).pct is None,
        forall|i: int|
            last_tag_with_key(split(raw, ';'), "pct"@, i) ==> dmarc_of(raw).pct == parse_u8(
                tag_value(#[trigger] split(raw, ';')[i]),
            ),
{
    let tags = split(raw, ';');
    let d0 = DmarcView { raw, policy: None, subdomain_policy: None, pct: None };
    lemma_tags_policy(d0, tags);
    if exists|i: int| 0 <= i < tags.len() && tag_key(#[trigger] tags[i]) == Some("p"@) {
        let i = choose|i: int| 0 <= i < tags.len() && tag_key(#[trigger] tags[i]) == Some("p"@);
        lemma_last_tag_exists(tags, "p"@, i);
        let k = choose|k: int| last_tag_with_key(tags, "p"@, k);
        assert(dmarc_of(raw).policy == Some(tag_value(tags[k])));
    }
    if exists|i: int| 0 <= i < tags.len() && tag_key(#[trigger] tags[i]) == Some("sp"@) {
        let i = choose|i: int| 0 <= i < tags.len() && tag_key(#[trigger] tags[i]) == Some("sp"@);
        lemma_last_tag_exists(tags, "sp"@, i);
        let k = choose|k: int| last_tag_with_key(tags, "sp"@, k);
        assert(dmarc_of(raw).subdomain_policy == Some(tag_value(tags[k])));
    }
}

} // verus!
