//! Choosing a built-in provider preset from the name given on the command
//! line.
//!
//! Matching is ASCII-case-insensitive: an exact match wins; otherwise the
//! name must be a substring of exactly one preset name.  An ambiguous name
//! is an error rather than a silent pick of the first match.

use vstd::prelude::*;

use crate::text::{
    ascii_lower, ascii_lowercase_chars, chars_of, contains_text, string_of, trim, trim_range,
};

verus! {

/// `str::eq_ignore_ascii_case`.
pub open spec fn eq_ignore_ascii_case(a: Seq<char>, b: Seq<char>) -> bool {
    ascii_lower(a) == ascii_lower(b)
}

/// The views of the preset names.
pub open spec fn name_views(names: Seq<&str>) -> Seq<Seq<char>> {
    names.map_values(|n: &str| n@)
}

/// The index of the first name equal to `name` up to ASCII case.
pub open spec fn exact_match(names: Seq<Seq<char>>, name: Seq<char>) -> Option<usize>
    decreases names.len(),
{
    if names.len() == 0 {
        None
    } else {
        match exact_match(names.drop_last(), name) {
            Some(i) => Some(i),
            None => if eq_ignore_ascii_case(names.last(), name) {
                Some((names.len() - 1) as usize)
            } else {
                None
            },
        }
    }
}

/// The indices, in order, of the names whose ASCII-lowercased form holds
/// `needle`.
pub open spec fn substring_hits(names: Seq<Seq<char>>, needle: Seq<char>) -> Seq<usize>
    decreases names.len(),
{
    if names.len() == 0 {
        seq![]
    } else if contains_text(ascii_lower(names.last()), needle) {
        substring_hits(names.drop_last(), needle).push((names.len() - 1) as usize)
    } else {
        substring_hits(names.drop_last(), needle)
    }
}

/// Why no preset was chosen.
#[derive(Debug, Clone, PartialEq, Eq)]
pub enum ProviderError {
    /// No preset name matches.
    Unknown,
    /// Several preset names match; their indices, in order.
    Ambiguous(Vec<usize>),
}

/// The preset chosen for `name`: `Ok` with its index, or `Err` with the
/// indices of all the matching names (none, or more than one).
pub open spec fn provider_choice(names: Seq<Seq<char>>, name: Seq<char>) -> Result<usize, Seq<usize>> {
    match exact_match(names, name) {
        Some(i) => Ok(i),
        None => {
            let hits = substring_hits(names, ascii_lower(name));
            if hits.len() == 1 {
                Ok(hits[0])
            } else {
                Err(hits)
            }
        },
    }
}

fn same_chars(a: &Vec<char>, b: &Vec<char>) -> (r: bool)
    ensures
        r == (a@ == b@),
{
    if a.len() != b.len() {
        return false;
    }
    let mut i: usize = 0;
    while i < a.len()
        invariant
            i <= a@.len(),
            a@.len() == b@.len(),
            forall|j: int| 0 <= j < i ==> a@[j] == b@[j],
        decreases a@.len() - i,
    {
        if a[i] != b[i] {
            return false;
        }
        i = i + 1;
    }
    assert(a@ =~= b@);
    true
}

fn holds_at(hay: &Vec<char>, needle: &Vec<char>, at: usize) -> (r: bool)
    requires
        at + needle@.len() <= hay@.len(),
    ensures
        r == (hay@.subrange(at as int, at + needle@.len()) == needle@),
{
    let mut j: usize = 0;
    while j < needle.len()
        invariant
            j <= needle@.len(),
            at + needle@.len() <= hay@.len(),
            hay@.len() == hay.len(),
            forall|k: int| 0 <= k < j ==> hay@[at + k] == needle@[k],
        decreases needle@.len() - j,
    {
        if hay[at + j] != needle[j] {
            assert(hay@.subrange(at as int, at + needle@.len())[j as int] != needle@[j as int]);
            return false;
        }
        j = j + 1;
    }
    assert(hay@.subrange(at as int, at + needle@.len()) =~= needle@);
    true
}

fn holds(hay: &Vec<char>, needle: &Vec<char>) -> (r: bool)
    ensures
        r == contains_text(hay@, needle@),
{
    if needle.len() > hay.len() {
        return false;
    }
    let last = hay.len() - needle.len();
    let mut i: usize = 0;
    while i <= last
        invariant_except_break
            i <= last,
            last + needle@.len() == hay@.len(),
            forall|k: int|
                0 <= k < i ==> #[trigger] hay@.subrange(k, k + needle@.len()) != needle@,
        ensures
            forall|k: int|
                0 <= k <= last ==> #[trigger] hay@.subrange(k, k + needle@.len()) != needle@,
        decreases last + 1 - i,
    {
        if holds_at(hay, needle, i) {
            return true;
        }
        if i == last {
            break;
        }
        i = i + 1;
    }
    false
}

/// Resolves a provider name against the preset names: an ASCII-case-
/// insensitive exact match first, then a unique ASCII-case-insensitive
/// substring match.  No match, and more than one, are errors.
pub fn resolve_provider(names: &[&str], name: &str) -> (r: Result<usize, ProviderError>)
    ensures
        match r {
            Ok(i) => provider_choice(name_views(names@), name@) == Ok::<usize, Seq<usize>>(i),
            Err(ProviderError::Unknown) => provider_choice(name_views(names@), name@) == Err::<
                usize,
                Seq<usize>,
            >(seq![]),
            Err(ProviderError::Ambiguous(v)) => v@.len() > 1 && provider_choice(
                name_views(names@),
                name@,
            ) == Err::<usize, Seq<usize>>(v@),
        },
{
    let ghost ns = name_views(names@);
    let target = ascii_lowercase_chars(&chars_of(name));
    // 1. Exact match (ASCII-case-insensitive).
    let mut i: usize = 0;
    assert(ns.take(0) =~= seq![]);
    while i < names.len()
        invariant
            i <= names@.len(),
            ns == name_views(names@),
            target@ == ascii_lower(name@),
            exact_match(ns.take(i as int), name@) is None,
        decreases names@.len() - i,
    {
        let cand = ascii_lowercase_chars(&chars_of(names[i]));
        assert(ns.take(i + 1).drop_last() =~= ns.take(i as int));
        assert(ns.take(i + 1).last() == names@[i as int]@);
        if same_chars(&cand, &target) {
            proof {
                lemma_exact_match_prefix(ns, (i + 1) as int, name@);
            }
            return Ok(i);
        }
        i = i + 1;
    }
    assert(ns.take(names@.len() as int) =~= ns);
    // 2. Unique substring match.
    let mut hits: Vec<usize> = Vec::new();
    let mut j: usize = 0;
    assert(ns.take(0) =~= seq![]);
    while j < names.len()
        invariant
            j <= names@.len(),
            ns == name_views(names@),
            target@ == ascii_lower(name@),
            hits@ == substring_hits(ns.take(j as int), target@),
        decreases names@.len() - j,
    {
        let cand = ascii_lowercase_chars(&chars_of(names[j]));
        assert(ns.take(j + 1).drop_last() =~= ns.take(j as int));
        assert(ns.take(j + 1).last() == names@[j as int]@);
        if holds(&cand, &target) {
            hits.push(j);
        }
        j = j + 1;
    }
    assert(ns.take(names@.len() as int) =~= ns);
    if hits.len() == 1 {
        Ok(hits[0])
    } else if hits.len() == 0 {
        assert(hits@ =~= seq![]);
        Err(ProviderError::Unknown)
    } else {
        Err(ProviderError::Ambiguous(hits))
    }
}

proof fn lemma_exact_match(names: Seq<Seq<char>>, name: Seq<char>)
    requires
        names.len() <= usize::MAX,
    ensures
        match exact_match(names, name) {
            Some(i) => {
                &&& i < names.len()
                &&& eq_ignore_ascii_case(names[i as int], name)
                &&& forall|j: int| 0 <= j < i ==> !eq_ignore_ascii_case(#[trigger] names[j], name)
            },
            None => forall|j: int|
                0 <= j < names.len() ==> !eq_ignore_ascii_case(#[trigger] names[j], name),
        },
    decreases names.len(),
{
    if names.len() > 0 {
        let p = names.drop_last();
        lemma_exact_match(p, name);
        assert(names.last() == names[names.len() - 1]);
        match exact_match(p, name) {
            Some(i) => {
                assert(names[i as int] == p[i as int]);
                assert forall|j: int| 0 <= j < i implies !eq_ignore_ascii_case(
                    #[trigger] names[j],
                    name,
                ) by {
                    assert(names[j] == p[j]);
                }
            },
            None => {
                assert forall|j: int| 0 <= j < names.len() - 1 implies !eq_ignore_ascii_case(
                    #[trigger] names[j],
                    name,
                ) by {
                    assert(names[j] == p[j]);
                }
            },
        }
    }
}

proof fn lemma_substring_hits(names: Seq<Seq<char>>, needle: Seq<char>)
    requires
        names.len() <= usize::MAX,
    ensures
        forall|k: int|
            0 <= k < substring_hits(names, needle).len() ==> {
                let h = #[trigger] substring_hits(names, needle)[k];
                h < names.len() && contains_text(ascii_lower(names[h as int]), needle)
            },
    decreases names.len(),
{
    if names.len() > 0 {
        let p = names.drop_last();
        lemma_substring_hits(p, needle);
        let hp = substring_hits(p, needle);
        assert forall|k: int| 0 <= k < substring_hits(names, needle).len() implies {
            let h = #[trigger] substring_hits(names, needle)[k];
            h < names.len() && contains_text(ascii_lower(names[h as int]), needle)
        } by {
            assert(names.last() == names[names.len() - 1]);
            if k < hp.len() {
                assert(substring_hits(names, needle)[k] == hp[k]);
                assert(names[hp[k] as int] == p[hp[k] as int]);
            } else {
                assert(substring_hits(names, needle) == hp.push((names.len() - 1) as usize));
                assert(substring_hits(names, needle)[k] == (names.len() - 1) as usize);
            }
        }
    }
}

/// Whether `i` names a preset that matches `name`: equal to it up to ASCII
/// case, or holding it up to ASCII case.
pub open spec fn preset_matches(names: Seq<Seq<char>>, name: Seq<char>, i: usize) -> bool {
    i < names.len() && (eq_ignore_ascii_case(names[i as int], name) || contains_text(
        ascii_lower(names[i as int]),
        ascii_lower(name),
    ))
}

/// Whether `i` is the first preset whose name equals `name` up to ASCII
/// case.
pub open spec fn first_exact(names: Seq<Seq<char>>, name: Seq<char>, i: usize) -> bool {
    &&& i < names.len()
    &&& eq_ignore_ascii_case(names[i as int], name)
    &&& forall|j: int| 0 <= j < i ==> !eq_ignore_ascii_case(#[trigger] names[j], name)
}

/// The preset chosen for a name matches it; when some preset name equals
/// it up to ASCII case, the first such preset is chosen; and every index
/// reported as ambiguous matches too.
pub proof fn chosen_provider_matches(names: Seq<Seq<char>>, name: Seq<char>)
    requires
        names.len() <= usize::MAX,
    ensures
        provider_choice(names, name) is Ok ==> preset_matches(
            names,
            name,
            provider_choice(names, name)->Ok_0,
        ),
        (exists|j: int| 0 <= j < names.len() && eq_ignore_ascii_case(#[trigger] names[j], name))
            ==> provider_choice(names, name) is Ok && first_exact(
            names,
            name,
            provider_choice(names, name)->Ok_0,
        ),
        provider_choice(names, name) is Err ==> forall|k: int|
            0 <= k < provider_choice(names, name)->Err_0.len() ==> preset_matches(
                names,
                name,
                #[trigger] provider_choice(names, name)->Err_0[k],
            ),
{
    lemma_exact_match(names, name);
    lemma_substring_hits(names, ascii_lower(name));
    let hits = substring_hits(names, ascii_lower(name));
    if exact_match(names, name) is None && hits.len() == 1 {
        assert(hits[0] == hits[0]);
    }
}

proof fn lemma_exact_match_prefix(ns: Seq<Seq<char>>, k: int, name: Seq<char>)
    requires
        0 < k <= ns.len(),
        exact_match(ns.take(k), name) is Some,
    ensures
        exact_match(ns, name) == exact_match(ns.take(k), name),
    decreases ns.len() - k,
{
    if k < ns.len() {
        assert(ns.take(k + 1).drop_last() =~= ns.take(k));
        lemma_exact_match_prefix(ns, k + 1, name);
    } else {
        assert(ns.take(k) =~= ns);
    }
}

/// Whether `c` ends a line: a carriage return or a line feed.
pub open spec fn is_line_end(c: char) -> bool {
    c == '\r' || c == '\n'
}

/// `s` without the carriage returns and line feeds at its end (what
/// `str::trim_end_matches(['\r', '\n'])` returns).
pub open spec fn strip_line_end(s: Seq<char>) -> Seq<char>
    decreases s.len(),
{
    if s.len() > 0 && is_line_end(s.last()) {
        strip_line_end(s.drop_last())
    } else {
        s
    }
}

/// A line typed at a prompt, without leading and trailing whitespace.
pub fn trimmed_answer(line: &str) -> (r: String)
    ensures
        r@ == trim(line@),
{
    let v = chars_of(line);
    let (a, b) = trim_range(&v, 0, v.len());
    assert(v@.subrange(0, v@.len() as int) =~= v@);
    string_of(&v, a, b)
}

/// A password typed at a prompt, without its line ending; every other
/// character, whitespace included, is kept.
pub fn password_answer(line: &str) -> (r: String)
    ensures
        r@ == strip_line_end(line@),
{
    let v = chars_of(line);
    let mut b: usize = v.len();
    assert(v@.subrange(0, b as int) =~= v@);
    while b > 0 && (v[b - 1] == '\r' || v[b - 1] == '\n')
        invariant
            b <= v@.len(),
            strip_line_end(v@) == strip_line_end(v@.subrange(0, b as int)),
        decreases b,
    {
        assert(v@.subrange(0, b as int).drop_last() =~= v@.subrange(0, b - 1));
        b = b - 1;
    }
    string_of(&v, 0, b)
}

} // verus!
