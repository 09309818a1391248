//! Locale normalisation.
//!
//! Region tags (`_NL`, `-NL`) and codeset suffixes (`.UTF-8`) are stripped
//! from a raw locale string, because translations are keyed by language
//! only.  What comes out of detection is a bare language code: at most three
//! lowercase ASCII letters, never a leak of region or codeset.  Reading the
//! locale from the operating system is the caller's part.

use vstd::prelude::*;

use vstd::utf8::is_ascii_chars;

use crate::text::{
    ascii_lower, ascii_lower_is_idempotent, chars_of, lowercased, string_of, to_lowercase,
    unicode_lowercase,
};

verus! {

/// The characters that end the language part of a locale string.
pub open spec fn is_locale_separator(c: char) -> bool {
    c == '_' || c == '-' || c == '.'
}

/// The index of the first separator in `s`, or `s.len()` when there is none.
pub open spec fn separator_index(s: Seq<char>) -> nat
    decreases s.len(),
{
    if s.len() == 0 {
        0
    } else if is_locale_separator(s[0]) {
        0
    } else {
        1 + separator_index(s.drop_first())
    }
}

/// The language part of a locale string: everything before the first `_`,
/// `-` or `.` (the whole string when there is none).
pub open spec fn language_part(code: Seq<char>) -> Seq<char> {
    code.take(separator_index(code) as int)
}

proof fn lemma_separator_index(s: Seq<char>)
    ensures
        separator_index(s) <= s.len(),
        separator_index(s) < s.len() ==> is_locale_separator(s[separator_index(s) as int]),
        forall|j: int| 0 <= j < separator_index(s) ==> !is_locale_separator(#[trigger] s[j]),
    decreases s.len(),
{
    if s.len() > 0 && !is_locale_separator(s[0]) {
        lemma_separator_index(s.drop_first());
        assert forall|j: int| 0 <= j < separator_index(s) implies !is_locale_separator(
            #[trigger] s[j],
        ) by {
            if j > 0 {
                assert(s[j] == s.drop_first()[j - 1]);
            }
        }
    }
}

/// The language part of a locale string is a prefix of it that holds no
/// separator, and it is the whole string when the string holds none.
pub proof fn language_part_is_separator_free(code: Seq<char>)
    ensures
        language_part(code).len() <= code.len(),
        language_part(code) == code.take(language_part(code).len() as int),
        forall|i: int|
            0 <= i < language_part(code).len() ==> !is_locale_separator(
                #[trigger] language_part(code)[i],
            ),
        (forall|i: int| 0 <= i < code.len() ==> !is_locale_separator(#[trigger] code[i]))
            ==> language_part(code) == code,
{
    lemma_separator_index(code);
    let k = separator_index(code);
    assert forall|i: int| 0 <= i < language_part(code).len() implies !is_locale_separator(
        #[trigger] language_part(code)[i],
    ) by {
        assert(language_part(code)[i] == code[i]);
    }
    if forall|i: int| 0 <= i < code.len() ==> !is_locale_separator(#[trigger] code[i]) {
        if k < code.len() {
            assert(is_locale_separator(code[k as int]));
        }
        assert(code.take(code.len() as int) =~= code);
    }
}

/// What normalising a raw locale string gives: its language part,
/// lowercased.
pub open spec fn normalised(code: Seq<char>) -> Seq<char> {
    lowercased(language_part(code))
}

/// Strips region and codeset from a raw locale string and lowercases what
/// remains: `"nl_NL.UTF-8"` becomes `"nl"`.
pub fn normalise(code: &str) -> (r: String)
    ensures
        r@ == unicode_lowercase(language_part(code@)),
        r@ == normalised(code@),
{
    let v = chars_of(code);
    let n = v.len();
    let mut k: usize = 0;
    proof {
        lemma_separator_index(code@);
        assert(v@.skip(0) =~= v@);
    }
    while k < n && !(v[k] == '_' || v[k] == '-' || v[k] == '.')
        invariant
            k <= n,
            n == v@.len(),
            separator_index(v@) == k + separator_index(v@.skip(k as int)),
        decreases n - k,
    {
        assert(v@.skip(k as int).drop_first() =~= v@.skip(k + 1));
        k = k + 1;
    }
    proof {
        if k < n {
            assert(v@.skip(k as int)[0] == v@[k as int]);
        } else {
            assert(v@.skip(k as int).len() == 0);
        }
    }
    let part = string_of(&v, 0, k);
    assert(part@ =~= language_part(code@));
    to_lowercase(part.as_str())
}

/// Whether `s` is a bare language code: at most three characters, each a
/// lowercase ASCII letter.
pub open spec fn is_language_code(s: Seq<char>) -> bool {
    s.len() <= 3 && forall|i: int| 0 <= i < s.len() ==> 'a' <= #[trigger] s[i] && s[i] <= 'z'
}

/// The language code detected from a raw locale string: its normalised
/// form when that is a bare language code, and none otherwise.
pub open spec fn language_code_of(raw: Seq<char>) -> Option<Seq<char>> {
    if is_language_code(normalised(raw)) {
        Some(normalised(raw))
    } else {
        None
    }
}

/// Keeps a normalised locale string when it is a bare language code (at
/// most three lowercase ASCII letters) and drops it otherwise.
pub fn bare_language_code(code: String) -> (r: Option<String>)
    ensures
        match r {
            Some(c) => is_language_code(code@) && c@ == code@,
            None => !is_language_code(code@),
        },
{
    let v = chars_of(code.as_str());
    if v.len() > 3 {
        return None;
    }
    let mut i: usize = 0;
    while i < v.len()
        invariant
            i <= v@.len(),
            v@ == code@,
            forall|j: int| 0 <= j < i ==> 'a' <= #[trigger] v@[j] && v@[j] <= 'z',
        decreases v@.len() - i,
    {
        if !('a' <= v[i] && v[i] <= 'z') {
            return None;
        }
        i = i + 1;
    }
    Some(code)
}

/// The language code of a raw locale string as the operating system gives
/// it: `"nl_NL.UTF-8"` gives `Some("nl")`, while `"POSIX"` and `"sr@latin"`,
/// whose language part is no bare code, give `None`.
pub fn language_code(raw: &str) -> (r: Option<String>)
    ensures
        match r {
            Some(c) => language_code_of(raw@) == Some(c@),
            None => language_code_of(raw@) is None,
        },
{
    bare_language_code(normalise(raw))
}

/// Lowercasing keeps ASCII text ASCII, and keeps separators where they are.
proof fn lemma_ascii_lower_separators(s: Seq<char>)
    ensures
        ascii_lower(s).len() == s.len(),
        forall|i: int|
            0 <= i < s.len() ==> (is_locale_separator(#[trigger] ascii_lower(s)[i])
                <==> is_locale_separator(s[i])),
{
}

/// Normalising a string that is already normalised changes nothing, for
/// every raw locale string whose language part is ASCII.
pub proof fn normalise_is_idempotent_on_ascii(code: Seq<char>)
    requires
        is_ascii_chars(language_part(code)),
    ensures
        normalised(normalised(code)) == normalised(code),
{
    let p = language_part(code);
    let n = ascii_lower(p);
    language_part_is_separator_free(code);
    ascii_lower_is_idempotent(p);
    lemma_ascii_lower_separators(p);
    assert(normalised(code) == n);
    assert forall|i: int| 0 <= i < n.len() implies !is_locale_separator(#[trigger] n[i]) by {
        assert(!is_locale_separator(p[i]));
    }
    language_part_is_separator_free(n);
    assert(language_part(n) == n);
}

/// A detected language code is detected as itself: it is its own language
/// part and its own lowercase.
pub proof fn language_code_is_idempotent(raw: Seq<char>)
    ensures
        language_code_of(raw) matches Some(c) ==> language_code_of(c) == Some(c),
{
    if language_code_of(raw) is Some {
        let c = normalised(raw);
        assert(is_ascii_chars(c));
        assert forall|i: int| 0 <= i < c.len() implies !is_locale_separator(#[trigger] c[i]) by {
            assert('a' <= c[i] && c[i] <= 'z');
        }
        language_part_is_separator_free(c);
        assert(language_part(c) == c);
        assert(ascii_lower(c) =~= c);
        assert(normalised(c) == c);
    }
}

} // verus!
