//! Character-level text handling shared by the record parsers and the
//! renderers: Unicode whitespace, trimming, searching, splitting and decimal
//! formatting, each stated over the `Seq<char>` view of a string.

use vstd::prelude::*;
use vstd::utf8::{decode_utf8, encode_scalar, encode_utf8, is_ascii_chars, valid_utf8};

verus! {

// ---------------------------------------------------------------------
// Whitespace
// ---------------------------------------------------------------------

/// The Unicode `White_Space` property, which is what `char::is_whitespace`
/// (and therefore `str::trim` and `str::split_whitespace`) tests.
pub open spec fn is_space(c: char) -> bool {
    ||| ('\u{9}' <= c && c <= '\u{d}')
    ||| c == ' '
    ||| c == '\u{85}'
    ||| c == '\u{a0}'
    ||| c == '\u{1680}'
    ||| ('\u{2000}' <= c && c <= '\u{200a}')
    ||| c == '\u{2028}'
    ||| c == '\u{2029}'
    ||| c == '\u{202f}'
    ||| c == '\u{205f}'
    ||| c == '\u{3000}'
}

pub fn is_space_char(c: char) -> (b: bool)
    ensures
        b == is_space(c),
{
    ('\u{9}' <= c && c <= '\u{d}') || c == ' ' || c == '\u{85}' || c == '\u{a0}' || c
        == '\u{1680}' || ('\u{2000}' <= c && c <= '\u{200a}') || c == '\u{2028}' || c == '\u{2029}'
        || c == '\u{202f}' || c == '\u{205f}' || c == '\u{3000}'
}

// ---------------------------------------------------------------------
// Strings as character vectors
// ---------------------------------------------------------------------

/// The characters of `s`, in order.
pub fn chars_of(s: &str) -> (v: Vec<char>)
    ensures
        v@ == s@,
{
    let n = s.unicode_len();
    let mut v: Vec<char> = Vec::new();
    let mut i: usize = 0;
    while i < n
        invariant
            n == s@.len(),
            i <= n,
            v@ == s@.take(i as int),
        decreases n - i,
    {
        v.push(s.get_char(i));
        i = i + 1;
        assert(v@ =~= s@.take(i as int));
    }
    assert(s@.take(n as int) =~= s@);
    v
}

/// `String::push`: appends one character.
#[verifier::external_body]
pub(crate) fn push_char(s: &mut String, c: char)
    ensures
        final(s)@ == old(s)@.push(c),
{
    s.push(c);
}

/// The string made of the characters `v[lo..hi]`.
pub fn string_of(v: &Vec<char>, lo: usize, hi: usize) -> (s: String)
    requires
        lo <= hi <= v@.len(),
    ensures
        s@ == v@.subrange(lo as int, hi as int),
{
    let mut s = String::new();
    let mut i: usize = lo;
    while i < hi
        invariant
            lo <= i <= hi <= v@.len(),
            s@ == v@.subrange(lo as int, i as int),
        decreases hi - i,
    {
        push_char(&mut s, v[i]);
        i = i + 1;
        assert(s@ =~= v@.subrange(lo as int, i as int));
    }
    s
}

/// Whether `v[lo..hi]` spells exactly `lit`.
pub fn range_eq_str(v: &Vec<char>, lo: usize, hi: usize, lit: &str) -> (r: bool)
    requires
        lo <= hi <= v@.len(),
    ensures
        r == (v@.subrange(lo as int, hi as int) == lit@),
{
    let n = lit.unicode_len();
    if hi - lo != n {
        return false;
    }
    let mut i: usize = 0;
    while i < n
        invariant
            lo <= hi <= v@.len(),
            n == lit@.len(),
            hi - lo == n,
            i <= n,
            forall|j: int| 0 <= j < i ==> v@[lo + j] == lit@[j],
        decreases n - i,
    {
        if v[lo + i] != lit.get_char(i) {
            assert(v@.subrange(lo as int, hi as int)[i as int] != lit@[i as int]);
            return false;
        }
        i = i + 1;
    }
    assert(v@.subrange(lo as int, hi as int) =~= lit@);
    true
}

/// Whether two strings hold the same characters.
pub fn eq_str(a: &str, b: &str) -> (r: bool)
    ensures
        r == (a@ == b@),
{
    let v = chars_of(a);
    let r = range_eq_str(&v, 0, v.len(), b);
    assert(v@.subrange(0, v@.len() as int) =~= a@);
    r
}

// ---------------------------------------------------------------------
// Trimming
// ---------------------------------------------------------------------

/// `s` without its leading whitespace.
pub open spec fn trim_start(s: Seq<char>) -> Seq<char>
    decreases s.len(),
{
    if s.len() > 0 && is_space(s[0]) {
        trim_start(s.drop_first())
    } else {
        s
    }
}

/// `s` without its trailing whitespace.
pub open spec fn trim_end(s: Seq<char>) -> Seq<char>
    decreases s.len(),
{
    if s.len() > 0 && is_space(s.last()) {
        trim_end(s.drop_last())
    } else {
        s
    }
}

/// What `str::trim` returns: `s` without leading and trailing whitespace.
pub open spec fn trim(s: Seq<char>) -> Seq<char> {
    trim_end(trim_start(s))
}

/// The bounds of the trimmed part of `v[lo..hi]`.
pub fn trim_range(v: &Vec<char>, lo: usize, hi: usize) -> (r: (usize, usize))
    requires
        lo <= hi <= v@.len(),
    ensures
        lo <= r.0 <= r.1 <= hi,
        v@.subrange(r.0 as int, r.1 as int) == trim(v@.subrange(lo as int, hi as int)),
{
    let mut a: usize = lo;
    while a < hi && is_space_char(v[a])
        invariant
            lo <= a <= hi <= v@.len(),
            trim_start(v@.subrange(lo as int, hi as int)) == trim_start(
                v@.subrange(a as int, hi as int),
            ),
        decreases hi - a,
    {
        assert(v@.subrange(a as int, hi as int).drop_first() =~= v@.subrange(
            a + 1,
            hi as int,
        ));
        a = a + 1;
    }
    let mut b: usize = hi;
    while b > a && is_space_char(v[b - 1])
        invariant
            lo <= a <= b <= hi <= v@.len(),
            trim_end(v@.subrange(a as int, hi as int)) == trim_end(
                v@.subrange(a as int, b as int),
            ),
        decreases b - a,
    {
        assert(v@.subrange(a as int, b as int).drop_last() =~= v@.subrange(
            a as int,
            b - 1,
        ));
        b = b - 1;
    }
    (a, b)
}

/// What `str::trim_end_matches(c)` returns for a single character `c`.
pub open spec fn strip_trailing(s: Seq<char>, c: char) -> Seq<char>
    decreases s.len(),
{
    if s.len() > 0 && s.last() == c {
        strip_trailing(s.drop_last(), c)
    } else {
        s
    }
}

/// The end of `strip_trailing(v[lo..hi], c)`.
pub fn strip_trailing_end(v: &Vec<char>, lo: usize, hi: usize, c: char) -> (b: usize)
    requires
        lo <= hi <= v@.len(),
    ensures
        lo <= b <= hi,
        v@.subrange(lo as int, b as int) == strip_trailing(v@.subrange(lo as int, hi as int), c),
{
    let mut b: usize = hi;
    while b > lo && v[b - 1] == c
        invariant
            lo <= b <= hi <= v@.len(),
            strip_trailing(v@.subrange(lo as int, hi as int), c) == strip_trailing(
                v@.subrange(lo as int, b as int),
                c,
            ),
        decreases b - lo,
    {
        assert(v@.subrange(lo as int, b as int).drop_last() =~= v@.subrange(
            lo as int,
            b - 1,
        ));
        b = b - 1;
    }
    b
}

// ---------------------------------------------------------------------
// Searching and splitting
// ---------------------------------------------------------------------

/// The index of the first `c` in `s`, or `s.len()` when there is none.
pub open spec fn find_char(s: Seq<char>, c: char) -> nat
    decreases s.len(),
{
    if s.len() == 0 {
        0
    } else if s[0] == c {
        0
    } else {
        1 + find_char(s.drop_first(), c)
    }
}

pub proof fn lemma_find_char(s: Seq<char>, c: char)
    ensures
        find_char(s, c) <= s.len(),
        find_char(s, c) < s.len() ==> s[find_char(s, c) as int] == c,
        forall|j: int| 0 <= j < find_char(s, c) ==> s[j] != c,
    decreases s.len(),
{
    if s.len() > 0 && s[0] != c {
        lemma_find_char(s.drop_first(), c);
        assert forall|j: int| 0 <= j < find_char(s, c) implies s[j] != c by {
            if j > 0 {
                assert(s[j] == s.drop_first()[j - 1]);
            }
        }
    }
}

/// The index of the first `c` in `v[lo..hi]`, or `hi`.
pub fn find_char_in(v: &Vec<char>, lo: usize, hi: usize, c: char) -> (k: usize)
    requires
        lo <= hi <= v@.len(),
    ensures
        lo <= k <= hi,
        k - lo == find_char(v@.subrange(lo as int, hi as int), c),
{
    let mut k: usize = lo;
    while k < hi && v[k] != c
        invariant
            lo <= k <= hi <= v@.len(),
            find_char(v@.subrange(lo as int, hi as int), c) == (k - lo) + find_char(
                v@.subrange(k as int, hi as int),
                c,
            ),
        decreases hi - k,
    {
        assert(v@.subrange(k as int, hi as int).drop_first() =~= v@.subrange(
            k + 1,
            hi as int,
        ));
        k = k + 1;
    }
    k
}

/// What `str::split_once(c)` returns.
pub open spec fn split_once(s: Seq<char>, c: char) -> Option<(Seq<char>, Seq<char>)> {
    let k = find_char(s, c);
    if k < s.len() {
        Some((s.take(k as int), s.skip(k + 1 as int)))
    } else {
        None
    }
}

/// The pieces of `s` between the occurrences of `sep`, as `str::split(sep)`
/// yields them (empty pieces included, and always at least one), with `cur`
/// standing before `s` in the first piece.
pub open spec fn split_acc(s: Seq<char>, sep: char, cur: Seq<char>) -> Seq<Seq<char>>
    decreases s.len(),
{
    if s.len() == 0 {
        seq![cur]
    } else if s[0] == sep {
        seq![cur] + split_acc(s.drop_first(), sep, seq![])
    } else {
        split_acc(s.drop_first(), sep, cur.push(s[0]))
    }
}

pub proof fn lemma_split_acc(s: Seq<char>, sep: char, cur: Seq<char>)
    ensures
        split_acc(s, sep, cur) == if find_char(s, sep) < s.len() {
            seq![cur + s.take(find_char(s, sep) as int)] + split_acc(
                s.skip(find_char(s, sep) + 1 as int),
                sep,
                seq![],
            )
        } else {
            seq![cur + s]
        },
    decreases s.len(),
{
    lemma_find_char(s, sep);
    if s.len() == 0 {
        assert(cur + s =~= cur);
    } else if s[0] == sep {
        assert(s.take(0) =~= seq![]);
        assert(cur + s.take(0) =~= cur);
        assert(s.skip(1) =~= s.drop_first());
    } else {
        lemma_split_acc(s.drop_first(), sep, cur.push(s[0]));
        let f = find_char(s, sep);
        assert(f == 1 + find_char(s.drop_first(), sep));
        if f < s.len() {
            assert(cur.push(s[0]) + s.drop_first().take(f - 1) =~= cur + s.take(f as int));
            assert(s.drop_first().skip(f - 1 + 1) =~= s.skip(f + 1 as int));
        } else {
            assert(cur.push(s[0]) + s.drop_first() =~= cur + s);
        }
    }
}

/// What `str::split(sep)` yields for a single character `sep`.
pub open spec fn split(s: Seq<char>, sep: char) -> Seq<Seq<char>> {
    split_acc(s, sep, seq![])
}

/// The whitespace-separated words of `s`, with `cur` standing before `s` in
/// the first word.
pub open spec fn words_acc(s: Seq<char>, cur: Seq<char>) -> Seq<Seq<char>>
    decreases s.len(),
{
    if s.len() == 0 {
        if cur.len() > 0 {
            seq![cur]
        } else {
            seq![]
        }
    } else if is_space(s[0]) {
        (if cur.len() > 0 {
            seq![cur]
        } else {
            seq![]
        }) + words_acc(s.drop_first(), seq![])
    } else {
        words_acc(s.drop_first(), cur.push(s[0]))
    }
}

/// What `str::split_whitespace` yields: the maximal runs of non-whitespace
/// characters of `s`, in order.
pub open spec fn words(s: Seq<char>) -> Seq<Seq<char>> {
    words_acc(s, seq![])
}

/// `items` joined with `sep` between consecutive items, as `[T]::join`
/// builds it.
pub open spec fn join(items: Seq<Seq<char>>, sep: Seq<char>) -> Seq<char>
    decreases items.len(),
{
    if items.len() == 0 {
        seq![]
    } else if items.len() == 1 {
        items[0]
    } else {
        join(items.drop_last(), sep) + sep + items.last()
    }
}

pub proof fn lemma_join_push(items: Seq<Seq<char>>, sep: Seq<char>, x: Seq<char>)
    ensures
        join(items.push(x), sep) == if items.len() == 0 {
            x
        } else {
            join(items, sep) + sep + x
        },
{
    assert(items.push(x).drop_last() =~= items);
    assert(items.push(x).last() == x);
    if items.len() == 0 {
        assert(items.push(x)[0] == x);
    }
}

/// `str::contains` for a string pattern: whether `needle` occurs in `hay`
/// as a contiguous run.
pub open spec fn contains_text(hay: Seq<char>, needle: Seq<char>) -> bool {
    exists|i: int|
        0 <= i && i + needle.len() <= hay.len() && #[trigger] hay.subrange(i, i + needle.len())
            == needle
}

/// Whether `s` begins with `prefix`.
pub open spec fn starts_with(s: Seq<char>, prefix: Seq<char>) -> bool {
    prefix.len() <= s.len() && s.take(prefix.len() as int) == prefix
}

pub fn starts_with_str(s: &str, prefix: &str) -> (r: bool)
    ensures
        r == starts_with(s@, prefix@),
{
    let v = chars_of(s);
    let n = prefix.unicode_len();
    if n > v.len() {
        return false;
    }
    let r = range_eq_str(&v, 0, n, prefix);
    assert(v@.subrange(0, n as int) =~= s@.take(n as int));
    r
}

// ---------------------------------------------------------------------
// Unsigned integers
// ---------------------------------------------------------------------

pub open spec fn is_digit(c: char) -> bool {
    '0' <= c && c <= '9'
}

/// The value of a string of decimal digits.
pub open spec fn digits_value(s: Seq<char>) -> nat
    decreases s.len(),
{
    if s.len() == 0 {
        0
    } else {
        digits_value(s.drop_last()) * 10 + ((s.last() as int) - 48) as nat
    }
}

/// A string of one or more decimal digits whose value fits in a `u8`.
pub open spec fn parse_digits(d: Seq<char>) -> Option<u8> {
    if d.len() > 0 && (forall|i: int| 0 <= i < d.len() ==> is_digit(#[trigger] d[i]))
        && digits_value(d) <= 255 {
        Some(digits_value(d) as u8)
    } else {
        None
    }
}

/// What `str::parse::<u8>` gives, as an `Option`: an optional `+` sign
/// followed by one or more decimal digits whose value fits in a `u8`.
pub open spec fn parse_u8(s: Seq<char>) -> Option<u8> {
    parse_digits(
        if s.len() > 0 && s[0] == '+' {
            s.drop_first()
        } else {
            s
        },
    )
}

/// `parse_u8` of `v[lo..hi]`.
pub fn parse_u8_range(v: &Vec<char>, lo: usize, hi: usize) -> (r: Option<u8>)
    requires
        lo <= hi <= v@.len(),
    ensures
        r == parse_u8(v@.subrange(lo as int, hi as int)),
{
    let ghost s = v@.subrange(lo as int, hi as int);
    let start: usize = if lo < hi && v[lo] == '+' {
        lo + 1
    } else {
        lo
    };
    let ghost d = v@.subrange(start as int, hi as int);
    proof {
        if lo < hi {
            assert(s[0] == v@[lo as int]);
        }
        if lo < hi && v@[lo as int] == '+' {
            assert(s.drop_first() =~= d);
        } else {
            assert(s =~= d);
        }
    }
    if start == hi {
        return None;
    }
    let mut acc: u32 = 0;
    let mut j: usize = start;
    while j < hi
        invariant
            start <= j <= hi <= v@.len(),
            d == v@.subrange(start as int, hi as int),
            parse_u8(v@.subrange(lo as int, hi as int)) == parse_digits(d),
            forall|i: int| start <= i < j ==> is_digit(#[trigger] v@[i]),
            acc as nat == if digits_value(v@.subrange(start as int, j as int)) < 256 {
                digits_value(v@.subrange(start as int, j as int))
            } else {
                256
            },
        decreases hi - j,
    {
        let c = v[j];
        if !('0' <= c && c <= '9') {
            assert(!is_digit(d[j - start]));
            assert(!(forall|i: int| 0 <= i < d.len() ==> is_digit(#[trigger] d[i])));
            return None;
        }
        let ghost p = v@.subrange(start as int, j + 1);
        assert(p.drop_last() =~= v@.subrange(start as int, j as int));
        let dig: u32 = (c as u32) - 48;
        acc = if acc * 10 + dig < 256 {
            acc * 10 + dig
        } else {
            256
        };
        j = j + 1;
    }
    assert(v@.subrange(start as int, hi as int) =~= d);
    assert forall|i: int| 0 <= i < d.len() implies is_digit(#[trigger] d[i]) by {
        assert(d[i] == v@[start + i]);
    }
    if acc < 256 {
        Some(acc as u8)
    } else {
        None
    }
}

// ---------------------------------------------------------------------
// Building text
// ---------------------------------------------------------------------

/// `piece` repeated `n` times.
pub open spec fn repeat(piece: Seq<char>, n: nat) -> Seq<char>
    decreases n,
{
    if n == 0 {
        seq![]
    } else {
        repeat(piece, (n - 1) as nat) + piece
    }
}

/// `s` right-aligned in a field of `width` characters, as `{:>width}`
/// writes it.
pub open spec fn pad_left(s: Seq<char>, width: nat) -> Seq<char> {
    if s.len() < width {
        repeat(" "@, (width - s.len()) as nat) + s
    } else {
        s
    }
}

/// `s` left-aligned in a field of `width` characters, as `{:<width}`
/// writes it.
pub open spec fn pad_right(s: Seq<char>, width: nat) -> Seq<char> {
    if s.len() < width {
        s + repeat(" "@, (width - s.len()) as nat)
    } else {
        s
    }
}

pub proof fn lemma_repeat_add(piece: Seq<char>, m: nat, n: nat)
    ensures
        repeat(piece, m) + repeat(piece, n) == repeat(piece, m + n),
    decreases n,
{
    if n == 0 {
        assert(repeat(piece, m) + repeat(piece, 0) =~= repeat(piece, m));
    } else {
        lemma_repeat_add(piece, m, (n - 1) as nat);
        assert(repeat(piece, m) + (repeat(piece, (n - 1) as nat) + piece) =~= (repeat(piece, m)
            + repeat(piece, (n - 1) as nat)) + piece);
    }
}

/// Appends `piece` `n` times.
pub fn push_repeat(s: &mut String, piece: &str, n: usize)
    ensures
        final(s)@ == old(s)@ + repeat(piece@, n as nat),
{
    let mut i: usize = 0;
    assert(old(s)@ + repeat(piece@, 0) =~= old(s)@);
    while i < n
        invariant
            i <= n,
            s@ == old(s)@ + repeat(piece@, i as nat),
        decreases n - i,
    {
        s.append(piece);
        i = i + 1;
        assert(repeat(piece@, i as nat) == repeat(piece@, (i - 1) as nat) + piece@);
        assert(s@ =~= old(s)@ + repeat(piece@, i as nat));
    }
}

/// The number of bytes of the UTF-8 encoding of `s` (what `str::len`
/// counts), character by character.
pub open spec fn utf8_len(s: Seq<char>) -> nat
    decreases s.len(),
{
    if s.len() == 0 {
        0
    } else {
        encode_scalar(s[0] as u32).len() + utf8_len(s.drop_first())
    }
}

pub proof fn lemma_utf8_len(s: Seq<char>)
    ensures
        utf8_len(s) == encode_utf8(s).len(),
    decreases s.len(),
{
    if s.len() > 0 {
        lemma_utf8_len(s.drop_first());
    }
}

/// Appends `piece` once per byte of the UTF-8 encoding of `t`.
pub fn push_repeat_per_byte(s: &mut String, piece: &str, t: &str)
    ensures
        final(s)@ == old(s)@ + repeat(piece@, encode_utf8(t@).len()),
{
    let v = chars_of(t);
    let mut i: usize = v.len();
    let ghost mut done: nat = 0;
    assert(v@.skip(v@.len() as int) =~= seq![]);
    assert(old(s)@ + repeat(piece@, 0) =~= old(s)@);
    while i > 0
        invariant
            i <= v@.len(),
            v@ == t@,
            done == utf8_len(v@.skip(i as int)),
            s@ == old(s)@ + repeat(piece@, done),
        decreases i,
    {
        let c = v[i - 1];
        let u = c as u32;
        proof {
            vstd::utf8::char_is_scalar(c);
        }
        let w: usize = if u <= 0x7f {
            1
        } else if u <= 0x7ff {
            2
        } else if u <= 0xffff {
            3
        } else {
            4
        };
        assert(w == encode_scalar(u).len());
        assert(v@.skip(i - 1).drop_first() =~= v@.skip(i as int));
        assert(v@.skip(i - 1)[0] == v@[i - 1]);
        let ghost before = s@;
        push_repeat(s, piece, w);
        proof {
            lemma_repeat_add(piece@, done, w as nat);
            assert(before + repeat(piece@, w as nat) =~= old(s)@ + (repeat(piece@, done) + repeat(
                piece@,
                w as nat,
            )));
            done = done + w as nat;
        }
        i = i - 1;
    }
    assert(v@.skip(0) =~= v@);
    proof {
        lemma_utf8_len(t@);
    }
}

/// Appends `t` right-aligned in a field of `width` characters.
pub fn push_pad_left(s: &mut String, t: &str, width: usize)
    ensures
        final(s)@ == old(s)@ + pad_left(t@, width as nat),
{
    let n = t.unicode_len();
    if n < width {
        push_repeat(s, " ", width - n);
    }
    s.append(t);
    assert(s@ =~= old(s)@ + pad_left(t@, width as nat));
}

/// Appends `t` left-aligned in a field of `width` characters.
pub fn push_pad_right(s: &mut String, t: &str, width: usize)
    ensures
        final(s)@ == old(s)@ + pad_right(t@, width as nat),
{
    let n = t.unicode_len();
    s.append(t);
    if n < width {
        push_repeat(s, " ", width - n);
    }
    assert(s@ =~= old(s)@ + pad_right(t@, width as nat));
}

/// The views of a sequence of strings.
pub open spec fn string_views(v: Seq<String>) -> Seq<Seq<char>> {
    v.map_values(|x: String| x@)
}

/// Appends `items` joined with `sep`.
pub fn push_joined(s: &mut String, items: &Vec<String>, sep: &str)
    ensures
        final(s)@ == old(s)@ + join(string_views(items@), sep@),
{
    let ghost all = string_views(items@);
    let mut i: usize = 0;
    assert(all.take(0) =~= seq![]);
    assert(old(s)@ + join(seq![], sep@) =~= old(s)@);
    while i < items.len()
        invariant
            i <= items@.len(),
            all == string_views(items@),
            s@ == old(s)@ + join(all.take(i as int), sep@),
        decreases items@.len() - i,
    {
        proof {
            assert(all.take(i + 1) =~= all.take(i as int).push(items@[i as int]@));
            lemma_join_push(all.take(i as int), sep@, items@[i as int]@);
        }
        if i > 0 {
            s.append(sep);
        }
        s.append(items[i].as_str());
        i = i + 1;
        assert(s@ =~= old(s)@ + join(all.take(i as int), sep@));
    }
    assert(all.take(items@.len() as int) =~= all);
}

// ---------------------------------------------------------------------
// Decimal numbers
// ---------------------------------------------------------------------

/// The ASCII digit for `d < 10`.
pub open spec fn digit_char(d: nat) -> char {
    (48 + d) as char
}

/// The decimal representation of `n`, as `Display` writes an unsigned
/// integer: no sign, no leading zeros (`"0"` for zero).
pub open spec fn decimal(n: nat) -> Seq<char>
    decreases n,
{
    if n < 10 {
        seq![digit_char(n)]
    } else {
        decimal(n / 10).push(digit_char(n % 10))
    }
}

/// Appends the decimal representation of `n` to `s`.
pub fn push_decimal(s: &mut String, n: u32)
    ensures
        final(s)@ == old(s)@ + decimal(n as nat),
    decreases n,
{
    if n >= 10 {
        push_decimal(s, n / 10);
    }
    let d: u32 = n % 10;
    let c: char = (48u8 + (d as u8)) as char;
    assert(c == digit_char(d as nat));
    push_char(s, c);
    assert(decimal(n as nat) == if n < 10 {
        seq![digit_char(n as nat)]
    } else {
        decimal((n / 10) as nat).push(digit_char((n % 10) as nat))
    });
}

// ---------------------------------------------------------------------
// ASCII case
// ---------------------------------------------------------------------

/// `char::to_ascii_lowercase`.
pub open spec fn ascii_lower_char(c: char) -> char {
    if 'A' <= c && c <= 'Z' {
        ((c as int) + 32) as char
    } else {
        c
    }
}

/// `str::to_ascii_lowercase`, character by character.
pub open spec fn ascii_lower(s: Seq<char>) -> Seq<char> {
    s.map_values(|c: char| ascii_lower_char(c))
}

/// Lowercasing ASCII text again changes nothing, and keeps it ASCII.
pub proof fn ascii_lower_is_idempotent(s: Seq<char>)
    ensures
        ascii_lower(ascii_lower(s)) == ascii_lower(s),
        is_ascii_chars(s) ==> is_ascii_chars(ascii_lower(s)),
{
    assert(ascii_lower(ascii_lower(s)) =~= ascii_lower(s));
}

/// The characters of `v` with `A`..`Z` lowered to `a`..`z`.
pub fn ascii_lowercase_chars(v: &Vec<char>) -> (r: Vec<char>)
    ensures
        r@ == ascii_lower(v@),
{
    let mut r: Vec<char> = Vec::new();
    let mut i: usize = 0;
    while i < v.len()
        invariant
            i <= v@.len(),
            r@ == ascii_lower(v@.take(i as int)),
        decreases v@.len() - i,
    {
        let c = v[i];
        let d = if 'A' <= c && c <= 'Z' {
            ((c as u8) + 32) as char
        } else {
            c
        };
        assert(d == ascii_lower_char(c));
        r.push(d);
        i = i + 1;
        assert(r@ =~= ascii_lower(v@.take(i as int)));
    }
    assert(v@.take(v@.len() as int) =~= v@);
    r
}

// ---------------------------------------------------------------------
// Conversions done by std
// ---------------------------------------------------------------------

/// What `str::to_lowercase` returns for a string: its lowercase equivalent
/// under the Unicode `Lowercase` mapping.
pub uninterp spec fn unicode_lowercase(s: Seq<char>) -> Seq<char>;

/// `str::to_lowercase`.  The claims are that the result depends on the
/// characters of `s` alone, and that ASCII text comes back as its ASCII
/// lowercase (the Unicode mapping of `A`..`Z` is `a`..`z`, and every other
/// ASCII character maps to itself); what the mapping gives for other
/// characters is not stated.
#[verifier::external_body]
pub(crate) fn to_lowercase(s: &str) -> (r: String)
    ensures
        r@ == unicode_lowercase(s@),
        is_ascii_chars(s@) ==> r@ == ascii_lower(s@),
{
    s.to_lowercase()
}

/// What lowercasing makes of `s`: its ASCII lowercase when it is ASCII, the
/// Unicode lowercase mapping otherwise.
pub open spec fn lowercased(s: Seq<char>) -> Seq<char> {
    if is_ascii_chars(s) {
        ascii_lower(s)
    } else {
        unicode_lowercase(s)
    }
}

/// What `String::from_utf8_lossy` makes of a byte string: its UTF-8
/// decoding, with each invalid sequence replaced by U+FFFD.
pub uninterp spec fn utf8_lossy(b: Seq<u8>) -> Seq<char>;

/// `String::from_utf8_lossy`, made owned.  The claims are that the result
/// depends on the bytes alone, and that bytes which are valid UTF-8 are
/// decoded as such; how invalid sequences are replaced is not stated.
#[verifier::external_body]
pub(crate) fn from_utf8_lossy(b: &[u8]) -> (r: String)
    ensures
        r@ == utf8_lossy(b@),
        valid_utf8(b@) ==> r@ == decode_utf8(b@),
{
    String::from_utf8_lossy(b).into_owned()
}

} // verus!
