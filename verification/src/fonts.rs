//! Per-locale font candidates for non-Latin scripts.
//!
//! The bundled GUI fonts cover Latin, Cyrillic and Greek only; CJK, Arabic,
//! Devanagari, Thai and a few other scripts would render as boxes.  For
//! those, a font installed with the operating system is appended to the
//! fallback chain.  This module says which OS-typical family names to try
//! for a locale (Windows, macOS and Linux names, in descending priority
//! order) and under which name such a font is registered.  Finding the
//! fonts on disk and installing them in the GUI is the caller's part.

use vstd::prelude::*;

use crate::text::{eq_str, lowercased, to_lowercase, unicode_lowercase};

verus! {
/// Chinese (Simplified).
pub open spec fn zh_hans_fonts() -> Seq<&'static str> {
    seq![
        "Microsoft YaHei UI",
        "Microsoft YaHei",
        "PingFang SC",
        "Noto Sans CJK SC",
        "Source Han Sans SC",
        "WenQuanYi Zen Hei",
    ]
}

/// Chinese (Traditional).
pub open spec fn zh_hant_fonts() -> Seq<&'static str> {
    seq![
        "Microsoft JhengHei UI",
        "Microsoft JhengHei",
        "PingFang TC",
        "Noto Sans CJK TC",
        "Source Han Sans TC",
    ]
}

/// Japanese.
pub open spec fn japanese_fonts() -> Seq<&'static str> {
    seq![
        "Yu Gothic UI",
        "Yu Gothic",
        "Meiryo UI",
        "Meiryo",
        "Hiragino Sans",
        "Hiragino Kaku Gothic ProN",
        "Noto Sans CJK JP",
        "IPAexGothic",
    ]
}

/// Korean.
pub open spec fn korean_fonts() -> Seq<&'static str> {
    seq![
        "Malgun Gothic",
        "Apple SD Gothic Neo",
        "AppleGothic",
        "Noto Sans CJK KR",
        "NanumGothic",
    ]
}

/// Arabic, Persian, Urdu (all written in Arabic script).
pub open spec fn arabic_fonts() -> Seq<&'static str> {
    seq![
        "Segoe UI",
        "Tahoma",
        "Geeza Pro",
        "Damascus",
        "Noto Sans Arabic",
        "Noto Naskh Arabic",
        "Amiri",
    ]
}

/// Hebrew.
pub open spec fn hebrew_fonts() -> Seq<&'static str> {
    seq![
        "Segoe UI",
        "Arial Hebrew",
        "Noto Sans Hebrew",
    ]
}

/// Devanagari (Hindi, Marathi).
pub open spec fn devanagari_fonts() -> Seq<&'static str> {
    seq![
        "Mangal",
        "Nirmala UI",
        "Kohinoor Devanagari",
        "Devanagari Sangam MN",
        "Noto Sans Devanagari",
    ]
}

/// Bengali.
pub open spec fn bengali_fonts() -> Seq<&'static str> {
    seq![
        "Vrinda",
        "Nirmala UI",
        "Bangla Sangam MN",
        "Noto Sans Bengali",
    ]
}

/// Tamil.
pub open spec fn tamil_fonts() -> Seq<&'static str> {
    seq![
        "Latha",
        "Nirmala UI",
        "Tamil Sangam MN",
        "Noto Sans Tamil",
    ]
}

/// Telugu.
pub open spec fn telugu_fonts() -> Seq<&'static str> {
    seq![
        "Gautami",
        "Nirmala UI",
        "Telugu Sangam MN",
        "Noto Sans Telugu",
    ]
}

/// Thai.
pub open spec fn thai_fonts() -> Seq<&'static str> {
    seq![
        "Leelawadee UI",
        "Leelawadee",
        "Thonburi",
        "Noto Sans Thai",
        "Garuda",
    ]
}

/// The OS-typical family names to try for a locale code, in descending
/// priority order; none for the locales whose script the bundled fonts
/// cover.
pub open spec fn font_candidates(code: Seq<char>) -> Seq<&'static str> {
    if code == "zh"@ || code == "zh-cn"@ {
        zh_hans_fonts()
    } else if code == "zh-tw"@ || code == "zh-hk"@ {
        zh_hant_fonts()
    } else if code == "ja"@ {
        japanese_fonts()
    } else if code == "ko"@ {
        korean_fonts()
    } else if code == "ar"@ || code == "fa"@ || code == "ur"@ {
        arabic_fonts()
    } else if code == "he"@ || code == "iw"@ {
        hebrew_fonts()
    } else if code == "hi"@ || code == "mr"@ {
        devanagari_fonts()
    } else if code == "bn"@ {
        bengali_fonts()
    } else if code == "ta"@ {
        tamil_fonts()
    } else if code == "te"@ {
        telugu_fonts()
    } else if code == "th"@ {
        thai_fonts()
    } else {
        seq![]
    }
}

/// The locale codes whose script the bundled fonts do not cover: Chinese,
/// Japanese, Korean, the Arabic-script languages, Hebrew, the Devanagari
/// languages, Bengali, Tamil, Telugu and Thai.
pub open spec fn needs_os_fonts(code: Seq<char>) -> bool {
    ||| code == "zh"@ || code == "zh-cn"@ || code == "zh-tw"@ || code == "zh-hk"@
    ||| code == "ja"@ || code == "ko"@
    ||| code == "ar"@ || code == "fa"@ || code == "ur"@
    ||| code == "he"@ || code == "iw"@
    ||| code == "hi"@ || code == "mr"@
    ||| code == "bn"@ || code == "ta"@ || code == "te"@ || code == "th"@
}

/// A locale gets font candidates exactly when the bundled fonts do not
/// cover its script, and each gets the list of its script; locales written
/// in one script get the same candidates: Hindi and Marathi the Devanagari
/// list, Arabic, Persian and Urdu the Arabic list, Hebrew under both its
/// codes the Hebrew list, and Chinese the Simplified or Traditional list by
/// region.
pub proof fn candidates_exactly_for_uncovered_scripts(code: Seq<char>)
    ensures
        font_candidates(code).len() > 0 <==> needs_os_fonts(code),
        font_candidates("hi"@) == devanagari_fonts(),
        font_candidates("mr"@) == devanagari_fonts(),
        font_candidates("ar"@) == arabic_fonts(),
        font_candidates("fa"@) == arabic_fonts(),
        font_candidates("ur"@) == arabic_fonts(),
        font_candidates("he"@) == hebrew_fonts(),
        font_candidates("iw"@) == hebrew_fonts(),
        font_candidates("zh"@) == zh_hans_fonts(),
        font_candidates("zh-cn"@) == zh_hans_fonts(),
        font_candidates("zh-tw"@) == zh_hant_fonts(),
        font_candidates("zh-hk"@) == zh_hant_fonts(),
        font_candidates("ja"@) == japanese_fonts(),
        font_candidates("ko"@) == korean_fonts(),
        font_candidates("bn"@) == bengali_fonts(),
        font_candidates("ta"@) == tamil_fonts(),
        font_candidates("te"@) == telugu_fonts(),
        font_candidates("th"@) == thai_fonts(),
{
    reveal_strlit("zh");
    reveal_strlit("zh-cn");
    reveal_strlit("zh-tw");
    reveal_strlit("zh-hk");
    reveal_strlit("ja");
    reveal_strlit("ko");
    reveal_strlit("ar");
    reveal_strlit("fa");
    reveal_strlit("ur");
    reveal_strlit("he");
    reveal_strlit("iw");
    reveal_strlit("hi");
    reveal_strlit("mr");
    reveal_strlit("bn");
    reveal_strlit("ta");
    reveal_strlit("te");
    reveal_strlit("th");
    assert("hi"@[1] != "he"@[1]);
    assert("ta"@[1] != "te"@[1] && "ta"@[1] != "th"@[1] && "te"@[1] != "th"@[1]);
    assert("ta"@[0] == 't' && "te"@[0] == 't' && "th"@[0] == 't' && "bn"@[0] == 'b');
    assert("zh-tw"@.len() != "zh"@.len() && "zh-tw"@[3] != "zh-cn"@[3]);
    assert("zh-hk"@.len() != "zh"@.len() && "zh-hk"@[3] != "zh-cn"@[3]);
    assert("zh"@[0] != 'h' && "zh"@[0] != 'm');
    assert("zh-cn"@[0] != 'h' && "zh-cn"@[0] != 'm');
    assert("zh-tw"@[0] != 'h' && "zh-tw"@[0] != 'm');
    assert("zh-hk"@[0] != 'h' && "zh-hk"@[0] != 'm');
    assert("ja"@[0] != 'h' && "ja"@[0] != 'm');
    assert("ko"@[0] != 'h' && "ko"@[0] != 'm');
    assert("ar"@[0] != 'h' && "ar"@[0] != 'm');
    assert("fa"@[0] != 'h' && "fa"@[0] != 'm');
    assert("ur"@[0] != 'h' && "ur"@[0] != 'm');
    assert("iw"@[0] != 'h' && "iw"@[0] != 'm');
}

/// The OS-typical font family names to try for a (normalised, lowercase)
/// locale code, in descending priority order.  Locales whose script the
/// bundled fonts cover get none, so that the fonts of the operating system
/// need not be looked at.
pub fn candidates_for_locale(code: &str) -> (r: &'static [&'static str])
    ensures
        r@ == font_candidates(code@),
{
    if eq_str(code, "zh") || eq_str(code, "zh-cn") {
        let r: &'static [&'static str] = &[
            "Microsoft YaHei UI",
            "Microsoft YaHei",
            "PingFang SC",
            "Noto Sans CJK SC",
            "Source Han Sans SC",
            "WenQuanYi Zen Hei",
        ];
        r
    } else if eq_str(code, "zh-tw") || eq_str(code, "zh-hk") {
        let r: &'static [&'static str] = &[
            "Microsoft JhengHei UI",
            "Microsoft JhengHei",
            "PingFang TC",
            "Noto Sans CJK TC",
            "Source Han Sans TC",
        ];
        r
    } else if eq_str(code, "ja") {
        let r: &'static [&'static str] = &[
            "Yu Gothic UI",
            "Yu Gothic",
            "Meiryo UI",
            "Meiryo",
            "Hiragino Sans",
            "Hiragino Kaku Gothic ProN",
            "Noto Sans CJK JP",
            "IPAexGothic",
        ];
        r
    } else if eq_str(code, "ko") {
        let r: &'static [&'static str] = &[
            "Malgun Gothic",
            "Apple SD Gothic Neo",
            "AppleGothic",
            "Noto Sans CJK KR",
            "NanumGothic",
        ];
        r
    } else if eq_str(code, "ar") || eq_str(code, "fa") || eq_str(code, "ur") {
        let r: &'static [&'static str] = &[
            "Segoe UI",
            "Tahoma",
            "Geeza Pro",
            "Damascus",
            "Noto Sans Arabic",
            "Noto Naskh Arabic",
            "Amiri",
        ];
        r
    } else if eq_str(code, "he") || eq_str(code, "iw") {
        let r: &'static [&'static str] = &[
            "Segoe UI",
            "Arial Hebrew",
            "Noto Sans Hebrew",
        ];
        r
    } else if eq_str(code, "hi") || eq_str(code, "mr") {
        let r: &'static [&'static str] = &[
            "Mangal",
            "Nirmala UI",
            "Kohinoor Devanagari",
            "Devanagari Sangam MN",
            "Noto Sans Devanagari",
        ];
        r
    } else if eq_str(code, "bn") {
        let r: &'static [&'static str] = &[
            "Vrinda",
            "Nirmala UI",
            "Bangla Sangam MN",
            "Noto Sans Bengali",
        ];
        r
    } else if eq_str(code, "ta") {
        let r: &'static [&'static str] = &[
            "Latha",
            "Nirmala UI",
            "Tamil Sangam MN",
            "Noto Sans Tamil",
        ];
        r
    } else if eq_str(code, "te") {
        let r: &'static [&'static str] = &[
            "Gautami",
            "Nirmala UI",
            "Telugu Sangam MN",
            "Noto Sans Telugu",
        ];
        r
    } else if eq_str(code, "th") {
        let r: &'static [&'static str] = &[
            "Leelawadee UI",
            "Leelawadee",
            "Thonburi",
            "Noto Sans Thai",
            "Garuda",
        ];
        r
    } else {
        &[]
    }
}

/// The font candidates for a locale code as the caller holds it, in any
/// case: the code is lowercased first, so `"JA"` gets the candidates of
/// `"ja"`.
pub fn candidates_for_any_case(code: &str) -> (r: &'static [&'static str])
    ensures
        r@ == font_candidates(unicode_lowercase(code@)),
        r@ == font_candidates(lowercased(code@)),
{
    let lower = to_lowercase(code);
    candidates_for_locale(lower.as_str())
}

/// The name under which a font of the operating system is registered in the
/// GUI's font tables.
pub fn os_font_key(family: &str) -> (r: String)
    ensures
        r@ == "os:"@ + family@,
{
    let mut r = String::new();
    r.append("os:");
    r.append(family);
    r
}

} // verus!
