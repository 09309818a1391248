use smtp_test_tool::fonts::{candidates_for_any_case, candidates_for_locale, os_font_key};
use smtp_test_tool::locale::{bare_language_code, language_code, normalise};

#[test]
fn latin_locales_short_circuit_with_no_candidates() {
    for code in ["en", "nl", "de", "fr", "es", "ru", "el", "uk", "sv"] {
        assert!(
            candidates_for_locale(code).is_empty(),
            "{code} should not need extra fonts"
        );
    }
}

#[test]
fn cjk_locales_have_per_os_candidates() {
    for code in ["zh", "zh-cn", "zh-tw", "ja", "ko"] {
        assert!(
            !candidates_for_locale(code).is_empty(),
            "{code} needs CJK fonts"
        );
    }
}

#[test]
fn arabic_family_locales_share_candidates() {
    // ar, fa, ur all use the Arabic script -> same font candidates.
    let ar = candidates_for_locale("ar");
    assert_eq!(ar, candidates_for_locale("fa"));
    assert_eq!(ar, candidates_for_locale("ur"));
}

#[test]
fn candidate_lists_keep_priority_order() {
    assert_eq!(candidates_for_locale("he"), ["Segoe UI", "Arial Hebrew", "Noto Sans Hebrew"]);
    assert_eq!(candidates_for_locale("iw"), candidates_for_locale("he"));
    assert_eq!(candidates_for_locale("zh-hk")[0], "Microsoft JhengHei UI");
    assert_eq!(candidates_for_locale("th").len(), 5);
    // Codes are expected normalised: upper case does not match.
    assert!(candidates_for_locale("JA").is_empty());
    assert!(candidates_for_locale("").is_empty());
    assert_eq!(os_font_key("Noto Sans Thai"), "os:Noto Sans Thai");
}

#[test]
fn normalise_handles_common_forms() {
    assert_eq!(normalise("nl_NL.UTF-8"), "nl");
    assert_eq!(normalise("nl-NL"), "nl");
    assert_eq!(normalise("NL"), "nl");
    assert_eq!(normalise("en"), "en");
    assert_eq!(normalise("pt_BR"), "pt");
    assert_eq!(normalise("zh-CN"), "zh");
    assert_eq!(normalise(""), "");
}

#[test]
fn normalise_strips_at_the_first_separator() {
    assert_eq!(normalise("C.UTF-8"), "c");
    assert_eq!(normalise("_NL"), "");
    assert_eq!(normalise("sr-Latn-RS"), "sr");
}

#[test]
fn detect_returns_two_letter_code_or_none() {
    // What the OS advertises depends on the machine; whatever it is, the
    // detected code must be at most three ASCII lowercase letters, never a
    // leak of region or codeset.
    if let Some(c) = sys_locale::get_locale().and_then(|raw| language_code(&raw)) {
        assert!(c.chars().all(|ch| ch.is_ascii_lowercase()));
        assert!(c.len() <= 3, "detect() returned non-language code: {c:?}");
    }
}

#[test]
fn language_code_keeps_bare_codes() {
    assert_eq!(language_code("nl_NL.UTF-8"), Some("nl".to_string()));
    assert_eq!(language_code("EN"), Some("en".to_string()));
    assert_eq!(language_code("fil_PH"), Some("fil".to_string()));
    assert_eq!(language_code("C.UTF-8"), Some("c".to_string()));
    assert_eq!(language_code("zh-Hant-TW"), Some("zh".to_string()));
    assert_eq!(language_code(""), Some(String::new()));
}

#[test]
fn language_code_drops_what_is_no_code() {
    assert_eq!(language_code("POSIX"), None);
    assert_eq!(language_code("sr@latin"), None);
    assert_eq!(language_code("de1_DE"), None);
    assert_eq!(language_code("ελ_GR"), None);
    assert_eq!(bare_language_code("abcd".to_string()), None);
    assert_eq!(bare_language_code("nl".to_string()), Some("nl".to_string()));
    assert_eq!(bare_language_code("Nl".to_string()), None);
}

#[test]
fn detection_and_normalising_are_idempotent() {
    for raw in ["nl_NL.UTF-8", "PT-br", "C", "ja_JP.eucJP", "x"] {
        let once = normalise(raw);
        assert_eq!(normalise(&once), once);
        if let Some(c) = language_code(raw) {
            assert_eq!(language_code(&c), Some(c.clone()));
        }
    }
}

#[test]
fn candidates_ignore_the_case_of_the_code() {
    assert_eq!(candidates_for_any_case("JA"), candidates_for_locale("ja"));
    assert!(!candidates_for_any_case("JA").is_empty());
    assert_eq!(candidates_for_any_case("ZH-TW")[0], "Microsoft JhengHei UI");
    assert!(candidates_for_any_case("EN").is_empty());
}
