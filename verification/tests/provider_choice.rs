use smtp_test_tool::cli::{password_answer, resolve_provider, trimmed_answer, ProviderError};

const NAMES: &[&str] = &[
    "Outlook.com / Office 365",
    "Gmail / Google Workspace",
    "Yahoo Mail",
    "iCloud Mail",
    "Fastmail",
    "GMX Mail",
];

#[test]
fn exact_match_ignores_ascii_case() {
    assert_eq!(resolve_provider(NAMES, "fastmail"), Ok(4));
    assert_eq!(resolve_provider(NAMES, "YAHOO MAIL"), Ok(2));
}

#[test]
fn unique_substring_matches() {
    assert_eq!(resolve_provider(NAMES, "gmail"), Ok(1));
    assert_eq!(resolve_provider(NAMES, "google workspace"), Ok(1));
    assert_eq!(resolve_provider(NAMES, "OFFICE"), Ok(0));
}

#[test]
fn unknown_and_ambiguous_names_are_errors() {
    assert_eq!(resolve_provider(NAMES, "protonmail"), Err(ProviderError::Unknown));
    assert_eq!(resolve_provider(NAMES, "mail"), Err(ProviderError::Ambiguous(vec![1, 2, 3, 4, 5])));
    assert_eq!(resolve_provider(NAMES, "gm"), Err(ProviderError::Ambiguous(vec![1, 5])));
    assert_eq!(resolve_provider(&[], "x"), Err(ProviderError::Unknown));
}

#[test]
fn exact_match_wins_over_substrings() {
    let names = ["Mail", "Mail Plus"];
    assert_eq!(resolve_provider(&names, "mail"), Ok(0));
}

#[test]
fn prompt_answers_are_trimmed() {
    assert_eq!(trimmed_answer("  user@example.com \r\n"), "user@example.com");
    assert_eq!(trimmed_answer("\u{3000}x y\t\n"), "x y");
    assert_eq!(trimmed_answer("\n"), "");
}

#[test]
fn password_answers_lose_only_the_line_end() {
    assert_eq!(password_answer(" pa ss \r\n"), " pa ss ");
    assert_eq!(password_answer("secret\n\r\n"), "secret");
    assert_eq!(password_answer("\tkey"), "\tkey");
    assert_eq!(password_answer(""), "");
}
