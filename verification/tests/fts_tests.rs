use ai_memory::fts::{is_invisible_unicode, sanitize_fts5_query, SqliteFts5, TextSearch};

#[test]
fn strips_special_chars() {
    let q = sanitize_fts5_query("test* \"injection\" (drop)", true);
    assert!(!q.contains('*'));
    assert!(!q.contains('('));
    assert!(!q.contains(')'));
    assert!(q.contains("test"));
    assert!(q.contains("injection"));
    assert!(q.contains("drop"));
}

#[test]
fn filters_boolean_operators() {
    let q = sanitize_fts5_query("hello AND world OR NOT NEAR test", true);
    assert!(q.contains("hello"));
    assert!(q.contains("world"));
    assert!(q.contains("test"));
    // Operators should not appear as standalone tokens
    assert!(!q.contains(" AND "));
    assert!(!q.contains(" NOT "));
    assert!(!q.contains(" NEAR "));
}

#[test]
fn empty_returns_placeholder() {
    assert_eq!(sanitize_fts5_query("", true), "\"__aimemory_empty_query__\"");
    assert_eq!(sanitize_fts5_query("   ", false), "\"__aimemory_empty_query__\"");
}

#[test]
fn or_join() {
    let q = sanitize_fts5_query("rust python", true);
    assert_eq!(q, "\"rust\" OR \"python\"");
}

#[test]
fn and_join() {
    let q = sanitize_fts5_query("rust python", false);
    assert_eq!(q, "\"rust\" \"python\"");
}

#[test]
fn trait_dispatch() {
    let fts = SqliteFts5;
    let q = fts.sanitize_query("hello world", true);
    assert_eq!(q, "\"hello\" OR \"world\"");
}

#[test]
fn all_special_chars_yields_placeholder() {
    assert_eq!(sanitize_fts5_query("***---|||", true), "\"__aimemory_empty_query__\"");
}

#[test]
fn strips_backslash() {
    let q = sanitize_fts5_query("test\\injection", true);
    assert!(!q.contains('\\'));
    assert!(q.contains("testinjection"));
}

#[test]
fn strips_zero_width_chars() {
    let q = sanitize_fts5_query("he\u{200B}llo wo\u{200D}rld", true);
    assert!(q.contains("hello"));
    assert!(q.contains("world"));
    assert!(!q.contains('\u{200B}'));
}

#[test]
fn strips_bidi_overrides() {
    let q = sanitize_fts5_query("test\u{202A}inject\u{202C}ion", true);
    assert!(q.contains("testinjection"));
}

#[test]
fn empty_sentinel_is_unique() {
    let q = sanitize_fts5_query("", true);
    assert!(q.contains("__aimemory_empty_query__"));
}

#[test]
fn sanitize_fts_strips_operators_and_quotes() {
    // FTS5 special chars: " * ^ { } ( ) : - | are stripped
    let sanitized = sanitize_fts5_query("test* \"injection\" (drop)", true);
    assert!(!sanitized.contains("*"));
    assert!(!sanitized.contains("("));
    assert!(!sanitized.contains(")"));
    // Standalone boolean operators are removed
    let sanitized2 = sanitize_fts5_query("hello AND world OR NOT NEAR test", true);
    assert!(sanitized2.contains("hello"));
    assert!(sanitized2.contains("world"));
    assert!(sanitized2.contains("test"));
    // Empty input returns placeholder
    let sanitized3 = sanitize_fts5_query("", true);
    assert_eq!(sanitized3, "\"__aimemory_empty_query__\"");
}

// Further cases.

#[test]
fn hyphen_separates_words() {
    assert_eq!(sanitize_fts5_query("BIND9-custom", true), "\"BIND9\" OR \"custom\"");
    assert_eq!(sanitize_fts5_query("BIND9-custom", false), "\"BIND9\" \"custom\"");
}

#[test]
fn operators_in_any_case_are_dropped() {
    assert_eq!(sanitize_fts5_query("cats and dogs Or mice nOt near", true), "\"cats\" OR \"dogs\" OR \"mice\"");
    // An operator inside a longer word is kept.
    assert_eq!(sanitize_fts5_query("android", false), "\"android\"");
}

#[test]
fn exact_output_of_mixed_input() {
    assert_eq!(
        sanitize_fts5_query("  a:b  {c}\t(d)^ e|f ", false),
        "\"ab\" \"c\" \"d\" \"ef\""
    );
}

#[test]
fn unicode_whitespace_separates_words() {
    assert_eq!(sanitize_fts5_query("alpha\u{3000}beta\u{A0}gamma", true), "\"alpha\" OR \"beta\" OR \"gamma\"");
}

#[test]
fn invisible_only_word_is_dropped() {
    assert_eq!(sanitize_fts5_query("\u{200B}\u{FEFF} x", true), "\"x\"");
}

#[test]
fn sanitizing_twice_changes_nothing() {
    for input in ["", "rust python", "a AND b", "BIND9-custom \"q\"", "***", "OR"] {
        for use_or in [true, false] {
            let once = sanitize_fts5_query(input, use_or);
            assert_eq!(sanitize_fts5_query(&once, use_or), once);
        }
    }
}

#[test]
fn is_invisible_unicode_ranges() {
    assert!(is_invisible_unicode('\u{200B}'));
    assert!(is_invisible_unicode('\u{200F}'));
    assert!(is_invisible_unicode('\u{FEFF}'));
    assert!(is_invisible_unicode('\u{202C}'));
    assert!(is_invisible_unicode('\u{2069}'));
    assert!(!is_invisible_unicode('\u{2010}'));
    assert!(!is_invisible_unicode('a'));
}

#[test]
fn every_term_is_quoted_and_safe() {
    let specials = ['"', '*', '^', '{', '}', '(', ')', ':', '-', '|', '\\', '\u{200B}', '\u{202A}'];
    for input in ["x*y (z) \"w\"", "a-b:c|d", "^^ {q} NEAR", "tab\there", "\u{200B}k"] {
        let q = sanitize_fts5_query(input, true);
        for term in q.split(" OR ") {
            assert!(term.len() >= 3, "{term}");
            assert!(term.starts_with('"') && term.ends_with('"'), "{term}");
            let inner = &term[1..term.len() - 1];
            assert!(!inner.is_empty());
            assert!(!inner.chars().any(|c| specials.contains(&c) || c.is_whitespace()), "{term}");
        }
    }
}
