use sedx::cli::RegexFlavor;
use sedx::regex_error::{compile_regex_with_context, EnhancedRegexError, RegexErrorType};

#[test]
fn test_unclosed_parenthesis() {
    let pattern = r#"(foo"#;
    let err = regex::Regex::new(pattern).unwrap_err();
    let enhanced = EnhancedRegexError::from_regex_error(&err, pattern, RegexFlavor::PCRE);

    assert!(matches!(enhanced.error_type, RegexErrorType::UnclosedDelimiter { .. }));
    assert!(enhanced.suggestion.is_some());
}

#[test]
fn test_unclosed_bracket() {
    let pattern = r#"[abc"#;
    let err = regex::Regex::new(pattern).unwrap_err();
    let enhanced = EnhancedRegexError::from_regex_error(&err, pattern, RegexFlavor::PCRE);

    assert!(matches!(enhanced.error_type, RegexErrorType::UnclosedDelimiter { .. }));
}

#[test]
fn test_invalid_quantifier_nothing_to_repeat() {
    let pattern = r#"*"#;
    let err = regex::Regex::new(pattern).unwrap_err();
    let enhanced = EnhancedRegexError::from_regex_error(&err, pattern, RegexFlavor::PCRE);

    assert!(matches!(enhanced.error_type, RegexErrorType::InvalidQuantifier { .. }));
    assert!(enhanced.suggestion.is_some());
}

#[test]
fn test_display_formatting() {
    let pattern = r#"*"#;
    let err = regex::Regex::new(pattern).unwrap_err();
    let enhanced = EnhancedRegexError::from_regex_error(&err, pattern, RegexFlavor::PCRE);

    let display = enhanced.display();
    assert!(display.contains("Regex Error"));
    assert!(display.contains("Pattern:"));
    assert!(display.contains("Suggestion:"));
}

#[test]
fn test_compile_regex_with_context_success() {
    let result = compile_regex_with_context(r#"foo.*bar"#, RegexFlavor::PCRE, false);
    assert!(result.is_ok());
}

#[test]
fn test_compile_regex_with_context_failure() {
    let result = compile_regex_with_context(r#"*"#, RegexFlavor::PCRE, false);
    assert!(result.is_err());
    let err_msg = match result {
        Err(e) => e.display(),
        Ok(_) => String::new(),
    };
    assert!(err_msg.contains("Regex Error"));
}

#[test]
fn test_bre_mode_suggestions() {
    let pattern = r#"("#;
    let err = regex::Regex::new(pattern).unwrap_err();
    let enhanced = EnhancedRegexError::from_regex_error(&err, pattern, RegexFlavor::BRE);

    assert!(enhanced.suggestion.is_some());
    let suggestion = enhanced.suggestion.unwrap();
    assert!(suggestion.contains("BRE mode") || suggestion.contains("-B") || suggestion.contains("("));
}

#[test]
fn case_insensitive_compile_matches_any_case() {
    let result = compile_regex_with_context("foo", RegexFlavor::PCRE, true);
    assert!(result.is_ok());
}
