use sedx::config::{validate_compatibility, validate_processing, CompatibilityConfig, ProcessingConfig};

#[test]
fn default_tables_are_valid() {
    assert!(validate_compatibility(&CompatibilityConfig::default()).is_ok());
    assert!(validate_processing(&ProcessingConfig::default()).is_ok());
}

#[test]
fn every_known_mode_is_accepted() {
    for mode in ["pcre", "ere", "bre"] {
        let c = CompatibilityConfig { mode: Some(mode.to_string()), show_warnings: None };
        assert!(validate_compatibility(&c).is_ok());
    }
    assert!(validate_compatibility(&CompatibilityConfig { mode: None, show_warnings: Some(false) }).is_ok());
}

#[test]
fn unknown_mode_is_refused() {
    let c = CompatibilityConfig { mode: Some("perl".to_string()), show_warnings: Some(true) };
    assert_eq!(validate_compatibility(&c), Err("Invalid mode: perl (must be 'pcre', 'ere', or 'bre')".to_string()));
    let upper = CompatibilityConfig { mode: Some("PCRE".to_string()), show_warnings: None };
    assert!(validate_compatibility(&upper).is_err());
}

#[test]
fn processing_bounds_are_inclusive() {
    let edge = ProcessingConfig { context_lines: Some(10), max_memory_mb: Some(10), streaming: Some(true) };
    assert!(validate_processing(&edge).is_ok());
}

#[test]
fn too_many_context_lines_are_refused() {
    let c = ProcessingConfig { context_lines: Some(11), max_memory_mb: Some(5), streaming: None };
    assert_eq!(validate_processing(&c), Err("Invalid context_lines: 11 (max 10)".to_string()));
}

#[test]
fn too_little_streaming_memory_is_refused() {
    let c = ProcessingConfig { context_lines: None, max_memory_mb: Some(9), streaming: None };
    assert_eq!(validate_processing(&c), Err("Invalid max_memory_mb: 9 (min 10 MB)".to_string()));
}

fn default_compatibility_with_mode(mode: &str) -> CompatibilityConfig {
    let mut c = CompatibilityConfig::default();
    c.mode = Some(mode.to_string());
    c
}

#[test]
fn test_validate_config_invalid_mode() {
    let result = validate_compatibility(&default_compatibility_with_mode("invalid"));
    assert!(result.is_err());
    assert!(result.unwrap_err().contains("mode"));
}

#[test]
fn test_validate_config_all_valid_modes() {
    for mode in vec!["pcre", "ere", "bre"] {
        assert!(validate_compatibility(&default_compatibility_with_mode(mode)).is_ok(), "Mode '{}' should be valid", mode);
    }
}

#[test]
fn test_validate_config_invalid_mode_empty() {
    assert!(validate_compatibility(&default_compatibility_with_mode("")).is_err());
}

#[test]
fn test_validate_config_invalid_mode_case_sensitive() {
    assert!(validate_compatibility(&default_compatibility_with_mode("PCRE")).is_err());
}

#[test]
fn test_validate_config_invalid_context_lines() {
    let mut p = ProcessingConfig::default();
    p.context_lines = Some(11);
    let result = validate_processing(&p);
    assert!(result.is_err());
    assert!(result.unwrap_err().contains("context_lines"));
}

#[test]
fn test_validate_config_invalid_context_lines_very_large() {
    let mut p = ProcessingConfig::default();
    p.context_lines = Some(9999);
    assert!(validate_processing(&p).is_err());
}

#[test]
fn test_validate_config_invalid_max_memory_mb() {
    let mut p = ProcessingConfig::default();
    p.max_memory_mb = Some(9);
    let result = validate_processing(&p);
    assert!(result.is_err());
    assert!(result.unwrap_err().contains("max_memory_mb"));
}

#[test]
fn test_config_mode_variations_invalid() {
    let invalid_modes = vec!["PCRE", "PCre", "ERE", "BRE", "pcre2", "regex", "javascript", "", "pcre ", " pcre"];
    for mode in invalid_modes {
        assert!(validate_compatibility(&default_compatibility_with_mode(mode)).is_err(), "Mode '{}' should be invalid", mode);
    }
}
