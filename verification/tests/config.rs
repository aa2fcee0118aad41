use sedx::config::{CompatibilityConfig, ProcessingConfig};

#[test]
fn test_compatibility_config_default() {
    let config = CompatibilityConfig::default();
    assert_eq!(config.mode, Some("pcre".to_string()));
    assert_eq!(config.show_warnings, Some(true));
}

#[test]
fn test_compatibility_config_all_modes() {
    for mode in &["pcre", "ere", "bre"] {
        let config = CompatibilityConfig {
            mode: Some(mode.to_string()),
            show_warnings: Some(false),
        };
        assert_eq!(config.mode, Some(mode.to_string()));
    }
}

#[test]
fn test_processing_config_default() {
    let config = ProcessingConfig::default();
    assert_eq!(config.context_lines, Some(2));
    assert_eq!(config.max_memory_mb, Some(100));
    assert_eq!(config.streaming, Some(true));
}

#[test]
fn test_processing_config_custom_values() {
    let config = ProcessingConfig {
        context_lines: Some(8),
        max_memory_mb: Some(500),
        streaming: Some(false),
    };
    assert_eq!(config.context_lines, Some(8));
    assert_eq!(config.max_memory_mb, Some(500));
    assert_eq!(config.streaming, Some(false));
}
