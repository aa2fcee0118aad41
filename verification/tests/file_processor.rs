use sedx::cli::RegexFlavor;
use sedx::command::Command;
use sedx::file_processor::in_memory::{CycleState, LineIterator};
use sedx::file_processor::StreamProcessor;
use sedx::parser::Parser;

#[test]
fn test_streaming_threshold_detection() {
    // Test that small files use in-memory processing
    assert!(!StreamProcessor::should_use_streaming(10 * 1024 * 1024)); // 10MB
    assert!(!StreamProcessor::should_use_streaming(99 * 1024 * 1024)); // 99MB

    // Test that large files use streaming
    assert!(StreamProcessor::should_use_streaming(100 * 1024 * 1024)); // 100MB
    assert!(StreamProcessor::should_use_streaming(101 * 1024 * 1024)); // 101MB
    assert!(StreamProcessor::should_use_streaming(1024 * 1024 * 1024)); // 1GB
}

#[test]
fn test_group_parsing() {
    // Test that group commands are parsed correctly
    let parser = Parser::new(RegexFlavor::PCRE);
    let commands = parser.parse("2,3{s/foo/bar/}").expect("Failed to parse");

    println!("Parsed {} commands:", commands.len());
    for (i, cmd) in commands.iter().enumerate() {
        println!("  Command {}: {:?}", i, cmd);
    }

    // Should parse as exactly ONE command (a Group)
    assert_eq!(commands.len(), 1, "Should parse as 1 command");

    // That one command should be a Group
    match &commands[0] {
        Command::Group { range, commands: inner_commands } => {
            println!("Group range: {:?}", range);
            println!("Inner commands: {}", inner_commands.len());

            // Should have a range of (LineNumber(2), LineNumber(3))
            assert!(range.is_some(), "Group should have a range");

            // Should have exactly 1 inner command
            assert_eq!(inner_commands.len(), 1, "Group should have 1 inner command");
        }
        _ => panic!("First command should be a Group"),
    }
}

#[test]
fn test_cycle_state_creation() {
    let lines = vec!["line1".to_string(), "line2".to_string()];
    let state = CycleState::new(String::new(), lines);
    
    assert_eq!(state.line_num, 0);
    assert_eq!(state.pattern_space, "");
    assert!(!state.deleted);
    assert!(state.side_effects.is_empty());
}

#[test]
fn test_line_iterator() {
    let lines = vec!["a".to_string(), "b".to_string(), "c".to_string()];
    let mut iter = LineIterator::new(lines);
    
    assert_eq!(iter.current_line(), Some("a".to_string()));
    assert_eq!(iter.current_line(), Some("b".to_string()));
    assert_eq!(iter.current_line(), Some("c".to_string()));
    assert_eq!(iter.current_line(), None);
    assert!(iter.is_eof());
}

#[test]
fn test_line_iterator_read_next() {
    let lines = vec!["a".to_string(), "b".to_string(), "c".to_string()];
    let mut iter = LineIterator::new(lines);
    
    // current_line advances the iterator
    assert_eq!(iter.current_line(), Some("a".to_string()));
    
    // read_next also advances, so it should return "c" (skips "b")
    assert_eq!(iter.read_next(), Some("b".to_string()));
    
    // Now current_line would return "c"
    assert_eq!(iter.current_line(), Some("c".to_string()));
    
    // At EOF
    assert_eq!(iter.read_next(), None);
}
