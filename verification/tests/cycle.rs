use sedx::command::{Address, Command, SubstitutionFlags};
use sedx::file_processor::FileProcessor;

fn parse_simple(expr: &str) -> Vec<Command> {
    if expr == "n; d" {
        vec![
            Command::Next { range: None },
            Command::Delete { range: (Address::LineNumber(1), Address::LastLine) },
        ]
    } else if expr == "n" {
        vec![Command::Next { range: None }]
    } else {
        vec![]
    }
}

#[test]
fn test_n_d_command_basic() {
    // Test the famous "n; d" command (should print odd lines)
    let commands = parse_simple("n; d");
    let mut processor = FileProcessor::new(commands);
    
    let input = vec!["1".to_string(), "2".to_string(), "3".to_string(), "4".to_string()];
    let result = processor.apply_cycle_based(input).unwrap();
    
    // Should output odd lines: "1", "3"
    assert_eq!(result, vec!["1", "3"]);
}

#[test]
fn test_n_command_alone() {
    // Test n command alone (should print all lines)
    let commands = parse_simple("n");
    let mut processor = FileProcessor::new(commands);

    let input = vec!["a".to_string(), "b".to_string(), "c".to_string()];
    let result = processor.apply_cycle_based(input).unwrap();

    // n outputs current line, reads next, continues
    // Since there are no more commands, it should output all lines
    assert_eq!(result, vec!["a", "b", "c"]);
}

#[test]
fn test_substitution_basic() {
    // Test basic substitution: s/foo/bar/
    let commands = vec![
        Command::Substitution {
            pattern: "foo".to_string(),
            replacement: "bar".to_string(),
            flags: SubstitutionFlags {
                global: false,
                case_insensitive: false,
                print: false,
                nth: None,
            },
            range: None,  // No range - applies to all lines
        },
    ];
    let mut processor = FileProcessor::new(commands);

    let input = vec!["foo".to_string(), "baz".to_string(), "foo".to_string()];
    let result = processor.apply_cycle_based(input).unwrap();

    // Each line gets first "foo" occurrence replaced (no global flag)
    assert_eq!(result, vec!["bar", "baz", "bar"]);
}

#[test]
fn test_substitution_global() {
    // Test global substitution: s/foo/bar/g
    let commands = vec![
        Command::Substitution {
            pattern: "foo".to_string(),
            replacement: "bar".to_string(),
            flags: SubstitutionFlags {
                global: true,
                case_insensitive: false,
                print: false,
                nth: None,
            },
            range: None,
        },
    ];
    let mut processor = FileProcessor::new(commands);

    let input = vec!["foo foo".to_string(), "baz".to_string()];
    let result = processor.apply_cycle_based(input).unwrap();

    // All "foo" occurrences replaced
    assert_eq!(result, vec!["bar bar", "baz"]);
}

#[test]
fn test_substitution_with_print_flag() {
    // Test s command with print flag: s/foo/bar/p
    let commands = vec![
        Command::Substitution {
            pattern: "foo".to_string(),
            replacement: "bar".to_string(),
            flags: SubstitutionFlags {
                global: false,
                case_insensitive: false,
                print: true,  // p flag
                nth: None,
            },
            range: None,
        },
    ];
    let mut processor = FileProcessor::new(commands);

    let input = vec!["foo".to_string(), "baz".to_string()];
    let result = processor.apply_cycle_based(input).unwrap();

    // Should print "bar" twice: once from print flag, once from default output
    assert_eq!(result, vec!["bar", "bar", "baz"]);
}

#[test]
fn test_hold_space_h_g() {
    // Test h and g commands (copy to/from hold space)
    // NOTE: This test doesn't use ranges - range checking not yet implemented
    let commands = vec![
        // h: copy pattern space to hold space
        Command::Hold { range: None },
        // g: copy hold space to pattern space
        Command::Get { range: None },
    ];
    let mut processor = FileProcessor::new(commands);

    let input = vec!["first".to_string()];
    let result = processor.apply_cycle_based(input).unwrap();

    // h copies "first" to hold space
    // g copies "first" back to pattern space (no change visible)
    assert_eq!(result, vec!["first"]);
}

#[test]
fn test_hold_space_x() {
    // Test x command (exchange pattern and hold spaces)
    // NOTE: This test doesn't use ranges - range checking not yet implemented
    let commands = vec![
        // h: copy pattern space to hold space
        Command::Hold { range: None },
        // x: exchange pattern and hold spaces
        Command::Exchange { range: None },
    ];
    let mut processor = FileProcessor::new(commands);

    let input = vec!["line1".to_string()];
    let result = processor.apply_cycle_based(input).unwrap();

    // h copies "line1" to hold space (both hold and pattern are "line1")
    // x swaps them (no visible change since both are "line1")
    assert_eq!(result, vec!["line1"]);
}

#[test]
fn test_substitution_and_hold() {
    // Test combination of substitution and hold space
    // NOTE: This test doesn't use ranges - range checking not yet implemented
    let commands = vec![
        // s/foo/bar/ - substitution
        Command::Substitution {
            pattern: "foo".to_string(),
            replacement: "bar".to_string(),
            flags: SubstitutionFlags {
                global: false,
                case_insensitive: false,
                print: false,
                nth: None,
            },
            range: None,  // Applies to all lines when None
        },
        // h: store modified pattern space in hold space
        Command::Hold { range: None },
        // g: copy hold space to pattern space (redundant after h, but tests the commands)
        Command::Get { range: None },
    ];
    let mut processor = FileProcessor::new(commands);

    let input = vec!["foo baz".to_string()];
    let result = processor.apply_cycle_based(input).unwrap();

    // "foo baz" -> s -> "bar baz" -> h (hold="bar baz") -> g (pattern="bar baz")
    assert_eq!(result, vec!["bar baz"]);
}
