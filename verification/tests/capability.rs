use sedx::capability::{can_stream, is_range_streamable};
use sedx::command::{Address, Command, SubstitutionFlags};

#[test]
fn test_can_stream_simple_substitution() {
    let cmd = Command::Substitution {
        pattern: "foo".to_string(),
        replacement: "bar".to_string(),
        flags: SubstitutionFlags::default(),
        range: None,
    };
    assert!(can_stream(&[cmd]));
}

#[test]
fn test_can_stream_substitution_with_line_range() {
    let cmd = Command::Substitution {
        pattern: "foo".to_string(),
        replacement: "bar".to_string(),
        flags: SubstitutionFlags::default(),
        range: Some((Address::LineNumber(1), Address::LineNumber(10))),
    };
    assert!(can_stream(&[cmd]));
}

#[test]
fn test_can_stream_substitution_with_pattern_range() {
    let cmd = Command::Substitution {
        pattern: "foo".to_string(),
        replacement: "bar".to_string(),
        flags: SubstitutionFlags::default(),
        range: Some((
            Address::Pattern("start".to_string()),
            Address::Pattern("end".to_string()),
        )),
    };
    assert!(can_stream(&[cmd]));
}

#[test]
fn test_can_stream_hold() {
    // Chunk 9: Hold space operations ARE streamable
    let cmd = Command::Hold { range: None };
    assert!(can_stream(&[cmd]));
}

#[test]
fn test_can_stream_hold_append() {
    // Chunk 9: Hold space operations ARE streamable
    let cmd = Command::HoldAppend { range: None };
    assert!(can_stream(&[cmd]));
}

#[test]
fn test_can_stream_get() {
    // Chunk 9: Hold space operations ARE streamable
    let cmd = Command::Get { range: None };
    assert!(can_stream(&[cmd]));
}

#[test]
fn test_can_stream_exchange() {
    // Chunk 9: Hold space operations ARE streamable
    let cmd = Command::Exchange { range: None };
    assert!(can_stream(&[cmd]));
}

#[test]
fn test_can_stream_delete() {
    let cmd = Command::Delete {
        range: (Address::LineNumber(1), Address::LineNumber(10)),
    };
    assert!(can_stream(&[cmd]));
}

#[test]
fn test_can_stream_print() {
    let cmd = Command::Print {
        range: (Address::LineNumber(1), Address::LineNumber(10)),
    };
    assert!(can_stream(&[cmd]));
}

#[test]
fn test_can_stream_quit() {
    let cmd = Command::Quit {
        address: Some(Address::LineNumber(10)),
    };
    assert!(can_stream(&[cmd]));
}

#[test]
fn test_can_stream_insert() {
    let cmd = Command::Insert {
        text: "new line".to_string(),
        address: Address::LineNumber(5),
    };
    assert!(can_stream(&[cmd]));
}

#[test]
fn test_can_stream_group_with_range() {
    // Chunk 10: Groups with streamable ranges ARE streamable
    let cmd = Command::Group {
        commands: vec![Command::Substitution {
            pattern: "foo".to_string(),
            replacement: "bar".to_string(),
            flags: SubstitutionFlags::default(),
            range: None,
        }],
        range: Some((Address::LineNumber(1), Address::LineNumber(10))),
    };
    assert!(can_stream(&[cmd]));
}

#[test]
fn test_can_stream_group_without_range() {
    let cmd = Command::Group {
        commands: vec![Command::Substitution {
            pattern: "foo".to_string(),
            replacement: "bar".to_string(),
            flags: SubstitutionFlags::default(),
            range: None,
        }],
        range: None,
    };
    assert!(can_stream(&[cmd]));
}

#[test]
fn test_is_range_streamable_line_to_line() {
    let range = (Address::LineNumber(1), Address::LineNumber(10));
    assert!(is_range_streamable(&range));
}

#[test]
fn test_is_range_streamable_first_to_last() {
    let range = (Address::LineNumber(1), Address::LastLine);
    assert!(is_range_streamable(&range));
}

#[test]
fn test_is_range_streamable_pattern_to_pattern() {
    let range = (
        Address::Pattern("start".to_string()),
        Address::Pattern("end".to_string()),
    );
    assert!(is_range_streamable(&range));
}

#[test]
fn test_is_range_streamable_pattern_to_line() {
    let range = (
        Address::Pattern("start".to_string()),
        Address::LineNumber(10),
    );
    assert!(is_range_streamable(&range));
}

#[test]
fn test_is_range_streamable_line_to_pattern() {
    let range = (Address::LineNumber(5), Address::Pattern("end".to_string()));
    assert!(is_range_streamable(&range));
}

#[test]
fn test_is_range_streamable_pattern_to_relative() {
    let range = (
        Address::Pattern("start".to_string()),
        Address::Relative {
            base: Box::new(Address::Pattern("start".to_string())),
            offset: 5,
        },
    );
    assert!(is_range_streamable(&range));
}

#[test]
fn test_is_range_streamable_stepping() {
    let range = (Address::Step { start: 1, step: 2 }, Address::LineNumber(10));
    assert!(is_range_streamable(&range));
}

#[test]
fn test_is_range_not_streamable_negated() {
    let range = (
        Address::Negated(Box::new(Address::Pattern("foo".to_string()))),
        Address::LineNumber(10),
    );
    assert!(!is_range_streamable(&range));
}

#[test]
fn test_is_range_not_streamable_last_line_start() {
    let range = (Address::LastLine, Address::LineNumber(10));
    assert!(!is_range_streamable(&range));
}

#[test]
fn test_can_stream_multiple_commands_with_hold() {
    // Chunk 9: Hold space operations ARE streamable with other commands
    let cmds = vec![
        Command::Substitution {
            pattern: "foo".to_string(),
            replacement: "bar".to_string(),
            flags: SubstitutionFlags::default(),
            range: None,
        },
        Command::Hold { range: None },
    ];
    assert!(can_stream(&cmds));
}

#[test]
fn test_can_stream_multiple_streamable_commands() {
    let cmds = vec![
        Command::Substitution {
            pattern: "foo".to_string(),
            replacement: "bar".to_string(),
            flags: SubstitutionFlags::default(),
            range: None,
        },
        Command::Delete {
            range: (Address::LineNumber(5), Address::LineNumber(10)),
        },
    ];
    assert!(can_stream(&cmds));
}

#[test]
fn every_command_after_an_insert_must_stream_too() {
    let cmds = vec![
        Command::Insert { text: "x".to_string(), address: Address::LineNumber(1) },
        Command::Next { range: None },
    ];
    assert!(!can_stream(&cmds));
    let negated = Command::Change {
        text: "y".to_string(),
        range: (Address::Negated(Box::new(Address::LineNumber(1))), Address::LineNumber(2)),
    };
    assert!(!can_stream(&[negated]));
}
