use sedx::command::{Address, Command, SubstitutionFlags};

#[test]
fn test_command_equality() {
    let cmd1 = Command::Delete {
        range: (Address::LineNumber(1), Address::LineNumber(10)),
    };
    let cmd2 = Command::Delete {
        range: (Address::LineNumber(1), Address::LineNumber(10)),
    };
    assert_eq!(cmd1, cmd2);
}

#[test]
fn test_address_types() {
    let line_addr = Address::LineNumber(42);
    let pattern_addr = Address::Pattern("foo".to_string());
    let first_addr = Address::FirstLine;
    let last_addr = Address::LastLine;
    let negated_addr = Address::Negated(Box::new(Address::LineNumber(5)));
    let relative_addr = Address::Relative {
        base: Box::new(Address::Pattern("start".to_string())),
        offset: 5,
    };
    let step_addr = Address::Step { start: 1, step: 2 };

    // All should compile and be valid
    assert!(matches!(line_addr, Address::LineNumber(42)));
    assert!(matches!(pattern_addr, Address::Pattern(_)));
    assert!(matches!(first_addr, Address::FirstLine));
    assert!(matches!(last_addr, Address::LastLine));
    assert!(matches!(negated_addr, Address::Negated(_)));
    assert!(matches!(relative_addr, Address::Relative { .. }));
    assert!(matches!(step_addr, Address::Step { .. }));
}

#[test]
fn test_substitution_flags_default() {
    let flags = SubstitutionFlags::default();
    assert!(!flags.global);
    assert!(!flags.print);
    assert!(!flags.case_insensitive);
    assert!(flags.nth.is_none());
}

#[test]
fn test_substitution_flags_custom() {
    let flags = SubstitutionFlags {
        global: true,
        print: false,
        case_insensitive: true,
        nth: Some(3),
    };
    assert!(flags.global);
    assert!(!flags.print);
    assert!(flags.case_insensitive);
    assert_eq!(flags.nth, Some(3));
}
