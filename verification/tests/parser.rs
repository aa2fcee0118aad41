use sedx::cli::RegexFlavor;
use sedx::command::{Address, Command, SubstitutionFlags};
use sedx::parser::Parser;

fn substitution(pattern: &str, replacement: &str) -> Command {
    Command::Substitution {
        pattern: pattern.to_string(),
        replacement: replacement.to_string(),
        flags: SubstitutionFlags::default(),
        range: None,
    }
}

#[test]
fn test_parser_creates_with_flavor() {
    let parser_pcre = Parser::new(RegexFlavor::PCRE);
    let parser_ere = Parser::new(RegexFlavor::ERE);
    let parser_bre = Parser::new(RegexFlavor::BRE);

    assert_eq!(parser_pcre.regex_flavor, RegexFlavor::PCRE);
    assert_eq!(parser_ere.regex_flavor, RegexFlavor::ERE);
    assert_eq!(parser_bre.regex_flavor, RegexFlavor::BRE);
}

#[test]
fn test_parse_simple_substitution_pcre() {
    let parser = Parser::new(RegexFlavor::PCRE);
    let result = parser.parse("s/foo/bar/");
    assert!(result.is_ok());

    let commands = result.unwrap();
    assert_eq!(commands.len(), 1);

    match &commands[0] {
        Command::Substitution {
            pattern,
            replacement,
            flags,
            ..
        } => {
            assert_eq!(pattern, "foo");
            assert_eq!(replacement, "bar");
            assert!(!flags.global); // 'g' flag not specified
        }
        _ => panic!("Expected Substitution command"),
    }
}

#[test]
fn test_parse_substitution_with_flags() {
    let parser = Parser::new(RegexFlavor::PCRE);
    let result = parser.parse("s/foo/bar/gi");
    assert!(result.is_ok());

    let commands = result.unwrap();
    match &commands[0] {
        Command::Substitution { flags, .. } => {
            assert!(flags.global);
            assert!(flags.case_insensitive);
        }
        _ => panic!("Expected Substitution command"),
    }
}

#[test]
fn test_parse_delete() {
    let parser = Parser::new(RegexFlavor::PCRE);
    let result = parser.parse("1,10d");
    assert!(result.is_ok());

    let commands = result.unwrap();
    match &commands[0] {
        Command::Delete { range } => {
            assert_eq!(range, &(Address::LineNumber(1), Address::LineNumber(10)));
        }
        _ => panic!("Expected Delete command"),
    }
}

#[test]
fn test_parse_group() {
    let parser = Parser::new(RegexFlavor::PCRE);
    let result = parser.parse("{s/foo/bar/; s/baz/qux/}");
    assert!(result.is_ok());

    let commands = result.unwrap();
    match &commands[0] {
        Command::Group { commands, .. } => {
            assert_eq!(commands.len(), 2);
        }
        _ => panic!("Expected Group command"),
    }
}

#[test]
fn test_convert_pattern_bre() {
    let parser = Parser::new(RegexFlavor::BRE);

    // BRE patterns should be converted to PCRE
    assert_eq!(parser.convert_pattern(r#"\(foo\)"#), "(foo)");
    assert_eq!(parser.convert_pattern(r#"foo\+"#), "foo+");
    assert_eq!(parser.convert_pattern(r#"foo\|bar"#), "foo|bar");
}

#[test]
fn test_convert_pattern_ere() {
    let parser = Parser::new(RegexFlavor::ERE);

    // ERE patterns should pass through (already PCRE-compatible)
    assert_eq!(parser.convert_pattern(r#"(foo)"#), "(foo)");
    assert_eq!(parser.convert_pattern(r#"foo+"#), "foo+");
    assert_eq!(parser.convert_pattern(r#"foo|bar"#), "foo|bar");
}

#[test]
fn test_convert_pattern_pcre() {
    let parser = Parser::new(RegexFlavor::PCRE);

    // PCRE patterns should pass through unchanged
    assert_eq!(parser.convert_pattern(r#"(foo)"#), "(foo)");
    assert_eq!(parser.convert_pattern(r#"foo+"#), "foo+");
    assert_eq!(parser.convert_pattern(r#"foo|bar"#), "foo|bar");
}

#[test]
fn test_convert_replacement_bre() {
    let parser = Parser::new(RegexFlavor::BRE);

    // BRE replacements should convert backreferences to PCRE format
    assert_eq!(parser.convert_replacement(r#"\1"#), "$1");
    assert_eq!(parser.convert_replacement(r#"\2\1"#), "$2$1");
    assert_eq!(parser.convert_replacement(r#"\&"#), "$&");
}

#[test]
fn test_convert_replacement_ere() {
    let parser = Parser::new(RegexFlavor::ERE);

    // ERE replacements should convert backreferences to PCRE format
    assert_eq!(parser.convert_replacement(r#"\1"#), "$1");
    assert_eq!(parser.convert_replacement(r#"\2\1"#), "$2$1");
    assert_eq!(parser.convert_replacement(r#"\&"#), "$&");
}

#[test]
fn test_convert_replacement_pcre() {
    let parser = Parser::new(RegexFlavor::PCRE);

    // Canonical PCRE replacements (already $N form) pass through.
    assert_eq!(parser.convert_replacement(r#"$1"#), "$1");
    assert_eq!(parser.convert_replacement(r#"$2$1"#), "$2$1");
    assert_eq!(parser.convert_replacement(r#"$&"#), "$&");

    // GNU-sed-style \N backreferences also get converted under PCRE
    // — a convenience feature so existing sed scripts work unchanged
    // in the default flavor. See convert_replacement's doc-comment.
    assert_eq!(parser.convert_replacement(r#"\1"#), "$1");
    assert_eq!(parser.convert_replacement(r#"\2\1"#), "$2$1");
    assert_eq!(parser.convert_replacement(r#"\&"#), "$&");
}

#[test]
fn pcre_flavor_is_pass_through() {
    let parser = Parser::new(RegexFlavor::PCRE);
    let mut cmd = substitution(r"(foo)(bar)", "$2$1");
    parser.apply_flavor_to_substitutions(&mut cmd);
    match cmd {
        Command::Substitution {
            pattern,
            replacement,
            ..
        } => {
            assert_eq!(pattern, "(foo)(bar)");
            assert_eq!(replacement, "$2$1");
        }
        _ => unreachable!(),
    }
}

#[test]
fn ere_flavor_converts_backslash_backrefs() {
    let parser = Parser::new(RegexFlavor::ERE);
    // ERE pattern passes through (it's already PCRE-compatible);
    // only the replacement's \1/\2 gets rewritten to $1/$2.
    let mut cmd = substitution("(foo)(bar)", r"\2\1");
    parser.apply_flavor_to_substitutions(&mut cmd);
    match cmd {
        Command::Substitution {
            pattern,
            replacement,
            ..
        } => {
            assert_eq!(pattern, "(foo)(bar)");
            assert_eq!(replacement, "$2$1");
        }
        _ => unreachable!(),
    }
}

#[test]
fn bre_flavor_converts_pattern_and_backrefs() {
    let parser = Parser::new(RegexFlavor::BRE);
    // BRE pattern `\(foo\)` becomes `(foo)`; `\1` becomes `$1`.
    let mut cmd = substitution(r"\(foo\)", r"\1");
    parser.apply_flavor_to_substitutions(&mut cmd);
    match cmd {
        Command::Substitution {
            pattern,
            replacement,
            ..
        } => {
            assert_eq!(pattern, "(foo)");
            assert_eq!(replacement, "$1");
        }
        _ => unreachable!(),
    }
}

#[test]
fn group_commands_recurse_into_nested_substitutions() {
    let parser = Parser::new(RegexFlavor::BRE);
    let mut group = Command::Group {
        commands: vec![substitution(r"\(a\)", r"\1"), substitution(r"\(b\)", r"\1")],
        range: None,
    };
    parser.apply_flavor_to_substitutions(&mut group);
    match group {
        Command::Group { commands, .. } => {
            match &commands[0] {
                Command::Substitution {
                    pattern,
                    replacement,
                    ..
                } => {
                    assert_eq!(pattern, "(a)");
                    assert_eq!(replacement, "$1");
                }
                _ => unreachable!(),
            }
            match &commands[1] {
                Command::Substitution {
                    pattern,
                    replacement,
                    ..
                } => {
                    assert_eq!(pattern, "(b)");
                    assert_eq!(replacement, "$1");
                }
                _ => unreachable!(),
            }
        }
        _ => unreachable!(),
    }
}

#[test]
fn zero_step_is_reported_with_its_message() {
    let e = sedx::parser::address::parse_address("1~0").unwrap_err();
    assert!(e.message.contains("step value cannot be zero"));
    assert_eq!(
        e.message,
        "Parse error: step value cannot be zero\n  Near: \"1~0\"\n  Hint: Use a positive integer for the step value.\nExample: 1~1 (every line) or 1~2 (every other line)"
    );
    assert_eq!(sedx::parser::address::parse_address("1~2").unwrap(), Address::Step { start: 1, step: 2 });
    let e = sedx::parser::address::parse_address("x~2").unwrap_err();
    assert!(e.message.starts_with("Parse error: invalid step start 'x'"));
    let e = sedx::parser::address::parse_address("abc").unwrap_err();
    assert!(e.message.starts_with("Parse error: invalid address 'abc'\n  Hint: Valid address formats:"));
}

#[test]
fn relative_range_before_the_start_keeps_its_sign() {
    let r = sedx::parser::address::parse_optional_range("10,-3").unwrap();
    assert_eq!(
        r,
        Some((Address::LineNumber(10), Address::Relative { base: Box::new(Address::LineNumber(10)), offset: -3 }))
    );
    let r = sedx::parser::address::parse_optional_range("/a/,+5").unwrap();
    assert_eq!(
        r,
        Some((
            Address::Pattern("a".to_string()),
            Address::Relative { base: Box::new(Address::Pattern("a".to_string())), offset: 5 }
        ))
    );
    let e = sedx::parser::address::parse_optional_range("10,+x").unwrap_err();
    assert!(e.message.starts_with("Parse error: invalid relative offset '+x'"));
}

#[test]
fn empty_and_unknown_commands_carry_their_messages() {
    assert_eq!(sedx::parser::parse_single_command("   ").unwrap_err().message, "Empty command");
    let e = sedx::parser::parse_single_command("123").unwrap_err();
    assert!(e.message.contains("unknown or missing command character"));
}

#[test]
fn single_address_range_uses_the_address_twice() {
    assert_eq!(sedx::parser::address::parse_optional_range("   ").unwrap(), None);
    assert_eq!(
        sedx::parser::address::parse_optional_range(" 5 ").unwrap(),
        Some((Address::LineNumber(5), Address::LineNumber(5)))
    );
    assert_eq!(sedx::parser::address::parse_optional_range("$").unwrap(), Some((Address::LastLine, Address::LastLine)));
}

#[test]
fn substitution_and_label_errors_carry_their_messages() {
    let e = sedx::parser::substitution::parse_substitution("s/a/b/x").unwrap_err();
    assert_eq!(
        e.message,
        "Parse error: unknown substitution flag 'x'\n  Near: \"s/a/b/x\"\n  Hint: Valid substitution flags are: g, p, i, I, or digits for the nth match"
    );
    let e = sedx::parser::substitution::parse_substitution("s/a").unwrap_err();
    assert!(e.message.starts_with("Parse error: missing closing delimiter: missing second '/' delimiter after pattern"));
    let e = sedx::parser::substitution::parse_substitution("s/a/b").unwrap_err();
    assert!(e.message.starts_with("Parse error: missing closing delimiter: missing third '/' delimiter after replacement"));
    let e = sedx::parser::flow::parse_label(":abcdefghij").unwrap_err();
    assert_eq!(
        e.message,
        "Parse error: label name 'abcdefghij' is too long (max 8 characters)\n  Hint: Shorten the label name to 8 characters or less.\nSuggestion: abcdefgh (truncated)"
    );
    let e = sedx::parser::commands::parse_insert("5i text").unwrap_err();
    assert!(e.message.starts_with("Parse error: invalid insert command format\n  Hint: Insert command requires a backslash"));
}

#[test]
fn group_and_io_errors_carry_their_messages() {
    let e = sedx::parser::group::parse_group("{p").unwrap_err();
    assert!(e.message.starts_with("Parse error: group command is missing closing '}'\n  Hint: Every opening '{' must have"));
    let e = sedx::parser::group::parse_group("{ }").unwrap_err();
    assert!(e.message.starts_with("Parse error: empty group: no commands inside braces"));
    let e = sedx::parser::group::parse_group("5p").unwrap_err();
    assert_eq!(e.message, "expected group command but found 'p' at position 1");
    let e = sedx::parser::io::parse_read_file("5r").unwrap_err();
    assert!(e.message.starts_with("Parse error: read file command requires a filename\n  Hint: Read file format:"));
    let e = Parser::new(RegexFlavor::PCRE).parse("p;s/a/b/q").unwrap_err();
    assert!(e.message.starts_with("Parse error: unknown substitution flag 'q'"));
}
