use sedx::cli::{parse_args, Args, ArgsError, CliCommand, CliInput, RegexFlavor};
use sedx::command::{Address, Command, SubstitutionFlags};
use sedx::file_processor::common::SubstitutionEngine;
use sedx::parser::Parser;
use sedx::path_policy::{validate_restore_target, validate_script_file_operand};
use sedx::regex_error::{classify_error, find_invalid_quantifier, generate_suggestion, RegexErrorType};

fn cli(expression: Option<&str>) -> CliInput {
    CliInput {
        expression: expression.map(|s| s.to_string()),
        files: vec!["a.txt".to_string()],
        dry_run: true,
        interactive: false,
        context: Some(5),
        no_context: false,
        streaming: true,
        no_streaming: false,
        bre: false,
        ere: true,
        no_backup: false,
        force: false,
        backup_dir: None,
        command: None,
    }
}

#[test]
fn command_line_resolves_options() {
    match parse_args(cli(Some("s/a/b/"))).unwrap() {
        Args::Execute { expression, files, dry_run, context, streaming, regex_flavor, .. } => {
            assert_eq!(expression, "s/a/b/");
            assert_eq!(files, vec!["a.txt".to_string()]);
            assert!(dry_run);
            assert_eq!(context, 5);
            assert!(streaming);
            assert_eq!(regex_flavor, RegexFlavor::ERE);
        }
        other => panic!("unexpected {:?}", other),
    }
    let mut quiet = cli(Some("p"));
    quiet.no_context = true;
    quiet.no_streaming = true;
    quiet.bre = true;
    match parse_args(quiet).unwrap() {
        Args::Execute { context, streaming, regex_flavor, .. } => {
            assert_eq!(context, 0);
            assert!(!streaming);
            assert_eq!(regex_flavor, RegexFlavor::BRE);
        }
        other => panic!("unexpected {:?}", other),
    }
    let mut defaults = cli(Some("p"));
    defaults.context = None;
    defaults.ere = false;
    match parse_args(defaults).unwrap() {
        Args::Execute { context, regex_flavor, .. } => {
            assert_eq!(context, 2);
            assert_eq!(regex_flavor, RegexFlavor::PCRE);
        }
        other => panic!("unexpected {:?}", other),
    }
}

#[test]
fn command_line_needs_an_expression_or_a_subcommand() {
    assert_eq!(parse_args(cli(None)).unwrap_err(), ArgsError::MissingExpression);
    let mut sub = cli(None);
    sub.command = Some(CliCommand::BackupPrune { keep: Some(3), keep_days: None, force: true });
    assert!(matches!(parse_args(sub), Ok(Args::BackupPrune { keep: Some(3), keep_days: None, force: true })));
}

#[test]
fn script_file_names_are_normalised_or_refused() {
    assert_eq!(validate_script_file_operand("out.txt"), Ok("out.txt".to_string()));
    assert_eq!(validate_script_file_operand("./dir//out.txt"), Ok("dir/out.txt".to_string()));
    assert_eq!(
        validate_script_file_operand("/etc/passwd"),
        Err("unsafe file I/O path '/etc/passwd': absolute paths are not allowed".to_string())
    );
    assert_eq!(
        validate_script_file_operand("a/../b"),
        Err("unsafe file I/O path 'a/../b': parent traversal is not allowed".to_string())
    );
    assert_eq!(validate_script_file_operand("./"), Err("unsafe file I/O path './': empty paths are not allowed".to_string()));
}

fn flags(global: bool, nth: Option<usize>, case_insensitive: bool) -> SubstitutionFlags {
    SubstitutionFlags { global, print: false, case_insensitive, nth }
}

#[test]
fn substitution_engine_selects_matches() {
    let engine = SubstitutionEngine::new(RegexFlavor::PCRE);
    assert_eq!(engine.apply("a a a", "a", "b", &flags(false, None, false)).unwrap(), "b a a");
    assert_eq!(engine.apply("a a a", "a", "b", &flags(true, None, false)).unwrap(), "b b b");
    assert_eq!(engine.apply("a a a", "a", "b", &flags(false, Some(3), false)).unwrap(), "a a b");
    assert_eq!(engine.apply("a a a", "a", "b", &flags(false, Some(4), false)).unwrap(), "a a a");
    assert_eq!(engine.apply("A a", "a", "b", &flags(true, None, true)).unwrap(), "b b");
    assert_eq!(engine.apply("héllo wörld", "ö", "o", &flags(false, Some(1), false)).unwrap(), "héllo world");
    assert_eq!(engine.apply("foo bar", "(\\w+) (\\w+)", "$2 $1", &flags(false, None, false)).unwrap(), "bar foo");
}

#[test]
fn non_matching_line_is_left_as_is() {
    let engine = SubstitutionEngine::new(RegexFlavor::PCRE);
    for f in [flags(false, None, false), flags(true, None, false), flags(false, Some(2), false)] {
        assert_eq!(engine.apply("nothing here", "xyz", "Q", &f).unwrap(), "nothing here");
    }
}

#[test]
fn replacement_escapes_become_characters() {
    let engine = SubstitutionEngine::new(RegexFlavor::PCRE);
    assert_eq!(engine.process_replacement_escapes("a\\tb\\nc"), "a\tb\nc");
    assert_eq!(engine.process_replacement_escapes("\\x41\\u00e9\\\\"), "Aé\\");
    assert_eq!(engine.process_replacement_escapes("\\q$1"), "\\q$1");
}

#[test]
fn substitution_error_is_explained() {
    let engine = SubstitutionEngine::new(RegexFlavor::PCRE);
    let err = engine.apply("x", "(", "y", &flags(false, None, false)).unwrap_err();
    assert!(matches!(err.error_type, RegexErrorType::UnclosedDelimiter { delimiter: '(', position: 0 }));
    assert!(err.display().contains("Regex Error"));
}

#[test]
fn error_messages_are_classified() {
    assert!(matches!(
        classify_error("regex parse error: unclosed group", "a(b", RegexFlavor::PCRE),
        RegexErrorType::UnclosedDelimiter { delimiter: '(', position: 1 }
    ));
    assert!(matches!(
        classify_error("repetition operator missing expression", "*a", RegexFlavor::PCRE),
        RegexErrorType::InvalidQuantifier { position: Some(0), .. }
    ));
    assert!(matches!(
        classify_error("look-around, including look-ahead and look-behind, is not supported", "(?=a)", RegexFlavor::PCRE),
        RegexErrorType::LookaroundError { .. }
    ) || matches!(
        classify_error("look-around, including look-ahead and look-behind, is not supported", "(?=a)", RegexFlavor::PCRE),
        RegexErrorType::Syntax { .. }
    ));
    assert!(matches!(classify_error("something odd", "a", RegexFlavor::PCRE), RegexErrorType::Syntax { position: None, .. }));
    assert_eq!(find_invalid_quantifier("(*a"), Some(1));
    assert_eq!(find_invalid_quantifier("a|+b"), Some(2));
    assert_eq!(find_invalid_quantifier("a**"), None);
    assert_eq!(find_invalid_quantifier("abc"), None);
}

#[test]
fn suggestions_name_the_fix() {
    let s = generate_suggestion(&RegexErrorType::UnclosedDelimiter { delimiter: '(', position: 0 }, "(foo", RegexFlavor::PCRE).unwrap();
    assert_eq!(s, "Add a closing ')' to match the opening '(' at position 0. Pattern: \"(foo)\"");
    assert!(generate_suggestion(&RegexErrorType::UnclosedDelimiter { delimiter: 'x', position: 0 }, "x", RegexFlavor::PCRE).is_none());
    let b = generate_suggestion(&RegexErrorType::InvalidEscape { sequence: "(".to_string(), position: 0 }, "(", RegexFlavor::BRE).unwrap();
    assert!(b.starts_with("In BRE mode (-B), parentheses must be escaped"));
}

#[test]
fn parser_reads_scripts() {
    let parser = Parser::new(RegexFlavor::PCRE);
    assert!(parser.parse("").unwrap().is_empty());
    let cmds = parser.parse("3,5p;$d").unwrap();
    assert_eq!(
        cmds,
        vec![
            Command::Print { range: (Address::LineNumber(3), Address::LineNumber(5)) },
            Command::Delete { range: (Address::LastLine, Address::LastLine) },
        ]
    );
    assert!(parser.parse("s/a/b").is_err());
    assert!(parser.parse("{p").is_err());
}

#[test]
fn bre_parser_converts_patterns_and_replacements() {
    let parser = Parser::new(RegexFlavor::BRE);
    match &parser.parse("s/\\(a\\)\\+/[\\1]/g").unwrap()[0] {
        Command::Substitution { pattern, replacement, flags, .. } => {
            assert_eq!(pattern, "(a)+");
            assert_eq!(replacement, "[$1]");
            assert!(flags.global);
        }
        other => panic!("unexpected {:?}", other),
    }
}

#[test]
fn regex_mode_never_changes_which_scripts_parse() {
    for script in ["s/\\(a\\)/b/;2p", "{s/x/y/g;d}", "s/a/b", "1,3{p"] {
        let results: Vec<Result<usize, String>> = [RegexFlavor::PCRE, RegexFlavor::ERE, RegexFlavor::BRE]
            .iter()
            .map(|f| Parser::new(*f).parse(script).map(|c| c.len()).map_err(|e| e.message))
            .collect();
        assert_eq!(results[0], results[1]);
        assert_eq!(results[1], results[2]);
    }
}

#[test]
fn accepted_file_names_are_stable() {
    for name in ["out.txt", "./a//b/./c", "dir/", "x/./y"] {
        let once = validate_script_file_operand(name).unwrap();
        assert_eq!(validate_script_file_operand(&once), Ok(once.clone()));
    }
}

#[test]
fn error_classification_ignores_case() {
    assert!(matches!(
        classify_error("REGEX PARSE ERROR: UNCLOSED GROUP", "a(b", RegexFlavor::PCRE),
        RegexErrorType::UnclosedDelimiter { delimiter: '(', position: 1 }
    ));
}

#[test]
fn restore_targets_without_parent_parts_are_kept() {
    assert_eq!(validate_restore_target("/home/u/notes.txt"), Ok("/home/u/notes.txt".to_string()));
    assert_eq!(validate_restore_target("a/..b/c"), Ok("a/..b/c".to_string()));
    assert_eq!(
        validate_restore_target(""),
        Err("backup metadata path validation failed: empty original path".to_string())
    );
    assert_eq!(
        validate_restore_target("/tmp/../etc/passwd"),
        Err("backup metadata path validation failed for '/tmp/../etc/passwd': parent traversal is not allowed".to_string())
    );
    assert!(validate_restore_target("..").is_err());
    assert!(validate_restore_target("x/..").is_err());
}

#[test]
fn script_file_operand_keeps_named_parts_only() {
    assert_eq!(validate_script_file_operand("./a/./b"), Ok("a/b".to_string()));
    assert_eq!(validate_script_file_operand("a/b/"), Ok("a/b".to_string()));
    assert_eq!(validate_script_file_operand("."), Err("unsafe file I/O path '.': empty paths are not allowed".to_string()));
    assert_eq!(validate_script_file_operand(""), Err("unsafe file I/O path '': empty paths are not allowed".to_string()));
    assert_eq!(
        validate_script_file_operand("../x"),
        Err("unsafe file I/O path '../x': parent traversal is not allowed".to_string())
    );
    assert_eq!(validate_script_file_operand("a..b/c"), Ok("a..b/c".to_string()));
}
