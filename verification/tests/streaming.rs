use sedx::cli::RegexFlavor;
use sedx::command::{Address, Command};
use sedx::file_processor::streaming::{Emit, StreamError, StreamStep};
use sedx::file_processor::{ChangeType, FileDiff, StreamProcessor};
use sedx::parser::Parser;

/// Runs a script over lines the way a reader would feed them; returns the
/// written lines, the printed lines and the diff.
fn run(script: &str, input: &[&str]) -> Result<(Vec<String>, Vec<String>, FileDiff), StreamError> {
    run_with(StreamProcessor::new(Parser::new(RegexFlavor::PCRE).parse(script).unwrap()), input)
}

fn run_with(mut sp: StreamProcessor, input: &[&str]) -> Result<(Vec<String>, Vec<String>, FileDiff), StreamError> {
    sp.begin_stream("input.txt");
    let mut written = Vec::new();
    let mut printed = Vec::new();
    let mut i = 0;
    'lines: while i < input.len() {
        let mut step = sp.begin_line(input[i].to_string(), i + 1 == input.len())?;
        i += 1;
        loop {
            for e in sp.take_emits() {
                match e {
                    Emit::Write(s) => written.push(s),
                    Emit::Print(s) => printed.push(s),
                }
            }
            match step {
                StreamStep::NeedLine => {
                    let next = input.get(i).map(|s| s.to_string());
                    if next.is_some() {
                        i += 1;
                    }
                    step = sp.supply_line(next, i >= input.len())?;
                }
                StreamStep::LineDone { stop } => {
                    if stop {
                        break 'lines;
                    }
                    break;
                }
            }
        }
    }
    Ok((written, printed, sp.finish()))
}

#[test]
fn test_streaming_passthrough() {
    let (written, _, diff) = run("", &["line 1", "line 2", "line 3", "line 4", "line 5"]).unwrap();
    assert_eq!(written, vec!["line 1", "line 2", "line 3", "line 4", "line 5"]);
    assert!(diff.changes.len() <= 5);
    assert!(diff.is_streaming);
    assert!(diff.all_lines.is_empty());
    assert_eq!(diff.file_path, "input.txt");
}

#[test]
fn test_streaming_substitution() {
    let (written, _, diff) = run("s/foo/QUX/", &["foo bar", "baz foo", "foo foo"]).unwrap();
    assert_eq!(written, vec!["QUX bar", "baz QUX", "QUX foo"]);
    assert_eq!(diff.changes.len(), 3);
    assert!(diff.changes.iter().all(|c| c.change_type == ChangeType::Modified));
    assert_eq!(diff.changes[1].old_content.as_deref(), Some("baz foo"));
}

#[test]
fn test_streaming_global_substitution() {
    let (written, _, _) = run("s/foo/QUX/g", &["foo foo foo", "bar foo bar"]).unwrap();
    assert_eq!(written, vec!["QUX QUX QUX", "bar QUX bar"]);
}

#[test]
fn test_streaming_numbered_substitution() {
    let (written, _, _) = run("s/foo/QUX/2", &["foo foo foo foo"]).unwrap();
    assert_eq!(written, vec!["foo QUX foo foo"]);
}

#[test]
fn test_streaming_case_insensitive() {
    let (written, _, _) = run("s/foo/QUX/gi", &["FOO bar Foo baz"]).unwrap();
    assert_eq!(written, vec!["QUX bar QUX baz"]);
}

#[test]
fn test_streaming_delete() {
    let (written, _, diff) = run("1,$d", &["line 1", "line 2", "line 3"]).unwrap();
    assert!(written.is_empty());
    assert_eq!(diff.changes.len(), 3);
    assert!(diff.changes.iter().all(|c| c.change_type == ChangeType::Deleted));
}

#[test]
fn test_streaming_print() {
    let (written, printed, _) = run("1,$p", &["line 1", "line 2", "line 3"]).unwrap();
    assert_eq!(written, vec!["line 1", "line 2", "line 3"]);
    assert_eq!(printed, vec!["line 1", "line 2", "line 3"]);
}

#[test]
fn next_then_delete_keeps_odd_lines() {
    let (written, _, _) = run("n;d", &["1", "2", "3", "4", "5"]).unwrap();
    assert_eq!(written, vec!["1", "3", "5"]);
}

#[test]
fn next_append_joins_pairs() {
    let (written, _, _) = run("N;s/\\n/+/", &["a", "b", "c", "d"]).unwrap();
    assert_eq!(written, vec!["a+b", "c+d"]);
}

#[test]
fn next_append_at_end_stops_after_the_line() {
    let (written, _, _) = run("N", &["a", "b", "c"]).unwrap();
    assert_eq!(written, vec!["a\nb", "c"]);
}

#[test]
fn quit_stops_after_its_line() {
    let (written, _, _) = run("2q", &["a", "b", "c"]).unwrap();
    assert_eq!(written, vec!["a", "b"]);
}

#[test]
fn line_numbers_are_printed() {
    let (written, printed, _) = run("=", &["x", "y"]).unwrap();
    assert_eq!(written, vec!["x", "y"]);
    assert_eq!(printed, vec!["1", "2"]);
}

#[test]
fn insert_append_and_change_text() {
    let commands = vec![
        Command::Insert { text: "before".to_string(), address: Address::LineNumber(1) },
        Command::Append { text: "after".to_string(), address: Address::LineNumber(2) },
        Command::Change { text: "changed".to_string(), range: (Address::LineNumber(3), Address::LineNumber(3)) },
    ];
    let (written, _, diff) = run_with(StreamProcessor::new(commands), &["a", "b", "c"]).unwrap();
    assert_eq!(written, vec!["before", "a", "b", "after", "changed"]);
    let added: Vec<_> = diff.changes.iter().filter(|c| c.change_type == ChangeType::Added).map(|c| c.line_number).collect();
    assert_eq!(added, vec![1, 3]);
}

#[test]
fn hold_space_carries_lines_forward() {
    let (written, _, _) = run("1h;2G", &["first", "second"]).unwrap();
    assert_eq!(written, vec!["first", "second\nfirst"]);
}

#[test]
fn pattern_range_runs_from_start_to_end_match() {
    let (written, _, _) = run("/start/,/end/d", &["a", "start", "b", "end", "c"]).unwrap();
    assert_eq!(written, vec!["a", "c"]);
}

#[test]
fn context_window_keeps_two_lines_around_a_change() {
    let input: Vec<String> = (1..=9).map(|n| format!("line {}", n)).collect();
    let refs: Vec<&str> = input.iter().map(|s| s.as_str()).collect();
    let (_, _, diff) = run("5s/line/LINE/", &refs).unwrap();
    let numbers: Vec<usize> = diff.changes.iter().map(|c| c.line_number).collect();
    assert_eq!(numbers, vec![3, 4, 5, 6, 7, 8, 9]);
    assert_eq!(diff.changes[2].change_type, ChangeType::Modified);
}

#[test]
fn wider_context_is_honoured() {
    let sp = StreamProcessor::new(Parser::new(RegexFlavor::PCRE).parse("5s/x/y/").unwrap()).with_context_size(0);
    let (_, _, diff) = run_with(sp, &["x", "x", "x", "x", "x", "x"]).unwrap();
    let numbers: Vec<usize> = diff.changes.iter().map(|c| c.line_number).collect();
    assert_eq!(numbers, vec![5]);
}

#[test]
fn quiet_mode_writes_only_what_is_printed() {
    let sp = StreamProcessor::new(Parser::new(RegexFlavor::PCRE).parse("2p").unwrap()).with_no_default_output(true);
    let (written, printed, _) = run_with(sp, &["a", "b", "c"]).unwrap();
    assert!(written.is_empty());
    assert_eq!(printed, vec!["b"]);
}

#[test]
fn write_command_is_refused() {
    match run("w out.txt", &["a"]) {
        Err(StreamError::FileCommandUnsupported(name)) => assert_eq!(name, "out.txt"),
        other => panic!("unexpected: {:?}", other.map(|r| r.0)),
    }
}

#[test]
fn unsafe_file_name_is_reported_as_such() {
    assert!(matches!(run("w ../escape.txt", &["a"]), Err(StreamError::UnsafePath(_))));
}

#[test]
fn unsupported_command_in_group_is_refused() {
    match run("{D}", &["a"]) {
        Err(StreamError::CommandUnsupported(letter)) => assert_eq!(letter, "D"),
        other => panic!("unexpected: {:?}", other.map(|r| r.0)),
    }
}

#[test]
fn invalid_range_pattern_is_refused() {
    assert!(matches!(run("/(/,/x/p", &["a"]), Err(StreamError::InvalidPattern(_))));
}

#[test]
fn bad_substitution_pattern_is_a_regex_error() {
    assert!(matches!(run("s/(/x/", &["a"]), Err(StreamError::Regex(_))));
}

#[test]
fn dry_run_and_threshold() {
    let sp = StreamProcessor::new(Vec::new()).with_dry_run(true);
    assert!(sp.is_dry_run());
    assert!(!StreamProcessor::new(Vec::new()).is_dry_run());
    assert!(StreamProcessor::should_use_streaming(100 * 1024 * 1024));
    assert!(!StreamProcessor::should_use_streaming(100 * 1024 * 1024 - 1));
}

#[test]
fn engines_agree_on_substitutions() {
    let input = ["foo bar", "baz", "foo foo", ""];
    for script in ["s/foo/QUX/g", "s/o/0/2", "s/^/> /", "s/foo/QUX/g;s/Q/q/", "s/a/b/;s/b/c/g;s/^/> /i", ""] {
        let (written, _, _) = run(script, &input).unwrap();
        let commands = Parser::new(RegexFlavor::PCRE).parse(script).unwrap();
        let lines: Vec<String> = input.iter().map(|s| s.to_string()).collect();
        let in_memory = sedx::file_processor::FileProcessor::new(commands).apply_cycle_based(lines).unwrap();
        assert_eq!(written, in_memory);
    }
}

#[test]
fn chosen_scripts_are_not_refused() {
    for script in ["2,3{s/a/b/;p}", "s/a/b/;2d;3p;h;G;x", "{s/x/y/g;h}"] {
        let commands = Parser::new(RegexFlavor::PCRE).parse(script).unwrap();
        assert!(sedx::plan::can_use_streaming(&commands));
        assert!(run(script, &["a", "ab", "xa", "b"]).is_ok());
    }
    let commands = Parser::new(RegexFlavor::PCRE).parse("{q}").unwrap();
    assert!(sedx::plan::can_use_streaming(&commands));
    match run("{q}", &["a"]) {
        Err(StreamError::CommandUnsupported(letter)) => assert_eq!(letter, "q"),
        other => panic!("unexpected: {:?}", other.map(|r| r.0)),
    }
}

#[test]
fn test_streaming_quit_immediately() {
    let (written, printed, diff) = run("q", &["line 1", "line 2", "line 3"]).unwrap();
    assert!(written.is_empty(), "Should be empty (quit immediately)");
    assert!(printed.is_empty());
    assert!(diff.changes.is_empty());
    let (written, _, _) = run("s/l/L/;q;s/i/I/", &["line 1", "line 2"]).unwrap();
    assert!(written.is_empty());
}

#[test]
fn context_size_changes_only_the_diff() {
    let input = ["a", "b", "foo", "c", "d", "e", "foo", "f"];
    for script in ["s/foo/bar/", "2d;p", "/foo/p", "3,5s/^/> /", "n;d"] {
        let cmds = || Parser::new(RegexFlavor::PCRE).parse(script).unwrap();
        let (w0, p0, _) = run_with(StreamProcessor::new(cmds()).with_context_size(0), &input).unwrap();
        let (w5, p5, _) = run_with(StreamProcessor::new(cmds()).with_context_size(5), &input).unwrap();
        assert_eq!(w0, w5);
        assert_eq!(p0, p5);
    }
}

#[test]
fn passthrough_records_only_unchanged_lines() {
    let (written, _, diff) = run("", &["x", "y", "z"]).unwrap();
    assert_eq!(written, vec!["x", "y", "z"]);
    assert!(diff.changes.iter().all(|c| c.change_type == ChangeType::Unchanged));
}
