use sedx::command::{Address, Command};
use sedx::parser::group::parse_group_at;
use sedx::regex_error::find_unclosed_delimiter;

#[test]
fn parser_uses_supplied_group_position_when_address_contains_brace() {
    let cmd = r"\#a{b#,\#c#{p}";
    let pos = cmd.rfind('{').unwrap();

    assert_eq!(
        parse_group_at(cmd, pos).unwrap(),
        Command::Group {
            range: Some((
                Address::Pattern("a{b".to_string()),
                Address::Pattern("c".to_string()),
            )),
            commands: vec![Command::Print {
                range: (Address::LineNumber(1), Address::LastLine),
            }],
        }
    );
}

#[test]
fn parser_rejects_wrong_group_position_without_panicking() {
    assert!(parse_group_at(r"\#a{b#,\#c#{p}", 4).is_err());
}

#[test]
fn test_find_unclosed_delimiter() {
    assert_eq!(find_unclosed_delimiter("(foo", '(', ')'), Some(0));
    assert_eq!(find_unclosed_delimiter("(foo)(bar", '(', ')'), Some(5));
    assert_eq!(find_unclosed_delimiter("(foo)(bar)", '(', ')'), None);
}

#[test]
fn the_opening_delimiter_left_open_is_reported() {
    assert_eq!(find_unclosed_delimiter("((a)", '(', ')'), Some(0));
    assert_eq!(find_unclosed_delimiter("(a(b)c", '(', ')'), Some(0));
    assert_eq!(find_unclosed_delimiter("[(]", '(', ')'), None);
}
