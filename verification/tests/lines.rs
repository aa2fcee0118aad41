use sedx::file_processor::line_diff::{diff_lines, line_changes, pair_line_changes, text_of_lines, DiffItem, DiffTag};
use sedx::file_processor::{ChangeType, LineChange};
use sedx::text::{file_content, join_lines, split_lines};

fn lines(v: &[&str]) -> Vec<String> {
    v.iter().map(|s| s.to_string()).collect()
}

#[test]
fn split_lines_follows_str_lines() {
    assert_eq!(split_lines("a\r\nb\n"), lines(&["a", "b"]));
    assert_eq!(split_lines("a\n\nb"), lines(&["a", "", "b"]));
    assert_eq!(split_lines(""), Vec::<String>::new());
    assert_eq!(split_lines("\n"), lines(&[""]));
    assert_eq!(split_lines("x\r"), lines(&["x\r"]));
    for text in ["one\ntwo\r\nthree", "tail\n\n", "\r\n\r\n", "α\nβ"] {
        let expected: Vec<String> = text.lines().map(|s| s.to_string()).collect();
        assert_eq!(split_lines(text), expected);
    }
}

#[test]
fn written_lines_read_back() {
    let ls = lines(&["first", "", "third line"]);
    let content = file_content(&ls);
    assert_eq!(content, "first\n\nthird line\n");
    assert_eq!(split_lines(&content), ls);
    assert_eq!(join_lines(&ls), "first\n\nthird line");
}

#[test]
fn diff_text_ends_in_a_newline_unless_empty() {
    assert_eq!(text_of_lines(&lines(&["a", "b"])), "a\nb\n");
    assert_eq!(text_of_lines(&Vec::new()), "");
    assert_eq!(text_of_lines(&lines(&[""])), "");
}

fn item(tag: DiffTag, old_index: Option<usize>, new_index: Option<usize>, value: &str) -> DiffItem {
    DiffItem { tag, old_index, new_index, value: value.to_string() }
}

fn view(c: &LineChange) -> (usize, ChangeType, String, Option<String>) {
    (c.line_number, c.change_type, c.content.clone(), c.old_content.clone())
}

#[test]
fn deletion_and_insertion_of_one_number_pair_into_a_modification() {
    let items = vec![
        item(DiffTag::Equal, Some(0), Some(0), "a\n"),
        item(DiffTag::Delete, Some(1), None, "b\n"),
        item(DiffTag::Insert, None, Some(1), "B\n"),
        item(DiffTag::Insert, None, Some(2), "new\n"),
        item(DiffTag::Delete, Some(3), None, "gone\n"),
    ];
    let changes: Vec<_> = pair_line_changes(&items).iter().map(view).collect();
    assert_eq!(
        changes,
        vec![
            (2, ChangeType::Modified, "B".to_string(), Some("b".to_string())),
            (3, ChangeType::Added, "new".to_string(), None),
            (4, ChangeType::Deleted, "gone".to_string(), None),
        ]
    );
}

#[test]
fn line_changes_of_an_edit() {
    let original = lines(&["a", "b", "c"]);
    let modified = lines(&["a", "B", "c"]);
    let changes: Vec<_> = line_changes(&original, &modified).iter().map(view).collect();
    assert_eq!(changes, vec![(2, ChangeType::Modified, "B".to_string(), Some("b".to_string()))]);
}

#[test]
fn unchanged_lines_give_no_changes() {
    let original = lines(&["a", "b", "c"]);
    assert!(line_changes(&original, &original.clone()).is_empty());
}

#[test]
fn listing_shows_every_line() {
    let original = lines(&["a", "b", "c"]);
    let modified = lines(&["a", "c", "d"]);
    let listing = diff_lines(&original, &modified);
    assert_eq!(
        listing,
        vec![
            (1, "a".to_string(), ChangeType::Unchanged),
            (2, "b".to_string(), ChangeType::Deleted),
            (3, "c".to_string(), ChangeType::Unchanged),
            (3, "d".to_string(), ChangeType::Added),
        ]
    );
}
