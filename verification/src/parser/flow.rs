//! Labels and branches (`:`, `b`, `t`, `T`).
use vstd::prelude::*;
use crate::command::{Command, SCommand, SRange, opt_range_view};
use crate::parser::address::{parse_optional_range_chars, range_malformed, spec_parse_optional_range, spec_range_malformed};
use crate::parser::errors::{ParseError, ParseErrorKind, format_error_chars, spec_format_parse_error};
use crate::text::{
    Encoded, chars_of, char_index_at, char_index_of_byte, is_char_start, slice_of, string_of, trim,
    trim_vec, width,
};

verus! {

/// What `:label` parses to: the trimmed name after `:`, at most 8 characters.
pub open spec fn spec_parse_label(cmd: Seq<char>) -> Result<SCommand, ParseErrorKind> {
    let name = trim(trim(cmd).drop_first());
    if name.len() == 0 {
        Err(ParseErrorKind::EmptyLabel)
    } else if name.len() > 8 {
        Err(ParseErrorKind::LabelTooLong)
    } else {
        Ok(SCommand::Label { name })
    }
}

/// The message of the error `spec_parse_label` gives for `cmd`.
pub open spec fn spec_label_message(cmd: Seq<char>) -> Seq<char> {
    let t = trim(cmd);
    let name = trim(t.drop_first());
    if name.len() == 0 {
        spec_format_parse_error(
            t,
            Some(1usize),
            "label name cannot be empty"@,
            Some(
                "Label definition format: :labelname\nExample: :loop\n         :end\n         :retry\nNote: Label names are limited to 8 characters (GNU sed compatibility)"@,
            ),
        )
    } else {
        spec_format_parse_error(
            t,
            None,
            "label name '"@ + name + "' is too long (max 8 characters)"@,
            Some("Shorten the label name to 8 characters or less.\nSuggestion: "@ + name.take(8) + " (truncated)"@),
        )
    }
}

/// Parse a label definition. The trimmed text starts with a one-byte
/// character (the `:`).
pub fn parse_label(cmd: &str) -> (r: Result<Command, ParseError>)
    requires
        trim(cmd@).len() > 0,
        width(trim(cmd@)[0]) == 1,
    ensures
        match spec_parse_label(cmd@) {
            Ok(x) => r matches Ok(y) && y@ == x,
            Err(k) => r matches Err(e) && e.kind == k && e.message@ == spec_label_message(cmd@),
        },
{
    let t = trim_vec(&chars_of(cmd));
    proof { crate::text::lemma_trim_idem(cmd@); }
    parse_label_chars(&t)
}

pub fn parse_label_chars(t: &Vec<char>) -> (r: Result<Command, ParseError>)
    requires
        t@ == trim(t@),
        t@.len() > 0,
    ensures
        match spec_parse_label(t@) {
            Ok(x) => r matches Ok(y) && y@ == x,
            Err(k) => r matches Err(e) && e.kind == k && e.message@ == spec_label_message(t@),
        },
{
    let rest = slice_of(t, 1, t.len());
    assert(rest@ =~= trim(t@).drop_first());
    let name = trim_vec(&rest);
    if name.len() == 0 {
        let msg = format_error_chars(
            t,
            Some(1),
            "label name cannot be empty",
            Some(
                "Label definition format: :labelname\nExample: :loop\n         :end\n         :retry\nNote: Label names are limited to 8 characters (GNU sed compatibility)",
            ),
        );
        return Err(ParseError { kind: ParseErrorKind::EmptyLabel, message: msg });
    }
    if name.len() > 8 {
        let mut d = crate::text::str_to_string("label name '");
        crate::text::push_str(&mut d, string_of(&name).as_str());
        crate::text::push_str(&mut d, "' is too long (max 8 characters)");
        let mut h = crate::text::str_to_string("Shorten the label name to 8 characters or less.\nSuggestion: ");
        crate::text::push_str(&mut h, string_of(&slice_of(&name, 0, 8)).as_str());
        crate::text::push_str(&mut h, " (truncated)");
        let msg = format_error_chars(t, None, d.as_str(), Some(h.as_str()));
        return Err(ParseError { kind: ParseErrorKind::LabelTooLong, message: msg });
    }
    Ok(Command::Label { name: string_of(&name) })
}

/// The label after a branch command: the trimmed text, if any.
pub open spec fn spec_optional_label(s: Seq<char>) -> Option<Seq<char>> {
    if trim(s).len() == 0 { None } else { Some(trim(s)) }
}

/// The range and label of a branch command whose letter is the character
/// with index `k`.
pub open spec fn spec_branch_parts(s: Seq<char>, k: int) -> Result<(Option<SRange>, Option<Seq<char>>), ParseErrorKind> {
    if spec_range_malformed(s.take(k)) {
        Err(ParseErrorKind::MalformedText)
    } else {
        match spec_parse_optional_range(s.take(k)) {
            Err(e) => Err(e),
            Ok(r) => Ok((r, spec_optional_label(s.skip(k + 1)))),
        }
    }
}

/// The message of the error a branch command at character `k` of `s`
/// gives: the address text is malformed, or its range fails.
pub open spec fn spec_branch_message(s: Seq<char>, k: int) -> Seq<char> {
    if spec_range_malformed(s.take(k)) {
        spec_format_parse_error(s, None, "malformed address text"@, None)
    } else {
        crate::parser::address::spec_range_message(s.take(k))
    }
}

/// The kinds of branch.
#[derive(Clone, Copy)]
pub enum BranchKind {
    Always,
    IfSubstituted,
    IfNotSubstituted,
}

pub open spec fn branch_command(kind: BranchKind, r: Option<SRange>, l: Option<Seq<char>>) -> SCommand {
    match kind {
        BranchKind::Always => SCommand::Branch { label: l, range: r },
        BranchKind::IfSubstituted => SCommand::Test { label: l, range: r },
        BranchKind::IfNotSubstituted => SCommand::TestFalse { label: l, range: r },
    }
}

pub open spec fn spec_parse_branch_like(s: Seq<char>, k: int, kind: BranchKind) -> Result<SCommand, ParseErrorKind> {
    match spec_branch_parts(s, k) {
        Err(e) => Err(e),
        Ok((r, l)) => Ok(branch_command(kind, r, l)),
    }
}

/// The branch command at character index `k` of `v`.
pub fn parse_branch_chars(v: &Vec<char>, k: usize, kind: BranchKind) -> (r: Result<Command, ParseError>)
    requires
        k < v@.len(),
    ensures
        match spec_parse_branch_like(v@, k as int, kind) {
            Ok(x) => r matches Ok(y) && y@ == x,
            Err(e) => r matches Err(f) && f.kind == e && f.message@ == spec_branch_message(v@, k as int),
        },
{
    let ap = slice_of(v, 0, k);
    assert(ap@ =~= v@.take(k as int));
    let n = v.len();
    let lp = slice_of(v, k + 1, n);
    assert(lp@ =~= v@.skip(k + 1));
    if range_malformed(&ap) {
        let msg = format_error_chars(v, None, "malformed address text", None);
        return Err(ParseError { kind: ParseErrorKind::MalformedText, message: msg });
    }
    let range = match parse_optional_range_chars(&ap) {
        Ok(r) => r,
        Err(e) => { return Err(e); }
    };
    let name = trim_vec(&lp);
    let label = if name.len() == 0 { None } else { Some(string_of(&name)) };
    match kind {
        BranchKind::Always => Ok(Command::Branch { label, range }),
        BranchKind::IfSubstituted => Ok(Command::Test { label, range }),
        BranchKind::IfNotSubstituted => Ok(Command::TestFalse { label, range }),
    }
}

/// The command character at byte `pos` is a one-byte character.
pub open spec fn one_byte_char_at(s: Seq<char>, pos: int) -> bool {
    exists|k: int| is_char_start(s, pos, k) && k < s.len() && width(s[k]) == 1
}

fn branch_at(cmd: &str, pos: usize, kind: BranchKind) -> (r: Result<Command, ParseError>)
    requires
        one_byte_char_at(cmd@, pos as int),
    ensures
        match spec_parse_branch_like(cmd@, char_index_at(cmd@, pos as int), kind) {
            Ok(x) => r matches Ok(y) && y@ == x,
            Err(e) => r matches Err(f) && f.kind == e && f.message@ == spec_branch_message(
                cmd@,
                char_index_at(cmd@, pos as int),
            ),
        },
{
    let e = Encoded::new(chars_of(cmd));
    match char_index_of_byte(&e, pos) {
        Some(k) => {
            if k < e.chars.len() {
                parse_branch_chars(&e.chars, k, kind)
            } else {
                proof {
                    let j = choose|j: int| is_char_start(cmd@, pos as int, j) && j < cmd@.len() && width(cmd@[j]) == 1;
                    crate::text::lemma_char_index_unique(cmd@, pos as int, j);
                }
                Err(ParseError { kind: ParseErrorKind::MalformedText, message: string_of(&e.chars) })
            }
        }
        None => {
            proof {
                let j = choose|j: int| is_char_start(cmd@, pos as int, j) && j < cmd@.len() && width(cmd@[j]) == 1;
                assert(is_char_start(e.chars@, pos as int, j));
            }
            Err(ParseError { kind: ParseErrorKind::MalformedText, message: string_of(&e.chars) })
        }
    }
}

/// Parse `[range]b [label]` whose `b` is at byte position `pos`.
pub fn parse_branch_at(cmd: &str, pos: usize) -> (r: Result<Command, ParseError>)
    requires
        one_byte_char_at(cmd@, pos as int),
    ensures
        match spec_parse_branch_like(cmd@, char_index_at(cmd@, pos as int), BranchKind::Always) {
            Ok(x) => r matches Ok(y) && y@ == x,
            Err(e) => r matches Err(f) && f.kind == e && f.message@ == spec_branch_message(
                cmd@,
                char_index_at(cmd@, pos as int),
            ),
        },
{
    branch_at(cmd, pos, BranchKind::Always)
}

/// Parse `[range]t [label]` whose `t` is at byte position `pos`.
pub fn parse_test_at(cmd: &str, pos: usize) -> (r: Result<Command, ParseError>)
    requires
        one_byte_char_at(cmd@, pos as int),
    ensures
        match spec_parse_branch_like(cmd@, char_index_at(cmd@, pos as int), BranchKind::IfSubstituted) {
            Ok(x) => r matches Ok(y) && y@ == x,
            Err(e) => r matches Err(f) && f.kind == e && f.message@ == spec_branch_message(
                cmd@,
                char_index_at(cmd@, pos as int),
            ),
        },
{
    branch_at(cmd, pos, BranchKind::IfSubstituted)
}

/// Parse `[range]T [label]` whose `T` is at byte position `pos`.
pub fn parse_test_false_at(cmd: &str, pos: usize) -> (r: Result<Command, ParseError>)
    requires
        one_byte_char_at(cmd@, pos as int),
    ensures
        match spec_parse_branch_like(cmd@, char_index_at(cmd@, pos as int), BranchKind::IfNotSubstituted) {
            Ok(x) => r matches Ok(y) && y@ == x,
            Err(e) => r matches Err(f) && f.kind == e && f.message@ == spec_branch_message(
                cmd@,
                char_index_at(cmd@, pos as int),
            ),
        },
{
    branch_at(cmd, pos, BranchKind::IfNotSubstituted)
}

} // verus!
