//! Command groups `[range]{cmd; cmd; ...}`.
use vstd::prelude::*;
use crate::command::{Command, SCommand, SRange, commands_view, opt_range_view};
use crate::parser::address::{parse_optional_range_chars, range_malformed, spec_parse_optional_range, spec_range_malformed};
use crate::parser::commands::{find_cmd_index, spec_cmd_index};
use crate::parser::errors::{ParseError, ParseErrorKind, format_error_chars, spec_format_parse_error};
use crate::parser::{parse_single_chars, spec_parse_single_command};
use crate::text::{
    Encoded, chars_of, char_index_at, char_index_of_byte, find_char_exec, find_from, is_char_start,
    lemma_find_from, lemma_trim_len, slice_of, trim, trim_vec,
};

verus! {

/// Index of the `}` that closes a group whose body starts at `i`, with `depth`
/// groups open.
pub open spec fn close_scan(s: Seq<char>, i: int, depth: int) -> Option<int>
    decreases s.len() - i,
{
    if i < 0 || i >= s.len() {
        None
    } else if s[i] == '{' {
        close_scan(s, i + 1, depth + 1)
    } else if s[i] == '}' {
        if depth - 1 == 0 { Some(i) } else { close_scan(s, i + 1, depth - 1) }
    } else {
        close_scan(s, i + 1, depth)
    }
}

pub proof fn lemma_close_scan(s: Seq<char>, i: int, depth: int)
    requires
        0 <= i,
    ensures
        close_scan(s, i, depth) matches Some(j) ==> i <= j < s.len(),
    decreases s.len() - i,
{
    if i < s.len() {
        lemma_close_scan(s, i + 1, depth + 1);
        lemma_close_scan(s, i + 1, depth - 1);
        lemma_close_scan(s, i + 1, depth);
    }
}

fn find_group_close(s: &Vec<char>, from: usize) -> (r: Option<usize>)
    requires
        1 <= from <= s@.len(),
    ensures
        match close_scan(s@, from as int, 1) {
            Some(j) => r == Some(j as usize),
            None => r is None,
        },
        r matches Some(j) ==> from <= j < s@.len(),
{
    proof { lemma_close_scan(s@, from as int, 1); }
    let n = s.len();
    let mut i = from;
    let mut depth: usize = 1;
    while i < n
        invariant
            from <= i <= n == s@.len(),
            1 <= from,
            1 <= depth <= i - from + 1,
            close_scan(s@, from as int, 1) == close_scan(s@, i as int, depth as int),
        decreases n - i,
    {
        let c = s[i];
        if c == '{' {
            depth += 1;
        } else if c == '}' {
            if depth == 1 {
                return Some(i);
            }
            depth -= 1;
        }
        i += 1;
    }
    None
}

/// The commands of a group body from index `i` on: the body is split at each
/// `;`, and every nonempty trimmed piece is parsed in turn.
pub open spec fn spec_group_cmds(s: Seq<char>, i: int) -> Result<Seq<SCommand>, ParseErrorKind>
    decreases s.len(), 2int, s.len() - i,
{
    if i < 0 || i > s.len() {
        Ok(Seq::empty())
    } else {
        let j = match find_from(s, ';', i) { Some(j) => j, None => s.len() as int };
        proof {
            lemma_find_from(s, ';', i);
            lemma_trim_len(s.subrange(i, j));
        }
        let piece = trim(s.subrange(i, j));
        let head = if piece.len() == 0 {
            Ok(None)
        } else {
            match spec_parse_single_command(piece) {
                Ok(c) => Ok(Some(c)),
                Err(e) => Err(e),
            }
        };
        match head {
            Err(e) => Err(e),
            Ok(h) => {
                let rest = if j < s.len() { spec_group_cmds(s, j + 1) } else { Ok(Seq::empty()) };
                match rest {
                    Err(e) => Err(e),
                    Ok(cs) => Ok(match h { Some(c) => seq![c] + cs, None => cs }),
                }
            }
        }
    }
}

/// What a group whose `{` is the character with index `k` parses to.
pub open spec fn spec_parse_group_at(s: Seq<char>, k: int) -> Result<SCommand, ParseErrorKind>
    decreases s.len(), 0int, 0int,
{
    if k < 0 || k >= s.len() || s[k] != '{' {
        Err(ParseErrorKind::NotGroup)
    } else {
        proof { lemma_close_scan(s, k + 1, 1); }
        match close_scan(s, k + 1, 1) {
            None => Err(ParseErrorKind::MissingGroupClose),
            Some(close) => {
                let ap = trim(s.take(k));
                let inner = trim(s.subrange(k + 1, close));
                proof { lemma_trim_len(s.subrange(k + 1, close)); }
                if spec_range_malformed(ap) {
                    Err(ParseErrorKind::MalformedText)
                } else {
                    match spec_parse_optional_range(ap) {
                        Err(e) => Err(e),
                        Ok(range) => match spec_group_cmds(inner, 0) {
                            Err(e) => Err(e),
                            Ok(cmds) => if cmds.len() == 0 {
                                Err(ParseErrorKind::EmptyGroup)
                            } else {
                                Ok(SCommand::Group { commands: cmds, range })
                            },
                        },
                    }
                }
            }
        }
    }
}

proof fn lemma_commands_view_push(cs: Seq<Command>, c: Command)
    ensures
        commands_view(cs.push(c)) == commands_view(cs).push(c@),
{
    assert(cs.push(c).drop_last() =~= cs);
}

pub fn group_cmds_chars(s: &Vec<char>, start: usize, cmds: &mut Vec<Command>) -> (r: Result<(), ParseError>)
    requires
        start <= s@.len(),
    ensures
        match spec_group_cmds(s@, start as int) {
            Ok(cs) => r is Ok && commands_view(final(cmds)@) == commands_view(old(cmds)@) + cs,
            Err(k) => r matches Err(e) && e.kind == k,
        },
    decreases s@.len(), 2int, s@.len() - start,
{
    let n = s.len();
    let rest = slice_of(s, start, n);
    proof { lemma_find_from(rest@, ';', 0); }
    let j = match find_char_exec(&rest, ';') {
        Some(x) => start + x,
        None => n,
    };
    proof {
        lemma_find_from(rest@, ';', 0);
        lemma_find_from(s@, ';', start as int);
        lemma_find_from_shift(s@, ';', start as int);
        lemma_trim_len(s@.subrange(start as int, j as int));
    }
    let piece = trim_vec(&slice_of(s, start, j));
    let ghost old_cmds = cmds@;
    if piece.len() > 0 {
        match parse_single_chars(&piece) {
            Ok(c) => {
                cmds.push(c);
                proof { lemma_commands_view_push(old_cmds, c); }
            }
            Err(e) => { return Err(e); }
        }
    }
    let ghost mid = cmds@;
    if j < n {
        let r = group_cmds_chars(s, j + 1, cmds);
        proof {
            match spec_group_cmds(s@, j + 1) {
                Ok(cs) => {
                    if piece.len() > 0 {
                        assert(commands_view(old_cmds) + (seq![commands_view(mid).last()] + cs) =~= commands_view(mid) + cs);
                    } else {
                        assert(mid == old_cmds);
                    }
                }
                Err(_) => {}
            }
        }
        r
    } else {
        proof {
            if piece.len() > 0 {
                assert(commands_view(mid) =~= commands_view(old_cmds) + seq![commands_view(mid).last()]);
            } else {
                assert(commands_view(mid) =~= commands_view(old_cmds) + Seq::<SCommand>::empty());
            }
        }
        Ok(())
    }
}

proof fn lemma_find_from_shift(s: Seq<char>, c: char, start: int)
    requires
        0 <= start <= s.len(),
    ensures
        match find_from(s.skip(start), c, 0) {
            Some(x) => find_from(s, c, start) == Some(x + start),
            None => find_from(s, c, start) is None,
        },
{
    lemma_find_from(s.skip(start), c, 0);
    lemma_find_from(s, c, start);
    let t = s.skip(start);
    match find_from(t, c, 0) {
        Some(x) => {
            assert(s[x + start] == c);
            match find_from(s, c, start) {
                Some(y) => {
                    if y < x + start { assert(t[y - start] == c); }
                }
                None => {}
            }
        }
        None => {
            match find_from(s, c, start) {
                Some(y) => { assert(t[y - start] == c); }
                None => {}
            }
        }
    }
}

pub open spec fn group_close_hint() -> Seq<char> {
    "Every opening '{' must have a matching closing '}'.\nExample: {s/foo/bar/; p}\n                      ^ (add closing brace here)"@
}

pub open spec fn group_empty_hint() -> Seq<char> {
    "Add commands separated by semicolons:\n  {s/foo/bar/; p}  - valid\n  {}                - invalid (empty)"@
}

pub open spec fn group_open_hint() -> Seq<char> {
    "Group format: [range] { command1; command2; ... }\nExample: {s/foo/bar/; s/baz/qux/}\n         1,10{s/^/> /}"@
}

/// The byte position of character index `k` of `s` (the end when `k` is
/// past it).
pub open spec fn byte_pos(s: Seq<char>, k: int) -> nat {
    if k < s.len() { crate::text::byte_len(s.take(k)) } else { crate::text::byte_len(s) }
}

/// The message of the error `spec_parse_group_at` gives for `s` and `k`,
/// unless the error comes from a command inside the group (none then: that
/// command's own message is kept).
pub open spec fn spec_group_message(s: Seq<char>, k: int) -> Option<Seq<char>> {
    if k < 0 || k >= s.len() || s[k] != '{' {
        Some("expected group command at position "@ + crate::text::decimal(byte_pos(s, k)))
    } else {
        match close_scan(s, k + 1, 1) {
            None => Some(spec_format_parse_error(s, None, "group command is missing closing '}'"@, Some(group_close_hint()))),
            Some(close) => {
                let ap = trim(s.take(k));
                if spec_range_malformed(ap) {
                    Some(spec_format_parse_error(s, None, "malformed address text"@, None))
                } else if spec_parse_optional_range(ap) is Err {
                    Some(crate::parser::address::spec_range_message(ap))
                } else {
                    match spec_group_cmds(trim(s.subrange(k + 1, close)), 0) {
                        Err(_) => None,
                        Ok(_) => Some(spec_format_parse_error(
                            s,
                            None,
                            "empty group: no commands inside braces"@,
                            Some(group_empty_hint()),
                        )),
                    }
                }
            },
        }
    }
}

fn group_hint(which: u8) -> (h: &'static str)
    ensures
        which == 0 ==> h@ == group_close_hint(),
        which == 1 ==> h@ == group_empty_hint(),
        which == 2 ==> h@ == group_open_hint(),
{
    if which == 0 {
        "Every opening '{' must have a matching closing '}'.\nExample: {s/foo/bar/; p}\n                      ^ (add closing brace here)"
    } else if which == 1 {
        "Add commands separated by semicolons:\n  {s/foo/bar/; p}  - valid\n  {}                - invalid (empty)"
    } else {
        "Group format: [range] { command1; command2; ... }\nExample: {s/foo/bar/; s/baz/qux/}\n         1,10{s/^/> /}"
    }
}

fn byte_pos_exec(s: &Vec<char>, k: usize) -> (p: usize)
    ensures
        p == byte_pos(s@, k as int),
{
    let n = s.len();
    let m = if k < n { k } else { n };
    let b = crate::text::encode_chars(&slice_of(s, 0, m));
    assert(s@.subrange(0, m as int) =~= s@.take(m as int));
    assert(s@.take(n as int) =~= s@);
    b.len()
}

fn at_position(lead: &str, pos: usize) -> (m: String)
    ensures
        m@ == lead@ + crate::text::decimal(pos as nat),
{
    let mut m = crate::text::str_to_string(lead);
    let d = crate::text::usize_to_string(pos);
    crate::text::push_str(&mut m, d.as_str());
    m
}

pub fn parse_group_at_chars(s: &Vec<char>, k: usize) -> (r: Result<Command, ParseError>)
    ensures
        match spec_parse_group_at(s@, k as int) {
            Ok(x) => r matches Ok(y) && y@ == x,
            Err(e) => r matches Err(f) && f.kind == e,
        },
        r matches Err(f) ==> (spec_group_message(s@, k as int) matches Some(m) ==> f.message@ == m),
    decreases s@.len(), 0int, 0int,
{
    let n = s.len();
    if k >= n || s[k] != '{' {
        let msg = at_position("expected group command at position ", byte_pos_exec(s, k));
        return Err(ParseError { kind: ParseErrorKind::NotGroup, message: msg });
    }
    let close = match find_group_close(s, k + 1) {
        None => {
            let msg = format_error_chars(s, None, "group command is missing closing '}'", Some(group_hint(0)));
            return Err(ParseError { kind: ParseErrorKind::MissingGroupClose, message: msg });
        }
        Some(c) => c,
    };
    let before = slice_of(s, 0, k);
    assert(before@ =~= s@.take(k as int));
    let ap = trim_vec(&before);
    let body = slice_of(s, k + 1, close);
    let inner = trim_vec(&body);
    proof { lemma_trim_len(s@.subrange(k + 1, close as int)); }
    if range_malformed(&ap) {
        let msg = format_error_chars(s, None, "malformed address text", None);
        return Err(ParseError { kind: ParseErrorKind::MalformedText, message: msg });
    }
    let range = match parse_optional_range_chars(&ap) {
        Ok(r) => r,
        Err(e) => { return Err(e); }
    };
    let mut commands: Vec<Command> = Vec::new();
    proof { lemma_close_scan(s@, k + 1, 1); }
    match group_cmds_chars(&inner, 0, &mut commands) {
        Ok(()) => {}
        Err(e) => { return Err(e); }
    }
    assert(commands_view(Seq::<Command>::empty()) =~= Seq::<SCommand>::empty());
    if commands.len() == 0 {
        proof {
            match spec_group_cmds(inner@, 0) {
                Ok(cs) => { assert(commands_view(commands@).len() == cs.len()); lemma_commands_view_len(commands@); }
                Err(_) => {}
            }
        }
        let msg = format_error_chars(s, None, "empty group: no commands inside braces", Some(group_hint(1)));
        return Err(ParseError { kind: ParseErrorKind::EmptyGroup, message: msg });
    }
    proof {
        lemma_commands_view_len(commands@);
    }
    Ok(Command::Group { range, commands })
}

pub proof fn lemma_commands_view_len(cs: Seq<Command>)
    ensures
        commands_view(cs).len() == cs.len(),
    decreases cs.len(),
{
    if cs.len() > 0 {
        lemma_commands_view_len(cs.drop_last());
        assert(commands_view(cs) == commands_view(cs.drop_last()).push(cs.last()@));
    } else {
        assert(commands_view(cs) == Seq::<SCommand>::empty());
    }
}

/// A group whose `{` is at byte position `pos`; a position that is not the
/// start of a character is refused.
pub open spec fn spec_parse_group_at_byte(s: Seq<char>, pos: int) -> Result<SCommand, ParseErrorKind> {
    if exists|k: int| is_char_start(s, pos, k) {
        spec_parse_group_at(s, char_index_at(s, pos))
    } else {
        Err(ParseErrorKind::InvalidGroupPosition)
    }
}

/// Parse a group whose `{` is at byte position `pos`.
pub fn parse_group_at(cmd: &str, pos: usize) -> (r: Result<Command, ParseError>)
    ensures
        match spec_parse_group_at_byte(cmd@, pos as int) {
            Ok(x) => r matches Ok(y) && y@ == x,
            Err(e) => r matches Err(f) && f.kind == e,
        },
        r matches Err(f) ==> if exists|k: int| is_char_start(cmd@, pos as int, k) {
            spec_group_message(cmd@, char_index_at(cmd@, pos as int)) matches Some(m) ==> f.message@ == m
        } else {
            f.message@ == "invalid group command position "@ + crate::text::decimal(pos as nat)
        },
{
    let e = Encoded::new(chars_of(cmd));
    match char_index_of_byte(&e, pos) {
        None => {
            let msg = at_position("invalid group command position ", pos);
            Err(ParseError { kind: ParseErrorKind::InvalidGroupPosition, message: msg })
        }
        Some(k) => parse_group_at_chars(&e.chars, k),
    }
}

/// What a group command parses to: its `{` is located by the command
/// character search on the trimmed text.
pub open spec fn spec_parse_group(cmd: Seq<char>) -> Result<SCommand, ParseErrorKind> {
    let t = trim(cmd);
    match spec_cmd_index(t) {
        None => Err(ParseErrorKind::MissingGroupOpen),
        Some(k) => if t[k] != '{' { Err(ParseErrorKind::NotGroup) } else { spec_parse_group_at(t, k) },
    }
}

/// Parse a group command.
/// The message of the error `spec_parse_group` gives for `cmd`, unless it
/// comes from a command inside the group.
pub open spec fn spec_parse_group_message(cmd: Seq<char>) -> Option<Seq<char>> {
    let t = trim(cmd);
    match spec_cmd_index(t) {
        None => Some(spec_format_parse_error(t, None, "group command is missing opening '{'"@, Some(group_open_hint()))),
        Some(k) => if t[k] != '{' {
            Some("expected group command but found '"@ + seq![t[k]] + "' at position "@ + crate::text::decimal(
                byte_pos(t, k),
            ))
        } else {
            spec_group_message(t, k)
        },
    }
}

pub fn parse_group(cmd: &str) -> (r: Result<Command, ParseError>)
    ensures
        match spec_parse_group(cmd@) {
            Ok(x) => r matches Ok(y) && y@ == x,
            Err(e) => r matches Err(f) && f.kind == e,
        },
        r matches Err(f) ==> (spec_parse_group_message(cmd@) matches Some(m) ==> f.message@ == m),
{
    let t = trim_vec(&chars_of(cmd));
    let e = Encoded::new(slice_of(&t, 0, t.len()));
    assert(t@.subrange(0, t@.len() as int) =~= t@);
    assert(e.chars@ == t@);
    match find_cmd_index(&e) {
        None => {
            let msg = format_error_chars(&t, None, "group command is missing opening '{'", Some(group_hint(2)));
            Err(ParseError { kind: ParseErrorKind::MissingGroupOpen, message: msg })
        }
        Some(k) => {
            if t[k] != '{' {
                let mut lead = crate::text::str_to_string("expected group command but found '");
                crate::text::push_char(&mut lead, t[k]);
                crate::text::push_str(&mut lead, "' at position ");
                let msg = at_position(lead.as_str(), byte_pos_exec(&t, k));
                return Err(ParseError { kind: ParseErrorKind::NotGroup, message: msg });
            }
            parse_group_at_chars(&t, k)
        }
    }
}

} // verus!
