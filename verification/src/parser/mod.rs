//! The sed expression parser.
pub mod errors;
pub mod io;
pub mod address;
pub mod commands;
pub mod flow;
pub mod substitution;
pub mod group;

use vstd::prelude::*;
use crate::bre_converter::{bre_to_pcre, convert_bre_to_pcre, convert_sed_backreferences, sed_backrefs};
use crate::cli::RegexFlavor;
use crate::command::{Command, SCommand, commands_view};
use crate::ere_converter::{convert_ere_backreferences, convert_ere_to_pcre_pattern};
use crate::parser::commands::{
    find_cmd_index, spec_cmd_index, spec_parse_append, spec_parse_change, spec_parse_clear_pattern_space,
    spec_parse_delete, spec_parse_delete_first_line, spec_parse_exchange, spec_parse_get,
    spec_parse_get_append, spec_parse_hold, spec_parse_hold_append, spec_parse_insert, spec_parse_next,
    spec_parse_next_append, spec_parse_print, spec_parse_print_filename, spec_parse_print_first_line,
    spec_parse_print_line_number, spec_parse_quit, spec_parse_quit_without_print,
};
use crate::parser::errors::{ParseError, ParseErrorKind, format_error_chars, spec_format_parse_error};
use crate::parser::flow::{BranchKind, parse_branch_chars, parse_label_chars, spec_parse_branch_like, spec_parse_label};
use crate::parser::group::{parse_group_at_chars, spec_parse_group_at};
use crate::parser::io::{IoKind, spec_parse_io};
use crate::parser::substitution::{parse_substitution_chars, spec_parse_substitution};
use crate::text::{
    Encoded, byte_len, chars_of, is_whitespace, str_to_string, lemma_byte_len_mono, lemma_trim_idem, lemma_trim_len, rtrim, slice_of, string_of, trim,
    trim_vec, width,
};

verus! {

/// What a command other than a group parses to, given the trimmed text `t`
/// and the index `k` of its command character.
pub open spec fn spec_simple_command(t: Seq<char>, k: int) -> Result<SCommand, ParseErrorKind> {
    let c = t[k];
    if c == 's' {
        spec_parse_substitution(t)
    } else if c == 'i' {
        spec_parse_insert(t)
    } else if c == 'a' {
        spec_parse_append(t)
    } else if c == 'c' {
        spec_parse_change(t)
    } else if c == 'd' {
        spec_parse_delete(t)
    } else if c == 'p' {
        spec_parse_print(t)
    } else if c == 'q' {
        spec_parse_quit(t)
    } else if c == 'Q' {
        spec_parse_quit_without_print(t)
    } else if c == 'h' {
        spec_parse_hold(t)
    } else if c == 'H' {
        spec_parse_hold_append(t)
    } else if c == 'g' {
        spec_parse_get(t)
    } else if c == 'G' {
        spec_parse_get_append(t)
    } else if c == 'x' {
        spec_parse_exchange(t)
    } else if c == 'n' {
        spec_parse_next(t)
    } else if c == 'N' {
        spec_parse_next_append(t)
    } else if c == 'P' {
        spec_parse_print_first_line(t)
    } else if c == 'D' {
        spec_parse_delete_first_line(t)
    } else if c == ':' {
        if width(t[0]) == 1 { spec_parse_label(t) } else { Err(ParseErrorKind::MalformedText) }
    } else if c == 'b' {
        spec_parse_branch_like(t, k, BranchKind::Always)
    } else if c == 't' {
        spec_parse_branch_like(t, k, BranchKind::IfSubstituted)
    } else if c == 'T' {
        spec_parse_branch_like(t, k, BranchKind::IfNotSubstituted)
    } else if c == '=' {
        spec_parse_print_line_number(t)
    } else if c == 'F' {
        spec_parse_print_filename(t)
    } else if c == 'z' {
        spec_parse_clear_pattern_space(t)
    } else if c == 'r' {
        spec_parse_io(t, IoKind::ReadFile)
    } else if c == 'R' {
        spec_parse_io(t, IoKind::ReadLine)
    } else if c == 'w' {
        spec_parse_io(t, IoKind::WriteFile)
    } else if c == 'W' {
        spec_parse_io(t, IoKind::WriteFirstLine)
    } else {
        Err(ParseErrorKind::UnknownCommand)
    }
}

/// The message of the error `spec_simple_command` gives for `t` and `k`.
pub open spec fn spec_simple_message(t: Seq<char>, k: int) -> Seq<char> {
    let c = t[k];
    if c == 's' {
        crate::parser::substitution::spec_substitution_message(t)
    } else if c == 'i' {
        crate::parser::commands::spec_text_command_message(t, 'i', "insert"@)
    } else if c == 'a' {
        crate::parser::commands::spec_text_command_message(t, 'a', "append"@)
    } else if c == 'c' {
        crate::parser::commands::spec_text_command_message(t, 'c', "change"@)
    } else if c == 'd' {
        crate::parser::commands::prefix_range_message(t, "Delete command missing 'd'"@)
    } else if c == 'p' {
        crate::parser::commands::prefix_range_message(t, "Print command missing 'p'"@)
    } else if c == 'q' {
        crate::parser::commands::prefix_address_message(t, "Quit command missing 'q'"@)
    } else if c == 'Q' {
        crate::parser::commands::prefix_address_message(t, "Quit without print command missing 'Q'"@)
    } else if c == 'h' {
        crate::parser::commands::prefix_range_message(t, "Hold command missing 'h'"@)
    } else if c == 'H' {
        crate::parser::commands::prefix_range_message(t, "Hold append command missing 'H'"@)
    } else if c == 'g' {
        crate::parser::commands::prefix_range_message(t, "Get command missing 'g'"@)
    } else if c == 'G' {
        crate::parser::commands::prefix_range_message(t, "Get append command missing 'G'"@)
    } else if c == 'x' {
        crate::parser::commands::prefix_range_message(t, "Exchange command missing 'x'"@)
    } else if c == 'n' {
        crate::parser::commands::prefix_range_message(t, "Next command missing 'n'"@)
    } else if c == 'N' {
        crate::parser::commands::prefix_range_message(t, "Next append command missing 'N'"@)
    } else if c == 'P' {
        crate::parser::commands::prefix_range_message(t, "Print first line command missing 'P'"@)
    } else if c == 'D' {
        crate::parser::commands::prefix_range_message(t, "Delete first line command missing 'D'"@)
    } else if c == '=' {
        crate::parser::commands::prefix_address_message(t, "Print line number command missing '='"@)
    } else if c == 'F' {
        crate::parser::commands::prefix_address_message(t, "Print filename command missing 'F'"@)
    } else if c == 'z' {
        crate::parser::commands::prefix_address_message(t, "Clear pattern space command missing 'z'"@)
    } else if c == ':' {
        if width(t[0]) == 1 {
            crate::parser::flow::spec_label_message(t)
        } else {
            spec_format_parse_error(t, None, "malformed label definition"@, None)
        }
    } else if c == 'b' || c == 't' || c == 'T' {
        crate::parser::flow::spec_branch_message(t, k)
    } else if c == 'r' {
        crate::parser::io::spec_io_message(t, IoKind::ReadFile)
    } else if c == 'R' {
        crate::parser::io::spec_io_message(t, IoKind::ReadLine)
    } else if c == 'w' {
        crate::parser::io::spec_io_message(t, IoKind::WriteFile)
    } else if c == 'W' {
        crate::parser::io::spec_io_message(t, IoKind::WriteFirstLine)
    } else {
        spec_format_parse_error(
            t,
            crate::parser::address::error_at(byte_len(t.take(k)) as int),
            "unknown command character '"@ + seq![c] + "'"@,
            Some(commands_hint()),
        )
    }
}

/// What one command parses to: the text is trimmed, its command character
/// is located, and the parser for that character is applied.
pub open spec fn spec_parse_single_command(s: Seq<char>) -> Result<SCommand, ParseErrorKind>
    decreases s.len(), 1int, 0int,
{
    let t = trim(s);
    proof { lemma_trim_len(s); }
    if t.len() == 0 {
        Err(ParseErrorKind::EmptyCommand)
    } else {
        match spec_cmd_index(t) {
            None => Err(ParseErrorKind::UnknownCommand),
            Some(k) => if 0 <= k < t.len() && t[k] == '{' {
                spec_parse_group_at(t, k)
            } else {
                spec_simple_command(t, k)
            },
        }
    }
}

fn commands_hint_exec() -> (s: &'static str)
    ensures
        s@ == commands_hint(),
{
    "Valid commands include: s, d, p, q, i, a, c, h, g, x, n, b, t, etc."
}

fn simple_command(t: &Vec<char>, k: usize) -> (r: Result<Command, ParseError>)
    requires
        k < t@.len(),
        t@ == trim(t@),
        t@.len() > 0,
    ensures
        match spec_simple_command(t@, k as int) {
            Ok(x) => r matches Ok(y) && y@ == x,
            Err(e) => r matches Err(f) && f.kind == e && f.message@ == spec_simple_message(t@, k as int),
        },
{
    let c = t[k];
    let owned = string_of(t);
    let s = owned.as_str();
    if c == 's' {
        parse_substitution_chars(t)
    } else if c == 'i' {
        commands::parse_insert(s)
    } else if c == 'a' {
        commands::parse_append(s)
    } else if c == 'c' {
        commands::parse_change(s)
    } else if c == 'd' {
        commands::parse_delete(s)
    } else if c == 'p' {
        commands::parse_print(s)
    } else if c == 'q' {
        commands::parse_quit(s)
    } else if c == 'Q' {
        commands::parse_quit_without_print(s)
    } else if c == 'h' {
        commands::parse_hold(s)
    } else if c == 'H' {
        commands::parse_hold_append(s)
    } else if c == 'g' {
        commands::parse_get(s)
    } else if c == 'G' {
        commands::parse_get_append(s)
    } else if c == 'x' {
        commands::parse_exchange(s)
    } else if c == 'n' {
        commands::parse_next(s)
    } else if c == 'N' {
        commands::parse_next_append(s)
    } else if c == 'P' {
        commands::parse_print_first_line(s)
    } else if c == 'D' {
        commands::parse_delete_first_line(s)
    } else if c == ':' {
        if crate::text::char_width(t[0]) == 1 {
            parse_label_chars(t)
        } else {
            let msg = format_error_chars(t, None, "malformed label definition", None);
            Err(ParseError { kind: ParseErrorKind::MalformedText, message: msg })
        }
    } else if c == 'b' {
        parse_branch_chars(t, k, BranchKind::Always)
    } else if c == 't' {
        parse_branch_chars(t, k, BranchKind::IfSubstituted)
    } else if c == 'T' {
        parse_branch_chars(t, k, BranchKind::IfNotSubstituted)
    } else if c == '=' {
        commands::parse_print_line_number(s)
    } else if c == 'F' {
        commands::parse_print_filename(s)
    } else if c == 'z' {
        commands::parse_clear_pattern_space(s)
    } else if c == 'r' {
        io::parse_read_file(s)
    } else if c == 'R' {
        io::parse_read_line(s)
    } else if c == 'w' {
        io::parse_write_file(s)
    } else if c == 'W' {
        io::parse_write_first_line(s)
    } else {
        let pos = crate::text::encode_chars(&slice_of(t, 0, k)).len();
        let mut d = str_to_string("unknown command character '");
        crate::text::push_char(&mut d, c);
        crate::text::push_str(&mut d, "'");
        let at = if pos <= usize::MAX - crate::parser::errors::ERROR_CONTEXT_SIZE { Some(pos) } else { None };
        let msg = format_error_chars(t, at, d.as_str(), Some(commands_hint_exec()));
        Err(ParseError { kind: ParseErrorKind::UnknownCommand, message: msg })
    }
}

/// The hint that lists the command characters.
pub open spec fn commands_hint() -> Seq<char> {
    "Valid commands include: s, d, p, q, i, a, c, h, g, x, n, b, t, etc."@
}

/// The message for a command without a recognisable command character.
pub open spec fn missing_command_message(t: Seq<char>) -> Seq<char> {
    spec_format_parse_error(t, None, "unknown or missing command character"@, Some(commands_hint()))
}

/// Parse one command given as characters.
pub fn parse_single_chars(v: &Vec<char>) -> (r: Result<Command, ParseError>)
    ensures
        match spec_parse_single_command(v@) {
            Ok(x) => r matches Ok(y) && y@ == x,
            Err(e) => r matches Err(f) && f.kind == e,
        },
        trim(v@).len() == 0 ==> (r matches Err(f) && f.message@ == "Empty command"@),
        trim(v@).len() > 0 && spec_cmd_index(trim(v@)) is None ==> (r matches Err(f)
            && f.message@ == missing_command_message(trim(v@))),
        r matches Err(f) ==> match spec_cmd_index(trim(v@)) {
            Some(k) => trim(v@).len() > 0 ==> if trim(v@)[k] != '{' {
                f.message@ == spec_simple_message(trim(v@), k)
            } else {
                crate::parser::group::spec_group_message(trim(v@), k) matches Some(m) ==> f.message@ == m
            },
            None => true,
        },
    decreases v@.len(), 1int, 0int,
{
    let t = trim_vec(v);
    proof {
        lemma_trim_len(v@);
        lemma_trim_idem(v@);
    }
    if t.len() == 0 {
        return Err(ParseError { kind: ParseErrorKind::EmptyCommand, message: str_to_string("Empty command") });
    }
    let e = Encoded::new(slice_of(&t, 0, t.len()));
    assert(t@.subrange(0, t@.len() as int) =~= t@);
    assert(e.chars@ == t@);
    match find_cmd_index(&e) {
        None => {
            let msg = format_error_chars(&t, None, "unknown or missing command character", Some(commands_hint_exec()));
            Err(ParseError { kind: ParseErrorKind::UnknownCommand, message: msg })
        }
        Some(k) => {
            if t[k] == '{' {
                parse_group_at_chars(&t, k)
            } else {
                simple_command(&t, k)
            }
        }
    }
}

/// Parse one command: the text is trimmed, its command character located,
/// and the parser for that character applied.
pub fn parse_single_command(cmd: &str) -> (r: Result<Command, ParseError>)
    ensures
        match spec_parse_single_command(cmd@) {
            Ok(x) => r matches Ok(y) && y@ == x,
            Err(e) => r matches Err(f) && f.kind == e,
        },
        trim(cmd@).len() == 0 ==> (r matches Err(f) && f.message@ == "Empty command"@),
        trim(cmd@).len() > 0 && spec_cmd_index(trim(cmd@)) is None ==> (r matches Err(f)
            && f.message@ == missing_command_message(trim(cmd@))),
        r matches Err(f) ==> match spec_cmd_index(trim(cmd@)) {
            Some(k) => trim(cmd@).len() > 0 ==> if trim(cmd@)[k] != '{' {
                f.message@ == spec_simple_message(trim(cmd@), k)
            } else {
                crate::parser::group::spec_group_message(trim(cmd@), k) matches Some(m) ==> f.message@ == m
            },
            None => true,
        },
{
    parse_single_chars(&chars_of(cmd))
}

/// A pattern address may start here: the last non-blank character of the
/// text so far is absent, `,`, `{` or `;`.
pub open spec fn can_start_pattern(cur: Seq<char>) -> bool {
    let t = rtrim(cur);
    t.len() == 0 || t.last() == ',' || t.last() == '{' || t.last() == ';'
}

fn can_start_pattern_at(v: &Vec<char>, hi: usize) -> (b: bool)
    requires
        hi <= v@.len(),
    ensures
        b == can_start_pattern(v@.take(hi as int)),
{
    let mut j = hi;
    while j > 0 && is_whitespace(v[j - 1])
        invariant
            j <= hi <= v@.len(),
            rtrim(v@.take(hi as int)) == rtrim(v@.take(j as int)),
        decreases j,
    {
        assert(v@.take(j as int).drop_last() =~= v@.take(j - 1));
        j -= 1;
    }
    assert(rtrim(v@.take(j as int)) == v@.take(j as int)) by {
        if j > 0 {
            assert(v@.take(j as int).last() == v@[j - 1]);
        }
    }
    j == 0 || v[j - 1] == ',' || v[j - 1] == '{' || v[j - 1] == ';'
}

/// Whether a pattern address may start after `current_expr`.
pub fn can_start_pattern_address(current_expr: &str) -> (b: bool)
    ensures
        b == can_start_pattern(current_expr@),
{
    let v = chars_of(current_expr);
    assert(v@.take(v@.len() as int) =~= v@);
    can_start_pattern_at(&v, v.len())
}

/// The delimiters a substitution may use.
pub open spec fn is_substitution_delimiter(c: char) -> bool {
    c == '/' || c == '#' || c == ':' || c == '|'
}

/// Scan for the start of the last command: the index after the last `{` or
/// `;` that is outside every pattern address.
pub open spec fn prefix_scan(s: Seq<char>, j: int, pat: Option<char>, esc: bool, start: int) -> int
    decreases s.len() - j,
{
    if j < 0 || j >= s.len() {
        start
    } else {
        let c = s[j];
        match pat {
            Some(d) => if esc {
                prefix_scan(s, j + 1, pat, false, start)
            } else if c == '\\' {
                prefix_scan(s, j + 1, pat, true, start)
            } else if c == d {
                prefix_scan(s, j + 1, None, false, start)
            } else {
                prefix_scan(s, j + 1, pat, esc, start)
            },
            None => if can_start_pattern(s.take(j)) && c == '/' {
                prefix_scan(s, j + 1, Some('/'), esc, start)
            } else if can_start_pattern(s.take(j)) && c == '\\' && j + 1 < s.len() {
                prefix_scan(s, j + 2, Some(s[j + 1]), esc, start)
            } else if c == '{' || c == ';' {
                prefix_scan(s, j + 1, None, esc, j + 1)
            } else {
                prefix_scan(s, j + 1, None, esc, start)
            },
        }
    }
}

/// Character index where the command that `s` ends in begins.
pub open spec fn spec_command_prefix_start(s: Seq<char>) -> int {
    prefix_scan(s, 0, None, false, 0)
}

proof fn lemma_prefix_scan(s: Seq<char>, j: int, pat: Option<char>, esc: bool, start: int)
    requires
        0 <= start <= j,
        start <= s.len(),
    ensures
        0 <= prefix_scan(s, j, pat, esc, start) <= s.len(),
    decreases s.len() - j,
{
    if 0 <= j < s.len() {
        let c = s[j];
        match pat {
            Some(d) => {
                lemma_prefix_scan(s, j + 1, pat, false, start);
                lemma_prefix_scan(s, j + 1, pat, true, start);
                lemma_prefix_scan(s, j + 1, None, false, start);
                lemma_prefix_scan(s, j + 1, pat, esc, start);
            }
            None => {
                lemma_prefix_scan(s, j + 1, Some('/'), esc, start);
                if j + 1 < s.len() {
                    lemma_prefix_scan(s, j + 2, Some(s[j + 1]), esc, start);
                }
                lemma_prefix_scan(s, j + 1, None, esc, j + 1);
                lemma_prefix_scan(s, j + 1, None, esc, start);
            }
        }
    }
}

fn prefix_start_chars(v: &Vec<char>) -> (r: usize)
    ensures
        r == spec_command_prefix_start(v@),
        r <= v@.len(),
{
    proof { lemma_prefix_scan(v@, 0, None, false, 0); }
    let n = v.len();
    let mut start: usize = 0;
    let mut pat: Option<char> = None;
    let mut esc = false;
    let mut j: usize = 0;
    while j < n
        invariant
            n == v@.len(),
            start <= j <= n,
            spec_command_prefix_start(v@) == prefix_scan(v@, j as int, pat, esc, start as int),
        decreases n - j,
    {
        let c = v[j];
        match pat {
            Some(d) => {
                if esc {
                    esc = false;
                } else if c == '\\' {
                    esc = true;
                } else if c == d {
                    pat = None;
                    esc = false;
                }
                j += 1;
            }
            None => {
                let cs = can_start_pattern_at(v, j);
                if cs && c == '/' {
                    pat = Some('/');
                    j += 1;
                } else if cs && c == '\\' && j + 1 < n {
                    pat = Some(v[j + 1]);
                    j += 2;
                } else if c == '{' || c == ';' {
                    start = j + 1;
                    j += 1;
                } else {
                    j += 1;
                }
            }
        }
    }
    proof { lemma_prefix_scan(v@, j as int, pat, esc, start as int); }
    start
}

/// Byte index where the command that `current_expr` ends in begins: just
/// after its last `{` or `;` outside pattern addresses.
pub fn command_prefix_start_after_structural_separator(current_expr: &str) -> (r: usize)
    ensures
        r == byte_len(current_expr@.take(spec_command_prefix_start(current_expr@))),
{
    let e = Encoded::new(chars_of(current_expr));
    let k = prefix_start_chars(&e.chars);
    e.offs[k]
}

/// `s` followed by `delimiter` here starts a substitution: in the text of the
/// current command with `s` and the delimiter appended, the command character
/// is that `s`.
pub open spec fn spec_is_substitution_start(cur: Seq<char>, delimiter: char) -> bool {
    let p = cur.skip(spec_command_prefix_start(cur));
    spec_cmd_index(p + seq!['s', delimiter]) == Some(p.len() as int)
}

fn substitution_start_chars(cur: &Vec<char>, delimiter: char) -> (b: bool)
    ensures
        b == spec_is_substitution_start(cur@, delimiter),
{
    let k = prefix_start_chars(cur);
    let mut cand = slice_of(cur, k, cur.len());
    let plen = cand.len();
    assert(cand@ == cur@.skip(k as int));
    cand.push('s');
    cand.push(delimiter);
    assert(cand@ =~= cur@.skip(k as int) + seq!['s', delimiter]);
    let e = Encoded::new(cand);
    match find_cmd_index(&e) {
        Some(i) => i == plen,
        None => false,
    }
}

/// Whether `s` followed by `delimiter` after `current_expr` starts a
/// substitution command.
pub fn is_substitution_command_start(current_expr: &str, delimiter: char) -> (b: bool)
    ensures
        b == spec_is_substitution_start(current_expr@, delimiter),
{
    substitution_start_chars(&chars_of(current_expr), delimiter)
}

/// State of the scan that splits an expression into commands.
pub struct SplitState {
    /// Text of the command being collected.
    pub cur: Seq<char>,
    /// Number of `{` not yet closed.
    pub depth: nat,
    /// Delimiter of the pattern address being read, if any.
    pub pat: Option<char>,
    /// The previous character in the pattern address was a backslash.
    pub esc: bool,
    /// Inside a substitution: its delimiter, the number of its sections
    /// closed so far, and whether the previous character was a backslash.
    pub sub: Option<(char, nat, bool)>,
    /// Commands collected so far (trimmed, nonempty).
    pub pieces: Seq<Seq<char>>,
}

pub open spec fn initial_split() -> SplitState {
    SplitState { cur: Seq::empty(), depth: 0, pat: None, esc: false, sub: None, pieces: Seq::empty() }
}

/// `pieces` with the trimmed text `cur` added, if it is not empty.
pub open spec fn flush(pieces: Seq<Seq<char>>, cur: Seq<char>) -> Seq<Seq<char>> {
    if trim(cur).len() > 0 { pieces.push(trim(cur)) } else { pieces }
}

/// One step of the scan at index `i`: the next index and the next state.
pub open spec fn split_step(s: Seq<char>, i: int, st: SplitState) -> (int, SplitState) {
    let c = s[i];
    match st.sub {
        Some((d, closed, sesc)) => {
            let cur = st.cur.push(c);
            if sesc {
                (i + 1, SplitState { cur, sub: Some((d, closed, false)), ..st })
            } else if c == '\\' {
                (i + 1, SplitState { cur, sub: Some((d, closed, true)), ..st })
            } else if c == d {
                if closed + 1 == 2 {
                    (i + 1, SplitState { cur, sub: None, ..st })
                } else {
                    (i + 1, SplitState { cur, sub: Some((d, closed + 1, false)), ..st })
                }
            } else {
                (i + 1, SplitState { cur, ..st })
            }
        },
        None => match st.pat {
            Some(d) => {
                let cur = st.cur.push(c);
                if st.esc {
                    (i + 1, SplitState { cur, esc: false, ..st })
                } else if c == '\\' {
                    (i + 1, SplitState { cur, esc: true, ..st })
                } else if c == d {
                    (i + 1, SplitState { cur, pat: None, ..st })
                } else {
                    (i + 1, SplitState { cur, ..st })
                }
            },
            None => if can_start_pattern(st.cur) && c == '/' {
                (i + 1, SplitState { cur: st.cur.push(c), pat: Some('/'), ..st })
            } else if can_start_pattern(st.cur) && c == '\\' && i + 1 < s.len() {
                (i + 2, SplitState { cur: st.cur.push(c).push(s[i + 1]), pat: Some(s[i + 1]), ..st })
            } else if c == 's' && i + 1 < s.len() && is_substitution_delimiter(s[i + 1])
                && spec_is_substitution_start(st.cur, s[i + 1]) {
                (i + 2, SplitState { cur: st.cur.push(c).push(s[i + 1]), sub: Some((s[i + 1], 0, false)), ..st })
            } else if c == '{' {
                (i + 1, SplitState { cur: st.cur.push(c), depth: st.depth + 1, ..st })
            } else if c == '}' {
                (i + 1, SplitState {
                    cur: st.cur.push(c),
                    depth: if st.depth > 0 { (st.depth - 1) as nat } else { 0 },
                    ..st
                })
            } else if c == ';' && st.depth == 0 {
                (i + 1, SplitState { cur: Seq::empty(), pieces: flush(st.pieces, st.cur), ..st })
            } else {
                (i + 1, SplitState { cur: st.cur.push(c), ..st })
            },
        },
    }
}

/// The commands of `s` from index `i` on, split at each `;` outside braces,
/// pattern addresses and substitutions.
pub open spec fn split_from(s: Seq<char>, i: int, st: SplitState) -> Seq<Seq<char>>
    decreases s.len() - i,
{
    if i < 0 || i >= s.len() {
        flush(st.pieces, st.cur)
    } else {
        let (j, next) = split_step(s, i, st);
        if j <= i { st.pieces } else { split_from(s, j, next) }
    }
}

/// The command texts of an expression.
pub open spec fn spec_split_expression(s: Seq<char>) -> Seq<Seq<char>> {
    split_from(s, 0, initial_split())
}

/// Every command text parsed in turn; the first error wins.
pub open spec fn spec_parse_all(ps: Seq<Seq<char>>) -> Result<Seq<SCommand>, ParseErrorKind>
    decreases ps.len(),
{
    if ps.len() == 0 {
        Ok(Seq::empty())
    } else {
        match spec_parse_single_command(ps[0]) {
            Err(e) => Err(e),
            Ok(c) => match spec_parse_all(ps.drop_first()) {
                Err(e) => Err(e),
                Ok(cs) => Ok(seq![c] + cs),
            },
        }
    }
}

/// The message of the error one command gives, unless it comes from a
/// command inside a group (none then).
pub open spec fn spec_single_message(s: Seq<char>) -> Option<Seq<char>> {
    let t = trim(s);
    if t.len() == 0 {
        Some("Empty command"@)
    } else {
        match spec_cmd_index(t) {
            None => Some(missing_command_message(t)),
            Some(k) => if t[k] != '{' {
                Some(spec_simple_message(t, k))
            } else {
                crate::parser::group::spec_group_message(t, k)
            },
        }
    }
}

/// The message of the first command of `ps` that fails (see
/// `spec_single_message`).
pub open spec fn spec_first_failure_message(ps: Seq<Seq<char>>) -> Option<Seq<char>>
    decreases ps.len(),
{
    if ps.len() == 0 {
        None
    } else if spec_parse_single_command(ps[0]) is Err {
        spec_single_message(ps[0])
    } else {
        spec_first_failure_message(ps.drop_first())
    }
}

/// What an expression parses to.
pub open spec fn spec_parse_sed_expression(s: Seq<char>) -> Result<Seq<SCommand>, ParseErrorKind> {
    spec_parse_all(spec_split_expression(s))
}

pub open spec fn pieces_view(ps: Seq<Vec<char>>) -> Seq<Seq<char>> {
    ps.map_values(|p: Vec<char>| p@)
}

pub open spec fn sub_view(sub: Option<(char, u8, bool)>) -> Option<(char, nat, bool)> {
    match sub {
        Some((d, c, e)) => Some((d, c as nat, e)),
        None => None,
    }
}

fn flush_exec(pieces: &mut Vec<Vec<char>>, cur: &Vec<char>)
    ensures
        pieces_view(final(pieces)@) == flush(pieces_view(old(pieces)@), cur@),
{
    let t = trim_vec(cur);
    if t.len() > 0 {
        let ghost old_p = pieces@;
        pieces.push(t);
        assert(pieces_view(pieces@) =~= pieces_view(old_p).push(t@));
    }
}

fn split_expression(v: &Vec<char>) -> (r: Vec<Vec<char>>)
    ensures
        pieces_view(r@) == spec_split_expression(v@),
{
    let n = v.len();
    let mut pieces: Vec<Vec<char>> = Vec::new();
    let mut cur: Vec<char> = Vec::new();
    let mut depth: usize = 0;
    let mut pat: Option<char> = None;
    let mut esc = false;
    let mut sub: Option<(char, u8, bool)> = None;
    let mut i: usize = 0;
    assert(pieces_view(pieces@) =~= Seq::<Seq<char>>::empty());
    while i < n
        invariant
            n == v@.len(),
            i <= n,
            depth <= i,
            sub matches Some((d, c, e)) ==> c < 2,
            spec_split_expression(v@) == split_from(v@, i as int, SplitState {
                cur: cur@, depth: depth as nat, pat, esc, sub: sub_view(sub), pieces: pieces_view(pieces@),
            }),
        decreases n - i,
    {
        let c = v[i];
        match sub {
            Some((d, closed, sesc)) => {
                cur.push(c);
                if sesc {
                    sub = Some((d, closed, false));
                } else if c == '\\' {
                    sub = Some((d, closed, true));
                } else if c == d {
                    if closed + 1 == 2 {
                        sub = None;
                    } else {
                        sub = Some((d, closed + 1, false));
                    }
                }
                i += 1;
            }
            None => {
                match pat {
                    Some(d) => {
                        cur.push(c);
                        if esc {
                            esc = false;
                        } else if c == '\\' {
                            esc = true;
                        } else if c == d {
                            pat = None;
                        }
                        i += 1;
                    }
                    None => {
                        let cs = can_start_pattern_at(&cur, cur.len());
                        assert(cur@.take(cur@.len() as int) =~= cur@);
                        if cs && c == '/' {
                            cur.push(c);
                            pat = Some('/');
                            i += 1;
                        } else if cs && c == '\\' && i + 1 < n {
                            let d = v[i + 1];
                            cur.push(c);
                            cur.push(d);
                            pat = Some(d);
                            i += 2;
                        } else if c == 's' && i + 1 < n && (v[i + 1] == '/' || v[i + 1] == '#' || v[i + 1] == ':'
                            || v[i + 1] == '|') && substitution_start_chars(&cur, v[i + 1]) {
                            let d = v[i + 1];
                            cur.push(c);
                            cur.push(d);
                            sub = Some((d, 0, false));
                            i += 2;
                        } else if c == '{' {
                            cur.push(c);
                            depth += 1;
                            i += 1;
                        } else if c == '}' {
                            cur.push(c);
                            if depth > 0 {
                                depth -= 1;
                            }
                            i += 1;
                        } else if c == ';' && depth == 0 {
                            flush_exec(&mut pieces, &cur);
                            cur = Vec::new();
                            i += 1;
                        } else {
                            cur.push(c);
                            i += 1;
                        }
                    }
                }
            }
        }
    }
    flush_exec(&mut pieces, &cur);
    pieces
}

fn parse_pieces(ps: &Vec<Vec<char>>) -> (r: Result<Vec<Command>, ParseError>)
    ensures
        match spec_parse_all(pieces_view(ps@)) {
            Ok(cs) => r matches Ok(v) && commands_view(v@) == cs,
            Err(e) => r matches Err(f) && f.kind == e,
        },
        r matches Err(f) ==> (spec_first_failure_message(pieces_view(ps@)) matches Some(m) ==> f.message@ == m),
{
    let mut out: Vec<Command> = Vec::new();
    let mut i: usize = 0;
    assert(commands_view(out@) =~= Seq::<SCommand>::empty());
    assert(pieces_view(ps@).skip(0) =~= pieces_view(ps@));
    proof {
        match spec_parse_all(pieces_view(ps@)) {
            Ok(cs) => { assert(commands_view(out@) + cs =~= cs); }
            Err(_) => {}
        }
    }
    while i < ps.len()
        invariant
            i <= ps@.len(),
            spec_parse_all(pieces_view(ps@)) == match spec_parse_all(pieces_view(ps@).skip(i as int)) {
                Err(e) => Err(e),
                Ok(cs) => Ok(commands_view(out@) + cs),
            },
            spec_first_failure_message(pieces_view(ps@)) == spec_first_failure_message(pieces_view(ps@).skip(i as int)),
        decreases ps@.len() - i,
    {
        let ghost rest = pieces_view(ps@).skip(i as int);
        assert(rest[0] == ps@[i as int]@);
        assert(rest.drop_first() =~= pieces_view(ps@).skip(i + 1));
        match parse_single_chars(&ps[i]) {
            Ok(c) => {
                let ghost before = out@;
                out.push(c);
                proof {
                    assert(commands_view(out@) == commands_view(before).push(c@)) by {
                        assert(out@.drop_last() =~= before);
                    }
                    match spec_parse_all(pieces_view(ps@).skip(i + 1)) {
                        Ok(cs) => {
                            assert(commands_view(before) + (seq![c@] + cs) =~= commands_view(out@) + cs);
                        }
                        Err(_) => {}
                    }
                }
            }
            Err(e) => {
                return Err(e);
            }
        }
        i += 1;
    }
    assert(pieces_view(ps@).skip(i as int) =~= Seq::<Seq<char>>::empty());
    assert(commands_view(out@) + Seq::<SCommand>::empty() =~= commands_view(out@));
    Ok(out)
}

/// Parse a sed expression into its commands: the text is split at each `;`
/// outside braces, pattern addresses and substitutions, and every nonempty
/// trimmed piece is parsed in turn.
pub fn parse_sed_expression(expr: &str) -> (r: Result<Vec<Command>, ParseError>)
    ensures
        match spec_parse_sed_expression(expr@) {
            Ok(cs) => r matches Ok(v) && commands_view(v@) == cs,
            Err(e) => r matches Err(f) && f.kind == e,
        },
        r matches Err(f) ==> (spec_first_failure_message(spec_split_expression(expr@)) matches Some(m) ==> f.message@ == m),
{
    let pieces = split_expression(&chars_of(expr));
    parse_pieces(&pieces)
}

/// State of the scan for the `}` that closes a group.
pub struct CloseScan {
    pub cur: Seq<char>,
    /// Braces open inside the tracked group, counting its own.
    pub depth: int,
    /// The group's `{` has been seen.
    pub tracking: bool,
    /// A `}` at the group's own level seen inside a substitution that never
    /// closed: the fallback answer.
    pub fallback: Option<int>,
    pub pat: Option<char>,
    pub esc: bool,
    pub sub: Option<(char, nat, bool)>,
}

/// The scan from index `i` on, for the group whose `{` is at byte `open_pos`.
pub open spec fn close_from(s: Seq<char>, open_pos: int, i: int, st: CloseScan) -> Option<int>
    decreases s.len() - i,
{
    if i < 0 || i >= s.len() {
        st.fallback
    } else {
        let c = s[i];
        match st.sub {
            Some((d, closed, sesc)) => {
                let cur = st.cur.push(c);
                if sesc {
                    close_from(s, open_pos, i + 1, CloseScan { cur, sub: Some((d, closed, false)), ..st })
                } else if c == '\\' {
                    close_from(s, open_pos, i + 1, CloseScan { cur, sub: Some((d, closed, true)), ..st })
                } else {
                    let fallback = if c == '}' && st.tracking && st.depth == 1 { Some(i) } else { st.fallback };
                    if c == d {
                        if closed + 1 == 2 {
                            close_from(s, open_pos, i + 1, CloseScan { cur, fallback, sub: None, ..st })
                        } else {
                            close_from(s, open_pos, i + 1, CloseScan { cur, fallback, sub: Some((d, closed + 1, false)), ..st })
                        }
                    } else {
                        close_from(s, open_pos, i + 1, CloseScan { cur, fallback, ..st })
                    }
                }
            },
            None => match st.pat {
                Some(d) => {
                    let cur = st.cur.push(c);
                    if st.esc {
                        close_from(s, open_pos, i + 1, CloseScan { cur, esc: false, ..st })
                    } else if c == '\\' {
                        close_from(s, open_pos, i + 1, CloseScan { cur, esc: true, ..st })
                    } else if c == d {
                        close_from(s, open_pos, i + 1, CloseScan { cur, pat: None, ..st })
                    } else {
                        close_from(s, open_pos, i + 1, CloseScan { cur, ..st })
                    }
                },
                None => if can_start_pattern(st.cur) && c == '/' {
                    close_from(s, open_pos, i + 1, CloseScan { cur: st.cur.push(c), pat: Some('/'), ..st })
                } else if can_start_pattern(st.cur) && c == '\\' && i + 1 < s.len() {
                    close_from(s, open_pos, i + 2, CloseScan { cur: st.cur.push(c).push(s[i + 1]), pat: Some(s[i + 1]), ..st })
                } else if c == 's' && i + 1 < s.len() && is_substitution_delimiter(s[i + 1])
                    && spec_is_substitution_start(st.cur, s[i + 1]) {
                    close_from(s, open_pos, i + 2, CloseScan {
                        cur: st.cur.push(c).push(s[i + 1]),
                        sub: Some((s[i + 1], 0, false)),
                        ..st
                    })
                } else if c == '{' {
                    if st.tracking {
                        close_from(s, open_pos, i + 1, CloseScan { cur: st.cur.push(c), depth: st.depth + 1, ..st })
                    } else if byte_len(s.take(i)) == open_pos {
                        close_from(s, open_pos, i + 1, CloseScan { cur: st.cur.push(c), depth: 1, tracking: true, ..st })
                    } else {
                        close_from(s, open_pos, i + 1, CloseScan { cur: st.cur.push(c), ..st })
                    }
                } else if c == '}' && st.tracking {
                    if st.depth - 1 == 0 {
                        Some(i)
                    } else {
                        close_from(s, open_pos, i + 1, CloseScan { cur: st.cur.push(c), depth: st.depth - 1, ..st })
                    }
                } else {
                    close_from(s, open_pos, i + 1, CloseScan { cur: st.cur.push(c), ..st })
                },
            },
        }
    }
}

/// Character index of the `}` that closes the group whose `{` is at byte
/// `open_pos`, skipping braces inside pattern addresses and substitutions.
pub open spec fn spec_group_close(s: Seq<char>, open_pos: int) -> Option<int> {
    close_from(s, open_pos, 0, CloseScan {
        cur: Seq::empty(), depth: 0, tracking: false, fallback: None, pat: None, esc: false, sub: None,
    })
}

proof fn lemma_close_from(s: Seq<char>, open_pos: int, i: int, st: CloseScan)
    requires
        0 <= i,
        st.fallback matches Some(k) ==> 0 <= k < s.len(),
    ensures
        close_from(s, open_pos, i, st) matches Some(k) ==> 0 <= k < s.len(),
    decreases s.len() - i,
{
    if i < s.len() {
        let c = s[i];
        match st.sub {
            Some((d, closed, sesc)) => {
                let cur = st.cur.push(c);
                let fallback = if c == '}' && st.tracking && st.depth == 1 { Some(i) } else { st.fallback };
                lemma_close_from(s, open_pos, i + 1, CloseScan { cur, sub: Some((d, closed, false)), ..st });
                lemma_close_from(s, open_pos, i + 1, CloseScan { cur, sub: Some((d, closed, true)), ..st });
                lemma_close_from(s, open_pos, i + 1, CloseScan { cur, fallback, sub: None, ..st });
                lemma_close_from(s, open_pos, i + 1, CloseScan { cur, fallback, sub: Some((d, closed + 1, false)), ..st });
                lemma_close_from(s, open_pos, i + 1, CloseScan { cur, fallback, ..st });
            },
            None => match st.pat {
                Some(d) => {
                    let cur = st.cur.push(c);
                    lemma_close_from(s, open_pos, i + 1, CloseScan { cur, esc: false, ..st });
                    lemma_close_from(s, open_pos, i + 1, CloseScan { cur, esc: true, ..st });
                    lemma_close_from(s, open_pos, i + 1, CloseScan { cur, pat: None, ..st });
                    lemma_close_from(s, open_pos, i + 1, CloseScan { cur, ..st });
                },
                None => {
                    lemma_close_from(s, open_pos, i + 1, CloseScan { cur: st.cur.push(c), pat: Some('/'), ..st });
                    if i + 1 < s.len() {
                        lemma_close_from(s, open_pos, i + 2, CloseScan { cur: st.cur.push(c).push(s[i + 1]), pat: Some(s[i + 1]), ..st });
                        lemma_close_from(s, open_pos, i + 2, CloseScan {
                            cur: st.cur.push(c).push(s[i + 1]),
                            sub: Some((s[i + 1], 0, false)),
                            ..st
                        });
                    }
                    lemma_close_from(s, open_pos, i + 1, CloseScan { cur: st.cur.push(c), depth: st.depth + 1, ..st });
                    lemma_close_from(s, open_pos, i + 1, CloseScan { cur: st.cur.push(c), depth: 1, tracking: true, ..st });
                    lemma_close_from(s, open_pos, i + 1, CloseScan { cur: st.cur.push(c), depth: st.depth - 1, ..st });
                    lemma_close_from(s, open_pos, i + 1, CloseScan { cur: st.cur.push(c), ..st });
                },
            },
        }
    }
}

/// Byte position of the `}` that closes the group whose `{` is at byte
/// `open_pos`; braces inside pattern addresses and substitutions do not
/// count. When the group never closes, a `}` at its level inside an
/// unterminated substitution is taken.
pub fn find_structural_group_close(expr: &str, open_pos: usize) -> (r: Option<usize>)
    ensures
        match spec_group_close(expr@, open_pos as int) {
            Some(k) => r == Some(byte_len(expr@.take(k)) as usize),
            None => r is None,
        },
{
    let e = Encoded::new(chars_of(expr));
    let v = &e.chars;
    let n = v.len();
    let mut cur: Vec<char> = Vec::new();
    let mut depth: usize = 0;
    let mut tracking = false;
    let mut fallback: Option<usize> = None;
    let mut pat: Option<char> = None;
    let mut esc = false;
    let mut sub: Option<(char, u8, bool)> = None;
    let mut i: usize = 0;
    let ghost init = CloseScan {
        cur: Seq::empty(), depth: 0, tracking: false, fallback: None, pat: None, esc: false, sub: None,
    };
    proof { lemma_close_from(v@, open_pos as int, 0, init); }
    let ghost target = spec_group_close(v@, open_pos as int);
    while i < n
        invariant
            e.wf(),
            v == &e.chars,
            v@ == expr@,
            target == spec_group_close(expr@, open_pos as int),
            n == v@.len(),
            i <= n,
            depth <= i,
            !tracking ==> depth == 0,
            tracking ==> depth >= 1,
            sub matches Some((d, c, x)) ==> c < 2,
            fallback matches Some(k) ==> k < n,
            target == close_from(v@, open_pos as int, i as int, CloseScan {
                cur: cur@, depth: depth as int, tracking, fallback: match fallback {
                    Some(k) => Some(k as int),
                    None => None,
                }, pat, esc, sub: sub_view(sub),
            }),
        decreases n - i,
    {
        let c = v[i];
        match sub {
            Some((d, closed, sesc)) => {
                cur.push(c);
                if sesc {
                    sub = Some((d, closed, false));
                } else if c == '\\' {
                    sub = Some((d, closed, true));
                } else {
                    if c == '}' && tracking && depth == 1 {
                        fallback = Some(i);
                    }
                    if c == d {
                        if closed + 1 == 2 {
                            sub = None;
                        } else {
                            sub = Some((d, closed + 1, false));
                        }
                    }
                }
                i += 1;
            }
            None => {
                match pat {
                    Some(d) => {
                        cur.push(c);
                        if esc {
                            esc = false;
                        } else if c == '\\' {
                            esc = true;
                        } else if c == d {
                            pat = None;
                        }
                        i += 1;
                    }
                    None => {
                        let cs = can_start_pattern_at(&cur, cur.len());
                        assert(cur@.take(cur@.len() as int) =~= cur@);
                        if cs && c == '/' {
                            cur.push(c);
                            pat = Some('/');
                            i += 1;
                        } else if cs && c == '\\' && i + 1 < n {
                            let d = v[i + 1];
                            cur.push(c);
                            cur.push(d);
                            pat = Some(d);
                            i += 2;
                        } else if c == 's' && i + 1 < n && (v[i + 1] == '/' || v[i + 1] == '#' || v[i + 1] == ':'
                            || v[i + 1] == '|') && substitution_start_chars(&cur, v[i + 1]) {
                            let d = v[i + 1];
                            cur.push(c);
                            cur.push(d);
                            sub = Some((d, 0, false));
                            i += 2;
                        } else if c == '{' {
                            if tracking {
                                depth += 1;
                            } else if e.offs[i] == open_pos {
                                tracking = true;
                                depth = 1;
                            }
                            cur.push(c);
                            i += 1;
                        } else if c == '}' && tracking {
                            if depth - 1 == 0 {
                                proof {
                                    lemma_byte_len_mono(v@, i as int, n as int);
                                    assert(v@.take(n as int) =~= v@);
                                    assert(sub_view(sub) is None);
                                    assert(target == Some(i as int));
                                    assert(e.offs@[i as int] == byte_len(v@.take(i as int)));
                                }
                                return Some(e.offs[i]);
                            }
                            depth -= 1;
                            cur.push(c);
                            i += 1;
                        } else {
                            cur.push(c);
                            i += 1;
                        }
                    }
                }
            }
        }
    }
    match fallback {
        Some(k) => {
            proof {
                lemma_byte_len_mono(v@, k as int, n as int);
                assert(v@.take(n as int) =~= v@);
                assert(e.offs@[k as int] == byte_len(v@.take(k as int)));
            }
            Some(e.offs[k])
        }
        None => None,
    }
}

/// A substitution pattern in the given flavor, rewritten for the regex
/// engine: BRE is converted, ERE and PCRE are kept.
pub open spec fn flavor_pattern(f: RegexFlavor, p: Seq<char>) -> Seq<char> {
    match f {
        RegexFlavor::BRE => bre_to_pcre(p),
        RegexFlavor::ERE => p,
        RegexFlavor::PCRE => p,
    }
}

/// A command with every substitution in it (groups included) rewritten for
/// the regex engine.
pub open spec fn flavor_command(f: RegexFlavor, c: SCommand) -> SCommand
    decreases c,
{
    match c {
        SCommand::Substitution { pattern, replacement, flags, range } => SCommand::Substitution {
            pattern: flavor_pattern(f, pattern),
            replacement: sed_backrefs(replacement),
            flags,
            range,
        },
        SCommand::Group { commands, range } => SCommand::Group { commands: flavor_commands(f, commands), range },
        _ => c,
    }
}

/// `flavor_command` applied to each command.
pub open spec fn flavor_commands(f: RegexFlavor, cs: Seq<SCommand>) -> Seq<SCommand>
    decreases cs,
{
    if cs.len() == 0 {
        Seq::empty()
    } else {
        flavor_commands(f, cs.drop_last()).push(flavor_command(f, cs.last()))
    }
}

/// What `Parser::parse` returns for an expression.
pub open spec fn spec_parse_with_flavor(f: RegexFlavor, s: Seq<char>) -> Result<Seq<SCommand>, ParseErrorKind> {
    match spec_parse_sed_expression(s) {
        Ok(cs) => Ok(flavor_commands(f, cs)),
        Err(e) => Err(e),
    }
}

/// A parser for sed expressions whose substitutions are written in one regex
/// flavor.
pub struct Parser {
    pub regex_flavor: RegexFlavor,
}

impl Parser {
    /// A parser for the given flavor.
    pub fn new(regex_flavor: RegexFlavor) -> (p: Self)
        ensures
            p.regex_flavor == regex_flavor,
    {
        Parser { regex_flavor }
    }

    /// Parse an expression into commands, with every substitution pattern
    /// and replacement rewritten for the regex engine.
    pub fn parse(&self, expression: &str) -> (r: Result<Vec<Command>, ParseError>)
        ensures
            match spec_parse_with_flavor(self.regex_flavor, expression@) {
                Ok(cs) => r matches Ok(v) && commands_view(v@) == cs,
                Err(e) => r matches Err(f) && f.kind == e,
            },
            r matches Err(f) ==> (spec_first_failure_message(spec_split_expression(expression@)) matches Some(m)
                ==> f.message@ == m),
    {
        let commands = match parse_sed_expression(expression) {
            Ok(c) => c,
            Err(e) => { return Err(e); }
        };
        Ok(self.apply_flavor_all(commands))
    }

    fn apply_flavor_all(&self, commands: Vec<Command>) -> (r: Vec<Command>)
        ensures
            commands_view(r@) == flavor_commands(self.regex_flavor, commands_view(commands@)),
        decreases commands, 1int,
    {
        let ghost orig = commands@;
        let mut rest = commands;
        let mut out: Vec<Command> = Vec::new();
        assert(orig.take(0) =~= Seq::<Command>::empty());
        assert(rest@ =~= orig.skip(0));
        while rest.len() > 0
            invariant
                out@.len() <= orig.len(),
                rest@ == orig.skip(out@.len() as int),
                commands_view(out@) == flavor_commands(self.regex_flavor, commands_view(orig.take(out@.len() as int))),
                orig == commands@,
            decreases rest@.len(),
        {
            let k = out.len();
            let c = rest.remove(0);
            assert(c == orig[k as int]);
            proof {
                assert(decreases_to!(commands => commands@));
                assert(decreases_to!(commands@ => orig[k as int]));
            }
            let f = self.flavor_command_owned(c);
            let ghost before = out@;
            out.push(f);
            proof {
                assert(out@.drop_last() =~= before);
                assert(orig.take(k + 1).drop_last() =~= orig.take(k as int));
                assert(rest@ =~= orig.skip(k + 1));
                assert(commands_view(out@) == commands_view(before).push(f@));
                let ov = commands_view(orig.take(k + 1));
                assert(ov == commands_view(orig.take(k as int)).push(orig[k as int]@));
                assert(ov.drop_last() =~= commands_view(orig.take(k as int)));
                assert(flavor_commands(self.regex_flavor, ov) == flavor_commands(self.regex_flavor, ov.drop_last()).push(
                    flavor_command(self.regex_flavor, ov.last())));
            }
        }
        assert(orig.take(out@.len() as int) =~= orig);
        out
    }

    /// Rewrites every substitution in `cmd`, groups included, for the
    /// regex engine.
    pub fn apply_flavor_to_substitutions(&self, cmd: &mut Command)
        ensures
            final(cmd)@ == flavor_command(self.regex_flavor, old(cmd)@),
    {
        let mut taken = Command::Label { name: String::new() };
        std::mem::swap(&mut taken, cmd);
        let mut converted = self.flavor_command_owned(taken);
        std::mem::swap(&mut converted, cmd);
    }

    /// Rewrite every substitution in `cmd`, groups included.
    fn flavor_command_owned(&self, cmd: Command) -> (r: Command)
        ensures
            r@ == flavor_command(self.regex_flavor, cmd@),
        decreases cmd, 0int,
    {
        match cmd {
            Command::Substitution { pattern, replacement, flags, range } => {
                let p = self.convert_pattern(pattern.as_str());
                let rp = self.convert_replacement(replacement.as_str());
                Command::Substitution { pattern: p, replacement: rp, flags, range }
            }
            Command::Group { commands, range } => {
                let cs = self.apply_flavor_all(commands);
                Command::Group { commands: cs, range }
            }
            other => other,
        }
    }

    /// A pattern in this parser's flavor, rewritten for the regex engine.
    pub fn convert_pattern(&self, pattern: &str) -> (r: String)
        ensures
            r@ == flavor_pattern(self.regex_flavor, pattern@),
    {
        match self.regex_flavor {
            RegexFlavor::BRE => convert_bre_to_pcre(pattern),
            RegexFlavor::ERE => convert_ere_to_pcre_pattern(pattern),
            RegexFlavor::PCRE => str_to_string(pattern),
        }
    }

    /// A replacement rewritten for the regex engine: `\1`..`\9` become
    /// `$1`..`$9`, `\&` becomes `$&`, `\\` becomes `\`.
    pub fn convert_replacement(&self, replacement: &str) -> (r: String)
        ensures
            r@ == sed_backrefs(replacement@),
    {
        match self.regex_flavor {
            RegexFlavor::ERE => convert_ere_backreferences(replacement),
            RegexFlavor::BRE => convert_sed_backreferences(replacement),
            RegexFlavor::PCRE => convert_sed_backreferences(replacement),
        }
    }
}

/// The regex mode changes how patterns are read, never which scripts are
/// accepted: a script parses under one flavor exactly when it parses under
/// another, with the same error, and into as many commands.
pub proof fn lemma_flavor_keeps_acceptance(f: RegexFlavor, g: RegexFlavor, s: Seq<char>)
    ensures
        spec_parse_with_flavor(f, s) is Ok <==> spec_parse_with_flavor(g, s) is Ok,
        spec_parse_with_flavor(f, s) matches Err(e) ==> spec_parse_with_flavor(g, s) == Err::<Seq<SCommand>, ParseErrorKind>(e),
        spec_parse_with_flavor(f, s) matches Ok(a) ==> (spec_parse_with_flavor(g, s) matches Ok(b) && a.len() == b.len()),
{
    if let Ok(cs) = spec_parse_sed_expression(s) {
        lemma_flavor_commands_len(f, cs);
        lemma_flavor_commands_len(g, cs);
    }
}

proof fn lemma_flavor_commands_len(f: RegexFlavor, cs: Seq<SCommand>)
    ensures
        flavor_commands(f, cs).len() == cs.len(),
    decreases cs.len(),
{
    if cs.len() > 0 {
        lemma_flavor_commands_len(f, cs.drop_last());
    }
}

/// In PCRE and ERE modes a pattern is used as written; only BRE patterns
/// are rewritten.
pub proof fn lemma_pcre_and_ere_patterns_as_written(p: Seq<char>)
    ensures
        flavor_pattern(RegexFlavor::PCRE, p) == p,
        flavor_pattern(RegexFlavor::ERE, p) == p,
{
}

} // verus!
