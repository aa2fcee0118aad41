//! Command-character detection and the simple commands.
use vstd::prelude::*;
use vstd::utf8::encode_utf8;
use crate::command::{Address, Command, SAddress, SCommand, SRange, opt_range_view, opt_addr_view};
use crate::parser::address::{
    address_malformed, parse_address_chars, parse_optional_range_chars, range_malformed,
    spec_address_malformed, spec_parse_address, spec_parse_optional_range, spec_range_malformed,
};
use crate::parser::errors::{ParseError, ParseErrorKind, format_error_chars};
use crate::parser::io::{inside_at, spec_is_inside};
use crate::text::{
    Encoded, byte_len, chars_of, find_pair_exec, find_pair_from, lemma_byte_len_mono,
    lemma_find_pair, slice_of, str_to_string, string_of, trim, trim_vec,
};

verus! {

/// The sed command characters.
pub open spec fn is_cmd_char(c: char) -> bool {
    ||| c == 's' || c == 'd' || c == 'p' || c == 'q' || c == 'Q' || c == 'i' || c == 'a' || c == 'c'
    ||| c == 'h' || c == 'H' || c == 'g' || c == 'G' || c == 'x' || c == 'n' || c == 'N' || c == 'P'
    ||| c == 'D' || c == ':' || c == 'b' || c == 't' || c == 'T' || c == '=' || c == 'F' || c == 'z'
    ||| c == 'r' || c == 'R' || c == 'w' || c == 'W' || c == '{' || c == '}'
}

fn is_cmd_char_exec(c: char) -> (b: bool)
    ensures
        b == is_cmd_char(c),
{
    c == 's' || c == 'd' || c == 'p' || c == 'q' || c == 'Q' || c == 'i' || c == 'a' || c == 'c'
        || c == 'h' || c == 'H' || c == 'g' || c == 'G' || c == 'x' || c == 'n' || c == 'N' || c == 'P'
        || c == 'D' || c == ':' || c == 'b' || c == 't' || c == 'T' || c == '=' || c == 'F' || c == 'z'
        || c == 'r' || c == 'R' || c == 'w' || c == 'W' || c == '{' || c == '}'
}

/// Index (in characters) of the first command character at or after `i` that
/// is not inside a pattern address; an `s` counts only when more text follows.
pub open spec fn fcc_scan(s: Seq<char>, i: int) -> Option<int>
    decreases s.len() - i,
{
    if i < 0 || i >= s.len() {
        None
    } else if is_cmd_char(s[i]) && !spec_is_inside(encode_utf8(s), byte_len(s.take(i)) as int) && (s[i]
        != 's' || i + 1 < s.len()) {
        Some(i)
    } else {
        fcc_scan(s, i + 1)
    }
}

/// Index (in characters) of the command character of a command.
pub open spec fn spec_cmd_index(s: Seq<char>) -> Option<int> {
    fcc_scan(s, 0)
}

pub proof fn lemma_fcc_scan(s: Seq<char>, i: int)
    requires
        0 <= i,
    ensures
        fcc_scan(s, i) matches Some(k) ==> i <= k < s.len() && is_cmd_char(s[k]) && (s[k] != 's' || k + 1 < s.len()),
    decreases s.len() - i,
{
    if i < s.len() {
        lemma_fcc_scan(s, i + 1);
    }
}

/// Character index of the command character, if any.
pub fn find_cmd_index(e: &Encoded) -> (r: Option<usize>)
    requires
        e.wf(),
    ensures
        match spec_cmd_index(e.chars@) {
            Some(k) => r == Some(k as usize),
            None => r is None,
        },
        r matches Some(k) ==> k < e.chars@.len(),
        spec_cmd_index(e.chars@) matches Some(k) ==> 0 <= k < e.chars@.len() && is_cmd_char(e.chars@[k])
            && (e.chars@[k] != 's' || k + 1 < e.chars@.len()),
{
    proof { lemma_fcc_scan(e.chars@, 0); }
    let n = e.chars.len();
    let mut i: usize = 0;
    while i < n
        invariant
            e.wf(),
            i <= n == e.chars@.len(),
            fcc_scan(e.chars@, 0) == fcc_scan(e.chars@, i as int),
        decreases n - i,
    {
        let c = e.chars[i];
        if is_cmd_char_exec(c) {
            let pos = e.offs[i];
            proof {
                lemma_byte_len_mono(e.chars@, i as int, n as int);
                assert(e.chars@.take(n as int) =~= e.chars@);
            }
            if !inside_at(&e.bytes, pos) && (c != 's' || i + 1 < n) {
                return Some(i);
            }
        }
        i += 1;
    }
    None
}

/// Find the command character and its byte position.
pub fn find_command_char(cmd: &str) -> (r: Option<(usize, char)>)
    ensures
        match spec_cmd_index(cmd@) {
            Some(k) => r == Some((byte_len(cmd@.take(k)) as usize, cmd@[k])),
            None => r is None,
        },
{
    let e = Encoded::new(chars_of(cmd));
    match find_cmd_index(&e) {
        Some(k) => {
            assert(e.offs@[k as int] == byte_len(e.chars@.take(k as int)));
            Some((e.offs[k], e.chars[k]))
        }
        None => None,
    }
}

/// The range before the command character (an empty range means none).
pub open spec fn spec_prefix_range(s: Seq<char>) -> Result<Option<SRange>, ParseErrorKind> {
    match spec_cmd_index(s) {
        None => Err(ParseErrorKind::MissingCommandChar),
        Some(k) => if spec_range_malformed(s.take(k)) {
            Err(ParseErrorKind::MalformedText)
        } else {
            spec_parse_optional_range(s.take(k))
        },
    }
}

/// The single address before the command character, if there is text there.
pub open spec fn spec_prefix_address(s: Seq<char>) -> Result<Option<SAddress>, ParseErrorKind> {
    match spec_cmd_index(s) {
        None => Err(ParseErrorKind::MissingCommandChar),
        Some(k) => if trim(s.take(k)).len() == 0 {
            Ok(None)
        } else if spec_address_malformed(trim(s.take(k))) {
            Err(ParseErrorKind::MalformedText)
        } else {
            match spec_parse_address(trim(s.take(k))) {
                Ok(a) => Ok(Some(a)),
                Err(e) => Err(e),
            }
        },
    }
}

pub open spec fn whole_file() -> SRange {
    (SAddress::LineNumber(1), SAddress::LastLine)
}

/// The range of `d` and `p`: the whole file when no address is given.
pub open spec fn spec_prefix_range_or_all(s: Seq<char>) -> Result<SRange, ParseErrorKind> {
    match spec_prefix_range(s) {
        Err(e) => Err(e),
        Ok(None) => Ok(whole_file()),
        Ok(Some(r)) => Ok(r),
    }
}

/// The message of the error the command text `v` gives when the range
/// before its command character is read (`what` names a missing command
/// character).
pub open spec fn prefix_range_message(v: Seq<char>, what: Seq<char>) -> Seq<char> {
    match spec_cmd_index(v) {
        None => what,
        Some(k) => if spec_range_malformed(v.take(k)) {
            malformed_message(v)
        } else {
            crate::parser::address::spec_range_message(v.take(k))
        },
    }
}

/// The same, for the single address before the command character.
pub open spec fn prefix_address_message(v: Seq<char>, what: Seq<char>) -> Seq<char> {
    match spec_cmd_index(v) {
        None => what,
        Some(k) => if spec_address_malformed(trim(v.take(k))) {
            malformed_message(v)
        } else {
            crate::parser::address::spec_address_message(trim(v.take(k)))
        },
    }
}

fn missing_cmd(what: &str) -> (e: ParseError)
    ensures
        e.kind == ParseErrorKind::MissingCommandChar,
        e.message@ == what@,
{
    ParseError { kind: ParseErrorKind::MissingCommandChar, message: str_to_string(what) }
}

/// The message for address text that is a lone `/`.
pub open spec fn malformed_message(v: Seq<char>) -> Seq<char> {
    crate::parser::errors::spec_format_parse_error(v, None, "malformed address text"@, None)
}

fn malformed(v: &Vec<char>) -> (e: ParseError)
    ensures
        e.kind == ParseErrorKind::MalformedText,
        e.message@ == malformed_message(v@),
{
    let msg = format_error_chars(v, None, "malformed address text", None);
    ParseError { kind: ParseErrorKind::MalformedText, message: msg }
}

pub fn prefix_range(v: &Vec<char>, what: &str) -> (r: Result<Option<(Address, Address)>, ParseError>)
    ensures
        match spec_prefix_range(v@) {
            Ok(x) => r matches Ok(y) && opt_range_view(y) == x,
            Err(k) => r matches Err(e) && e.kind == k && e.message@ == prefix_range_message(v@, what@),
        },
{
    let e = Encoded::new(slice_of(v, 0, v.len()));
    assert(v@.subrange(0, v@.len() as int) =~= v@);
    assert(e.chars@ == v@);
    match find_cmd_index(&e) {
        None => Err(missing_cmd(what)),
        Some(k) => {
            let ap = slice_of(v, 0, k);
            assert(ap@ =~= v@.take(k as int));
            if range_malformed(&ap) {
                return Err(malformed(v));
            }
            parse_optional_range_chars(&ap)
        }
    }
}

pub fn prefix_address(v: &Vec<char>, what: &str) -> (r: Result<Option<Address>, ParseError>)
    ensures
        match spec_prefix_address(v@) {
            Ok(x) => r matches Ok(y) && opt_addr_view(y) == x,
            Err(k) => r matches Err(e) && e.kind == k && e.message@ == prefix_address_message(v@, what@),
        },
{
    let e = Encoded::new(slice_of(v, 0, v.len()));
    assert(v@.subrange(0, v@.len() as int) =~= v@);
    assert(e.chars@ == v@);
    match find_cmd_index(&e) {
        None => Err(missing_cmd(what)),
        Some(k) => {
            let ap = slice_of(v, 0, k);
            assert(ap@ =~= v@.take(k as int));
            let t = trim_vec(&ap);
            if t.len() == 0 {
                return Ok(None);
            }
            if address_malformed(&t) {
                return Err(malformed(v));
            }
            match parse_address_chars(&t) {
                Ok(a) => Ok(Some(a)),
                Err(e) => Err(e),
            }
        }
    }
}

pub fn prefix_range_or_all(v: &Vec<char>, what: &str) -> (r: Result<(Address, Address), ParseError>)
    ensures
        match spec_prefix_range_or_all(v@) {
            Ok(x) => r matches Ok(y) && crate::command::range_view(y) == x,
            Err(k) => r matches Err(e) && e.kind == k && e.message@ == prefix_range_message(v@, what@),
        },
{
    match prefix_range(v, what) {
        Err(e) => Err(e),
        Ok(None) => Ok((Address::LineNumber(1), Address::LastLine)),
        Ok(Some(r)) => Ok(r),
    }
}

/// What `d` parses to.
pub open spec fn spec_parse_delete(s: Seq<char>) -> Result<SCommand, ParseErrorKind> {
    match spec_prefix_range_or_all(s) {
        Ok(r) => Ok(SCommand::Delete { range: r }),
        Err(e) => Err(e),
    }
}

pub fn parse_delete(cmd: &str) -> (r: Result<Command, ParseError>)
    ensures
        match spec_parse_delete(cmd@) {
            Ok(x) => r matches Ok(y) && y@ == x,
            Err(k) => r matches Err(e) && e.kind == k && e.message@ == prefix_range_message(cmd@, "Delete command missing 'd'"@),
        },
{
    match prefix_range_or_all(&chars_of(cmd), "Delete command missing 'd'") {
        Ok(range) => Ok(Command::Delete { range }),
        Err(e) => Err(e),
    }
}

/// What `p` parses to.
pub open spec fn spec_parse_print(s: Seq<char>) -> Result<SCommand, ParseErrorKind> {
    match spec_prefix_range_or_all(s) {
        Ok(r) => Ok(SCommand::Print { range: r }),
        Err(e) => Err(e),
    }
}

pub fn parse_print(cmd: &str) -> (r: Result<Command, ParseError>)
    ensures
        match spec_parse_print(cmd@) {
            Ok(x) => r matches Ok(y) && y@ == x,
            Err(k) => r matches Err(e) && e.kind == k && e.message@ == prefix_range_message(cmd@, "Print command missing 'p'"@),
        },
{
    match prefix_range_or_all(&chars_of(cmd), "Print command missing 'p'") {
        Ok(range) => Ok(Command::Print { range }),
        Err(e) => Err(e),
    }
}

/// What `q` parses to.
pub open spec fn spec_parse_quit(s: Seq<char>) -> Result<SCommand, ParseErrorKind> {
    match spec_prefix_address(s) {
        Ok(a) => Ok(SCommand::Quit { address: a }),
        Err(e) => Err(e),
    }
}

pub fn parse_quit(cmd: &str) -> (r: Result<Command, ParseError>)
    ensures
        match spec_parse_quit(cmd@) {
            Ok(x) => r matches Ok(y) && y@ == x,
            Err(k) => r matches Err(e) && e.kind == k && e.message@ == prefix_address_message(cmd@, "Quit command missing 'q'"@),
        },
{
    match prefix_address(&chars_of(cmd), "Quit command missing 'q'") {
        Ok(address) => Ok(Command::Quit { address }),
        Err(e) => Err(e),
    }
}

/// What `Q` parses to.
pub open spec fn spec_parse_quit_without_print(s: Seq<char>) -> Result<SCommand, ParseErrorKind> {
    match spec_prefix_address(s) {
        Ok(a) => Ok(SCommand::QuitWithoutPrint { address: a }),
        Err(e) => Err(e),
    }
}

pub fn parse_quit_without_print(cmd: &str) -> (r: Result<Command, ParseError>)
    ensures
        match spec_parse_quit_without_print(cmd@) {
            Ok(x) => r matches Ok(y) && y@ == x,
            Err(k) => r matches Err(e) && e.kind == k && e.message@ == prefix_address_message(cmd@, "Quit without print command missing 'Q'"@),
        },
{
    match prefix_address(&chars_of(cmd), "Quit without print command missing 'Q'") {
        Ok(address) => Ok(Command::QuitWithoutPrint { address }),
        Err(e) => Err(e),
    }
}

/// What `=` parses to.
pub open spec fn spec_parse_print_line_number(s: Seq<char>) -> Result<SCommand, ParseErrorKind> {
    match spec_prefix_address(s) {
        Ok(a) => Ok(SCommand::PrintLineNumber { range: a }),
        Err(e) => Err(e),
    }
}

pub fn parse_print_line_number(cmd: &str) -> (r: Result<Command, ParseError>)
    ensures
        match spec_parse_print_line_number(cmd@) {
            Ok(x) => r matches Ok(y) && y@ == x,
            Err(k) => r matches Err(e) && e.kind == k && e.message@ == prefix_address_message(cmd@, "Print line number command missing '='"@),
        },
{
    match prefix_address(&chars_of(cmd), "Print line number command missing '='") {
        Ok(range) => Ok(Command::PrintLineNumber { range }),
        Err(e) => Err(e),
    }
}

/// What `F` parses to.
pub open spec fn spec_parse_print_filename(s: Seq<char>) -> Result<SCommand, ParseErrorKind> {
    match spec_prefix_address(s) {
        Ok(a) => Ok(SCommand::PrintFilename { range: a }),
        Err(e) => Err(e),
    }
}

pub fn parse_print_filename(cmd: &str) -> (r: Result<Command, ParseError>)
    ensures
        match spec_parse_print_filename(cmd@) {
            Ok(x) => r matches Ok(y) && y@ == x,
            Err(k) => r matches Err(e) && e.kind == k && e.message@ == prefix_address_message(cmd@, "Print filename command missing 'F'"@),
        },
{
    match prefix_address(&chars_of(cmd), "Print filename command missing 'F'") {
        Ok(range) => Ok(Command::PrintFilename { range }),
        Err(e) => Err(e),
    }
}

/// What `z` parses to.
pub open spec fn spec_parse_clear_pattern_space(s: Seq<char>) -> Result<SCommand, ParseErrorKind> {
    match spec_prefix_address(s) {
        Ok(a) => Ok(SCommand::ClearPatternSpace { range: a }),
        Err(e) => Err(e),
    }
}

pub fn parse_clear_pattern_space(cmd: &str) -> (r: Result<Command, ParseError>)
    ensures
        match spec_parse_clear_pattern_space(cmd@) {
            Ok(x) => r matches Ok(y) && y@ == x,
            Err(k) => r matches Err(e) && e.kind == k && e.message@ == prefix_address_message(cmd@, "Clear pattern space command missing 'z'"@),
        },
{
    match prefix_address(&chars_of(cmd), "Clear pattern space command missing 'z'") {
        Ok(range) => Ok(Command::ClearPatternSpace { range }),
        Err(e) => Err(e),
    }
}


/// What the `Hold` command parses to.
pub open spec fn spec_parse_hold(s: Seq<char>) -> Result<SCommand, ParseErrorKind> {
    match spec_prefix_range(s) {
        Ok(r) => Ok(SCommand::Hold { range: r }),
        Err(e) => Err(e),
    }
}

pub fn parse_hold(cmd: &str) -> (r: Result<Command, ParseError>)
    ensures
        match spec_parse_hold(cmd@) {
            Ok(x) => r matches Ok(y) && y@ == x,
            Err(k) => r matches Err(e) && e.kind == k && e.message@ == prefix_range_message(cmd@, "Hold command missing 'h'"@),
        },
{
    match prefix_range(&chars_of(cmd), "Hold command missing 'h'") {
        Ok(range) => Ok(Command::Hold { range }),
        Err(e) => Err(e),
    }
}

/// What the `HoldAppend` command parses to.
pub open spec fn spec_parse_hold_append(s: Seq<char>) -> Result<SCommand, ParseErrorKind> {
    match spec_prefix_range(s) {
        Ok(r) => Ok(SCommand::HoldAppend { range: r }),
        Err(e) => Err(e),
    }
}

pub fn parse_hold_append(cmd: &str) -> (r: Result<Command, ParseError>)
    ensures
        match spec_parse_hold_append(cmd@) {
            Ok(x) => r matches Ok(y) && y@ == x,
            Err(k) => r matches Err(e) && e.kind == k && e.message@ == prefix_range_message(cmd@, "Hold append command missing 'H'"@),
        },
{
    match prefix_range(&chars_of(cmd), "Hold append command missing 'H'") {
        Ok(range) => Ok(Command::HoldAppend { range }),
        Err(e) => Err(e),
    }
}

/// What the `Get` command parses to.
pub open spec fn spec_parse_get(s: Seq<char>) -> Result<SCommand, ParseErrorKind> {
    match spec_prefix_range(s) {
        Ok(r) => Ok(SCommand::Get { range: r }),
        Err(e) => Err(e),
    }
}

pub fn parse_get(cmd: &str) -> (r: Result<Command, ParseError>)
    ensures
        match spec_parse_get(cmd@) {
            Ok(x) => r matches Ok(y) && y@ == x,
            Err(k) => r matches Err(e) && e.kind == k && e.message@ == prefix_range_message(cmd@, "Get command missing 'g'"@),
        },
{
    match prefix_range(&chars_of(cmd), "Get command missing 'g'") {
        Ok(range) => Ok(Command::Get { range }),
        Err(e) => Err(e),
    }
}

/// What the `GetAppend` command parses to.
pub open spec fn spec_parse_get_append(s: Seq<char>) -> Result<SCommand, ParseErrorKind> {
    match spec_prefix_range(s) {
        Ok(r) => Ok(SCommand::GetAppend { range: r }),
        Err(e) => Err(e),
    }
}

pub fn parse_get_append(cmd: &str) -> (r: Result<Command, ParseError>)
    ensures
        match spec_parse_get_append(cmd@) {
            Ok(x) => r matches Ok(y) && y@ == x,
            Err(k) => r matches Err(e) && e.kind == k && e.message@ == prefix_range_message(cmd@, "Get append command missing 'G'"@),
        },
{
    match prefix_range(&chars_of(cmd), "Get append command missing 'G'") {
        Ok(range) => Ok(Command::GetAppend { range }),
        Err(e) => Err(e),
    }
}

/// What the `Exchange` command parses to.
pub open spec fn spec_parse_exchange(s: Seq<char>) -> Result<SCommand, ParseErrorKind> {
    match spec_prefix_range(s) {
        Ok(r) => Ok(SCommand::Exchange { range: r }),
        Err(e) => Err(e),
    }
}

pub fn parse_exchange(cmd: &str) -> (r: Result<Command, ParseError>)
    ensures
        match spec_parse_exchange(cmd@) {
            Ok(x) => r matches Ok(y) && y@ == x,
            Err(k) => r matches Err(e) && e.kind == k && e.message@ == prefix_range_message(cmd@, "Exchange command missing 'x'"@),
        },
{
    match prefix_range(&chars_of(cmd), "Exchange command missing 'x'") {
        Ok(range) => Ok(Command::Exchange { range }),
        Err(e) => Err(e),
    }
}

/// What the `Next` command parses to.
pub open spec fn spec_parse_next(s: Seq<char>) -> Result<SCommand, ParseErrorKind> {
    match spec_prefix_range(s) {
        Ok(r) => Ok(SCommand::Next { range: r }),
        Err(e) => Err(e),
    }
}

pub fn parse_next(cmd: &str) -> (r: Result<Command, ParseError>)
    ensures
        match spec_parse_next(cmd@) {
            Ok(x) => r matches Ok(y) && y@ == x,
            Err(k) => r matches Err(e) && e.kind == k && e.message@ == prefix_range_message(cmd@, "Next command missing 'n'"@),
        },
{
    match prefix_range(&chars_of(cmd), "Next command missing 'n'") {
        Ok(range) => Ok(Command::Next { range }),
        Err(e) => Err(e),
    }
}

/// What the `NextAppend` command parses to.
pub open spec fn spec_parse_next_append(s: Seq<char>) -> Result<SCommand, ParseErrorKind> {
    match spec_prefix_range(s) {
        Ok(r) => Ok(SCommand::NextAppend { range: r }),
        Err(e) => Err(e),
    }
}

pub fn parse_next_append(cmd: &str) -> (r: Result<Command, ParseError>)
    ensures
        match spec_parse_next_append(cmd@) {
            Ok(x) => r matches Ok(y) && y@ == x,
            Err(k) => r matches Err(e) && e.kind == k && e.message@ == prefix_range_message(cmd@, "Next append command missing 'N'"@),
        },
{
    match prefix_range(&chars_of(cmd), "Next append command missing 'N'") {
        Ok(range) => Ok(Command::NextAppend { range }),
        Err(e) => Err(e),
    }
}

/// What the `PrintFirstLine` command parses to.
pub open spec fn spec_parse_print_first_line(s: Seq<char>) -> Result<SCommand, ParseErrorKind> {
    match spec_prefix_range(s) {
        Ok(r) => Ok(SCommand::PrintFirstLine { range: r }),
        Err(e) => Err(e),
    }
}

pub fn parse_print_first_line(cmd: &str) -> (r: Result<Command, ParseError>)
    ensures
        match spec_parse_print_first_line(cmd@) {
            Ok(x) => r matches Ok(y) && y@ == x,
            Err(k) => r matches Err(e) && e.kind == k && e.message@ == prefix_range_message(cmd@, "Print first line command missing 'P'"@),
        },
{
    match prefix_range(&chars_of(cmd), "Print first line command missing 'P'") {
        Ok(range) => Ok(Command::PrintFirstLine { range }),
        Err(e) => Err(e),
    }
}

/// What the `DeleteFirstLine` command parses to.
pub open spec fn spec_parse_delete_first_line(s: Seq<char>) -> Result<SCommand, ParseErrorKind> {
    match spec_prefix_range(s) {
        Ok(r) => Ok(SCommand::DeleteFirstLine { range: r }),
        Err(e) => Err(e),
    }
}

pub fn parse_delete_first_line(cmd: &str) -> (r: Result<Command, ParseError>)
    ensures
        match spec_parse_delete_first_line(cmd@) {
            Ok(x) => r matches Ok(y) && y@ == x,
            Err(k) => r matches Err(e) && e.kind == k && e.message@ == prefix_range_message(cmd@, "Delete first line command missing 'D'"@),
        },
{
    match prefix_range(&chars_of(cmd), "Delete first line command missing 'D'") {
        Ok(range) => Ok(Command::DeleteFirstLine { range }),
        Err(e) => Err(e),
    }
}

/// The text after the marker, without one leading newline.
pub open spec fn text_after(s: Seq<char>, k: int) -> Seq<char> {
    let t = s.skip(k + 2);
    if t.len() > 0 && t[0] == '\n' { t.drop_first() } else { t }
}

fn contains_char(v: &Vec<char>, c: char) -> (b: bool)
    ensures
        b == v@.contains(c),
{
    let mut i: usize = 0;
    while i < v.len()
        invariant
            i <= v@.len(),
            forall|k: int| 0 <= k < i ==> v@[k] != c,
        decreases v@.len() - i,
    {
        if v[i] == c {
            assert(v@[i as int] == c);
            return true;
        }
        i += 1;
    }
    false
}

/// Split `v` at the first `letter\` marker: the trimmed address text and the
/// text after the marker without one leading newline.
fn split_text_command(v: &Vec<char>, letter: char) -> (r: Option<(Vec<char>, Vec<char>)>)
    ensures
        match find_pair_from(v@, letter, '\\', 0) {
            None => r is None,
            Some(k) => r matches Some(p) && p.0@ == trim(v@.take(k)) && p.1@ == text_after(v@, k),
        },
{
    match find_pair_exec(v, letter, '\\') {
        None => None,
        Some(k) => {
            proof { lemma_find_pair(v@, letter, '\\', 0); }
            let before = slice_of(v, 0, k);
            assert(before@ =~= v@.take(k as int));
            let ap = trim_vec(&before);
            let n = v.len();
            let t = slice_of(v, k + 2, n);
            assert(t@ =~= v@.skip(k + 2));
            let text = if t.len() > 0 && t[0] == '\n' {
                let x = slice_of(&t, 1, t.len());
                assert(x@ =~= t@.drop_first());
                x
            } else {
                t
            };
            Some((ap, text))
        }
    }
}

/// The hint for a text command written without its backslash.
pub open spec fn text_command_hint(letter: char) -> Seq<char> {
    if letter == 'i' {
        "Insert command requires a backslash after 'i':\n  Format: [address]i\\text\n  Example: 5i\\INSERTED LINE\n  Example: /pattern/i\\New line before match"@
    } else if letter == 'a' {
        "Append command requires a backslash after 'a':\n  Format: [address]a\\text\n  Example: 5a\\APPENDED LINE\n  Example: /pattern/a\\New line after match"@
    } else {
        "Change command requires a backslash after 'c':\n  Format: [address]c\\text\n  Example: 5,10c\\REPLACED LINES\n  Example: /pattern/c\\Line replacement"@
    }
}

fn text_command_hint_exec(letter: char) -> (h: &'static str)
    ensures
        h@ == text_command_hint(letter),
{
    if letter == 'i' {
        "Insert command requires a backslash after 'i':\n  Format: [address]i\\text\n  Example: 5i\\INSERTED LINE\n  Example: /pattern/i\\New line before match"
    } else if letter == 'a' {
        "Append command requires a backslash after 'a':\n  Format: [address]a\\text\n  Example: 5a\\APPENDED LINE\n  Example: /pattern/a\\New line after match"
    } else {
        "Change command requires a backslash after 'c':\n  Format: [address]c\\text\n  Example: 5,10c\\REPLACED LINES\n  Example: /pattern/c\\Line replacement"
    }
}

/// The message of the error an `i\`, `a\` or `c\` command (`letter`,
/// described by `what`) gives for `s`.
pub open spec fn spec_text_command_message(s: Seq<char>, letter: char, what: Seq<char>) -> Seq<char> {
    match find_pair_from(s, letter, '\\', 0) {
        None => crate::parser::errors::spec_format_parse_error(
            s,
            None,
            "invalid "@ + what + " command format"@,
            if s.contains(letter) { Some(text_command_hint(letter)) } else { None },
        ),
        Some(k) => {
            let ap = trim(s.take(k));
            if letter == 'c' {
                if spec_range_malformed(ap) { malformed_message(s) } else { crate::parser::address::spec_range_message(ap) }
            } else if spec_address_malformed(ap) {
                malformed_message(s)
            } else {
                crate::parser::address::spec_address_message(ap)
            }
        },
    }
}

fn text_command_error(v: &Vec<char>, letter: char, what: &str, kind: ParseErrorKind) -> (e: ParseError)
    ensures
        e.kind == kind,
        e.message@ == crate::parser::errors::spec_format_parse_error(
            v@,
            None,
            "invalid "@ + what@ + " command format"@,
            if v@.contains(letter) { Some(text_command_hint(letter)) } else { None },
        ),
{
    let mut d = str_to_string("invalid ");
    crate::text::push_str(&mut d, what);
    crate::text::push_str(&mut d, " command format");
    let hint = if contains_char(v, letter) { Some(text_command_hint_exec(letter)) } else { None };
    let msg = format_error_chars(v, None, d.as_str(), hint);
    ParseError { kind, message: msg }
}

/// What the `i\` command parses to.
pub open spec fn spec_parse_insert(s: Seq<char>) -> Result<SCommand, ParseErrorKind> {
    match find_pair_from(s, 'i', '\\', 0) {
        None => Err(ParseErrorKind::InvalidInsert),
        Some(k) => {
            let ap = trim(s.take(k));
            if ap.len() == 0 {
                Ok(SCommand::Insert { text: text_after(s, k), address: SAddress::LineNumber(1) })
            } else if spec_address_malformed(ap) {
                Err(ParseErrorKind::MalformedText)
            } else {
                match spec_parse_address(ap) {
                    Ok(a) => Ok(SCommand::Insert { text: text_after(s, k), address: a }),
                    Err(e) => Err(e),
                }
            }
        }
    }
}

pub fn parse_insert(cmd: &str) -> (r: Result<Command, ParseError>)
    ensures
        match spec_parse_insert(cmd@) {
            Ok(x) => r matches Ok(y) && y@ == x,
            Err(k) => r matches Err(e) && e.kind == k && e.message@ == spec_text_command_message(cmd@, 'i', "insert"@),
        },
{
    let v = chars_of(cmd);
    match split_text_command(&v, 'i') {
        None => {
            Err(text_command_error(&v, 'i', "insert", ParseErrorKind::InvalidInsert))
        }
        Some((ap, text)) => {
            let address = if ap.len() == 0 {
                Address::LineNumber(1)
            } else {
                if address_malformed(&ap) {
                    return Err(malformed(&v));
                }
                match parse_address_chars(&ap) {
                    Ok(a) => a,
                    Err(e) => { return Err(e); }
                }
            };
            Ok(Command::Insert { text: string_of(&text), address })
        }
    }
}

/// What the `a\` command parses to.
pub open spec fn spec_parse_append(s: Seq<char>) -> Result<SCommand, ParseErrorKind> {
    match find_pair_from(s, 'a', '\\', 0) {
        None => Err(ParseErrorKind::InvalidAppend),
        Some(k) => {
            let ap = trim(s.take(k));
            if ap.len() == 0 {
                Ok(SCommand::Append { text: text_after(s, k), address: SAddress::LastLine })
            } else if spec_address_malformed(ap) {
                Err(ParseErrorKind::MalformedText)
            } else {
                match spec_parse_address(ap) {
                    Ok(a) => Ok(SCommand::Append { text: text_after(s, k), address: a }),
                    Err(e) => Err(e),
                }
            }
        }
    }
}

pub fn parse_append(cmd: &str) -> (r: Result<Command, ParseError>)
    ensures
        match spec_parse_append(cmd@) {
            Ok(x) => r matches Ok(y) && y@ == x,
            Err(k) => r matches Err(e) && e.kind == k && e.message@ == spec_text_command_message(cmd@, 'a', "append"@),
        },
{
    let v = chars_of(cmd);
    match split_text_command(&v, 'a') {
        None => {
            Err(text_command_error(&v, 'a', "append", ParseErrorKind::InvalidAppend))
        }
        Some((ap, text)) => {
            let address = if ap.len() == 0 {
                Address::LastLine
            } else {
                if address_malformed(&ap) {
                    return Err(malformed(&v));
                }
                match parse_address_chars(&ap) {
                    Ok(a) => a,
                    Err(e) => { return Err(e); }
                }
            };
            Ok(Command::Append { text: string_of(&text), address })
        }
    }
}

/// What the `c\` command parses to.
pub open spec fn spec_parse_change(s: Seq<char>) -> Result<SCommand, ParseErrorKind> {
    match find_pair_from(s, 'c', '\\', 0) {
        None => Err(ParseErrorKind::InvalidChange),
        Some(k) => {
            let ap = trim(s.take(k));
            if spec_range_malformed(ap) {
                Err(ParseErrorKind::MalformedText)
            } else {
                match spec_parse_optional_range(ap) {
                    Ok(None) => Ok(SCommand::Change { text: text_after(s, k), range: whole_file() }),
                    Ok(Some(r)) => Ok(SCommand::Change { text: text_after(s, k), range: r }),
                    Err(e) => Err(e),
                }
            }
        }
    }
}

pub fn parse_change(cmd: &str) -> (r: Result<Command, ParseError>)
    ensures
        match spec_parse_change(cmd@) {
            Ok(x) => r matches Ok(y) && y@ == x,
            Err(k) => r matches Err(e) && e.kind == k && e.message@ == spec_text_command_message(cmd@, 'c', "change"@),
        },
{
    let v = chars_of(cmd);
    match split_text_command(&v, 'c') {
        None => {
            Err(text_command_error(&v, 'c', "change", ParseErrorKind::InvalidChange))
        }
        Some((ap, text)) => {
            if range_malformed(&ap) {
                return Err(malformed(&v));
            }
            let range = match parse_optional_range_chars(&ap) {
                Ok(None) => (Address::LineNumber(1), Address::LastLine),
                Ok(Some(r)) => r,
                Err(e) => { return Err(e); }
            };
            Ok(Command::Change { text: string_of(&text), range })
        }
    }
}

} // verus!
