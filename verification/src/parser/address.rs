//! Line addresses and address ranges.
use vstd::prelude::*;
use crate::command::{Address, SAddress, SRange};
use crate::parser::errors::{ParseError, ParseErrorKind, format_error_chars, spec_format_parse_error};
use crate::text::{
    chars_of, encode_chars, push_str, find_char, find_char_exec, lemma_find_from, lemma_trim_len, parse_isize, parse_usize,
    slice_of, spec_parse_isize, spec_parse_usize, str_to_string, string_of, string_of_range, trim,
    trim_vec,
};

verus! {

/// The escape state before index `to`, scanning from index `from`: a
/// backslash escapes the character after it.
pub open spec fn escaped_before(s: Seq<char>, from: int, to: int) -> bool
    decreases to - from,
{
    if to <= from {
        false
    } else if escaped_before(s, from, to - 1) {
        false
    } else {
        s[to - 1] == '\\'
    }
}

/// `\Dpattern\D`: a backslash, a delimiter `D`, the pattern, and a final
/// unescaped `D` as the last character.
pub open spec fn spec_custom_delimiter_pattern(a: Seq<char>) -> Option<Seq<char>> {
    if a.len() >= 3 && a[0] == '\\' && a[a.len() - 1] == a[1] && !escaped_before(a, 2, a.len() - 1) {
        Some(a.subrange(2, a.len() - 1))
    } else {
        None
    }
}

/// The address text is a lone `/` after trimming and stripping negations:
/// the only address text on which slicing the pattern would fail.
pub open spec fn spec_address_malformed(addr: Seq<char>) -> bool
    decreases addr.len(),
{
    let a = trim(addr);
    if a.len() == 0 {
        false
    } else if a.last() == '!' {
        proof { lemma_trim_len(addr); }
        spec_address_malformed(a.drop_last())
    } else {
        a =~= seq!['/']
    }
}

/// The address denoted by a piece of address text.
pub open spec fn spec_parse_address(addr: Seq<char>) -> Result<SAddress, ParseErrorKind>
    decreases addr.len(),
{
    let a = trim(addr);
    if a.len() == 0 {
        Err(ParseErrorKind::EmptyAddress)
    } else if a.last() == '!' {
        proof { lemma_trim_len(addr); }
        match spec_parse_address(a.drop_last()) {
            Ok(inner) => Ok(SAddress::Negated(Box::new(inner))),
            Err(e) => Err(e),
        }
    } else if a =~= seq!['0'] {
        Ok(SAddress::FirstLine)
    } else if a =~= seq!['$'] {
        Ok(SAddress::LastLine)
    } else if find_char(a, '~') is Some {
        let t = find_char(a, '~').unwrap();
        match (spec_parse_usize(a.take(t)), spec_parse_usize(a.skip(t + 1))) {
            (None, _) => Err(ParseErrorKind::InvalidStepStart),
            (Some(_), None) => Err(ParseErrorKind::InvalidStepValue),
            (Some(start), Some(step)) => if step == 0 {
                Err(ParseErrorKind::ZeroStep)
            } else {
                Ok(SAddress::Step { start, step })
            },
        }
    } else if spec_parse_usize(a) is Some {
        Ok(SAddress::LineNumber(spec_parse_usize(a).unwrap()))
    } else if spec_custom_delimiter_pattern(a) is Some {
        Ok(SAddress::Pattern(spec_custom_delimiter_pattern(a).unwrap()))
    } else if a[0] == '/' && a.last() == '/' {
        Ok(SAddress::Pattern(a.subrange(1, a.len() - 1)))
    } else if a[0] == '/' {
        Err(ParseErrorKind::MissingClosingSlash)
    } else if a.last() == '/' {
        Err(ParseErrorKind::MissingOpeningSlash)
    } else {
        Err(ParseErrorKind::InvalidAddress)
    }
}

/// The offset of a relative range end `+N` or `-N`: `N` lines after the
/// start, or `N` lines before it; none when `N` is no number or the
/// offset does not fit.
pub open spec fn signed_offset(end: Seq<char>) -> Option<isize> {
    match spec_parse_isize(end.skip(1)) {
        None => None,
        Some(v) => if end[0] == '-' {
            if v == isize::MIN { None } else { Some((-v) as isize) }
        } else {
            Some(v)
        },
    }
}

/// The error position for a byte offset, when the context around it can be
/// computed (always, for text that fits in memory).
pub open spec fn error_at(pos: int) -> Option<usize> {
    if 0 <= pos <= usize::MAX - crate::parser::errors::ERROR_CONTEXT_SIZE { Some(pos as usize) } else { None }
}

pub open spec fn step_hint() -> Seq<char> {
    "Step format: start~step\nExample: 1~2  - every 2nd line starting from line 1\n         10~5 - every 5th line starting from line 10"@
}

pub open spec fn step_value_hint() -> Seq<char> {
    "Step format: start~step\nThe step value must be a positive integer.\nExample: 1~2 or 10~5"@
}

pub open spec fn zero_step_hint() -> Seq<char> {
    "Use a positive integer for the step value.\nExample: 1~1 (every line) or 1~2 (every other line)"@
}

pub open spec fn slash_hint() -> Seq<char> {
    "Pattern addresses must be enclosed in slashes:\n  /pattern/\n  /^hello/\n  /goodbye$/"@
}

pub open spec fn address_hint() -> Seq<char> {
    "Valid address formats:\n  - Line number: 5, 10, 42\n  - Last line: $\n  - Pattern: /regex/\n  - Range: 1,10 or /start/,/end/\n  - Stepping: 1~2 (every 2nd line)\n  - Relative: /pat/,+5 (5 lines after pattern match)"@
}

pub open spec fn offset_hint() -> Seq<char> {
    "Relative offset format: start,+N or start,-N\nExample: /pattern/,+5  - 5 lines after pattern\n         10,-3       - 3 lines before line 10"@
}

/// The message of the error `spec_parse_address` gives for `addr` (of no
/// meaning where it gives an address).
pub open spec fn spec_address_message(addr: Seq<char>) -> Seq<char>
    decreases addr.len(),
{
    let a = trim(addr);
    if a.len() == 0 {
        "Empty address"@
    } else if a.last() == '!' {
        proof { lemma_trim_len(addr); }
        spec_address_message(a.drop_last())
    } else if find_char(a, '~') is Some {
        let t = find_char(a, '~').unwrap();
        let start_s = a.take(t);
        let step_s = a.skip(t + 1);
        let tp = crate::text::byte_len(start_s) as int;
        if spec_parse_usize(start_s) is None {
            spec_format_parse_error(a, error_at(tp), "invalid step start '"@ + start_s + "'"@, Some(step_hint()))
        } else if spec_parse_usize(step_s) is None {
            spec_format_parse_error(a, error_at(tp + 1), "invalid step value '"@ + step_s + "'"@, Some(step_value_hint()))
        } else {
            spec_format_parse_error(a, error_at(tp + 1), "step value cannot be zero"@, Some(zero_step_hint()))
        }
    } else if a[0] == '/' {
        spec_format_parse_error(a, error_at(crate::text::byte_len(a) as int), "pattern address is missing closing '/'"@, Some(slash_hint()))
    } else if a.last() == '/' {
        spec_format_parse_error(a, Some(0usize), "pattern address is missing opening '/'"@, Some(slash_hint()))
    } else {
        spec_format_parse_error(a, None, "invalid address '"@ + a + "'"@, Some(address_hint()))
    }
}

/// The message of the error `spec_parse_optional_range` gives for `addr`.
pub open spec fn spec_range_message(addr: Seq<char>) -> Seq<char> {
    let a = trim(addr);
    if find_char(a, ',') is Some {
        let c = find_char(a, ',').unwrap();
        let start = a.take(c);
        let end = a.skip(c + 1);
        if spec_parse_address(start) is Err {
            spec_address_message(start)
        } else if end.len() > 0 && (end[0] == '+' || end[0] == '-') {
            spec_format_parse_error(end, None, "invalid relative offset '"@ + end + "'"@, Some(offset_hint()))
        } else {
            spec_address_message(end)
        }
    } else {
        spec_address_message(a)
    }
}

/// The address range denoted by the text before a command.
pub open spec fn spec_parse_optional_range(addr: Seq<char>) -> Result<Option<SRange>, ParseErrorKind> {
    let a = trim(addr);
    if a.len() == 0 {
        Ok(None)
    } else if find_char(a, ',') is Some {
        let c = find_char(a, ',').unwrap();
        let start = a.take(c);
        let end = a.skip(c + 1);
        if end.len() > 0 && (end[0] == '+' || end[0] == '-') {
            match spec_parse_address(start) {
                Err(e) => Err(e),
                Ok(s) => match signed_offset(end) {
                    None => Err(ParseErrorKind::InvalidOffset),
                    Some(offset) => Ok(Some((s, SAddress::Relative { base: Box::new(s), offset }))),
                },
            }
        } else {
            match spec_parse_address(start) {
                Err(e) => Err(e),
                Ok(s) => match spec_parse_address(end) {
                    Err(e) => Err(e),
                    Ok(e2) => Ok(Some((s, e2))),
                },
            }
        }
    } else {
        match spec_parse_address(a) {
            Err(e) => Err(e),
            Ok(x) => Ok(Some((x, x))),
        }
    }
}

/// The range text holds an address that is a lone `/`.
pub open spec fn spec_range_malformed(addr: Seq<char>) -> bool {
    let a = trim(addr);
    if a.len() == 0 {
        false
    } else if find_char(a, ',') is Some {
        let c = find_char(a, ',').unwrap();
        let end = a.skip(c + 1);
        spec_address_malformed(a.take(c)) || (!(end.len() > 0 && (end[0] == '+' || end[0] == '-'))
            && spec_address_malformed(end))
    } else {
        spec_address_malformed(a)
    }
}

pub fn address_malformed(addr: &Vec<char>) -> (r: bool)
    ensures
        r == spec_address_malformed(addr@),
    decreases addr@.len(),
{
    let a = trim_vec(addr);
    proof { lemma_trim_len(addr@); }
    if a.len() == 0 {
        false
    } else if a[a.len() - 1] == '!' {
        let inner = slice_of(&a, 0, a.len() - 1);
        assert(inner@ =~= a@.drop_last());
        address_malformed(&inner)
    } else {
        let r = a.len() == 1 && a[0] == '/';
        assert(r == (a@ =~= seq!['/']));
        r
    }
}

pub fn range_malformed(addr: &Vec<char>) -> (r: bool)
    ensures
        r == spec_range_malformed(addr@),
{
    let a = trim_vec(addr);
    if a.len() == 0 {
        return false;
    }
    match find_char_exec(&a, ',') {
        Some(c) => {
            proof { lemma_find_from(a@, ',', 0); }
            let start = slice_of(&a, 0, c);
            let end = slice_of(&a, c + 1, a.len());
            assert(start@ =~= a@.take(c as int));
            assert(end@ =~= a@.skip(c + 1));
            address_malformed(&start) || (!(end.len() > 0 && (end[0] == '+' || end[0] == '-'))
                && address_malformed(&end))
        }
        None => address_malformed(&a),
    }
}

fn perr(kind: ParseErrorKind, msg: String) -> (e: ParseError)
    ensures
        e.kind == kind,
        e.message == msg,
{
    ParseError { kind, message: msg }
}

fn quoted(lead: &str, v: &Vec<char>) -> (s: String)
    ensures
        s@ == lead@ + v@ + "'"@,
{
    let mut s = str_to_string(lead);
    let t = string_of(v);
    push_str(&mut s, t.as_str());
    push_str(&mut s, "'");
    s
}

fn error_at_exec(pos: usize) -> (r: Option<usize>)
    ensures
        r == error_at(pos as int),
{
    if pos <= usize::MAX - crate::parser::errors::ERROR_CONTEXT_SIZE { Some(pos) } else { None }
}

fn error_after(pos: usize) -> (r: Option<usize>)
    ensures
        r == error_at(pos + 1),
{
    if pos < usize::MAX - crate::parser::errors::ERROR_CONTEXT_SIZE { Some(pos + 1) } else { None }
}

fn step_hint_exec() -> (s: &'static str)
    ensures
        s@ == step_hint(),
{
    "Step format: start~step\nExample: 1~2  - every 2nd line starting from line 1\n         10~5 - every 5th line starting from line 10"
}

fn step_value_hint_exec() -> (s: &'static str)
    ensures
        s@ == step_value_hint(),
{
    "Step format: start~step\nThe step value must be a positive integer.\nExample: 1~2 or 10~5"
}

fn zero_step_hint_exec() -> (s: &'static str)
    ensures
        s@ == zero_step_hint(),
{
    "Use a positive integer for the step value.\nExample: 1~1 (every line) or 1~2 (every other line)"
}

fn slash_hint_exec() -> (s: &'static str)
    ensures
        s@ == slash_hint(),
{
    "Pattern addresses must be enclosed in slashes:\n  /pattern/\n  /^hello/\n  /goodbye$/"
}

fn address_hint_exec() -> (s: &'static str)
    ensures
        s@ == address_hint(),
{
    "Valid address formats:\n  - Line number: 5, 10, 42\n  - Last line: $\n  - Pattern: /regex/\n  - Range: 1,10 or /start/,/end/\n  - Stepping: 1~2 (every 2nd line)\n  - Relative: /pat/,+5 (5 lines after pattern match)"
}

fn offset_hint_exec() -> (s: &'static str)
    ensures
        s@ == offset_hint(),
{
    "Relative offset format: start,+N or start,-N\nExample: /pattern/,+5  - 5 lines after pattern\n         10,-3       - 3 lines before line 10"
}

fn custom_delimiter_pattern(a: &Vec<char>) -> (r: Option<Vec<char>>)
    ensures
        match spec_custom_delimiter_pattern(a@) {
            Some(p) => r matches Some(v) && v@ == p,
            None => r is None,
        },
{
    let n = a.len();
    if n < 3 || a[0] != '\\' || a[n - 1] != a[1] {
        return None;
    }
    let mut i: usize = 2;
    let mut esc = false;
    while i < n - 1
        invariant
            2 <= i <= n - 1,
            n == a@.len(),
            esc == escaped_before(a@, 2, i as int),
        decreases n - i,
    {
        if esc {
            esc = false;
        } else if a[i] == '\\' {
            esc = true;
        }
        i += 1;
    }
    if esc {
        None
    } else {
        Some(slice_of(a, 2, n - 1))
    }
}

/// Parse one address (line number, `$`, `0`, `first~step`, `/regex/`,
/// `\Dregex\D`, or any of these followed by `!`).
pub fn parse_address_chars(addr: &Vec<char>) -> (r: Result<Address, ParseError>)
    requires
        !spec_address_malformed(addr@),
    ensures
        match spec_parse_address(addr@) {
            Ok(x) => r matches Ok(y) && y@ == x,
            Err(k) => r matches Err(e) && e.kind == k && e.message@ == spec_address_message(addr@),
        },
    decreases addr@.len(),
{
    let a = trim_vec(addr);
    proof { lemma_trim_len(addr@); }
    let n = a.len();
    if n == 0 {
        return Err(perr(ParseErrorKind::EmptyAddress, str_to_string("Empty address")));
    }
    if a[n - 1] == '!' {
        let inner = slice_of(&a, 0, n - 1);
        assert(inner@ =~= a@.drop_last());
        return match parse_address_chars(&inner) {
            Ok(x) => Ok(Address::Negated(Box::new(x))),
            Err(e) => Err(e),
        };
    }
    if n == 1 && a[0] == '0' {
        assert(a@ =~= seq!['0']);
        return Ok(Address::FirstLine);
    }
    if n == 1 && a[0] == '$' {
        assert(a@ =~= seq!['$']);
        return Ok(Address::LastLine);
    }
    assert(!(a@ =~= seq!['0']) && !(a@ =~= seq!['$']));
    match find_char_exec(&a, '~') {
        Some(t) => {
            proof { lemma_find_from(a@, '~', 0); }
            let start_s = slice_of(&a, 0, t);
            let step_s = slice_of(&a, t + 1, n);
            assert(start_s@ =~= a@.take(t as int));
            assert(step_s@ =~= a@.skip(t + 1));
            let tp = encode_chars(&start_s).len();
            let start = match parse_usize(&start_s) {
                Some(x) => x,
                None => {
                    let d = quoted("invalid step start '", &start_s);
                    let msg = format_error_chars(&a, error_at_exec(tp), d.as_str(), Some(step_hint_exec()));
                    return Err(perr(ParseErrorKind::InvalidStepStart, msg));
                }
            };
            let step = match parse_usize(&step_s) {
                Some(x) => x,
                None => {
                    let d = quoted("invalid step value '", &step_s);
                    let msg = format_error_chars(&a, error_after(tp), d.as_str(), Some(step_value_hint_exec()));
                    return Err(perr(ParseErrorKind::InvalidStepValue, msg));
                }
            };
            if step == 0 {
                let msg = format_error_chars(&a, error_after(tp), "step value cannot be zero", Some(zero_step_hint_exec()));
                return Err(perr(ParseErrorKind::ZeroStep, msg));
            }
            return Ok(Address::Step { start, step });
        }
        None => {}
    }
    match parse_usize(&a) {
        Some(num) => { return Ok(Address::LineNumber(num)); }
        None => {}
    }
    match custom_delimiter_pattern(&a) {
        Some(p) => { return Ok(Address::Pattern(string_of(&p))); }
        None => {}
    }
    if a[0] == '/' && a[n - 1] == '/' {
        assert(n != 1);
        return Ok(Address::Pattern(string_of_range(&a, 1, n - 1)));
    }
    if a[0] == '/' {
        let len = encode_chars(&a).len();
        let msg = format_error_chars(&a, error_at_exec(len), "pattern address is missing closing '/'", Some(slash_hint_exec()));
        return Err(perr(ParseErrorKind::MissingClosingSlash, msg));
    }
    if a[n - 1] == '/' {
        let msg = format_error_chars(&a, Some(0), "pattern address is missing opening '/'", Some(slash_hint_exec()));
        return Err(perr(ParseErrorKind::MissingOpeningSlash, msg));
    }
    let d = quoted("invalid address '", &a);
    let msg = format_error_chars(&a, None, d.as_str(), Some(address_hint_exec()));
    Err(perr(ParseErrorKind::InvalidAddress, msg))
}


/// Parse an optional address range (`1,5`, `/a/,/b/`, `/a/,+3`, `10`, ...);
/// empty text means no range.
pub fn parse_optional_range_chars(addr: &Vec<char>) -> (r: Result<Option<(Address, Address)>, ParseError>)
    requires
        !spec_range_malformed(addr@),
    ensures
        match spec_parse_optional_range(addr@) {
            Ok(x) => r matches Ok(y) && crate::command::opt_range_view(y) == x,
            Err(k) => r matches Err(e) && e.kind == k && e.message@ == spec_range_message(addr@),
        },
{
    let a = trim_vec(addr);
    let n = a.len();
    if n == 0 {
        return Ok(None);
    }
    match find_char_exec(&a, ',') {
        Some(c) => {
            proof { lemma_find_from(a@, ',', 0); }
            let start = slice_of(&a, 0, c);
            let end = slice_of(&a, c + 1, n);
            assert(start@ =~= a@.take(c as int));
            assert(end@ =~= a@.skip(c + 1));
            if end.len() > 0 && (end[0] == '+' || end[0] == '-') {
                let start_addr = match parse_address_chars(&start) {
                    Ok(x) => x,
                    Err(e) => { return Err(e); }
                };
                let off_s = slice_of(&end, 1, end.len());
                assert(off_s@ =~= end@.skip(1));
                let parsed = match parse_isize(&off_s) {
                    Some(o) => if end[0] == '-' {
                        if o == isize::MIN { None } else { Some(-o) }
                    } else {
                        Some(o)
                    },
                    None => None,
                };
                let offset = match parsed {
                    Some(o) => o,
                    None => {
                        let d = quoted("invalid relative offset '", &end);
                        let msg = format_error_chars(&end, None, d.as_str(), Some(offset_hint_exec()));
                        return Err(perr(ParseErrorKind::InvalidOffset, msg));
                    }
                };
                let base = start_addr.clone();
                Ok(Some((start_addr, Address::Relative { base: Box::new(base), offset })))
            } else {
                let start_addr = match parse_address_chars(&start) {
                    Ok(x) => x,
                    Err(e) => { return Err(e); }
                };
                let end_addr = match parse_address_chars(&end) {
                    Ok(x) => x,
                    Err(e) => { return Err(e); }
                };
                Ok(Some((start_addr, end_addr)))
            }
        }
        None => {
            let x = match parse_address_chars(&a) {
                Ok(x) => x,
                Err(e) => { return Err(e); }
            };
            let y = x.clone();
            Ok(Some((y, x)))
        }
    }
}

/// Parse one address.
pub fn parse_address(addr: &str) -> (r: Result<Address, ParseError>)
    requires
        !spec_address_malformed(addr@),
    ensures
        match spec_parse_address(addr@) {
            Ok(x) => r matches Ok(y) && y@ == x,
            Err(k) => r matches Err(e) && e.kind == k && e.message@ == spec_address_message(addr@),
        },
{
    let v = chars_of(addr);
    parse_address_chars(&v)
}

/// Parse an optional address range; empty text means no range.
pub fn parse_optional_range(addr_part: &str) -> (r: Result<Option<(Address, Address)>, ParseError>)
    requires
        !spec_range_malformed(addr_part@),
    ensures
        match spec_parse_optional_range(addr_part@) {
            Ok(x) => r matches Ok(y) && crate::command::opt_range_view(y) == x,
            Err(k) => r matches Err(e) && e.kind == k && e.message@ == spec_range_message(addr_part@),
        },
{
    let v = chars_of(addr_part);
    parse_optional_range_chars(&v)
}

/// A blank range text denotes no range; a range text without a comma
/// denotes the single address it holds, as both ends of the range (or the
/// error that address gives).
pub proof fn lemma_single_address_range(s: Seq<char>)
    ensures
        trim(s).len() == 0 ==> spec_parse_optional_range(s) == Ok::<Option<SRange>, ParseErrorKind>(None),
        trim(s).len() > 0 && !s.contains(',') ==> match spec_parse_address(s) {
            Ok(a) => spec_parse_optional_range(s) == Ok::<Option<SRange>, ParseErrorKind>(Some((a, a))),
            Err(k) => spec_parse_optional_range(s) == Err::<Option<SRange>, ParseErrorKind>(k),
        },
{
    let a = trim(s);
    if a.len() > 0 && !s.contains(',') {
        crate::text::lemma_ltrim_len(s);
        crate::text::lemma_rtrim_len(crate::text::ltrim(s));
        let k = choose|k: int| 0 <= k <= s.len() && crate::text::ltrim(s) == s.skip(k);
        lemma_find_from(a, ',', 0);
        assert(find_char(a, ',') is None) by {
            if let Some(m) = find_char(a, ',') {
                assert(a[m] == s[k + m]);
            }
        }
        crate::text::lemma_trim_idem(s);
        assert(trim(a) == a);
        assert(spec_parse_address(a) == spec_parse_address(s));
    }
}

} // verus!
