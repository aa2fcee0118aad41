//! The substitution command `s/pattern/replacement/flags`.
use vstd::prelude::*;
use vstd::wrapping::usize_specs::{wrapping_add, wrapping_mul};
use crate::command::{Command, SCommand, SubstitutionFlags, opt_range_view};
use crate::parser::address::{parse_optional_range_chars, range_malformed, spec_parse_optional_range, spec_range_malformed};
use crate::parser::commands::{find_cmd_index, spec_cmd_index};
use crate::parser::errors::{ParseError, ParseErrorKind, format_error_chars, spec_format_parse_error};
use crate::parser::address::{error_at, spec_range_message};
use crate::text::{Encoded, byte_len, chars_of, encode_chars, is_digit, push_char, push_str, slice_of, str_to_string, string_of};

verus! {

/// The flags from index `i` on: `g`, `p`, `i`/`I`, and a decimal count whose
/// digits accumulate with wrapping `usize` arithmetic (a later count starts
/// afresh); any other character is an error.
pub open spec fn spec_fold_flags(f: Seq<char>, i: int, out: SubstitutionFlags) -> Result<SubstitutionFlags, ParseErrorKind>
    decreases f.len() - i,
{
    if i < 0 || i >= f.len() {
        Ok(out)
    } else if f[i] == 'g' {
        spec_fold_flags(f, i + 1, SubstitutionFlags { global: true, ..out })
    } else if f[i] == 'p' {
        spec_fold_flags(f, i + 1, SubstitutionFlags { print: true, ..out })
    } else if f[i] == 'i' || f[i] == 'I' {
        spec_fold_flags(f, i + 1, SubstitutionFlags { case_insensitive: true, ..out })
    } else if is_digit(f[i]) {
        let d = ((f[i] as u32) - ('0' as u32)) as usize;
        let prev = match out.nth { Some(x) => x, None => 0usize };
        let nth = if i > 0 && is_digit(f[i - 1]) { wrapping_add(wrapping_mul(prev, 10), d) } else { d };
        spec_fold_flags(f, i + 1, SubstitutionFlags { nth: Some(nth), ..out })
    } else {
        Err(ParseErrorKind::UnknownFlag)
    }
}

/// A character that is a substitution flag.
pub open spec fn flag_char(c: char) -> bool {
    c == 'g' || c == 'p' || c == 'i' || c == 'I' || is_digit(c)
}

/// The index of the first character from `i` on that is no flag (the
/// length when there is none).
pub open spec fn bad_flag(f: Seq<char>, i: int) -> int
    decreases f.len() - i,
{
    if i < 0 || i >= f.len() {
        f.len() as int
    } else if flag_char(f[i]) {
        bad_flag(f, i + 1)
    } else {
        i
    }
}

proof fn lemma_flags_ok_all_flags(f: Seq<char>, i: int, out: SubstitutionFlags)
    requires
        0 <= i,
    ensures
        spec_fold_flags(f, i, out) is Ok ==> bad_flag(f, i) >= f.len(),
    decreases f.len() - i,
{
    if i < f.len() {
        let d = ((f[i] as u32) - ('0' as u32)) as usize;
        let prev = match out.nth { Some(x) => x, None => 0usize };
        let nth = if i > 0 && is_digit(f[i - 1]) { wrapping_add(wrapping_mul(prev, 10), d) } else { d };
        lemma_flags_ok_all_flags(f, i + 1, SubstitutionFlags { global: true, ..out });
        lemma_flags_ok_all_flags(f, i + 1, SubstitutionFlags { print: true, ..out });
        lemma_flags_ok_all_flags(f, i + 1, SubstitutionFlags { case_insensitive: true, ..out });
        lemma_flags_ok_all_flags(f, i + 1, SubstitutionFlags { nth: Some(nth), ..out });
    }
}

pub open spec fn flags_hint() -> Seq<char> {
    "Valid substitution flags are: g, p, i, I, or digits for the nth match"@
}

fn flags_hint_exec() -> (s: &'static str)
    ensures
        s@ == flags_hint(),
{
    "Valid substitution flags are: g, p, i, I, or digits for the nth match"
}

/// The message for an unknown flag: the text `cmd`, the byte position of
/// the flag in it, and the flag.
pub open spec fn unknown_flag_message(cmd: Seq<char>, pos: int, flag: char) -> Seq<char> {
    spec_format_parse_error(cmd, error_at(pos), "unknown substitution flag '"@ + seq![flag] + "'"@, Some(flags_hint()))
}

fn unknown_flag_message_exec(cmd: &Vec<char>, pos: Option<usize>, flag: char) -> (m: String)
    requires
        pos matches Some(p) ==> p <= usize::MAX - crate::parser::errors::ERROR_CONTEXT_SIZE,
    ensures
        m@ == spec_format_parse_error(cmd@, pos, "unknown substitution flag '"@ + seq![flag] + "'"@, Some(flags_hint())),
{
    let mut d = str_to_string("unknown substitution flag '");
    push_char(&mut d, flag);
    push_str(&mut d, "'");
    format_error_chars(cmd, pos, d.as_str(), Some(flags_hint_exec()))
}

pub open spec fn no_flags() -> SubstitutionFlags {
    SubstitutionFlags { global: false, print: false, case_insensitive: false, nth: None }
}

fn fold_flags_chars(f: &Vec<char>) -> (r: Result<SubstitutionFlags, usize>)
    ensures
        match spec_fold_flags(f@, 0, no_flags()) {
            Ok(x) => r == Ok::<SubstitutionFlags, usize>(x),
            Err(k) => k == ParseErrorKind::UnknownFlag && (r matches Err(j) && j == bad_flag(f@, 0) && j < f@.len()),
        },
{
    let mut out = SubstitutionFlags { global: false, print: false, case_insensitive: false, nth: None };
    let n = f.len();
    let mut index: usize = 0;
    while index < n
        invariant
            index <= n == f@.len(),
            spec_fold_flags(f@, 0, no_flags()) == spec_fold_flags(f@, index as int, out),
            bad_flag(f@, 0) == bad_flag(f@, index as int),
            index > 0 && is_digit(f@[index - 1]) ==> out.nth is Some,
        decreases n - index,
    {
        let c = f[index];
        if c == 'g' {
            out.global = true;
        } else if c == 'p' {
            out.print = true;
        } else if c == 'i' || c == 'I' {
            out.case_insensitive = true;
        } else if '0' <= c && c <= '9' {
            let d = (c as u32 - '0' as u32) as usize;
            let prev = match out.nth { Some(x) => x, None => 0 };
            let nth = if index > 0 && '0' <= f[index - 1] && f[index - 1] <= '9' {
                prev.wrapping_mul(10).wrapping_add(d)
            } else {
                d
            };
            out.nth = Some(nth);
        } else {
            return Err(index);
        }
        index += 1;
    }
    Ok(out)
}

/// Fold a raw sed-flag character sequence into a `SubstitutionFlags` value.
/// `cmd` and `flags_pos` only place the error message.
pub fn fold_substitution_flags(cmd: &str, flags: &str, flags_pos: usize) -> (r: Result<SubstitutionFlags, ParseError>)
    ensures
        match spec_fold_flags(flags@, 0, no_flags()) {
            Ok(x) => r == Ok::<SubstitutionFlags, ParseError>(x),
            Err(k) => r matches Err(e) && e.kind == k && e.message@ == unknown_flag_message(
                cmd@,
                flags_pos + byte_len(flags@.take(bad_flag(flags@, 0))),
                flags@[bad_flag(flags@, 0)],
            ),
        },
{
    let f = chars_of(flags);
    match fold_flags_chars(&f) {
        Ok(x) => Ok(x),
        Err(j) => {
            let c = chars_of(cmd);
            let b = encode_chars(&slice_of(&f, 0, j)).len();
            let lim = usize::MAX - crate::parser::errors::ERROR_CONTEXT_SIZE;
            let pos = if flags_pos <= lim && b <= lim - flags_pos { Some(flags_pos + b) } else { None };
            assert(f@.subrange(0, j as int) =~= f@.take(j as int));
            let msg = unknown_flag_message_exec(&c, pos, f[j]);
            Err(ParseError { kind: ParseErrorKind::UnknownFlag, message: msg })
        }
    }
}

/// One section of a substitution, scanned from index `i` up to an unescaped
/// delimiter: the section text and the index after the delimiter. An escaped
/// delimiter is kept escaped when `preserve` holds and unescaped otherwise;
/// other escapes are kept. A missing delimiter (or a trailing backslash) gives
/// `None`.
pub open spec fn spec_scan_section(s: Seq<char>, i: int, d: char, preserve: bool) -> Option<(Seq<char>, int)>
    decreases s.len() - i,
{
    if i < 0 || i >= s.len() {
        None
    } else if s[i] == d {
        Some((Seq::empty(), i + 1))
    } else if s[i] == '\\' {
        if i + 1 >= s.len() {
            None
        } else {
            let piece = if s[i + 1] == d {
                if preserve { seq!['\\', d] } else { seq![d] }
            } else {
                seq!['\\', s[i + 1]]
            };
            match spec_scan_section(s, i + 2, d, preserve) {
                Some((sec, j)) => Some((piece + sec, j)),
                None => None,
            }
        }
    } else {
        match spec_scan_section(s, i + 1, d, preserve) {
            Some((sec, j)) => Some((seq![s[i]] + sec, j)),
            None => None,
        }
    }
}

proof fn lemma_scan_section_bounds(s: Seq<char>, i: int, d: char, p: bool)
    requires
        0 <= i,
    ensures
        spec_scan_section(s, i, d, p) matches Some((sec, j)) ==> i < j <= s.len(),
    decreases s.len() - i,
{
    if 0 <= i < s.len() && s[i] != d {
        if s[i] == '\\' {
            if i + 1 < s.len() {
                lemma_scan_section_bounds(s, i + 2, d, p);
            }
        } else {
            lemma_scan_section_bounds(s, i + 1, d, p);
        }
    }
}

fn scan_substitution_section(s: &Vec<char>, start: usize, d: char, preserve: bool) -> (r: Option<(Vec<char>, usize)>)
    ensures
        match spec_scan_section(s@, start as int, d, preserve) {
            Some((sec, j)) => r matches Some(x) && x.0@ == sec && x.1 == j,
            None => r is None,
        },
{
    proof { lemma_scan_section_bounds(s@, start as int, d, preserve); }
    let n = s.len();
    let mut sec: Vec<char> = Vec::new();
    let mut i = start;
    while i < n
        invariant
            start <= i,
            n == s@.len(),
            match spec_scan_section(s@, i as int, d, preserve) {
                Some((rest, j)) => spec_scan_section(s@, start as int, d, preserve) == Some((sec@ + rest, j)),
                None => spec_scan_section(s@, start as int, d, preserve) is None,
            },
        decreases n - i,
    {
        let c = s[i];
        if c == d {
            assert(sec@ + Seq::<char>::empty() =~= sec@);
            return Some((sec, i + 1));
        }
        if c == '\\' {
            if i + 1 >= n {
                return None;
            }
            let next = s[i + 1];
            let ghost before = sec@;
            if next == d {
                if preserve {
                    sec.push('\\');
                    sec.push(d);
                } else {
                    sec.push(d);
                }
            } else {
                sec.push('\\');
                sec.push(next);
            }
            proof {
                let piece = if next == d { if preserve { seq!['\\', d] } else { seq![d] } } else { seq!['\\', next] };
                assert(sec@ =~= before + piece);
                match spec_scan_section(s@, i + 2, d, preserve) {
                    Some((rest, j)) => { assert(before + (piece + rest) =~= sec@ + rest); }
                    None => {}
                }
            }
            i = i + 2;
            continue;
        }
        let ghost before = sec@;
        sec.push(c);
        proof {
            match spec_scan_section(s@, i + 1, d, preserve) {
                Some((rest, j)) => { assert(before + (seq![c] + rest) =~= sec@ + rest); }
                None => {}
            }
        }
        i += 1;
    }
    None
}

/// What a substitution command parses to.
pub open spec fn spec_parse_substitution(s: Seq<char>) -> Result<SCommand, ParseErrorKind> {
    match spec_cmd_index(s) {
        None => Err(ParseErrorKind::MissingDelimiter),
        Some(k) => if s[k] != 's' {
            Err(ParseErrorKind::NotSubstitution)
        } else {
            let rest = s.skip(k + 1);
            let d = rest[0];
            match spec_scan_section(rest, 1, d, true) {
                None => Err(ParseErrorKind::MissingPatternDelimiter),
                Some((pattern, rs)) => match spec_scan_section(rest, rs, d, false) {
                    None => Err(ParseErrorKind::MissingReplacementDelimiter),
                    Some((replacement, fs)) => match spec_fold_flags(rest.skip(fs), 0, no_flags()) {
                        Err(e) => Err(e),
                        Ok(flags) => if spec_range_malformed(s.take(k)) {
                            Err(ParseErrorKind::MalformedText)
                        } else {
                            match spec_parse_optional_range(s.take(k)) {
                                Err(e) => Err(e),
                                Ok(range) => Ok(SCommand::Substitution { pattern, replacement, flags, range }),
                            }
                        },
                    },
                },
            }
        },
    }
}

pub open spec fn delimiter_hint() -> Seq<char> {
    "Substitution format: s<delimiter>pattern<delimiter>replacement<delimiter>[flags]\nDelimiters: / (slash), # (hash), : (colon), | (pipe)\nExample: s/foo/bar/ or s#old#new#g"@
}

pub open spec fn substitution_hint() -> Seq<char> {
    "Substitution format: s<delimiter>pattern<delimiter>replacement<delimiter>[flags]\nExample: s/foo/bar/ or /pattern/s/foo/bar/"@
}

pub open spec fn pattern_delimiter_hint() -> Seq<char> {
    "Each substitution needs three delimiters: s/pattern/replacement/\n                ^       ^           ^"@
}

pub open spec fn replacement_delimiter_hint() -> Seq<char> {
    "The replacement string must be followed by the delimiter:\n  s/pattern/replacement/"@
}

/// The message of the error `spec_parse_substitution` gives for `s`.
pub open spec fn spec_substitution_message(s: Seq<char>) -> Seq<char> {
    match spec_cmd_index(s) {
        None => spec_format_parse_error(s, None, "'s' command not followed by a valid delimiter"@, Some(delimiter_hint())),
        Some(k) => {
            let sp = byte_len(s.take(k)) as int;
            if s[k] != 's' {
                spec_format_parse_error(
                    s,
                    error_at(sp),
                    "expected substitution command but found '"@ + seq![s[k]] + "'"@,
                    Some(substitution_hint()),
                )
            } else {
                let rest = s.skip(k + 1);
                let d = rest[0];
                match spec_scan_section(rest, 1, d, true) {
                    None => spec_format_parse_error(
                        s,
                        error_at(sp + 1),
                        "missing closing delimiter: missing second '"@ + seq![d] + "' delimiter after pattern"@,
                        Some(pattern_delimiter_hint()),
                    ),
                    Some((_, rs)) => match spec_scan_section(rest, rs, d, false) {
                        None => spec_format_parse_error(
                            s,
                            error_at(sp + 1),
                            "missing closing delimiter: missing third '"@ + seq![d] + "' delimiter after replacement"@,
                            Some(replacement_delimiter_hint()),
                        ),
                        Some((_, fs)) => {
                            let f = rest.skip(fs);
                            let j = bad_flag(f, 0);
                            if j < f.len() {
                                unknown_flag_message(s, sp + 1 + byte_len(rest.take(fs)) + byte_len(f.take(j)), f[j])
                            } else if spec_range_malformed(s.take(k)) {
                                spec_format_parse_error(s, None, "malformed address text"@, None)
                            } else {
                                spec_range_message(s.take(k))
                            }
                        },
                    },
                }
            }
        },
    }
}

fn hint_str(which: u8) -> (s: &'static str)
    requires
        which < 4,
    ensures
        which == 0 ==> s@ == delimiter_hint(),
        which == 1 ==> s@ == substitution_hint(),
        which == 2 ==> s@ == pattern_delimiter_hint(),
        which == 3 ==> s@ == replacement_delimiter_hint(),
{
    if which == 0 {
        "Substitution format: s<delimiter>pattern<delimiter>replacement<delimiter>[flags]\nDelimiters: / (slash), # (hash), : (colon), | (pipe)\nExample: s/foo/bar/ or s#old#new#g"
    } else if which == 1 {
        "Substitution format: s<delimiter>pattern<delimiter>replacement<delimiter>[flags]\nExample: s/foo/bar/ or /pattern/s/foo/bar/"
    } else if which == 2 {
        "Each substitution needs three delimiters: s/pattern/replacement/\n                ^       ^           ^"
    } else {
        "The replacement string must be followed by the delimiter:\n  s/pattern/replacement/"
    }
}

fn at_exec(pos: usize) -> (r: Option<usize>)
    ensures
        r == error_at(pos as int),
{
    if pos <= usize::MAX - crate::parser::errors::ERROR_CONTEXT_SIZE { Some(pos) } else { None }
}

fn quoted_char(lead: &str, c: char, tail: &str) -> (s: String)
    ensures
        s@ == lead@ + seq![c] + tail@,
{
    let mut s = str_to_string(lead);
    push_char(&mut s, c);
    push_str(&mut s, tail);
    s
}

pub fn parse_substitution_chars(v: &Vec<char>) -> (r: Result<Command, ParseError>)
    ensures
        match spec_parse_substitution(v@) {
            Ok(x) => r matches Ok(y) && y@ == x,
            Err(k) => r matches Err(e) && e.kind == k && e.message@ == spec_substitution_message(v@),
        },
{
    let e = Encoded::new(slice_of(v, 0, v.len()));
    assert(v@.subrange(0, v@.len() as int) =~= v@);
    let k = match find_cmd_index(&e) {
        None => {
            let msg = format_error_chars(v, None, "'s' command not followed by a valid delimiter", Some(hint_str(0)));
            return Err(ParseError { kind: ParseErrorKind::MissingDelimiter, message: msg });
        }
        Some(k) => k,
    };
    let sp = encode_chars(&slice_of(v, 0, k)).len();
    assert(v@.subrange(0, k as int) =~= v@.take(k as int));
    if v[k] != 's' {
        let d = quoted_char("expected substitution command but found '", v[k], "'");
        let msg = format_error_chars(v, at_exec(sp), d.as_str(), Some(hint_str(1)));
        return Err(ParseError { kind: ParseErrorKind::NotSubstitution, message: msg });
    }
    let n = v.len();
    let rest = slice_of(v, k + 1, n);
    assert(rest@ =~= v@.skip(k + 1));
    let d = rest[0];
    let (pattern, rs) = match scan_substitution_section(&rest, 1, d, true) {
        None => {
            let dd = quoted_char("missing closing delimiter: missing second '", d, "' delimiter after pattern");
            let at = if sp < usize::MAX { at_exec(sp + 1) } else { None };
            let msg = format_error_chars(v, at, dd.as_str(), Some(hint_str(2)));
            return Err(ParseError { kind: ParseErrorKind::MissingPatternDelimiter, message: msg });
        }
        Some(x) => x,
    };
    proof { lemma_scan_section_bounds(rest@, 1, d, true); }
    let (replacement, fs) = match scan_substitution_section(&rest, rs, d, false) {
        None => {
            let dd = quoted_char("missing closing delimiter: missing third '", d, "' delimiter after replacement");
            let at = if sp < usize::MAX { at_exec(sp + 1) } else { None };
            let msg = format_error_chars(v, at, dd.as_str(), Some(hint_str(3)));
            return Err(ParseError { kind: ParseErrorKind::MissingReplacementDelimiter, message: msg });
        }
        Some(x) => x,
    };
    proof { lemma_scan_section_bounds(rest@, rs as int, d, false); }
    let fl = slice_of(&rest, fs, rest.len());
    assert(fl@ =~= rest@.skip(fs as int));
    let flags = match fold_flags_chars(&fl) {
        Ok(f) => f,
        Err(j) => {
            let b1 = encode_chars(&slice_of(&rest, 0, fs)).len();
            let b2 = encode_chars(&slice_of(&fl, 0, j)).len();
            assert(rest@.subrange(0, fs as int) =~= rest@.take(fs as int));
            assert(fl@.subrange(0, j as int) =~= fl@.take(j as int));
            let lim = usize::MAX - crate::parser::errors::ERROR_CONTEXT_SIZE;
            let pos = if sp < lim && b1 <= lim - 1 - sp && b2 <= lim - 1 - sp - b1 {
                Some(sp + 1 + b1 + b2)
            } else {
                None
            };
            let msg = unknown_flag_message_exec(v, pos, fl[j]);
            return Err(ParseError { kind: ParseErrorKind::UnknownFlag, message: msg });
        }
    };
    proof { lemma_flags_ok_all_flags(fl@, 0, no_flags()); }
    let ap = slice_of(v, 0, k);
    assert(ap@ =~= v@.take(k as int));
    if range_malformed(&ap) {
        let msg = format_error_chars(v, None, "malformed address text", None);
        return Err(ParseError { kind: ParseErrorKind::MalformedText, message: msg });
    }
    let range = match parse_optional_range_chars(&ap) {
        Ok(r) => r,
        Err(e) => { return Err(e); }
    };
    Ok(Command::Substitution { pattern: string_of(&pattern), replacement: string_of(&replacement), flags, range })
}

/// Parse `[range]s<d>pattern<d>replacement<d>[flags]`.
pub fn parse_substitution(cmd: &str) -> (r: Result<Command, ParseError>)
    ensures
        match spec_parse_substitution(cmd@) {
            Ok(x) => r matches Ok(y) && y@ == x,
            Err(k) => r matches Err(e) && e.kind == k && e.message@ == spec_substitution_message(cmd@),
        },
{
    parse_substitution_chars(&chars_of(cmd))
}

} // verus!
