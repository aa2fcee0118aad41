//! Address matching, the substitution engine and the diff records shared by
//! both engines.
use vstd::prelude::*;
use vstd::utf8::*;
use crate::cli::RegexFlavor;
use crate::command::{Address, SAddress, SubstitutionFlags};
use crate::regex_engine::{
    CompiledRegex, regex_is_match, regex_new, regex_new_error, regex_nth_capture, regex_replace_all,
    regex_replace_first,
};
use crate::regex_error::{EnhancedRegexError, compile_regex_with_context, spec_compile_outcome, spec_enhanced};
use crate::text::{chars_of, push_char, push_str, str_to_string};

verus! {

broadcast use vstd::string::group_string_axioms;

// ---------------------------------------------------------------------------
// Addresses

/// What an address is matched against: the pattern space, its line number,
/// the number of lines when known, and whether this is the last line.
pub struct AddressContext<'a> {
    pub line: &'a str,
    pub line_number: usize,
    pub total_lines: Option<usize>,
    pub is_last_line: bool,
}

/// Whether `(line_number - start)` is a multiple of `step`, where a zero
/// step means equality (`usize::is_multiple_of`).
pub open spec fn is_step_multiple(diff: int, step: int) -> bool {
    if step == 0 { diff == 0 } else { diff % step == 0 }
}

/// Whether an address selects the current line. A pattern that does not
/// compile selects nothing.
pub open spec fn spec_matches(a: SAddress, line: Seq<char>, n: usize, total: Option<usize>, last: bool) -> bool
    decreases a,
{
    match a {
        SAddress::LineNumber(k) => n == k,
        SAddress::Pattern(p) => regex_new_error(p) is None && regex_is_match((p, false), line),
        SAddress::FirstLine => n == 1,
        SAddress::LastLine => match total {
            Some(t) => n == t,
            None => last,
        },
        SAddress::Negated(inner) => !spec_matches(*inner, line, n, total, last),
        SAddress::Relative { base, offset } => {
            let base_line: int = match *base {
                SAddress::LineNumber(k) => k as int,
                _ => n as int,
            };
            base_line + offset == n
        },
        SAddress::Step { start, step } => n >= start && is_step_multiple(n - start, step as int),
        SAddress::Single(inner) => spec_matches(*inner, line, n, total, last),
    }
}

/// Whether an address selects the line described by `context`.
pub fn matches_address(address: &Address, context: &AddressContext<'_>) -> (b: bool)
    ensures
        b == spec_matches(address@, context.line@, context.line_number, context.total_lines, context.is_last_line),
    decreases address,
{
    match address {
        Address::LineNumber(n) => context.line_number == *n,
        Address::Pattern(pattern) => match regex_new(pattern.as_str()) {
            Ok(re) => re.is_match(context.line),
            Err(_) => false,
        },
        Address::FirstLine => context.line_number == 1,
        Address::LastLine => match context.total_lines {
            Some(total) => context.line_number == total,
            None => context.is_last_line,
        },
        Address::Negated(inner) => !matches_address(inner, context),
        Address::Relative { base, offset } => {
            let base_line: i128 = match &**base {
                Address::LineNumber(n) => {
                    assert((**base)@ == SAddress::LineNumber(*n));
                    *n as i128
                }
                _ => {
                    assert(!((**base)@ is LineNumber));
                    context.line_number as i128
                }
            };
            base_line + (*offset as i128) == context.line_number as i128
        }
        Address::Step { start, step } => {
            if context.line_number < *start {
                false
            } else {
                let diff = context.line_number - *start;
                if *step == 0 {
                    diff == 0
                } else {
                    diff % *step == 0
                }
            }
        }
        Address::Single(inner) => matches_address(inner, context),
    }
}

/// Why an address could not be checked: a pattern in it does not compile.
pub open spec fn address_error(a: SAddress) -> bool
    decreases a,
{
    match a {
        SAddress::Pattern(p) => regex_new_error(p) is Some,
        SAddress::Negated(inner) => address_error(*inner),
        SAddress::Single(inner) => address_error(*inner),
        _ => false,
    }
}

/// Like `matches_address`, but a pattern that does not compile (directly,
/// or under a negation or single-line marker) is reported.
pub fn try_matches_address(address: &Address, context: &AddressContext<'_>) -> (r: Result<bool, String>)
    ensures
        address_error(address@) <==> r is Err,
        r matches Ok(b) ==> b == spec_matches(
            address@,
            context.line@,
            context.line_number,
            context.total_lines,
            context.is_last_line,
        ),
    decreases address,
{
    match address {
        Address::Pattern(pattern) => match regex_new(pattern.as_str()) {
            Ok(re) => Ok(re.is_match(context.line)),
            Err(_) => {
                let mut msg = str_to_string("Invalid regex pattern: ");
                push_str(&mut msg, pattern.as_str());
                Err(msg)
            }
        },
        Address::Negated(inner) => match try_matches_address(inner, context) {
            Ok(b) => Ok(!b),
            Err(e) => Err(e),
        },
        Address::Single(inner) => try_matches_address(inner, context),
        _ => Ok(matches_address(address, context)),
    }
}

// ---------------------------------------------------------------------------
// Substitution

/// An ASCII hexadecimal digit.
pub open spec fn is_hex(c: char) -> bool {
    ('0' <= c && c <= '9') || ('a' <= c && c <= 'f') || ('A' <= c && c <= 'F')
}

/// The value of a hexadecimal digit.
pub open spec fn hex_val(c: char) -> nat {
    if '0' <= c && c <= '9' {
        (c as nat - '0' as nat) as nat
    } else if 'a' <= c && c <= 'f' {
        (c as nat - 'a' as nat + 10) as nat
    } else {
        (c as nat - 'A' as nat + 10) as nat
    }
}

/// The number of hexadecimal digits at index `j` on, at most `max`.
pub open spec fn hex_run(s: Seq<char>, j: int, max: nat) -> nat
    decreases max,
{
    if max == 0 || j < 0 || j >= s.len() || !is_hex(s[j]) {
        0
    } else {
        1 + hex_run(s, j + 1, (max - 1) as nat)
    }
}

/// The value of the hexadecimal digits `d`.
pub open spec fn hex_value(d: Seq<char>) -> nat
    decreases d.len(),
{
    if d.len() == 0 {
        0
    } else {
        hex_value(d.drop_last()) * 16 + hex_val(d.last())
    }
}

/// `char::from_u32`: the character with that code point, if it is one.
pub open spec fn char_of(v: nat) -> Option<char> {
    if v <= 0x10FFFF && !(0xD800 <= v && v <= 0xDFFF) {
        Some(v as char)
    } else {
        None
    }
}

/// `char::from_u32`: the character with the given code point; code points
/// past `U+10FFFF` and the surrogates are none.
#[verifier::external_body]
fn char_from_u32(v: u32) -> (r: Option<char>)
    ensures
        r == char_of(v as nat),
{
    char::from_u32(v)
}

/// The character a `\x` or `\u` escape with the digits `d` stands for: none
/// without digits, or when the value is not a character.
pub open spec fn hex_escape_char(d: Seq<char>) -> Option<char> {
    if d.len() == 0 { None } else { char_of(hex_value(d)) }
}

/// The replacement text from index `i` on with its escapes processed:
/// `\n`, `\t`, `\r`, `\\`, `\xHH` and `\uHHHH` become the characters they
/// name; any other escaped character keeps its backslash.
pub open spec fn escapes_from(s: Seq<char>, i: int) -> Seq<char>
    decreases s.len() - i,
{
    if i < 0 || i >= s.len() {
        Seq::empty()
    } else if s[i] != '\\' {
        seq![s[i]] + escapes_from(s, i + 1)
    } else if i + 1 >= s.len() {
        seq!['\\']
    } else {
        let c = s[i + 1];
        if c == 'n' {
            seq!['\n'] + escapes_from(s, i + 2)
        } else if c == 't' {
            seq!['\t'] + escapes_from(s, i + 2)
        } else if c == 'r' {
            seq!['\r'] + escapes_from(s, i + 2)
        } else if c == '\\' {
            seq!['\\'] + escapes_from(s, i + 2)
        } else if c == 'x' || c == 'u' {
            let max: nat = if c == 'x' { 2 } else { 4 };
            let k = hex_run(s, i + 2, max);
            proof { lemma_hex_run(s, i + 2, max); }
            let d = s.subrange(i + 2, i + 2 + k);
            let out = match hex_escape_char(d) {
                Some(ch) => seq![ch],
                None => Seq::empty(),
            };
            out + escapes_from(s, i + 2 + k)
        } else {
            seq!['\\', c] + escapes_from(s, i + 2)
        }
    }
}

/// The replacement text with its escapes processed.
pub open spec fn spec_process_escapes(s: Seq<char>) -> Seq<char> {
    escapes_from(s, 0)
}

pub proof fn lemma_hex_run(s: Seq<char>, j: int, max: nat)
    requires
        0 <= j <= s.len(),
    ensures
        hex_run(s, j, max) <= max,
        j + hex_run(s, j, max) <= s.len(),
        forall|k: int| j <= k < j + hex_run(s, j, max) ==> is_hex(#[trigger] s[k]),
    decreases max,
{
    if !(max == 0 || j >= s.len() || !is_hex(s[j])) {
        lemma_hex_run(s, j + 1, (max - 1) as nat);
    }
}

proof fn lemma_hex_value_bound(d: Seq<char>)
    requires
        forall|k: int| 0 <= k < d.len() ==> is_hex(#[trigger] d[k]),
    ensures
        hex_value(d) < pow16(d.len()),
    decreases d.len(),
{
    if d.len() > 0 {
        assert forall|k: int| 0 <= k < d.drop_last().len() implies is_hex(#[trigger] d.drop_last()[k]) by {
            assert(d.drop_last()[k] == d[k]);
        }
        lemma_hex_value_bound(d.drop_last());
        assert(is_hex(d[d.len() - 1]));
        assert(hex_val(d.last()) < 16);
        assert(hex_value(d.drop_last()) * 16 + hex_val(d.last()) < pow16(d.drop_last().len()) * 16) by (nonlinear_arith)
            requires
                hex_value(d.drop_last()) < pow16(d.drop_last().len()),
                hex_val(d.last()) < 16,
        ;
    }
}

/// `16` to the power `n`.
pub open spec fn pow16(n: nat) -> nat
    decreases n,
{
    if n == 0 { 1 } else { 16 * pow16((n - 1) as nat) }
}

fn is_hex_exec(c: char) -> (b: bool)
    ensures
        b == is_hex(c),
{
    ('0' <= c && c <= '9') || ('a' <= c && c <= 'f') || ('A' <= c && c <= 'F')
}

fn hex_digit_value(c: char) -> (v: u32)
    requires
        is_hex(c),
    ensures
        v == hex_val(c),
{
    if '0' <= c && c <= '9' {
        (c as u32) - ('0' as u32)
    } else if 'a' <= c && c <= 'f' {
        (c as u32) - ('a' as u32) + 10
    } else {
        (c as u32) - ('A' as u32) + 10
    }
}

fn hex_escape(v: &Vec<char>, j: usize, max: usize) -> (r: (usize, Option<char>))
    requires
        j <= v@.len(),
        max == 2 || max == 4,
    ensures
        r.0 == hex_run(v@, j as int, max as nat),
        j + r.0 <= v@.len(),
        r.1 == hex_escape_char(v@.subrange(j as int, j + r.0)),
{
    proof { lemma_hex_run(v@, j as int, max as nat); }
    let n = v.len();
    let mut k: usize = 0;
    let mut value: u32 = 0;
    while k < max && j + k < n && is_hex_exec(v[j + k])
        invariant
            n == v@.len(),
            j <= n,
            max == 2 || max == 4,
            k <= max,
            j + k <= n,
            hex_run(v@, j as int, max as nat) == k + hex_run(v@, j + k, (max - k) as nat),
            forall|m: int| j <= m < j + k ==> is_hex(#[trigger] v@[m]),
            value == hex_value(v@.subrange(j as int, j + k)),
            value < pow16(k as nat),
        decreases max - k,
    {
        let d = hex_digit_value(v[j + k]);
        proof {
            let sub = v@.subrange(j as int, j + k + 1);
            assert(sub.drop_last() =~= v@.subrange(j as int, j + k));
            assert(sub.last() == v@[j + k]);
            assert(pow16((k + 1) as nat) == 16 * pow16(k as nat));
            assert(pow16(k as nat) <= 0x1000) by {
                assert(pow16(0) == 1);
                assert(pow16(1) == 16);
                assert(pow16(2) == 256);
                assert(pow16(3) == 4096);
            }
            assert(value * 16 + d < pow16(k as nat) * 16) by (nonlinear_arith)
                requires
                    value < pow16(k as nat),
                    d < 16,
            ;
        }
        value = value * 16 + d;
        k += 1;
    }
    if k == 0 {
        (0, None)
    } else {
        (k, char_from_u32(value))
    }
}

/// Applies substitutions for one regex flavor.
pub struct SubstitutionEngine {
    regex_flavor: RegexFlavor,
}

/// A line with its substitution made by a compiled pattern `re`, with the
/// processed replacement `rep`: every match (`g` or occurrence 0), the n-th
/// match, or the first.
pub open spec fn spec_substitute(re: (Seq<char>, bool), line: Seq<char>, rep: Seq<char>, flags: SubstitutionFlags) -> Seq<char> {
    match flags.nth {
        Some(n) => if n == 0 {
            regex_replace_all(re, line, rep)
        } else {
            match regex_nth_capture(re, line, (n - 1) as usize, rep) {
                Some((s, e, x)) => decode_utf8(encode_utf8(line).subrange(0, s as int)) + x + decode_utf8(
                    encode_utf8(line).subrange(e as int, encode_utf8(line).len() as int),
                ),
                None => line,
            }
        },
        None => if flags.global {
            regex_replace_all(re, line, rep)
        } else {
            regex_replace_first(re, line, rep)
        },
    }
}

/// What `SubstitutionEngine::apply` gives: the explained error when the
/// pattern does not compile, else the substituted line.
pub open spec fn spec_apply(
    flavor: RegexFlavor,
    line: Seq<char>,
    pattern: Seq<char>,
    replacement: Seq<char>,
    flags: SubstitutionFlags,
) -> Result<Seq<char>, crate::regex_error::ErrorModel> {
    match spec_compile_outcome(pattern, flags.case_insensitive) {
        Some(m) => Err(spec_enhanced(m, pattern, flavor)),
        None => Ok(spec_substitute((pattern, flags.case_insensitive), line, spec_process_escapes(replacement), flags)),
    }
}

impl SubstitutionEngine {
    /// An engine for the given flavor.
    pub fn new(regex_flavor: RegexFlavor) -> (e: Self)
        ensures
            e.flavor() == regex_flavor,
    {
        SubstitutionEngine { regex_flavor }
    }

    /// The flavor patterns are read in.
    pub closed spec fn flavor(&self) -> RegexFlavor {
        self.regex_flavor
    }

    /// Apply a substitution to one line: the replacement's escapes are
    /// processed, the pattern compiled, and the matches selected by the
    /// flags replaced.
    pub fn apply(&self, line: &str, pattern: &str, replacement: &str, flags: &SubstitutionFlags) -> (r: Result<
        String,
        EnhancedRegexError,
    >)
        ensures
            match spec_apply(self.flavor(), line@, pattern@, replacement@, *flags) {
                Ok(s) => r matches Ok(t) && t@ == s,
                Err(m) => r matches Err(e) && e@ == m,
            },
            spec_compile_outcome(pattern@, flags.case_insensitive) is None
                && !regex_is_match((pattern@, flags.case_insensitive), line@)
                ==> (r matches Ok(t) && t@ == line@),
    {
        let processed = self.process_replacement_escapes(replacement);
        let re = match compile_regex_with_context(pattern, self.regex_flavor, flags.case_insensitive) {
            Ok(re) => re,
            Err(e) => {
                return Err(e);
            }
        };
        let rep = processed.as_str();
        match flags.nth {
            Some(n) => {
                if n == 0 {
                    Ok(re.replace_all(line, rep))
                } else {
                    match re.nth_capture(line, n - 1, rep) {
                        Some((start, end, expanded)) => {
                            let (before, _) = line.split_at(start);
                            let (_, after) = line.split_at(end);
                            proof {
                                vstd::utf8::encode_utf8_decode_utf8(after@);
                                vstd::utf8::encode_utf8_decode_utf8(before@);
                            }
                            let mut out = str_to_string(before);
                            push_str(&mut out, expanded.as_str());
                            push_str(&mut out, after);
                            Ok(out)
                        }
                        None => Ok(str_to_string(line)),
                    }
                }
            }
            None => {
                if flags.global {
                    Ok(re.replace_all(line, rep))
                } else {
                    Ok(re.replace_first(line, rep))
                }
            }
        }
    }

    /// Process the escapes of a replacement: `\n`, `\t`, `\r`, `\\`,
    /// `\xHH` and `\uHHHH` become the characters they name; any other
    /// escaped character keeps its backslash; `$` references pass through.
    pub fn process_replacement_escapes(&self, replacement: &str) -> (r: String)
        ensures
            r@ == spec_process_escapes(replacement@),
    {
        let v = chars_of(replacement);
        let n = v.len();
        let mut out = String::new();
        let mut i: usize = 0;
        while i < n
            invariant
                n == v@.len(),
                i <= n,
                spec_process_escapes(v@) == out@ + escapes_from(v@, i as int),
            decreases n - i,
        {
            let c = v[i];
            if c != '\\' {
                push_char(&mut out, c);
                i += 1;
            } else if i + 1 >= n {
                push_char(&mut out, '\\');
                i = n;
            } else {
                let d = v[i + 1];
                if d == 'n' {
                    push_char(&mut out, '\n');
                    i += 2;
                } else if d == 't' {
                    push_char(&mut out, '\t');
                    i += 2;
                } else if d == 'r' {
                    push_char(&mut out, '\r');
                    i += 2;
                } else if d == '\\' {
                    push_char(&mut out, '\\');
                    i += 2;
                } else if d == 'x' || d == 'u' {
                    let max: usize = if d == 'x' { 2 } else { 4 };
                    let (k, ch) = hex_escape(&v, i + 2, max);
                    match ch {
                        Some(x) => {
                            push_char(&mut out, x);
                        }
                        None => {}
                    }
                    i = i + 2 + k;
                } else {
                    push_char(&mut out, '\\');
                    push_char(&mut out, d);
                    i += 2;
                }
            }
        }
        assert(escapes_from(v@, i as int) =~= Seq::<char>::empty());
        out
    }
}

// ---------------------------------------------------------------------------
// Diff records

/// How a line changed.
#[derive(Debug, Clone, Copy, PartialEq, Eq, Structural)]
pub enum ChangeType {
    Unchanged,
    Modified,
    Added,
    Deleted,
}

/// One changed (or context) line of a diff.
#[derive(Debug, Clone)]
pub struct LineChange {
    pub line_number: usize,
    pub change_type: ChangeType,
    pub content: String,
    /// The content before the change, for modified lines.
    pub old_content: Option<String>,
}

/// A changed line given as its old and new text.
#[derive(Debug, Clone)]
pub struct FileChange {
    pub line_number: usize,
    pub old_content: String,
    pub new_content: String,
}

/// What processing a file changed.
#[derive(Debug)]
pub struct FileDiff {
    pub file_path: String,
    pub changes: Vec<LineChange>,
    /// (line number, content, change type) for every line; empty when
    /// streamed.
    pub all_lines: Vec<(usize, String, ChangeType)>,
    /// Lines printed by print commands.
    pub printed_lines: Vec<String>,
    pub is_streaming: bool,
}

/// The path of a command in a script: its index, then its index inside each
/// enclosing group.
#[derive(Clone, Debug, Hash, PartialEq, Eq)]
pub struct CommandKey(Vec<usize>);

impl View for CommandKey {
    type V = Seq<usize>;

    closed spec fn view(&self) -> Seq<usize> {
        self.0@
    }
}

impl CommandKey {
    /// The key of a top-level command.
    pub fn root(index: usize) -> (k: Self)
        ensures
            k@ == seq![index],
    {
        let mut v: Vec<usize> = Vec::new();
        v.push(index);
        assert(v@ =~= seq![index]);
        CommandKey(v)
    }

    /// The key of command `index` inside the group with this key.
    pub fn child(&self, index: usize) -> (k: Self)
        ensures
            k@ == self@.push(index),
    {
        let mut v: Vec<usize> = Vec::new();
        let mut i: usize = 0;
        while i < self.0.len()
            invariant
                i <= self.0@.len(),
                v@ == self.0@.take(i as int),
            decreases self.0@.len() - i,
        {
            v.push(self.0[i]);
            assert(self.0@.take(i + 1) =~= self.0@.take(i as int).push(self.0@[i as int]));
            i += 1;
        }
        assert(self.0@.take(i as int) =~= self.0@);
        v.push(index);
        CommandKey(v)
    }
}

/// The range a mixed-range state belongs to.
#[derive(Clone, Hash, PartialEq, Eq)]
pub struct MixedRangeKey {
    pub command_key: CommandKey,
}

/// State of a range whose start and end are of different kinds.
#[derive(Clone, PartialEq)]
pub enum MixedRangeState {
    LookingForPattern,
    InRangeUntilLine { target_line: usize },
    InRangeUntilPattern { end_pattern: String },
}

/// State of a pattern-to-pattern range.
#[derive(Clone, Copy, PartialEq, Eq, Structural)]
pub enum PatternRangeState {
    LookingForStart,
    InRange,
}

} // verus!
