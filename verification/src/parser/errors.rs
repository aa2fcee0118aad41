//! Error values of the expression parser and their messages.
use vstd::prelude::*;
use vstd::utf8::encode_utf8;
use crate::text::{byte_len, byte_offsets, chars_of, encode_chars, lemma_byte_len_mono, push_str, push_char, string_of_range};

verus! {

/// Maximum number of bytes of context shown on either side of an error.
pub const ERROR_CONTEXT_SIZE: usize = 30;

/// What went wrong while parsing an expression.
#[derive(Debug, Clone, Copy, PartialEq, Eq)]
pub enum ParseErrorKind {
    EmptyCommand,
    UnknownCommand,
    EmptyAddress,
    InvalidStepStart,
    InvalidStepValue,
    ZeroStep,
    MissingClosingSlash,
    MissingOpeningSlash,
    InvalidAddress,
    InvalidOffset,
    MissingCommandChar,
    InvalidInsert,
    InvalidAppend,
    InvalidChange,
    EmptyLabel,
    LabelTooLong,
    MissingFilename,
    MissingDelimiter,
    MissingPatternDelimiter,
    MissingReplacementDelimiter,
    UnknownFlag,
    NotSubstitution,
    MissingGroupOpen,
    NotGroup,
    InvalidGroupPosition,
    MissingGroupClose,
    EmptyGroup,
    /// An address that is a lone `/`, or a command whose first character is
    /// not ASCII where a one-byte command was expected.
    MalformedText,
}

/// A parse error: its kind and the message shown to the user.
#[derive(Debug, Clone)]
pub struct ParseError {
    pub kind: ParseErrorKind,
    pub message: String,
}

/// Number of leading characters of `s` (from index `i`) whose first byte lies
/// at or before byte `limit`.
pub open spec fn prefix_within(s: Seq<char>, limit: int, i: int) -> int
    decreases s.len() - i,
{
    if 0 <= i < s.len() && byte_len(s.take(i)) <= limit {
        prefix_within(s, limit, i + 1)
    } else {
        i
    }
}

proof fn lemma_prefix_within_bounds(s: Seq<char>, limit: int, i: int)
    requires
        0 <= i <= s.len(),
    ensures
        i <= prefix_within(s, limit, i) <= s.len(),
        forall|k: int| i <= k < prefix_within(s, limit, i) ==> byte_len(#[trigger] s.take(k)) <= limit,
        prefix_within(s, limit, i) < s.len() ==> byte_len(s.take(prefix_within(s, limit, i))) > limit,
    decreases s.len() - i,
{
    if i < s.len() && byte_len(s.take(i)) <= limit {
        lemma_prefix_within_bounds(s, limit, i + 1);
    }
}

proof fn lemma_prefix_within_mono(s: Seq<char>, a: int, b: int)
    requires
        a <= b,
    ensures
        prefix_within(s, a, 0) <= prefix_within(s, b, 0),
{
    lemma_prefix_within_bounds(s, a, 0);
    lemma_prefix_within_bounds(s, b, 0);
    let ka = prefix_within(s, a, 0);
    let kb = prefix_within(s, b, 0);
    if kb < ka {
        assert(byte_len(s.take(kb)) <= a);
    }
}

/// The characters shown around byte position `pos`: from the last character
/// starting at or before `pos - 30` (saturating) to the last character
/// starting at or before `pos + 30`, with `...` marking cut-off text.
pub open spec fn spec_extract_context(s: Seq<char>, pos: int) -> Seq<char> {
    let sl = if pos >= 30 { pos - 30 } else { 0 };
    let ks = prefix_within(s, sl, 0);
    let start = if ks > 0 { ks - 1 } else { 0 };
    let end = prefix_within(s, pos + 30, 0);
    (if start > 0 { "..."@ } else { Seq::empty() }) + s.subrange(start, end) + (if end < s.len() { "..."@ } else { Seq::empty() })
}

fn count_within(offs: &Vec<usize>, n: usize, limit: usize, Ghost(s): Ghost<Seq<char>>) -> (k: usize)
    requires
        n == s.len(),
        offs@.len() == n + 1,
        forall|i: int| 0 <= i <= n ==> offs@[i] == byte_len(#[trigger] s.take(i)),
    ensures
        k == prefix_within(s, limit as int, 0),
{
    let mut i: usize = 0;
    while i < n && offs[i] <= limit
        invariant
            i <= n,
            n == s.len(),
            offs@.len() == n + 1,
            forall|j: int| 0 <= j <= n ==> offs@[j] == byte_len(#[trigger] s.take(j)),
            prefix_within(s, limit as int, 0) == prefix_within(s, limit as int, i as int),
        decreases n - i,
    {
        i += 1;
    }
    i
}

/// Text of `full_text` around byte position `pos`.
pub fn extract_context(full_text: &str, pos: usize) -> (ctx: String)
    requires
        pos <= usize::MAX - ERROR_CONTEXT_SIZE,
    ensures
        ctx@ == spec_extract_context(full_text@, pos as int),
{
    let v = chars_of(full_text);
    extract_context_chars(&v, pos)
}

pub fn extract_context_chars(v: &Vec<char>, pos: usize) -> (ctx: String)
    requires
        pos <= usize::MAX - ERROR_CONTEXT_SIZE,
    ensures
        ctx@ == spec_extract_context(v@, pos as int),
{
    let b = encode_chars(v);
    let offs = byte_offsets(v, b.len());
    let n = v.len();
    let sl = pos.saturating_sub(ERROR_CONTEXT_SIZE);
    let ks = count_within(&offs, n, sl, Ghost(v@));
    let start = if ks > 0 { ks - 1 } else { 0 };
    let end = count_within(&offs, n, pos + ERROR_CONTEXT_SIZE, Ghost(v@));
    proof {
        lemma_prefix_within_mono(v@, sl as int, pos + 30);
        lemma_prefix_within_bounds(v@, pos + 30, 0);
    }
    let mut ctx = String::new();
    if start > 0 {
        push_str(&mut ctx, "...");
    }
    let mid = string_of_range(v, start, end);
    push_str(&mut ctx, mid.as_str());
    if end < n {
        push_str(&mut ctx, "...");
    }
    assert(ctx@ =~= spec_extract_context(v@, pos as int));
    ctx
}

/// The parse error message: the description, then the context around the
/// error position when there is one, then the hint when there is one.
pub open spec fn spec_format_parse_error(
    expr: Seq<char>,
    error_pos: Option<usize>,
    description: Seq<char>,
    suggestion: Option<Seq<char>>,
) -> Seq<char> {
    "Parse error: "@ + description + (match error_pos {
        Some(p) => "\n  Near: \""@ + spec_extract_context(expr, p as int) + "\""@,
        None => Seq::empty(),
    }) + (match suggestion {
        Some(h) => "\n  Hint: "@ + h,
        None => Seq::empty(),
    })
}

/// Format an error with context and suggestions.
pub fn format_parse_error(
    expression: &str,
    error_pos: Option<usize>,
    description: &str,
    suggestion: Option<&str>,
) -> (msg: String)
    requires
        error_pos matches Some(p) ==> p <= usize::MAX - ERROR_CONTEXT_SIZE,
    ensures
        msg@ == spec_format_parse_error(
            expression@,
            error_pos,
            description@,
            match suggestion { Some(h) => Some(h@), None => None },
        ),
{
    let v = chars_of(expression);
    format_error_chars(&v, error_pos, description, suggestion)
}

pub fn format_error_chars(
    v: &Vec<char>,
    error_pos: Option<usize>,
    description: &str,
    suggestion: Option<&str>,
) -> (msg: String)
    requires
        error_pos matches Some(p) ==> p <= usize::MAX - ERROR_CONTEXT_SIZE,
    ensures
        msg@ == spec_format_parse_error(
            v@,
            error_pos,
            description@,
            match suggestion { Some(h) => Some(h@), None => None },
        ),
{
    let mut msg = String::new();
    push_str(&mut msg, "Parse error: ");
    push_str(&mut msg, description);
    let ghost m1 = msg@;
    match error_pos {
        Some(p) => {
            let ctx = extract_context_chars(v, p);
            push_str(&mut msg, "\n  Near: \"");
            push_str(&mut msg, ctx.as_str());
            push_str(&mut msg, "\"");
        }
        None => {}
    }
    let ghost m2 = msg@;
    match suggestion {
        Some(h) => {
            push_str(&mut msg, "\n  Hint: ");
            push_str(&mut msg, h);
        }
        None => {}
    }
    assert(msg@ =~= spec_format_parse_error(v@, error_pos, description@, match suggestion { Some(h) => Some(h@), None => None }));
    msg
}

} // verus!
