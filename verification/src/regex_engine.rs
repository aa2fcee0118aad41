//! The regular-expression engine the editor runs on: compiled patterns and
//! what matching and replacing them give, as stated by the regex crate.
use vstd::prelude::*;

verus! {

#[verifier::external_type_specification]
#[verifier::external_body]
pub struct ExRegex(regex::Regex);

#[verifier::external_type_specification]
#[verifier::external_body]
pub struct ExRegexError(regex::Error);

/// The display text of a regex compilation error (`regex::Error` as
/// `Display`); what the text says is not restated here.
#[verifier::external_body]
pub(crate) fn regex_error_text(err: &regex::Error) -> (r: String) {
    err.to_string()
}

/// The error text `Regex::new` reports for a pattern (its `Display`), or
/// nothing when the pattern compiles.
pub uninterp spec fn regex_new_error(pattern: Seq<char>) -> Option<Seq<char>>;

/// The error text a case-insensitive `RegexBuilder` reports for a pattern,
/// or nothing when it compiles.
pub uninterp spec fn regex_case_insensitive_error(pattern: Seq<char>) -> Option<Seq<char>>;

/// Whether the compiled pattern `re` (source text, case-insensitivity)
/// matches anywhere in `text`.
pub uninterp spec fn regex_is_match(re: (Seq<char>, bool), text: Seq<char>) -> bool;

/// `text` with its leftmost-first match replaced by the expansion of `rep`.
pub uninterp spec fn regex_replace_first(re: (Seq<char>, bool), text: Seq<char>, rep: Seq<char>) -> Seq<char>;

/// `text` with every non-overlapping match replaced by the expansion of `rep`.
pub uninterp spec fn regex_replace_all(re: (Seq<char>, bool), text: Seq<char>, rep: Seq<char>) -> Seq<char>;

/// The match with the given index (counting from 0) among the
/// non-overlapping matches in `text`: its byte span and the expansion of
/// `rep` for its captures.
pub uninterp spec fn regex_nth_capture(re: (Seq<char>, bool), text: Seq<char>, index: usize, rep: Seq<char>) -> Option<(usize, usize, Seq<char>)>;

/// A compiled regular expression together with the pattern it came from.
pub struct CompiledRegex {
    re: regex::Regex,
    pattern: String,
    case_insensitive: bool,
}

impl View for CompiledRegex {
    type V = (Seq<char>, bool);

    closed spec fn view(&self) -> (Seq<char>, bool) {
        (self.pattern@, self.case_insensitive)
    }
}

/// `regex::Regex::new`: compiles `pattern` with the default settings; the
/// error is given as its display text. Both outcomes are named by
/// `regex_new_error`.
#[verifier::external_body]
pub(crate) fn regex_new(pattern: &str) -> (r: Result<CompiledRegex, String>)
    ensures
        match regex_new_error(pattern@) {
            None => r matches Ok(c) && c@ == (pattern@, false),
            Some(m) => r matches Err(e) && e@ == m,
        },
{
    match regex::Regex::new(pattern) {
        Ok(re) => Ok(CompiledRegex { re, pattern: pattern.to_string(), case_insensitive: false }),
        Err(e) => Err(e.to_string()),
    }
}

/// `regex::RegexBuilder::new(pattern).case_insensitive(true).build()`:
/// compiles `pattern` ignoring case; both outcomes are named by
/// `regex_case_insensitive_error`.
#[verifier::external_body]
pub(crate) fn regex_new_case_insensitive(pattern: &str) -> (r: Result<CompiledRegex, String>)
    ensures
        match regex_case_insensitive_error(pattern@) {
            None => r matches Ok(c) && c@ == (pattern@, true),
            Some(m) => r matches Err(e) && e@ == m,
        },
{
    match regex::RegexBuilder::new(pattern).case_insensitive(true).build() {
        Ok(re) => Ok(CompiledRegex { re, pattern: pattern.to_string(), case_insensitive: true }),
        Err(e) => Err(e.to_string()),
    }
}

impl CompiledRegex {
    /// `Regex::is_match`: whether the pattern matches anywhere in `text`.
    #[verifier::external_body]
    pub(crate) fn is_match(&self, text: &str) -> (b: bool)
        ensures
            b == regex_is_match(self@, text@),
    {
        self.re.is_match(text)
    }

    /// `Regex::replace`: the leftmost-first match replaced, `$` references
    /// in `rep` expanded; the crate documents that without a match the text
    /// comes back unchanged.
    #[verifier::external_body]
    pub(crate) fn replace_first(&self, text: &str, rep: &str) -> (r: String)
        ensures
            r@ == regex_replace_first(self@, text@, rep@),
            !regex_is_match(self@, text@) ==> r@ == text@,
    {
        self.re.replace(text, rep).to_string()
    }

    /// `Regex::replace_all`: every non-overlapping match replaced; without a
    /// match the text comes back unchanged.
    #[verifier::external_body]
    pub(crate) fn replace_all(&self, text: &str, rep: &str) -> (r: String)
        ensures
            r@ == regex_replace_all(self@, text@, rep@),
            !regex_is_match(self@, text@) ==> r@ == text@,
    {
        self.re.replace_all(text, rep).to_string()
    }

    /// `Regex::captures_iter(text).nth(index)` with the whole match's span
    /// and `Captures::expand(rep)`. The crate documents that a match's start
    /// is at most its end and both fall on character boundaries of `text`,
    /// and there is no match at all when the pattern does not match.
    #[verifier::external_body]
    pub(crate) fn nth_capture(&self, text: &str, index: usize, rep: &str) -> (r: Option<(usize, usize, String)>)
        ensures
            match regex_nth_capture(self@, text@, index, rep@) {
                None => r is None,
                Some((s, e, x)) => r matches Some((s2, e2, x2)) && s2 == s && e2 == e && x2@ == x,
            },
            r matches Some((s, e, x)) ==> s <= e <= vstd::utf8::encode_utf8(text@).len()
                && vstd::utf8::is_char_boundary(vstd::utf8::encode_utf8(text@), s as int)
                && vstd::utf8::is_char_boundary(vstd::utf8::encode_utf8(text@), e as int),
            !regex_is_match(self@, text@) ==> r is None,
    {
        match self.re.captures_iter(text).nth(index) {
            Some(caps) => {
                let m = caps.get_match();
                let mut expanded = String::new();
                caps.expand(rep, &mut expanded);
                Some((m.start(), m.end(), expanded))
            }
            None => None,
        }
    }
}

} // verus!
