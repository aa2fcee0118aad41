//! Extended Regular Expression (sed -E) to the regex engine's syntax.
use vstd::prelude::*;
use crate::bre_converter::{sed_backrefs, convert_sed_backreferences};
use crate::text::{chars_of, string_of};

verus! {

/// ERE patterns are already in the engine's syntax: the text is copied.
pub fn convert_ere_to_pcre_pattern(pattern: &str) -> (result: String)
    ensures
        result@ == pattern@,
{
    let v = chars_of(pattern);
    string_of(&v)
}

/// Convert ERE replacement backreferences; the rules are those of sed.
pub fn convert_ere_backreferences(replacement: &str) -> (result: String)
    ensures
        result@ == sed_backrefs(replacement@),
{
    convert_sed_backreferences(replacement)
}

} // verus!
