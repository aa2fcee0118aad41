//! Basic Regular Expression (GNU sed) to the regex engine's syntax.
use vstd::prelude::*;
use crate::text::{chars_of, push_char};

verus! {

/// What an escaped character `\c` of a BRE pattern becomes; `at_end` tells
/// whether `c` is the pattern's last character.
pub open spec fn bre_escape(c: char, at_end: bool) -> Seq<char> {
    if c == '(' || c == ')' || c == '{' || c == '}' || c == '+' || c == '?' || c == '|' {
        seq![c]
    } else if c == '\\' {
        seq!['\\']
    } else if '1' <= c && c <= '9' {
        seq!['$', c]
    } else if c == '&' {
        seq!['$', '&']
    } else {
        seq!['\\', c]
    }
}

/// The conversion of a BRE pattern: escaped meta-characters lose their
/// backslash, `\1`..`\9` and `\&` become `$1`..`$9` and `$&`, `\\` becomes
/// `\`, any other escape and a trailing backslash are kept.
pub open spec fn bre_to_pcre(s: Seq<char>) -> Seq<char>
    decreases s.len(),
{
    if s.len() == 0 {
        Seq::empty()
    } else if s[0] != '\\' {
        seq![s[0]] + bre_to_pcre(s.drop_first())
    } else if s.len() == 1 {
        seq!['\\']
    } else {
        bre_escape(s[1], s.len() == 2) + bre_to_pcre(s.skip(2))
    }
}

/// What an escaped character `\c` of a sed replacement becomes.
pub open spec fn backref_escape(c: char) -> Seq<char> {
    if '1' <= c && c <= '9' {
        seq!['$', c]
    } else if c == '&' {
        seq!['$', '&']
    } else if c == '\\' {
        seq!['\\']
    } else {
        seq!['\\', c]
    }
}

/// The conversion of a sed replacement: `\1`..`\9` and `\&` become
/// `$1`..`$9` and `$&`, `\\` becomes `\`, other escapes and a trailing
/// backslash are kept.
pub open spec fn sed_backrefs(s: Seq<char>) -> Seq<char>
    decreases s.len(),
{
    if s.len() == 0 {
        Seq::empty()
    } else if s[0] != '\\' {
        seq![s[0]] + sed_backrefs(s.drop_first())
    } else if s.len() == 1 {
        seq!['\\']
    } else {
        backref_escape(s[1]) + sed_backrefs(s.skip(2))
    }
}

/// True when `c` follows a backslash in a BRE-only construct.
pub open spec fn is_bre_marker(c: char) -> bool {
    c == '(' || c == ')' || c == '{' || c == '}' || c == '+' || c == '?' || c == '|' || ('1' <= c
        && c <= '9')
}

/// True when the text holds `\` followed by a BRE-only marker.
pub open spec fn spec_is_bre_pattern(s: Seq<char>) -> bool {
    exists|i: int| 0 <= i < s.len() - 1 && s[i] == '\\' && #[trigger] is_bre_marker(s[i + 1])
}

fn push_seq2(r: &mut String, a: char, b: char)
    ensures
        final(r)@ == old(r)@ + seq![a, b],
{
    push_char(r, a);
    push_char(r, b);
    assert(final(r)@ =~= old(r)@ + seq![a, b]);
}

/// Convert a Basic Regular Expression to the regex engine's syntax.
pub fn convert_bre_to_pcre(pattern: &str) -> (result: String)
    ensures
        result@ == bre_to_pcre(pattern@),
{
    let v = chars_of(pattern);
    let n = v.len();
    let mut result = String::new();
    let mut i: usize = 0;
    assert(v@.skip(0) =~= v@);
    while i < n
        invariant
            i <= n == v@.len(),
            result@ + bre_to_pcre(v@.skip(i as int)) == bre_to_pcre(v@),
        decreases n - i,
    {
        let ghost rest = v@.skip(i as int);
        let ghost before = result@;
        let c = v[i];
        if c != '\\' {
            push_char(&mut result, c);
            assert(rest.drop_first() =~= v@.skip(i + 1));
            assert(result@ + bre_to_pcre(v@.skip(i + 1)) =~= before + bre_to_pcre(rest));
            i += 1;
        } else if i + 1 == n {
            push_char(&mut result, '\\');
            assert(v@.skip(i + 1) =~= Seq::<char>::empty());
            assert(result@ + bre_to_pcre(v@.skip(i + 1)) =~= before + bre_to_pcre(rest));
            i += 1;
        } else {
            let d = v[i + 1];
            if d == '(' || d == ')' || d == '{' || d == '}' || d == '+' || d == '?' || d == '|' {
                push_char(&mut result, d);
            } else if d == '\\' {
                push_char(&mut result, '\\');
            } else if '1' <= d && d <= '9' {
                push_seq2(&mut result, '$', d);
            } else if d == '&' {
                push_seq2(&mut result, '$', '&');
            } else {
                push_seq2(&mut result, '\\', d);
            }
            assert(rest.skip(2) =~= v@.skip(i + 2));
            assert(result@ =~= before + bre_escape(d, rest.len() == 2));
            assert(result@ + bre_to_pcre(v@.skip(i + 2)) =~= before + bre_to_pcre(rest));
            i += 2;
        }
    }
    assert(v@.skip(n as int) =~= Seq::<char>::empty());
    assert(result@ =~= result@ + bre_to_pcre(v@.skip(n as int)));
    result
}

/// True when the pattern holds a BRE-only construct: an escaped
/// parenthesis, brace, `+`, `?`, `|`, or a backreference `\1`..`\9`.
pub fn is_bre_pattern(pattern: &str) -> (b: bool)
    ensures
        b == spec_is_bre_pattern(pattern@),
{
    let v = chars_of(pattern);
    let n = v.len();
    let mut i: usize = 0;
    while n > 0 && i < n - 1
        invariant
            v@ == pattern@,
            n == v@.len(),
            i <= n,
            forall|k: int| 0 <= k < i && k < n - 1 ==> !(v@[k] == '\\' && #[trigger] is_bre_marker(v@[k + 1])),
        decreases n - i,
    {
        let d = v[i + 1];
        if v[i] == '\\' && (d == '(' || d == ')' || d == '{' || d == '}' || d == '+' || d == '?'
            || d == '|' || ('1' <= d && d <= '9')) {
            assert(is_bre_marker(v@[i + 1]));
            return true;
        }
        i += 1;
    }
    false
}

/// Convert sed-style backreferences in a replacement (`\1` to `$1`, `\&` to
/// `$&`, `\\` to `\`).
pub fn convert_sed_backreferences(replacement: &str) -> (result: String)
    ensures
        result@ == sed_backrefs(replacement@),
{
    let v = chars_of(replacement);
    let n = v.len();
    let mut result = String::new();
    let mut i: usize = 0;
    assert(v@.skip(0) =~= v@);
    while i < n
        invariant
            i <= n == v@.len(),
            result@ + sed_backrefs(v@.skip(i as int)) == sed_backrefs(v@),
        decreases n - i,
    {
        let ghost rest = v@.skip(i as int);
        let ghost before = result@;
        let c = v[i];
        if c != '\\' {
            push_char(&mut result, c);
            assert(rest.drop_first() =~= v@.skip(i + 1));
            assert(result@ + sed_backrefs(v@.skip(i + 1)) =~= before + sed_backrefs(rest));
            i += 1;
        } else if i + 1 == n {
            push_char(&mut result, '\\');
            assert(v@.skip(i + 1) =~= Seq::<char>::empty());
            assert(result@ + sed_backrefs(v@.skip(i + 1)) =~= before + sed_backrefs(rest));
            i += 1;
        } else {
            let d = v[i + 1];
            if '1' <= d && d <= '9' {
                push_seq2(&mut result, '$', d);
            } else if d == '&' {
                push_seq2(&mut result, '$', '&');
            } else if d == '\\' {
                push_char(&mut result, '\\');
            } else {
                push_seq2(&mut result, '\\', d);
            }
            assert(rest.skip(2) =~= v@.skip(i + 2));
            assert(result@ =~= before + backref_escape(d));
            assert(result@ + sed_backrefs(v@.skip(i + 2)) =~= before + sed_backrefs(rest));
            i += 2;
        }
    }
    assert(v@.skip(n as int) =~= Seq::<char>::empty());
    assert(result@ =~= result@ + sed_backrefs(v@.skip(n as int)));
    result
}

/// A pattern without backslashes reads the same in BRE as in the
/// engine's syntax: the conversion leaves it unchanged.
pub proof fn lemma_bre_plain_unchanged(s: Seq<char>)
    requires
        forall|i: int| 0 <= i < s.len() ==> s[i] != '\\',
    ensures
        bre_to_pcre(s) == s,
    decreases s.len(),
{
    if s.len() > 0 {
        lemma_bre_plain_unchanged(s.drop_first());
        assert(seq![s[0]] + s.drop_first() =~= s);
    }
}

/// A replacement without backslashes has no backreference to convert: it
/// stays as it is.
pub proof fn lemma_backrefs_plain_unchanged(s: Seq<char>)
    requires
        forall|i: int| 0 <= i < s.len() ==> s[i] != '\\',
    ensures
        sed_backrefs(s) == s,
    decreases s.len(),
{
    if s.len() > 0 {
        lemma_backrefs_plain_unchanged(s.drop_first());
        assert(seq![s[0]] + s.drop_first() =~= s);
    }
}

} // verus!
