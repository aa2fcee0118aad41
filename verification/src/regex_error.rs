//! Regex compilation errors explained: the failure is classified from the
//! engine's message and the pattern, and a suggestion for the flavor in use
//! is attached.
use vstd::prelude::*;
use crate::cli::RegexFlavor;
use crate::regex_engine::{
    CompiledRegex, regex_case_insensitive_error, regex_error_text, regex_new, regex_new_case_insensitive,
    regex_new_error,
};
use crate::text::{
    chars_of, contains_chars, contains_seq, contains_str, decimal, find_char, find_char_exec, lemma_find_from,
    lowercase, push_char, push_str, slice_of, str_to_string, string_of, to_lowercase, usize_to_string,
};

verus! {

/// Types of regex errors with specific diagnostic information.
#[derive(Debug, Clone, PartialEq)]
pub enum RegexErrorType {
    /// Syntax error in the regex pattern
    Syntax { message: String, position: Option<usize> },
    /// Invalid escape sequence
    InvalidEscape { sequence: String, position: usize },
    /// Unclosed group/bracket/brace
    UnclosedDelimiter { delimiter: char, position: usize },
    /// Invalid quantifier (e.g., `**`, nothing to repeat)
    InvalidQuantifier { message: String, position: Option<usize> },
    /// Lookbehind/lookahead not supported or invalid
    LookaroundError { message: String, position: Option<usize> },
    /// Invalid backreference
    InvalidBackreference { message: String, position: Option<usize> },
    /// Other regex error
    Other { message: String },
}

/// Model of `RegexErrorType`.
pub enum ErrorTypeModel {
    Syntax { message: Seq<char>, position: Option<usize> },
    InvalidEscape { sequence: Seq<char>, position: usize },
    UnclosedDelimiter { delimiter: char, position: usize },
    InvalidQuantifier { message: Seq<char>, position: Option<usize> },
    LookaroundError { message: Seq<char>, position: Option<usize> },
    InvalidBackreference { message: Seq<char>, position: Option<usize> },
    Other { message: Seq<char> },
}

impl View for RegexErrorType {
    type V = ErrorTypeModel;

    open spec fn view(&self) -> ErrorTypeModel {
        match self {
            RegexErrorType::Syntax { message, position } => ErrorTypeModel::Syntax { message: message@, position: *position },
            RegexErrorType::InvalidEscape { sequence, position } => ErrorTypeModel::InvalidEscape {
                sequence: sequence@,
                position: *position,
            },
            RegexErrorType::UnclosedDelimiter { delimiter, position } => ErrorTypeModel::UnclosedDelimiter {
                delimiter: *delimiter,
                position: *position,
            },
            RegexErrorType::InvalidQuantifier { message, position } => ErrorTypeModel::InvalidQuantifier {
                message: message@,
                position: *position,
            },
            RegexErrorType::LookaroundError { message, position } => ErrorTypeModel::LookaroundError {
                message: message@,
                position: *position,
            },
            RegexErrorType::InvalidBackreference { message, position } => ErrorTypeModel::InvalidBackreference {
                message: message@,
                position: *position,
            },
            RegexErrorType::Other { message } => ErrorTypeModel::Other { message: message@ },
        }
    }
}

/// A regex error with the context needed to explain it.
#[derive(Debug, Clone, PartialEq)]
pub struct EnhancedRegexError {
    /// The pattern that failed to compile
    pub pattern: String,
    /// The regex flavor in use
    pub flavor: RegexFlavor,
    /// What kind of error it is
    pub error_type: RegexErrorType,
    /// A suggested fix
    pub suggestion: Option<String>,
}

/// Model of `EnhancedRegexError`.
pub struct ErrorModel {
    pub pattern: Seq<char>,
    pub flavor: RegexFlavor,
    pub error_type: ErrorTypeModel,
    pub suggestion: Option<Seq<char>>,
}

impl View for EnhancedRegexError {
    type V = ErrorModel;

    open spec fn view(&self) -> ErrorModel {
        ErrorModel {
            pattern: self.pattern@,
            flavor: self.flavor,
            error_type: self.error_type@,
            suggestion: match self.suggestion {
                Some(s) => Some(s@),
                None => None,
            },
        }
    }
}

// ---------------------------------------------------------------------------
// Unclosed delimiters

/// Scan state after the first `n` characters: the positions of the opening
/// delimiters not yet closed, innermost last, and whether inside a
/// character class. A closing delimiter closes the innermost open one.
pub open spec fn unclosed_state(s: Seq<char>, open: char, close: char, n: int) -> (Seq<int>, bool)
    decreases n,
{
    if n <= 0 || n > s.len() {
        (Seq::empty(), false)
    } else {
        let (stack, in_class) = unclosed_state(s, open, close, n - 1);
        let c = s[n - 1];
        let in_class2 = if c == '[' && open != '[' {
            true
        } else if c == ']' && open != '[' {
            false
        } else {
            in_class
        };
        if !in_class2 || open == '[' {
            if c == open {
                (stack.push(n - 1), in_class2)
            } else if c == close && stack.len() > 0 {
                (stack.drop_last(), in_class2)
            } else {
                (stack, in_class2)
            }
        } else {
            (stack, in_class2)
        }
    }
}

/// Index of the last opening delimiter left unmatched (outside character
/// classes, unless the delimiter is `[`); none when every one is closed.
pub open spec fn spec_find_unclosed(s: Seq<char>, open: char, close: char) -> Option<usize> {
    let (stack, _) = unclosed_state(s, open, close, s.len() as int);
    if stack.len() > 0 { Some(stack.last() as usize) } else { None }
}

/// Position of the last unclosed `open` delimiter in `pattern`.
pub fn find_unclosed_delimiter(pattern: &str, open: char, close: char) -> (r: Option<usize>)
    ensures
        r == spec_find_unclosed(pattern@, open, close),
{
    let v = chars_of(pattern);
    let n = v.len();
    let mut stack: Vec<usize> = Vec::new();
    let mut in_class = false;
    let mut i: usize = 0;
    while i < n
        invariant
            n == v@.len(),
            i <= n,
            stack@.len() <= i,
            unclosed_state(v@, open, close, i as int).1 == in_class,
            unclosed_state(v@, open, close, i as int).0 == stack@.map_values(|x: usize| x as int),
        decreases n - i,
    {
        let c = v[i];
        if c == '[' && open != '[' {
            in_class = true;
        } else if c == ']' && open != '[' {
            in_class = false;
        }
        let ghost before = stack@;
        if !in_class || open == '[' {
            if c == open {
                stack.push(i);
                assert(stack@.map_values(|x: usize| x as int) =~= before.map_values(|x: usize| x as int).push(i as int));
            } else if c == close && stack.len() > 0 {
                stack.pop();
                assert(stack@.map_values(|x: usize| x as int) =~= before.map_values(|x: usize| x as int).drop_last());
            }
        }
        i += 1;
    }
    if stack.len() > 0 {
        Some(stack[stack.len() - 1])
    } else {
        None
    }
}

// ---------------------------------------------------------------------------
// Escapes and quantifiers

/// Whether `\` followed by `next` is a recognised escape in the flavor.
pub open spec fn valid_escape(next: char, flavor: RegexFlavor) -> bool {
    ||| next == 'n' || next == 't' || next == 'r' || next == 'f' || next == '0'
    ||| next == '\\' || next == '.' || next == '^' || next == '$' || next == '*' || next == '+' || next == '?'
    ||| next == '(' || next == ')' || next == '[' || next == ']' || next == '{' || next == '}' || next == '|'
    ||| next == 'x' || next == 'u' || next == 'U'
    ||| next == 'w' || next == 'W' || next == 'd' || next == 'D' || next == 's' || next == 'S' || next == 'b'
        || next == 'B'
    ||| ('1' <= next && next <= '9')
    ||| (next == '&' && (flavor == RegexFlavor::BRE || flavor == RegexFlavor::ERE))
}

fn valid_escape_exec(next: char, flavor: RegexFlavor) -> (b: bool)
    ensures
        b == valid_escape(next, flavor),
{
    next == 'n' || next == 't' || next == 'r' || next == 'f' || next == '0' || next == '\\' || next == '.'
        || next == '^' || next == '$' || next == '*' || next == '+' || next == '?' || next == '(' || next == ')'
        || next == '[' || next == ']' || next == '{' || next == '}' || next == '|' || next == 'x' || next == 'u'
        || next == 'U' || next == 'w' || next == 'W' || next == 'd' || next == 'D' || next == 's' || next == 'S'
        || next == 'b' || next == 'B' || ('1' <= next && next <= '9') || (next == '&' && (flavor
        == RegexFlavor::BRE || flavor == RegexFlavor::ERE))
}

/// Index of the first unrecognised escape from `i` on; escapes are read in
/// pairs, so an escaped backslash does not start another escape.
pub open spec fn escape_scan(s: Seq<char>, flavor: RegexFlavor, i: int) -> Option<usize>
    decreases s.len() - i,
{
    if i < 0 || i >= s.len() {
        None
    } else if s[i] == '\\' && i + 1 < s.len() {
        if !valid_escape(s[i + 1], flavor) {
            Some(i as usize)
        } else {
            escape_scan(s, flavor, i + 2)
        }
    } else {
        escape_scan(s, flavor, i + 1)
    }
}

/// Index of the first unrecognised escape sequence in `pattern`.
pub fn find_invalid_escape(pattern: &str, flavor: RegexFlavor) -> (r: Option<usize>)
    ensures
        r == escape_scan(pattern@, flavor, 0),
{
    let v = chars_of(pattern);
    let n = v.len();
    let mut i: usize = 0;
    while i < n
        invariant
            n == v@.len(),
            v@ == pattern@,
            i <= n + 1,
            escape_scan(v@, flavor, 0) == escape_scan(v@, flavor, i as int),
        decreases n + 1 - i,
    {
        if v[i] == '\\' && i + 1 < n {
            if !valid_escape_exec(v[i + 1], flavor) {
                return Some(i);
            }
            i += 2;
        } else {
            i += 1;
        }
    }
    None
}

/// The escape sequence at index `pos`: the backslash and the character after
/// it, a lone trailing backslash, or else the character there (a space when
/// past the end).
pub open spec fn spec_extract_escape_at(s: Seq<char>, pos: int) -> Seq<char> {
    if 0 <= pos < s.len() && s[pos] == '\\' {
        if pos + 1 < s.len() { seq!['\\', s[pos + 1]] } else { seq!['\\'] }
    } else if 0 <= pos < s.len() {
        seq![s[pos]]
    } else {
        seq![' ']
    }
}

/// The escape sequence (or character) at character index `pos`.
pub fn extract_escape_at(pattern: &str, pos: usize) -> (r: String)
    ensures
        r@ == spec_extract_escape_at(pattern@, pos as int),
{
    let v = chars_of(pattern);
    let mut s = String::new();
    if pos < v.len() && v[pos] == '\\' {
        push_char(&mut s, '\\');
        if pos + 1 < v.len() {
            push_char(&mut s, v[pos + 1]);
        }
    } else if pos < v.len() {
        push_char(&mut s, v[pos]);
    } else {
        push_char(&mut s, ' ');
    }
    s
}

/// `s` starts with `t`.
pub open spec fn starts_with(s: Seq<char>, t: Seq<char>) -> bool {
    t.len() <= s.len() && s.take(t.len() as int) == t
}

/// A `{` that starts `rest` cannot begin a valid counted repetition: it is
/// not `{0}` or `{1...`, holds no comma after it, and its first `}` is
/// missing or right after it.
pub open spec fn bad_brace(rest: Seq<char>) -> bool {
    &&& !starts_with(rest, seq!['{', '0', '}'])
    &&& !starts_with(rest, seq!['{', '1'])
    &&& !rest.contains(',')
    &&& (find_char(rest, '}') is None || find_char(rest, '}') == Some(1int))
}

/// Index of the first quantifier from `i` on that has nothing to repeat, or
/// of a `{` that cannot begin a counted repetition.
pub open spec fn quantifier_scan(s: Seq<char>, i: int) -> Option<usize>
    decreases s.len() - i,
{
    if i < 0 || i >= s.len() {
        None
    } else {
        let c = s[i];
        if (c == '*' || c == '+' || c == '?') && (i == 0 || s[i - 1] == '(' || s[i - 1] == '|') {
            Some(i as usize)
        } else if c == '{' && bad_brace(s.skip(i)) {
            Some(i as usize)
        } else {
            quantifier_scan(s, i + 1)
        }
    }
}

fn starts_with_exec(v: &Vec<char>, from: usize, t: &Vec<char>) -> (b: bool)
    requires
        from <= v@.len(),
    ensures
        b == starts_with(v@.skip(from as int), t@),
{
    let n = v.len();
    if t.len() > n - from {
        return false;
    }
    let mut j: usize = 0;
    while j < t.len()
        invariant
            from <= n == v@.len(),
            t@.len() <= n - from,
            j <= t@.len(),
            forall|k: int| 0 <= k < j ==> v@[from + k] == t@[k],
        decreases t@.len() - j,
    {
        if v[from + j] != t[j] {
            assert(v@.skip(from as int).take(t@.len() as int)[j as int] != t@[j as int]);
            return false;
        }
        j += 1;
    }
    assert(v@.skip(from as int).take(t@.len() as int) =~= t@);
    true
}

fn bad_brace_at(v: &Vec<char>, i: usize) -> (b: bool)
    requires
        i < v@.len(),
        v@[i as int] == '{',
    ensures
        b == bad_brace(v@.skip(i as int)),
{
    let rest = slice_of(v, i, v.len());
    assert(rest@ =~= v@.skip(i as int));
    let zero = vec!['{', '0', '}'];
    let one = vec!['{', '1'];
    assert(zero@ =~= seq!['{', '0', '}']);
    assert(one@ =~= seq!['{', '1']);
    let s0 = starts_with_exec(&rest, 0, &zero);
    let s1 = starts_with_exec(&rest, 0, &one);
    assert(rest@.skip(0) =~= rest@);
    let comma = find_char_exec(&rest, ',');
    proof {
        lemma_find_from(rest@, ',', 0);
        match comma {
            Some(k) => { assert(rest@[k as int] == ','); }
            None => {}
        }
    }
    let close = find_char_exec(&rest, '}');
    proof { lemma_find_from(rest@, '}', 0); }
    let close_ok = match close {
        None => true,
        Some(c) => c == 1,
    };
    !s0 && !s1 && comma.is_none() && close_ok
}

/// Index of a quantifier with nothing to repeat, or of a `{` that cannot
/// begin a counted repetition.
pub fn find_invalid_quantifier(pattern: &str) -> (r: Option<usize>)
    ensures
        r == quantifier_scan(pattern@, 0),
{
    let v = chars_of(pattern);
    let n = v.len();
    let mut i: usize = 0;
    while i < n
        invariant
            n == v@.len(),
            v@ == pattern@,
            i <= n,
            quantifier_scan(v@, 0) == quantifier_scan(v@, i as int),
        decreases n - i,
    {
        let c = v[i];
        if (c == '*' || c == '+' || c == '?') && (i == 0 || v[i - 1] == '(' || v[i - 1] == '|') {
            return Some(i);
        }
        if c == '{' && bad_brace_at(&v, i) {
            return Some(i);
        }
        i += 1;
    }
    None
}

// ---------------------------------------------------------------------------
// Classification

/// How a compilation failure is classified, from the engine's message (read
/// in lowercase) and the pattern: unclosed delimiters first, then invalid
/// escapes, quantifiers, lookaround, backreferences, else a syntax error.
pub open spec fn spec_classify(msg: Seq<char>, pattern: Seq<char>, flavor: RegexFlavor) -> ErrorTypeModel {
    let lower = lowercase(msg);
    let unclosed = contains_seq(lower, "unclosed"@) || contains_seq(lower, "unterminated"@);
    if unclosed && (contains_seq(lower, "parenthesis"@) || contains_seq(lower, "group"@))
        && spec_find_unclosed(pattern, '(', ')') is Some {
        ErrorTypeModel::UnclosedDelimiter { delimiter: '(', position: spec_find_unclosed(pattern, '(', ')').unwrap() }
    } else if unclosed && (contains_seq(lower, "bracket"@) || contains_seq(lower, "character class"@))
        && spec_find_unclosed(pattern, '[', ']') is Some {
        ErrorTypeModel::UnclosedDelimiter { delimiter: '[', position: spec_find_unclosed(pattern, '[', ']').unwrap() }
    } else if unclosed && (contains_seq(lower, "brace"@) || contains_seq(lower, "quantifier"@))
        && spec_find_unclosed(pattern, '{', '}') is Some {
        ErrorTypeModel::UnclosedDelimiter { delimiter: '{', position: spec_find_unclosed(pattern, '{', '}').unwrap() }
    } else if (contains_seq(lower, "escape"@) || contains_seq(lower, "backslash"@)) && escape_scan(pattern, flavor, 0) is Some {
        let pos = escape_scan(pattern, flavor, 0).unwrap();
        ErrorTypeModel::InvalidEscape { sequence: spec_extract_escape_at(pattern, pos as int), position: pos }
    } else if contains_seq(lower, "quantifier"@) || contains_seq(lower, "repeat"@) || contains_seq(lower, "repetition operator"@) {
        ErrorTypeModel::InvalidQuantifier { message: msg, position: quantifier_scan(pattern, 0) }
    } else if contains_seq(lower, "lookaround"@) || contains_seq(lower, "lookahead"@) || contains_seq(lower, "lookbehind"@) {
        ErrorTypeModel::LookaroundError { message: msg, position: None }
    } else if contains_seq(lower, "backreference"@) || contains_seq(lower, "reference"@) {
        ErrorTypeModel::InvalidBackreference { message: msg, position: None }
    } else {
        ErrorTypeModel::Syntax { message: msg, position: None }
    }
}

/// Classify a compilation failure from the engine's message and the pattern.
pub fn classify_error(error_msg: &str, pattern: &str, flavor: RegexFlavor) -> (r: RegexErrorType)
    ensures
        r@ == spec_classify(error_msg@, pattern@, flavor),
{
    let lower_owned = to_lowercase(error_msg);
    let lower = lower_owned.as_str();
    let unclosed = contains_str(lower, "unclosed") || contains_str(lower, "unterminated");
    if unclosed && (contains_str(lower, "parenthesis") || contains_str(lower, "group")) {
        if let Some(pos) = find_unclosed_delimiter(pattern, '(', ')') {
            return RegexErrorType::UnclosedDelimiter { delimiter: '(', position: pos };
        }
    }
    if unclosed && (contains_str(lower, "bracket") || contains_str(lower, "character class")) {
        if let Some(pos) = find_unclosed_delimiter(pattern, '[', ']') {
            return RegexErrorType::UnclosedDelimiter { delimiter: '[', position: pos };
        }
    }
    if unclosed && (contains_str(lower, "brace") || contains_str(lower, "quantifier")) {
        if let Some(pos) = find_unclosed_delimiter(pattern, '{', '}') {
            return RegexErrorType::UnclosedDelimiter { delimiter: '{', position: pos };
        }
    }
    if contains_str(lower, "escape") || contains_str(lower, "backslash") {
        if let Some(pos) = find_invalid_escape(pattern, flavor) {
            return RegexErrorType::InvalidEscape { sequence: extract_escape_at(pattern, pos), position: pos };
        }
    }
    if contains_str(lower, "quantifier") || contains_str(lower, "repeat") || contains_str(lower, "repetition operator") {
        return RegexErrorType::InvalidQuantifier {
            message: str_to_string(error_msg),
            position: find_invalid_quantifier(pattern),
        };
    }
    if contains_str(lower, "lookaround") || contains_str(lower, "lookahead") || contains_str(lower, "lookbehind") {
        return RegexErrorType::LookaroundError { message: str_to_string(error_msg), position: None };
    }
    if contains_str(lower, "backreference") || contains_str(lower, "reference") {
        return RegexErrorType::InvalidBackreference { message: str_to_string(error_msg), position: None };
    }
    RegexErrorType::Syntax { message: str_to_string(error_msg), position: None }
}

// ---------------------------------------------------------------------------
// Suggestions

/// The closing partner of an opening delimiter.
pub open spec fn closer_of(d: char) -> Option<char> {
    if d == '(' {
        Some(')')
    } else if d == '[' {
        Some(']')
    } else if d == '{' {
        Some('}')
    } else {
        None
    }
}

fn closer_exec(d: char) -> (r: Option<char>)
    ensures
        r == closer_of(d),
{
    if d == '(' {
        Some(')')
    } else if d == '[' {
        Some(']')
    } else if d == '{' {
        Some('}')
    } else {
        None
    }
}

/// The advice for an unrecognised escape sequence in the given flavor.
pub open spec fn escape_advice(sequence: Seq<char>, flavor: RegexFlavor) -> Seq<char> {
    if flavor == RegexFlavor::PCRE && sequence == seq!['\\', '('] {
        "In PCRE mode (default), parentheses are meta-characters. Use '(' directly, or use -B (BRE mode) if you meant '\\('. For a literal '(', use '\\('."@
    } else if flavor == RegexFlavor::PCRE && sequence == seq!['\\', ')'] {
        "In PCRE mode (default), ')' is a meta-character. Use ')' directly, or use -B (BRE mode) if you meant '\\)'. For a literal ')', use '\\)'."@
    } else if flavor == RegexFlavor::PCRE && sequence == seq!['\\', '{'] {
        "In PCRE mode (default), '{' starts a quantifier. Use '{' directly for quantifiers like 'a{3}', or use -B (BRE mode) if you meant '\\{'."@
    } else if flavor == RegexFlavor::PCRE && sequence == seq!['\\', '+'] {
        "In PCRE mode (default), '+' is a meta-character (one or more). Use '+' directly, or use -B (BRE mode) if you meant '\\+' as a quantifier. For a literal '+', use '\\+'."@
    } else if flavor == RegexFlavor::PCRE && sequence == seq!['\\', '?'] {
        "In PCRE mode (default), '?' is a meta-character (zero or one). Use '?' directly, or use -B (BRE mode) if you meant '\\?'. For a literal '?', use '\\?'."@
    } else if flavor == RegexFlavor::PCRE && sequence == seq!['\\', '|'] {
        "In PCRE mode (default), '|' is the alternation operator. Use '|' directly, or use -B (BRE mode) if you meant '\\|'. For a literal '|', use '\\|'."@
    } else if flavor == RegexFlavor::BRE && sequence == seq!['('] {
        "In BRE mode (-B), parentheses must be escaped: '\\(' not '('. Use -E (ERE mode) or remove -B for PCRE mode to use '(' directly."@
    } else if flavor == RegexFlavor::BRE && sequence == seq![')'] {
        "In BRE mode (-B), parentheses must be escaped: '\\)' not ')'. Use -E (ERE mode) or remove -B for PCRE mode to use ')' directly."@
    } else if flavor == RegexFlavor::BRE && sequence == seq!['{'] {
        "In BRE mode (-B), braces must be escaped: '\\{' not '{'. Use -E (ERE mode) or remove -B for PCRE mode."@
    } else if flavor == RegexFlavor::BRE && sequence == seq!['+'] {
        "In BRE mode (-B), '+' is a literal character. Use '\\+' for the quantifier (one or more), or use -E for ERE mode."@
    } else if flavor == RegexFlavor::BRE && sequence == seq!['?'] {
        "In BRE mode (-B), '?' is a literal character. Use '\\?' for the quantifier (zero or one), or use -E for ERE mode."@
    } else if flavor == RegexFlavor::BRE && sequence == seq!['|'] {
        "In BRE mode (-B), '|' is a literal character. Use '\\|' for alternation, or use -E for ERE mode."@
    } else {
        "The escape sequence '"@ + sequence
            + "' is not recognized. In PCRE mode, common escapes are: \\n, \\t, \\r, \\xHH, \\uHHHH, \\x{HHHHHH}. For a literal '"@
            + sequence + "', use '\\"@ + sequence + "'."@
    }
}

/// The advice for a syntax error, from what the pattern holds.
pub open spec fn syntax_advice(pattern: Seq<char>) -> Seq<char> {
    if pattern.contains('[') && !pattern.contains(']') {
        "Unclosed character class '[...]'. Add a closing ']'."@
    } else if pattern.contains('(') && !pattern.contains(')') {
        "Unclosed group '(...)'. Add a closing ')'."@
    } else if pattern.contains('*') && pattern.len() > 0 && pattern.last() == '*' {
        "Quantifier '*' at the end of pattern has nothing to repeat."@
    } else {
        "Check your regex syntax. Common issues: - Escape special characters: . + * ? ^ $ | ( ) [ ] { } \\ - Use proper quantifiers: a* a+ a? a{3} - Close all groups and character classes"@
    }
}

/// The suggestion attached to an error of the given type.
pub open spec fn spec_suggestion(t: ErrorTypeModel, pattern: Seq<char>, flavor: RegexFlavor) -> Option<Seq<char>> {
    match t {
        ErrorTypeModel::UnclosedDelimiter { delimiter, position } => match closer_of(delimiter) {
            None => None,
            Some(closer) => Some(
                "Add a closing '"@ + seq![closer] + "' to match the opening '"@ + seq![delimiter]
                    + "' at position "@ + decimal(position as nat) + ". Pattern: \""@ + pattern + seq![closer]
                    + "\""@,
            ),
        },
        ErrorTypeModel::InvalidEscape { sequence, .. } => Some(escape_advice(sequence, flavor)),
        ErrorTypeModel::InvalidQuantifier { message, .. } => Some(
            if contains_seq(lowercase(message), "nothing to repeat"@) {
                "A quantifier (*, +, ?, {n}) has nothing to repeat. Place it after a character or group, e.g., 'a*', '(foo)+', 'bar{3}'."@
            } else if contains_seq(lowercase(message), "invalid range"@) {
                "Quantifier ranges must be valid: '{n}', '{n,}', or '{n,m}' where n <= m. Example: 'a{2,5}' matches 2 to 5 'a's."@
            } else {
                "Check your quantifier syntax: * (zero or more), + (one or more), ? (zero or one), {n,m} (n to m times)."@
            },
        ),
        ErrorTypeModel::LookaroundError { .. } => Some(
            "Rust's regex crate (used by SedX) has limited lookaround support. Fixed-width lookbehinds are supported: (?<=pattern), (?<!pattern). Lookaheads are supported: (?=pattern), (?!pattern). Variable-width lookbehinds are NOT supported."@,
        ),
        ErrorTypeModel::InvalidBackreference { .. } => Some(
            match flavor {
                RegexFlavor::BRE => "In BRE mode, backreferences use \\1, \\2, etc. in patterns. Make sure you have capturing groups \\(...\\) before referencing them. Note: SedX converts BRE to PCRE internally, so \\1 becomes $1."@,
                RegexFlavor::ERE => "In ERE mode, backreferences use \\1, \\2, etc. in replacement strings. In patterns, use $1, $2, etc. for backreferences. Make sure you have capturing groups before referencing them."@,
                RegexFlavor::PCRE => "In PCRE mode, backreferences use $1, $2, etc. in both patterns and replacements. Make sure you have capturing groups (...) before referencing them."@,
            },
        ),
        ErrorTypeModel::Syntax { .. } => Some(syntax_advice(pattern)),
        ErrorTypeModel::Other { message } => Some(
            "Error: "@ + message + ". For help, visit: https://docs.rs/regex/latest/regex/"@,
        ),
    }
}

fn is_pair(v: &Vec<char>, a: char, b: char) -> (r: bool)
    ensures
        r == (v@ == seq![a, b]),
{
    if v.len() == 2 && v[0] == a && v[1] == b {
        assert(v@ =~= seq![a, b]);
        true
    } else {
        false
    }
}

fn is_single(v: &Vec<char>, a: char) -> (r: bool)
    ensures
        r == (v@ == seq![a]),
{
    if v.len() == 1 && v[0] == a {
        assert(v@ =~= seq![a]);
        true
    } else {
        false
    }
}

fn escape_advice_exec(sequence: &str, flavor: RegexFlavor) -> (r: String)
    ensures
        r@ == escape_advice(sequence@, flavor),
{
    let v = chars_of(sequence);
    let pcre = flavor == RegexFlavor::PCRE;
    let bre = flavor == RegexFlavor::BRE;
    if pcre && is_pair(&v, '\\', '(') {
        str_to_string("In PCRE mode (default), parentheses are meta-characters. Use '(' directly, or use -B (BRE mode) if you meant '\\('. For a literal '(', use '\\('.")
    } else if pcre && is_pair(&v, '\\', ')') {
        str_to_string("In PCRE mode (default), ')' is a meta-character. Use ')' directly, or use -B (BRE mode) if you meant '\\)'. For a literal ')', use '\\)'.")
    } else if pcre && is_pair(&v, '\\', '{') {
        str_to_string("In PCRE mode (default), '{' starts a quantifier. Use '{' directly for quantifiers like 'a{3}', or use -B (BRE mode) if you meant '\\{'.")
    } else if pcre && is_pair(&v, '\\', '+') {
        str_to_string("In PCRE mode (default), '+' is a meta-character (one or more). Use '+' directly, or use -B (BRE mode) if you meant '\\+' as a quantifier. For a literal '+', use '\\+'.")
    } else if pcre && is_pair(&v, '\\', '?') {
        str_to_string("In PCRE mode (default), '?' is a meta-character (zero or one). Use '?' directly, or use -B (BRE mode) if you meant '\\?'. For a literal '?', use '\\?'.")
    } else if pcre && is_pair(&v, '\\', '|') {
        str_to_string("In PCRE mode (default), '|' is the alternation operator. Use '|' directly, or use -B (BRE mode) if you meant '\\|'. For a literal '|', use '\\|'.")
    } else if bre && is_single(&v, '(') {
        str_to_string("In BRE mode (-B), parentheses must be escaped: '\\(' not '('. Use -E (ERE mode) or remove -B for PCRE mode to use '(' directly.")
    } else if bre && is_single(&v, ')') {
        str_to_string("In BRE mode (-B), parentheses must be escaped: '\\)' not ')'. Use -E (ERE mode) or remove -B for PCRE mode to use ')' directly.")
    } else if bre && is_single(&v, '{') {
        str_to_string("In BRE mode (-B), braces must be escaped: '\\{' not '{'. Use -E (ERE mode) or remove -B for PCRE mode.")
    } else if bre && is_single(&v, '+') {
        str_to_string("In BRE mode (-B), '+' is a literal character. Use '\\+' for the quantifier (one or more), or use -E for ERE mode.")
    } else if bre && is_single(&v, '?') {
        str_to_string("In BRE mode (-B), '?' is a literal character. Use '\\?' for the quantifier (zero or one), or use -E for ERE mode.")
    } else if bre && is_single(&v, '|') {
        str_to_string("In BRE mode (-B), '|' is a literal character. Use '\\|' for alternation, or use -E for ERE mode.")
    } else {
        let mut s = str_to_string("The escape sequence '");
        push_str(&mut s, sequence);
        push_str(&mut s, "' is not recognized. In PCRE mode, common escapes are: \\n, \\t, \\r, \\xHH, \\uHHHH, \\x{HHHHHH}. For a literal '");
        push_str(&mut s, sequence);
        push_str(&mut s, "', use '\\");
        push_str(&mut s, sequence);
        push_str(&mut s, "'.");
        s
    }
}

fn contains_char_exec(v: &Vec<char>, c: char) -> (b: bool)
    ensures
        b == v@.contains(c),
{
    let r = find_char_exec(v, c);
    proof {
        lemma_find_from(v@, c, 0);
        match find_char(v@, c) {
            Some(k) => { assert(v@[k] == c); }
            None => {}
        }
    }
    r.is_some()
}

fn syntax_advice_exec(pattern: &str) -> (r: String)
    ensures
        r@ == syntax_advice(pattern@),
{
    let v = chars_of(pattern);
    if contains_char_exec(&v, '[') && !contains_char_exec(&v, ']') {
        str_to_string("Unclosed character class '[...]'. Add a closing ']'.")
    } else if contains_char_exec(&v, '(') && !contains_char_exec(&v, ')') {
        str_to_string("Unclosed group '(...)'. Add a closing ')'.")
    } else if contains_char_exec(&v, '*') && v.len() > 0 && v[v.len() - 1] == '*' {
        str_to_string("Quantifier '*' at the end of pattern has nothing to repeat.")
    } else {
        str_to_string("Check your regex syntax. Common issues: - Escape special characters: . + * ? ^ $ | ( ) [ ] { } \\ - Use proper quantifiers: a* a+ a? a{3} - Close all groups and character classes")
    }
}

/// The suggestion for an error of the given type, in the given flavor.
pub fn generate_suggestion(error_type: &RegexErrorType, pattern: &str, flavor: RegexFlavor) -> (r: Option<String>)
    ensures
        match spec_suggestion(error_type@, pattern@, flavor) {
            Some(s) => r matches Some(t) && t@ == s,
            None => r is None,
        },
{
    match error_type {
        RegexErrorType::UnclosedDelimiter { delimiter, position } => {
            let closer = match closer_exec(*delimiter) {
                Some(c) => c,
                None => {
                    return None;
                }
            };
            let mut s = str_to_string("Add a closing '");
            push_char(&mut s, closer);
            push_str(&mut s, "' to match the opening '");
            push_char(&mut s, *delimiter);
            push_str(&mut s, "' at position ");
            push_str(&mut s, usize_to_string(*position).as_str());
            push_str(&mut s, ". Pattern: \"");
            push_str(&mut s, pattern);
            push_char(&mut s, closer);
            push_str(&mut s, "\"");
            Some(s)
        }
        RegexErrorType::InvalidEscape { sequence, .. } => Some(escape_advice_exec(sequence.as_str(), flavor)),
        RegexErrorType::InvalidQuantifier { message, .. } => {
            let lower = to_lowercase(message.as_str());
            if contains_str(lower.as_str(), "nothing to repeat") {
                Some(str_to_string("A quantifier (*, +, ?, {n}) has nothing to repeat. Place it after a character or group, e.g., 'a*', '(foo)+', 'bar{3}'."))
            } else if contains_str(lower.as_str(), "invalid range") {
                Some(str_to_string("Quantifier ranges must be valid: '{n}', '{n,}', or '{n,m}' where n <= m. Example: 'a{2,5}' matches 2 to 5 'a's."))
            } else {
                Some(str_to_string("Check your quantifier syntax: * (zero or more), + (one or more), ? (zero or one), {n,m} (n to m times)."))
            }
        }
        RegexErrorType::LookaroundError { .. } => Some(str_to_string("Rust's regex crate (used by SedX) has limited lookaround support. Fixed-width lookbehinds are supported: (?<=pattern), (?<!pattern). Lookaheads are supported: (?=pattern), (?!pattern). Variable-width lookbehinds are NOT supported.")),
        RegexErrorType::InvalidBackreference { .. } => match flavor {
            RegexFlavor::BRE => Some(str_to_string("In BRE mode, backreferences use \\1, \\2, etc. in patterns. Make sure you have capturing groups \\(...\\) before referencing them. Note: SedX converts BRE to PCRE internally, so \\1 becomes $1.")),
            RegexFlavor::ERE => Some(str_to_string("In ERE mode, backreferences use \\1, \\2, etc. in replacement strings. In patterns, use $1, $2, etc. for backreferences. Make sure you have capturing groups before referencing them.")),
            RegexFlavor::PCRE => Some(str_to_string("In PCRE mode, backreferences use $1, $2, etc. in both patterns and replacements. Make sure you have capturing groups (...) before referencing them.")),
        },
        RegexErrorType::Syntax { .. } => Some(syntax_advice_exec(pattern)),
        RegexErrorType::Other { message } => {
            let mut s = str_to_string("Error: ");
            push_str(&mut s, message.as_str());
            push_str(&mut s, ". For help, visit: https://docs.rs/regex/latest/regex/");
            Some(s)
        }
    }
}

// ---------------------------------------------------------------------------
// The error as a whole

/// The explained error for an engine message about a pattern.
pub open spec fn spec_enhanced(msg: Seq<char>, pattern: Seq<char>, flavor: RegexFlavor) -> ErrorModel {
    let t = spec_classify(msg, pattern, flavor);
    ErrorModel { pattern, flavor, error_type: t, suggestion: spec_suggestion(t, pattern, flavor) }
}

/// The name of a flavor as shown in messages.
pub open spec fn flavor_label(f: RegexFlavor) -> Seq<char> {
    match f {
        RegexFlavor::PCRE => "PCRE (default)"@,
        RegexFlavor::ERE => "ERE (extended regex, -E flag)"@,
        RegexFlavor::BRE => "BRE (basic regex, -B flag)"@,
    }
}

/// The lines that describe an error type.
pub open spec fn type_lines(t: ErrorTypeModel) -> Seq<char> {
    match t {
        ErrorTypeModel::Syntax { message, .. } => "  Type: Syntax error\n"@ + "  Details: "@ + message + "\n"@,
        ErrorTypeModel::InvalidEscape { sequence, position } => "  Type: Invalid escape sequence\n"@
            + "  Sequence: '"@ + sequence + "' at position "@ + decimal(position as nat) + "\n"@,
        ErrorTypeModel::UnclosedDelimiter { delimiter, position } => "  Type: Unclosed delimiter\n"@
            + "  Missing closing '"@ + seq![
            match closer_of(delimiter) {
                Some(c) => c,
                None => '?',
            },
        ] + "' for opening '"@ + seq![delimiter] + "' at position "@ + decimal(position as nat) + "\n"@,
        ErrorTypeModel::InvalidQuantifier { message, .. } => "  Type: Invalid quantifier\n"@ + "  Details: "@ + message
            + "\n"@,
        ErrorTypeModel::LookaroundError { message, .. } => "  Type: Lookaround error\n"@ + "  Details: "@ + message
            + "\n"@,
        ErrorTypeModel::InvalidBackreference { message, .. } => "  Type: Backreference error\n"@ + "  Details: "@
            + message + "\n"@,
        ErrorTypeModel::Other { message } => "  Type: Other error\n"@ + "  Details: "@ + message + "\n"@,
    }
}

/// The user-facing text of an error.
pub open spec fn spec_display(e: ErrorModel) -> Seq<char> {
    let head = "Regex Error in "@ + flavor_label(e.flavor) + " mode\n"@ + "  Pattern: \""@ + e.pattern + "\"\n"@
        + type_lines(e.error_type);
    match e.suggestion {
        Some(s) => head + "  Suggestion: "@ + s + "\n"@,
        None => head,
    }
}

fn push_details(out: &mut String, message: &String)
    ensures
        final(out)@ == old(out)@ + "  Details: "@ + message@ + "\n"@,
{
    push_str(out, "  Details: ");
    push_str(out, message.as_str());
    push_str(out, "\n");
}

fn type_lines_exec(t: &RegexErrorType) -> (r: String)
    ensures
        r@ == type_lines(t@),
{
    let mut out = String::new();
    match t {
        RegexErrorType::Syntax { message, .. } => {
            push_str(&mut out, "  Type: Syntax error\n");
            push_details(&mut out, message);
        }
        RegexErrorType::InvalidEscape { sequence, position } => {
            push_str(&mut out, "  Type: Invalid escape sequence\n");
            push_str(&mut out, "  Sequence: '");
            push_str(&mut out, sequence.as_str());
            push_str(&mut out, "' at position ");
            push_str(&mut out, usize_to_string(*position).as_str());
            push_str(&mut out, "\n");
        }
        RegexErrorType::UnclosedDelimiter { delimiter, position } => {
            push_str(&mut out, "  Type: Unclosed delimiter\n");
            push_str(&mut out, "  Missing closing '");
            let closer = match closer_exec(*delimiter) {
                Some(c) => c,
                None => '?',
            };
            push_char(&mut out, closer);
            push_str(&mut out, "' for opening '");
            push_char(&mut out, *delimiter);
            push_str(&mut out, "' at position ");
            push_str(&mut out, usize_to_string(*position).as_str());
            push_str(&mut out, "\n");
        }
        RegexErrorType::InvalidQuantifier { message, .. } => {
            push_str(&mut out, "  Type: Invalid quantifier\n");
            push_details(&mut out, message);
        }
        RegexErrorType::LookaroundError { message, .. } => {
            push_str(&mut out, "  Type: Lookaround error\n");
            push_details(&mut out, message);
        }
        RegexErrorType::InvalidBackreference { message, .. } => {
            push_str(&mut out, "  Type: Backreference error\n");
            push_details(&mut out, message);
        }
        RegexErrorType::Other { message } => {
            push_str(&mut out, "  Type: Other error\n");
            push_details(&mut out, message);
        }
    }
    out
}

impl EnhancedRegexError {
    /// The explained error for an engine message about `pattern`.
    pub fn from_error_message(error_msg: &str, pattern: &str, flavor: RegexFlavor) -> (e: Self)
        ensures
            e@ == spec_enhanced(error_msg@, pattern@, flavor),
    {
        let error_type = classify_error(error_msg, pattern, flavor);
        let suggestion = generate_suggestion(&error_type, pattern, flavor);
        EnhancedRegexError { pattern: str_to_string(pattern), flavor, error_type, suggestion }
    }

    /// The explained error for a compilation error of the regex engine.
    pub fn from_regex_error(err: &regex::Error, pattern: &str, flavor: RegexFlavor) -> (e: Self)
        ensures
            exists|m: Seq<char>| e@ == spec_enhanced(m, pattern@, flavor),
    {
        let text = regex_error_text(err);
        Self::from_error_message(text.as_str(), pattern, flavor)
    }

    /// The error as a user-friendly, multi-line message.
    pub fn display(&self) -> (r: String)
        ensures
            r@ == spec_display(self@),
    {
        let mut out = str_to_string("Regex Error in ");
        let label = match self.flavor {
            RegexFlavor::PCRE => "PCRE (default)",
            RegexFlavor::ERE => "ERE (extended regex, -E flag)",
            RegexFlavor::BRE => "BRE (basic regex, -B flag)",
        };
        push_str(&mut out, label);
        push_str(&mut out, " mode\n");
        push_str(&mut out, "  Pattern: \"");
        push_str(&mut out, self.pattern.as_str());
        push_str(&mut out, "\"\n");
        let lines = type_lines_exec(&self.error_type);
        push_str(&mut out, lines.as_str());
        match &self.suggestion {
            Some(s) => {
                push_str(&mut out, "  Suggestion: ");
                push_str(&mut out, s.as_str());
                push_str(&mut out, "\n");
            }
            None => {}
        }
        out
    }
}

/// What compiling a pattern gives: the compiled regex, or the explained
/// error for the engine's message.
pub open spec fn spec_compile_outcome(pattern: Seq<char>, case_insensitive: bool) -> Option<Seq<char>> {
    if case_insensitive {
        regex_case_insensitive_error(pattern)
    } else {
        regex_new_error(pattern)
    }
}

/// Compile a pattern (ignoring case when asked); a failure comes back
/// explained for the flavor in use.
pub fn compile_regex_with_context(pattern: &str, flavor: RegexFlavor, case_insensitive: bool) -> (r: Result<
    CompiledRegex,
    EnhancedRegexError,
>)
    ensures
        match spec_compile_outcome(pattern@, case_insensitive) {
            None => r matches Ok(c) && c@ == (pattern@, case_insensitive),
            Some(m) => r matches Err(e) && e@ == spec_enhanced(m, pattern@, flavor),
        },
{
    let result = if case_insensitive {
        regex_new_case_insensitive(pattern)
    } else {
        regex_new(pattern)
    };
    match result {
        Ok(re) => Ok(re),
        Err(msg) => Err(EnhancedRegexError::from_error_message(msg.as_str(), pattern, flavor)),
    }
}

} // verus!
