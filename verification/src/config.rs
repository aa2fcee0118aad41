//! The settings of the configuration file (`~/.sedx/config.toml`) that the
//! library reads: the regex mode and warnings, and the processing limits.
//! Reading and writing the file is the program's business.
use vstd::prelude::*;
use crate::text::{push_str, str_to_string, usize_to_string, decimal};

verus! {

broadcast use vstd::string::group_string_axioms;

/// The `[compatibility]` table.
#[derive(Debug, Clone)]
pub struct CompatibilityConfig {
    /// Regex mode: "pcre", "ere" or "bre"
    pub mode: Option<String>,
    /// Whether to warn about features that differ from GNU sed
    pub show_warnings: Option<bool>,
}

impl Default for CompatibilityConfig {
    fn default() -> (c: Self)
        ensures
            c.mode matches Some(m) && m@ == "pcre"@,
            c.show_warnings == Some(true),
    {
        CompatibilityConfig { mode: Some(str_to_string("pcre")), show_warnings: Some(true) }
    }
}

/// The `[processing]` table.
#[derive(Debug, Clone)]
pub struct ProcessingConfig {
    /// Context lines shown around a change
    pub context_lines: Option<usize>,
    /// Memory for streaming, in MB
    pub max_memory_mb: Option<usize>,
    /// Whether large files are streamed
    pub streaming: Option<bool>,
}

impl Default for ProcessingConfig {
    fn default() -> (c: Self)
        ensures
            c.context_lines == Some(2usize),
            c.max_memory_mb == Some(100usize),
            c.streaming == Some(true),
    {
        ProcessingConfig { context_lines: Some(2), max_memory_mb: Some(100), streaming: Some(true) }
    }
}

/// The regex modes a configuration may name.
pub open spec fn known_mode(m: Seq<char>) -> bool {
    m == "pcre"@ || m == "ere"@ || m == "bre"@
}

/// Why a compatibility table is refused, if it is.
pub open spec fn spec_check_compatibility(c: CompatibilityConfig) -> Option<Seq<char>> {
    match c.mode {
        Some(m) if !known_mode(m@) => Some("Invalid mode: "@ + m@ + " (must be 'pcre', 'ere', or 'bre')"@),
        _ => None,
    }
}

/// Why a processing table is refused, if it is: more than ten context
/// lines, or less than 10 MB for streaming.
pub open spec fn spec_check_processing(c: ProcessingConfig) -> Option<Seq<char>> {
    match (c.context_lines, c.max_memory_mb) {
        (Some(n), _) if n > 10 => Some("Invalid context_lines: "@ + decimal(n as nat) + " (max 10)"@),
        (_, Some(mb)) if mb < 10 => Some("Invalid max_memory_mb: "@ + decimal(mb as nat) + " (min 10 MB)"@),
        _ => None,
    }
}

fn is_known_mode(m: &String) -> (b: bool)
    ensures
        b == known_mode(m@),
{
    let v = crate::text::chars_of(m.as_str());
    proof {
        reveal_strlit("pcre");
        reveal_strlit("ere");
        reveal_strlit("bre");
    }
    if v.len() == 4 {
        let b = v[0] == 'p' && v[1] == 'c' && v[2] == 'r' && v[3] == 'e';
        proof {
            if b {
                assert(v@ =~= "pcre"@);
            }
        }
        b
    } else if v.len() == 3 {
        let first_ok = v[0] == 'e' || v[0] == 'b';
        let b = first_ok && v[1] == 'r' && v[2] == 'e';
        proof {
            if b {
                if v[0] == 'e' {
                    assert(v@ =~= "ere"@);
                } else {
                    assert(v@ =~= "bre"@);
                }
            }
        }
        b
    } else {
        false
    }
}

/// Checks the compatibility table: the mode, when given, must be "pcre",
/// "ere" or "bre".
pub fn validate_compatibility(c: &CompatibilityConfig) -> (r: Result<(), String>)
    ensures
        match spec_check_compatibility(*c) {
            None => r is Ok,
            Some(msg) => r matches Err(e) && e@ == msg,
        },
{
    match &c.mode {
        Some(m) => {
            if !is_known_mode(m) {
                let mut e = str_to_string("Invalid mode: ");
                push_str(&mut e, m.as_str());
                push_str(&mut e, " (must be 'pcre', 'ere', or 'bre')");
                return Err(e);
            }
            Ok(())
        }
        None => Ok(()),
    }
}

/// Checks the processing table: at most ten context lines, and at least
/// 10 MB for streaming.
pub fn validate_processing(c: &ProcessingConfig) -> (r: Result<(), String>)
    ensures
        match spec_check_processing(*c) {
            None => r is Ok,
            Some(msg) => r matches Err(e) && e@ == msg,
        },
{
    if let Some(n) = c.context_lines {
        if n > 10 {
            let mut e = str_to_string("Invalid context_lines: ");
            let d = usize_to_string(n);
            push_str(&mut e, d.as_str());
            push_str(&mut e, " (max 10)");
            return Err(e);
        }
    }
    if let Some(mb) = c.max_memory_mb {
        if mb < 10 {
            let mut e = str_to_string("Invalid max_memory_mb: ");
            let d = usize_to_string(mb);
            push_str(&mut e, d.as_str());
            push_str(&mut e, " (min 10 MB)");
            return Err(e);
        }
    }
    Ok(())
}

/// The default settings pass their checks.
pub proof fn lemma_defaults_are_valid(c: CompatibilityConfig, p: ProcessingConfig)
    requires
        c.mode matches Some(m) && m@ == "pcre"@,
        p.context_lines == Some(2usize),
        p.max_memory_mb == Some(100usize),
    ensures
        spec_check_compatibility(c) is None,
        spec_check_processing(p) is None,
{
}

} // verus!
