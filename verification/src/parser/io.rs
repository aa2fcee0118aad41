//! Pattern-address detection and the file I/O commands (r, w, R, W).
use vstd::prelude::*;
use vstd::utf8::encode_utf8;
use crate::command::{Address, Command, SAddress, SCommand, opt_addr_view};
use crate::parser::address::{
    address_malformed, escaped_before, parse_address_chars, spec_address_malformed,
    spec_custom_delimiter_pattern, spec_parse_address,
};
use crate::parser::errors::{ParseError, ParseErrorKind, format_error_chars, spec_format_parse_error};
use crate::text::{
    Encoded, byte_len, chars_of, char_width, encode_chars, lemma_byte_len_mono, lemma_trim_idem,
    slice_of, str_to_string, string_of, trim, trim_vec, width,
};

verus! {

/// `u8::is_ascii_whitespace`.
pub open spec fn is_ascii_ws(b: u8) -> bool {
    b == 0x20 || b == 0x09 || b == 0x0A || b == 0x0C || b == 0x0D
}

/// Left-to-right scan of `b[i..limit]`: a pattern address opens with `/` or
/// with a backslash and a custom delimiter; inside it, a backslash escapes
/// the next byte and the opening delimiter closes it. The result is the
/// delimiter still open at `limit`, if any.
pub open spec fn pa_scan(b: Seq<u8>, limit: int, i: int, open: Option<u8>) -> Option<u8>
    decreases limit - i,
{
    if i < 0 || i >= limit || limit > b.len() {
        open
    } else {
        match open {
            None => if b[i] == 0x2F {
                pa_scan(b, limit, i + 1, Some(0x2Fu8))
            } else if b[i] == 0x5C && i + 1 < limit {
                pa_scan(b, limit, i + 2, Some(b[i + 1]))
            } else {
                pa_scan(b, limit, i + 1, None)
            },
            Some(o) => if b[i] == 0x5C && i + 1 < limit {
                pa_scan(b, limit, i + 2, open)
            } else if b[i] == o {
                pa_scan(b, limit, i + 1, None)
            } else {
                pa_scan(b, limit, i + 1, open)
            },
        }
    }
}

/// Some byte before index `j` is a `/` not preceded by a backslash.
pub open spec fn unescaped_slash_before(b: Seq<u8>, j: int) -> bool
    decreases j,
{
    if j <= 0 || j > b.len() {
        false
    } else {
        (b[j - 1] == 0x2F && (j - 1 == 0 || b[j - 2] != 0x5C)) || unescaped_slash_before(b, j - 1)
    }
}

/// From index `k` on, a `/` comes before any ASCII whitespace.
pub open spec fn slash_before_space(b: Seq<u8>, k: int) -> bool
    decreases b.len() - k,
{
    if k < 0 || k >= b.len() {
        false
    } else if is_ascii_ws(b[k]) {
        false
    } else {
        b[k] == 0x2F || slash_before_space(b, k + 1)
    }
}

/// Byte position `pos` lies inside a pattern address: either a pattern
/// delimiter opened before `pos` is still open, or an unescaped `/` precedes
/// `pos` and another `/` follows it before any whitespace (the replacement
/// part of a substitution).
pub open spec fn spec_is_inside(b: Seq<u8>, pos: int) -> bool {
    let limit = if pos < b.len() { pos } else { b.len() as int };
    pa_scan(b, limit, 0, None) is Some || (unescaped_slash_before(b, pos) && slash_before_space(b, pos + 1))
}

/// Whether byte position `pos` of the bytes `b` lies inside a pattern address.
pub fn inside_at(b: &Vec<u8>, pos: usize) -> (r: bool)
    requires
        pos <= b@.len(),
    ensures
        r == spec_is_inside(b@, pos as int),
{
    let n = b.len();
    let limit = if pos < n { pos } else { n };
    let mut i: usize = 0;
    let mut open: Option<u8> = None;
    while i < limit
        invariant
            limit <= n == b@.len(),
            pa_scan(b@, limit as int, 0, None) == pa_scan(b@, limit as int, i as int, open),
        decreases limit - i,
    {
        let byte = b[i];
        match open {
            None => {
                if byte == 0x2F {
                    open = Some(0x2F);
                } else if byte == 0x5C && i + 1 < limit {
                    open = Some(b[i + 1]);
                    i += 2;
                    continue;
                }
            }
            Some(o) => {
                if byte == 0x5C && i + 1 < limit {
                    i += 2;
                    continue;
                }
                if byte == o {
                    open = None;
                }
            }
        }
        i += 1;
    }
    if open.is_some() {
        return true;
    }
    unescaped_slash_before_exec(b, pos) && slash_before_space_exec(b, pos)
}

fn unescaped_slash_before_exec(b: &Vec<u8>, pos: usize) -> (r: bool)
    requires
        pos <= b@.len(),
    ensures
        r == unescaped_slash_before(b@, pos as int),
{
    let mut j: usize = pos;
    while j > 0
        invariant
            j <= pos <= b@.len(),
            unescaped_slash_before(b@, pos as int) == unescaped_slash_before(b@, j as int),
        decreases j,
    {
        if b[j - 1] == 0x2F && (j - 1 == 0 || b[j - 2] != 0x5C) {
            return true;
        }
        j -= 1;
    }
    false
}

fn slash_before_space_exec(b: &Vec<u8>, pos: usize) -> (r: bool)
    requires
        pos <= b@.len(),
    ensures
        r == slash_before_space(b@, pos + 1),
{
    let n = b.len();
    let mut k: usize = pos;
    while n > 0 && k < n - 1
        invariant
            pos <= k <= n,
            n == b@.len(),
            slash_before_space(b@, pos + 1) == slash_before_space(b@, k + 1),
        decreases n - k,
    {
        let byte = b[k + 1];
        if byte == 0x20 || byte == 0x09 || byte == 0x0A || byte == 0x0C || byte == 0x0D {
            return false;
        }
        if byte == 0x2F {
            return true;
        }
        k += 1;
    }
    false
}

/// True when byte position `pos` of `cmd` lies inside a pattern address or
/// the replacement part of a substitution.
pub fn is_inside_pattern_address(cmd: &str, pos: usize) -> (r: bool)
    requires
        pos <= encode_utf8(cmd@).len(),
    ensures
        r == spec_is_inside(encode_utf8(cmd@), pos as int),
{
    let v = chars_of(cmd);
    let b = encode_chars(&v);
    inside_at(&b, pos)
}


/// Index of the first `c` at or after `i` that is not inside a pattern address.
pub open spec fn find_outside(s: Seq<char>, c: char, i: int) -> Option<int>
    decreases s.len() - i,
{
    if i < 0 || i >= s.len() {
        None
    } else if s[i] == c && !spec_is_inside(encode_utf8(s), byte_len(s.take(i)) as int) {
        Some(i)
    } else {
        find_outside(s, c, i + 1)
    }
}

proof fn lemma_find_outside(s: Seq<char>, c: char, i: int)
    requires
        0 <= i,
    ensures
        find_outside(s, c, i) matches Some(k) ==> i <= k < s.len() && s[k] == c,
    decreases s.len() - i,
{
    if i < s.len() {
        lemma_find_outside(s, c, i + 1);
    }
}

fn find_outside_exec(e: &Encoded, c: char) -> (r: Option<usize>)
    requires
        e.wf(),
    ensures
        match find_outside(e.chars@, c, 0) {
            Some(k) => r == Some(k as usize),
            None => r is None,
        },
        r matches Some(k) ==> k < e.chars@.len() && e.chars@[k as int] == c,
        find_outside(e.chars@, c, 0) matches Some(k) ==> 0 <= k < e.chars@.len(),
{
    proof { lemma_find_outside(e.chars@, c, 0); }
    let n = e.chars.len();
    let mut i: usize = 0;
    while i < n
        invariant
            e.wf(),
            i <= n == e.chars@.len(),
            find_outside(e.chars@, c, 0) == find_outside(e.chars@, c, i as int),
        decreases n - i,
    {
        if e.chars[i] == c {
            proof {
                lemma_byte_len_mono(e.chars@, i as int, n as int);
                assert(e.chars@.take(n as int) =~= e.chars@);
            }
            if !inside_at(&e.bytes, e.offs[i]) {
                return Some(i);
            }
        }
        i += 1;
    }
    None
}

/// An I/O address starting with a backslash and a multi-byte delimiter: the
/// byte after the delimiter's first byte is not a character boundary.
pub open spec fn spec_io_address_malformed(a: Seq<char>) -> bool {
    a.len() >= 2 && a[0] == '\\' && width(a[1]) > 1
}

/// The address of an I/O command: a `\Dpattern\D` address or any address.
pub open spec fn spec_parse_io_address(a: Seq<char>) -> Result<SAddress, ParseErrorKind> {
    if spec_io_address_malformed(a) {
        Err(ParseErrorKind::MalformedText)
    } else if spec_custom_delimiter_pattern(a) is Some {
        Ok(SAddress::Pattern(spec_custom_delimiter_pattern(a).unwrap()))
    } else if spec_address_malformed(a) {
        Err(ParseErrorKind::MalformedText)
    } else {
        spec_parse_address(a)
    }
}

/// The message of the error `spec_parse_io_address` gives for `a`.
pub open spec fn spec_io_address_message(a: Seq<char>) -> Seq<char> {
    if spec_io_address_malformed(a) || (spec_custom_delimiter_pattern(a) is None && spec_address_malformed(a)) {
        spec_format_parse_error(a, None, "malformed address text"@, None)
    } else {
        crate::parser::address::spec_address_message(a)
    }
}

fn parse_io_address(a: &Vec<char>) -> (r: Result<Address, ParseError>)
    ensures
        match spec_parse_io_address(a@) {
            Ok(x) => r matches Ok(y) && y@ == x,
            Err(k) => r matches Err(e) && e.kind == k && e.message@ == spec_io_address_message(a@),
        },
{
    let n = a.len();
    if n >= 2 && a[0] == '\\' && char_width(a[1]) > 1 {
        let msg = format_error_chars(a, None, "malformed address text", None);
        return Err(ParseError { kind: ParseErrorKind::MalformedText, message: msg });
    }
    if n >= 3 && a[0] == '\\' && a[n - 1] == a[1] {
        let mut i: usize = 2;
        let mut esc = false;
        while i < n - 1
            invariant
                2 <= i <= n - 1,
                n == a@.len(),
                esc == escaped_before(a@, 2, i as int),
            decreases n - i,
        {
            if esc {
                esc = false;
            } else if a[i] == '\\' {
                esc = true;
            }
            i += 1;
        }
        if !esc {
            let p = slice_of(a, 2, n - 1);
            return Ok(Address::Pattern(string_of(&p)));
        }
    }
    if address_malformed(a) {
        let msg = format_error_chars(a, None, "malformed address text", None);
        return Err(ParseError { kind: ParseErrorKind::MalformedText, message: msg });
    }
    parse_address_chars(a)
}

/// The I/O commands.
#[derive(Clone, Copy)]
pub enum IoKind {
    ReadFile,
    WriteFile,
    ReadLine,
    WriteFirstLine,
}

pub open spec fn io_letter(k: IoKind) -> char {
    match k {
        IoKind::ReadFile => 'r',
        IoKind::WriteFile => 'w',
        IoKind::ReadLine => 'R',
        IoKind::WriteFirstLine => 'W',
    }
}

/// The message for an I/O command without its letter.
pub open spec fn io_missing_message(k: IoKind) -> Seq<char> {
    match k {
        IoKind::ReadFile => "Read file command missing 'r'"@,
        IoKind::WriteFile => "Write file command missing 'w'"@,
        IoKind::ReadLine => "Read line command missing 'R'"@,
        IoKind::WriteFirstLine => "Write first line command missing 'W'"@,
    }
}

/// The description and hint for an I/O command without a filename.
pub open spec fn io_filename_text(k: IoKind) -> (Seq<char>, Seq<char>) {
    match k {
        IoKind::ReadFile => (
            "read file command requires a filename"@,
            "Read file format: [address]r filename\nExample: 5r header.txt\n         /pat/r data.txt"@,
        ),
        IoKind::WriteFile => (
            "write file command requires a filename"@,
            "Write file format: [address]w filename\nExample: 5w output.txt\n         /pat/w log.txt"@,
        ),
        IoKind::ReadLine => (
            "read line command requires a filename"@,
            "Read line format: [address]R filename\nExample: 5R data.txt\n         /pat/R input.txt"@,
        ),
        IoKind::WriteFirstLine => (
            "write first line command requires a filename"@,
            "Write first line format: [address]W filename\nExample: 5W output.txt\n         /pat/W log.txt"@,
        ),
    }
}

fn io_texts(k: IoKind) -> (r: (&'static str, &'static str, &'static str))
    ensures
        r.0@ == io_missing_message(k),
        r.1@ == io_filename_text(k).0,
        r.2@ == io_filename_text(k).1,
{
    match k {
        IoKind::ReadFile => (
            "Read file command missing 'r'",
            "read file command requires a filename",
            "Read file format: [address]r filename\nExample: 5r header.txt\n         /pat/r data.txt",
        ),
        IoKind::WriteFile => (
            "Write file command missing 'w'",
            "write file command requires a filename",
            "Write file format: [address]w filename\nExample: 5w output.txt\n         /pat/w log.txt",
        ),
        IoKind::ReadLine => (
            "Read line command missing 'R'",
            "read line command requires a filename",
            "Read line format: [address]R filename\nExample: 5R data.txt\n         /pat/R input.txt",
        ),
        IoKind::WriteFirstLine => (
            "Write first line command missing 'W'",
            "write first line command requires a filename",
            "Write first line format: [address]W filename\nExample: 5W output.txt\n         /pat/W log.txt",
        ),
    }
}

/// The message of the error `spec_parse_io` gives for `cmd`.
pub open spec fn spec_io_message(cmd: Seq<char>, k: IoKind) -> Seq<char> {
    let t = trim(cmd);
    match find_outside(t, io_letter(k), 0) {
        None => io_missing_message(k),
        Some(p) => {
            let ap = trim(t.take(p));
            if ap.len() > 0 && spec_parse_io_address(ap) is Err {
                spec_io_address_message(ap)
            } else {
                spec_format_parse_error(t, None, io_filename_text(k).0, Some(io_filename_text(k).1))
            }
        },
    }
}

pub open spec fn io_command(k: IoKind, filename: Seq<char>, range: Option<SAddress>) -> SCommand {
    match k {
        IoKind::ReadFile => SCommand::ReadFile { filename, range },
        IoKind::WriteFile => SCommand::WriteFile { filename, range },
        IoKind::ReadLine => SCommand::ReadLine { filename, range },
        IoKind::WriteFirstLine => SCommand::WriteFirstLine { filename, range },
    }
}

/// What an I/O command parses to: its letter outside any pattern address,
/// the optional address before it, and the (nonempty, trimmed) file name
/// after it.
pub open spec fn spec_parse_io(cmd: Seq<char>, k: IoKind) -> Result<SCommand, ParseErrorKind> {
    let t = trim(cmd);
    match find_outside(t, io_letter(k), 0) {
        None => Err(ParseErrorKind::MissingCommandChar),
        Some(p) => {
            let ap = trim(t.take(p));
            let range = if ap.len() == 0 {
                Ok(None)
            } else {
                match spec_parse_io_address(ap) {
                    Ok(a) => Ok(Some(a)),
                    Err(e) => Err(e),
                }
            };
            match range {
                Err(e) => Err(e),
                Ok(r) => {
                    let filename = trim(t.skip(p + 1));
                    if filename.len() == 0 {
                        Err(ParseErrorKind::MissingFilename)
                    } else {
                        Ok(io_command(k, filename, r))
                    }
                }
            }
        }
    }
}

fn parse_io(cmd: &str, k: IoKind) -> (r: Result<Command, ParseError>)
    ensures
        match spec_parse_io(cmd@, k) {
            Ok(x) => r matches Ok(y) && y@ == x,
            Err(kind) => r matches Err(e) && e.kind == kind && e.message@ == spec_io_message(cmd@, k),
        },
{
    let t = trim_vec(&chars_of(cmd));
    let letter = match k {
        IoKind::ReadFile => 'r',
        IoKind::WriteFile => 'w',
        IoKind::ReadLine => 'R',
        IoKind::WriteFirstLine => 'W',
    };
    assert(letter == io_letter(k));
    let e = Encoded::new(slice_of(&t, 0, t.len()));
    assert(t@.subrange(0, t@.len() as int) =~= t@);
    assert(e.chars@ == t@);
    let texts = io_texts(k);
    let p = match find_outside_exec(&e, letter) {
        None => {
            return Err(ParseError { kind: ParseErrorKind::MissingCommandChar, message: str_to_string(texts.0) });
        }
        Some(p) => p,
    };
    let before = slice_of(&t, 0, p);
    assert(before@ =~= t@.take(p as int));
    let ap = trim_vec(&before);
    let range = if ap.len() == 0 {
        None
    } else {
        match parse_io_address(&ap) {
            Ok(a) => Some(a),
            Err(e) => { return Err(e); }
        }
    };
    let n = t.len();
    let after = slice_of(&t, p + 1, n);
    assert(after@ =~= t@.skip(p + 1));
    let filename = trim_vec(&after);
    if filename.len() == 0 {
        let msg = format_error_chars(&t, None, texts.1, Some(texts.2));
        return Err(ParseError { kind: ParseErrorKind::MissingFilename, message: msg });
    }
    let filename = string_of(&filename);
    match k {
        IoKind::ReadFile => Ok(Command::ReadFile { filename, range }),
        IoKind::WriteFile => Ok(Command::WriteFile { filename, range }),
        IoKind::ReadLine => Ok(Command::ReadLine { filename, range }),
        IoKind::WriteFirstLine => Ok(Command::WriteFirstLine { filename, range }),
    }
}

/// Parse `[address]r filename`.
pub fn parse_read_file(cmd: &str) -> (r: Result<Command, ParseError>)
    ensures
        match spec_parse_io(cmd@, IoKind::ReadFile) {
            Ok(x) => r matches Ok(y) && y@ == x,
            Err(kind) => r matches Err(e) && e.kind == kind && e.message@ == spec_io_message(cmd@, IoKind::ReadFile),
        },
{
    parse_io(cmd, IoKind::ReadFile)
}

/// Parse `[address]w filename`.
pub fn parse_write_file(cmd: &str) -> (r: Result<Command, ParseError>)
    ensures
        match spec_parse_io(cmd@, IoKind::WriteFile) {
            Ok(x) => r matches Ok(y) && y@ == x,
            Err(kind) => r matches Err(e) && e.kind == kind && e.message@ == spec_io_message(cmd@, IoKind::WriteFile),
        },
{
    parse_io(cmd, IoKind::WriteFile)
}

/// Parse `[address]R filename`.
pub fn parse_read_line(cmd: &str) -> (r: Result<Command, ParseError>)
    ensures
        match spec_parse_io(cmd@, IoKind::ReadLine) {
            Ok(x) => r matches Ok(y) && y@ == x,
            Err(kind) => r matches Err(e) && e.kind == kind && e.message@ == spec_io_message(cmd@, IoKind::ReadLine),
        },
{
    parse_io(cmd, IoKind::ReadLine)
}

/// Parse `[address]W filename`.
pub fn parse_write_first_line(cmd: &str) -> (r: Result<Command, ParseError>)
    ensures
        match spec_parse_io(cmd@, IoKind::WriteFirstLine) {
            Ok(x) => r matches Ok(y) && y@ == x,
            Err(kind) => r matches Err(e) && e.kind == kind && e.message@ == spec_io_message(cmd@, IoKind::WriteFirstLine),
        },
{
    parse_io(cmd, IoKind::WriteFirstLine)
}

} // verus!
