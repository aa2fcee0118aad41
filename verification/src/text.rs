//! Character-level text helpers shared by the parser and the engines.
use vstd::prelude::*;
use vstd::string::*;
use vstd::utf8::*;

verus! {

broadcast use vstd::string::group_string_axioms;

/// The characters of a string slice, in order.
pub fn chars_of(s: &str) -> (v: Vec<char>)
    ensures
        v@ == s@,
{
    let mut v: Vec<char> = Vec::new();
    for c in it: s.chars()
        invariant
            v@ == it.seq().take(it.index() as int),
            it.seq() == s@,
    {
        v.push(c);
    }
    v
}

/// Appends one character to a string (`String::push`).
#[verifier::external_body]
pub(crate) fn push_char(s: &mut String, c: char)
    ensures
        final(s)@ == old(s)@.push(c),
{
    s.push(c);
}

/// Appends the characters of `t` to `s`.
pub fn push_str(s: &mut String, t: &str)
    ensures
        final(s)@ == old(s)@ + t@,
{
    s.append(t);
}

/// An owned copy of a string slice.
pub fn str_to_string(t: &str) -> (s: String)
    ensures
        s@ == t@,
{
    let mut s = String::new();
    push_str(&mut s, t);
    s
}

/// A string holding exactly the characters `v[lo..hi]`.
pub fn string_of_range(v: &Vec<char>, lo: usize, hi: usize) -> (s: String)
    requires
        lo <= hi <= v@.len(),
    ensures
        s@ == v@.subrange(lo as int, hi as int),
{
    let mut s = String::new();
    let mut i = lo;
    while i < hi
        invariant
            lo <= i <= hi <= v@.len(),
            s@ == v@.subrange(lo as int, i as int),
        decreases hi - i,
    {
        push_char(&mut s, v[i]);
        assert(v@.subrange(lo as int, i + 1) =~= v@.subrange(lo as int, i as int).push(v@[i as int]));
        i += 1;
    }
    s
}

/// A string holding exactly the characters of `v`.
pub fn string_of(v: &Vec<char>) -> (s: String)
    ensures
        s@ == v@,
{
    let s = string_of_range(v, 0, v.len());
    assert(v@.subrange(0, v@.len() as int) =~= v@);
    s
}

/// The vector `v[lo..hi]`.
pub fn slice_of(v: &Vec<char>, lo: usize, hi: usize) -> (r: Vec<char>)
    requires
        lo <= hi <= v@.len(),
    ensures
        r@ == v@.subrange(lo as int, hi as int),
{
    let mut r: Vec<char> = Vec::new();
    let mut i = lo;
    while i < hi
        invariant
            lo <= i <= hi <= v@.len(),
            r@ == v@.subrange(lo as int, i as int),
        decreases hi - i,
    {
        r.push(v[i]);
        assert(v@.subrange(lo as int, i + 1) =~= v@.subrange(lo as int, i as int).push(v@[i as int]));
        i += 1;
    }
    r
}

/// `char::is_whitespace`: the Unicode White_Space property.
pub open spec fn is_ws(c: char) -> bool {
    ||| c == '\t' || c == '\n' || c == '\x0B' || c == '\x0C' || c == '\r' || c == ' '
    ||| c == '\u{85}' || c == '\u{A0}' || c == '\u{1680}'
    ||| ('\u{2000}' <= c && c <= '\u{200A}')
    ||| c == '\u{2028}' || c == '\u{2029}' || c == '\u{202F}' || c == '\u{205F}' || c == '\u{3000}'
}

pub fn is_whitespace(c: char) -> (b: bool)
    ensures
        b == is_ws(c),
{
    c == '\t' || c == '\n' || c == '\x0B' || c == '\x0C' || c == '\r' || c == ' ' || c == '\u{85}'
        || c == '\u{A0}' || c == '\u{1680}' || ('\u{2000}' <= c && c <= '\u{200A}') || c == '\u{2028}'
        || c == '\u{2029}' || c == '\u{202F}' || c == '\u{205F}' || c == '\u{3000}'
}


/// `str::trim_start`: drop leading whitespace.
pub open spec fn ltrim(s: Seq<char>) -> Seq<char>
    decreases s.len(),
{
    if s.len() > 0 && is_ws(s[0]) {
        ltrim(s.drop_first())
    } else {
        s
    }
}

/// `str::trim_end`: drop trailing whitespace.
pub open spec fn rtrim(s: Seq<char>) -> Seq<char>
    decreases s.len(),
{
    if s.len() > 0 && is_ws(s.last()) {
        rtrim(s.drop_last())
    } else {
        s
    }
}

/// `str::trim`: drop leading and trailing whitespace.
pub open spec fn trim(s: Seq<char>) -> Seq<char> {
    rtrim(ltrim(s))
}

/// The trimmed copy of `v`.
pub fn trim_vec(v: &Vec<char>) -> (r: Vec<char>)
    ensures
        r@ == trim(v@),
{
    let n = v.len();
    let mut lo: usize = 0;
    assert(v@.subrange(0, n as int) =~= v@);
    while lo < n && is_whitespace(v[lo])
        invariant
            lo <= n == v@.len(),
            ltrim(v@) == ltrim(v@.subrange(lo as int, n as int)),
        decreases n - lo,
    {
        assert(v@.subrange(lo as int, n as int).drop_first() =~= v@.subrange(lo + 1, n as int));
        lo += 1;
    }
    let mut hi: usize = n;
    assert(ltrim(v@) == v@.subrange(lo as int, n as int));
    while hi > lo && is_whitespace(v[hi - 1])
        invariant
            lo <= hi <= n == v@.len(),
            trim(v@) == rtrim(v@.subrange(lo as int, hi as int)),
        decreases hi,
    {
        assert(v@.subrange(lo as int, hi as int).drop_last() =~= v@.subrange(lo as int, hi - 1));
        hi -= 1;
    }
    slice_of(v, lo, hi)
}

/// True when `c` is an ASCII decimal digit.
pub open spec fn is_digit(c: char) -> bool {
    '0' <= c && c <= '9'
}

/// The value of a digit character.
pub open spec fn digit_val(c: char) -> nat {
    ((c as u32) - ('0' as u32)) as nat
}

/// The decimal value of a sequence of digits.
pub open spec fn digits_value(d: Seq<char>) -> nat
    decreases d.len(),
{
    if d.len() == 0 {
        0
    } else {
        digits_value(d.drop_last()) * 10 + digit_val(d.last())
    }
}

pub open spec fn all_digits(d: Seq<char>) -> bool {
    forall|i: int| 0 <= i < d.len() ==> is_digit(#[trigger] d[i])
}

/// `str::parse::<usize>` on the characters of a string: an optional `+`,
/// then at least one digit, and a value that fits.
pub open spec fn spec_parse_usize(s: Seq<char>) -> Option<usize> {
    let d = if s.len() > 0 && s[0] == '+' { s.drop_first() } else { s };
    if d.len() > 0 && all_digits(d) && digits_value(d) <= usize::MAX {
        Some(digits_value(d) as usize)
    } else {
        None
    }
}

/// `str::parse::<isize>` on the characters of a string: an optional sign,
/// then at least one digit, and a value within the range of `isize`.
pub open spec fn spec_parse_isize(s: Seq<char>) -> Option<isize> {
    let neg = s.len() > 0 && s[0] == '-';
    let d = if s.len() > 0 && (s[0] == '+' || s[0] == '-') { s.drop_first() } else { s };
    if d.len() > 0 && all_digits(d) {
        if neg && digits_value(d) <= isize::MAX + 1 {
            Some((0 - digits_value(d)) as isize)
        } else if !neg && digits_value(d) <= isize::MAX {
            Some(digits_value(d) as isize)
        } else {
            None
        }
    } else {
        None
    }
}

proof fn lemma_digits_value_mono(d: Seq<char>, i: int)
    requires
        0 <= i <= d.len(),
    ensures
        digits_value(d.take(i)) <= digits_value(d),
    decreases d.len() - i,
{
    if i < d.len() {
        lemma_digits_value_mono(d, i + 1);
        assert(d.take(i + 1).drop_last() =~= d.take(i));
    } else {
        assert(d.take(i) =~= d);
    }
}

/// Value of the digits `d`, or `None` when a character is not a digit, the
/// sequence is empty, or the value exceeds `usize::MAX`.
fn digits_to_usize(d: &Vec<char>) -> (r: Option<usize>)
    ensures
        r == (if d@.len() > 0 && all_digits(d@) && digits_value(d@) <= usize::MAX {
            Some(digits_value(d@) as usize)
        } else {
            None::<usize>
        }),
{
    if d.len() == 0 {
        return None;
    }
    let mut acc: usize = 0;
    let mut i: usize = 0;
    while i < d.len()
        invariant
            i <= d@.len(),
            acc == digits_value(d@.take(i as int)),
            all_digits(d@.take(i as int)),
        decreases d@.len() - i,
    {
        let c = d[i];
        if !('0' <= c && c <= '9') {
            assert(!is_digit(d@[i as int]));
            return None;
        }
        assert(d@.take(i + 1).drop_last() =~= d@.take(i as int));
        let dv = (c as u32 - '0' as u32) as usize;
        let m = acc.checked_mul(10);
        match m {
            None => {
                proof { lemma_digits_value_mono(d@, i + 1); }
                return None;
            }
            Some(m) => {
                let a = m.checked_add(dv);
                match a {
                    None => {
                        proof { lemma_digits_value_mono(d@, i + 1); }
                        return None;
                    }
                    Some(a) => { acc = a; }
                }
            }
        }
        i += 1;
    }
    assert(d@.take(d@.len() as int) =~= d@);
    Some(acc)
}

/// `str::parse::<usize>`.
pub fn parse_usize(s: &Vec<char>) -> (r: Option<usize>)
    ensures
        r == spec_parse_usize(s@),
{
    if s.len() > 0 && s[0] == '+' {
        let d = slice_of(s, 1, s.len());
        assert(d@ =~= s@.drop_first());
        digits_to_usize(&d)
    } else {
        digits_to_usize(s)
    }
}

/// `str::parse::<isize>`.
pub fn parse_isize(s: &Vec<char>) -> (r: Option<isize>)
    ensures
        r == spec_parse_isize(s@),
{
    let neg = s.len() > 0 && s[0] == '-';
    let d = if s.len() > 0 && (s[0] == '+' || s[0] == '-') {
        let d = slice_of(s, 1, s.len());
        assert(d@ =~= s@.drop_first());
        d
    } else {
        slice_of(s, 0, s.len())
    };
    assert(s@.subrange(0, s@.len() as int) =~= s@);
    match digits_to_usize(&d) {
        None => None,
        Some(v) => {
            if neg {
                if v <= (isize::MAX as usize) {
                    Some(0isize - (v as isize))
                } else if v == (isize::MAX as usize) + 1 {
                    Some(isize::MIN)
                } else {
                    None
                }
            } else if v <= (isize::MAX as usize) {
                Some(v as isize)
            } else {
                None
            }
        }
    }
}


/// Number of UTF-8 bytes of a character (`char::len_utf8`).
pub open spec fn width(c: char) -> nat {
    encode_scalar(c as u32).len()
}

/// Number of UTF-8 bytes of a character sequence (`str::len`).
pub open spec fn byte_len(s: Seq<char>) -> nat {
    encode_utf8(s).len()
}

pub proof fn lemma_encode_concat(a: Seq<char>, b: Seq<char>)
    ensures
        encode_utf8(a + b) == encode_utf8(a) + encode_utf8(b),
    decreases a.len(),
{
    if a.len() == 0 {
        assert(a + b =~= b);
    } else {
        lemma_encode_concat(a.drop_first(), b);
        assert((a + b).drop_first() =~= a.drop_first() + b);
        assert(encode_utf8(a + b) =~= encode_utf8(a) + encode_utf8(b));
    }
}

pub proof fn lemma_byte_len_step(s: Seq<char>, i: int)
    requires
        0 <= i < s.len(),
    ensures
        byte_len(s.take(i + 1)) == byte_len(s.take(i)) + width(s[i]),
{
    lemma_encode_concat(s.take(i), seq![s[i]]);
    assert(s.take(i + 1) =~= s.take(i) + seq![s[i]]);
    lemma_encode_single(s[i]);
}

pub proof fn lemma_encode_single(c: char)
    ensures
        encode_utf8(seq![c]) == encode_scalar(c as u32),
{
    let s1 = seq![c];
    assert(s1.drop_first() =~= Seq::<char>::empty());
    assert(encode_utf8(Seq::<char>::empty()) =~= Seq::<u8>::empty());
    assert(encode_utf8(s1) =~= encode_scalar(s1[0] as u32) + encode_utf8(s1.drop_first()));
}

pub proof fn lemma_byte_len_mono(s: Seq<char>, i: int, j: int)
    requires
        0 <= i <= j <= s.len(),
    ensures
        byte_len(s.take(i)) <= byte_len(s.take(j)),
        i < j ==> byte_len(s.take(i)) < byte_len(s.take(j)),
    decreases j - i,
{
    if i < j {
        lemma_byte_len_mono(s, i, j - 1);
        lemma_byte_len_step(s, j - 1);
    }
}

/// `char::len_utf8`.
pub fn char_width(c: char) -> (w: usize)
    ensures
        w == width(c),
{
    let v = c as u32;
    if v <= 0x7F {
        1
    } else if v <= 0x7FF {
        2
    } else if v <= 0xFFFF {
        3
    } else {
        4
    }
}

/// The UTF-8 bytes of a character sequence.
pub fn encode_chars(v: &Vec<char>) -> (b: Vec<u8>)
    ensures
        b@ == encode_utf8(v@),
{
    let mut b: Vec<u8> = Vec::new();
    let mut i: usize = 0;
    while i < v.len()
        invariant
            i <= v@.len(),
            b@ == encode_utf8(v@.take(i as int)),
        decreases v@.len() - i,
    {
        let c = v[i];
        let x = c as u32;
        proof {
            lemma_encode_concat(v@.take(i as int), seq![c]);
            assert(v@.take(i + 1) =~= v@.take(i as int) + seq![c]);
            lemma_encode_single(c);
            vstd::utf8::char_is_scalar(c);
        }
        if x <= 0x7F {
            b.push((x & 0x7F) as u8);
        } else if x <= 0x7FF {
            b.push(0xC0 | ((x >> 6) & 0x1F) as u8);
            b.push(0x80 | (x & 0x3F) as u8);
        } else if x <= 0xFFFF {
            b.push(0xE0 | ((x >> 12) & 0x0F) as u8);
            b.push(0x80 | ((x >> 6) & 0x3F) as u8);
            b.push(0x80 | (x & 0x3F) as u8);
        } else {
            b.push(0xF0 | ((x >> 18) & 0x7) as u8);
            b.push(0x80 | ((x >> 12) & 0x3F) as u8);
            b.push(0x80 | ((x >> 6) & 0x3F) as u8);
            b.push(0x80 | (x & 0x3F) as u8);
        }
        assert(b@ =~= encode_utf8(v@.take(i as int)) + encode_scalar(x));
        i += 1;
    }
    assert(v@.take(v@.len() as int) =~= v@);
    b
}

/// Byte offset of each character index `0..=len` of `v`; the last entry is
/// the byte length of the whole text.
pub fn byte_offsets(v: &Vec<char>, total: usize) -> (offs: Vec<usize>)
    requires
        total == byte_len(v@),
    ensures
        offs@.len() == v@.len() + 1,
        forall|i: int| 0 <= i <= v@.len() ==> offs@[i] == byte_len(#[trigger] v@.take(i)),
{
    let mut offs: Vec<usize> = Vec::new();
    let mut acc: usize = 0;
    let mut i: usize = 0;
    offs.push(0);
    assert(encode_utf8(v@.take(0)) =~= Seq::<u8>::empty());
    while i < v.len()
        invariant
            i <= v@.len(),
            total == byte_len(v@),
            acc == byte_len(v@.take(i as int)),
            offs@.len() == i + 1,
            forall|k: int| 0 <= k <= i ==> offs@[k] == byte_len(#[trigger] v@.take(k)),
        decreases v@.len() - i,
    {
        proof {
            lemma_byte_len_step(v@, i as int);
            lemma_byte_len_mono(v@, i + 1, v@.len() as int);
            assert(v@.take(v@.len() as int) =~= v@);
        }
        acc = acc + char_width(v[i]);
        offs.push(acc);
        i += 1;
    }
    offs
}


/// Index of the first occurrence of `c` in `s` at or after `i`.
pub open spec fn find_from(s: Seq<char>, c: char, i: int) -> Option<int>
    decreases s.len() - i,
{
    if i < 0 || i >= s.len() {
        None
    } else if s[i] == c {
        Some(i)
    } else {
        find_from(s, c, i + 1)
    }
}

/// Index of the first occurrence of `c` in `s` (`str::find`, counted in characters).
pub open spec fn find_char(s: Seq<char>, c: char) -> Option<int> {
    find_from(s, c, 0)
}

pub proof fn lemma_find_from(s: Seq<char>, c: char, i: int)
    requires
        0 <= i,
    ensures
        find_from(s, c, i) matches Some(k) ==> i <= k < s.len() && s[k] == c && forall|m: int| i <= m < k ==> s[m] != c,
        find_from(s, c, i) is None ==> forall|m: int| i <= m < s.len() ==> s[m] != c,
    decreases s.len() - i,
{
    if i < s.len() && s[i] != c {
        lemma_find_from(s, c, i + 1);
    }
}

/// First index of `c` in `v`.
pub fn find_char_exec(v: &Vec<char>, c: char) -> (r: Option<usize>)
    ensures
        match find_char(v@, c) {
            Some(k) => r == Some(k as usize),
            None => r is None,
        },
{
    let mut i: usize = 0;
    while i < v.len()
        invariant
            i <= v@.len(),
            find_from(v@, c, 0) == find_from(v@, c, i as int),
        decreases v@.len() - i,
    {
        if v[i] == c {
            return Some(i);
        }
        i += 1;
    }
    None
}

pub proof fn lemma_ltrim_len(s: Seq<char>)
    ensures
        ltrim(s).len() <= s.len(),
        exists|k: int| 0 <= k <= s.len() && ltrim(s) == s.skip(k),
    decreases s.len(),
{
    if s.len() > 0 && is_ws(s[0]) {
        lemma_ltrim_len(s.drop_first());
        let k = choose|k: int| 0 <= k <= s.drop_first().len() && ltrim(s.drop_first()) == s.drop_first().skip(k);
        assert(s.drop_first().skip(k) =~= s.skip(k + 1));
    } else {
        assert(s.skip(0) =~= s);
    }
}

pub proof fn lemma_rtrim_len(s: Seq<char>)
    ensures
        rtrim(s).len() <= s.len(),
        rtrim(s) == s.take(rtrim(s).len() as int),
    decreases s.len(),
{
    if s.len() > 0 && is_ws(s.last()) {
        lemma_rtrim_len(s.drop_last());
        assert(s.drop_last().take(rtrim(s).len() as int) =~= s.take(rtrim(s).len() as int));
    } else {
        assert(s.take(s.len() as int) =~= s);
    }
}

pub proof fn lemma_trim_len(s: Seq<char>)
    ensures
        trim(s).len() <= s.len(),
{
    lemma_ltrim_len(s);
    lemma_rtrim_len(ltrim(s));
}

/// Trimming is idempotent.
pub proof fn lemma_trim_idem(s: Seq<char>)
    ensures
        trim(trim(s)) == trim(s),
{
    lemma_ltrim_trim(s);
    lemma_rtrim_idem(ltrim(s));
}

proof fn lemma_ltrim_idem(s: Seq<char>)
    ensures
        ltrim(ltrim(s)) == ltrim(s),
    decreases s.len(),
{
    if s.len() > 0 && is_ws(s[0]) {
        lemma_ltrim_idem(s.drop_first());
    }
}

proof fn lemma_rtrim_idem(s: Seq<char>)
    ensures
        rtrim(rtrim(s)) == rtrim(s),
    decreases s.len(),
{
    if s.len() > 0 && is_ws(s.last()) {
        lemma_rtrim_idem(s.drop_last());
    }
}

/// After a left trim, right-trimming keeps the text left-trimmed.
proof fn lemma_ltrim_trim(s: Seq<char>)
    ensures
        ltrim(rtrim(ltrim(s))) == rtrim(ltrim(s)),
{
    let l = ltrim(s);
    lemma_ltrim_first(s);
    lemma_rtrim_len(l);
    let r = rtrim(l);
    if r.len() > 0 {
        assert(r[0] == l[0]);
    }
}

proof fn lemma_ltrim_first(s: Seq<char>)
    ensures
        ltrim(s).len() > 0 ==> !is_ws(ltrim(s)[0]),
    decreases s.len(),
{
    if s.len() > 0 && is_ws(s[0]) {
        lemma_ltrim_first(s.drop_first());
    }
}


/// A text with its UTF-8 bytes and the byte offset of each character.
pub struct Encoded {
    pub chars: Vec<char>,
    pub bytes: Vec<u8>,
    pub offs: Vec<usize>,
}

impl Encoded {
    pub open spec fn wf(&self) -> bool {
        &&& self.bytes@ == encode_utf8(self.chars@)
        &&& self.offs@.len() == self.chars@.len() + 1
        &&& forall|i: int| 0 <= i <= self.chars@.len() ==> self.offs@[i] == byte_len(#[trigger] self.chars@.take(i))
    }

    pub fn new(v: Vec<char>) -> (e: Self)
        ensures
            e.wf(),
            e.chars@ == v@,
    {
        let bytes = encode_chars(&v);
        let offs = byte_offsets(&v, bytes.len());
        Encoded { chars: v, bytes, offs }
    }
}

/// Index of the first `c1` immediately followed by `c2`, at or after `i`.
pub open spec fn find_pair_from(s: Seq<char>, c1: char, c2: char, i: int) -> Option<int>
    decreases s.len() - i,
{
    if i < 0 || i + 1 >= s.len() {
        None
    } else if s[i] == c1 && s[i + 1] == c2 {
        Some(i)
    } else {
        find_pair_from(s, c1, c2, i + 1)
    }
}

pub proof fn lemma_find_pair(s: Seq<char>, c1: char, c2: char, i: int)
    requires
        0 <= i,
    ensures
        find_pair_from(s, c1, c2, i) matches Some(k) ==> i <= k && k + 1 < s.len() && s[k] == c1 && s[k + 1] == c2,
        find_pair_from(s, c1, c2, i) is None ==> forall|m: int| i <= m && m + 1 < s.len() ==> !(#[trigger] s[m] == c1 && s[m + 1] == c2),
    decreases s.len() - i,
{
    if i + 1 < s.len() && !(s[i] == c1 && s[i + 1] == c2) {
        lemma_find_pair(s, c1, c2, i + 1);
    }
}

/// First index of `c1` immediately followed by `c2`.
pub fn find_pair_exec(v: &Vec<char>, c1: char, c2: char) -> (r: Option<usize>)
    ensures
        match find_pair_from(v@, c1, c2, 0) {
            Some(k) => r == Some(k as usize),
            None => r is None,
        },
        r matches Some(k) ==> k + 1 < v@.len() && v@[k as int] == c1 && v@[k + 1] == c2,
{
    proof { lemma_find_pair(v@, c1, c2, 0); }
    let n = v.len();
    let mut i: usize = 0;
    while n > 0 && i < n - 1
        invariant
            i <= n,
            n == v@.len(),
            find_pair_from(v@, c1, c2, 0) == find_pair_from(v@, c1, c2, i as int),
        decreases n - i,
    {
        if v[i] == c1 && v[i + 1] == c2 {
            return Some(i);
        }
        i += 1;
    }
    None
}


/// Byte position `pos` is the start of the character with index `k` of `s`
/// (or its end, when `k == s.len()`).
pub open spec fn is_char_start(s: Seq<char>, pos: int, k: int) -> bool {
    0 <= k <= s.len() && byte_len(s.take(k)) == pos
}

/// The character index whose first byte is at byte position `pos`.
pub open spec fn char_index_at(s: Seq<char>, pos: int) -> int {
    choose|k: int| is_char_start(s, pos, k)
}

pub proof fn lemma_char_index_unique(s: Seq<char>, pos: int, k: int)
    requires
        is_char_start(s, pos, k),
    ensures
        char_index_at(s, pos) == k,
{
    let j = char_index_at(s, pos);
    assert(is_char_start(s, pos, j));
    if j < k {
        lemma_byte_len_mono(s, j, k);
    } else if k < j {
        lemma_byte_len_mono(s, k, j);
    }
}

/// The character index that starts at byte `pos`, if `pos` is a character boundary.
pub fn char_index_of_byte(e: &Encoded, pos: usize) -> (r: Option<usize>)
    requires
        e.wf(),
    ensures
        match r {
            Some(k) => is_char_start(e.chars@, pos as int, k as int) && char_index_at(e.chars@, pos as int) == k,
            None => forall|k: int| !is_char_start(e.chars@, pos as int, k),
        },
{
    let n = e.chars.len();
    let mut k: usize = 0;
    while k < n
        invariant
            e.wf(),
            k <= n == e.chars@.len(),
            forall|j: int| 0 <= j < k ==> byte_len(#[trigger] e.chars@.take(j)) != pos,
        decreases n - k,
    {
        if e.offs[k] == pos {
            proof { lemma_char_index_unique(e.chars@, pos as int, k as int); }
            return Some(k);
        }
        k += 1;
    }
    if e.offs[n] == pos {
        proof { lemma_char_index_unique(e.chars@, pos as int, n as int); }
        return Some(n);
    }
    None
}

/// `t` occurs in `s` starting at index `i`.
pub open spec fn occurs_at(s: Seq<char>, t: Seq<char>, i: int) -> bool {
    0 <= i && i + t.len() <= s.len() && s.subrange(i, i + t.len()) == t
}

/// `t` occurs somewhere in `s` (`str::contains`).
pub open spec fn contains_seq(s: Seq<char>, t: Seq<char>) -> bool {
    exists|i: int| #[trigger] occurs_at(s, t, i)
}

fn occurs_at_exec(s: &Vec<char>, t: &Vec<char>, i: usize) -> (b: bool)
    requires
        i + t@.len() <= s@.len(),
    ensures
        b == occurs_at(s@, t@, i as int),
{
    let sl = s.len();
    let mut j: usize = 0;
    while j < t.len()
        invariant
            j <= t@.len(),
            i + t@.len() <= s@.len() == sl,
            forall|k: int| 0 <= k < j ==> s@[i + k] == t@[k],
        decreases t@.len() - j,
    {
        if s[i + j] != t[j] {
            assert(s@.subrange(i as int, i + t@.len())[j as int] != t@[j as int]);
            return false;
        }
        j += 1;
    }
    assert(s@.subrange(i as int, i + t@.len()) =~= t@);
    true
}

/// Whether `t` occurs in the characters `s`.
pub fn contains_chars(s: &Vec<char>, t: &Vec<char>) -> (b: bool)
    ensures
        b == contains_seq(s@, t@),
{
    if t.len() > s.len() {
        return false;
    }
    let n = s.len();
    let m = t.len();
    if m == 0 {
        assert(s@.subrange(0, 0) =~= t@);
        assert(occurs_at(s@, t@, 0));
        return true;
    }
    let mut i: usize = 0;
    while i <= n - m
        invariant
            m == t@.len() <= s@.len() == n,
            m > 0,
            i <= n - m + 1,
            forall|k: int| 0 <= k < i ==> !occurs_at(s@, t@, k),
        decreases n - m + 1 - i,
    {
        if occurs_at_exec(s, t, i) {
            return true;
        }
        i += 1;
    }
    assert forall|k: int| !(#[trigger] occurs_at(s@, t@, k)) by {
        if 0 <= k < i {
        }
    }
    false
}

/// Whether `t` occurs in `s` (`str::contains`).
pub fn contains_str(s: &str, t: &str) -> (b: bool)
    ensures
        b == contains_seq(s@, t@),
{
    contains_chars(&chars_of(s), &chars_of(t))
}

/// The character of a decimal digit.
pub open spec fn digit_char(d: nat) -> char {
    if d == 0 { '0' } else if d == 1 { '1' } else if d == 2 { '2' } else if d == 3 { '3' } else if d == 4 {
        '4'
    } else if d == 5 { '5' } else if d == 6 { '6' } else if d == 7 { '7' } else if d == 8 { '8' } else {
        '9'
    }
}

/// The decimal digits of `n` (`usize::to_string`).
pub open spec fn decimal(n: nat) -> Seq<char>
    decreases n,
{
    if n < 10 {
        seq![digit_char(n)]
    } else {
        decimal(n / 10) + seq![digit_char(n % 10)]
    }
}

fn digit_exec(d: usize) -> (c: char)
    requires
        d < 10,
    ensures
        c == digit_char(d as nat),
{
    if d == 0 { '0' } else if d == 1 { '1' } else if d == 2 { '2' } else if d == 3 { '3' } else if d == 4 {
        '4'
    } else if d == 5 { '5' } else if d == 6 { '6' } else if d == 7 { '7' } else if d == 8 { '8' } else {
        '9'
    }
}

/// The decimal form of `n`.
pub fn usize_to_string(n: usize) -> (s: String)
    ensures
        s@ == decimal(n as nat),
    decreases n,
{
    if n < 10 {
        let mut s = String::new();
        push_char(&mut s, digit_exec(n));
        assert(s@ =~= seq![digit_char(n as nat)]);
        s
    } else {
        let mut s = usize_to_string(n / 10);
        push_char(&mut s, digit_exec(n % 10));
        s
    }
}

/// The lowercase form of a string under Unicode case mapping; the mapping
/// itself is not restated here.
pub uninterp spec fn lowercase(s: Seq<char>) -> Seq<char>;

/// `str::to_lowercase`: the result is named by `lowercase`.
#[verifier::external_body]
pub(crate) fn to_lowercase(s: &str) -> (r: String)
    ensures
        r@ == lowercase(s@),
{
    s.to_lowercase()
}

/// The texts of a sequence of strings.
pub open spec fn strs(v: Seq<String>) -> Seq<Seq<char>> {
    v.map_values(|s: String| s@)
}

pub proof fn lemma_strs_push(v: Seq<String>, s: String)
    ensures
        strs(v.push(s)) == strs(v).push(s@),
{
    assert(strs(v.push(s)) =~= strs(v).push(s@));
}

/// Appends a string to a vector of strings.
pub fn push_string(v: &mut Vec<String>, s: String)
    ensures
        strs(final(v)@) == strs(old(v)@).push(s@),
        final(v)@.len() == old(v)@.len() + 1,
{
    let ghost before = v@;
    v.push(s);
    proof { lemma_strs_push(before, s); }
}

/// The first line of a text as `str::lines` gives it: up to the first
/// newline, without a carriage return just before it; none for empty text.
pub open spec fn first_line(p: Seq<char>) -> Option<Seq<char>> {
    if p.len() == 0 {
        None
    } else {
        match find_char(p, '\n') {
            None => Some(p),
            Some(k) => if k > 0 && p[k - 1] == '\r' { Some(p.take(k - 1)) } else { Some(p.take(k)) },
        }
    }
}

/// `l` is the first line of `p` as `str::lines` reads it: a prefix of `p`
/// holding no newline, that ends where `p` ends or at `p`'s first line
/// break, a `\n` or a `\r\n` (whose `\r` is not part of the line).
pub open spec fn is_first_line(l: Seq<char>, p: Seq<char>) -> bool {
    &&& l.len() <= p.len()
    &&& l == p.take(l.len() as int)
    &&& forall|i: int| 0 <= i < l.len() ==> l[i] != '\n'
    &&& l.len() < p.len() ==> ((p[l.len() as int] == '\n' && !(l.len() > 0 && l.last() == '\r')) || (p[l.len() as int]
        == '\r' && l.len() + 1 < p.len() && p[l.len() as int + 1] == '\n'))
}

/// A text has a first line unless it is empty, and what `first_line`
/// gives is that line.
pub proof fn lemma_first_line(p: Seq<char>)
    ensures
        first_line(p) is None <==> p.len() == 0,
        first_line(p) matches Some(l) ==> is_first_line(l, p),
{
    lemma_find_from(p, '\n', 0);
    if p.len() > 0 {
        match find_char(p, '\n') {
            None => {
                assert(p.take(p.len() as int) =~= p);
            },
            Some(k) => {
                let l = first_line(p)->0;
                assert forall|i: int| 0 <= i < l.len() implies l[i] != '\n' by {
                    assert(l[i] == p[i]);
                }
            },
        }
    }
}

/// The first line of a text (`str::lines().next()`).
pub fn first_line_of(s: &str) -> (r: Option<String>)
    ensures
        match first_line(s@) {
            Some(l) => r matches Some(t) && t@ == l,
            None => r is None,
        },
{
    let v = chars_of(s);
    if v.len() == 0 {
        return None;
    }
    proof { lemma_find_from(v@, '\n', 0); }
    match find_char_exec(&v, '\n') {
        None => Some(string_of(&v)),
        Some(k) => {
            if k > 0 && v[k - 1] == '\r' {
                Some(string_of_range(&v, 0, k - 1))
            } else {
                Some(string_of_range(&v, 0, k))
            }
        }
    }
}

/// The text after the first newline, if there is one.
pub open spec fn after_first_newline(p: Seq<char>) -> Option<Seq<char>> {
    match find_char(p, '\n') {
        None => None,
        Some(k) => Some(p.skip(k + 1)),
    }
}

/// The text after the first newline (`str::find` and a slice).
pub fn after_first_newline_of(s: &str) -> (r: Option<String>)
    ensures
        match after_first_newline(s@) {
            Some(l) => r matches Some(t) && t@ == l,
            None => r is None,
        },
{
    let v = chars_of(s);
    proof { lemma_find_from(v@, '\n', 0); }
    match find_char_exec(&v, '\n') {
        None => None,
        Some(k) => {
            let r = string_of_range(&v, k + 1, v.len());
            assert(v@.subrange(k + 1, v@.len() as int) =~= v@.skip(k + 1));
            Some(r)
        }
    }
}

/// A line that ended in a newline loses one carriage return before it.
pub open spec fn strip_cr(l: Seq<char>) -> Seq<char> {
    if l.len() > 0 && l.last() == '\r' {
        l.drop_last()
    } else {
        l
    }
}

/// One character in splitting a text into lines: a newline ends the line
/// being read, any other character extends it.
pub open spec fn split_step(st: (Seq<Seq<char>>, Seq<char>), c: char) -> (Seq<Seq<char>>, Seq<char>) {
    if c == '\n' {
        (st.0.push(strip_cr(st.1)), Seq::empty())
    } else {
        (st.0, st.1.push(c))
    }
}

/// Splitting the first `i` characters of `s` from the state `st`: the
/// lines ended so far, and the characters since the last newline.
pub open spec fn split_fold(st: (Seq<Seq<char>>, Seq<char>), s: Seq<char>, i: int) -> (Seq<Seq<char>>, Seq<char>)
    decreases i,
{
    if i <= 0 {
        st
    } else {
        split_step(split_fold(st, s, i - 1), s[i - 1])
    }
}

/// Splitting the first `i` characters of `s` into lines.
pub open spec fn split_upto(s: Seq<char>, i: int) -> (Seq<Seq<char>>, Seq<char>) {
    split_fold((Seq::empty(), Seq::empty()), s, i)
}

/// The lines of a text (as `str::lines` gives them): split at each newline,
/// a carriage return before a newline dropped, and a final newline ending
/// the last line rather than starting an empty one.
pub open spec fn lines_of(s: Seq<char>) -> Seq<Seq<char>> {
    let (done, cur) = split_upto(s, s.len() as int);
    if cur.len() > 0 {
        done.push(cur)
    } else {
        done
    }
}

/// The lines of a text, as in `lines_of`.
pub fn split_lines(text: &str) -> (lines: Vec<String>)
    ensures
        strs(lines@) == lines_of(text@),
{
    let v = chars_of(text);
    let mut lines: Vec<String> = Vec::new();
    let mut cur: Vec<char> = Vec::new();
    let mut i: usize = 0;
    while i < v.len()
        invariant
            i <= v@.len(),
            v@ == text@,
            (strs(lines@), cur@) == split_upto(v@, i as int),
        decreases v@.len() - i,
    {
        if v[i] == '\n' {
            let n = cur.len();
            let line = if n > 0 && cur[n - 1] == '\r' {
                assert(cur@.subrange(0, n - 1) =~= cur@.drop_last());
                string_of_range(&cur, 0, n - 1)
            } else {
                assert(cur@.subrange(0, n as int) =~= cur@);
                string_of_range(&cur, 0, n)
            };
            push_string(&mut lines, line);
            cur = Vec::new();
            assert(cur@ =~= Seq::<char>::empty());
        } else {
            cur.push(v[i]);
        }
        i += 1;
    }
    if cur.len() > 0 {
        assert(cur@.subrange(0, cur@.len() as int) =~= cur@);
        let last = string_of_range(&cur, 0, cur.len());
        push_string(&mut lines, last);
    }
    lines
}

/// The lines joined by newlines.
pub open spec fn joined(s: Seq<Seq<char>>) -> Seq<char>
    decreases s.len(),
{
    if s.len() == 0 {
        Seq::empty()
    } else if s.len() == 1 {
        s[0]
    } else {
        joined(s.drop_last()) + seq!['\n'] + s.last()
    }
}

/// The lines joined by newlines.
pub fn join_lines(lines: &Vec<String>) -> (t: String)
    ensures
        t@ == joined(strs(lines@)),
{
    let ghost ls = strs(lines@);
    let mut t = String::new();
    let mut i: usize = 0;
    while i < lines.len()
        invariant
            i <= lines@.len(),
            ls == strs(lines@),
            t@ == joined(ls.take(i as int)),
        decreases lines@.len() - i,
    {
        if i > 0 {
            push_char(&mut t, '\n');
        }
        push_str(&mut t, lines[i].as_str());
        proof {
            assert(ls.take(i + 1).drop_last() =~= ls.take(i as int));
            if i == 0 {
                assert(ls.take(1) =~= seq![ls[0]]);
            }
            assert(t@ =~= joined(ls.take(i + 1)));
        }
        i += 1;
    }
    assert(ls.take(i as int) =~= ls);
    t
}

/// The content of a file of lines: each line followed by a newline (and a
/// lone newline for no lines).
pub fn file_content(lines: &Vec<String>) -> (t: String)
    ensures
        t@ == joined(strs(lines@)) + seq!['\n'],
{
    let mut t = join_lines(lines);
    push_char(&mut t, '\n');
    t
}

proof fn lemma_split_fold_concat(st: (Seq<Seq<char>>, Seq<char>), a: Seq<char>, b: Seq<char>, k: int)
    requires
        0 <= k <= b.len(),
    ensures
        split_fold(st, a + b, a.len() as int + k) == split_fold(split_fold(st, a, a.len() as int), b, k),
    decreases k,
{
    if k == 0 {
        lemma_split_fold_prefix(st, a + b, a, a.len() as int);
    } else {
        lemma_split_fold_concat(st, a, b, k - 1);
        assert((a + b)[a.len() + k - 1] == b[k - 1]);
    }
}

proof fn lemma_split_fold_prefix(st: (Seq<Seq<char>>, Seq<char>), s: Seq<char>, t: Seq<char>, i: int)
    requires
        0 <= i <= t.len(),
        i <= s.len(),
        forall|j: int| 0 <= j < i ==> s[j] == t[j],
    ensures
        split_fold(st, s, i) == split_fold(st, t, i),
    decreases i,
{
    if i > 0 {
        lemma_split_fold_prefix(st, s, t, i - 1);
    }
}

proof fn lemma_split_fold_line(d: Seq<Seq<char>>, x: Seq<char>, k: int)
    requires
        0 <= k <= x.len(),
        forall|j: int| 0 <= j < x.len() ==> x[j] != '\n',
    ensures
        split_fold((d, Seq::empty()), x, k) == (d, x.take(k)),
    decreases k,
{
    if k > 0 {
        lemma_split_fold_line(d, x, k - 1);
        assert(x.take(k - 1).push(x[k - 1]) =~= x.take(k));
    }
}

/// A line with neither a newline in it nor a carriage return at its end.
pub open spec fn plain_line(x: Seq<char>) -> bool {
    &&& forall|j: int| 0 <= j < x.len() ==> x[j] != '\n'
    &&& !(x.len() > 0 && x.last() == '\r')
}

proof fn lemma_split_fold_terminated(d: Seq<Seq<char>>, x: Seq<char>)
    requires
        plain_line(x),
    ensures
        split_fold((d, Seq::empty()), x + seq!['\n'], x.len() + 1int) == (d.push(x), Seq::<char>::empty()),
{
    let nl = seq!['\n'];
    lemma_split_fold_concat((d, Seq::empty()), x, nl, 1);
    lemma_split_fold_line(d, x, x.len() as int);
    assert(x.take(x.len() as int) =~= x);
    let st = split_fold((d, Seq::empty()), x, x.len() as int);
    assert(st == (d, x));
    assert(split_fold(st, nl, 0) == st);
    assert(nl[0] == '\n');
    assert(split_fold(st, nl, 1) == split_step(st, '\n'));
    assert(strip_cr(x) == x);
}

proof fn lemma_split_joined(ls: Seq<Seq<char>>)
    requires
        ls.len() > 0,
        forall|i: int| 0 <= i < ls.len() ==> plain_line(#[trigger] ls[i]),
    ensures
        split_upto(joined(ls) + seq!['\n'], (joined(ls) + seq!['\n']).len() as int) == (ls, Seq::<char>::empty()),
    decreases ls.len(),
{
    let x = ls.last();
    if ls.len() == 1 {
        lemma_split_fold_terminated(Seq::empty(), x);
        assert(seq![x] =~= ls);
    } else {
        let p = ls.drop_last();
        assert forall|i: int| 0 <= i < p.len() implies plain_line(#[trigger] p[i]) by {
            assert(p[i] == ls[i]);
        }
        lemma_split_joined(p);
        let a = joined(p) + seq!['\n'];
        let b = x + seq!['\n'];
        assert(joined(ls) + seq!['\n'] =~= a + b);
        lemma_split_fold_concat((Seq::empty(), Seq::empty()), a, b, b.len() as int);
        lemma_split_fold_terminated(p, x);
        assert(p.push(x) =~= ls);
    }
}

/// Lines written to a file, each followed by a newline, read back as the
/// same lines, when there is at least one and none holds a newline or ends
/// in a carriage return.
pub proof fn lemma_written_lines_read_back(ls: Seq<Seq<char>>)
    requires
        ls.len() > 0,
        forall|i: int| 0 <= i < ls.len() ==> plain_line(#[trigger] ls[i]),
    ensures
        lines_of(joined(ls) + seq!['\n']) == ls,
{
    lemma_split_joined(ls);
}

} // verus!
