//! Which file names a script may read or write: relative paths without
//! parent traversal, normalised.
use vstd::prelude::*;
use crate::text::{chars_of, find_from, lemma_find_from, push_char, push_str, slice_of, str_to_string, string_of};

verus! {

/// The named parts of a relative path from index `i` on, split at `/`,
/// with empty parts and `.` dropped; none when a part is `..`.
pub open spec fn parts_from(s: Seq<char>, i: int) -> Option<Seq<Seq<char>>>
    decreases s.len() - i,
{
    if i < 0 || i >= s.len() {
        Some(Seq::empty())
    } else {
        let j = match find_from(s, '/', i) {
            Some(j) => j,
            None => s.len() as int,
        };
        proof { lemma_find_from(s, '/', i); }
        let part = s.subrange(i, j);
        if part == seq!['.', '.'] {
            None
        } else {
            let rest = if j < s.len() { parts_from(s, j + 1) } else { Some(Seq::empty()) };
            match rest {
                None => None,
                Some(r) => Some(if part.len() == 0 || part == seq!['.'] { r } else { seq![part] + r }),
            }
        }
    }
}

/// The parts joined with `/`.
pub open spec fn join_parts(ps: Seq<Seq<char>>) -> Seq<char>
    decreases ps.len(),
{
    if ps.len() == 0 {
        Seq::empty()
    } else if ps.len() == 1 {
        ps[0]
    } else {
        ps[0] + seq!['/'] + join_parts(ps.drop_first())
    }
}

/// What a script file operand is validated to: an error for absolute
/// paths, parent traversal and empty paths, else the normalised path.
pub open spec fn spec_validate_operand(p: Seq<char>) -> Result<Seq<char>, Seq<char>> {
    if p.len() > 0 && p[0] == '/' {
        Err("unsafe file I/O path '"@ + p + "': absolute paths are not allowed"@)
    } else {
        match parts_from(p, 0) {
            None => Err("unsafe file I/O path '"@ + p + "': parent traversal is not allowed"@),
            Some(ps) => if ps.len() == 0 {
                Err("unsafe file I/O path '"@ + p + "': empty paths are not allowed"@)
            } else {
                Ok(join_parts(ps))
            },
        }
    }
}

fn path_error(path: &str, why: &str) -> (r: String)
    ensures
        r@ == "unsafe file I/O path '"@ + path@ + why@,
{
    let mut s = str_to_string("unsafe file I/O path '");
    push_str(&mut s, path);
    push_str(&mut s, why);
    s
}

proof fn lemma_join_push(ps: Seq<Seq<char>>, p: Seq<char>)
    ensures
        join_parts(ps.push(p)) == if ps.len() == 0 { p } else { join_parts(ps) + seq!['/'] + p },
    decreases ps.len(),
{
    if ps.len() == 0 {
        assert(ps.push(p) =~= seq![p]);
    } else if ps.len() == 1 {
        assert(ps.push(p).drop_first() =~= seq![p]);
        assert(join_parts(seq![p]) == p);
        assert(ps.push(p)[0] == ps[0]);
    } else {
        lemma_join_push(ps.drop_first(), p);
        assert(ps.push(p).drop_first() =~= ps.drop_first().push(p));
        assert(ps.push(p)[0] == ps[0]);
        assert(join_parts(ps.push(p)) == ps[0] + seq!['/'] + join_parts(ps.drop_first().push(p)));
        assert(join_parts(ps) == ps[0] + seq!['/'] + join_parts(ps.drop_first()));
        assert(ps[0] + seq!['/'] + (join_parts(ps.drop_first()) + seq!['/'] + p) =~= ps[0] + seq!['/']
            + join_parts(ps.drop_first()) + seq!['/'] + p);
    }
}

/// All parts of a path from index `i` on, split at `/`.
pub open spec fn segments_from(s: Seq<char>, i: int) -> Seq<Seq<char>>
    decreases s.len() - i,
{
    if i < 0 || i >= s.len() {
        Seq::empty()
    } else {
        let j = match find_from(s, '/', i) {
            Some(j) => j,
            None => s.len() as int,
        };
        proof { lemma_find_from(s, '/', i); }
        seq![s.subrange(i, j)] + if j < s.len() { segments_from(s, j + 1) } else { Seq::empty() }
    }
}

/// A part that names a file or a directory: neither empty, `.` nor `..`.
pub open spec fn is_named(part: Seq<char>) -> bool {
    part.len() > 0 && part != seq!['.'] && part != seq!['.', '.']
}

/// The parts that name something, in order.
pub open spec fn named_only(ps: Seq<Seq<char>>) -> Seq<Seq<char>>
    decreases ps.len(),
{
    if ps.len() == 0 {
        Seq::empty()
    } else if is_named(ps[0]) {
        seq![ps[0]] + named_only(ps.drop_first())
    } else {
        named_only(ps.drop_first())
    }
}

proof fn lemma_named_only_len(ps: Seq<Seq<char>>)
    ensures
        named_only(ps).len() > 0 <==> exists|k: int| 0 <= k < ps.len() && is_named(#[trigger] ps[k]),
    decreases ps.len(),
{
    if ps.len() > 0 {
        lemma_named_only_len(ps.drop_first());
        if exists|k: int| 0 <= k < ps.len() && is_named(#[trigger] ps[k]) {
            let k = choose|k: int| 0 <= k < ps.len() && is_named(#[trigger] ps[k]);
            if k > 0 {
                assert(ps.drop_first()[k - 1] == ps[k]);
            }
        }
        if exists|k: int| 0 <= k < ps.drop_first().len() && is_named(#[trigger] ps.drop_first()[k]) {
            let k = choose|k: int| 0 <= k < ps.drop_first().len() && is_named(#[trigger] ps.drop_first()[k]);
            assert(ps[k + 1] == ps.drop_first()[k]);
        }
    }
}

proof fn lemma_parts_from_segments(s: Seq<char>, i: int)
    ensures
        parts_from(s, i) == if segments_from(s, i).contains(seq!['.', '.']) {
            None::<Seq<Seq<char>>>
        } else {
            Some(named_only(segments_from(s, i)))
        },
    decreases s.len() - i,
{
    if !(i < 0 || i >= s.len()) {
        lemma_find_from(s, '/', i);
        let j = match find_from(s, '/', i) {
            Some(j) => j,
            None => s.len() as int,
        };
        let part = s.subrange(i, j);
        let rest: Seq<Seq<char>> = if j < s.len() { segments_from(s, j + 1) } else { Seq::empty() };
        if j < s.len() {
            lemma_parts_from_segments(s, j + 1);
        }
        let segs = segments_from(s, i);
        assert(segs == seq![part] + rest);
        assert(segs[0] == part);
        assert(segs.drop_first() =~= rest);
        assert(segs.contains(seq!['.', '.']) <==> (part == seq!['.', '.'] || rest.contains(seq!['.', '.']))) by {
            if rest.contains(seq!['.', '.']) {
                let k = choose|k: int| 0 <= k < rest.len() && rest[k] == seq!['.', '.'];
                assert(segs[k + 1] == rest[k]);
            }
            if segs.contains(seq!['.', '.']) {
                let k = choose|k: int| 0 <= k < segs.len() && segs[k] == seq!['.', '.'];
                if k > 0 {
                    assert(rest[k - 1] == segs[k]);
                }
            }
        }
        assert(named_only(segs) == if is_named(part) { seq![part] + named_only(rest) } else { named_only(rest) });
        if j >= s.len() {
            assert(named_only(rest) =~= Seq::<Seq<char>>::empty());
            assert(!rest.contains(seq!['.', '.']));
            assert(parts_from(s, i) == if part == seq!['.', '.'] {
                None::<Seq<Seq<char>>>
            } else {
                Some(if part.len() == 0 || part == seq!['.'] { Seq::<Seq<char>>::empty() } else { seq![part] })
            });
            assert(seq![part] + Seq::<Seq<char>>::empty() =~= seq![part]);
        } else {
            assert(parts_from(s, i) == if part == seq!['.', '.'] {
                None::<Seq<Seq<char>>>
            } else {
                match parts_from(s, j + 1) {
                    None => None,
                    Some(r) => Some(if part.len() == 0 || part == seq!['.'] { r } else { seq![part] + r }),
                }
            });
        }
    } else {
        assert(segments_from(s, i) =~= Seq::<Seq<char>>::empty());
        assert(named_only(segments_from(s, i)) =~= Seq::<Seq<char>>::empty());
    }
}

/// A script file operand is accepted exactly when it is relative, has no
/// `..` part and has at least one part that names something; it is then
/// normalised to those named parts, in order, joined with `/`.
pub proof fn lemma_operand_rule(p: Seq<char>)
    ensures
        spec_validate_operand(p) is Ok <==> {
            &&& !(p.len() > 0 && p[0] == '/')
            &&& !segments_from(p, 0).contains(seq!['.', '.'])
            &&& exists|k: int| 0 <= k < segments_from(p, 0).len() && is_named(#[trigger] segments_from(p, 0)[k])
        },
        spec_validate_operand(p) matches Ok(q) ==> q == join_parts(named_only(segments_from(p, 0))),
{
    lemma_parts_from_segments(p, 0);
    lemma_named_only_len(segments_from(p, 0));
}

/// Validate a file name given to `r`, `R`, `w` or `W`: absolute paths,
/// `..` parts and empty paths are refused; `.` parts and repeated slashes
/// are dropped.
pub fn validate_script_file_operand(path: &str) -> (r: Result<String, String>)
    ensures
        match spec_validate_operand(path@) {
            Ok(p) => r matches Ok(s) && s@ == p,
            Err(m) => r matches Err(s) && s@ == m,
        },
{
    let v = chars_of(path);
    let n = v.len();
    if n > 0 && v[0] == '/' {
        return Err(path_error(path, "': absolute paths are not allowed"));
    }
    let mut parts: Vec<Vec<char>> = Vec::new();
    let mut i: usize = 0;
    let ghost parts_view = |ps: Seq<Vec<char>>| ps.map_values(|x: Vec<char>| x@);
    assert(parts_view(parts@) =~= Seq::<Seq<char>>::empty());
    while i < n
        invariant
            n == v@.len(),
            v@ == path@,
            !(n > 0 && v@[0] == '/'),
            i <= n,
            parts_view == (|ps: Seq<Vec<char>>| ps.map_values(|x: Vec<char>| x@)),
            parts_from(v@, 0) == match parts_from(v@, i as int) {
                None => None::<Seq<Seq<char>>>,
                Some(r) => Some(parts_view(parts@) + r),
            },
        decreases n - i,
    {
        let mut j = i;
        while j < n && v[j] != '/'
            invariant
                i <= j <= n == v@.len(),
                forall|k: int| i <= k < j ==> v@[k] != '/',
            decreases n - j,
        {
            j += 1;
        }
        proof {
            lemma_find_from(v@, '/', i as int);
            if j < n {
                assert(find_from(v@, '/', i as int) == Some(j as int)) by {
                    match find_from(v@, '/', i as int) {
                        Some(m) => {
                            if m < j { assert(v@[m] != '/'); }
                            if m > j { assert(v@[j as int] == '/'); }
                        }
                        None => { assert(v@[j as int] == '/'); }
                    }
                }
            } else {
                assert(find_from(v@, '/', i as int) is None) by {
                    match find_from(v@, '/', i as int) {
                        Some(m) => { assert(v@[m] != '/'); }
                        None => {}
                    }
                }
            }
        }
        let part = slice_of(&v, i, j);
        let is_dotdot = part.len() == 2 && part[0] == '.' && part[1] == '.';
        let is_dot = part.len() == 1 && part[0] == '.';
        proof {
            if part@.len() == 2 && part@[0] == '.' && part@[1] == '.' {
                assert(part@ =~= seq!['.', '.']);
            }
            if part@.len() == 1 && part@[0] == '.' {
                assert(part@ =~= seq!['.']);
            }
        }
        if is_dotdot {
            assert(parts_from(v@, i as int) is None);
            return Err(path_error(path, "': parent traversal is not allowed"));
        }
        if part.len() > 0 && !is_dot {
            let ghost before = parts@;
            parts.push(part);
            proof {
                assert(parts_view(parts@) =~= parts_view(before) + seq![part@]);
                match parts_from(v@, if j < n { j + 1 } else { n as int }) {
                    Some(r) => {
                        assert(parts_view(before) + (seq![part@] + r) =~= parts_view(parts@) + r);
                    }
                    None => {}
                }
            }
        }
        if j < n {
            i = j + 1;
        } else {
            proof {
                assert(parts_from(v@, n as int) == Some(Seq::<Seq<char>>::empty()));
            }
            i = n;
        }
    }
    assert(parts_view(parts@) + Seq::<Seq<char>>::empty() =~= parts_view(parts@));
    if parts.len() == 0 {
        return Err(path_error(path, "': empty paths are not allowed"));
    }
    let mut out = String::new();
    let mut k: usize = 0;
    while k < parts.len()
        invariant
            k <= parts@.len(),
            parts@.len() > 0,
            parts_view == (|ps: Seq<Vec<char>>| ps.map_values(|x: Vec<char>| x@)),
            out@ == join_parts(parts_view(parts@).take(k as int)),
        decreases parts@.len() - k,
    {
        let ghost prev = parts_view(parts@).take(k as int);
        if k > 0 {
            push_char(&mut out, '/');
        }
        let piece = string_of(&parts[k]);
        push_str(&mut out, piece.as_str());
        proof {
            assert(parts_view(parts@).take(k + 1) =~= prev.push(parts@[k as int]@));
            lemma_join_push(prev, parts@[k as int]@);
        }
        k += 1;
    }
    assert(parts_view(parts@).take(parts@.len() as int) =~= parts_view(parts@));
    Ok(out)
}

/// A `..` part starts at index `i` of `p`: two dots between separators or
/// the ends of the path.
pub open spec fn dotdot_at(p: Seq<char>, i: int) -> bool {
    &&& 0 <= i && i + 2 <= p.len()
    &&& p[i] == '.' && p[i + 1] == '.'
    &&& (i == 0 || p[i - 1] == '/')
    &&& (i + 2 == p.len() || p[i + 2] == '/')
}

/// What a restore target read from backup metadata is checked to: an
/// error for the empty path and for a path with a `..` part, else the path
/// as it is.
pub open spec fn spec_validate_restore_target(p: Seq<char>) -> Result<Seq<char>, Seq<char>> {
    if p.len() == 0 {
        Err("backup metadata path validation failed: empty original path"@)
    } else if exists|i: int| dotdot_at(p, i) {
        Err("backup metadata path validation failed for '"@ + p + "': parent traversal is not allowed"@)
    } else {
        Ok(p)
    }
}

/// Whether `path` has a `..` part.
pub fn has_parent_part(path: &str) -> (b: bool)
    ensures
        b == exists|i: int| dotdot_at(path@, i),
{
    let v = chars_of(path);
    let n = v.len();
    let mut i: usize = 0;
    while i < n
        invariant
            i <= n == v@.len(),
            v@ == path@,
            forall|k: int| 0 <= k < i ==> !dotdot_at(v@, k),
        decreases n - i,
    {
        if i + 1 < n && v[i] == '.' && v[i + 1] == '.' && (i == 0 || v[i - 1] == '/') && (i + 2 == n
            || v[i + 2] == '/') {
            assert(dotdot_at(path@, i as int));
            return true;
        }
        i += 1;
    }
    false
}

/// Check a path read from backup metadata before a file is restored to it:
/// the empty path and a path with a `..` part are refused. Whether a part
/// of it is a symbolic link is looked up on disk by the program.
pub fn validate_restore_target(path: &str) -> (r: Result<String, String>)
    ensures
        match spec_validate_restore_target(path@) {
            Ok(p) => r matches Ok(s) && s@ == p,
            Err(m) => r matches Err(s) && s@ == m,
        },
{
    if path.is_empty() {
        return Err(str_to_string("backup metadata path validation failed: empty original path"));
    }
    if has_parent_part(path) {
        let mut s = str_to_string("backup metadata path validation failed for '");
        push_str(&mut s, path);
        push_str(&mut s, "': parent traversal is not allowed");
        return Err(s);
    }
    Ok(str_to_string(path))
}

/// A part a normalised path is made of: not empty, not `.` or `..`, and
/// without `/`.
pub open spec fn good_part(x: Seq<char>) -> bool {
    &&& x.len() > 0
    &&& x != seq!['.']
    &&& x != seq!['.', '.']
    &&& forall|m: int| 0 <= m < x.len() ==> x[m] != '/'
}

proof fn lemma_parts_good(s: Seq<char>, i: int)
    requires
        0 <= i,
    ensures
        parts_from(s, i) matches Some(ps) ==> forall|k: int| 0 <= k < ps.len() ==> good_part(#[trigger] ps[k]),
    decreases s.len() - i,
{
    if i < s.len() {
        lemma_find_from(s, '/', i);
        let j = match find_from(s, '/', i) {
            Some(j) => j,
            None => s.len() as int,
        };
        if j < s.len() {
            lemma_parts_good(s, j + 1);
        }
        let part = s.subrange(i, j);
        assert forall|m: int| 0 <= m < part.len() implies part[m] != '/' by {
            assert(part[m] == s[i + m]);
        }
    }
}

proof fn lemma_find_shift(x: Seq<char>, y: Seq<char>, c: char, i: int)
    requires
        0 <= i,
    ensures
        find_from(x + y, c, x.len() + i) == match find_from(y, c, i) {
            Some(k) => Some(k + x.len()),
            None => None::<int>,
        },
    decreases y.len() - i,
{
    if i < y.len() {
        assert((x + y)[x.len() + i] == y[i]);
        lemma_find_shift(x, y, c, i + 1);
    }
}

proof fn lemma_find_skip(s: Seq<char>, c: char, i: int, k: int)
    requires
        0 <= i <= k <= s.len(),
        forall|m: int| i <= m < k ==> s[m] != c,
    ensures
        find_from(s, c, i) == find_from(s, c, k),
    decreases k - i,
{
    if i < k {
        lemma_find_skip(s, c, i + 1, k);
    }
}

proof fn lemma_parts_shift(x: Seq<char>, y: Seq<char>, i: int)
    requires
        0 <= i,
    ensures
        parts_from(x + y, x.len() + i) == parts_from(y, i),
    decreases y.len() - i,
{
    if i < y.len() {
        lemma_find_shift(x, y, '/', i);
        lemma_find_from(y, '/', i);
        let j = match find_from(y, '/', i) {
            Some(j) => j,
            None => y.len() as int,
        };
        assert((x + y).subrange(x.len() + i, x.len() + j) =~= y.subrange(i, j));
        if j < y.len() {
            lemma_parts_shift(x, y, j + 1);
        }
    }
}

proof fn lemma_join_first(ps: Seq<Seq<char>>)
    requires
        ps.len() > 0,
        ps[0].len() > 0,
    ensures
        join_parts(ps).len() > 0,
        join_parts(ps)[0] == ps[0][0],
{
}

proof fn lemma_parts_of_join(ps: Seq<Seq<char>>)
    requires
        ps.len() > 0,
        forall|k: int| 0 <= k < ps.len() ==> good_part(#[trigger] ps[k]),
    ensures
        parts_from(join_parts(ps), 0) == Some(ps),
    decreases ps.len(),
{
    let p0 = ps[0];
    assert(good_part(p0));
    let s = join_parts(ps);
    let rest_ps = ps.drop_first();
    let tail = if ps.len() == 1 { Seq::<char>::empty() } else { seq!['/'] + join_parts(rest_ps) };
    assert(s =~= p0 + tail);
    lemma_find_shift(p0, tail, '/', 0);
    lemma_find_from(p0, '/', 0);
    assert(find_from(p0, '/', 0) is None) by {
        if let Some(k) = find_from(p0, '/', 0) {
            assert(p0[k] != '/');
        }
    }
    if ps.len() == 1 {
        assert(find_from(tail, '/', 0) is None);
        lemma_find_skip(s, '/', 0, p0.len() as int);
        assert(find_from(s, '/', 0) is None);
        assert(s.subrange(0, s.len() as int) =~= p0);
        assert(seq![p0] + Seq::<Seq<char>>::empty() =~= ps);
    } else {
        assert(tail[0] == '/');
        assert(find_from(tail, '/', 0) == Some(0int));
        lemma_find_skip(s, '/', 0, p0.len() as int);
        assert(find_from(s, '/', 0) == Some(p0.len() as int));
        assert(s.subrange(0, p0.len() as int) =~= p0);
        assert forall|k: int| 0 <= k < rest_ps.len() implies good_part(#[trigger] rest_ps[k]) by {
            assert(rest_ps[k] == ps[k + 1]);
        }
        lemma_parts_of_join(rest_ps);
        let x = p0 + seq!['/'];
        assert(s =~= x + join_parts(rest_ps));
        lemma_parts_shift(x, join_parts(rest_ps), 0);
        assert(seq![p0] + rest_ps =~= ps);
    }
}

/// Normalising a file name is stable: a name that is accepted comes out as
/// a name that is accepted as it is.
pub proof fn lemma_accepted_path_is_stable(p: Seq<char>)
    ensures
        spec_validate_operand(p) matches Ok(q) ==> spec_validate_operand(q) == Ok::<Seq<char>, Seq<char>>(q),
{
    if let Ok(q) = spec_validate_operand(p) {
        lemma_parts_good(p, 0);
        let ps = parts_from(p, 0)->0;
        assert(good_part(ps[0]));
        lemma_parts_of_join(ps);
        lemma_join_first(ps);
        assert(ps[0][0] != '/');
    }
}

} // verus!
