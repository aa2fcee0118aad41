//! The diff as the program shows it: which lines appear around the
//! changes, the change counts, and the plain-text rendering (colours are
//! added by the program where the terminal takes them).
use vstd::prelude::*;
use crate::file_processor::common::{ChangeType, FileChange, FileDiff, LineChange};
use crate::file_processor::line_diff::{ListingM, listing_m};
use crate::text::{push_str, str_to_string, strs, usize_to_string, decimal};

verus! {

broadcast use vstd::string::group_string_axioms;

/// The formatter of diffs and of the messages around them.
pub struct DiffFormatter;

/// A line of the listing is a change.
pub open spec fn changed_at(ls: Seq<ListingM>, j: int) -> bool {
    0 <= j < ls.len() && ls[j].2 != ChangeType::Unchanged
}

/// Line `k` lies within `c` lines of a change.
pub open spec fn near_change(ls: Seq<ListingM>, c: int, k: int) -> bool {
    exists|j: int| #[trigger] changed_at(ls, j) && k - c <= j <= k + c
}

/// The placeholder shown where lines are left out.
pub open spec fn gap_marker() -> ListingM {
    (0, "..."@, ChangeType::Unchanged)
}

/// The lines shown of the first `k`, and the index of the last one shown:
/// a line is shown when it lies within `c` lines of a change; more than
/// `c` lines left out between two shown lines are marked by "...".
pub open spec fn shown_upto(ls: Seq<ListingM>, c: int, k: int) -> (Seq<ListingM>, Option<int>)
    decreases k,
{
    if k <= 0 {
        (Seq::empty(), None)
    } else {
        let (out, last) = shown_upto(ls, c, k - 1);
        let i = k - 1;
        if near_change(ls, c, i) {
            let marked = match last {
                Some(e) => i - e - 1 > c,
                None => false,
            };
            ((if marked { out.push(gap_marker()) } else { out }).push(ls[i]), Some(i))
        } else {
            (out, last)
        }
    }
}

/// The changed lines alone.
pub open spec fn changed_only(ls: Seq<ListingM>) -> Seq<ListingM>
    decreases ls.len(),
{
    if ls.len() == 0 {
        Seq::empty()
    } else if ls.last().2 != ChangeType::Unchanged {
        changed_only(ls.drop_last()).push(ls.last())
    } else {
        changed_only(ls.drop_last())
    }
}

/// The lines shown with `c` lines of context: with no context the changed
/// lines alone, else as `shown_upto` says.
pub open spec fn spec_filter_lines(ls: Seq<ListingM>, c: int) -> Seq<ListingM> {
    if c == 0 {
        changed_only(ls)
    } else {
        shown_upto(ls, c, ls.len() as int).0
    }
}

/// The nearest change at or before `k`.
pub open spec fn prev_change(ls: Seq<ListingM>, k: int) -> Option<int>
    decreases k + 1,
{
    if k < 0 {
        None
    } else if changed_at(ls, k) {
        Some(k)
    } else {
        prev_change(ls, k - 1)
    }
}

/// The nearest change at or after `k`.
pub open spec fn next_change(ls: Seq<ListingM>, k: int) -> Option<int>
    decreases ls.len() - k,
{
    if k >= ls.len() {
        None
    } else if changed_at(ls, k) {
        Some(k)
    } else {
        next_change(ls, k + 1)
    }
}

proof fn lemma_prev_change(ls: Seq<ListingM>, k: int)
    requires
        k < ls.len(),
    ensures
        match prev_change(ls, k) {
            Some(p) => changed_at(ls, p) && p <= k && forall|j: int| p < j <= k ==> !#[trigger] changed_at(ls, j),
            None => forall|j: int| j <= k ==> !#[trigger] changed_at(ls, j),
        },
    decreases k + 1,
{
    if k >= 0 && !changed_at(ls, k) {
        lemma_prev_change(ls, k - 1);
    }
}

proof fn lemma_next_change(ls: Seq<ListingM>, k: int)
    requires
        k >= 0,
    ensures
        match next_change(ls, k) {
            Some(n) => changed_at(ls, n) && k <= n && forall|j: int| k <= j < n ==> !#[trigger] changed_at(ls, j),
            None => forall|j: int| k <= j ==> !#[trigger] changed_at(ls, j),
        },
    decreases ls.len() - k,
{
    if k < ls.len() && !changed_at(ls, k) {
        lemma_next_change(ls, k + 1);
    }
}

/// Line `k` is near a change exactly when the nearest change before or
/// after it is.
proof fn lemma_near_by_neighbours(ls: Seq<ListingM>, c: int, k: int)
    requires
        0 <= k < ls.len(),
        c >= 0,
    ensures
        near_change(ls, c, k) <==> (
            (prev_change(ls, k) matches Some(p) && k - p <= c) || (next_change(ls, k) matches Some(n) && n - k <= c)
        ),
{
    lemma_prev_change(ls, k);
    lemma_next_change(ls, k);
    if near_change(ls, c, k) {
        let j = choose|j: int| #[trigger] changed_at(ls, j) && k - c <= j <= k + c;
        if j <= k {
            assert(prev_change(ls, k) is Some);
        } else {
            assert(next_change(ls, k) is Some);
        }
    }
    if let Some(p) = prev_change(ls, k) {
        if k - p <= c {
            assert(changed_at(ls, p));
        }
    }
    if let Some(n) = next_change(ls, k) {
        if n - k <= c {
            assert(changed_at(ls, n));
        }
    }
}

fn is_changed(e: &(usize, String, ChangeType)) -> (b: bool)
    ensures
        b == (e.2 != ChangeType::Unchanged),
{
    match e.2 {
        ChangeType::Unchanged => false,
        _ => true,
    }
}

fn clone_entry(e: &(usize, String, ChangeType)) -> (r: (usize, String, ChangeType))
    ensures
        r.0 == e.0,
        r.1@ == e.1@,
        r.2 == e.2,
{
    (e.0, str_to_string(e.1.as_str()), e.2)
}

fn push_entry(v: &mut Vec<(usize, String, ChangeType)>, e: (usize, String, ChangeType))
    ensures
        listing_m(final(v)@) == listing_m(old(v)@).push((e.0, e.1@, e.2)),
{
    let ghost before = v@;
    v.push(e);
    assert(listing_m(v@) =~= listing_m(before).push((e.0, e.1@, e.2)));
}

impl DiffFormatter {
    /// The lines to show of a full listing, with `context_size` lines of
    /// context around each change and "..." where a longer stretch is left
    /// out; with no context, the changed lines alone.
    pub fn filter_lines_with_context(lines: &Vec<(usize, String, ChangeType)>, context_size: usize) -> (r: Vec<(usize, String, ChangeType)>)
        ensures
            listing_m(r@) == spec_filter_lines(listing_m(lines@), context_size as int),
    {
        let ghost ls = listing_m(lines@);
        let n = lines.len();
        let mut out: Vec<(usize, String, ChangeType)> = Vec::new();
        if context_size == 0 {
            let mut i: usize = 0;
            while i < n
                invariant
                    i <= n == lines@.len(),
                    ls == listing_m(lines@),
                    listing_m(out@) == changed_only(ls.take(i as int)),
                decreases n - i,
            {
                proof {
                    assert(ls.take(i + 1).drop_last() =~= ls.take(i as int));
                }
                if is_changed(&lines[i]) {
                    push_entry(&mut out, clone_entry(&lines[i]));
                }
                i += 1;
            }
            assert(ls.take(n as int) =~= ls);
            return out;
        }
        // The nearest change at or after each line, found from the end.
        let mut next: Vec<Option<usize>> = Vec::new();
        let mut k: usize = n;
        let mut nearest: Option<usize> = None;
        while k > 0
            invariant
                k <= n == lines@.len(),
                ls == listing_m(lines@),
                next@.len() == n - k,
                forall|j: int| k <= j < n ==> (#[trigger] next@[n - 1 - j]) == (match next_change(ls, j) {
                    Some(x) => Some(x as usize),
                    None => None::<usize>,
                }),
                nearest == (match next_change(ls, k as int) {
                    Some(x) => Some(x as usize),
                    None => None::<usize>,
                }),
            decreases k,
        {
            k -= 1;
            if is_changed(&lines[k]) {
                nearest = Some(k);
            }
            next.push(nearest);
        }
        let mut prev: Option<usize> = None;
        let mut last: Option<usize> = None;
        let mut i: usize = 0;
        while i < n
            invariant
                i <= n == lines@.len(),
                ls == listing_m(lines@),
                next@.len() == n,
                context_size > 0,
                forall|j: int| 0 <= j < n ==> (#[trigger] next@[n - 1 - j]) == (match next_change(ls, j) {
                    Some(x) => Some(x as usize),
                    None => None::<usize>,
                }),
                prev == (match prev_change(ls, i - 1) {
                    Some(x) => Some(x as usize),
                    None => None::<usize>,
                }),
                (listing_m(out@), match last {
                    Some(x) => Some(x as int),
                    None => None::<int>,
                }) == shown_upto(ls, context_size as int, i as int),
                last matches Some(x) ==> x < i,
            decreases n - i,
        {
            if is_changed(&lines[i]) {
                prev = Some(i);
            }
            proof {
                lemma_prev_change(ls, i as int);
                lemma_next_change(ls, i as int);
            }
            let after = next[n - 1 - i];
            let near = match prev {
                Some(p) => i - p <= context_size,
                None => false,
            } || match after {
                Some(q) => q - i <= context_size,
                None => false,
            };
            proof {
                lemma_near_by_neighbours(ls, context_size as int, i as int);
                lemma_next_change(ls, i as int);
            }
            if near {
                let marked = match last {
                    Some(e) => i - e - 1 > context_size,
                    None => false,
                };
                if marked {
                    push_entry(&mut out, (0, str_to_string("..."), ChangeType::Unchanged));
                }
                push_entry(&mut out, clone_entry(&lines[i]));
                last = Some(i);
            }
            i += 1;
        }
        out
    }

    /// The lines to show of a streamed diff: its recorded changes, as they
    /// are.
    pub fn format_changes_streaming(changes: &Vec<LineChange>, _context_size: usize) -> (r: Vec<(usize, String, ChangeType)>)
        ensures
            r@.len() == changes@.len(),
            forall|i: int| 0 <= i < changes@.len() ==> {
                &&& (#[trigger] r@[i]).0 == changes@[i].line_number
                &&& r@[i].1@ == changes@[i].content@
                &&& r@[i].2 == changes@[i].change_type
            },
    {
        let mut r: Vec<(usize, String, ChangeType)> = Vec::new();
        let mut i: usize = 0;
        while i < changes.len()
            invariant
                i <= changes@.len(),
                r@.len() == i,
                forall|k: int| 0 <= k < i ==> {
                    &&& (#[trigger] r@[k]).0 == changes@[k].line_number
                    &&& r@[k].1@ == changes@[k].content@
                    &&& r@[k].2 == changes@[k].change_type
                },
            decreases changes@.len() - i,
        {
            let c = &changes[i];
            r.push((c.line_number, str_to_string(c.content.as_str()), c.change_type));
            i += 1;
        }
        r
    }
}

/// How many recorded changes are of kind `t`.
pub open spec fn count_kind(cs: Seq<LineChange>, t: ChangeType) -> nat
    decreases cs.len(),
{
    if cs.len() == 0 {
        0
    } else {
        count_kind(cs.drop_last(), t) + if cs.last().change_type == t { 1nat } else { 0nat }
    }
}

impl DiffFormatter {
    /// The numbers of modified, added and deleted lines of a diff.
    pub fn change_counts(changes: &Vec<LineChange>) -> (r: (usize, usize, usize))
        ensures
            r.0 == count_kind(changes@, ChangeType::Modified),
            r.1 == count_kind(changes@, ChangeType::Added),
            r.2 == count_kind(changes@, ChangeType::Deleted),
    {
        let mut m: usize = 0;
        let mut a: usize = 0;
        let mut d: usize = 0;
        let mut i: usize = 0;
        while i < changes.len()
            invariant
                i <= changes@.len(),
                m == count_kind(changes@.take(i as int), ChangeType::Modified),
                a == count_kind(changes@.take(i as int), ChangeType::Added),
                d == count_kind(changes@.take(i as int), ChangeType::Deleted),
                m + a + d <= i,
            decreases changes@.len() - i,
        {
            assert(changes@.take(i + 1).drop_last() =~= changes@.take(i as int));
            match changes[i].change_type {
                ChangeType::Modified => { m += 1; }
                ChangeType::Added => { a += 1; }
                ChangeType::Deleted => { d += 1; }
                ChangeType::Unchanged => {}
            }
            i += 1;
        }
        assert(changes@.take(i as int) =~= changes@);
        (m, a, d)
    }
}

/// The sign of a change in the listing.
pub open spec fn indicator(t: ChangeType) -> Seq<char> {
    match t {
        ChangeType::Unchanged => "="@,
        ChangeType::Modified => "~"@,
        ChangeType::Added => "+"@,
        ChangeType::Deleted => "-"@,
    }
}

fn is_ellipsis(s: &String) -> (b: bool)
    ensures
        b == (s@ == "..."@),
{
    proof {
        reveal_strlit("...");
    }
    let v = crate::text::chars_of(s.as_str());
    let b = v.len() == 3 && v[0] == '.' && v[1] == '.' && v[2] == '.';
    proof {
        if b {
            assert(v@ =~= "..."@);
        }
    }
    b
}

fn indicator_exec(t: ChangeType) -> (s: &'static str)
    ensures
        s@ == indicator(t),
{
    match t {
        ChangeType::Unchanged => "=",
        ChangeType::Modified => "~",
        ChangeType::Added => "+",
        ChangeType::Deleted => "-",
    }
}

/// One shown line: "..." alone for a placeholder, else "L", the number,
/// the sign and the text.
pub open spec fn render_line(e: ListingM) -> Seq<char> {
    if e.1 == "..."@ {
        "...\n"@
    } else {
        "L"@ + decimal(e.0 as nat) + ": "@ + indicator(e.2) + " "@ + e.1 + "\n"@
    }
}

pub open spec fn render_lines(ls: Seq<ListingM>) -> Seq<char>
    decreases ls.len(),
{
    if ls.len() == 0 {
        Seq::empty()
    } else {
        render_lines(ls.drop_last()) + render_line(ls.last())
    }
}

/// The closing summary: the total, and the kinds when there are any.
pub open spec fn render_summary(m: nat, a: nat, d: nat) -> Seq<char> {
    "\nTotal: "@ + decimal(m + a + d) + " changes"@ + (if m > 0 || a > 0 || d > 0 {
        " ("@ + decimal(m) + " modified, "@ + decimal(a) + " added, "@ + decimal(d) + " deleted)"@
    } else {
        Seq::empty()
    }) + "\n"@
}

/// The word after the total in the coloured summary: "change" for exactly
/// one, else "changes".
pub open spec fn change_word(total: nat) -> Seq<char> {
    if total == 1 {
        "change"@
    } else {
        "changes"@
    }
}

/// The kinds the coloured summary names, in the order modified, added,
/// deleted, each with its count and its name; kinds that did not occur are
/// left out.
pub open spec fn summary_kinds(m: nat, a: nat, d: nat) -> Seq<(nat, ChangeType, Seq<char>)> {
    (if m > 0 { seq![(m, ChangeType::Modified, "modified"@)] } else { Seq::empty() })
        + (if a > 0 { seq![(a, ChangeType::Added, "added"@)] } else { Seq::empty() })
        + (if d > 0 { seq![(d, ChangeType::Deleted, "deleted"@)] } else { Seq::empty() })
}

/// The kinds of a summary, by their counts, kinds and names.
pub open spec fn kinds_view(v: Seq<(usize, ChangeType, &str)>) -> Seq<(nat, ChangeType, Seq<char>)> {
    v.map_values(|p: (usize, ChangeType, &str)| (p.0 as nat, p.1, p.2@))
}

impl DiffFormatter {
    /// The parts of the coloured summary line of a diff with `m` modified,
    /// `a` added and `d` deleted lines: the word after the total, and the
    /// kinds to name with their counts.
    pub fn summary_parts(m: usize, a: usize, d: usize) -> (r: (&'static str, Vec<(usize, ChangeType, &'static str)>))
        requires
            m + a + d <= usize::MAX,
        ensures
            r.0@ == change_word((m + a + d) as nat),
            kinds_view(r.1@) == summary_kinds(m as nat, a as nat, d as nat),
    {
        proof {
            reveal_strlit("change");
            reveal_strlit("changes");
        }
        let word = if m + a + d == 1 { "change" } else { "changes" };
        let mut parts: Vec<(usize, ChangeType, &'static str)> = Vec::new();
        if m > 0 {
            parts.push((m, ChangeType::Modified, "modified"));
        }
        let ghost p1 = parts@;
        if a > 0 {
            parts.push((a, ChangeType::Added, "added"));
        }
        let ghost p2 = parts@;
        if d > 0 {
            parts.push((d, ChangeType::Deleted, "deleted"));
        }
        proof {
            let sm: Seq<(nat, ChangeType, Seq<char>)> = if m > 0 { seq![(m as nat, ChangeType::Modified, "modified"@)] } else { Seq::empty() };
            let sa: Seq<(nat, ChangeType, Seq<char>)> = if a > 0 { seq![(a as nat, ChangeType::Added, "added"@)] } else { Seq::empty() };
            let sd: Seq<(nat, ChangeType, Seq<char>)> = if d > 0 { seq![(d as nat, ChangeType::Deleted, "deleted"@)] } else { Seq::empty() };
            assert(kinds_view(p1) =~= sm);
            assert(kinds_view(p2) =~= sm + sa);
            assert(kinds_view(parts@) =~= sm + sa + sd);
        }
        (word, parts)
    }
}

/// A diff as plain text: the file name, then either the printed lines
/// alone, or the lines to show with the summary.
pub open spec fn render_diff(path: Seq<char>, printed: Seq<Seq<char>>, shown: Seq<ListingM>, m: nat, a: nat, d: nat) -> Seq<char> {
    if printed.len() > 0 {
        path + "\n"@ + render_printed(printed)
    } else {
        path + "\n"@ + render_lines(shown) + render_summary(m, a, d)
    }
}

pub open spec fn render_printed(ps: Seq<Seq<char>>) -> Seq<char>
    decreases ps.len(),
{
    if ps.len() == 0 {
        Seq::empty()
    } else {
        render_printed(ps.drop_last()) + ps.last() + "\n"@
    }
}

/// The lines of a diff to show: a streamed diff's changes as they are, an
/// in-memory diff's listing with context.
pub open spec fn shown_lines(diff: FileDiff, c: int) -> Seq<ListingM> {
    if diff.is_streaming && diff.all_lines@.len() == 0 {
        diff.changes@.map_values(|ch: LineChange| (ch.line_number, ch.content@, ch.change_type))
    } else {
        spec_filter_lines(listing_m(diff.all_lines@), c)
    }
}

impl DiffFormatter {
    fn render_lines_exec(shown: &Vec<(usize, String, ChangeType)>, out: &mut String)
        ensures
            final(out)@ == old(out)@ + render_lines(listing_m(shown@)),
    {
        let ghost ls = listing_m(shown@);
        let ghost start = out@;
        let mut i: usize = 0;
        while i < shown.len()
            invariant
                i <= shown@.len(),
                ls == listing_m(shown@),
                out@ == start + render_lines(ls.take(i as int)),
            decreases shown@.len() - i,
        {
            proof {
                assert(ls.take(i + 1).drop_last() =~= ls.take(i as int));
            }
            let e = &shown[i];
            if is_ellipsis(&e.1) {
                push_str(out, "...\n");
            } else {
                push_str(out, "L");
                let num = usize_to_string(e.0);
                push_str(out, num.as_str());
                push_str(out, ": ");
                push_str(out, indicator_exec(e.2));
                push_str(out, " ");
                push_str(out, e.1.as_str());
                push_str(out, "\n");
            }
            proof {
                assert(out@ =~= start + render_lines(ls.take(i + 1)));
            }
            i += 1;
        }
        assert(ls.take(i as int) =~= ls);
    }

    fn render_printed_exec(printed: &Vec<String>, out: &mut String)
        ensures
            final(out)@ == old(out)@ + render_printed(strs(printed@)),
    {
        let ghost ps = strs(printed@);
        let ghost start = out@;
        let mut i: usize = 0;
        while i < printed.len()
            invariant
                i <= printed@.len(),
                ps == strs(printed@),
                out@ == start + render_printed(ps.take(i as int)),
            decreases printed@.len() - i,
        {
            proof {
                assert(ps.take(i + 1).drop_last() =~= ps.take(i as int));
            }
            push_str(out, printed[i].as_str());
            push_str(out, "\n");
            proof {
                assert(out@ =~= start + render_printed(ps.take(i + 1)));
            }
            i += 1;
        }
        assert(ps.take(i as int) =~= ps);
    }

    fn render_summary_exec(m: usize, a: usize, d: usize, out: &mut String)
        requires
            m + a + d <= usize::MAX,
        ensures
            final(out)@ == old(out)@ + render_summary(m as nat, a as nat, d as nat),
    {
        let mut t = str_to_string("\nTotal: ");
        let total = usize_to_string(m + a + d);
        push_str(&mut t, total.as_str());
        push_str(&mut t, " changes");
        let ghost head = t@;
        if m > 0 || a > 0 || d > 0 {
            let mut u = str_to_string(" (");
            push_str(&mut u, usize_to_string(m).as_str());
            push_str(&mut u, " modified, ");
            push_str(&mut u, usize_to_string(a).as_str());
            push_str(&mut u, " added, ");
            push_str(&mut u, usize_to_string(d).as_str());
            push_str(&mut u, " deleted)");
            push_str(&mut t, u.as_str());
        } else {
            assert(t@ =~= head + Seq::<char>::empty());
        }
        push_str(&mut t, "\n");
        push_str(out, t.as_str());
    }

    fn shown_exec(diff: &FileDiff, context_size: usize) -> (r: Vec<(usize, String, ChangeType)>)
        ensures
            listing_m(r@) == shown_lines(*diff, context_size as int),
    {
        if diff.is_streaming && diff.all_lines.len() == 0 {
            let r = Self::format_changes_streaming(&diff.changes, context_size);
            proof {
                assert(listing_m(r@) =~= diff.changes@.map_values(|ch: LineChange| (ch.line_number, ch.content@, ch.change_type)));
            }
            r
        } else {
            Self::filter_lines_with_context(&diff.all_lines, context_size)
        }
    }

    /// A diff as plain text, with `context_size` lines of context.
    pub fn format_diff_plain(diff: &FileDiff, context_size: usize) -> (s: String)
        ensures
            ({
                let m = count_kind(diff.changes@, ChangeType::Modified);
                let a = count_kind(diff.changes@, ChangeType::Added);
                let d = count_kind(diff.changes@, ChangeType::Deleted);
                s@ == render_diff(diff.file_path@, strs(diff.printed_lines@), shown_lines(*diff, context_size as int), m, a, d)
            }),
    {
        let mut out = str_to_string(diff.file_path.as_str());
        push_str(&mut out, "\n");
        if diff.printed_lines.len() > 0 {
            Self::render_printed_exec(&diff.printed_lines, &mut out);
            return out;
        }
        let shown = Self::shown_exec(diff, context_size);
        Self::render_lines_exec(&shown, &mut out);
        let (m, a, d) = Self::change_counts(&diff.changes);
        let count = diff.changes.len();
        proof {
            lemma_count_total(diff.changes@);
            assert(m + a + d <= count);
        }
        Self::render_summary_exec(m, a, d, &mut out);
        out
    }

    /// The header of a dry run, as plain text.
    pub fn format_dry_run_header_plain(expression: &str) -> (s: String)
        ensures
            s@ == "Dry run: "@ + expression@ + "\n\n"@,
    {
        let mut s = str_to_string("Dry run: ");
        push_str(&mut s, expression);
        push_str(&mut s, "\n\n");
        s
    }
}

/// The changes of each file, as the file name and its changed lines.
pub open spec fn file_changes_m(fs: Seq<(String, Vec<FileChange>)>) -> Seq<(Seq<char>, Seq<FileChange>)> {
    fs.map_values(|f: (String, Vec<FileChange>)| (f.0@, f.1@))
}

/// How many changes all files have together.
pub open spec fn total_changes(fs: Seq<(Seq<char>, Seq<FileChange>)>) -> nat
    decreases fs.len(),
{
    if fs.len() == 0 {
        0
    } else {
        total_changes(fs.drop_last()) + fs.last().1.len()
    }
}

/// How many files have a change.
pub open spec fn changed_files(fs: Seq<(Seq<char>, Seq<FileChange>)>) -> nat
    decreases fs.len(),
{
    if fs.len() == 0 {
        0
    } else {
        changed_files(fs.drop_last()) + if fs.last().1.len() > 0 { 1nat } else { 0nat }
    }
}

/// A changed line as two lines, the old text and the new.
pub open spec fn render_file_change(c: FileChange) -> Seq<char> {
    "  Line "@ + decimal(c.line_number as nat) + ": - "@ + c.old_content@ + "\n  Line "@ + decimal(
        c.line_number as nat,
    ) + ": + "@ + c.new_content@ + "\n"@
}

pub open spec fn render_file_changes(cs: Seq<FileChange>) -> Seq<char>
    decreases cs.len(),
{
    if cs.len() == 0 {
        Seq::empty()
    } else {
        render_file_changes(cs.drop_last()) + render_file_change(cs.last())
    }
}

/// Each file with changes: its name, its changed lines and a blank line.
pub open spec fn render_preview_files(fs: Seq<(Seq<char>, Seq<FileChange>)>) -> Seq<char>
    decreases fs.len(),
{
    if fs.len() == 0 {
        Seq::empty()
    } else {
        let f = fs.last();
        render_preview_files(fs.drop_last()) + if f.1.len() == 0 {
            Seq::empty()
        } else {
            f.0 + "\n"@ + render_file_changes(f.1) + "\n"@
        }
    }
}

/// A preview as plain text: the expression, then either that nothing
/// would change, or the changes of each file, the totals and how to
/// apply them.
pub open spec fn render_preview(expression: Seq<char>, fs: Seq<(Seq<char>, Seq<FileChange>)>) -> Seq<char> {
    let total = total_changes(fs);
    let files = changed_files(fs);
    "Preview: "@ + expression + "\n\n"@ + if total == 0 {
        "No changes would be made.\n"@
    } else {
        render_preview_files(fs) + "Total: "@ + decimal(total) + " changes across "@ + decimal(files) + " file"@
            + (if files == 1 { Seq::empty() } else { "s"@ }) + "\n\n"@ + "Apply with: sedx '"@ + expression
            + "'\n"@
    }
}

/// Each file with changes and how many it has.
pub open spec fn render_change_counts(fs: Seq<(Seq<char>, Seq<FileChange>)>) -> Seq<char>
    decreases fs.len(),
{
    if fs.len() == 0 {
        Seq::empty()
    } else {
        let f = fs.last();
        render_change_counts(fs.drop_last()) + if f.1.len() == 0 {
            Seq::empty()
        } else {
            "  "@ + f.0 + ": "@ + decimal(f.1.len()) + " changes\n"@
        }
    }
}

/// The report of an applied edit as plain text: the expression, the
/// backup id, the files changed when any were, and how to roll back.
pub open spec fn render_execute_result(
    expression: Seq<char>,
    backup_id: Seq<char>,
    fs: Seq<(Seq<char>, Seq<FileChange>)>,
) -> Seq<char> {
    "Applied: "@ + expression + "\n"@ + "Backup ID: "@ + backup_id + "\n\n"@ + (if total_changes(fs) > 0 {
        "Changes made:\n"@ + render_change_counts(fs) + "\n"@
    } else {
        Seq::empty()
    }) + "Rollback with: sedx rollback "@ + backup_id + "\n"@
}

proof fn lemma_total_prefix(fs: Seq<(Seq<char>, Seq<FileChange>)>, i: int)
    requires
        0 <= i <= fs.len(),
    ensures
        total_changes(fs.take(i)) <= total_changes(fs),
        changed_files(fs.take(i)) <= changed_files(fs),
    decreases fs.len() - i,
{
    if i < fs.len() {
        lemma_total_prefix(fs, i + 1);
        assert(fs.take(i + 1).drop_last() =~= fs.take(i));
    } else {
        assert(fs.take(i) =~= fs);
    }
}

impl DiffFormatter {
    fn count_changes(fs: &Vec<(String, Vec<FileChange>)>) -> (r: (usize, usize))
        requires
            total_changes(file_changes_m(fs@)) <= usize::MAX,
        ensures
            r.0 == total_changes(file_changes_m(fs@)),
            r.1 == changed_files(file_changes_m(fs@)),
    {
        let ghost m = file_changes_m(fs@);
        let mut total: usize = 0;
        let mut files: usize = 0;
        let mut i: usize = 0;
        while i < fs.len()
            invariant
                i <= fs@.len(),
                m == file_changes_m(fs@),
                total_changes(m) <= usize::MAX,
                total == total_changes(m.take(i as int)),
                files == changed_files(m.take(i as int)),
                files <= i,
            decreases fs@.len() - i,
        {
            proof {
                assert(m.take(i + 1).drop_last() =~= m.take(i as int));
                lemma_total_prefix(m, i + 1);
            }
            let n = fs[i].1.len();
            total = total + n;
            if n > 0 {
                files = files + 1;
            }
            i += 1;
        }
        assert(m.take(i as int) =~= m);
        (total, files)
    }

    fn render_file_changes_exec(cs: &Vec<FileChange>, out: &mut String)
        ensures
            final(out)@ == old(out)@ + render_file_changes(cs@),
    {
        let ghost start = out@;
        let mut i: usize = 0;
        while i < cs.len()
            invariant
                i <= cs@.len(),
                out@ == start + render_file_changes(cs@.take(i as int)),
            decreases cs@.len() - i,
        {
            proof {
                assert(cs@.take(i + 1).drop_last() =~= cs@.take(i as int));
            }
            let c = &cs[i];
            let num = usize_to_string(c.line_number);
            push_str(out, "  Line ");
            push_str(out, num.as_str());
            push_str(out, ": - ");
            push_str(out, c.old_content.as_str());
            push_str(out, "\n  Line ");
            push_str(out, num.as_str());
            push_str(out, ": + ");
            push_str(out, c.new_content.as_str());
            push_str(out, "\n");
            proof {
                assert(out@ =~= start + render_file_changes(cs@.take(i + 1)));
            }
            i += 1;
        }
        assert(cs@.take(i as int) =~= cs@);
    }

    /// A preview of the changes an expression would make, as plain text.
    #[verifier::rlimit(30)]
    pub fn format_preview_plain(expression: &str, files_changes: &Vec<(String, Vec<FileChange>)>) -> (s: String)
        requires
            total_changes(file_changes_m(files_changes@)) <= usize::MAX,
        ensures
            s@ == render_preview(expression@, file_changes_m(files_changes@)),
    {
        let ghost m = file_changes_m(files_changes@);
        let mut out = str_to_string("Preview: ");
        push_str(&mut out, expression);
        push_str(&mut out, "\n\n");
        let (total, files) = Self::count_changes(files_changes);
        if total == 0 {
            push_str(&mut out, "No changes would be made.\n");
            return out;
        }
        let ghost head = out@;
        let mut i: usize = 0;
        while i < files_changes.len()
            invariant
                i <= files_changes@.len(),
                m == file_changes_m(files_changes@),
                out@ == head + render_preview_files(m.take(i as int)),
            decreases files_changes@.len() - i,
        {
            proof {
                assert(m.take(i + 1).drop_last() =~= m.take(i as int));
            }
            let f = &files_changes[i];
            if f.1.len() > 0 {
                push_str(&mut out, f.0.as_str());
                push_str(&mut out, "\n");
                Self::render_file_changes_exec(&f.1, &mut out);
                push_str(&mut out, "\n");
            }
            proof {
                assert(out@ =~= head + render_preview_files(m.take(i + 1)));
            }
            i += 1;
        }
        assert(m.take(i as int) =~= m);
        push_str(&mut out, "Total: ");
        push_str(&mut out, usize_to_string(total).as_str());
        push_str(&mut out, " changes across ");
        push_str(&mut out, usize_to_string(files).as_str());
        push_str(&mut out, " file");
        if files != 1 {
            push_str(&mut out, "s");
        }
        push_str(&mut out, "\n\n");
        push_str(&mut out, "Apply with: sedx '");
        push_str(&mut out, expression);
        push_str(&mut out, "'\n");
        proof {
            reveal_strlit("s");
        }
        assert(out@ =~= render_preview(expression@, m));
        out
    }

    /// The report of an applied edit, as plain text.
    pub fn format_execute_result_plain(
        expression: &str,
        backup_id: &str,
        files_changes: &Vec<(String, Vec<FileChange>)>,
    ) -> (s: String)
        requires
            total_changes(file_changes_m(files_changes@)) <= usize::MAX,
        ensures
            s@ == render_execute_result(expression@, backup_id@, file_changes_m(files_changes@)),
    {
        let ghost m = file_changes_m(files_changes@);
        let mut out = str_to_string("Applied: ");
        push_str(&mut out, expression);
        push_str(&mut out, "\n");
        push_str(&mut out, "Backup ID: ");
        push_str(&mut out, backup_id);
        push_str(&mut out, "\n\n");
        let ghost head = out@;
        let (total, _files) = Self::count_changes(files_changes);
        if total > 0 {
            push_str(&mut out, "Changes made:\n");
            let ghost start = out@;
            let mut i: usize = 0;
            while i < files_changes.len()
                invariant
                    i <= files_changes@.len(),
                    m == file_changes_m(files_changes@),
                    out@ == start + render_change_counts(m.take(i as int)),
                decreases files_changes@.len() - i,
            {
                proof {
                    assert(m.take(i + 1).drop_last() =~= m.take(i as int));
                }
                let f = &files_changes[i];
                if f.1.len() > 0 {
                    push_str(&mut out, "  ");
                    push_str(&mut out, f.0.as_str());
                    push_str(&mut out, ": ");
                    push_str(&mut out, usize_to_string(f.1.len()).as_str());
                    push_str(&mut out, " changes\n");
                }
                proof {
                    assert(out@ =~= start + render_change_counts(m.take(i + 1)));
                }
                i += 1;
            }
            assert(m.take(i as int) =~= m);
            push_str(&mut out, "\n");
        }
        push_str(&mut out, "Rollback with: sedx rollback ");
        push_str(&mut out, backup_id);
        push_str(&mut out, "\n");
        assert(out@ =~= render_execute_result(expression@, backup_id@, m));
        out
    }
}

proof fn lemma_count_total(cs: Seq<LineChange>)
    ensures
        count_kind(cs, ChangeType::Modified) + count_kind(cs, ChangeType::Added) + count_kind(cs, ChangeType::Deleted)
            <= cs.len(),
    decreases cs.len(),
{
    if cs.len() > 0 {
        lemma_count_total(cs.drop_last());
    }
}

proof fn lemma_changed_only_keeps(ls: Seq<ListingM>, k: int)
    requires
        0 <= k < ls.len(),
        ls[k].2 != ChangeType::Unchanged,
    ensures
        changed_only(ls).contains(ls[k]),
    decreases ls.len(),
{
    if k < ls.len() - 1 {
        lemma_changed_only_keeps(ls.drop_last(), k);
        let p = changed_only(ls.drop_last());
        let w = choose|i: int| 0 <= i < p.len() && p[i] == ls.drop_last()[k];
        if ls.last().2 != ChangeType::Unchanged {
            assert(p.push(ls.last())[w] == ls[k]);
        }
    } else {
        assert(changed_only(ls) == changed_only(ls.drop_last()).push(ls.last()));
        assert(changed_only(ls)[changed_only(ls).len() - 1] == ls[k]);
    }
}

proof fn lemma_shown_keeps(ls: Seq<ListingM>, c: int, n: int, k: int)
    requires
        0 <= k < n <= ls.len(),
        ls[k].2 != ChangeType::Unchanged,
        c >= 0,
    ensures
        shown_upto(ls, c, n).0.contains(ls[k]),
    decreases n,
{
    let (out, last) = shown_upto(ls, c, n - 1);
    let i = n - 1;
    if k < n - 1 {
        lemma_shown_keeps(ls, c, n - 1, k);
        let w = choose|j: int| 0 <= j < out.len() && out[j] == ls[k];
        if near_change(ls, c, i) {
            let marked = match last {
                Some(e) => i - e - 1 > c,
                None => false,
            };
            let o2 = if marked { out.push(gap_marker()) } else { out };
            assert(o2[w] == ls[k]);
            assert(o2.push(ls[i])[w] == ls[k]);
        }
    } else {
        assert(changed_at(ls, k));
        assert(near_change(ls, c, i));
        let marked = match last {
            Some(e) => i - e - 1 > c,
            None => false,
        };
        let o2 = if marked { out.push(gap_marker()) } else { out };
        assert(o2.push(ls[i])[o2.len() as int] == ls[k]);
    }
}

/// No change is hidden: whatever the context, every changed line of a
/// listing is among the lines shown.
pub proof fn lemma_every_change_is_shown(ls: Seq<ListingM>, c: int, k: int)
    requires
        0 <= k < ls.len(),
        ls[k].2 != ChangeType::Unchanged,
        c >= 0,
    ensures
        spec_filter_lines(ls, c).contains(ls[k]),
{
    if c == 0 {
        lemma_changed_only_keeps(ls, k);
    } else {
        lemma_shown_keeps(ls, c, ls.len() as int, k);
    }
}

} // verus!
