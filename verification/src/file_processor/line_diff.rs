//! The diff of a file before and after a run, line by line. The line diff
//! itself comes from `similar`; what is built on it here pairs a deleted and
//! an inserted line with the same number into one modified line.
use vstd::prelude::*;
use std::collections::{HashMap, HashSet};
use crate::file_processor::common::{ChangeType, LineChange};
use crate::text::{join_lines, joined, push_char, str_to_string, strs};

verus! {

broadcast use {vstd::string::group_string_axioms, vstd::std_specs::hash::group_hash_axioms};

/// The kind of a line in a line diff.
#[derive(Debug, Clone, Copy, PartialEq, Eq, Structural)]
pub enum DiffTag {
    Equal,
    Delete,
    Insert,
}

/// One line of a line diff: its kind, its index among the old lines and
/// among the new lines (where it has one), and the line with its newline.
#[derive(Debug, Clone)]
pub struct DiffItem {
    pub tag: DiffTag,
    pub old_index: Option<usize>,
    pub new_index: Option<usize>,
    pub value: String,
}

/// Model of a diff line.
pub type ItemM = (DiffTag, Option<usize>, Option<usize>, Seq<char>);

pub open spec fn item_view(d: DiffItem) -> ItemM {
    (d.tag, d.old_index, d.new_index, d.value@)
}

pub open spec fn items_view(v: Seq<DiffItem>) -> Seq<ItemM> {
    v.map_values(|d: DiffItem| item_view(d))
}

/// The changes of the line diff of two texts, in order, as
/// `similar::TextDiff::from_lines` computes them.
pub uninterp spec fn line_diff(old: Seq<char>, new: Seq<char>) -> Seq<ItemM>;

/// `similar::TextDiff::from_lines(old, new).iter_all_changes()`: each change
/// with its tag, its indices and its line. The diff (Myers, with no
/// deadline) depends on the two texts alone; its content is named by
/// `line_diff`, not stated. The indices are positions in the vectors of
/// the two texts' lines, so each is below `usize::MAX`.
#[verifier::external_body]
fn text_diff_changes(old: &str, new: &str) -> (r: Vec<DiffItem>)
    ensures
        items_view(r@) == line_diff(old@, new@),
        forall|i: int| 0 <= i < r@.len() ==> (#[trigger] r@[i]).old_index.unwrap_or(0) < usize::MAX,
        forall|i: int| 0 <= i < r@.len() ==> (#[trigger] r@[i]).new_index.unwrap_or(0) < usize::MAX,
{
    let diff = similar::TextDiff::from_lines(old, new);
    let mut out = Vec::new();
    for c in diff.iter_all_changes() {
        let tag = match c.tag() {
            similar::ChangeTag::Equal => DiffTag::Equal,
            similar::ChangeTag::Delete => DiffTag::Delete,
            similar::ChangeTag::Insert => DiffTag::Insert,
        };
        out.push(DiffItem { tag, old_index: c.old_index(), new_index: c.new_index(), value: c.value().to_string() });
    }
    out
}

/// The lines joined by newlines, with a final newline unless that leaves
/// the text empty.
pub open spec fn lines_text(s: Seq<Seq<char>>) -> Seq<char> {
    if joined(s).len() > 0 {
        joined(s) + seq!['\n']
    } else {
        joined(s)
    }
}

/// The text of lines for the line diff.
pub fn text_of_lines(lines: &Vec<String>) -> (t: String)
    ensures
        t@ == lines_text(strs(lines@)),
{
    let mut t = join_lines(lines);
    if !t.as_str().is_empty() {
        push_char(&mut t, '\n');
    }
    t
}

/// The line without its trailing newlines.
pub open spec fn trim_newlines(s: Seq<char>) -> Seq<char>
    decreases s.len(),
{
    if s.len() > 0 && s.last() == '\n' {
        trim_newlines(s.drop_last())
    } else {
        s
    }
}

fn trim_newlines_exec(s: &String) -> (r: String)
    ensures
        r@ == trim_newlines(s@),
{
    let v = crate::text::chars_of(s.as_str());
    let mut n = v.len();
    assert(v@.take(n as int) =~= v@);
    while n > 0 && v[n - 1] == '\n'
        invariant
            n <= v@.len(),
            trim_newlines(s@) == trim_newlines(v@.take(n as int)),
            v@ == s@,
        decreases n,
    {
        assert(v@.take(n as int).drop_last() =~= v@.take(n - 1));
        n -= 1;
    }
    assert(v@.take(n as int) =~= v@.subrange(0, n as int));
    crate::text::string_of_range(&v, 0, n)
}

/// The line number a diff line counts under: its new index for an
/// insertion, else its old index, counted from one.
pub open spec fn item_line(it: ItemM) -> usize {
    if it.0 == DiffTag::Insert {
        (it.2.unwrap_or(0) + 1) as usize
    } else {
        (it.1.unwrap_or(0) + 1) as usize
    }
}

/// The deleted lines by number, the last one for a number winning.
pub open spec fn deletions(items: Seq<ItemM>) -> Map<usize, Seq<char>>
    decreases items.len(),
{
    if items.len() == 0 {
        Map::empty()
    } else if items.last().0 == DiffTag::Delete {
        deletions(items.drop_last()).insert(item_line(items.last()), trim_newlines(items.last().3))
    } else {
        deletions(items.drop_last())
    }
}

/// The inserted lines by number, the last one for a number winning.
pub open spec fn insertions(items: Seq<ItemM>) -> Map<usize, Seq<char>>
    decreases items.len(),
{
    if items.len() == 0 {
        Map::empty()
    } else if items.last().0 == DiffTag::Insert {
        insertions(items.drop_last()).insert(item_line(items.last()), trim_newlines(items.last().3))
    } else {
        insertions(items.drop_last())
    }
}

/// Model of a diff record.
pub type ChangeM = (usize, ChangeType, Seq<char>, Option<Seq<char>>);

pub open spec fn change_m(c: LineChange) -> ChangeM {
    (c.line_number, c.change_type, c.content@, match c.old_content {
        Some(o) => Some(o@),
        None => None,
    })
}

pub open spec fn changes_m(v: Seq<LineChange>) -> Seq<ChangeM> {
    v.map_values(|c: LineChange| change_m(c))
}

/// What pairing has produced and which deleted and inserted line numbers
/// it has handled.
pub type PairState<T> = (Seq<T>, Set<usize>, Set<usize>);

/// One diff line in the pairing of changes: the first deletion of a
/// number becomes a modification if that number was also inserted, else a
/// deletion; the first insertion of a number not yet handled is an
/// addition; the rest add nothing.
pub open spec fn change_step(st: PairState<ChangeM>, it: ItemM, dels: Map<usize, Seq<char>>, ins: Map<usize, Seq<char>>) -> PairState<ChangeM> {
    let (out, hd, hi) = st;
    let n = item_line(it);
    if it.0 == DiffTag::Delete && !hd.contains(n) {
        if ins.contains_key(n) {
            (out.push((n, ChangeType::Modified, ins[n], Some(dels[n]))), hd.insert(n), hi.insert(n))
        } else {
            (out.push((n, ChangeType::Deleted, dels[n], None)), hd.insert(n), hi)
        }
    } else if it.0 == DiffTag::Insert && !hi.contains(n) {
        (out.push((n, ChangeType::Added, ins[n], None)), hd, hi.insert(n))
    } else {
        st
    }
}

/// The pairing of the first `k` diff lines.
pub open spec fn changes_upto(items: Seq<ItemM>, k: int) -> PairState<ChangeM>
    decreases k,
{
    if k <= 0 {
        (Seq::empty(), Set::empty(), Set::empty())
    } else {
        change_step(changes_upto(items, k - 1), items[k - 1], deletions(items), insertions(items))
    }
}

/// The changed lines of a line diff, in order.
pub open spec fn paired_changes(items: Seq<ItemM>) -> Seq<ChangeM> {
    changes_upto(items, items.len() as int).0
}

/// An entry of the full listing: line number, content, how it changed.
pub type ListingM = (usize, Seq<char>, ChangeType);

/// One diff line in the full listing: an equal line is listed with its
/// original text (when the original has a line at that index); deletions
/// and insertions are paired as for the changes.
pub open spec fn listing_step(
    st: PairState<ListingM>,
    it: ItemM,
    original: Seq<Seq<char>>,
    dels: Map<usize, Seq<char>>,
    ins: Map<usize, Seq<char>>,
) -> PairState<ListingM> {
    let (out, hd, hi) = st;
    let n = item_line(it);
    if it.0 == DiffTag::Equal {
        let k = it.1.unwrap_or(0);
        if k < original.len() {
            (out.push((n, original[k as int], ChangeType::Unchanged)), hd, hi)
        } else {
            st
        }
    } else if it.0 == DiffTag::Delete {
        if hd.contains(n) {
            st
        } else if ins.contains_key(n) {
            (out.push((n, ins[n], ChangeType::Modified)), hd.insert(n), hi.insert(n))
        } else {
            (out.push((n, dels[n], ChangeType::Deleted)), hd.insert(n), hi)
        }
    } else if !hi.contains(n) {
        (out.push((n, ins[n], ChangeType::Added)), hd, hi.insert(n))
    } else {
        st
    }
}

pub open spec fn listing_upto(items: Seq<ItemM>, original: Seq<Seq<char>>, k: int) -> PairState<ListingM>
    decreases k,
{
    if k <= 0 {
        (Seq::empty(), Set::empty(), Set::empty())
    } else {
        listing_step(listing_upto(items, original, k - 1), items[k - 1], original, deletions(items), insertions(items))
    }
}

/// Every line of the diff, in order, with how it changed.
pub open spec fn paired_listing(items: Seq<ItemM>, original: Seq<Seq<char>>) -> Seq<ListingM> {
    listing_upto(items, original, items.len() as int).0
}

pub open spec fn listing_m(v: Seq<(usize, String, ChangeType)>) -> Seq<ListingM> {
    v.map_values(|e: (usize, String, ChangeType)| (e.0, e.1@, e.2))
}

/// The line number of a diff line.
fn item_line_exec(it: &DiffItem) -> (n: usize)
    requires
        it.old_index.unwrap_or(0) < usize::MAX,
        it.new_index.unwrap_or(0) < usize::MAX,
    ensures
        n == item_line(item_view(*it)),
{
    match it.tag {
        DiffTag::Insert => match it.new_index {
            Some(k) => k + 1,
            None => 1,
        },
        _ => match it.old_index {
            Some(k) => k + 1,
            None => 1,
        },
    }
}

/// Items whose indices leave room for a line number.
pub open spec fn items_fit(items: Seq<DiffItem>) -> bool {
    forall|i: int| 0 <= i < items.len() ==> {
        &&& (#[trigger] items[i]).old_index.unwrap_or(0) < usize::MAX
        &&& items[i].new_index.unwrap_or(0) < usize::MAX
    }
}

/// The deleted and the inserted lines of a diff, by number.
fn collect_lines(items: &Vec<DiffItem>) -> (r: (HashMap<usize, String>, HashMap<usize, String>))
    requires
        items_fit(items@),
    ensures
        r.0@.dom() == deletions(items_view(items@)).dom(),
        forall|n: usize| #[trigger] r.0@.contains_key(n) ==> r.0@[n]@ == deletions(items_view(items@))[n],
        r.1@.dom() == insertions(items_view(items@)).dom(),
        forall|n: usize| #[trigger] r.1@.contains_key(n) ==> r.1@[n]@ == insertions(items_view(items@))[n],
{
    let ghost iv = items_view(items@);
    let mut dels: HashMap<usize, String> = HashMap::new();
    let mut ins: HashMap<usize, String> = HashMap::new();
    let mut i: usize = 0;
    while i < items.len()
        invariant
            i <= items@.len(),
            iv == items_view(items@),
            items_fit(items@),
            dels@.dom() == deletions(iv.take(i as int)).dom(),
            forall|n: usize| #[trigger] dels@.contains_key(n) ==> dels@[n]@ == deletions(iv.take(i as int))[n],
            ins@.dom() == insertions(iv.take(i as int)).dom(),
            forall|n: usize| #[trigger] ins@.contains_key(n) ==> ins@[n]@ == insertions(iv.take(i as int))[n],
        decreases items@.len() - i,
    {
        let it = &items[i];
        assert(iv[i as int] == item_view(*it));
        assert(iv.take(i + 1).drop_last() =~= iv.take(i as int));
        assert(iv.take(i + 1).last() == iv[i as int]);
        let n = item_line_exec(it);
        match it.tag {
            DiffTag::Delete => {
                let v = trim_newlines_exec(&it.value);
                dels.insert(n, v);
            }
            DiffTag::Insert => {
                let v = trim_newlines_exec(&it.value);
                ins.insert(n, v);
            }
            DiffTag::Equal => {}
        }
        proof {
            assert(dels@.dom() =~= deletions(iv.take(i + 1)).dom());
            assert(ins@.dom() =~= insertions(iv.take(i + 1)).dom());
        }
        i += 1;
    }
    assert(iv.take(i as int) =~= iv);
    (dels, ins)
}

/// Pairs the changes of a line diff: a line deleted and inserted under the
/// same number is one modified line; other deletions and insertions stay
/// as they are; equal lines are left out. Each number is reported once for
/// its deletion and once for its insertion, at its first occurrence.
pub fn pair_line_changes(items: &Vec<DiffItem>) -> (changes: Vec<LineChange>)
    requires
        items_fit(items@),
    ensures
        changes_m(changes@) == paired_changes(items_view(items@)),
{
    let ghost iv = items_view(items@);
    let (dels, ins) = collect_lines(items);
    let mut changes: Vec<LineChange> = Vec::new();
    let mut hd: HashSet<usize> = HashSet::new();
    let mut hi: HashSet<usize> = HashSet::new();
    let mut i: usize = 0;
    while i < items.len()
        invariant
            i <= items@.len(),
            iv == items_view(items@),
            items_fit(items@),
            dels@.dom() == deletions(iv).dom(),
            forall|n: usize| #[trigger] dels@.contains_key(n) ==> dels@[n]@ == deletions(iv)[n],
            ins@.dom() == insertions(iv).dom(),
            forall|n: usize| #[trigger] ins@.contains_key(n) ==> ins@[n]@ == insertions(iv)[n],
            changes_upto(iv, i as int) == (changes_m(changes@), hd@, hi@),
        decreases items@.len() - i,
    {
        let it = &items[i];
        assert(iv[i as int] == item_view(*it));
        let ghost before = changes@;
        let n = item_line_exec(it);
        if it.tag == DiffTag::Delete && !hd.contains(&n) {
            assert(deletions(iv).contains_key(n)) by { lemma_deleted_in_map(iv, i as int); }
            let old_text = str_to_string(dels.get(&n).unwrap().as_str());
            match ins.get(&n) {
                Some(new_text) => {
                    changes.push(LineChange {
                        line_number: n,
                        change_type: ChangeType::Modified,
                        content: str_to_string(new_text.as_str()),
                        old_content: Some(old_text),
                    });
                    hd.insert(n);
                    hi.insert(n);
                }
                None => {
                    changes.push(LineChange { line_number: n, change_type: ChangeType::Deleted, content: old_text, old_content: None });
                    hd.insert(n);
                }
            }
        } else if it.tag == DiffTag::Insert && !hi.contains(&n) {
            assert(insertions(iv).contains_key(n)) by { lemma_inserted_in_map(iv, i as int); }
            let new_text = str_to_string(ins.get(&n).unwrap().as_str());
            changes.push(LineChange { line_number: n, change_type: ChangeType::Added, content: new_text, old_content: None });
            hi.insert(n);
        }
        proof {
            assert(changes_m(changes@) =~= changes_upto(iv, i + 1).0);
            assert(hd@ =~= changes_upto(iv, i + 1).1);
            assert(hi@ =~= changes_upto(iv, i + 1).2);
        }
        i += 1;
    }
    changes
}

proof fn lemma_deleted_in_map(items: Seq<ItemM>, i: int)
    requires
        0 <= i < items.len(),
        items[i].0 == DiffTag::Delete,
    ensures
        deletions(items).contains_key(item_line(items[i])),
    decreases items.len(),
{
    if i < items.len() - 1 {
        lemma_deleted_in_map(items.drop_last(), i);
    }
}

proof fn lemma_inserted_in_map(items: Seq<ItemM>, i: int)
    requires
        0 <= i < items.len(),
        items[i].0 == DiffTag::Insert,
    ensures
        insertions(items).contains_key(item_line(items[i])),
    decreases items.len(),
{
    if i < items.len() - 1 {
        lemma_inserted_in_map(items.drop_last(), i);
    }
}

/// Lists every line of a line diff in order: equal lines with their
/// original text, deletions and insertions paired as in
/// `pair_line_changes`.
pub fn pair_diff_lines(original: &Vec<String>, items: &Vec<DiffItem>) -> (listing: Vec<(usize, String, ChangeType)>)
    requires
        items_fit(items@),
    ensures
        listing_m(listing@) == paired_listing(items_view(items@), strs(original@)),
{
    let ghost iv = items_view(items@);
    let ghost ov = strs(original@);
    let (dels, ins) = collect_lines(items);
    let mut out: Vec<(usize, String, ChangeType)> = Vec::new();
    let mut hd: HashSet<usize> = HashSet::new();
    let mut hi: HashSet<usize> = HashSet::new();
    let mut i: usize = 0;
    while i < items.len()
        invariant
            i <= items@.len(),
            iv == items_view(items@),
            ov == strs(original@),
            ov.len() == original@.len(),
            items_fit(items@),
            dels@.dom() == deletions(iv).dom(),
            forall|n: usize| #[trigger] dels@.contains_key(n) ==> dels@[n]@ == deletions(iv)[n],
            ins@.dom() == insertions(iv).dom(),
            forall|n: usize| #[trigger] ins@.contains_key(n) ==> ins@[n]@ == insertions(iv)[n],
            listing_upto(iv, ov, i as int) == (listing_m(out@), hd@, hi@),
        decreases items@.len() - i,
    {
        let it = &items[i];
        assert(iv[i as int] == item_view(*it));
        let n = item_line_exec(it);
        match it.tag {
            DiffTag::Equal => {
                let k = match it.old_index {
                    Some(k) => k,
                    None => 0,
                };
                if k < original.len() {
                    out.push((n, str_to_string(original[k].as_str()), ChangeType::Unchanged));
                }
            }
            DiffTag::Delete => {
                if !hd.contains(&n) {
                    assert(deletions(iv).contains_key(n)) by { lemma_deleted_in_map(iv, i as int); }
                    match ins.get(&n) {
                        Some(new_text) => {
                            out.push((n, str_to_string(new_text.as_str()), ChangeType::Modified));
                            hd.insert(n);
                            hi.insert(n);
                        }
                        None => {
                            out.push((n, str_to_string(dels.get(&n).unwrap().as_str()), ChangeType::Deleted));
                            hd.insert(n);
                        }
                    }
                }
            }
            DiffTag::Insert => {
                if !hi.contains(&n) {
                    assert(insertions(iv).contains_key(n)) by { lemma_inserted_in_map(iv, i as int); }
                    out.push((n, str_to_string(ins.get(&n).unwrap().as_str()), ChangeType::Added));
                    hi.insert(n);
                }
            }
        }
        proof {
            assert(listing_m(out@) =~= listing_upto(iv, ov, i + 1).0);
            assert(hd@ =~= listing_upto(iv, ov, i + 1).1);
            assert(hi@ =~= listing_upto(iv, ov, i + 1).2);
        }
        i += 1;
    }
    out
}

/// The changed lines between two versions of a file's lines.
pub fn line_changes(original: &Vec<String>, modified: &Vec<String>) -> (changes: Vec<LineChange>)
    ensures
        changes_m(changes@) == paired_changes(line_diff(lines_text(strs(original@)), lines_text(strs(modified@)))),
{
    let old_text = text_of_lines(original);
    let new_text = text_of_lines(modified);
    let items = text_diff_changes(old_text.as_str(), new_text.as_str());
    pair_line_changes(&items)
}

/// Every line of the diff between two versions of a file's lines.
pub fn diff_lines(original: &Vec<String>, modified: &Vec<String>) -> (listing: Vec<(usize, String, ChangeType)>)
    ensures
        listing_m(listing@) == paired_listing(line_diff(lines_text(strs(original@)), lines_text(strs(modified@))), strs(original@)),
{
    let old_text = text_of_lines(original);
    let new_text = text_of_lines(modified);
    let items = text_diff_changes(old_text.as_str(), new_text.as_str());
    pair_diff_lines(original, &items)
}

} // verus!
