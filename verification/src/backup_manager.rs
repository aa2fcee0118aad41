//! Backups of the files an edit changes: where a backup lives, how a file's
//! backup is named, which backup is the latest, and how many to prune.
//! Copying, compressing and listing files is the program's business.
use vstd::prelude::*;
use crate::text::{push_char, push_str, str_to_string};
use vstd::multiset::Multiset;

verus! {

broadcast use vstd::string::group_string_axioms;

/// How many backups are kept; older ones are removed.
pub const MAX_BACKUPS: usize = 50;

/// One file of a backup: where it was, where its compressed copy is, and
/// the identity of its original path.
#[derive(Debug, Clone)]
pub struct FileBackup {
    pub original_path: String,
    pub backup_path: String,
    pub path_identity: Option<String>,
}

/// What the choice of a backup reads of it: its id and when it was made
/// (nanoseconds since the Unix epoch).
#[derive(Debug, Clone)]
pub struct BackupSummary {
    pub id: String,
    pub timestamp_ns: i128,
}

/// The manager of the backups kept under one directory.
pub struct BackupManager {
    backups_dir: String,
}

impl BackupManager {
    /// The manager of the backups under `dir` (which the caller creates).
    pub fn with_directory_path(dir: String) -> (bm: Self)
        ensures
            bm.dir() == dir@,
    {
        BackupManager { backups_dir: dir }
    }

    pub closed spec fn dir(&self) -> Seq<char> {
        self.backups_dir@
    }

    /// The backup directory.
    pub fn backups_dir(&self) -> (d: &str)
        ensures
            d@ == self.dir(),
    {
        self.backups_dir.as_str()
    }

    /// The id of the latest backup among `backups`: the one made last, and
    /// of those made at the same time, the one listed last; none when
    /// there are no backups. It is the id of a backup whose time is the
    /// greatest.
    pub fn get_last_backup_id(backups: &Vec<BackupSummary>) -> (r: Option<String>)
        ensures
            match r {
                None => backups@.len() == 0,
                Some(id) => backups@.len() > 0 && id@ == backups@[latest_index(stamps(backups@))].id@,
            },
            r matches Some(id) ==> exists|i: int|
                0 <= i < backups@.len() && id@ == backups@[i].id@ && forall|j: int|
                    0 <= j < backups@.len() ==> (#[trigger] backups@[j]).timestamp_ns <= backups@[i].timestamp_ns,
    {
        if backups.len() == 0 {
            return None;
        }
        let ghost ts = stamps(backups@);
        let mut best: usize = 0;
        let mut i: usize = 1;
        while i < backups.len()
            invariant
                1 <= i <= backups@.len(),
                ts == stamps(backups@),
                best as int == latest_index(ts.take(i as int)),
            decreases backups@.len() - i,
        {
            proof {
                assert(ts.take(i + 1).drop_last() =~= ts.take(i as int));
                lemma_latest_in_range(ts.take(i as int));
            }
            if backups[i].timestamp_ns >= backups[best].timestamp_ns {
                best = i;
            }
            i += 1;
        }
        assert(ts.take(i as int) =~= ts);
        proof {
            lemma_latest_is_last_maximum(ts);
            assert forall|j: int| 0 <= j < backups@.len() implies (#[trigger] backups@[j]).timestamp_ns
                <= backups@[best as int].timestamp_ns by {
                assert(ts[j] == backups@[j].timestamp_ns);
            }
        }
        Some(str_to_string(backups[best].id.as_str()))
    }
}

/// The times of a list of backups.
pub open spec fn stamps(v: Seq<BackupSummary>) -> Seq<i128> {
    v.map_values(|b: BackupSummary| b.timestamp_ns)
}

/// The index of the latest time: the last index of the greatest one.
pub open spec fn latest_index(ts: Seq<i128>) -> int
    decreases ts.len(),
{
    if ts.len() <= 1 {
        0
    } else {
        let k = latest_index(ts.drop_last());
        if ts.last() >= ts[k] {
            ts.len() - 1
        } else {
            k
        }
    }
}

proof fn lemma_latest_in_range(ts: Seq<i128>)
    requires
        ts.len() > 0,
    ensures
        0 <= latest_index(ts) < ts.len(),
    decreases ts.len(),
{
    if ts.len() > 1 {
        lemma_latest_in_range(ts.drop_last());
    }
}

/// The latest backup is made no earlier than any other, and every backup
/// listed after it was made strictly earlier.
pub proof fn lemma_latest_is_last_maximum(ts: Seq<i128>)
    requires
        ts.len() > 0,
    ensures
        0 <= latest_index(ts) < ts.len(),
        forall|j: int| 0 <= j < ts.len() ==> #[trigger] ts[j] <= ts[latest_index(ts)],
        forall|j: int| latest_index(ts) < j < ts.len() ==> #[trigger] ts[j] < ts[latest_index(ts)],
    decreases ts.len(),
{
    if ts.len() > 1 {
        let p = ts.drop_last();
        lemma_latest_is_last_maximum(p);
        assert forall|j: int| 0 <= j < p.len() implies p[j] == ts[j] by {}
    }
}

/// How many of `count` backups pruning removes to keep `keep`: the oldest
/// beyond `keep`.
pub fn prune_count(count: usize, keep: usize) -> (n: usize)
    ensures
        n == if count <= keep { 0 } else { count - keep },
{
    if count <= keep {
        0
    } else {
        count - keep
    }
}

/// The ids of the backups made before `cutoff_ns`, in the order listed.
pub open spec fn ids_before(backups: Seq<BackupSummary>, cutoff_ns: i128) -> Seq<Seq<char>>
    decreases backups.len(),
{
    if backups.len() == 0 {
        Seq::empty()
    } else {
        let rest = ids_before(backups.drop_last(), cutoff_ns);
        if backups.last().timestamp_ns < cutoff_ns {
            rest.push(backups.last().id@)
        } else {
            rest
        }
    }
}

/// The backups that pruning by age removes: those made before the cutoff
/// (nanoseconds since the Unix epoch).
pub fn ids_older_than(backups: &Vec<BackupSummary>, cutoff_ns: i128) -> (r: Vec<String>)
    ensures
        crate::text::strs(r@) == ids_before(backups@, cutoff_ns),
{
    let mut r: Vec<String> = Vec::new();
    let mut i: usize = 0;
    while i < backups.len()
        invariant
            i <= backups@.len(),
            crate::text::strs(r@) == ids_before(backups@.take(i as int), cutoff_ns),
        decreases backups@.len() - i,
    {
        assert(backups@.take(i + 1).drop_last() =~= backups@.take(i as int));
        if backups[i].timestamp_ns < cutoff_ns {
            let id = str_to_string(backups[i].id.as_str());
            proof {
                crate::text::lemma_strs_push(r@, id);
            }
            r.push(id);
        }
        i += 1;
    }
    assert(backups@.take(i as int) =~= backups@);
    r
}

/// The indices `0..n`, in order.
pub open spec fn all_indices(n: nat) -> Seq<usize> {
    Seq::new(n, |i: int| i as usize)
}

/// The ids of the backups at `idxs`, in that order.
pub open spec fn ids_at(backups: Seq<BackupSummary>, idxs: Seq<usize>) -> Seq<Seq<char>> {
    idxs.map_values(|i: usize| backups[i as int].id@)
}

/// Whether id `a` comes before id `b`: lexicographically, character by
/// character, a proper prefix first.
pub open spec fn id_less(a: Seq<char>, b: Seq<char>) -> bool
    decreases a.len(),
{
    if a.len() == 0 {
        b.len() > 0
    } else if b.len() == 0 {
        false
    } else if a[0] != b[0] {
        (a[0] as u32) < (b[0] as u32)
    } else {
        id_less(a.drop_first(), b.drop_first())
    }
}

/// Whether backup `x` comes before backup `y` in the history: made
/// earlier, or made at the same time with a smaller id.
pub open spec fn made_before(x: BackupSummary, y: BackupSummary) -> bool {
    x.timestamp_ns < y.timestamp_ns || (x.timestamp_ns == y.timestamp_ns && id_less(x.id@, y.id@))
}

proof fn lemma_id_less_transitive(a: Seq<char>, b: Seq<char>, c: Seq<char>)
    requires
        id_less(a, b),
        id_less(b, c),
    ensures
        id_less(a, c),
    decreases a.len(),
{
    if a.len() > 0 && a[0] == b[0] && b[0] == c[0] {
        lemma_id_less_transitive(a.drop_first(), b.drop_first(), c.drop_first());
    }
}

proof fn lemma_id_less_irreflexive(a: Seq<char>)
    ensures
        !id_less(a, a),
    decreases a.len(),
{
    if a.len() > 0 {
        lemma_id_less_irreflexive(a.drop_first());
    }
}

proof fn lemma_made_before_transitive(x: BackupSummary, y: BackupSummary, z: BackupSummary)
    requires
        made_before(x, y),
        made_before(y, z),
    ensures
        made_before(x, z),
{
    if x.timestamp_ns == y.timestamp_ns && y.timestamp_ns == z.timestamp_ns {
        lemma_id_less_transitive(x.id@, y.id@, z.id@);
    }
}

/// The position in `idxs` of the first backup in the history: of those
/// that tie, the first listed.
pub open spec fn earliest_pos(backups: Seq<BackupSummary>, idxs: Seq<usize>) -> int
    decreases idxs.len(),
{
    if idxs.len() <= 1 {
        0
    } else {
        let k = earliest_pos(backups, idxs.drop_last());
        if made_before(backups[idxs.last() as int], backups[idxs[k] as int]) {
            idxs.len() - 1
        } else {
            k
        }
    }
}

/// The earliest position lies in range, and no backup there comes before
/// the one it picks.
pub proof fn lemma_earliest_pos(backups: Seq<BackupSummary>, idxs: Seq<usize>)
    requires
        idxs.len() > 0,
    ensures
        0 <= earliest_pos(backups, idxs) < idxs.len(),
        forall|k: int|
            0 <= k < idxs.len() ==> !made_before(
                #[trigger] backups[idxs[k] as int],
                backups[idxs[earliest_pos(backups, idxs)] as int],
            ),
    decreases idxs.len(),
{
    if idxs.len() == 1 {
        lemma_id_less_irreflexive(backups[idxs[0] as int].id@);
    } else {
        let p = idxs.drop_last();
        lemma_earliest_pos(backups, p);
        let k0 = earliest_pos(backups, p);
        let e = earliest_pos(backups, idxs);
        assert(p[k0] == idxs[k0]);
        lemma_id_less_irreflexive(backups[idxs[e] as int].id@);
        assert forall|k: int| 0 <= k < idxs.len() implies !made_before(
            #[trigger] backups[idxs[k] as int],
            backups[idxs[e] as int],
        ) by {
            if k < p.len() {
                assert(p[k] == idxs[k]);
                assert(!made_before(backups[p[k] as int], backups[p[k0] as int]));
                if e != k0 && made_before(backups[idxs[k] as int], backups[idxs[e] as int]) {
                    lemma_made_before_transitive(backups[idxs[k] as int], backups[idxs[e] as int], backups[idxs[k0] as int]);
                }
            }
        }
    }
}

/// The backups at `idxs` in the order of the history: the first (made
/// earliest, then smallest id, then first listed), then the others ordered
/// the same way.
pub open spec fn oldest_first(backups: Seq<BackupSummary>, idxs: Seq<usize>) -> Seq<usize>
    decreases idxs.len(),
{
    if idxs.len() == 0 {
        Seq::empty()
    } else {
        let m = earliest_pos(backups, idxs);
        proof { lemma_earliest_pos(backups, idxs); }
        seq![idxs[m]] + oldest_first(backups, idxs.remove(m))
    }
}

/// Ordering by the history rearranges the backups, each once, and puts
/// no backup after one that comes later.
pub proof fn lemma_oldest_first(backups: Seq<BackupSummary>, idxs: Seq<usize>)
    ensures
        oldest_first(backups, idxs).len() == idxs.len(),
        oldest_first(backups, idxs).to_multiset() == idxs.to_multiset(),
        forall|a: int, b: int|
            0 <= a < b < idxs.len() ==> !made_before(
                backups[oldest_first(backups, idxs)[b] as int],
                backups[oldest_first(backups, idxs)[a] as int],
            ),
    decreases idxs.len(),
{
    broadcast use vstd::multiset::group_multiset_axioms;
    broadcast use vstd::seq_lib::to_multiset_remove;
    broadcast use vstd::seq_lib::to_multiset_contains;
    broadcast use vstd::seq_lib::lemma_multiset_commutative;

    if idxs.len() == 0 {
        assert(idxs.to_multiset() =~= Multiset::<usize>::empty());
        assert(oldest_first(backups, idxs).to_multiset() =~= Multiset::<usize>::empty());
    } else {
        lemma_earliest_pos(backups, idxs);
        let m = earliest_pos(backups, idxs);
        let h = idxs[m];
        let rest = idxs.remove(m);
        lemma_oldest_first(backups, rest);
        let tail = oldest_first(backups, rest);
        let sel = oldest_first(backups, idxs);
        assert(sel == seq![h] + tail);
        assert(rest.to_multiset() == idxs.to_multiset().remove(h));
        assert(seq![h].to_multiset() =~= Multiset::<usize>::singleton(h)) by {
            assert(seq![h] =~= Seq::<usize>::empty().push(h));
            vstd::seq_lib::to_multiset_build(Seq::<usize>::empty(), h);
            assert(Seq::<usize>::empty().to_multiset() =~= Multiset::<usize>::empty());
        }
        assert(idxs.contains(h));
        assert(sel.to_multiset() =~= idxs.to_multiset());
        assert forall|b: int| 0 <= b < tail.len() implies !made_before(backups[tail[b] as int], backups[h as int]) by {
            let x = tail[b];
            assert(tail.contains(x));
            assert(tail.to_multiset().count(x) > 0);
            assert(rest.to_multiset().count(x) > 0);
            assert(idxs.to_multiset().count(x) > 0);
            assert(idxs.contains(x));
            let k = choose|k: int| 0 <= k < idxs.len() && idxs[k] == x;
            assert(!made_before(backups[idxs[k] as int], backups[idxs[m] as int]));
        }
        assert forall|a: int, b: int| 0 <= a < b < idxs.len() implies !made_before(
            backups[sel[b] as int],
            backups[sel[a] as int],
        ) by {
            if a == 0 {
                assert(sel[b] == tail[b - 1]);
            } else {
                assert(sel[a] == tail[a - 1]);
                assert(sel[b] == tail[b - 1]);
            }
        }
    }
}

/// The history holds every backup once, in order: by time, then by id.
/// So pruning to `keep` backups, which removes the first ones in it,
/// removes none made after one it keeps.
pub proof fn lemma_pruning_removes_oldest(backups: Seq<BackupSummary>, keep: nat)
    ensures
        ({
            let sel = oldest_first(backups, all_indices(backups.len()));
            let n = if backups.len() <= keep { 0 } else { backups.len() - keep };
            &&& sel.len() == backups.len()
            &&& sel.to_multiset() == all_indices(backups.len()).to_multiset()
            &&& forall|a: int, b: int|
                0 <= a < b < sel.len() ==> !made_before(backups[sel[b] as int], backups[sel[a] as int])
            &&& forall|a: int, b: int|
                0 <= a < n <= b < sel.len() ==> backups[sel[a] as int].timestamp_ns <= backups[sel[b] as int].timestamp_ns
        }),
{
    let sel = oldest_first(backups, all_indices(backups.len()));
    lemma_oldest_first(backups, all_indices(backups.len()));
    assert forall|a: int, b: int| 0 <= a < b < sel.len() implies backups[sel[a] as int].timestamp_ns
        <= backups[sel[b] as int].timestamp_ns by {
        assert(!made_before(backups[sel[b] as int], backups[sel[a] as int]));
    }
}

fn id_less_exec(a: &str, b: &str) -> (r: bool)
    ensures
        r == id_less(a@, b@),
{
    let va = crate::text::chars_of(a);
    let vb = crate::text::chars_of(b);
    let mut i: usize = 0;
    assert(a@.skip(0) =~= a@);
    assert(b@.skip(0) =~= b@);
    while i < va.len() && i < vb.len() && va[i] == vb[i]
        invariant
            i <= va@.len(),
            i <= vb@.len(),
            va@ == a@,
            vb@ == b@,
            id_less(a@, b@) == id_less(a@.skip(i as int), b@.skip(i as int)),
        decreases va@.len() - i,
    {
        proof {
            assert(a@.skip(i as int).drop_first() =~= a@.skip(i + 1));
            assert(b@.skip(i as int).drop_first() =~= b@.skip(i + 1));
        }
        i += 1;
    }
    if i == va.len() {
        i < vb.len()
    } else if i == vb.len() {
        false
    } else {
        (va[i] as u32) < (vb[i] as u32)
    }
}

fn made_before_exec(x: &BackupSummary, y: &BackupSummary) -> (r: bool)
    ensures
        r == made_before(*x, *y),
{
    x.timestamp_ns < y.timestamp_ns || (x.timestamp_ns == y.timestamp_ns && id_less_exec(x.id.as_str(), y.id.as_str()))
}

impl BackupManager {
    /// The history of the backups: the indices of `backups` ordered by the
    /// time each was made, then by id, then as listed.
    pub fn history_order(backups: &Vec<BackupSummary>) -> (r: Vec<usize>)
        ensures
            r@ == oldest_first(backups@, all_indices(backups@.len())),
    {
        let len = backups.len();
        let ghost all = all_indices(len as nat);
        let mut rem: Vec<usize> = Vec::new();
        let mut i: usize = 0;
        while i < len
            invariant
                i <= len == backups@.len(),
                rem@ == all_indices(i as nat),
            decreases len - i,
        {
            rem.push(i);
            i += 1;
            assert(rem@ =~= all_indices(i as nat));
        }
        let mut r: Vec<usize> = Vec::new();
        assert(r@ + oldest_first(backups@, rem@) =~= oldest_first(backups@, all));
        while rem.len() > 0
            invariant
                len == backups@.len(),
                all == all_indices(len as nat),
                forall|k: int| 0 <= k < rem@.len() ==> (#[trigger] rem@[k] as int) < len,
                r@ + oldest_first(backups@, rem@) == oldest_first(backups@, all),
            decreases rem@.len(),
        {
            let mut m: usize = 0;
            let mut j: usize = 1;
            while j < rem.len()
                invariant
                    1 <= j <= rem@.len(),
                    len == backups@.len(),
                    forall|k: int| 0 <= k < rem@.len() ==> (#[trigger] rem@[k] as int) < len,
                    m as int == earliest_pos(backups@, rem@.take(j as int)),
                decreases rem@.len() - j,
            {
                proof {
                    assert(rem@.take(j + 1).drop_last() =~= rem@.take(j as int));
                    lemma_earliest_pos(backups@, rem@.take(j as int));
                    assert(rem@.take(j as int)[m as int] == rem@[m as int]);
                }
                if made_before_exec(&backups[rem[j]], &backups[rem[m]]) {
                    m = j;
                }
                j += 1;
            }
            let ghost old_rem = rem@;
            assert(rem@.take(j as int) =~= rem@);
            proof { lemma_earliest_pos(backups@, rem@); }
            let idx = rem.remove(m);
            proof {
                assert(oldest_first(backups@, old_rem) == seq![idx] + oldest_first(backups@, rem@));
                assert(r@.push(idx) + oldest_first(backups@, rem@) =~= r@ + (seq![idx] + oldest_first(backups@, rem@)));
                assert forall|k: int| 0 <= k < rem@.len() implies (#[trigger] rem@[k] as int) < len by {
                    if k < m { assert(rem@[k] == old_rem[k]); } else { assert(rem@[k] == old_rem[k + 1]); }
                }
            }
            r.push(idx);
        }
        assert(oldest_first(backups@, rem@) =~= Seq::<usize>::empty());
        assert(r@ =~= oldest_first(backups@, all));
        r
    }
}

/// The ids of the backups that pruning to `keep` removes: the first
/// `prune_count(len, keep)` of the history, in its order.
pub fn prune_ids(backups: &Vec<BackupSummary>, keep: usize) -> (r: Vec<String>)
    ensures
        crate::text::strs(r@) == ids_at(
            backups@,
            oldest_first(backups@, all_indices(backups@.len())).take(
                if backups@.len() <= keep { 0 } else { backups@.len() - keep },
            ),
        ),
{
    let order = BackupManager::history_order(backups);
    proof { lemma_oldest_first(backups@, all_indices(backups@.len())); }
    let n = prune_count(backups.len(), keep);
    let mut r: Vec<String> = Vec::new();
    let mut i: usize = 0;
    while i < n
        invariant
            i <= n <= order@.len() == backups@.len(),
            order@ == oldest_first(backups@, all_indices(backups@.len())),
            order@.to_multiset() == all_indices(backups@.len()).to_multiset(),
            crate::text::strs(r@) == ids_at(backups@, order@.take(i as int)),
        decreases n - i,
    {
        let idx = order[i];
        proof {
            broadcast use vstd::seq_lib::to_multiset_contains;
            let all = all_indices(backups@.len());
            assert(order@.contains(idx));
            assert(order@.to_multiset().count(idx) > 0);
            assert(all.contains(idx));
            let j = choose|j: int| 0 <= j < all.len() && all[j] == idx;
            assert(all[j] == j as usize);
        }
        let id = str_to_string(backups[idx].id.as_str());
        proof {
            crate::text::lemma_strs_push(r@, id);
            assert(ids_at(backups@, order@.take(i + 1)) =~= ids_at(backups@, order@.take(i as int)).push(id@));
        }
        r.push(id);
        i += 1;
    }
    r
}

/// A backup larger than 2 GiB is worth a warning.
pub fn is_large_backup(total_size: u64) -> (b: bool)
    ensures
        b == (total_size > 2 * 1024 * 1024 * 1024),
{
    total_size > 2 * 1024 * 1024 * 1024
}

/// The id of a backup: its time stamp, a dash, and the first eight
/// characters of a fresh UUID.
pub fn backup_id(stamp: &str, uuid: &str) -> (id: String)
    requires
        uuid@.len() >= 8,
    ensures
        id@ == stamp@ + seq!['-'] + uuid@.take(8),
{
    let v = crate::text::chars_of(uuid);
    let mut id = str_to_string(stamp);
    push_char(&mut id, '-');
    let head = crate::text::string_of_range(&v, 0, 8);
    push_str(&mut id, head.as_str());
    assert(v@.subrange(0, 8) =~= uuid@.take(8));
    id
}

/// One step of the 64-bit FNV-1a hash.
pub open spec fn fnv_step(h: u64, b: u8) -> u64 {
    vstd::wrapping::u64_specs::wrapping_mul(h ^ (b as u64), 0x100000001b3u64)
}

/// The 64-bit FNV-1a hash of bytes.
pub open spec fn fnv1a(bytes: Seq<u8>) -> u64
    decreases bytes.len(),
{
    if bytes.len() == 0 {
        0xcbf29ce484222325u64
    } else {
        fnv_step(fnv1a(bytes.drop_last()), bytes.last())
    }
}

/// A hexadecimal digit, lower case.
pub open spec fn hex_digit(d: nat) -> char {
    if d < 10 {
        ((d + 48) as u8) as char
    } else {
        ((d - 10 + 97) as u8) as char
    }
}

/// The last `n` hexadecimal digits of `h`.
pub open spec fn hex_digits(h: nat, n: nat) -> Seq<char>
    decreases n,
{
    if n == 0 {
        Seq::empty()
    } else {
        hex_digits(h / 16, (n - 1) as nat).push(hex_digit(h % 16))
    }
}

fn hex_digit_exec(d: u64) -> (c: char)
    requires
        d < 16,
    ensures
        c == hex_digit(d as nat),
{
    let b: u8 = if d < 10 { d as u8 + 48 } else { d as u8 - 10 + 97 };
    b as char
}

fn hex_exec(h: u64, n: usize) -> (s: String)
    ensures
        s@ == hex_digits(h as nat, n as nat),
    decreases n,
{
    if n == 0 {
        String::new()
    } else {
        let mut s = hex_exec(h / 16, n - 1);
        push_char(&mut s, hex_digit_exec(h % 16));
        s
    }
}

/// The identity of a path: "path-v1-" and the FNV-1a hash of its bytes in
/// sixteen hexadecimal digits.
pub open spec fn spec_path_identity(path: Seq<char>) -> Seq<char> {
    "path-v1-"@ + hex_digits(fnv1a(vstd::utf8::encode_utf8(path)) as nat, 16)
}

/// The identity under which a file's backup is stored, from its path.
pub fn path_identity(path: &str) -> (s: String)
    ensures
        s@ == spec_path_identity(path@),
{
    let bytes = path.as_bytes();
    let ghost bs = bytes@;
    let mut hash: u64 = 0xcbf29ce484222325;
    let mut i: usize = 0;
    while i < bytes.len()
        invariant
            i <= bs.len(),
            bs == bytes@,
            hash == fnv1a(bs.take(i as int)),
        decreases bs.len() - i,
    {
        assert(bs.take(i + 1).drop_last() =~= bs.take(i as int));
        hash = (hash ^ bytes[i] as u64).wrapping_mul(0x100000001b3);
        i += 1;
    }
    assert(bs.take(i as int) =~= bs);
    let mut s = str_to_string("path-v1-");
    let h = hex_exec(hash, 16);
    push_str(&mut s, h.as_str());
    s
}

/// The name of a compressed copy: the name with ".gz" appended.
pub fn gz_name(path: &str) -> (s: String)
    ensures
        s@ == path@ + ".gz"@,
{
    let mut s = str_to_string(path);
    push_str(&mut s, ".gz");
    s
}

/// What `std::path::Path::join` makes of `base` and `tail`.
pub uninterp spec fn joined_path(base: Seq<char>, tail: Seq<char>) -> Seq<char>;

/// Whether `base` is a prefix of `p` by whole components, as
/// `std::path::Path::starts_with` decides.
pub uninterp spec fn path_has_prefix(p: Seq<char>, base: Seq<char>) -> bool;

/// Calls `std::path::Path::join`; the result is named `joined_path`. As
/// std documents it (on Unix): an absolute `tail` replaces `base`;
/// otherwise `tail` is appended, after a `/` when `base` does not end in
/// one. What an empty `base` gives is left unsaid.
#[verifier::external_body]
fn path_join(base: &str, tail: &str) -> (r: String)
    ensures
        r@ == joined_path(base@, tail@),
        tail@.len() > 0 && tail@[0] == '/' ==> r@ == tail@,
        !(tail@.len() > 0 && tail@[0] == '/') && base@.len() > 0 && base@.last() != '/' ==> r@ == base@ + seq!['/'] + tail@,
        !(tail@.len() > 0 && tail@[0] == '/') && base@.len() > 0 && base@.last() == '/' ==> r@ == base@ + tail@,
{
    std::path::Path::new(base).join(tail).to_string_lossy().into_owned()
}

/// Calls `std::path::Path::starts_with`; the result is named
/// `path_has_prefix`.
#[verifier::external_body]
fn path_starts_with(p: &str, base: &str) -> (b: bool)
    ensures
        b == path_has_prefix(p@, base@),
{
    std::path::Path::new(p).starts_with(base)
}

/// Whether a path is absolute: on Unix, whether it begins with the root
/// `/` (as `std::path::Path::is_absolute` decides there).
fn path_is_absolute(p: &str) -> (b: bool)
    ensures
        b == (p@.len() > 0 && p@[0] == '/'),
{
    let v = crate::text::chars_of(p);
    v.len() > 0 && v[0] == '/'
}

/// Where the compressed copy of `original` is stored in `backup_dir`.
pub open spec fn spec_backup_path_for_original(backup_dir: Seq<char>, original: Seq<char>) -> Seq<char> {
    joined_path(backup_dir, spec_path_identity(original)) + ".gz"@
}

/// The path of the compressed copy of `original` in `backup_dir`: the
/// directory joined with the path's identity, and ".gz".
pub fn backup_path_for_original(backup_dir: &str, original: &str) -> (s: String)
    ensures
        s@ == spec_backup_path_for_original(backup_dir@, original@),
{
    let id = path_identity(original);
    let joined = path_join(backup_dir, id.as_str());
    gz_name(joined.as_str())
}

/// What a backup path read from metadata resolves to: refused with a `..`
/// part; a relative path outside `backup_dir` is taken inside it; and the
/// result must lie in `backup_dir`.
pub open spec fn spec_metadata_backup_path(backup_dir: Seq<char>, backup_path: Seq<char>) -> Result<
    Seq<char>,
    Seq<char>,
> {
    if exists|i: int| crate::path_policy::dotdot_at(backup_path, i) {
        Err("backup metadata path validation failed for '"@ + backup_path + "': parent traversal is not allowed"@)
    } else {
        let candidate = if (backup_path.len() > 0 && backup_path[0] == '/') || path_has_prefix(
            backup_path,
            backup_dir,
        ) {
            backup_path
        } else {
            joined_path(backup_dir, backup_path)
        };
        if !path_has_prefix(candidate, backup_dir) {
            Err("backup metadata path validation failed for '"@ + candidate
                + "': backup path is outside backup directory"@)
        } else {
            Ok(candidate)
        }
    }
}

/// Resolve the backup path a metadata entry names, within `backup_dir`.
pub fn metadata_backup_path(backup_dir: &str, backup_path: &str) -> (r: Result<String, String>)
    ensures
        match spec_metadata_backup_path(backup_dir@, backup_path@) {
            Ok(p) => r matches Ok(s) && s@ == p,
            Err(m) => r matches Err(s) && s@ == m,
        },
{
    if crate::path_policy::has_parent_part(backup_path) {
        let mut s = str_to_string("backup metadata path validation failed for '");
        push_str(&mut s, backup_path);
        push_str(&mut s, "': parent traversal is not allowed");
        return Err(s);
    }
    let candidate = if path_is_absolute(backup_path) || path_starts_with(backup_path, backup_dir) {
        str_to_string(backup_path)
    } else {
        path_join(backup_dir, backup_path)
    };
    if !path_starts_with(candidate.as_str(), backup_dir) {
        let mut s = str_to_string("backup metadata path validation failed for '");
        push_str(&mut s, candidate.as_str());
        push_str(&mut s, "': backup path is outside backup directory");
        return Err(s);
    }
    Ok(candidate)
}

/// Whether two paths are equal as `std::path::Path` compares them (by
/// their components).
pub uninterp spec fn same_path(a: Seq<char>, b: Seq<char>) -> bool;

/// Calls `==` on two `std::path::Path` values; the result is named
/// `same_path`.
#[verifier::external_body]
fn path_eq(a: &str, b: &str) -> (r: bool)
    ensures
        r == same_path(a@, b@),
{
    std::path::Path::new(a) == std::path::Path::new(b)
}

/// What a backup entry read from metadata is checked to, given its
/// (already validated) original path: its backup path must resolve within
/// `backup_dir`, and its path identity must be there and match the
/// original path, as must the backup path the original gives. The result is
/// the resolved backup path.
pub open spec fn spec_restore_entry(
    backup_dir: Seq<char>,
    original: Seq<char>,
    backup_path: Seq<char>,
    identity: Option<Seq<char>>,
) -> Result<Seq<char>, Seq<char>> {
    match spec_metadata_backup_path(backup_dir, backup_path) {
        Err(m) => Err(m),
        Ok(bp) => match identity {
            None => Err("backup metadata path validation failed for '"@ + original + "': missing path identity"@),
            Some(id) => if id != spec_path_identity(original) || !same_path(
                bp,
                spec_backup_path_for_original(backup_dir, original),
            ) {
                Err("backup metadata path validation failed for '"@ + original
                    + "': backup entry does not match original path"@)
            } else {
                Ok(bp)
            },
        },
    }
}

/// Check a backup entry before restoring it (see `spec_restore_entry`).
pub fn check_restore_entry(backup_dir: &str, original: &str, backup_path: &str, identity: &Option<String>) -> (r: Result<String, String>)
    ensures
        match spec_restore_entry(backup_dir@, original@, backup_path@, match identity { Some(i) => Some(i@), None => None }) {
            Ok(p) => r matches Ok(s) && s@ == p,
            Err(m) => r matches Err(s) && s@ == m,
        },
{
    let bp = match metadata_backup_path(backup_dir, backup_path) {
        Ok(p) => p,
        Err(m) => { return Err(m); }
    };
    match identity {
        None => {
            let mut s = str_to_string("backup metadata path validation failed for '");
            push_str(&mut s, original);
            push_str(&mut s, "': missing path identity");
            Err(s)
        }
        Some(id) => {
            let expected_id = path_identity(original);
            let expected_path = backup_path_for_original(backup_dir, original);
            if !(*id == expected_id) || !path_eq(bp.as_str(), expected_path.as_str()) {
                let mut s = str_to_string("backup metadata path validation failed for '");
                push_str(&mut s, original);
                push_str(&mut s, "': backup entry does not match original path");
                Err(s)
            } else {
                Ok(bp)
            }
        }
    }
}

proof fn lemma_hex_digits_len(h: nat, n: nat)
    ensures
        hex_digits(h, n).len() == n,
    decreases n,
{
    if n > 0 {
        lemma_hex_digits_len(h / 16, (n - 1) as nat);
    }
}

/// Every path's identity has the same length: "path-v1-" and sixteen
/// digits.
pub proof fn lemma_identity_length(path: Seq<char>)
    ensures
        spec_path_identity(path).len() == 24,
{
    reveal_strlit("path-v1-");
    lemma_hex_digits_len(fnv1a(vstd::utf8::encode_utf8(path)) as nat, 16);
}

} // verus!
