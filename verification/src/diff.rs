//! Positional byte diff between two byte sequences.
//!
//! Every index up to the longer sequence's length is compared; a position
//! where exactly one side has a byte is classified as an addition or a
//! deletion, a position where both sides have distinct bytes as a
//! modification. Equal positions produce nothing.

use vstd::prelude::*;
use crate::pairing::{pair_at, pair_count, OptionZip};

verus! {

/// One reported positional difference between an old and a new byte sequence.
#[derive(Clone, Copy, Debug, PartialEq, Eq, Structural)]
pub enum DiffEntry {
    /// The new sequence has byte `new_value` at `index`; the old one ends
    /// before `index`.
    Addition { index: usize, new_value: u8 },
    /// The old sequence has a byte at `index`; the new one ends before
    /// `index`.
    Deletion { index: usize },
    /// Both sequences have a byte at `index`, and the bytes differ.
    Modification { index: usize, old_value: u8, new_value: u8 },
}

/// The position a diff entry reports.
pub open spec fn entry_index(e: DiffEntry) -> int {
    match e {
        DiffEntry::Addition { index, .. } => index as int,
        DiffEntry::Deletion { index } => index as int,
        DiffEntry::Modification { index, .. } => index as int,
    }
}

/// Classification of one aligned pair of optional bytes at position `i`:
/// `None` where the pair is equal (or absent on both sides), otherwise the
/// diff entry the pair gives rise to.
pub open spec fn classify(i: int, o: Option<u8>, n: Option<u8>) -> Option<DiffEntry> {
    match (o, n) {
        (Some(x), Some(y)) => if x == y {
            None
        } else {
            Some(DiffEntry::Modification { index: i as usize, old_value: x, new_value: y })
        },
        (Some(_), None) => Some(DiffEntry::Deletion { index: i as usize }),
        (None, Some(y)) => Some(DiffEntry::Addition { index: i as usize, new_value: y }),
        (None, None) => None,
    }
}

/// The diff entry (if any) produced at index `i` when comparing `old` and
/// `new`.
pub open spec fn entry_at(old: Seq<u8>, new: Seq<u8>, i: int) -> Option<DiffEntry> {
    classify(i, pair_at(old, new, i).0, pair_at(old, new, i).1)
}

/// Whether `old` and `new` differ at index `i`: one side is absent, or both
/// bytes are present and distinct.
pub open spec fn differs_at(old: Seq<u8>, new: Seq<u8>, i: int) -> bool {
    pair_at(old, new, i).0 != pair_at(old, new, i).1
}

/// The diff entries produced at indices below `n`, in increasing index order.
pub open spec fn diff_upto(old: Seq<u8>, new: Seq<u8>, n: int) -> Seq<DiffEntry>
    decreases n,
{
    if n <= 0 {
        Seq::empty()
    } else {
        diff_upto(old, new, n - 1) + match entry_at(old, new, n - 1) {
            Some(e) => seq![e],
            None => Seq::empty(),
        }
    }
}

/// All diff entries between `old` and `new`, in increasing index order.
pub open spec fn diff_entries(old: Seq<u8>, new: Seq<u8>) -> Seq<DiffEntry> {
    diff_upto(old, new, pair_count(old, new) as int)
}

/// Every entry produced at indices below `n` reports a differing index below
/// `n` and is exactly the classification at that index; every differing index
/// below `n` is reported; and the reported indices strictly increase, so no
/// index is reported twice.
proof fn lemma_diff_upto_complete(old: Seq<u8>, new: Seq<u8>, n: int)
    requires
        n <= usize::MAX,
    ensures
        forall|j: int|
            0 <= j < diff_upto(old, new, n).len() ==> {
                &&& 0 <= entry_index(#[trigger] diff_upto(old, new, n)[j]) < n
                &&& Some(diff_upto(old, new, n)[j]) == entry_at(
                    old,
                    new,
                    entry_index(diff_upto(old, new, n)[j]),
                )
            },
        forall|i: int|
            0 <= i < n && #[trigger] differs_at(old, new, i) ==> exists|j: int|
                0 <= j < diff_upto(old, new, n).len() && entry_index(
                    #[trigger] diff_upto(old, new, n)[j],
                ) == i,
        forall|j1: int, j2: int|
            0 <= j1 < j2 < diff_upto(old, new, n).len() ==> entry_index(
                diff_upto(old, new, n)[j1],
            ) < entry_index(diff_upto(old, new, n)[j2]),
    decreases n,
{
    if n <= 0 {
    } else {
        lemma_diff_upto_complete(old, new, n - 1);
        let prev = diff_upto(old, new, n - 1);
        let cur = diff_upto(old, new, n);
        match entry_at(old, new, n - 1) {
            Some(e) => {
                assert(cur == prev + seq![e]);
                assert(entry_index(e) == n - 1);
                assert(cur[cur.len() - 1] == e);
                assert(forall|j: int| 0 <= j < prev.len() ==> cur[j] == prev[j]);
                assert forall|i: int|
                    0 <= i < n && #[trigger] differs_at(old, new, i) implies exists|j: int|
                    0 <= j < cur.len() && entry_index(#[trigger] cur[j]) == i by {
                    if i == n - 1 {
                        assert(entry_index(cur[cur.len() - 1]) == i);
                    } else {
                        let j = choose|j: int|
                            0 <= j < prev.len() && entry_index(#[trigger] prev[j]) == i;
                        assert(entry_index(cur[j]) == i);
                    }
                }
            },
            None => {
                assert(!differs_at(old, new, n - 1));
                assert(cur =~= prev);
            },
        }
    }
}

/// Diff completeness: every index where `old` and `new` differ (including
/// indices past the end of the shorter sequence) is reported by exactly one
/// entry of the diff, that entry is the classification at its index, and no
/// equal index is reported. Uniqueness follows from the strictly increasing
/// order of the reported indices.
pub proof fn lemma_diff_completeness(old: Seq<u8>, new: Seq<u8>)
    requires
        old.len() <= usize::MAX,
        new.len() <= usize::MAX,
    ensures
        forall|j: int|
            0 <= j < diff_entries(old, new).len() ==> {
                &&& differs_at(old, new, entry_index(#[trigger] diff_entries(old, new)[j]))
                &&& Some(diff_entries(old, new)[j]) == entry_at(
                    old,
                    new,
                    entry_index(diff_entries(old, new)[j]),
                )
            },
        forall|i: int|
            #[trigger] differs_at(old, new, i) ==> exists|j: int|
                0 <= j < diff_entries(old, new).len() && entry_index(
                    #[trigger] diff_entries(old, new)[j],
                ) == i,
        forall|j1: int, j2: int|
            0 <= j1 < j2 < diff_entries(old, new).len() ==> entry_index(
                diff_entries(old, new)[j1],
            ) < entry_index(diff_entries(old, new)[j2]),
{
    let n = pair_count(old, new) as int;
    lemma_diff_upto_complete(old, new, n);
    assert forall|j: int| 0 <= j < diff_entries(old, new).len() implies differs_at(
        old,
        new,
        entry_index(#[trigger] diff_entries(old, new)[j]),
    ) by {
        let i = entry_index(diff_entries(old, new)[j]);
        assert(Some(diff_entries(old, new)[j]) == entry_at(old, new, i));
    }
    assert forall|i: int| #[trigger] differs_at(old, new, i) implies exists|j: int|
        0 <= j < diff_entries(old, new).len() && entry_index(
            #[trigger] diff_entries(old, new)[j],
        ) == i by {
        assert(0 <= i < n);
    }
}

/// Classification correctness: a byte present only in the new sequence is an
/// addition carrying that byte; one present only in the old sequence is a
/// deletion; two distinct present bytes are a modification carrying both.
/// Equal pairs, and pairs absent on both sides, produce nothing.
pub proof fn lemma_classification_correctness(i: usize, o: Option<u8>, n: Option<u8>)
    ensures
        o is None && n is Some ==> classify(i as int, o, n) == Some(
            DiffEntry::Addition { index: i, new_value: n->0 },
        ),
        o is Some && n is None ==> classify(i as int, o, n) == Some(
            DiffEntry::Deletion { index: i },
        ),
        o is Some && n is Some && o->0 != n->0 ==> classify(i as int, o, n) == Some(
            DiffEntry::Modification { index: i, old_value: o->0, new_value: n->0 },
        ),
        o == n ==> classify(i as int, o, n) is None,
{
}

/// Idempotence: diffing a sequence against itself produces no entries.
pub proof fn lemma_diff_idempotent(s: Seq<u8>)
    ensures
        diff_entries(s, s) == Seq::<DiffEntry>::empty(),
{
    lemma_diff_upto_self_empty(s, s.len() as int);
}

/// At every index a sequence pairs equally with itself, so no prefix of the
/// diff against itself holds an entry.
proof fn lemma_diff_upto_self_empty(s: Seq<u8>, n: int)
    ensures
        diff_upto(s, s, n) == Seq::<DiffEntry>::empty(),
    decreases n,
{
    if n <= 0 {
    } else {
        lemma_diff_upto_self_empty(s, n - 1);
        assert(entry_at(s, s, n - 1) is None);
        assert(diff_upto(s, s, n) =~= Seq::<DiffEntry>::empty());
    }
}

/// One full diff report: the optional size-change notice (old length, new
/// length), present exactly when the lengths differ, and every classified
/// positional difference in increasing position order.
pub struct DiffReport {
    /// `Some((old_len, new_len))` exactly when the two lengths differ.
    pub size_change: Option<(usize, usize)>,
    /// The classified differences, one per differing position.
    pub entries: Vec<DiffEntry>,
}

/// Classifies one aligned pair of optional bytes at position `index`.
pub fn classify_pair(index: usize, o: Option<u8>, n: Option<u8>) -> (r: Option<DiffEntry>)
    ensures
        r == classify(index as int, o, n),
{
    match (o, n) {
        (Some(x), Some(y)) => if x == y {
            None
        } else {
            Some(DiffEntry::Modification { index, old_value: x, new_value: y })
        },
        (Some(_), None) => Some(DiffEntry::Deletion { index }),
        (None, Some(y)) => Some(DiffEntry::Addition { index, new_value: y }),
        (None, None) => None,
    }
}

/// Compares `old` and `new` position by position and returns the full diff
/// report: the size-change notice exactly when the lengths differ, and one
/// entry per differing position, in increasing position order.
pub fn compute_diff(old: &Vec<u8>, new: &Vec<u8>) -> (r: DiffReport)
    ensures
        r.size_change == if old@.len() == new@.len() {
            None::<(usize, usize)>
        } else {
            (Some((old@.len() as usize, new@.len() as usize)))
        },
        r.entries@ == diff_entries(old@, new@),
{
    let size_change: Option<(usize, usize)> = if old.len() != new.len() {
        Some((old.len(), new.len()))
    } else {
        None
    };

    let limit: usize = if old.len() >= new.len() {
        old.len()
    } else {
        new.len()
    };
    assert(limit == pair_count(old@, new@));

    let mut zip = OptionZip::new(old.clone(), new.clone());
    let mut entries: Vec<DiffEntry> = Vec::new();
    let mut index: usize = 0;
    while index < limit
        invariant
            limit == pair_count(old@, new@),
            index <= limit,
            zip.seq_a() == old@,
            zip.seq_b() == new@,
            zip.position() == index,
            entries@ == diff_upto(old@, new@, index as int),
        decreases limit - index,
    {
        match zip.next() {
            Some((o, n)) => {
                match classify_pair(index, o, n) {
                    Some(e) => {
                        entries.push(e);
                    },
                    None => {},
                }
                proof {
                    assert(entries@ =~= diff_upto(old@, new@, index as int + 1));
                }
                index = index + 1;
            },
            None => {
                proof {
                    assert(false);
                }
            },
        }
    }
    DiffReport { size_change, entries }
}

} // verus!
