use vstd::prelude::*;

use crate::fingerprint::{empty_fingerprint, FingerPrint};

verus! {

/// Number of fingerprint slots in one bucket.
pub const ENTRIES_PER_BUCKET: usize = 4;

/// True exactly when some slot of `s` holds `f`.
pub open spec fn bucket_has(s: Seq<FingerPrint>, f: FingerPrint) -> bool {
    exists|i: int| 0 <= i < s.len() && s[i] == f
}

/// True exactly when some slot of `s` is free, that is, holds the sentinel.
pub open spec fn has_empty_slot(s: Seq<FingerPrint>) -> bool {
    bucket_has(s, empty_fingerprint())
}

/// `new_s` is `old_s` with `f` written into its leftmost free slot.
pub open spec fn placed_first_empty(
    old_s: Seq<FingerPrint>,
    new_s: Seq<FingerPrint>,
    f: FingerPrint,
) -> bool {
    exists|i: int|
        0 <= i < old_s.len() && old_s[i] == empty_fingerprint() && (forall|j: int|
            0 <= j < i ==> old_s[j] != empty_fingerprint()) && new_s == old_s.update(i, f)
}

/// `new_s` is `old_s` with the leftmost slot equal to `f` reset to the
/// sentinel.
pub open spec fn removed_first(
    old_s: Seq<FingerPrint>,
    new_s: Seq<FingerPrint>,
    f: FingerPrint,
) -> bool {
    exists|i: int|
        0 <= i < old_s.len() && old_s[i] == f && (forall|j: int| 0 <= j < i ==> old_s[j] != f)
            && new_s == old_s.update(i, empty_fingerprint())
}

/// How many slots of `s` hold `f`.
pub open spec fn count_fp(s: Seq<FingerPrint>, f: FingerPrint) -> nat
    decreases s.len(),
{
    if s.len() == 0 {
        0
    } else {
        count_fp(s.drop_last(), f) + if s.last() == f {
            1nat
        } else {
            0nat
        }
    }
}

/// A fingerprint occurs in `s` exactly when its count is positive.
pub proof fn lemma_count_pos(s: Seq<FingerPrint>, f: FingerPrint)
    ensures
        count_fp(s, f) > 0 <==> bucket_has(s, f),
    decreases s.len(),
{
    if s.len() > 0 {
        lemma_count_pos(s.drop_last(), f);
        if s.last() == f {
            assert(s[s.len() - 1] == f);
        }
        if bucket_has(s, f) {
            let i = choose|i: int| 0 <= i < s.len() && s[i] == f;
            if i < s.len() - 1 {
                assert(s.drop_last()[i] == f);
            }
        }
        if bucket_has(s.drop_last(), f) {
            let i = choose|i: int| 0 <= i < s.drop_last().len() && s.drop_last()[i] == f;
            assert(s[i] == f);
        }
    }
}

/// Updating one slot moves the count by the difference between what leaves
/// the slot and what enters it.
pub proof fn lemma_count_update(s: Seq<FingerPrint>, i: int, g: FingerPrint, f: FingerPrint)
    requires
        0 <= i < s.len(),
    ensures
        count_fp(s.update(i, g), f) == count_fp(s, f) - (if s[i] == f {
            1int
        } else {
            0int
        }) + (if g == f {
            1int
        } else {
            0int
        }),
    decreases s.len(),
{
    let t = s.update(i, g);
    if i == s.len() - 1 {
        assert(t.drop_last() =~= s.drop_last());
    } else {
        assert(t.drop_last() =~= s.drop_last().update(i, g));
        assert(t.last() == s.last());
        lemma_count_update(s.drop_last(), i, g, f);
        assert(s.drop_last()[i] == s[i]);
    }
}

/// One when the two fingerprints agree, zero otherwise.
pub open spec fn match_weight(a: FingerPrint, f: FingerPrint) -> nat {
    if a == f {
        1
    } else {
        0
    }
}

/// The occupancy weight of one slot: one for a stored fingerprint, zero for
/// the sentinel.
pub open spec fn slot_weight(f: FingerPrint) -> nat {
    if f == empty_fingerprint() {
        0
    } else {
        1
    }
}

/// How many slots of `s` are occupied, that is, hold a stored fingerprint.
pub open spec fn occupied_slots(s: Seq<FingerPrint>) -> nat
    decreases s.len(),
{
    if s.len() == 0 {
        0
    } else {
        occupied_slots(s.drop_last()) + slot_weight(s.last())
    }
}

/// Updating one slot moves the occupancy by the difference of the weights of
/// what leaves the slot and what enters it.
pub proof fn lemma_occupied_update(s: Seq<FingerPrint>, i: int, g: FingerPrint)
    requires
        0 <= i < s.len(),
    ensures
        occupied_slots(s.update(i, g)) + slot_weight(s[i]) == occupied_slots(s) + slot_weight(g),
    decreases s.len(),
{
    let t = s.update(i, g);
    if i == s.len() - 1 {
        assert(t.drop_last() =~= s.drop_last());
    } else {
        assert(t.drop_last() =~= s.drop_last().update(i, g));
        assert(t.last() == s.last());
        lemma_occupied_update(s.drop_last(), i, g);
        assert(s.drop_last()[i] == s[i]);
    }
}

/// A fixed-capacity array of fingerprint slots. A free slot holds the
/// all-zero sentinel; order within a bucket carries no meaning.
pub struct Bucket {
    pub entries: Vec<FingerPrint>,
}

impl View for Bucket {
    type V = Seq<FingerPrint>;

    open spec fn view(&self) -> Seq<FingerPrint> {
        self.entries@
    }
}

impl Bucket {
    /// A bucket always holds exactly `ENTRIES_PER_BUCKET` slots.
    pub open spec fn wf(&self) -> bool {
        self.entries.len() == ENTRIES_PER_BUCKET
    }

    /// A fresh bucket: every slot free.
    pub fn new() -> (r: Bucket)
        ensures
            r.wf(),
            forall|i: int| 0 <= i < r@.len() ==> r@[i] == empty_fingerprint(),
    {
        let mut entries: Vec<FingerPrint> = Vec::new();
        let mut i: usize = 0;
        while i < ENTRIES_PER_BUCKET
            invariant
                i <= ENTRIES_PER_BUCKET,
                entries.len() == i,
                forall|j: int| 0 <= j < i ==> entries@[j] == empty_fingerprint(),
            decreases ENTRIES_PER_BUCKET - i,
        {
            entries.push(FingerPrint::empty());
            i = i + 1;
        }
        Bucket { entries }
    }

    /// Scans the slots left to right and stores `fp` in the first free one.
    /// Succeeds exactly when a free slot exists; on failure the bucket is
    /// unchanged.
    pub fn put(&mut self, fp: FingerPrint) -> (r: bool)
        requires
            old(self).wf(),
        ensures
            final(self).wf(),
            r == has_empty_slot(old(self)@),
            r ==> placed_first_empty(old(self)@, final(self)@, fp),
            !r ==> final(self)@ == old(self)@,
    {
        let mut i: usize = 0;
        while i < ENTRIES_PER_BUCKET
            invariant
                i <= ENTRIES_PER_BUCKET,
                self.wf(),
                self@ == old(self)@,
                forall|j: int| 0 <= j < i ==> self@[j] != empty_fingerprint(),
            decreases ENTRIES_PER_BUCKET - i,
        {
            let e = self.entries[i];
            if e.is_empty() {
                self.entries.set(i, fp);
                proof {
                    assert(old(self)@[i as int] == empty_fingerprint());
                    assert(self@ == old(self)@.update(i as int, fp));
                }
                return true;
            }
            i = i + 1;
        }
        false
    }

    /// True exactly when some slot holds `fp`. No mutation.
    pub fn get(&self, fp: &FingerPrint) -> (r: bool)
        requires
            self.wf(),
        ensures
            r == bucket_has(self@, *fp),
    {
        let mut i: usize = 0;
        while i < ENTRIES_PER_BUCKET
            invariant
                i <= ENTRIES_PER_BUCKET,
                self.wf(),
                forall|j: int| 0 <= j < i ==> self@[j] != *fp,
            decreases ENTRIES_PER_BUCKET - i,
        {
            let e = self.entries[i];
            if e == *fp {
                return true;
            }
            i = i + 1;
        }
        false
    }

    /// Resets the leftmost slot equal to `fp` to the sentinel. Succeeds
    /// exactly when such a slot exists; removes at most one occurrence; on
    /// failure the bucket is unchanged.
    pub fn remove(&mut self, fp: &FingerPrint) -> (r: bool)
        requires
            old(self).wf(),
        ensures
            final(self).wf(),
            r == bucket_has(old(self)@, *fp),
            r ==> removed_first(old(self)@, final(self)@, *fp),
            !r ==> final(self)@ == old(self)@,
    {
        let mut i: usize = 0;
        while i < ENTRIES_PER_BUCKET
            invariant
                i <= ENTRIES_PER_BUCKET,
                self.wf(),
                self@ == old(self)@,
                forall|j: int| 0 <= j < i ==> self@[j] != *fp,
            decreases ENTRIES_PER_BUCKET - i,
        {
            let e = self.entries[i];
            if e == *fp {
                self.entries.set(i, FingerPrint::empty());
                proof {
                    assert(old(self)@[i as int] == *fp);
                    assert(self@ == old(self)@.update(i as int, empty_fingerprint()));
                }
                return true;
            }
            i = i + 1;
        }
        false
    }

    /// Writes `fp` into the given slot and hands back the previous occupant:
    /// one step of cuckoo relocation.
    pub(crate) fn swap_slot(&mut self, idx: usize, fp: FingerPrint) -> (r: FingerPrint)
        requires
            old(self).wf(),
            idx < ENTRIES_PER_BUCKET,
        ensures
            final(self).wf(),
            r == old(self)@[idx as int],
            final(self)@ == old(self)@.update(idx as int, fp),
    {
        let prev = self.entries[idx];
        self.entries.set(idx, fp);
        prev
    }
}

} // verus!
