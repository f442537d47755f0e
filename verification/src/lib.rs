use vstd::prelude::*;

pub mod bucket;
pub mod fingerprint;
pub mod util;

pub use bucket::Bucket;
pub use fingerprint::FingerPrint;
pub use util::{get_hash, HashKeys};

use crate::bucket::{
    bucket_has, count_fp, has_empty_slot, lemma_count_pos, lemma_count_update,
    lemma_occupied_update, match_weight, occupied_slots, placed_first_empty, removed_first,
    slot_weight, ENTRIES_PER_BUCKET,
};
use crate::fingerprint::{empty_fingerprint, fingerprint_of, fp_hash};
use crate::util::{random_below, random_bool, random_u64};
use vstd::arithmetic::div_mod::lemma_mod_bound;

verus! {

/// Default number of buckets of a filter.
pub const BUCKETS_SIZE: usize = 100000;

/// How many relocation attempts an insert may spend before reporting the
/// filter full.
pub const MAX_NUM_KICKS: u32 = 500;

/// The one failure an operation can report: an insert exhausted its
/// relocation budget without finding room. The filter stays consistent and
/// usable afterwards.
#[derive(Clone, Copy, PartialEq, Eq, Structural, Debug)]
pub enum FilterError {
    FilterFull,
}

/// The primary candidate index of an item: its keyed hash, before reduction
/// modulo the bucket count. Indices are reduced at every bucket access, never
/// stored reduced.
pub open spec fn index1_of(hash_fn: HashKeys, item: Seq<u8>) -> usize {
    crate::util::sip_of(hash_fn.k0, hash_fn.k1, item) as usize
}

/// The alternate candidate index: the given index XOR the hash of the
/// fingerprint, so the alternate is recoverable from a fingerprint alone.
pub open spec fn alt_index_of(hash_fn: HashKeys, index: usize, f: FingerPrint) -> usize {
    index ^ (fp_hash(hash_fn, f) as usize)
}

/// An approximate membership filter: an array of fixed-capacity buckets of
/// fingerprints, a per-instance keyed hash, a running item count, and a
/// bounded relocation budget for inserts.
pub struct CuckooFilter {
    buckets: Vec<Bucket>,
    hash_fn: HashKeys,
    size: usize,
    capacity: usize,
    max_num_kicks: u32,
}

impl CuckooFilter {
    /// The keys of this filter's hash function.
    pub closed spec fn hash_keys(&self) -> HashKeys {
        self.hash_fn
    }

    /// How many buckets the filter owns.
    pub closed spec fn nbuckets(&self) -> nat {
        self.buckets@.len()
    }

    /// The slots of bucket `b`.
    pub closed spec fn bucket_view(&self, b: int) -> Seq<FingerPrint> {
        self.buckets@[b]@
    }

    /// The running count of stored items.
    pub closed spec fn size_spec(&self) -> nat {
        self.size as nat
    }

    /// The total slot capacity: bucket count times slots per bucket.
    pub closed spec fn capacity_spec(&self) -> nat {
        self.capacity as nat
    }

    /// The relocation budget of one insert.
    pub closed spec fn kick_budget(&self) -> u32 {
        self.max_num_kicks
    }

    /// Well-formedness: at least one bucket, every bucket holds exactly
    /// `ENTRIES_PER_BUCKET` slots, and the stored capacity is the derived
    /// one.
    pub closed spec fn wf(&self) -> bool {
        &&& self.buckets@.len() > 0
        &&& (forall|b: int|
            0 <= b < self.buckets@.len() ==> (#[trigger] self.buckets@[b]).wf())
        &&& self.capacity == self.buckets@.len() * ENTRIES_PER_BUCKET
    }

    /// A well-formed filter has buckets of exactly `ENTRIES_PER_BUCKET`
    /// slots.
    pub proof fn lemma_wf_bucket_len(&self, b: int)
        requires
            self.wf(),
            0 <= b < self.nbuckets(),
        ensures
            self.bucket_view(b).len() == ENTRIES_PER_BUCKET,
            self.capacity_spec() == self.nbuckets() * ENTRIES_PER_BUCKET,
    {
        assert(self.buckets@[b].wf());
    }

    /// The candidate index reduced for an access: `index` modulo the bucket
    /// count.
    pub open spec fn reduced(&self, index: usize) -> int {
        index as int % self.nbuckets() as int
    }

    /// The first candidate bucket of an item.
    pub open spec fn cand1(&self, item: Seq<u8>) -> int {
        self.reduced(index1_of(self.hash_keys(), item))
    }

    /// The second candidate bucket of an item.
    pub open spec fn cand2(&self, item: Seq<u8>) -> int {
        self.reduced(
            alt_index_of(
                self.hash_keys(),
                index1_of(self.hash_keys(), item),
                fingerprint_of(self.hash_keys(), item),
            ),
        )
    }

    /// Whether the filter currently reports `item` present: its fingerprint
    /// sits in one of its two candidate buckets.
    pub open spec fn lookup_spec(&self, item: Seq<u8>) -> bool {
        ||| bucket_has(self.bucket_view(self.cand1(item)), fingerprint_of(self.hash_keys(), item))
        ||| bucket_has(self.bucket_view(self.cand2(item)), fingerprint_of(self.hash_keys(), item))
    }

    /// The parts of a filter that no operation after construction may change.
    pub open spec fn same_shape(pre: CuckooFilter, post: CuckooFilter) -> bool {
        &&& post.hash_keys() == pre.hash_keys()
        &&& post.nbuckets() == pre.nbuckets()
        &&& post.capacity_spec() == pre.capacity_spec()
        &&& post.kick_budget() == pre.kick_budget()
    }

    /// Occupied slots among the first `n` buckets.
    pub open spec fn occ_prefix(&self, n: int) -> nat
        decreases n,
    {
        if n <= 0 {
            0
        } else {
            self.occ_prefix(n - 1) + occupied_slots(self.bucket_view(n - 1))
        }
    }

    /// How many slots of the whole table hold a stored fingerprint.
    pub open spec fn occupancy(&self) -> nat {
        self.occ_prefix(self.nbuckets() as int)
    }

    /// Copies of `f` among the first `n` buckets.
    pub open spec fn fp_prefix(&self, f: FingerPrint, n: int) -> nat
        decreases n,
    {
        if n <= 0 {
            0
        } else {
            self.fp_prefix(f, n - 1) + count_fp(self.bucket_view(n - 1), f)
        }
    }

    /// Copies of `f` across the whole table, wherever they sit.
    pub open spec fn table_count(&self, f: FingerPrint) -> nat {
        self.fp_prefix(f, self.nbuckets() as int)
    }
}

/// Two filters whose first `n` buckets agree slot for slot occupy them
/// equally.
proof fn lemma_occ_prefix_congruence(a: CuckooFilter, b: CuckooFilter, n: int)
    requires
        forall|j: int| 0 <= j < n ==> a.bucket_view(j) == b.bucket_view(j),
    ensures
        a.occ_prefix(n) == b.occ_prefix(n),
    decreases n,
{
    if n > 0 {
        lemma_occ_prefix_congruence(a, b, n - 1);
    }
}

/// A change confined to bucket `j` moves the occupancy by that one bucket's
/// difference.
proof fn lemma_occ_prefix_one_change(pre: CuckooFilter, post: CuckooFilter, j: int, n: int)
    requires
        0 <= j,
        forall|b: int| 0 <= b < n && b != j ==> post.bucket_view(b) == pre.bucket_view(b),
    ensures
        j < n ==> post.occ_prefix(n) + occupied_slots(pre.bucket_view(j)) == pre.occ_prefix(n)
            + occupied_slots(post.bucket_view(j)),
        j >= n ==> post.occ_prefix(n) == pre.occ_prefix(n),
    decreases n,
{
    if n > 0 {
        lemma_occ_prefix_one_change(pre, post, j, n - 1);
    }
}

/// Filters with the same buckets slot for slot occupy them equally.
proof fn lemma_occ_same_views(pre: CuckooFilter, post: CuckooFilter)
    requires
        pre.nbuckets() == post.nbuckets(),
        forall|b: int| 0 <= b < pre.nbuckets() ==> post.bucket_view(b) == pre.bucket_view(b),
    ensures
        post.occupancy() == pre.occupancy(),
{
    lemma_occ_prefix_congruence(pre, post, pre.nbuckets() as int);
}

/// Occupancy effect of writing `g` over slot `i` of bucket `j` while every
/// other bucket stays put.
proof fn lemma_occ_bucket_update(
    pre: CuckooFilter,
    post: CuckooFilter,
    j: int,
    i: int,
    g: FingerPrint,
)
    requires
        0 <= j < pre.nbuckets(),
        pre.nbuckets() == post.nbuckets(),
        0 <= i < pre.bucket_view(j).len(),
        post.bucket_view(j) == pre.bucket_view(j).update(i, g),
        forall|b: int|
            0 <= b < pre.nbuckets() && b != j ==> post.bucket_view(b) == pre.bucket_view(b),
    ensures
        post.occupancy() + slot_weight(pre.bucket_view(j)[i]) == pre.occupancy() + slot_weight(g),
{
    lemma_occupied_update(pre.bucket_view(j), i, g);
    lemma_occ_prefix_one_change(pre, post, j, pre.nbuckets() as int);
}

/// Occupancy effect of a placement into the first free slot of bucket `j`.
proof fn lemma_occ_placed(pre: CuckooFilter, post: CuckooFilter, j: int, g: FingerPrint)
    requires
        0 <= j < pre.nbuckets(),
        pre.nbuckets() == post.nbuckets(),
        placed_first_empty(pre.bucket_view(j), post.bucket_view(j), g),
        forall|b: int|
            0 <= b < pre.nbuckets() && b != j ==> post.bucket_view(b) == pre.bucket_view(b),
    ensures
        post.occupancy() == pre.occupancy() + slot_weight(g),
{
    let i = choose|i: int|
        0 <= i < pre.bucket_view(j).len() && pre.bucket_view(j)[i] == empty_fingerprint() && (
        forall|jj: int| 0 <= jj < i ==> pre.bucket_view(j)[jj] != empty_fingerprint())
            && post.bucket_view(j) == pre.bucket_view(j).update(i, g);
    lemma_occ_bucket_update(pre, post, j, i, g);
}

/// Two filters whose first `n` buckets agree slot for slot hold `f` equally
/// often there.
proof fn lemma_fp_prefix_congruence(a: CuckooFilter, b: CuckooFilter, f: FingerPrint, n: int)
    requires
        forall|j: int| 0 <= j < n ==> a.bucket_view(j) == b.bucket_view(j),
    ensures
        a.fp_prefix(f, n) == b.fp_prefix(f, n),
    decreases n,
{
    if n > 0 {
        lemma_fp_prefix_congruence(a, b, f, n - 1);
    }
}

/// A change confined to bucket `j` moves the copies of `f` by that one
/// bucket's difference.
proof fn lemma_fp_prefix_one_change(
    pre: CuckooFilter,
    post: CuckooFilter,
    f: FingerPrint,
    j: int,
    n: int,
)
    requires
        0 <= j,
        forall|b: int| 0 <= b < n && b != j ==> post.bucket_view(b) == pre.bucket_view(b),
    ensures
        j < n ==> post.fp_prefix(f, n) + count_fp(pre.bucket_view(j), f) == pre.fp_prefix(f, n)
            + count_fp(post.bucket_view(j), f),
        j >= n ==> post.fp_prefix(f, n) == pre.fp_prefix(f, n),
    decreases n,
{
    if n > 0 {
        lemma_fp_prefix_one_change(pre, post, f, j, n - 1);
    }
}

/// Filters with the same buckets slot for slot hold every fingerprint
/// equally often.
proof fn lemma_tc_same_views(pre: CuckooFilter, post: CuckooFilter, f: FingerPrint)
    requires
        pre.nbuckets() == post.nbuckets(),
        forall|b: int| 0 <= b < pre.nbuckets() ==> post.bucket_view(b) == pre.bucket_view(b),
    ensures
        post.table_count(f) == pre.table_count(f),
{
    lemma_fp_prefix_congruence(pre, post, f, pre.nbuckets() as int);
}

/// Effect on the copies of `f` of writing `g` over slot `i` of bucket `j`
/// while every other bucket stays put.
proof fn lemma_tc_bucket_update(
    pre: CuckooFilter,
    post: CuckooFilter,
    j: int,
    i: int,
    g: FingerPrint,
    f: FingerPrint,
)
    requires
        0 <= j < pre.nbuckets(),
        pre.nbuckets() == post.nbuckets(),
        0 <= i < pre.bucket_view(j).len(),
        post.bucket_view(j) == pre.bucket_view(j).update(i, g),
        forall|b: int|
            0 <= b < pre.nbuckets() && b != j ==> post.bucket_view(b) == pre.bucket_view(b),
    ensures
        post.table_count(f) + match_weight(pre.bucket_view(j)[i], f) == pre.table_count(f)
            + match_weight(g, f),
{
    lemma_count_update(pre.bucket_view(j), i, g, f);
    lemma_fp_prefix_one_change(pre, post, f, j, pre.nbuckets() as int);
}

/// Effect on the copies of `f` of a placement of `g` into the first free
/// slot of bucket `j`.
proof fn lemma_tc_placed(
    pre: CuckooFilter,
    post: CuckooFilter,
    j: int,
    g: FingerPrint,
    f: FingerPrint,
)
    requires
        0 <= j < pre.nbuckets(),
        pre.nbuckets() == post.nbuckets(),
        placed_first_empty(pre.bucket_view(j), post.bucket_view(j), g),
        forall|b: int|
            0 <= b < pre.nbuckets() && b != j ==> post.bucket_view(b) == pre.bucket_view(b),
    ensures
        post.table_count(f) + match_weight(empty_fingerprint(), f) == pre.table_count(f)
            + match_weight(g, f),
{
    let i = choose|i: int|
        0 <= i < pre.bucket_view(j).len() && pre.bucket_view(j)[i] == empty_fingerprint() && (
        forall|jj: int| 0 <= jj < i ==> pre.bucket_view(j)[jj] != empty_fingerprint())
            && post.bucket_view(j) == pre.bucket_view(j).update(i, g);
    lemma_tc_bucket_update(pre, post, j, i, g, f);
}

/// Effect on the copies of `f` of resetting the first slot of bucket `j`
/// that holds `f`.
proof fn lemma_tc_removed(pre: CuckooFilter, post: CuckooFilter, j: int, f: FingerPrint)
    requires
        0 <= j < pre.nbuckets(),
        pre.nbuckets() == post.nbuckets(),
        removed_first(pre.bucket_view(j), post.bucket_view(j), f),
        forall|b: int|
            0 <= b < pre.nbuckets() && b != j ==> post.bucket_view(b) == pre.bucket_view(b),
    ensures
        post.table_count(f) + 1 == pre.table_count(f) + match_weight(empty_fingerprint(), f),
{
    let i = choose|i: int|
        0 <= i < pre.bucket_view(j).len() && pre.bucket_view(j)[i] == f && (forall|jj: int|
            0 <= jj < i ==> pre.bucket_view(j)[jj] != f) && post.bucket_view(j)
            == pre.bucket_view(j).update(i, empty_fingerprint());
    lemma_tc_bucket_update(pre, post, j, i, empty_fingerprint(), f);
}

/// Occupancy effect of resetting the first slot of bucket `j` that holds
/// `g`.
proof fn lemma_occ_removed(pre: CuckooFilter, post: CuckooFilter, j: int, g: FingerPrint)
    requires
        0 <= j < pre.nbuckets(),
        pre.nbuckets() == post.nbuckets(),
        removed_first(pre.bucket_view(j), post.bucket_view(j), g),
        forall|b: int|
            0 <= b < pre.nbuckets() && b != j ==> post.bucket_view(b) == pre.bucket_view(b),
    ensures
        post.occupancy() + slot_weight(g) == pre.occupancy(),
{
    let i = choose|i: int|
        0 <= i < pre.bucket_view(j).len() && pre.bucket_view(j)[i] == g && (forall|jj: int|
            0 <= jj < i ==> pre.bucket_view(j)[jj] != g) && post.bucket_view(j)
            == pre.bucket_view(j).update(i, empty_fingerprint());
    lemma_occ_bucket_update(pre, post, j, i, empty_fingerprint());
}

/// The exact effect of an insert that found a free slot in a candidate
/// bucket: the fingerprint went into the first candidate's leftmost free
/// slot, or into the second's when the first was full; every other bucket is
/// untouched and the size grew by one.
pub open spec fn insert_direct_post(pre: CuckooFilter, post: CuckooFilter, item: Seq<u8>) -> bool {
    let f = fingerprint_of(pre.hash_keys(), item);
    let j1 = pre.cand1(item);
    let j2 = pre.cand2(item);
    &&& post.wf()
    &&& CuckooFilter::same_shape(pre, post)
    &&& post.size_spec() == pre.size_spec() + 1
    &&& (has_empty_slot(pre.bucket_view(j1)) || has_empty_slot(pre.bucket_view(j2)))
    &&& (has_empty_slot(pre.bucket_view(j1)) ==> placed_first_empty(
        pre.bucket_view(j1),
        post.bucket_view(j1),
        f,
    ) && (forall|b: int|
        0 <= b < pre.nbuckets() && b != j1 ==> post.bucket_view(b) == pre.bucket_view(b)))
    &&& (!has_empty_slot(pre.bucket_view(j1)) && has_empty_slot(pre.bucket_view(j2))
        ==> placed_first_empty(pre.bucket_view(j2), post.bucket_view(j2), f) && (forall|b: int|
        0 <= b < pre.nbuckets() && b != j2 ==> post.bucket_view(b) == pre.bucket_view(b)))
}

/// What every insert establishes: the shape is kept; success is reported as
/// `Ok(true)` and grows the size by exactly one; exhaustion is reported as
/// the full-error and leaves the size unchanged; whenever a candidate bucket
/// of the item had a free slot, the insert succeeded and placed the
/// fingerprint there exactly. Success occupies exactly one more slot (none
/// for the sentinel blind spot); a failed insert only shuffles stored
/// fingerprints, except that a failing sentinel-fingerprint item may blank
/// one slot on its first kick.
pub open spec fn insert_post(
    pre: CuckooFilter,
    post: CuckooFilter,
    item: Seq<u8>,
    r: Result<bool, FilterError>,
) -> bool {
    let f = fingerprint_of(pre.hash_keys(), item);
    &&& post.wf()
    &&& CuckooFilter::same_shape(pre, post)
    &&& (r matches Ok(b) ==> b == true && post.size_spec() == pre.size_spec() + 1)
    &&& (r matches Err(e) ==> e == FilterError::FilterFull && post.size_spec() == pre.size_spec())
    &&& ((has_empty_slot(pre.bucket_view(pre.cand1(item))) || has_empty_slot(
        pre.bucket_view(pre.cand2(item)),
    )) ==> r == Ok::<bool, FilterError>(true) && insert_direct_post(pre, post, item))
    &&& (r matches Ok(b) ==> post.occupancy() == pre.occupancy() + slot_weight(f)
        && post.table_count(f) == pre.table_count(f) + slot_weight(f))
    &&& (r matches Err(e) ==> post.occupancy() <= pre.occupancy() && post.occupancy() + 1
        >= pre.occupancy() + slot_weight(f) && pre.table_count(f) <= post.table_count(f)
        <= pre.table_count(f) + 1)
}

/// What every delete establishes: the shape is kept; a removal is reported
/// exactly when the item's fingerprint sat in one of its candidate buckets;
/// the leftmost occurrence in the first candidate holding it is reset, one
/// occurrence at most; a reported removal lowers the size by one, saturating
/// at zero, and frees exactly one slot (none for the sentinel blind spot);
/// without one, nothing changes.
pub open spec fn delete_post(
    pre: CuckooFilter,
    post: CuckooFilter,
    item: Seq<u8>,
    r: bool,
) -> bool {
    let f = fingerprint_of(pre.hash_keys(), item);
    let j1 = pre.cand1(item);
    let j2 = pre.cand2(item);
    &&& post.wf()
    &&& CuckooFilter::same_shape(pre, post)
    &&& r == pre.lookup_spec(item)
    &&& (r ==> post.size_spec() == if pre.size_spec() > 0 {
        (pre.size_spec() - 1) as nat
    } else {
        0nat
    })
    &&& (!r ==> post.size_spec() == pre.size_spec() && (forall|b: int|
        0 <= b < pre.nbuckets() ==> post.bucket_view(b) == pre.bucket_view(b)))
    &&& (bucket_has(pre.bucket_view(j1), f) ==> removed_first(
        pre.bucket_view(j1),
        post.bucket_view(j1),
        f,
    ) && (forall|b: int|
        0 <= b < pre.nbuckets() && b != j1 ==> post.bucket_view(b) == pre.bucket_view(b)))
    &&& (!bucket_has(pre.bucket_view(j1), f) && bucket_has(pre.bucket_view(j2), f)
        ==> removed_first(pre.bucket_view(j2), post.bucket_view(j2), f) && (forall|b: int|
        0 <= b < pre.nbuckets() && b != j2 ==> post.bucket_view(b) == pre.bucket_view(b)))
    &&& (r ==> post.occupancy() + slot_weight(f) == pre.occupancy() && post.table_count(f)
        + slot_weight(f) == pre.table_count(f))
    &&& (!r ==> post.occupancy() == pre.occupancy() && post.table_count(f) == pre.table_count(f))
}

impl CuckooFilter {
    /// A filter with the default bucket count and fresh random hash keys.
    pub fn new() -> (r: CuckooFilter)
        ensures
            r.wf(),
            r.nbuckets() == BUCKETS_SIZE,
            r.size_spec() == 0,
            r.capacity_spec() == BUCKETS_SIZE * ENTRIES_PER_BUCKET,
            r.kick_budget() == MAX_NUM_KICKS,
            forall|b: int, s: int|
                0 <= b < r.nbuckets() && 0 <= s < ENTRIES_PER_BUCKET ==> r.bucket_view(b)[s]
                    == empty_fingerprint(),
    {
        CuckooFilter::with_bucket_size(BUCKETS_SIZE)
    }

    /// A filter with an explicit bucket count and fresh random hash keys.
    pub fn with_bucket_size(size: usize) -> (r: CuckooFilter)
        requires
            0 < size,
            size * ENTRIES_PER_BUCKET <= usize::MAX,
        ensures
            r.wf(),
            r.nbuckets() == size,
            r.size_spec() == 0,
            r.capacity_spec() == size * ENTRIES_PER_BUCKET,
            r.kick_budget() == MAX_NUM_KICKS,
            forall|b: int, s: int|
                0 <= b < r.nbuckets() && 0 <= s < ENTRIES_PER_BUCKET ==> r.bucket_view(b)[s]
                    == empty_fingerprint(),
    {
        let hash_fn = CuckooFilter::sip_new();
        let mut buckets: Vec<Bucket> = Vec::new();
        let mut i: usize = 0;
        while i < size
            invariant
                i <= size,
                buckets.len() == i,
                forall|b: int| 0 <= b < i ==> (#[trigger] buckets@[b]).wf(),
                forall|b: int, s: int|
                    0 <= b < i && 0 <= s < ENTRIES_PER_BUCKET ==> buckets@[b]@[s]
                        == empty_fingerprint(),
            decreases size - i,
        {
            buckets.push(Bucket::new());
            i = i + 1;
        }
        CuckooFilter {
            buckets,
            hash_fn,
            size: 0,
            capacity: size * ENTRIES_PER_BUCKET,
            max_num_kicks: MAX_NUM_KICKS,
        }
    }

    /// Inserts an item: place its fingerprint in a candidate bucket, or
    /// relocate existing fingerprints for up to the kick budget; report the
    /// filter full when the budget runs out. A failed insert may shuffle
    /// stored fingerprints between buckets but keeps the filter well-formed
    /// and its occupancy intact.
    pub fn insert(&mut self, item: &[u8]) -> (r: Result<bool, FilterError>)
        requires
            old(self).wf(),
            old(self).size_spec() < usize::MAX,
        ensures
            insert_post(*old(self), *final(self), item@, r),
    {
        let mut fp = FingerPrint::gen_finger_print(item, &self.hash_fn);
        let i1 = self.get_index(item);
        let i2 = self.get_alt_index(i1, &fp);
        if self.put(i1, fp) {
            self.size = self.size + 1;
            proof {
                lemma_mod_bound(i1 as int, old(self).nbuckets() as int);
                lemma_occ_placed(*old(self), *self, old(self).reduced(i1), fp);
                lemma_tc_placed(*old(self), *self, old(self).reduced(i1), fp, fp);
            }
            return Ok(true);
        }
        let ghost mid1 = *self;
        if self.put(i2, fp) {
            self.size = self.size + 1;
            proof {
                lemma_mod_bound(i2 as int, old(self).nbuckets() as int);
                lemma_occ_same_views(*old(self), mid1);
                lemma_tc_same_views(*old(self), mid1, fp);
                lemma_occ_placed(mid1, *self, mid1.reduced(i2), fp);
                lemma_tc_placed(mid1, *self, mid1.reduced(i2), fp, fp);
            }
            return Ok(true);
        }
        let mut i = self.choose_random_index(i1, i2);
        let len = self.buckets.len();
        proof {
            lemma_occ_same_views(*old(self), mid1);
            lemma_occ_same_views(mid1, *self);
            lemma_tc_same_views(*old(self), mid1, fp);
            lemma_tc_same_views(mid1, *self, fp);
        }
        let mut k: u32 = 0;
        while k < self.max_num_kicks
            invariant
                self.wf(),
                CuckooFilter::same_shape(*old(self), *self),
                self.size_spec() == old(self).size_spec(),
                self.size_spec() < usize::MAX,
                len == self.nbuckets(),
                !has_empty_slot(old(self).bucket_view(old(self).cand1(item@))),
                !has_empty_slot(old(self).bucket_view(old(self).cand2(item@))),
                self.occupancy() + slot_weight(fp) == old(self).occupancy() + slot_weight(
                    fingerprint_of(old(self).hash_keys(), item@),
                ),
                self.table_count(fingerprint_of(old(self).hash_keys(), item@)) + match_weight(
                    fp,
                    fingerprint_of(old(self).hash_keys(), item@),
                ) == old(self).table_count(fingerprint_of(old(self).hash_keys(), item@)) + 1,
                fp == fingerprint_of(old(self).hash_keys(), item@) || fp
                    != empty_fingerprint(),
                !has_empty_slot(self.bucket_view(self.reduced(i))),
            decreases self.max_num_kicks - k,
        {
            let idx = i % len;
            let slot = random_below(ENTRIES_PER_BUCKET);
            proof {
                lemma_mod_bound(i as int, len as int);
                assert(self.buckets@[idx as int].wf());
            }
            let ghost pre_swap = *self;
            let b = &mut self.buckets[idx];
            let next_fp = b.swap_slot(slot, fp);
            proof {
                assert(forall|b2: int|
                    0 <= b2 < self.nbuckets() ==> (#[trigger] self.buckets@[b2]).wf());
                assert(pre_swap.bucket_view(idx as int)[slot as int] != empty_fingerprint());
                lemma_occ_bucket_update(pre_swap, *self, idx as int, slot as int, fp);
                lemma_tc_bucket_update(
                    pre_swap,
                    *self,
                    idx as int,
                    slot as int,
                    fp,
                    fingerprint_of(old(self).hash_keys(), item@),
                );
            }
            i = self.get_alt_index(i, &next_fp);
            let ghost pre_put = *self;
            if self.put(i, next_fp) {
                self.size = self.size + 1;
                proof {
                    lemma_mod_bound(i as int, len as int);
                    lemma_occ_placed(pre_put, *self, pre_put.reduced(i), next_fp);
                    lemma_tc_placed(
                        pre_put,
                        *self,
                        pre_put.reduced(i),
                        next_fp,
                        fingerprint_of(old(self).hash_keys(), item@),
                    );
                }
                return Ok(true);
            }
            proof {
                lemma_occ_same_views(pre_put, *self);
                lemma_tc_same_views(
                    pre_put,
                    *self,
                    fingerprint_of(old(self).hash_keys(), item@),
                );
            }
            fp = next_fp;
            k = k + 1;
        }
        Err(FilterError::FilterFull)
    }

    /// True exactly when the item's fingerprint sits in one of its two
    /// candidate buckets. No mutation; false positives are possible, bounded
    /// by the fingerprint width.
    pub fn lookup(&self, item: &[u8]) -> (r: bool)
        requires
            self.wf(),
        ensures
            r == self.lookup_spec(item@),
    {
        let fp = FingerPrint::gen_finger_print(item, &self.hash_fn);
        let i1 = self.get_index(item);
        let i2 = self.get_alt_index(i1, &fp);
        if self.get(i1, &fp) {
            return true;
        }
        if self.get(i2, &fp) {
            return true;
        }
        false
    }

    /// Removes one occurrence of the item's fingerprint from its candidate
    /// buckets, if any, and reports whether a removal happened. The size
    /// drops by one on a removal, saturating at zero.
    pub fn delete(&mut self, item: &[u8]) -> (r: bool)
        requires
            old(self).wf(),
        ensures
            delete_post(*old(self), *final(self), item@, r),
    {
        let fp = FingerPrint::gen_finger_print(item, &self.hash_fn);
        let i1 = self.get_index(item);
        let i2 = self.get_alt_index(i1, &fp);
        if self.remove(i1, &fp) {
            if self.size > 0 {
                self.size = self.size - 1;
            }
            proof {
                lemma_mod_bound(i1 as int, old(self).nbuckets() as int);
                lemma_occ_removed(*old(self), *self, old(self).reduced(i1), fp);
                lemma_tc_removed(*old(self), *self, old(self).reduced(i1), fp);
            }
            return true;
        }
        let ghost mid = *self;
        if self.remove(i2, &fp) {
            if self.size > 0 {
                self.size = self.size - 1;
            }
            proof {
                lemma_mod_bound(i2 as int, old(self).nbuckets() as int);
                lemma_occ_same_views(*old(self), mid);
                lemma_tc_same_views(*old(self), mid, fp);
                lemma_occ_removed(mid, *self, mid.reduced(i2), fp);
                lemma_tc_removed(mid, *self, mid.reduced(i2), fp);
            }
            return true;
        }
        proof {
            lemma_occ_same_views(*old(self), mid);
            lemma_occ_same_views(mid, *self);
            lemma_tc_same_views(*old(self), mid, fp);
            lemma_tc_same_views(mid, *self, fp);
        }
        false
    }

    /// The running count of stored items.
    pub fn get_size(&self) -> (r: usize)
        ensures
            r == self.size_spec(),
    {
        self.size
    }

    /// The total slot capacity.
    pub fn get_capacity(&self) -> (r: usize)
        ensures
            r == self.capacity_spec(),
    {
        self.capacity
    }

    /// Membership test against one bucket, reducing the index at the access.
    fn get(&self, index: usize, fp: &FingerPrint) -> (r: bool)
        requires
            self.wf(),
        ensures
            r == bucket_has(self.bucket_view(self.reduced(index)), *fp),
    {
        let idx = index % self.buckets.len();
        proof {
            assert(self.buckets@[idx as int].wf());
        }
        let b = &self.buckets[idx];
        b.get(fp)
    }

    /// Placement attempt against one bucket, reducing the index at the
    /// access.
    fn put(&mut self, index: usize, fp: FingerPrint) -> (r: bool)
        requires
            old(self).wf(),
        ensures
            final(self).wf(),
            CuckooFilter::same_shape(*old(self), *final(self)),
            final(self).size_spec() == old(self).size_spec(),
            r == has_empty_slot(old(self).bucket_view(old(self).reduced(index))),
            r ==> placed_first_empty(
                old(self).bucket_view(old(self).reduced(index)),
                final(self).bucket_view(old(self).reduced(index)),
                fp,
            ),
            forall|b: int|
                0 <= b < old(self).nbuckets() && b != old(self).reduced(index)
                    ==> final(self).bucket_view(b) == old(self).bucket_view(b),
            !r ==> final(self).bucket_view(old(self).reduced(index)) == old(self).bucket_view(
                old(self).reduced(index),
            ),
    {
        let idx = index % self.buckets.len();
        proof {
            assert(self.buckets@[idx as int].wf());
        }
        let b = &mut self.buckets[idx];
        let r = b.put(fp);
        proof {
            assert(forall|b2: int|
                0 <= b2 < self.nbuckets() ==> (#[trigger] self.buckets@[b2]).wf());
        }
        r
    }

    /// Removal attempt against one bucket, reducing the index at the access.
    fn remove(&mut self, index: usize, fp: &FingerPrint) -> (r: bool)
        requires
            old(self).wf(),
        ensures
            final(self).wf(),
            CuckooFilter::same_shape(*old(self), *final(self)),
            final(self).size_spec() == old(self).size_spec(),
            r == bucket_has(old(self).bucket_view(old(self).reduced(index)), *fp),
            r ==> removed_first(
                old(self).bucket_view(old(self).reduced(index)),
                final(self).bucket_view(old(self).reduced(index)),
                *fp,
            ),
            forall|b: int|
                0 <= b < old(self).nbuckets() && b != old(self).reduced(index)
                    ==> final(self).bucket_view(b) == old(self).bucket_view(b),
            !r ==> final(self).bucket_view(old(self).reduced(index)) == old(self).bucket_view(
                old(self).reduced(index),
            ),
    {
        let idx = index % self.buckets.len();
        proof {
            assert(self.buckets@[idx as int].wf());
        }
        let b = &mut self.buckets[idx];
        let r = b.remove(fp);
        proof {
            assert(forall|b2: int|
                0 <= b2 < self.nbuckets() ==> (#[trigger] self.buckets@[b2]).wf());
        }
        r
    }

    /// The primary candidate index of an item, before reduction.
    fn get_index(&self, item: &[u8]) -> (r: usize)
        ensures
            r == index1_of(self.hash_keys(), item@),
    {
        get_hash(item, &self.hash_fn) as usize
    }

    /// The alternate candidate index for a fingerprint, before reduction.
    fn get_alt_index(&self, index: usize, fp: &FingerPrint) -> (r: usize)
        ensures
            r == alt_index_of(self.hash_keys(), index, *fp),
    {
        index ^ (fp.hash_value(&self.hash_fn) as usize)
    }

    /// Picks one of the two candidate indices to start a relocation chain.
    fn choose_random_index(&self, index1: usize, index2: usize) -> (r: usize)
        ensures
            r == index1 || r == index2,
    {
        if random_bool() {
            index1
        } else {
            index2
        }
    }

    /// A fresh hash function: two random 64-bit keys, drawn once per filter
    /// to keep instances independent and resistant to hash flooding.
    fn sip_new() -> HashKeys {
        HashKeys { k0: random_u64(), k1: random_u64() }
    }
}

/// No false negatives: right after an insert that placed the item's
/// fingerprint in one of its two candidate buckets, a lookup of the same
/// item reports it present.
pub proof fn lemma_no_false_negative(pre: CuckooFilter, post: CuckooFilter, item: Seq<u8>)
    requires
        pre.wf(),
        insert_direct_post(pre, post, item),
    ensures
        post.lookup_spec(item),
{
    let f = fingerprint_of(pre.hash_keys(), item);
    let j1 = pre.cand1(item);
    let j2 = pre.cand2(item);
    assert(post.cand1(item) == j1);
    assert(post.cand2(item) == j2);
    if has_empty_slot(pre.bucket_view(j1)) {
        let i = choose|i: int|
            0 <= i < pre.bucket_view(j1).len() && pre.bucket_view(j1)[i] == empty_fingerprint()
                && (forall|j: int| 0 <= j < i ==> pre.bucket_view(j1)[j] != empty_fingerprint())
                && post.bucket_view(j1) == pre.bucket_view(j1).update(i, f);
        assert(post.bucket_view(j1)[i] == f);
        assert(bucket_has(post.bucket_view(j1), f));
    } else {
        let i = choose|i: int|
            0 <= i < pre.bucket_view(j2).len() && pre.bucket_view(j2)[i] == empty_fingerprint()
                && (forall|j: int| 0 <= j < i ==> pre.bucket_view(j2)[j] != empty_fingerprint())
                && post.bucket_view(j2) == pre.bucket_view(j2).update(i, f);
        assert(post.bucket_view(j2)[i] == f);
        assert(bucket_has(post.bucket_view(j2), f));
    }
}

/// Delete reversibility: inserting an item into a filter whose candidate
/// buckets had room and deleting it at once reports a removal and restores
/// the size from before the insert.
pub proof fn lemma_delete_reverses_insert(
    f0: CuckooFilter,
    f1: CuckooFilter,
    f2: CuckooFilter,
    item: Seq<u8>,
    r: bool,
)
    requires
        f0.wf(),
        insert_direct_post(f0, f1, item),
        delete_post(f1, f2, item, r),
    ensures
        r == true,
        f2.size_spec() == f0.size_spec(),
{
    lemma_no_false_negative(f0, f1, item);
}

/// Duplicate counting: a run of successful inserts of the same item grows
/// the size by exactly the number of inserts.
pub proof fn lemma_duplicate_counting(states: Seq<CuckooFilter>, item: Seq<u8>)
    requires
        states.len() >= 1,
        forall|i: int|
            0 <= i < states.len() - 1 ==> insert_post(
                #[trigger] states[i],
                states[i + 1],
                item,
                Ok(true),
            ),
    ensures
        states[states.len() - 1].size_spec() == states[0].size_spec() + states.len() - 1,
    decreases states.len(),
{
    if states.len() > 1 {
        let prefix = states.drop_last();
        assert forall|i: int| 0 <= i < prefix.len() - 1 implies insert_post(
            #[trigger] prefix[i],
            prefix[i + 1],
            item,
            Ok(true),
        ) by {
            assert(insert_post(states[i], states[i + 1], item, Ok(true)));
        }
        lemma_duplicate_counting(prefix, item);
        assert(insert_post(
            states[states.len() - 2],
            states[states.len() - 1],
            item,
            Ok(true),
        ));
    }
}

/// How many copies of the item's fingerprint its two candidate buckets hold
/// together. A bucket that is both candidates at once is counted once.
pub open spec fn candidate_count(fl: CuckooFilter, item: Seq<u8>) -> nat {
    let f = fingerprint_of(fl.hash_keys(), item);
    if fl.cand1(item) == fl.cand2(item) {
        count_fp(fl.bucket_view(fl.cand1(item)), f)
    } else {
        count_fp(fl.bucket_view(fl.cand1(item)), f) + count_fp(fl.bucket_view(fl.cand2(item)), f)
    }
}

/// An item is reported present exactly when its candidate count is positive.
pub proof fn lemma_candidate_count_visible(fl: CuckooFilter, item: Seq<u8>)
    ensures
        candidate_count(fl, item) > 0 <==> fl.lookup_spec(item),
{
    let f = fingerprint_of(fl.hash_keys(), item);
    lemma_count_pos(fl.bucket_view(fl.cand1(item)), f);
    lemma_count_pos(fl.bucket_view(fl.cand2(item)), f);
}

/// A direct insert of an ordinary fingerprint raises the candidate count by
/// one; for the sentinel blind spot the count does not drop and stays
/// positive.
pub proof fn lemma_insert_direct_count(pre: CuckooFilter, post: CuckooFilter, item: Seq<u8>)
    requires
        insert_direct_post(pre, post, item),
    ensures
        fingerprint_of(pre.hash_keys(), item) != empty_fingerprint() ==> candidate_count(
            post,
            item,
        ) == candidate_count(pre, item) + 1,
        fingerprint_of(pre.hash_keys(), item) == empty_fingerprint() ==> candidate_count(
            post,
            item,
        ) == candidate_count(pre, item) && candidate_count(post, item) > 0,
{
    let f = fingerprint_of(pre.hash_keys(), item);
    let j1 = pre.cand1(item);
    let j2 = pre.cand2(item);
    let jp = if has_empty_slot(pre.bucket_view(j1)) {
        j1
    } else {
        j2
    };
    let ip = choose|i: int|
        0 <= i < pre.bucket_view(jp).len() && pre.bucket_view(jp)[i] == empty_fingerprint() && (
        forall|j: int| 0 <= j < i ==> pre.bucket_view(jp)[j] != empty_fingerprint())
            && post.bucket_view(jp) == pre.bucket_view(jp).update(i, f);
    lemma_count_update(pre.bucket_view(jp), ip, f, f);
    assert(post.cand1(item) == j1 && post.cand2(item) == j2);
    if f == empty_fingerprint() {
        lemma_count_pos(pre.bucket_view(jp), f);
        lemma_count_pos(post.bucket_view(jp), f);
        assert(post.bucket_view(jp)[ip] == f);
    }
}

/// A delete that reports a removal lowers the candidate count of an ordinary
/// fingerprint by one; for the sentinel it leaves the count unchanged.
pub proof fn lemma_delete_count(pre: CuckooFilter, post: CuckooFilter, item: Seq<u8>)
    requires
        delete_post(pre, post, item, true),
    ensures
        fingerprint_of(pre.hash_keys(), item) != empty_fingerprint() ==> candidate_count(
            post,
            item,
        ) == candidate_count(pre, item) - 1,
        fingerprint_of(pre.hash_keys(), item) == empty_fingerprint() ==> candidate_count(
            post,
            item,
        ) == candidate_count(pre, item),
{
    let f = fingerprint_of(pre.hash_keys(), item);
    let j1 = pre.cand1(item);
    let j2 = pre.cand2(item);
    let jd = if bucket_has(pre.bucket_view(j1), f) {
        j1
    } else {
        j2
    };
    let id = choose|i: int|
        0 <= i < pre.bucket_view(jd).len() && pre.bucket_view(jd)[i] == f && (forall|j: int|
            0 <= j < i ==> pre.bucket_view(jd)[j] != f) && post.bucket_view(jd)
            == pre.bucket_view(jd).update(i, empty_fingerprint());
    lemma_count_update(pre.bucket_view(jd), id, empty_fingerprint(), f);
    assert(post.cand1(item) == j1 && post.cand2(item) == j2);
}

/// A run of direct inserts of one item raises its candidate count by the
/// number of inserts (or, for the sentinel blind spot, leaves it positive).
proof fn lemma_inserts_raise_count(states: Seq<CuckooFilter>, item: Seq<u8>)
    requires
        states.len() >= 1,
        forall|i: int|
            0 <= i < states.len() - 1 ==> insert_direct_post(
                #[trigger] states[i],
                states[i + 1],
                item,
            ),
    ensures
        states.last().hash_keys() == states[0].hash_keys(),
        fingerprint_of(states[0].hash_keys(), item) != empty_fingerprint() ==> candidate_count(
            states.last(),
            item,
        ) == candidate_count(states[0], item) + states.len() - 1,
        fingerprint_of(states[0].hash_keys(), item) == empty_fingerprint() && states.len() >= 2
            ==> candidate_count(states.last(), item) > 0,
    decreases states.len(),
{
    if states.len() > 1 {
        let prefix = states.drop_last();
        assert forall|i: int| 0 <= i < prefix.len() - 1 implies insert_direct_post(
            #[trigger] prefix[i],
            prefix[i + 1],
            item,
        ) by {
            assert(insert_direct_post(states[i], states[i + 1], item));
        }
        lemma_inserts_raise_count(prefix, item);
        assert(insert_direct_post(states[states.len() - 2], states[states.len() - 1], item));
        lemma_insert_direct_count(states[states.len() - 2], states[states.len() - 1], item);
    }
}

/// A run of deletes of one item, each reporting a removal, lowers its
/// candidate count by the number of deletes (or, for the sentinel, keeps
/// it).
proof fn lemma_deletes_lower_count(states: Seq<CuckooFilter>, item: Seq<u8>)
    requires
        states.len() >= 1,
        forall|i: int|
            0 <= i < states.len() - 1 ==> delete_post(
                #[trigger] states[i],
                states[i + 1],
                item,
                true,
            ),
    ensures
        states.last().hash_keys() == states[0].hash_keys(),
        fingerprint_of(states[0].hash_keys(), item) != empty_fingerprint() ==> candidate_count(
            states.last(),
            item,
        ) == candidate_count(states[0], item) - (states.len() - 1),
        fingerprint_of(states[0].hash_keys(), item) == empty_fingerprint() ==> candidate_count(
            states.last(),
            item,
        ) == candidate_count(states[0], item),
    decreases states.len(),
{
    if states.len() > 1 {
        let prefix = states.drop_last();
        assert forall|i: int| 0 <= i < prefix.len() - 1 implies delete_post(
            #[trigger] prefix[i],
            prefix[i + 1],
            item,
            true,
        ) by {
            assert(delete_post(states[i], states[i + 1], item, true));
        }
        lemma_deletes_lower_count(prefix, item);
        assert(delete_post(states[states.len() - 2], states[states.len() - 1], item, true));
        lemma_delete_count(states[states.len() - 2], states[states.len() - 1], item);
    }
}

/// Duplicate visibility: after `k` direct inserts of one item, fewer than
/// `k` deletes of it cannot hide it: a lookup still reports it present.
/// The transitions up to index `k` are inserts of the item; the rest are
/// deletes of it that each reported a removal.
#[verifier::rlimit(50)]
pub proof fn lemma_duplicates_survive_deletes(states: Seq<CuckooFilter>, k: int, item: Seq<u8>)
    requires
        2 <= states.len(),
        1 <= k <= states.len() - 1,
        states.len() - 1 - k <= k - 1,
        forall|i: int|
            0 <= i < k ==> insert_direct_post(#[trigger] states[i], states[i + 1], item),
        forall|i: int|
            k <= i < states.len() - 1 ==> delete_post(
                #[trigger] states[i],
                states[i + 1],
                item,
                true,
            ),
    ensures
        states.last().lookup_spec(item),
{
    let inserts = states.subrange(0, k + 1);
    let deletes = states.subrange(k, states.len() as int);
    assert forall|i: int| 0 <= i < inserts.len() - 1 implies insert_direct_post(
        #[trigger] inserts[i],
        inserts[i + 1],
        item,
    ) by {
        assert(insert_direct_post(states[i], states[i + 1], item));
    }
    assert forall|i: int| 0 <= i < deletes.len() - 1 implies delete_post(
        #[trigger] deletes[i],
        deletes[i + 1],
        item,
        true,
    ) by {
        assert(delete_post(states[k + i], states[k + i + 1], item, true));
    }
    lemma_inserts_raise_count(inserts, item);
    lemma_deletes_lower_count(deletes, item);
    assert(inserts.last() == states[k] && deletes[0] == states[k]);
    assert(deletes.last() == states.last());
    lemma_candidate_count_visible(states.last(), item);
}

/// A fingerprint counted among the first `n` buckets sits in one of them. In
/// particular, a successful insert, which raises the table count of an
/// ordinary fingerprint, always leaves that fingerprint stored somewhere,
/// even when relocation moved it.
pub proof fn lemma_table_count_witness(fl: CuckooFilter, f: FingerPrint, n: int)
    requires
        fl.fp_prefix(f, n) > 0,
    ensures
        exists|b: int| 0 <= b < n && bucket_has(fl.bucket_view(b), f),
    decreases n,
{
    if n > 0 {
        if count_fp(fl.bucket_view(n - 1), f) > 0 {
            lemma_count_pos(fl.bucket_view(n - 1), f);
            assert(bucket_has(fl.bucket_view(n - 1), f));
        } else {
            lemma_table_count_witness(fl, f, n - 1);
        }
    }
}

/// Idempotent lookup: two lookups of the same item with no mutation in
/// between report the same answer.
pub proof fn lemma_lookup_idempotent(f: CuckooFilter, item: Seq<u8>, r1: bool, r2: bool)
    requires
        r1 == f.lookup_spec(item),
        r2 == f.lookup_spec(item),
    ensures
        r1 == r2,
{
}

} // verus!
