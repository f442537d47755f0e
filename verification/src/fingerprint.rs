use vstd::prelude::*;

use crate::util::{get_hash, get_hash_byte, sip_of, HashKeys};

verus! {

/// The most significant byte of a 64-bit hash: the truncation that turns a
/// full hash into a one-byte-wide fingerprint.
pub open spec fn fp_byte_of(h: u64) -> u8 {
    (h >> 56) as u8
}

/// A compact proxy for an item's identity: the high-order byte of the item's
/// keyed hash. The all-zero value is the sentinel for a free slot, so an item
/// whose genuine fingerprint is all-zero is treated as a free slot rather
/// than stored; that blind spot is accepted by design.
#[derive(Clone, Copy, PartialEq, Eq, Structural)]
pub struct FingerPrint {
    fp: u8,
}

/// The fingerprint an item receives under the given hash keys.
pub closed spec fn fingerprint_of(hash_fn: HashKeys, item: Seq<u8>) -> FingerPrint {
    FingerPrint { fp: fp_byte_of(sip_of(hash_fn.k0, hash_fn.k1, item)) }
}

/// The all-zero sentinel that marks a free slot.
pub closed spec fn empty_fingerprint() -> FingerPrint {
    FingerPrint { fp: 0 }
}

/// The keyed hash of a fingerprint itself, used to derive alternate bucket
/// indices.
pub open spec fn fp_hash(hash_fn: HashKeys, f: FingerPrint) -> u64 {
    sip_of(hash_fn.k0, hash_fn.k1, seq![f.byte()])
}

impl FingerPrint {
    /// The single stored byte.
    pub closed spec fn byte(&self) -> u8 {
        self.fp
    }

    /// A fingerprint equals the sentinel exactly when its byte is zero.
    pub open spec fn is_empty_spec(&self) -> bool {
        *self == empty_fingerprint()
    }

    /// Two fingerprints are equal exactly when their stored bytes agree.
    pub proof fn lemma_eq_bytes(a: FingerPrint, b: FingerPrint)
        ensures
            (a == b) <==> (a.byte() == b.byte()),
    {
    }

    /// The fingerprint of an item under given keys carries the high byte of
    /// the item's keyed hash.
    pub proof fn lemma_fingerprint_of_byte(hash_fn: HashKeys, item: Seq<u8>)
        ensures
            fingerprint_of(hash_fn, item).byte() == fp_byte_of(
                sip_of(hash_fn.k0, hash_fn.k1, item),
            ),
            empty_fingerprint().byte() == 0,
    {
    }

    /// Derives the fingerprint of an item: hash it with the filter's keys and
    /// keep the high-order byte.
    pub fn gen_finger_print(item: &[u8], hash_fn: &HashKeys) -> (r: FingerPrint)
        ensures
            r == fingerprint_of(*hash_fn, item@),
    {
        let h = get_hash(item, hash_fn);
        FingerPrint { fp: (h >> 56) as u8 }
    }

    /// True exactly when this fingerprint is the free-slot sentinel.
    pub fn is_empty(&self) -> (r: bool)
        ensures
            r == self.is_empty_spec(),
    {
        self.fp == 0
    }

    /// The free-slot sentinel.
    pub fn empty() -> (r: FingerPrint)
        ensures
            r == empty_fingerprint(),
    {
        FingerPrint { fp: 0 }
    }

    /// The keyed hash of this fingerprint, for alternate-index derivation.
    pub fn hash_value(&self, hash_fn: &HashKeys) -> (r: u64)
        ensures
            r == fp_hash(*hash_fn, *self),
    {
        get_hash_byte(self.fp, hash_fn)
    }
}

} // verus!
