use vstd::prelude::*;

use core::hash::Hasher;
use rand::Rng;

verus! {

/// The pair of 64-bit keys that fixes one keyed hash function. A filter draws
/// its keys once, at construction, and uses them for its whole lifetime.
#[derive(Clone, Copy)]
pub struct HashKeys {
    pub k0: u64,
    pub k1: u64,
}

/// The 64-bit keyed SipHash of a byte sequence. The hash is a function of the
/// two keys and the bytes alone, so the same keys and bytes always give the
/// same value; nothing further is assumed about it.
pub uninterp spec fn sip_of(k0: u64, k1: u64, data: Seq<u8>) -> u64;

/// Relies on siphasher's `SipHasher` (`new_with_keys`, `Hasher::write`,
/// `Hasher::finish`): the keyed SipHash-2-4 of the written bytes, determined
/// by the keys and the bytes alone.
#[verifier::external_body]
pub fn get_hash(item: &[u8], hash_fn: &HashKeys) -> (r: u64)
    ensures
        r == sip_of(hash_fn.k0, hash_fn.k1, item@),
{
    let mut hasher = siphasher::sip::SipHasher::new_with_keys(hash_fn.k0, hash_fn.k1);
    hasher.write(item);
    hasher.finish()
}

/// Relies on siphasher's `SipHasher`, exactly as `get_hash` does, applied to
/// the one byte handed in: the keyed SipHash of that single-byte sequence.
#[verifier::external_body]
pub(crate) fn get_hash_byte(b: u8, hash_fn: &HashKeys) -> (r: u64)
    ensures
        r == sip_of(hash_fn.k0, hash_fn.k1, seq![b]),
{
    let mut hasher = siphasher::sip::SipHasher::new_with_keys(hash_fn.k0, hash_fn.k1);
    hasher.write(&[b]);
    hasher.finish()
}

/// Relies on rand's `thread_rng` and `Rng::gen`: a pseudo-random 64-bit
/// value; nothing is promised of it.
#[verifier::external_body]
pub(crate) fn random_u64() -> u64 {
    rand::thread_rng().gen()
}

/// Relies on rand's `thread_rng` and `Rng::gen`: a pseudo-random boolean;
/// nothing is promised of it.
#[verifier::external_body]
pub(crate) fn random_bool() -> bool {
    rand::thread_rng().gen()
}

/// Relies on rand's `Rng::gen_range`: a value uniform in `[0, n)`. It panics
/// only on an empty range, which the precondition rules out.
#[verifier::external_body]
pub(crate) fn random_below(n: usize) -> (r: usize)
    requires
        n > 0,
    ensures
        r < n,
{
    rand::thread_rng().gen_range(0..n)
}

} // verus!
