//! Deterministic pseudo-randomness: a stable, non-cryptographic hash of a
//! seed and an entity id, reduced to a percent roll or a list index.
//! Replaying the same seeds always reproduces the same outcomes.
use vstd::prelude::*;
use vstd::string::*;

verus! {

/// The running hash over the first `n` bytes.
pub open spec fn spec_stable_hash_upto(seed: u64, bytes: Seq<u8>, n: nat) -> u64
    decreases n,
{
    if n == 0 {
        1469598103934665603u64 ^ seed
    } else {
        (spec_stable_hash_upto(seed, bytes, (n - 1) as nat) ^ (bytes[n - 1] as u64)).wrapping_mul(
            1099511628211u64,
        )
    }
}

/// The stable hash of a seed and a byte string.
pub open spec fn spec_stable_hash(seed: u64, bytes: Seq<u8>) -> u64 {
    spec_stable_hash_upto(seed, bytes, bytes.len())
}

/// A deterministic roll in 0..=99 for a seed and an id.
pub open spec fn spec_roll_percent(seed: u64, bytes: Seq<u8>) -> u64 {
    spec_stable_hash(seed, bytes) % 100
}

/// A deterministic index below `len` for a seed and an id (0 when `len` is 0).
pub open spec fn spec_index_in(seed: u64, bytes: Seq<u8>, len: nat) -> nat {
    if len == 0 {
        0
    } else {
        (spec_stable_hash(seed.wrapping_add(999), bytes) % (len as u64)) as nat
    }
}

/// A stable, deterministic, non-cryptographic hash of a seed and a string.
pub fn stable_hash_u64(seed: u64, s: &str) -> (r: u64)
    ensures
        r == spec_stable_hash(seed, s.spec_bytes()),
{
    let bytes = s.as_bytes();
    let n = bytes.len();
    let mut h: u64 = 1469598103934665603u64 ^ seed;
    let mut i: usize = 0;
    while i < n
        invariant
            i <= n,
            n == s.spec_bytes().len(),
            bytes@ == s.spec_bytes(),
            h == spec_stable_hash_upto(seed, s.spec_bytes(), i as nat),
        decreases n - i,
    {
        h = (h ^ (bytes[i] as u64)).wrapping_mul(1099511628211u64);
        i += 1;
    }
    h
}

/// A deterministic roll in 0..=99 for a seed and an id.
pub fn stable_roll_percent(seed: u64, id: &str) -> (r: u64)
    ensures
        r == spec_roll_percent(seed, id.spec_bytes()),
        r < 100,
{
    stable_hash_u64(seed, id) % 100
}

/// The same roll under another name, used by the roaming subsystem.
pub fn deterministic_roll_percent(seed: u64, id: &str) -> (r: u64)
    ensures
        r == spec_roll_percent(seed, id.spec_bytes()),
        r < 100,
{
    stable_roll_percent(seed, id)
}

/// A deterministic index below `len` for a seed and an id.
pub fn deterministic_index(seed: u64, id: &str, len: usize) -> (r: usize)
    ensures
        r == spec_index_in(seed, id.spec_bytes(), len as nat),
        len > 0 ==> r < len,
        len == 0 ==> r == 0,
{
    if len == 0 {
        return 0;
    }
    (stable_hash_u64(seed.wrapping_add(999), id) % (len as u64)) as usize
}

/// Rolls are pure functions of seed and id: two rolls with the same seed and
/// id always agree, which makes NPC behaviour reproducible under replay.
pub proof fn lemma_rolls_deterministic(seed: u64, bytes: Seq<u8>, r1: u64, r2: u64, len: nat)
    requires
        r1 == spec_roll_percent(seed, bytes),
        r2 == spec_roll_percent(seed, bytes),
    ensures
        r1 == r2,
        spec_index_in(seed, bytes, len) == spec_index_in(seed, bytes, len),
{
}

} // verus!
