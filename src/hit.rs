//! Nearest-hit resolution over the distances that the scene objects report
//! for one ray.
//!
//! A distance is carried as the bit pattern of a `f64` (`f64::to_bits`).
//! A usable distance is finite and not below zero; its key is the bit
//! pattern with the sign bit cleared. For finite non-negative doubles,
//! IEEE-754 orders the bit patterns, read as unsigned integers, exactly as
//! it orders the values, and both zeros get key 0. Comparing keys is thus
//! comparing distances.
use vstd::prelude::*;

verus! {

/// Why a reported distance cannot take part in the selection.
#[derive(Debug, Clone, Copy, PartialEq, Eq, Structural)]
pub enum DistanceError {
    NotANumber,
    Infinite,
    Negative,
}

pub const EXPONENT_MASK: u64 = 0x7ff0_0000_0000_0000;

pub const MANTISSA_MASK: u64 = 0x000f_ffff_ffff_ffff;

pub const MAGNITUDE_MASK: u64 = 0x7fff_ffff_ffff_ffff;

pub const SIGN_MASK: u64 = 0x8000_0000_0000_0000;

/// The bit pattern with the sign cleared: the ordering key of a distance.
pub open spec fn key(bits: u64) -> u64 {
    bits & MAGNITUDE_MASK
}

pub open spec fn is_nan_bits(bits: u64) -> bool {
    bits & EXPONENT_MASK == EXPONENT_MASK && bits & MANTISSA_MASK != 0
}

pub open spec fn is_infinite_bits(bits: u64) -> bool {
    bits & EXPONENT_MASK == EXPONENT_MASK && bits & MANTISSA_MASK == 0
}

/// Strictly below zero: the sign is set and the magnitude is not zero.
pub open spec fn is_negative_bits(bits: u64) -> bool {
    bits & SIGN_MASK != 0 && key(bits) != 0
}

/// What is wrong with a reported distance, if anything.
pub open spec fn fault(bits: u64) -> Option<DistanceError> {
    if is_nan_bits(bits) {
        Some(DistanceError::NotANumber)
    } else if is_infinite_bits(bits) {
        Some(DistanceError::Infinite)
    } else if is_negative_bits(bits) {
        Some(DistanceError::Negative)
    } else {
        None
    }
}

pub open spec fn hit_fault(h: Option<u64>) -> Option<DistanceError> {
    match h {
        Some(bits) => fault(bits),
        None => None,
    }
}

/// The fault of the first of the first `n` reports that has one.
pub open spec fn fault_upto(hits: Seq<Option<u64>>, n: int) -> Option<DistanceError>
    decreases n,
{
    if n <= 0 {
        None
    } else {
        match fault_upto(hits, n - 1) {
            Some(e) => Some(e),
            None => hit_fault(hits[n - 1]),
        }
    }
}

pub open spec fn first_fault(hits: Seq<Option<u64>>) -> Option<DistanceError> {
    fault_upto(hits, hits.len() as int)
}

/// Index of the nearest hit among the first `n` reports; on equal keys the
/// earlier report wins.
pub open spec fn nearest_upto(hits: Seq<Option<u64>>, n: int) -> Option<int>
    decreases n,
{
    if n <= 0 {
        None
    } else {
        let best = nearest_upto(hits, n - 1);
        match hits[n - 1] {
            Some(bits) => match best {
                Some(b) => if key(bits) < key(hits[b]->Some_0) {
                    Some(n - 1)
                } else {
                    best
                },
                None => Some(n - 1),
            },
            None => best,
        }
    }
}

pub open spec fn nearest(hits: Seq<Option<u64>>) -> Option<int> {
    nearest_upto(hits, hits.len() as int)
}

/// Checks one reported distance and gives its ordering key.
pub fn distance_key(bits: u64) -> (r: Result<u64, DistanceError>)
    ensures
        match fault(bits) {
            Some(e) => r == Err::<u64, DistanceError>(e),
            None => r == Ok::<u64, DistanceError>(key(bits)),
        },
{
    if bits & EXPONENT_MASK == EXPONENT_MASK {
        if bits & MANTISSA_MASK != 0 {
            Err(DistanceError::NotANumber)
        } else {
            Err(DistanceError::Infinite)
        }
    } else if bits & SIGN_MASK != 0 && bits & MAGNITUDE_MASK != 0 {
        Err(DistanceError::Negative)
    } else {
        Ok(bits & MAGNITUDE_MASK)
    }
}

proof fn lemma_fault_persists(hits: Seq<Option<u64>>, n: int, m: int)
    requires
        0 <= n <= m,
        fault_upto(hits, n) is Some,
    ensures
        fault_upto(hits, m) == fault_upto(hits, n),
    decreases m - n,
{
    if n < m {
        lemma_fault_persists(hits, n, m - 1);
    }
}

proof fn lemma_nearest_in_range(hits: Seq<Option<u64>>, n: int)
    requires
        0 <= n <= hits.len(),
    ensures
        match nearest_upto(hits, n) {
            Some(i) => 0 <= i < n && hits[i] is Some,
            None => true,
        },
    decreases n,
{
    if n > 0 {
        lemma_nearest_in_range(hits, n - 1);
    }
}

/// The resolved hit is the report with the smallest key, the first such
/// report when several share it; there is none exactly when every object
/// missed, an empty object list included.
pub proof fn lemma_nearest_is_first_least(hits: Seq<Option<u64>>)
    ensures
        nearest(hits) is None <==> (forall|j: int| 0 <= j < hits.len() ==> hits[j] is None),
        match nearest(hits) {
            Some(i) => 0 <= i < hits.len() && hits[i] is Some
                && (forall|j: int| 0 <= j < hits.len() && hits[j] is Some
                    ==> key(hits[i]->Some_0) <= key(hits[j]->Some_0))
                && (forall|j: int| 0 <= j < i && hits[j] is Some
                    ==> key(hits[i]->Some_0) < key(hits[j]->Some_0)),
            None => true,
        },
{
    lemma_nearest_upto_least(hits, hits.len() as int);
}

proof fn lemma_nearest_upto_least(hits: Seq<Option<u64>>, n: int)
    requires
        0 <= n <= hits.len(),
    ensures
        nearest_upto(hits, n) is None <==> (forall|j: int| 0 <= j < n ==> hits[j] is None),
        match nearest_upto(hits, n) {
            Some(i) => 0 <= i < n && hits[i] is Some
                && (forall|j: int| 0 <= j < n && hits[j] is Some
                    ==> key(hits[i]->Some_0) <= key(hits[j]->Some_0))
                && (forall|j: int| 0 <= j < i && hits[j] is Some
                    ==> key(hits[i]->Some_0) < key(hits[j]->Some_0)),
            None => true,
        },
    decreases n,
{
    if n > 0 {
        lemma_nearest_upto_least(hits, n - 1);
        if nearest_upto(hits, n) is None {
            assert forall|j: int| 0 <= j < n implies hits[j] is None by {
                if j == n - 1 {
                } else {
                    assert(nearest_upto(hits, n - 1) is None);
                }
            }
        }
    }
}

/// Resolves the nearest hit of one ray. `hits[i]` is what object `i`
/// reported: `None` for a miss, else the bit pattern of the distance.
/// A faulty distance fails the whole resolution with the fault of the first
/// faulty report; otherwise the result is the index of the object with the
/// smallest distance, the first one among equals, or `None` when every
/// object missed.
pub fn cast_ray(hits: &Vec<Option<u64>>) -> (r: Result<Option<usize>, DistanceError>)
    ensures
        match first_fault(hits@) {
            Some(e) => r == Err::<Option<usize>, DistanceError>(e),
            None => match r {
                Ok(Some(i)) => nearest(hits@) == Some(i as int),
                Ok(None) => nearest(hits@) is None,
                Err(_) => false,
            },
        },
{
    let mut best: Option<usize> = None;
    let mut best_key: u64 = 0;
    let mut i: usize = 0;
    while i < hits.len()
        invariant
            0 <= i <= hits@.len(),
            fault_upto(hits@, i as int) is None,
            match best {
                Some(b) => nearest_upto(hits@, i as int) == Some(b as int)
                    && hits@[b as int] is Some
                    && best_key == key(hits@[b as int]->Some_0),
                None => nearest_upto(hits@, i as int) is None,
            },
        decreases hits@.len() - i,
    {
        proof {
            lemma_nearest_in_range(hits@, i as int);
        }
        match hits[i] {
            Some(bits) => {
                match distance_key(bits) {
                    Err(e) => {
                        proof {
                            lemma_fault_persists(hits@, i + 1, hits@.len() as int);
                        }
                        return Err(e);
                    },
                    Ok(k) => {
                        match best {
                            Some(_) => {
                                if k < best_key {
                                    best = Some(i);
                                    best_key = k;
                                }
                            },
                            None => {
                                best = Some(i);
                                best_key = k;
                            },
                        }
                    },
                }
            },
            None => {},
        }
        i = i + 1;
    }
    Ok(best)
}

} // verus!
