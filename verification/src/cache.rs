//! Exact-key cache for vector search results.
//!
//! A key is a vector of `f32` components, given here by their bit patterns
//! (`f32::to_bits`). Two keys match only when every bit pattern is equal, so
//! recall never answers for a key that was not stored.

use std::collections::hash_map::DefaultHasher;
use std::collections::HashMap;
use std::hash::Hasher;
use vstd::prelude::*;
use vstd::std_specs::hash::DefaultHasherAdditionalSpecFns;

verus! {

broadcast use vstd::std_specs::hash::group_hash_axioms;

/// Errors of a cache backend.
#[derive(Debug, Clone, PartialEq, Eq)]
pub enum CacheError {
    /// The key does not have the cache's dimension.
    DimensionMismatch { expected: usize, actual: usize },
    /// Nothing is stored.
    Empty,
    /// A storage backend failed.
    Backend(String),
}

/// The little-endian bytes of `x`.
pub open spec fn le_bytes(x: u64) -> Seq<u8> {
    seq![
        x as u8,
        (x >> 8u64) as u8,
        (x >> 16u64) as u8,
        (x >> 24u64) as u8,
        (x >> 32u64) as u8,
        (x >> 40u64) as u8,
        (x >> 48u64) as u8,
        (x >> 56u64) as u8,
    ]
}

/// The hash of a bit-pattern vector: `DefaultHasher` fed the little-endian
/// bytes of each word, one write per word.
pub open spec fn hash_of_bits(bits: Seq<u64>) -> u64 {
    DefaultHasher::spec_finish(bits.map_values(|x: u64| le_bytes(x)))
}

/// Hashes a bit-pattern vector (see [`hash_of_bits`]).
pub fn hash_bits(bits: &[u64]) -> (h: u64)
    ensures
        h == hash_of_bits(bits@),
{
    let mut hasher = DefaultHasher::new();
    let mut k: usize = 0;
    while k < bits.len()
        invariant
            k <= bits@.len(),
            hasher@ == bits@.take(k as int).map_values(|x: u64| le_bytes(x)),
        decreases bits@.len() - k,
    {
        let x = bits[k];
        let b: [u8; 8] = [
            x as u8,
            (x >> 8u64) as u8,
            (x >> 16u64) as u8,
            (x >> 24u64) as u8,
            (x >> 32u64) as u8,
            (x >> 40u64) as u8,
            (x >> 48u64) as u8,
            (x >> 56u64) as u8,
        ];
        assert(b@ =~= le_bytes(x));
        hasher.write(&b);
        k = k + 1;
        assert(hasher@ =~= bits@.take(k as int).map_values(|x: u64| le_bytes(x)));
    }
    assert(bits@.take(bits@.len() as int) =~= bits@);
    hasher.finish()
}

/// A key's bit patterns widened to words.
pub open spec fn widen(key: Seq<u32>) -> Seq<u64> {
    key.map_values(|b: u32| b as u64)
}

/// The value of the first entry of `bucket` stored under `w`.
pub open spec fn first_match(bucket: Seq<(Vec<u64>, Vec<u8>)>, w: Seq<u64>) -> Option<Seq<u8>>
    decreases bucket.len(),
{
    if bucket.len() == 0 {
        None
    } else if bucket[0].0@ == w {
        Some(bucket[0].1@)
    } else {
        first_match(bucket.drop_first(), w)
    }
}

proof fn lemma_first_match_push(bucket: Seq<(Vec<u64>, Vec<u8>)>, e: (Vec<u64>, Vec<u8>), w: Seq<u64>)
    ensures
        first_match(bucket.push(e), w) == (match first_match(bucket, w) {
            Some(v) => Some(v),
            None => if e.0@ == w { Some(e.1@) } else { None },
        }),
    decreases bucket.len(),
{
    if bucket.len() > 0 {
        assert(bucket.push(e)[0] == bucket[0]);
        assert(bucket.push(e).drop_first() =~= bucket.drop_first().push(e));
        lemma_first_match_push(bucket.drop_first(), e, w);
    } else {
        assert(bucket.push(e)[0] == e);
        assert(bucket.push(e).drop_first() =~= Seq::<(Vec<u64>, Vec<u8>)>::empty());
        assert(first_match(Seq::<(Vec<u64>, Vec<u8>)>::empty(), w) is None);
    }
}

/// The error for a key of `actual` components where `expected` were due.
pub open spec fn dim_mismatch(expected: nat, actual: nat) -> CacheError {
    CacheError::DimensionMismatch { expected: expected as usize, actual: actual as usize }
}

/// Exact-key cache: a key's bit patterns map to the value first stored
/// under them.
pub struct HashMemory {
    dim: usize,
    map: HashMap<u64, Vec<(Vec<u64>, Vec<u8>)>>,
    count: usize,
}

impl HashMemory {
    /// The value recalled for `key`, if any.
    pub closed spec fn recalled(&self, key: Seq<u32>) -> Option<Seq<u8>> {
        let w = widen(key);
        let h = hash_of_bits(w);
        if self.map@.contains_key(h) {
            first_match(self.map@[h]@, w)
        } else {
            None
        }
    }

    /// The number of stores since creation or the last clear.
    pub closed spec fn spec_len(&self) -> nat {
        self.count as nat
    }

    /// The key dimension.
    pub closed spec fn spec_dim(&self) -> nat {
        self.dim as nat
    }

    /// An empty cache for keys of `dim` components.
    pub fn new(dim: usize) -> (c: Self)
        ensures
            c.spec_dim() == dim,
            c.spec_len() == 0,
            forall|k: Seq<u32>| #[trigger] c.recalled(k) is None,
    {
        HashMemory { dim, map: HashMap::new(), count: 0 }
    }

    /// The key dimension.
    pub fn dim(&self) -> (d: usize)
        ensures
            d == self.spec_dim(),
    {
        self.dim
    }

    /// The number of stores since creation or the last clear.
    pub fn len(&self) -> (n: usize)
        ensures
            n == self.spec_len(),
    {
        self.count
    }

    /// Whether nothing was stored since creation or the last clear.
    pub fn is_empty(&self) -> (b: bool)
        ensures
            b == (self.spec_len() == 0),
    {
        self.count == 0
    }

    /// Stores `value` under the key whose components have the bit patterns
    /// `key`. A key already present keeps its first value.
    pub fn store(&mut self, key: &[u32], value: Vec<u8>) -> (r: Result<(), CacheError>)
        requires
            old(self).spec_len() < usize::MAX,
        ensures
            final(self).spec_dim() == old(self).spec_dim(),
            key@.len() != old(self).spec_dim() <==> r == Err::<(), CacheError>(
                dim_mismatch(old(self).spec_dim(), key@.len()),
            ),
            key@.len() != old(self).spec_dim() ==> *final(self) == *old(self),
            key@.len() == old(self).spec_dim() ==> {
                &&& r is Ok
                &&& final(self).spec_len() == old(self).spec_len() + 1
                &&& forall|k: Seq<u32>| #[trigger] final(self).recalled(k) == (match old(self).recalled(k) {
                    Some(v) => Some(v),
                    None => if k == key@ { Some(value@) } else { None },
                })
            },
    {
        if key.len() != self.dim {
            return Err(CacheError::DimensionMismatch { expected: self.dim, actual: key.len() });
        }
        let bits = widen_bits(key);
        let hash = hash_bits(bits.as_slice());
        let ghost old_map = self.map@;
        let ghost e = (bits, value);
        let mut bucket = match self.map.remove(&hash) {
            Some(b) => b,
            None => Vec::new(),
        };
        let ghost old_bucket = bucket@;
        bucket.push((bits, value));
        self.map.insert(hash, bucket);
        self.count = self.count + 1;
        proof {
            assert forall|k: Seq<u32>| #[trigger] self.recalled(k) == (match old(self).recalled(k) {
                Some(v) => Some(v),
                None => if k == key@ { Some(value@) } else { None },
            }) by {
                let wk = widen(k);
                let hk = hash_of_bits(wk);
                if hk == hash {
                    lemma_first_match_push(old_bucket, e, wk);
                    if old_map.contains_key(hash) {
                        assert(old_bucket == old_map[hash]@);
                    } else {
                        assert(old_bucket =~= Seq::<(Vec<u64>, Vec<u8>)>::empty());
                    }
                    if wk == widen(key@) {
                        lemma_widen_injective(k, key@);
                    }
                } else {
                    assert(self.map@[hk] == old_map[hk]);
                }
            }
        }
        Ok(())
    }

    /// The value stored under the key whose components have the bit
    /// patterns `cue`, if any.
    pub fn recall(&self, cue: &[u32]) -> (r: Result<Option<Vec<u8>>, CacheError>)
        ensures
            cue@.len() != self.spec_dim() ==> r == Err::<Option<Vec<u8>>, CacheError>(
                dim_mismatch(self.spec_dim(), cue@.len()),
            ),
            cue@.len() == self.spec_dim() ==> (match r {
                Ok(Some(v)) => self.recalled(cue@) == Some(v@),
                Ok(None) => self.recalled(cue@) is None,
                Err(_) => false,
            }),
    {
        if cue.len() != self.dim {
            return Err(CacheError::DimensionMismatch { expected: self.dim, actual: cue.len() });
        }
        let bits = widen_bits(cue);
        let hash = hash_bits(bits.as_slice());
        match self.map.get(&hash) {
            Some(bucket) => {
                assert(bucket@.skip(0) =~= bucket@);
                let mut k: usize = 0;
                while k < bucket.len()
                    invariant
                        k <= bucket@.len(),
                        cue@.len() == self.spec_dim(),
                        self.recalled(cue@) == first_match(bucket@.skip(k as int), bits@),
                    decreases bucket@.len() - k,
                {
                    assert(bucket@.skip(k as int).drop_first() =~= bucket@.skip(k + 1));
                    if vec_eq_u64(&bucket[k].0, &bits) {
                        let v = bucket[k].1.clone();
                        assert(v@ =~= bucket@[k as int].1@);
                        return Ok(Some(v));
                    }
                    k = k + 1;
                }
                assert(bucket@.skip(k as int) =~= Seq::<(Vec<u64>, Vec<u8>)>::empty());
                Ok(None)
            },
            None => Ok(None),
        }
    }

    /// Forgets everything stored.
    pub fn clear(&mut self)
        ensures
            final(self).spec_dim() == old(self).spec_dim(),
            final(self).spec_len() == 0,
            forall|k: Seq<u32>| #[trigger] final(self).recalled(k) is None,
    {
        self.map.clear();
        self.count = 0;
    }
}

proof fn lemma_widen_injective(a: Seq<u32>, b: Seq<u32>)
    requires
        widen(a) == widen(b),
    ensures
        a == b,
{
    assert(widen(a).len() == a.len());
    assert(widen(b).len() == b.len());
    assert forall|i: int| 0 <= i < a.len() implies a[i] == b[i] by {
        assert(widen(a)[i] == a[i] as u64);
        assert(widen(b)[i] == b[i] as u64);
    }
    assert(a =~= b);
}

/// The bit patterns of a key as words.
pub fn widen_bits(key: &[u32]) -> (w: Vec<u64>)
    ensures
        w@ == widen(key@),
{
    let mut w: Vec<u64> = Vec::new();
    let mut k: usize = 0;
    while k < key.len()
        invariant
            k <= key@.len(),
            w@ == widen(key@.take(k as int)),
        decreases key@.len() - k,
    {
        w.push(key[k] as u64);
        k = k + 1;
        assert(w@ =~= widen(key@.take(k as int)));
    }
    assert(key@.take(key@.len() as int) =~= key@);
    w
}

fn vec_eq_u64(a: &Vec<u64>, b: &Vec<u64>) -> (r: bool)
    ensures
        r == (a@ == b@),
{
    if a.len() != b.len() {
        return false;
    }
    let mut k: usize = 0;
    while k < a.len()
        invariant
            k <= a@.len(),
            a@.len() == b@.len(),
            forall|i: int| 0 <= i < k ==> a@[i] == b@[i],
        decreases a@.len() - k,
    {
        if a[k] != b[k] {
            return false;
        }
        k = k + 1;
    }
    assert(a@ =~= b@);
    true
}

} // verus!
