//! Default-zero counters of 128 bits, with checked addition and subtraction.
//!
//! A key with no entry in the store reads as zero. A counter that drops to
//! zero has its entry removed, so that zero is never stored; a read cannot
//! tell the two apart. An addition that would pass [`MAX_U128`] and a
//! subtraction that would go below zero fail with their own error and write
//! nothing.
use crate::codec::{lemma_round_trip, spec_decode, Codec};
use crate::context::Context;
use crate::error::{ErrorCode, Response};
use crate::typed_map::TypedMap;
use vstd::prelude::*;

verus! {

/// The largest value a counter can hold.
pub const MAX_U128: u128 = 0xffff_ffff_ffff_ffff_ffff_ffff_ffff_ffff;

/// A map from keys to 128-bit unsigned counters.
pub struct UInt128Map<K> {
    map: TypedMap<K, u128>,
}

impl<K: Codec> UInt128Map<K> {
    /// The byte prefix under which this map keeps its counters.
    pub closed spec fn namespace(&self) -> Seq<u8> {
        self.map.namespace()
    }

    /// The store key of the counter for the key with view `k`.
    pub open spec fn store_key(&self, k: K::V) -> Seq<u8> {
        self.namespace() + K::spec_encode(k)
    }

    /// The counter for the key with view `k` on `store`: zero where there is
    /// no entry, and [`ErrorCode::DecodeCorruption`] where the entry holds no
    /// encoded counter.
    pub open spec fn spec_value(&self, store: Map<Seq<u8>, Seq<u8>>, k: K::V) -> Response<u128> {
        match store.get(self.store_key(k)) {
            None => Ok(0),
            Some(b) => match spec_decode::<u128>(b) {
                Some(v) => Ok(v),
                None => Err(ErrorCode::DecodeCorruption),
            },
        }
    }

    /// `store` with the counter for `k` set to `v`: a zero counter has no
    /// entry.
    pub open spec fn spec_put(&self, store: Map<Seq<u8>, Seq<u8>>, k: K::V, v: u128) -> Map<
        Seq<u8>,
        Seq<u8>,
    > {
        if v == 0 {
            store.remove(self.store_key(k))
        } else {
            store.insert(self.store_key(k), <u128 as Codec>::spec_encode(v))
        }
    }

    /// The result of adding `delta` to the counter for `k`, and the store
    /// after it; `writable` says whether the store takes writes.
    pub open spec fn spec_add(
        &self,
        store: Map<Seq<u8>, Seq<u8>>,
        writable: bool,
        k: K::V,
        delta: u128,
    ) -> (Response<u128>, Map<Seq<u8>, Seq<u8>>) {
        match self.spec_value(store, k) {
            Err(e) => (Err(e), store),
            Ok(v) => if v + delta > u128::MAX {
                (Err(ErrorCode::ArithmeticOverflow), store)
            } else if !writable {
                (Err(ErrorCode::StoreFailure), store)
            } else {
                (Ok((v + delta) as u128), self.spec_put(store, k, (v + delta) as u128))
            },
        }
    }

    /// The result of subtracting `delta` from the counter for `k`, and the
    /// store after it; `writable` says whether the store takes writes.
    pub open spec fn spec_sub(
        &self,
        store: Map<Seq<u8>, Seq<u8>>,
        writable: bool,
        k: K::V,
        delta: u128,
    ) -> (Response<u128>, Map<Seq<u8>, Seq<u8>>) {
        match self.spec_value(store, k) {
            Err(e) => (Err(e), store),
            Ok(v) => if delta > v {
                (Err(ErrorCode::ArithmeticUnderflow), store)
            } else if !writable {
                (Err(ErrorCode::StoreFailure), store)
            } else {
                (Ok((v - delta) as u128), self.spec_put(store, k, (v - delta) as u128))
            },
        }
    }

    /// A map of counters over the namespace `namespace`.
    pub fn new(namespace: Vec<u8>) -> (r: Self)
        ensures
            r.namespace() == namespace@,
    {
        UInt128Map { map: TypedMap::new(namespace) }
    }

    /// The counter for `key`, read through the underlying map.
    fn value_of(&self, ctx: &Context, key: &K) -> (r: Response<u128>)
        ensures
            r == self.spec_value(ctx@, key@),
    {
        match self.map.get(ctx, key) {
            Ok(Some(v)) => Ok(v),
            Ok(None) => Ok(0),
            Err(e) => Err(e),
        }
    }

    /// Sets the counter for `key` to `v`, removing the entry for zero.
    fn put(&self, ctx: &mut Context, key: &K, v: u128) -> (r: Response<()>)
        ensures
            final(ctx).writable() == old(ctx).writable(),
            if old(ctx).writable() {
                r == Ok::<(), ErrorCode>(()) && final(ctx)@ == self.spec_put(old(ctx)@, key@, v)
            } else {
                r == Err::<(), ErrorCode>(ErrorCode::StoreFailure) && *final(ctx) == *old(ctx)
            },
    {
        if v == 0 {
            self.map.delete(ctx, key)
        } else {
            self.map.set(ctx, key, &v)
        }
    }

    /// The current counter for `key`; zero if it was never written.
    pub fn get(&self, ctx: &Context, key: K) -> (r: Response<u128>)
        ensures
            r == self.spec_value(ctx@, key@),
    {
        self.value_of(ctx, &key)
    }

    /// Adds `value` to the counter for `key` and returns the new counter.
    ///
    /// Fails with [`ErrorCode::ArithmeticOverflow`] where the sum passes
    /// [`MAX_U128`]; on any failure the context is left as it was.
    pub fn add(&self, ctx: &mut Context, key: K, value: u128) -> (r: Response<u128>)
        ensures
            final(ctx).writable() == old(ctx).writable(),
            (r, final(ctx)@) == self.spec_add(old(ctx)@, old(ctx).writable(), key@, value),
            r is Err ==> *final(ctx) == *old(ctx),
            r matches Ok(n) ==> self.spec_value(final(ctx)@, key@) == Ok::<u128, ErrorCode>(n),
    {
        let current = match self.value_of(ctx, &key) {
            Ok(v) => v,
            Err(e) => return Err(e),
        };
        match current.checked_add(value) {
            None => Err(ErrorCode::ArithmeticOverflow),
            Some(sum) => match self.put(ctx, &key, sum) {
                Ok(()) => {
                    proof {
                        self.lemma_value_after_put(old(ctx)@, key@, sum, key@);
                    }
                    Ok(sum)
                },
                Err(e) => Err(e),
            },
        }
    }

    /// Subtracts `value` from the counter for `key` and returns the new
    /// counter.
    ///
    /// Fails with [`ErrorCode::ArithmeticUnderflow`] where `value` exceeds the
    /// counter; on any failure the context is left as it was.
    pub fn safe_sub(&self, ctx: &mut Context, key: K, value: u128) -> (r: Response<u128>)
        ensures
            final(ctx).writable() == old(ctx).writable(),
            (r, final(ctx)@) == self.spec_sub(old(ctx)@, old(ctx).writable(), key@, value),
            r is Err ==> *final(ctx) == *old(ctx),
            r matches Ok(n) ==> self.spec_value(final(ctx)@, key@) == Ok::<u128, ErrorCode>(n),
    {
        let current = match self.value_of(ctx, &key) {
            Ok(v) => v,
            Err(e) => return Err(e),
        };
        if value > current {
            return Err(ErrorCode::ArithmeticUnderflow);
        }
        let rest = current - value;
        match self.put(ctx, &key, rest) {
            Ok(()) => {
                proof {
                    self.lemma_value_after_put(old(ctx)@, key@, rest, key@);
                }
                Ok(rest)
            },
            Err(e) => Err(e),
        }
    }

    /// After the counter for `k` is set to `v`, it reads as `v`, and every
    /// other key of the map reads as before.
    pub proof fn lemma_value_after_put(
        &self,
        store: Map<Seq<u8>, Seq<u8>>,
        k: K::V,
        v: u128,
        other: K::V,
    )
        ensures
            self.spec_value(self.spec_put(store, k, v), k) == Ok::<u128, ErrorCode>(v),
            other != k ==> self.spec_value(self.spec_put(store, k, v), other) == self.spec_value(
                store,
                other,
            ),
    {
        lemma_round_trip::<u128>(v);
        if other != k {
            crate::codec::lemma_namespaced_keys_distinct::<K>(self.namespace(), other, k);
        }
    }

    /// A key that has no entry in the store reads as zero.
    pub proof fn lemma_unwritten_reads_zero(&self, store: Map<Seq<u8>, Seq<u8>>, k: K::V)
        requires
            !store.contains_key(self.store_key(k)),
        ensures
            self.spec_value(store, k) == Ok::<u128, ErrorCode>(0),
    {
    }

    /// An addition or a subtraction on one key leaves every other key of the
    /// map reading as before.
    pub proof fn lemma_other_keys_unchanged(
        &self,
        store: Map<Seq<u8>, Seq<u8>>,
        writable: bool,
        k: K::V,
        delta: u128,
        other: K::V,
    )
        requires
            other != k,
        ensures
            self.spec_value(self.spec_add(store, writable, k, delta).1, other) == self.spec_value(
                store,
                other,
            ),
            self.spec_value(self.spec_sub(store, writable, k, delta).1, other) == self.spec_value(
                store,
                other,
            ),
    {
        if let Ok(v) = self.spec_value(store, k) {
            if v + delta <= u128::MAX {
                self.lemma_value_after_put(store, k, (v + delta) as u128, other);
            }
            if delta <= v {
                self.lemma_value_after_put(store, k, (v - delta) as u128, other);
            }
        }
    }

    /// Two additions to a counter that reads zero, whose sum fits, leave the
    /// counter at that sum.
    pub proof fn lemma_add_twice(
        &self,
        store: Map<Seq<u8>, Seq<u8>>,
        k: K::V,
        delta1: u128,
        delta2: u128,
    )
        requires
            self.spec_value(store, k) == Ok::<u128, ErrorCode>(0),
            delta1 + delta2 <= u128::MAX,
        ensures
            ({
                let (r1, s1) = self.spec_add(store, true, k, delta1);
                let (r2, s2) = self.spec_add(s1, true, k, delta2);
                &&& r1 == Ok::<u128, ErrorCode>(delta1)
                &&& r2 == Ok::<u128, ErrorCode>((delta1 + delta2) as u128)
                &&& self.spec_value(s2, k) == Ok::<u128, ErrorCode>((delta1 + delta2) as u128)
            }),
    {
        let s1 = self.spec_add(store, true, k, delta1).1;
        self.lemma_value_after_put(store, k, delta1, k);
        self.lemma_value_after_put(s1, k, (delta1 + delta2) as u128, k);
    }

    /// A counter that reads `v` can have exactly `v` taken away, which leaves
    /// it at zero; taking `v + 1`, where it fits, fails with an underflow and
    /// changes nothing.
    pub proof fn lemma_sub_whole_value(
        &self,
        store: Map<Seq<u8>, Seq<u8>>,
        writable: bool,
        k: K::V,
        v: u128,
    )
        requires
            self.spec_value(store, k) == Ok::<u128, ErrorCode>(v),
        ensures
            ({
                let (r, s) = self.spec_sub(store, true, k, v);
                r == Ok::<u128, ErrorCode>(0) && self.spec_value(s, k) == Ok::<u128, ErrorCode>(0)
            }),
            v < u128::MAX ==> self.spec_sub(store, writable, k, (v + 1) as u128) == (
                Err::<u128, ErrorCode>(ErrorCode::ArithmeticUnderflow),
                store,
            ),
    {
        self.lemma_value_after_put(store, k, 0, k);
    }

    /// Adding [`MAX_U128`] to a counter that reads zero gives [`MAX_U128`];
    /// adding one more then fails with an overflow and changes nothing.
    pub proof fn lemma_add_to_max(
        &self,
        store: Map<Seq<u8>, Seq<u8>>,
        writable: bool,
        k: K::V,
    )
        requires
            self.spec_value(store, k) == Ok::<u128, ErrorCode>(0),
        ensures
            ({
                let (r1, s1) = self.spec_add(store, true, k, MAX_U128);
                &&& r1 == Ok::<u128, ErrorCode>(MAX_U128)
                &&& self.spec_value(s1, k) == Ok::<u128, ErrorCode>(MAX_U128)
                &&& self.spec_add(s1, writable, k, 1) == (
                    Err::<u128, ErrorCode>(ErrorCode::ArithmeticOverflow),
                    s1,
                )
            }),
    {
        self.lemma_value_after_put(store, k, MAX_U128, k);
    }
}

} // verus!
