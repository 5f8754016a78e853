//! A typed map: keys and values of fixed types, kept in the byte store under a
//! namespace prefix.
//!
//! The value for key `k` lives at `namespace ++ encode(k)`. The map object
//! holds no entries itself; every operation goes through the context it is
//! given.
use crate::codec::{lemma_round_trip, spec_decode, Codec};
use crate::context::Context;
use crate::error::{ErrorCode, Response};
use core::marker::PhantomData;
use vstd::prelude::*;
use vstd::slice::slice_to_vec;

verus! {

/// A map from `K` to `V` over one namespace of the store.
pub struct TypedMap<K, V> {
    prefix: Vec<u8>,
    types: PhantomData<(K, V)>,
}

impl<K: Codec, V: Codec> TypedMap<K, V> {
    /// The byte prefix under which this map keeps its entries.
    pub closed spec fn namespace(&self) -> Seq<u8> {
        self.prefix@
    }

    /// The store key under which the value for the key with view `k` lives.
    pub open spec fn store_key(&self, k: K::V) -> Seq<u8> {
        self.namespace() + K::spec_encode(k)
    }

    /// What a read of the key with view `k` yields on `store`: nothing where no
    /// entry is there, the decoded value where one is, and
    /// [`ErrorCode::DecodeCorruption`] where the entry is no encoding of a value.
    pub open spec fn spec_get(&self, store: Map<Seq<u8>, Seq<u8>>, k: K::V) -> Response<
        Option<V::V>,
    > {
        match store.get(self.store_key(k)) {
            None => Ok(None),
            Some(b) => match spec_decode::<V>(b) {
                Some(v) => Ok(Some(v)),
                None => Err(ErrorCode::DecodeCorruption),
            },
        }
    }

    /// A map over the namespace `namespace`.
    pub fn new(namespace: Vec<u8>) -> (r: Self)
        ensures
            r.namespace() == namespace@,
    {
        TypedMap { prefix: namespace, types: PhantomData }
    }

    /// The store key for `key`.
    pub fn store_key_of(&self, key: &K) -> (r: Vec<u8>)
        ensures
            r@ == self.store_key(key@),
    {
        let mut r = slice_to_vec(self.prefix.as_slice());
        let mut encoded = key.encode();
        r.append(&mut encoded);
        r
    }

    /// The value stored for `key`, if any.
    pub fn get(&self, ctx: &Context, key: &K) -> (r: Response<Option<V>>)
        ensures
            match r {
                Ok(Some(v)) => self.spec_get(ctx@, key@) == Ok::<_, ErrorCode>(Some(v@)),
                Ok(None) => self.spec_get(ctx@, key@) == Ok::<_, ErrorCode>(None::<V::V>),
                Err(e) => self.spec_get(ctx@, key@) == Err::<Option<V::V>, _>(e),
            },
    {
        let sk = self.store_key_of(key);
        match ctx.read(sk.as_slice()) {
            None => Ok(None),
            Some(bytes) => match V::decode(bytes.as_slice()) {
                Some(v) => {
                    proof {
                        lemma_round_trip::<V>(v@);
                    }
                    Ok(Some(v))
                },
                None => Err(ErrorCode::DecodeCorruption),
            },
        }
    }

    /// Stores `value` for `key`.
    pub fn set(&self, ctx: &mut Context, key: &K, value: &V) -> (r: Response<()>)
        ensures
            final(ctx).writable() == old(ctx).writable(),
            if old(ctx).writable() {
                r == Ok::<(), ErrorCode>(()) && final(ctx)@ == old(ctx)@.insert(
                    self.store_key(key@),
                    V::spec_encode(value@),
                )
            } else {
                r == Err::<(), ErrorCode>(ErrorCode::StoreFailure) && *final(ctx) == *old(ctx)
            },
    {
        let sk = self.store_key_of(key);
        let bytes = value.encode();
        ctx.write(sk.as_slice(), bytes.as_slice())
    }

    /// Removes the entry for `key`.
    pub fn delete(&self, ctx: &mut Context, key: &K) -> (r: Response<()>)
        ensures
            final(ctx).writable() == old(ctx).writable(),
            if old(ctx).writable() {
                r == Ok::<(), ErrorCode>(()) && final(ctx)@ == old(ctx)@.remove(
                    self.store_key(key@),
                )
            } else {
                r == Err::<(), ErrorCode>(ErrorCode::StoreFailure) && *final(ctx) == *old(ctx)
            },
    {
        let sk = self.store_key_of(key);
        ctx.delete(sk.as_slice())
    }

    /// A read after a write of the same key yields the value written, and a
    /// write leaves every other key of the map as it was.
    pub proof fn lemma_get_after_set(
        &self,
        store: Map<Seq<u8>, Seq<u8>>,
        k: K::V,
        v: V::V,
        other: K::V,
    )
        ensures
            self.spec_get(store.insert(self.store_key(k), V::spec_encode(v)), k) == Ok::<
                _,
                ErrorCode,
            >(Some(v)),
            other != k ==> self.spec_get(store.insert(self.store_key(k), V::spec_encode(v)), other)
                == self.spec_get(store, other),
    {
        lemma_round_trip::<V>(v);
        if other != k {
            crate::codec::lemma_namespaced_keys_distinct::<K>(self.namespace(), other, k);
        }
    }

    /// After a delete, the key reads as absent, and every other key of the map
    /// reads as before.
    pub proof fn lemma_get_after_delete(
        &self,
        store: Map<Seq<u8>, Seq<u8>>,
        k: K::V,
        other: K::V,
    )
        ensures
            self.spec_get(store.remove(self.store_key(k)), k) == Ok::<_, ErrorCode>(None::<V::V>),
            other != k ==> self.spec_get(store.remove(self.store_key(k)), other) == self.spec_get(
                store,
                other,
            ),
    {
        if other != k {
            crate::codec::lemma_namespaced_keys_distinct::<K>(self.namespace(), other, k);
        }
    }
}

} // verus!
