//! Byte codecs for keys and values.
//!
//! A [`Codec`] turns a value into bytes and back. Its encoding is a function of
//! the value's view, no two views share an encoding, and decoding recovers the
//! value from any byte string that is an encoding, and refuses any other.
use vstd::prelude::*;
use vstd::slice::slice_to_vec;
use vstd::string::StringSliceAdditionalSpecFns;
use vstd::utf8::{
    decode_utf8,
    decode_utf8_encode_utf8,
    encode_utf8,
    encode_utf8_decode_utf8,
    encode_utf8_valid_utf8,
    valid_utf8,
};

verus! {

/// `256` raised to the power `n`.
pub open spec fn pow256(n: nat) -> nat
    decreases n,
{
    if n == 0 {
        1
    } else {
        256 * pow256((n - 1) as nat)
    }
}

/// The number that `s` spells in base 256, most significant byte first.
pub open spec fn be_value(s: Seq<u8>) -> nat
    decreases s.len(),
{
    if s.len() == 0 {
        0
    } else {
        be_value(s.drop_last()) * 256 + s.last() as nat
    }
}

/// The lowest `len` base-256 digits of `n`, most significant first.
pub open spec fn be_bytes(n: nat, len: nat) -> Seq<u8>
    decreases len,
{
    if len == 0 {
        Seq::empty()
    } else {
        be_bytes(n / 256, (len - 1) as nat).push((n % 256) as u8)
    }
}

proof fn lemma_pow256_values()
    ensures
        pow256(8) == 0x1_0000_0000_0000_0000,
        pow256(16) == 0x1_0000_0000_0000_0000_0000_0000_0000_0000,
{
    reveal_with_fuel(pow256, 17);
}

proof fn lemma_pow256_mono(a: nat, b: nat)
    requires
        a <= b,
    ensures
        pow256(a) <= pow256(b),
    decreases b,
{
    if a < b {
        lemma_pow256_mono(a, (b - 1) as nat);
    }
}

proof fn lemma_be_bytes_len(n: nat, len: nat)
    ensures
        be_bytes(n, len).len() == len,
    decreases len,
{
    if len > 0 {
        lemma_be_bytes_len(n / 256, (len - 1) as nat);
    }
}

proof fn lemma_be_value_bound(s: Seq<u8>)
    ensures
        be_value(s) < pow256(s.len()),
    decreases s.len(),
{
    if s.len() > 0 {
        lemma_be_value_bound(s.drop_last());
        let p = be_value(s.drop_last());
        let q = pow256((s.len() - 1) as nat);
        let b = s.last() as nat;
        assert(p * 256 + b < 256 * q) by (nonlinear_arith)
            requires
                p < q,
                b < 256,
        ;
    }
}

/// Reading back the digits of a number that fits in `len` bytes gives the number.
proof fn lemma_be_round_trip(n: nat, len: nat)
    requires
        n < pow256(len),
    ensures
        be_value(be_bytes(n, len)) == n,
    decreases len,
{
    if len > 0 {
        let q = pow256((len - 1) as nat);
        assert(n / 256 < q) by (nonlinear_arith)
            requires
                n < 256 * q,
        ;
        lemma_be_round_trip(n / 256, (len - 1) as nat);
        assert(be_bytes(n, len).drop_last() =~= be_bytes(n / 256, (len - 1) as nat));
        assert((n / 256) * 256 + n % 256 == n) by (nonlinear_arith);
    }
}

/// Writing out the value of a byte string in as many bytes gives the string.
proof fn lemma_be_bytes_of_value(s: Seq<u8>)
    ensures
        be_bytes(be_value(s), s.len()) == s,
    decreases s.len(),
{
    if s.len() > 0 {
        let p = be_value(s.drop_last());
        let b = s.last() as nat;
        assert((p * 256 + b) / 256 == p && (p * 256 + b) % 256 == b) by (nonlinear_arith)
            requires
                b < 256,
        ;
        lemma_be_bytes_of_value(s.drop_last());
        assert(be_bytes(be_value(s), s.len()) =~= s.drop_last().push(s.last()));
        assert(s.drop_last().push(s.last()) =~= s);
    }
}

/// The `len` lowest base-256 digits of `n`, most significant first.
fn be_encode(n: u128, len: usize) -> (r: Vec<u8>)
    ensures
        r@ == be_bytes(n as nat, len as nat),
    decreases len,
{
    if len == 0 {
        Vec::new()
    } else {
        let mut r = be_encode(n / 256, len - 1);
        r.push((n % 256) as u8);
        r
    }
}

/// The number that at most sixteen bytes spell, most significant first.
fn be_decode(b: &[u8]) -> (r: u128)
    requires
        b@.len() <= 16,
    ensures
        r as nat == be_value(b@),
{
    let mut acc: u128 = 0;
    let mut i: usize = 0;
    proof {
        lemma_pow256_values();
        assert(b@.subrange(0, 0) =~= Seq::<u8>::empty());
    }
    while i < b.len()
        invariant
            i <= b@.len() <= 16,
            acc as nat == be_value(b@.subrange(0, i as int)),
            pow256(16) == 0x1_0000_0000_0000_0000_0000_0000_0000_0000,
        decreases b@.len() - i,
    {
        let ghost pre = b@.subrange(0, i as int);
        proof {
            lemma_be_value_bound(pre);
            lemma_pow256_mono(i as nat + 1, 16);
            assert(b@.subrange(0, i + 1).drop_last() =~= pre);
            let p = pow256(i as nat);
            assert(pow256(i as nat + 1) == 256 * p);
            let a = acc as nat;
            let d = b@[i as int] as nat;
            assert(a * 256 + d < 256 * p) by (nonlinear_arith)
                requires
                    a < p,
                    d < 256,
            ;
        }
        acc = acc * 256 + b[i] as u128;
        i += 1;
    }
    assert(b@.subrange(0, b@.len() as int) =~= b@);
    acc
}

/// A reversible byte encoding of a type's values.
///
/// The encoding depends on the view alone and is injective, so that it can
/// address entries in a store; `decode` is its exact inverse.
pub trait Codec: View + Sized {
    /// The bytes that stand for the value whose view is `v`.
    spec fn spec_encode(v: Self::V) -> Seq<u8>;

    /// Distinct values have distinct encodings.
    proof fn lemma_encode_injective(a: Self::V, b: Self::V)
        requires
            Self::spec_encode(a) == Self::spec_encode(b),
        ensures
            a == b,
    ;

    /// The encoding of `self`.
    fn encode(&self) -> (r: Vec<u8>)
        ensures
            r@ == Self::spec_encode(self@),
    ;

    /// The value that `bytes` encode, or `None` where they encode none.
    fn decode(bytes: &[u8]) -> (r: Option<Self>)
        ensures
            match r {
                Some(v) => Self::spec_encode(v@) == bytes@,
                None => forall|v: Self::V| Self::spec_encode(v) != bytes@,
            },
    ;
}

/// The view of the value that `bytes` encode under `T`'s codec, if any.
pub open spec fn spec_decode<T: Codec>(bytes: Seq<u8>) -> Option<T::V> {
    if exists|v: T::V| T::spec_encode(v) == bytes {
        Some(choose|v: T::V| T::spec_encode(v) == bytes)
    } else {
        None
    }
}

/// Decoding the encoding of a value gives back that value.
pub proof fn lemma_round_trip<T: Codec>(v: T::V)
    ensures
        spec_decode::<T>(T::spec_encode(v)) == Some(v),
{
    let w = choose|w: T::V| T::spec_encode(w) == T::spec_encode(v);
    T::lemma_encode_injective(w, v);
}

/// Under one namespace prefix, distinct keys give distinct store keys.
pub proof fn lemma_namespaced_keys_distinct<T: Codec>(namespace: Seq<u8>, a: T::V, b: T::V)
    requires
        a != b,
    ensures
        namespace + T::spec_encode(a) != namespace + T::spec_encode(b),
{
    let ea = T::spec_encode(a);
    let eb = T::spec_encode(b);
    if namespace + ea == namespace + eb {
        let n = namespace.len() as int;
        let joined = namespace + ea;
        assert(joined.subrange(n, joined.len() as int) =~= ea);
        assert((namespace + eb).subrange(n, joined.len() as int) =~= eb);
        T::lemma_encode_injective(a, b);
    }
}

/// Relies on `std::str::from_utf8`: it succeeds exactly on valid UTF-8, and
/// then yields the characters that the bytes encode.
#[verifier::external_body]
fn utf8_to_string(bytes: &[u8]) -> (r: Option<String>)
    ensures
        match r {
            Some(s) => valid_utf8(bytes@) && s@ == decode_utf8(bytes@),
            None => !valid_utf8(bytes@),
        },
{
    match std::str::from_utf8(bytes) {
        Ok(s) => Some(s.to_string()),
        Err(_) => None,
    }
}

/// Sixteen bytes, most significant first.
impl Codec for u128 {
    open spec fn spec_encode(v: u128) -> Seq<u8> {
        be_bytes(v as nat, 16)
    }

    proof fn lemma_encode_injective(a: u128, b: u128) {
        lemma_pow256_values();
        lemma_be_round_trip(a as nat, 16);
        lemma_be_round_trip(b as nat, 16);
    }

    fn encode(&self) -> (r: Vec<u8>) {
        be_encode(*self, 16)
    }

    fn decode(bytes: &[u8]) -> (r: Option<u128>) {
        if bytes.len() != 16 {
            proof {
                assert forall|v: u128| Self::spec_encode(v) != bytes@ by {
                    lemma_be_bytes_len(v as nat, 16);
                }
            }
            None
        } else {
            let v = be_decode(bytes);
            proof {
                lemma_be_bytes_of_value(bytes@);
            }
            Some(v)
        }
    }
}

/// Eight bytes, most significant first.
impl Codec for u64 {
    open spec fn spec_encode(v: u64) -> Seq<u8> {
        be_bytes(v as nat, 8)
    }

    proof fn lemma_encode_injective(a: u64, b: u64) {
        lemma_pow256_values();
        lemma_be_round_trip(a as nat, 8);
        lemma_be_round_trip(b as nat, 8);
    }

    fn encode(&self) -> (r: Vec<u8>) {
        be_encode(*self as u128, 8)
    }

    fn decode(bytes: &[u8]) -> (r: Option<u64>) {
        if bytes.len() != 8 {
            proof {
                assert forall|v: u64| Self::spec_encode(v) != bytes@ by {
                    lemma_be_bytes_len(v as nat, 8);
                }
            }
            None
        } else {
            let v = be_decode(bytes);
            proof {
                lemma_pow256_values();
                lemma_be_value_bound(bytes@);
                lemma_be_bytes_of_value(bytes@);
            }
            Some(v as u64)
        }
    }
}

/// The bytes themselves.
impl Codec for Vec<u8> {
    open spec fn spec_encode(v: Seq<u8>) -> Seq<u8> {
        v
    }

    proof fn lemma_encode_injective(a: Seq<u8>, b: Seq<u8>) {
    }

    fn encode(&self) -> (r: Vec<u8>) {
        slice_to_vec(self.as_slice())
    }

    fn decode(bytes: &[u8]) -> (r: Option<Vec<u8>>) {
        Some(slice_to_vec(bytes))
    }
}

/// The UTF-8 encoding of the characters.
impl Codec for String {
    open spec fn spec_encode(v: Seq<char>) -> Seq<u8> {
        encode_utf8(v)
    }

    proof fn lemma_encode_injective(a: Seq<char>, b: Seq<char>) {
        encode_utf8_decode_utf8(a);
        encode_utf8_decode_utf8(b);
    }

    fn encode(&self) -> (r: Vec<u8>) {
        slice_to_vec(self.as_str().as_bytes())
    }

    fn decode(bytes: &[u8]) -> (r: Option<String>) {
        let r = utf8_to_string(bytes);
        proof {
            if r is Some {
                decode_utf8_encode_utf8(bytes@);
            } else {
                assert forall|v: Seq<char>| Self::spec_encode(v) != bytes@ by {
                    encode_utf8_valid_utf8(v);
                }
            }
        }
        r
    }
}

} // verus!
