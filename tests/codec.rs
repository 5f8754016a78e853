use state_objects::codec::Codec;
use state_objects::typed_map::TypedMap;

#[test]
fn u128_encoding_is_sixteen_bytes_big_endian() {
    let mut expected = vec![0u8; 15];
    expected.push(1);
    assert_eq!(1u128.encode(), expected);
    assert_eq!(u128::MAX.encode(), vec![0xff; 16]);
    assert_eq!(0x0102_0304u128.encode()[12..], [1, 2, 3, 4]);
}

#[test]
fn u64_encoding_is_eight_bytes_big_endian() {
    assert_eq!(
        0x0102_0304_0506_0708u64.encode(),
        vec![1, 2, 3, 4, 5, 6, 7, 8]
    );
    assert_eq!(0u64.encode(), vec![0; 8]);
}

#[test]
fn integer_round_trips() {
    for v in [0u128, 1, 255, 256, 0xdead_beef, u128::MAX - 1, u128::MAX] {
        assert_eq!(u128::decode(&v.encode()), Some(v));
    }
    for v in [0u64, 1, 256, 0x0123_4567_89ab_cdef, u64::MAX] {
        assert_eq!(u64::decode(&v.encode()), Some(v));
    }
}

#[test]
fn integer_decode_rejects_wrong_lengths() {
    assert_eq!(u128::decode(&[]), None);
    assert_eq!(u128::decode(&[0; 15]), None);
    assert_eq!(u128::decode(&[0; 17]), None);
    assert_eq!(u64::decode(&[0; 16]), None);
    assert_eq!(u64::decode(&[0; 7]), None);
}

#[test]
fn string_round_trips_through_utf8() {
    for s in ["", "alice", "héllo", "日本", "🦀 crab"] {
        let s = s.to_string();
        let bytes = s.encode();
        assert_eq!(bytes, s.as_bytes().to_vec());
        assert_eq!(String::decode(&bytes), Some(s));
    }
}

#[test]
fn string_decode_rejects_invalid_utf8() {
    assert_eq!(String::decode(&[0xff]), None);
    assert_eq!(String::decode(&[0xc3]), None);
    assert_eq!(String::decode(&[0xed, 0xa0, 0x80]), None);
}

#[test]
fn byte_keys_round_trip() {
    let v = vec![0u8, 1, 2, 255];
    assert_eq!(v.encode(), v);
    assert_eq!(Vec::<u8>::decode(&v), Some(v.clone()));
    assert_eq!(Vec::<u8>::decode(&[]), Some(vec![]));
}

#[test]
fn distinct_keys_get_distinct_store_keys() {
    let m: TypedMap<String, u128> = TypedMap::new(b"ns".to_vec());
    let keys = ["", "a", "b", "ab", "ba", "aa", "alice", "alicf", "é"];
    for (i, x) in keys.iter().enumerate() {
        for (j, y) in keys.iter().enumerate() {
            let kx = m.store_key_of(&x.to_string());
            let ky = m.store_key_of(&y.to_string());
            assert_eq!(i == j, kx == ky);
        }
    }
    let n: TypedMap<u64, u128> = TypedMap::new(b"ns".to_vec());
    for x in 0u64..40 {
        for y in 0u64..40 {
            assert_eq!(x == y, n.store_key_of(&x) == n.store_key_of(&y));
        }
    }
    assert_eq!(n.store_key_of(&1), vec![b'n', b's', 0, 0, 0, 0, 0, 0, 0, 1]);
}
