use state_objects::context::Context;
use state_objects::error::ErrorCode;
use state_objects::typed_map::TypedMap;

#[test]
fn set_get_delete() {
    let mut ctx = Context::new();
    let m: TypedMap<u64, String> = TypedMap::new(b"names".to_vec());
    assert_eq!(m.get(&ctx, &1), Ok(None));
    m.set(&mut ctx, &1, &"one".to_string()).unwrap();
    m.set(&mut ctx, &2, &"two".to_string()).unwrap();
    assert_eq!(m.get(&ctx, &1), Ok(Some("one".to_string())));
    m.set(&mut ctx, &1, &"uno".to_string()).unwrap();
    assert_eq!(m.get(&ctx, &1), Ok(Some("uno".to_string())));
    m.delete(&mut ctx, &1).unwrap();
    assert_eq!(m.get(&ctx, &1), Ok(None));
    assert_eq!(m.get(&ctx, &2), Ok(Some("two".to_string())));
}

#[test]
fn values_land_under_the_namespace() {
    let mut ctx = Context::new();
    let m: TypedMap<Vec<u8>, Vec<u8>> = TypedMap::new(b"p/".to_vec());
    m.set(&mut ctx, &b"k".to_vec(), &b"v".to_vec()).unwrap();
    assert_eq!(ctx.read(b"p/k"), Some(b"v".to_vec()));
    assert_eq!(m.store_key_of(&b"k".to_vec()), b"p/k".to_vec());
}

#[test]
fn undecodable_value_is_corruption() {
    let mut ctx = Context::new();
    let m: TypedMap<u64, String> = TypedMap::new(b"names".to_vec());
    ctx.write(&m.store_key_of(&5), &[0xff, 0xfe]).unwrap();
    assert_eq!(m.get(&ctx, &5), Err(ErrorCode::DecodeCorruption));
}

#[test]
fn read_only_map_writes_fail() {
    let ctx = Context::new();
    let mut ro = ctx.into_read_only();
    let m: TypedMap<u64, u64> = TypedMap::new(vec![]);
    assert_eq!(m.set(&mut ro, &1, &2), Err(ErrorCode::StoreFailure));
    assert_eq!(m.delete(&mut ro, &1), Err(ErrorCode::StoreFailure));
    assert_eq!(m.get(&ro, &1), Ok(None));
}
