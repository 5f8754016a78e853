use state_objects::context::Context;
use state_objects::error::ErrorCode;

#[test]
fn writes_are_visible_to_later_reads() {
    let mut ctx = Context::new();
    assert!(ctx.is_writable());
    assert_eq!(ctx.read(b"x"), None);
    ctx.write(b"x", b"1").unwrap();
    ctx.write(b"y", b"2").unwrap();
    ctx.write(b"x", b"3").unwrap();
    assert_eq!(ctx.read(b"x"), Some(b"3".to_vec()));
    assert_eq!(ctx.read(b"y"), Some(b"2".to_vec()));
    ctx.delete(b"x").unwrap();
    assert_eq!(ctx.read(b"x"), None);
    assert_eq!(ctx.read(b"y"), Some(b"2".to_vec()));
    ctx.delete(b"absent").unwrap();
}

#[test]
fn read_only_context_keeps_its_store() {
    let mut ctx = Context::new();
    ctx.write(b"k", b"v").unwrap();
    let mut ro = ctx.into_read_only();
    assert_eq!(ro.write(b"k", b"w"), Err(ErrorCode::StoreFailure));
    assert_eq!(ro.delete(b"k"), Err(ErrorCode::StoreFailure));
    assert_eq!(ro.read(b"k"), Some(b"v".to_vec()));
}
