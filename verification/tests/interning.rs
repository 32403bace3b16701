use uscanner::query::intern::{StrId, StringPool};
use uscanner::query::member_index;

#[test]
fn intern_returns_same_id_for_same_string() {
    let mut pool = StringPool::new();
    let a = pool.intern("hello");
    let b = pool.intern("hello");
    assert_eq!(a, b);
    assert_eq!(pool.len(), 1);
}

#[test]
fn intern_different_strings_yields_different_ids() {
    let mut pool = StringPool::new();
    let a = pool.intern("foo");
    let b = pool.intern("bar");
    assert_ne!(a, b);
    assert_eq!(pool.get(a), "foo");
    assert_eq!(pool.get(b), "bar");
}

#[test]
fn intern_opt_passes_none_through() {
    let mut pool = StringPool::new();
    assert!(pool.intern_opt(None).is_none());
    let id = pool.intern_opt(Some("x")).unwrap();
    assert_eq!(pool.get(id), "x");
}

#[test]
fn serde_roundtrip_preserves_strings() {
    let mut pool = StringPool::new();
    pool.intern("alpha");
    pool.intern("beta");
    let strings: Vec<&str> = (0..pool.len()).map(|i| pool.get(StrId(i as u32))).collect();
    let bytes = rmp_serde::to_vec(&strings).unwrap();
    let restored = StringPool::from_strings(rmp_serde::from_slice(&bytes).unwrap());
    assert_eq!(restored.get(StrId(0)), "alpha");
    assert_eq!(restored.get(StrId(1)), "beta");
}

#[test]
fn a_pool_is_empty_until_something_is_interned() {
    let mut pool = StringPool::new();
    assert!(pool.is_empty());
    assert_eq!(pool.get_opt(None), None);
    let id = pool.intern("one");
    assert!(!pool.is_empty());
    assert_eq!(pool.get_opt(Some(id)), Some("one"));
    assert_eq!(id.as_usize(), 0);
}

#[test]
fn the_pool_of_members_tells_no_text_from_empty_text() {
    let mut pool = member_index::StringPool::new();
    let none = member_index::StrId::none();
    assert!(none.is_none());
    assert_eq!(pool.get(none), None);
    let id = pool.intern("Tick");
    assert_eq!(pool.get(id), Some("Tick"));
    assert_eq!(pool.intern("Tick"), id);
    assert_eq!(member_index::intern_optional(&mut pool, None), none);
    assert_eq!(member_index::intern_optional(&mut pool, Some("Tick")), id);
}
