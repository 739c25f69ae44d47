use locallens::cache::VectorCache;
use locallens::codec::{vec_to_bytes, CodecError};

fn row(id: i64, v: &[f32]) -> (i64, Vec<u8>) {
    let bits: Vec<u32> = v.iter().map(|x| x.to_bits()).collect();
    (id, vec_to_bytes(&bits))
}

#[test]
fn new_cache_is_invalid_and_empty() {
    let c = VectorCache::new();
    assert!(!c.is_valid());
    assert!(c.entries().is_empty());
}

#[test]
fn rebuild_after_invalidate_matches_persisted_rows() {
    let mut c = VectorCache::new();
    c.rebuild(&vec![row(1, &[1.0, 0.0]), row(2, &[0.0, 1.0])]).unwrap();
    assert!(c.is_valid());
    assert_eq!(c.entries().len(), 2);
    c.invalidate();
    assert!(!c.is_valid());
    assert!(c.entries().is_empty());
    // passage 1 was deleted, passage 3 added
    c.rebuild(&vec![row(2, &[0.0, 1.0]), row(3, &[0.6, 0.8])]).unwrap();
    assert!(c.is_valid());
    let ids: Vec<i64> = c.entries().iter().map(|e| e.0).collect();
    assert_eq!(ids, vec![2, 3]);
    assert_eq!(c.entries()[1].1, vec![0.6f32.to_bits(), 0.8f32.to_bits()]);
}

#[test]
fn ensure_valid_rebuilds_only_an_invalid_cache() {
    let mut c = VectorCache::new();
    c.ensure_valid(&vec![row(5, &[1.0])]).unwrap();
    assert_eq!(c.entries().len(), 1);
    // a valid cache is not reloaded
    c.ensure_valid(&vec![row(6, &[1.0]), row(7, &[0.0])]).unwrap();
    assert_eq!(c.entries()[0].0, 5);
    c.invalidate();
    c.ensure_valid(&vec![row(6, &[1.0]), row(7, &[0.0])]).unwrap();
    let ids: Vec<i64> = c.entries().iter().map(|e| e.0).collect();
    assert_eq!(ids, vec![6, 7]);
    c.invalidate();
    assert_eq!(c.ensure_valid(&vec![(8, vec![0; 6])]), Err(CodecError::MalformedVectorBytes));
    assert!(!c.is_valid());
}

#[test]
fn malformed_row_fails_rebuild() {
    let mut c = VectorCache::new();
    let r = c.rebuild(&vec![row(1, &[1.0]), (2, vec![1, 2, 3])]);
    assert_eq!(r, Err(CodecError::MalformedVectorBytes));
    assert!(!c.is_valid());
    assert!(c.entries().is_empty());
}
