use cola_store::byteops::{bytes_eq, copy_bytes};
use cola_store::digest::ContentAddresser;
use cola_store::errors::{ClosedAccumulator, InvalidName, NotFound};
use cola_store::name::{path_is_valid, validate};
use cola_store::staging::StagingHandle;
use cola_store::store::ObjectStore;

#[test]
fn accumulator_streams_in_order() {
    let mut a = ContentAddresser::new();
    a.update(&b"he".to_vec()).unwrap();
    a.update(&b"llo".to_vec()).unwrap();
    let d1 = a.finalize().unwrap();

    let mut b = ContentAddresser::new();
    b.update(&b"hello".to_vec()).unwrap();
    let d2 = b.finalize().unwrap();
    assert_eq!(d1, d2);

    let mut c = ContentAddresser::new();
    c.update(&b"ollhe".to_vec()).unwrap();
    let d3 = c.finalize().unwrap();
    assert_ne!(d1, d3);
}

#[test]
fn accumulator_empty_digest_is_seed() {
    let mut a = ContentAddresser::new();
    assert_eq!(a.finalize().unwrap(), 0xcbf29ce484222325);
}

#[test]
fn accumulator_closed_after_finalize() {
    let mut a = ContentAddresser::new();
    a.update(&b"data".to_vec()).unwrap();
    let _ = a.finalize().unwrap();
    assert_eq!(a.update(&b"more".to_vec()), Err(ClosedAccumulator));
    assert_eq!(a.finalize(), Err(ClosedAccumulator));
}

#[test]
fn name_validation() {
    assert!(path_is_valid(&b"greeting.txt".to_vec()));
    assert!(path_is_valid(&b"a..b".to_vec()));
    assert!(path_is_valid(&b"...".to_vec()));
    assert!(!path_is_valid(&b"".to_vec()));
    assert!(!path_is_valid(&b".".to_vec()));
    assert!(!path_is_valid(&b"..".to_vec()));
    assert!(!path_is_valid(&b"a/b".to_vec()));
    assert!(!path_is_valid(&b"/".to_vec()));
    assert!(!path_is_valid(&b"a\\b".to_vec()));
    assert!(!path_is_valid(&b"nul\0".to_vec()));
}

#[test]
fn validate_keeps_accepted_names() {
    let v = validate(&b"name.txt".to_vec()).unwrap();
    assert_eq!(v.bytes, b"name.txt".to_vec());
    assert_eq!(validate(&b"a/b".to_vec()).err(), Some(InvalidName));
}

#[test]
fn staging_commit_and_dedup() {
    let mut store = ObjectStore::new();

    let mut h = StagingHandle::begin();
    h.write_chunk(&b"abc".to_vec()).unwrap();
    h.write_chunk(&b"def".to_vec()).unwrap();
    let d = h.commit(&mut store).unwrap();
    assert!(store.contains(d));
    assert_eq!(store.get(d).unwrap(), b"abcdef".to_vec());

    let mut h2 = StagingHandle::begin();
    h2.write_chunk(&b"abcdef".to_vec()).unwrap();
    let d2 = h2.commit(&mut store).unwrap();
    assert_eq!(d, d2);
    assert_eq!(store.get(d).unwrap(), b"abcdef".to_vec());
}

#[test]
fn staging_abort_discards() {
    let mut store = ObjectStore::new();
    let mut h = StagingHandle::begin();
    h.write_chunk(&b"soon gone".to_vec()).unwrap();
    h.abort();

    let mut probe = StagingHandle::begin();
    probe.write_chunk(&b"soon gone".to_vec()).unwrap();
    let mut other = ObjectStore::new();
    let d = probe.commit(&mut other).unwrap();
    assert!(!store.contains(d));
    assert_eq!(store.get(d), Err(NotFound));
}

#[test]
fn store_reference_counting() {
    let mut store = ObjectStore::new();
    let mut h = StagingHandle::begin();
    h.write_chunk(&b"blob".to_vec()).unwrap();
    let d = h.commit(&mut store).unwrap();

    assert_eq!(store.ref_count(d), Some(0));
    store.increment_ref(d);
    store.increment_ref(d);
    assert_eq!(store.ref_count(d), Some(2));
    assert_eq!(store.decrement_ref(d), 1);
    assert!(!store.delete_if_unreferenced(d));
    assert_eq!(store.decrement_ref(d), 0);
    assert!(store.delete_if_unreferenced(d));
    assert!(!store.contains(d));
    assert_eq!(store.ref_count(d), None);
    assert!(!store.delete_if_unreferenced(d));
}

#[test]
fn byte_helpers() {
    let a = b"some bytes".to_vec();
    let b = copy_bytes(&a);
    assert_eq!(a, b);
    assert!(bytes_eq(&a, &b));
    assert!(!bytes_eq(&a, &b"some byteZ".to_vec()));
    assert!(!bytes_eq(&a, &b"some".to_vec()));
    assert!(bytes_eq(&Vec::new(), &Vec::new()));
}
