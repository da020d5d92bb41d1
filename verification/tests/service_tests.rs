use cola_store::errors::{NotFound, UploadError};
use cola_store::hex::{digest_hex, parse_locator};
use cola_store::service::Service;
use cola_store::staging::StagingHandle;

fn one_chunk(data: &[u8]) -> Vec<Vec<u8>> {
    vec![data.to_vec()]
}

fn put(s: &mut Service, name: Option<&[u8]>, data: &[u8]) -> Result<u64, UploadError> {
    let chunks = one_chunk(data);
    match name {
        None => s.put_stream(None, &chunks),
        Some(n) => {
            let n = n.to_vec();
            s.put_stream(Some(&n), &chunks)
        }
    }
}

fn get(s: &Service, locator: &[u8]) -> Result<Vec<u8>, NotFound> {
    let loc = locator.to_vec();
    s.get_stream(&loc)
}

#[test]
fn round_trip_by_digest() {
    let mut s = Service::new();
    let d = put(&mut s, None, b"hello world").unwrap();
    let loc = digest_hex(d);
    assert_eq!(get(&s, &loc).unwrap(), b"hello world".to_vec());
}

#[test]
fn round_trip_empty_object() {
    let mut s = Service::new();
    let d = put(&mut s, None, b"").unwrap();
    let loc = digest_hex(d);
    assert_eq!(get(&s, &loc).unwrap(), Vec::<u8>::new());
}

#[test]
fn chunking_does_not_change_digest() {
    let mut s1 = Service::new();
    let d1 = s1
        .put_stream(None, &vec![b"he".to_vec(), b"llo".to_vec(), Vec::new()])
        .unwrap();
    let mut s2 = Service::new();
    let d2 = s2.put_stream(None, &vec![b"hello".to_vec()]).unwrap();
    assert_eq!(d1, d2);
}

#[test]
fn dedup_sequential_uploads() {
    let mut s = Service::new();
    let d1 = put(&mut s, None, b"same bytes").unwrap();
    let d2 = put(&mut s, None, b"same bytes").unwrap();
    assert_eq!(d1, d2);
    assert_eq!(s.object_count(), 1);
}

#[test]
fn distinct_content_distinct_objects() {
    let mut s = Service::new();
    let d1 = put(&mut s, None, b"one").unwrap();
    let d2 = put(&mut s, None, b"two").unwrap();
    assert_ne!(d1, d2);
    assert_eq!(s.object_count(), 2);
}

#[test]
fn invalid_names_rejected_without_effect() {
    let mut s = Service::new();
    for bad in [
        &b""[..],
        &b"."[..],
        &b".."[..],
        &b"a/b"[..],
        &b"/a"[..],
        &b"a/"[..],
        &b"a\\b"[..],
        &b"a\0b"[..],
    ] {
        let r = put(&mut s, Some(bad), b"payload");
        assert_eq!(r, Err(UploadError::InvalidName));
    }
    assert_eq!(s.object_count(), 0);
    assert_eq!(s.alias_count(), 0);
}

#[test]
fn dotted_names_accepted() {
    let mut s = Service::new();
    assert!(put(&mut s, Some(b"a..b"), b"x").is_ok());
    assert!(put(&mut s, Some(b".hidden"), b"x").is_ok());
    assert_eq!(s.alias_count(), 2);
    assert_eq!(s.object_count(), 1);
}

#[test]
fn aborted_upload_leaves_nothing() {
    // Learn what digest the partial content would have produced.
    let mut probe = Service::new();
    let d = put(&mut probe, None, b"partial upl").unwrap();

    let mut s = Service::new();
    let mut h = StagingHandle::begin();
    h.write_chunk(&b"partial upl".to_vec()).unwrap();
    h.abort();
    let loc = digest_hex(d);
    assert_eq!(get(&s, &loc), Err(NotFound));
    assert_eq!(s.object_count(), 0);
    // The store still accepts a later, completed upload of the same bytes.
    let d2 = put(&mut s, None, b"partial upl").unwrap();
    assert_eq!(d2, d);
    assert_eq!(get(&s, &loc).unwrap(), b"partial upl".to_vec());
}

#[test]
fn alias_repoint_moves_reference() {
    let mut s = Service::new();
    let d1 = put(&mut s, Some(b"n"), b"first").unwrap();
    assert_eq!(s.ref_count(d1), Some(1));
    let d2 = put(&mut s, Some(b"n"), b"second").unwrap();
    assert_ne!(d1, d2);
    assert_eq!(s.resolve(&b"n".to_vec()), Ok(d2));
    assert_eq!(s.ref_count(d1), Some(0));
    assert_eq!(s.ref_count(d2), Some(1));
    assert_eq!(s.alias_count(), 1);
}

#[test]
fn alias_rebind_same_digest_is_noop() {
    let mut s = Service::new();
    let d = put(&mut s, Some(b"n"), b"bytes").unwrap();
    let d2 = put(&mut s, Some(b"n"), b"bytes").unwrap();
    assert_eq!(d, d2);
    assert_eq!(s.ref_count(d), Some(1));
    assert_eq!(s.alias_count(), 1);
    assert_eq!(s.object_count(), 1);
}

#[test]
fn scenario_greeting() {
    let mut s = Service::new();
    let h = put(&mut s, Some(b"greeting.txt"), b"hello").unwrap();
    assert_eq!(get(&s, b"greeting.txt").unwrap(), b"hello".to_vec());
    let loc = digest_hex(h);
    assert_eq!(get(&s, &loc).unwrap(), b"hello".to_vec());
    let h2 = put(&mut s, Some(b"again.txt"), b"hello").unwrap();
    assert_eq!(h2, h);
    assert_eq!(s.object_count(), 1);
    assert_eq!(s.alias_count(), 2);
    assert_eq!(s.ref_count(h), Some(2));
}

#[test]
fn get_unknown_locator_not_found() {
    let s = Service::new();
    assert_eq!(get(&s, b"missing"), Err(NotFound));
    assert_eq!(get(&s, b"0123456789abcdef"), Err(NotFound));
}

#[test]
fn digest_shaped_locator_never_read_as_alias() {
    let mut s = Service::new();
    // An alias whose name is itself sixteen hex digits is shadowed by the
    // digest reading of the locator.
    let d = put(&mut s, Some(b"0000000000000000"), b"bytes").unwrap();
    assert_ne!(d, 0);
    assert_eq!(get(&s, b"0000000000000000"), Err(NotFound));
    // The same object is still reachable through its real locator.
    assert_eq!(get(&s, &digest_hex(d)).unwrap(), b"bytes".to_vec());
}

#[test]
fn remove_alias_then_reclaim() {
    let mut s = Service::new();
    let d = put(&mut s, Some(b"n"), b"bytes").unwrap();
    assert_eq!(s.remove_alias(&b"n".to_vec()), Ok(()));
    assert_eq!(s.resolve(&b"n".to_vec()), Err(NotFound));
    assert_eq!(s.ref_count(d), Some(0));
    assert!(s.delete_if_unreferenced(d));
    assert_eq!(s.ref_count(d), None);
    assert_eq!(get(&s, &digest_hex(d)), Err(NotFound));
    assert_eq!(s.object_count(), 0);
}

#[test]
fn remove_missing_alias_fails() {
    let mut s = Service::new();
    assert_eq!(s.remove_alias(&b"n".to_vec()), Err(NotFound));
}

#[test]
fn delete_referenced_object_refused() {
    let mut s = Service::new();
    let d = put(&mut s, Some(b"n"), b"bytes").unwrap();
    assert!(!s.delete_if_unreferenced(d));
    assert_eq!(get(&s, &digest_hex(d)).unwrap(), b"bytes".to_vec());
}

#[test]
fn digest_values_match_published_vectors() {
    // The digest is the 64-bit FNV-1a function; its published test vectors
    // pin the formula down.
    let mut s = Service::new();
    let d_empty = put(&mut s, None, b"").unwrap();
    assert_eq!(d_empty, 0xcbf29ce484222325);
    let d_a = put(&mut s, None, b"a").unwrap();
    assert_eq!(d_a, 0xaf63dc4c8601ec8c);
}

#[test]
fn locator_spelling_round_trip() {
    let d: u64 = 0x0123456789abcdef;
    let loc = digest_hex(d);
    assert_eq!(loc, b"0123456789abcdef".to_vec());
    assert_eq!(parse_locator(&loc), Some(d));
    assert_eq!(parse_locator(&digest_hex(0)), Some(0));
    assert_eq!(parse_locator(&digest_hex(u64::MAX)), Some(u64::MAX));
}

#[test]
fn locator_parsing_rejects_non_digests() {
    assert_eq!(parse_locator(&b"0123".to_vec()), None);
    assert_eq!(parse_locator(&b"0123456789abcdeg".to_vec()), None);
    assert_eq!(parse_locator(&b"0123456789ABCDEF".to_vec()), None);
    assert_eq!(parse_locator(&b"0123456789abcdef0".to_vec()), None);
    assert_eq!(parse_locator(&Vec::new()), None);
}
