use loose_objects::codec::{decode_object, encode_frame, encode_object, parse_blob};
use loose_objects::hash::object_hash;
use loose_objects::store::{put_then_get, resolve_location, ObjectStore};
use loose_objects::Error;

#[test]
fn round_trip_identity() {
    let mut store = ObjectStore::new();
    let content = "abcd123".as_bytes();

    let hash = store.put(content);
    let retrieved = store.get(hash.as_str());
    assert_eq!(retrieved, Ok(content.to_vec()));
}

#[test]
fn round_trip_identity_empty_and_binary() {
    let mut store = ObjectStore::new();

    let empty: &[u8] = &[];
    let hash = store.put(empty);
    assert_eq!(store.get(hash.as_str()), Ok(Vec::new()));

    let binary: &[u8] = &[0, 1, 2, 0, 255, 0, 7];
    let hash = store.put(binary);
    assert_eq!(store.get(hash.as_str()), Ok(binary.to_vec()));
}

#[test]
fn put_then_get_returns_content() {
    let mut store = ObjectStore::new();
    let content = "some stored text".as_bytes();

    let retrieved = put_then_get(&mut store, content);
    assert_eq!(retrieved, content.to_vec());
}

#[test]
fn put_is_idempotent() {
    let mut store = ObjectStore::new();
    let content = "abcd123".as_bytes();

    let first = store.put(content);
    let second = store.put(content);
    assert_eq!(first, second);
    assert_eq!(store.get(first.as_str()), Ok(content.to_vec()));
}

#[test]
fn stored_frame_is_tagged_and_sized() {
    let frame = encode_frame("abcd123".as_bytes());
    assert_eq!(frame, "blob 7\0abcd123".as_bytes().to_vec());
}

#[test]
fn get_with_invalid_hash_fails_before_lookup() {
    let store = ObjectStore::new();
    let short = "1234567890";
    let bad_char = "a1b2c3d4e5f6g7h8i9j/a1b2c3d4e5f6g7h8i9j/";

    assert_eq!(store.get(short), Err(Error::InvalidObjectHash(short.to_string())));
    assert_eq!(store.get(bad_char), Err(Error::InvalidObjectHash(bad_char.to_string())));
}

#[test]
fn get_of_unwritten_hash_is_not_found() {
    let store = ObjectStore::new();
    let hash = "a1b2c3d4e5f6g7h8i9j0a1b2c3d4e5f6g7h8i9j0";

    assert_eq!(store.get(hash), Err(Error::ObjectNotFound));
}

#[test]
fn decode_frame_without_null_separator_fails() {
    let actual = parse_blob(Some("blob 5hello".as_bytes()));
    assert_eq!(actual, Err(Error::MalformedObject));
}

#[test]
fn decode_frame_with_non_numeric_size_fails() {
    let actual = parse_blob(Some("blob X\0hello".as_bytes()));
    assert_eq!(actual, Err(Error::MalformedObject));
}

#[test]
fn decode_frame_with_wrong_tag_fails() {
    let actual = parse_blob(Some("tree 5\0hello".as_bytes()));
    assert_eq!(actual, Err(Error::MalformedObject));
}

#[test]
fn decode_trims_extra_whitespace_before_size() {
    let actual = parse_blob(Some("blob   7\0abcd123".as_bytes()));
    assert_eq!(actual, Ok("abcd123".as_bytes().to_vec()));
}

#[test]
fn decode_does_not_cross_check_size_field() {
    // The size field is validated for parseability only; the payload is
    // returned whole.
    let actual = parse_blob(Some("blob 5\0abcd123".as_bytes()));
    assert_eq!(actual, Ok("abcd123".as_bytes().to_vec()));
}

#[test]
fn decode_splits_at_first_null_only() {
    let actual = parse_blob(Some(&[98, 108, 111, 98, 32, 51, 0, 97, 0, 98][..]));
    assert_eq!(actual, Ok(vec![97, 0, 98]));
}

#[test]
fn resolve_location_splits_shard_and_file() {
    let hash = "a1b2c3d4e5f6g7h8i9j0a1b2c3d4e5f6g7h8i9j0";

    let location = resolve_location(hash).unwrap();
    assert_eq!(location.shard, "a1");
    assert_eq!(location.file, "b2c3d4e5f6g7h8i9j0a1b2c3d4e5f6g7h8i9j0");
}

#[test]
fn resolve_location_rejects_malformed_hashes() {
    let long = "a1b2c3d4e5f6g7h8i9j0a1b2c3d4e5f6g7h8i9j01234567890";

    let actual = resolve_location(long);
    assert!(matches!(actual, Err(Error::InvalidObjectHash(h)) if h == long));
}

#[test]
fn object_hash_matches_known_digests() {
    // The SHA-1 digest of "blob 6\0hello\n", as any SHA-1 tool reports it.
    assert_eq!(
        object_hash("hello\n".as_bytes()),
        "ce013625030ba8dba906f756967f9e9ca394464a"
    );
    // The hash is the digest of the frame, rendered in lowercase hex.
    let frame = encode_frame("abcd123".as_bytes());
    let digest = <sha1::Sha1 as sha1::Digest>::digest(&frame);
    let mut expected = String::new();
    for b in digest.iter() {
        expected.push_str(&format!("{:02x}", b));
    }
    assert_eq!(object_hash("abcd123".as_bytes()), expected);
}

#[test]
fn encoded_object_is_compressed() {
    // A zlib stream at the encoder's compression level opens with 0x78 0x9c;
    // the raw frame bytes do not.
    let out = encode_object("abcd123".as_bytes());
    assert_eq!(out[0], 0x78);
    assert_eq!(out[1], 0x9c);
    assert_eq!(decode_object(&out), Ok("abcd123".as_bytes().to_vec()));
}

#[test]
fn decode_of_corrupt_stream_is_malformed() {
    let out = encode_object("abcd123".as_bytes());
    let truncated = &out[..2];
    assert_eq!(decode_object(truncated), Err(Error::MalformedObject));
}
