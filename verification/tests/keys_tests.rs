use sonic::item::{bucket, Bucket, StoreObjectIid, StoreObjectOid, StoreTermHash};
use sonic::keyer::{StoreKeyerBuilder, StoreKeyerHasher, IDX_TERM_POSTING};
use sonic::kv_keys::{KvStoreKey, StoreKVKey, StoreMetaKey, KEY_SEPARATOR};

fn b(name: &'static str) -> Bucket<'static> {
    Bucket::from_part(bucket(name))
}

#[test]
fn it_keys_fixed_routes() {
    assert_eq!(
        StoreKeyerBuilder::term_posting(42, "hello", 9).as_bytes(),
        b"\0\0\0\x2a\x01\0\0\0\x05hello\0\x09"
    );
    assert_eq!(
        StoreKeyerBuilder::term_posting_prefix(42, "hello"),
        b"\0\0\0\x2a\x01\0\0\0\x05hello"
    );
    assert_eq!(
        StoreKeyerBuilder::term_frequency(42, "hello").as_bytes(),
        b"\0\0\0\x2a\x09\0\0\0\x05hello"
    );
    assert_eq!(
        StoreKeyerBuilder::iid_to_oid(42, 9).as_bytes(),
        &[0, 0, 0, 42, 3, 0, 0, 0, 9]
    );
    assert_eq!(
        StoreKeyerBuilder::time_posting(42, 7, 9).as_bytes(),
        &[0, 0, 0, 42, 8, 0, 0, 0, 0, 0, 0, 0, 7, 0, 9]
    );
    assert_eq!(
        StoreKeyerBuilder::document(42, 9).as_bytes(),
        &[0, 0, 0, 42, 0, 0, 0, 9]
    );
}

#[test]
fn it_keeps_names_in_dictionary_keys() {
    assert_eq!(
        StoreKeyerBuilder::bucket_name_to_id("bucket:1").as_bytes(),
        b"\0\0\0\0\x05bucket:1"
    );
    assert_eq!(
        StoreKeyerBuilder::oid_to_iid(4, "message:123").as_bytes(),
        b"\0\0\0\x04\x02message:123"
    );
}

#[test]
fn it_orders_numeric_key_parts_and_groups_buckets() {
    assert!(
        StoreKeyerBuilder::document(1, 256).as_bytes()
            < StoreKeyerBuilder::document(2, 1).as_bytes()
    );
    assert!(
        StoreKeyerBuilder::document(2, 255).as_bytes()
            < StoreKeyerBuilder::document(2, 256).as_bytes()
    );
    assert_eq!(
        StoreKeyerBuilder::family(StoreKeyerBuilder::term_posting(2, "hello", 0).as_bytes()),
        Some(IDX_TERM_POSTING)
    );
    assert_eq!(
        StoreKeyerBuilder::decode_u32_ordered(&[0, 0, 1, 0]),
        Some(256)
    );
}

#[test]
fn it_hashes_collection_names() {
    assert_eq!(StoreKeyerHasher::to_compact("key:1"), 3370353088);
    assert_eq!(StoreKeyerHasher::to_compact("key:2"), 1042559698);
}

#[test]
fn it_builds_the_other_keyer_keys() {
    assert_eq!(
        StoreKeyerBuilder::meta_to_value(3, &StoreMetaKey::ObjectCount).as_bytes(),
        &[0, 0, 0, 3, 0, 0, 0, 0, 1]
    );
    assert_eq!(
        StoreKeyerBuilder::iid_to_terms(3, 258).as_bytes(),
        &[0, 0, 0, 3, 4, 0, 0, 1, 2]
    );
    assert_eq!(
        StoreKeyerBuilder::iid_to_timestamp(3, 1).as_bytes(),
        &[0, 0, 0, 3, 7, 0, 0, 0, 1]
    );
    assert_eq!(
        StoreKeyerBuilder::bucket_id_to_name(7).as_bytes(),
        &[0, 0, 0, 0, 6, 0, 0, 0, 7]
    );
    assert_eq!(StoreKeyerBuilder::bucket_name_prefix(), vec![0, 0, 0, 0, 5]);
    assert_eq!(StoreKeyerBuilder::term_posting_family_prefix(2), vec![0, 0, 0, 2, 1]);
    assert_eq!(StoreKeyerBuilder::time_posting_prefix(2), vec![0, 0, 0, 2, 8]);
    assert_eq!(StoreKeyerBuilder::document_prefix(2), vec![0, 0, 0, 2]);
    assert_eq!(StoreKeyerBuilder::bucket_prefix(9, 1), vec![0, 0, 0, 1, 9]);
    assert_eq!(StoreKeyerBuilder::bucket_indexes(), vec![0, 1, 2, 3, 4, 7, 8, 9]);
    assert_eq!(StoreKeyerBuilder::posting_indexes(), vec![1, 8]);
    assert_eq!(StoreKeyerBuilder::family(&[0, 0, 0, 1]), None);
    assert_eq!(StoreKeyerBuilder::decode_u32_ordered(&[0, 1, 0]), None);
}

#[test]
fn it_decodes_term_routes() {
    let route = b"\0\0\0\x05hello\0\x09";
    assert_eq!(
        StoreKeyerBuilder::decode_term_route_with_suffix(route, 2),
        Some("hello")
    );
    assert_eq!(StoreKeyerBuilder::decode_term_route_with_suffix(route, 1), None);
    assert_eq!(StoreKeyerBuilder::decode_term_route_with_suffix(&route[..3], 0), None);
    assert_eq!(
        StoreKeyerBuilder::decode_term_route_with_suffix(b"\0\0\0\x09hello", 0),
        None
    );
    assert_eq!(
        StoreKeyerBuilder::decode_term_route_with_suffix(b"\0\0\0\x01\xff", 0),
        None
    );
}

#[test]
fn it_keys_meta_to_value() {
    assert_eq!(
        KvStoreKey::meta_to_value(&b("b:1"), &StoreMetaKey::IIDIncr).as_bytes(),
        [b'b', b':', b'1', KEY_SEPARATOR, 0, 0, 0, 0, 0]
    );
}

#[test]
fn it_keys_term_to_iids() {
    assert_eq!(
        KvStoreKey::term_to_iids(&b("b:2"), StoreTermHash::new(772137347)).as_bytes(),
        [b'b', b':', b'2', KEY_SEPARATOR, 1, 46, 5, 225, 131]
    );
    assert_eq!(
        KvStoreKey::term_to_iids(&b("b:2"), StoreTermHash::new(3582484684)).as_bytes(),
        [b'b', b':', b'2', KEY_SEPARATOR, 1, 213, 136, 96, 204]
    );
}

#[test]
fn it_keys_oid_to_iid() {
    assert_eq!(
        KvStoreKey::oid_to_iid(
            &b("b:3"),
            StoreObjectOid::from_part(bucket("conversation:6501e83a"))
        )
        .as_bytes(),
        [b'b', b':', b'3', KEY_SEPARATOR, 2, 213, 118, 156, 31]
    );
}

#[test]
fn it_keys_iid_to_oid() {
    assert_eq!(
        KvStoreKey::iid_to_oid(&b("b:4"), StoreObjectIid::new(10292198)).as_bytes(),
        [b'b', b':', b'4', KEY_SEPARATOR, 3, 0, 157, 11, 230]
    );
}

#[test]
fn iid_to_oid_is_lexicographically_sorted() {
    assert!(
        KvStoreKey::iid_to_oid(&b("b:4"), StoreObjectIid::new(1)).as_bytes()
            < KvStoreKey::iid_to_oid(&b("b:4"), StoreObjectIid::new(2)).as_bytes()
    );
}

#[test]
fn it_keys_iid_to_terms() {
    assert_eq!(
        KvStoreKey::iid_to_terms(&b("b:5"), StoreObjectIid::new(1)).as_bytes(),
        [b'b', b':', b'5', KEY_SEPARATOR, 4, 0, 0, 0, 1]
    );
    assert_eq!(
        KvStoreKey::iid_to_terms(&b("b:5"), StoreObjectIid::new(20)).as_bytes(),
        [b'b', b':', b'5', KEY_SEPARATOR, 4, 0, 0, 0, 20]
    );
}

#[test]
fn it_hashes_compact() {
    assert_eq!(StoreObjectOid::from_part(bucket("key:1")).to_compact(), 3370353088);
    assert_eq!(StoreObjectOid::from_part(bucket("key:2")).to_compact(), 1042559698);
}

#[test]
fn it_formats_key() {
    assert_eq!(
        &KvStoreKey::term_to_iids(&b("b:6"), StoreTermHash::new(72137347)).to_string(),
        r#""b:6":1:44cba83"#
    );
    assert_eq!(
        &KvStoreKey::meta_to_value(&b("b:6"), &StoreMetaKey::IIDIncr).to_string(),
        r#""b:6":0:0"#
    );
}

#[test]
fn it_formats_keys_with_escaped_bucket_names() {
    assert_eq!(
        &KvStoreKey::iid_to_oid(&b("a\"b\\c\td\x01"), StoreObjectIid::new(255)).to_string(),
        "\"a\\\"b\\\\c\\td\\u{1}\":3:ff"
    );
    assert_eq!(
        &KvStoreKey::meta_to_value(&b("it's"), &StoreMetaKey::ObjectCount).to_string(),
        "\"it's\":0:1"
    );
}

#[test]
fn it_computes_key_ranges() {
    let range = KvStoreKey::prefix_range(&b("ABC"));
    assert_eq!(range.start, &[b'A', b'B', b'C', KEY_SEPARATOR]);
    assert_eq!(range.end, &[b'A', b'B', b'C', KEY_SEPARATOR + 1]);
}

#[test]
fn it_keeps_bucket_keys_inside_their_range() {
    let range = KvStoreKey::prefix_range(&b("ABC"));
    let key = KvStoreKey::iid_to_terms(&b("ABC"), StoreObjectIid::new(u32::MAX));
    assert!(range.start.as_slice() < key.as_bytes());
    assert!(key.as_bytes() < range.end.as_slice());
    let other = KvStoreKey::iid_to_terms(&b("ABCD"), StoreObjectIid::new(0));
    assert!(!(range.start.as_slice() <= other.as_bytes() && other.as_bytes() < range.end.as_slice()));
}

#[test]
fn it_names_kv_stores() {
    assert_eq!(StoreKVKey::from_str("key:1").collection_hash, 3370353088);
    assert_eq!(StoreKVKey::from_atom(255).to_string(), "<ff>");
    assert_eq!(StoreMetaKey::IIDIncr.as_u32(), 0);
    assert_eq!(StoreMetaKey::ObjectCount.as_u32(), 1);
}
