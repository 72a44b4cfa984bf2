use sonic::item::{
    bucket, Bucket, BucketOwned, StoreItemBuilder, StoreItemError, StoreObjectIid, StoreObjectOid,
    StoreTermHash,
};

#[test]
fn identifiers_it_hashes_term() {
    assert_eq!(StoreTermHash::from_term("hash:1").into_inner(), 3637660813);
    assert_eq!(StoreTermHash::from_term("hash:2").into_inner(), 3577985381);
    assert_eq!(StoreTermHash::from_term("hash:3").into_inner(), 0724158430);
    assert_eq!(StoreTermHash::from_term("hash:4").into_inner(), 0618576593);
}

#[test]
fn types_it_hashes_term() {
    assert_eq!(StoreTermHash::from_term("hash:1").into_inner(), 3637660813);
    assert_eq!(StoreTermHash::from_term("hash:2").into_inner(), 3577985381);
    assert_eq!(StoreTermHash::from_term("hash:3").into_inner(), 0724158430);
    assert_eq!(StoreTermHash::from_term("hash:4").into_inner(), 0618576593);
}

#[test]
fn item_it_builds_store_item_depth_1() {
    assert_eq!(StoreItemBuilder::from_depth_1("c:test:1"), Ok(bucket("c:test:1")));
    assert_eq!(
        StoreItemBuilder::from_depth_1(""),
        Err(StoreItemError::InvalidCollection)
    );
}

#[test]
fn item_it_builds_store_item_depth_2() {
    assert_eq!(
        StoreItemBuilder::from_depth_2("c:test:2", "b:test:2"),
        Ok((bucket("c:test:2"), Bucket::from_part(bucket("b:test:2"))))
    );
    assert_eq!(
        StoreItemBuilder::from_depth_2("", "b:test:2"),
        Err(StoreItemError::InvalidCollection)
    );
    assert_eq!(
        StoreItemBuilder::from_depth_2("c:test:2", ""),
        Err(StoreItemError::InvalidBucket)
    );
}

#[test]
fn item_it_builds_store_item_depth_3() {
    assert_eq!(
        StoreItemBuilder::from_depth_3("c:test:3", "b:test:3", "o:test:3"),
        Ok((
            bucket("c:test:3"),
            Bucket::from_part(bucket("b:test:3")),
            StoreObjectOid::from_part(bucket("o:test:3"))
        ))
    );
    assert_eq!(
        StoreItemBuilder::from_depth_3("", "b:test:3", "o:test:3"),
        Err(StoreItemError::InvalidCollection)
    );
    assert_eq!(
        StoreItemBuilder::from_depth_3("c:test:3", "", "o:test:3"),
        Err(StoreItemError::InvalidBucket)
    );
    assert_eq!(
        StoreItemBuilder::from_depth_3("c:test:3", "b:test:3", ""),
        Err(StoreItemError::InvalidObject)
    );
}

#[test]
fn types_it_builds_store_item_depth_1() {
    assert_eq!(StoreItemBuilder::from_depth_1("c:test:1"), Ok(bucket("c:test:1")));
    assert_eq!(
        StoreItemBuilder::from_depth_1(""),
        Err(StoreItemError::InvalidCollection)
    );
}

#[test]
fn types_it_builds_store_item_depth_2() {
    assert_eq!(
        StoreItemBuilder::from_depth_2("c:test:2", "b:test:2"),
        Ok((bucket("c:test:2"), Bucket::from_part(bucket("b:test:2"))))
    );
    assert_eq!(
        StoreItemBuilder::from_depth_2("", "b:test:2"),
        Err(StoreItemError::InvalidCollection)
    );
    assert_eq!(
        StoreItemBuilder::from_depth_2("c:test:2", ""),
        Err(StoreItemError::InvalidBucket)
    );
}

#[test]
fn types_it_builds_store_item_depth_3() {
    assert_eq!(
        StoreItemBuilder::from_depth_3("c:test:3", "b:test:3", "o:test:3"),
        Ok((
            bucket("c:test:3"),
            Bucket::from_part(bucket("b:test:3")),
            StoreObjectOid::from_part(bucket("o:test:3"))
        ))
    );
    assert_eq!(
        StoreItemBuilder::from_depth_3("", "b:test:3", "o:test:3"),
        Err(StoreItemError::InvalidCollection)
    );
    assert_eq!(
        StoreItemBuilder::from_depth_3("c:test:3", "", "o:test:3"),
        Err(StoreItemError::InvalidBucket)
    );
    assert_eq!(
        StoreItemBuilder::from_depth_3("c:test:3", "b:test:3", ""),
        Err(StoreItemError::InvalidObject)
    );
}

#[test]
fn it_refuses_long_and_non_ascii_names() {
    let long = "x".repeat(129);
    assert_eq!(
        StoreItemBuilder::from_depth_1(&long),
        Err(StoreItemError::InvalidCollection)
    );
    let longest = "x".repeat(128);
    assert!(StoreItemBuilder::from_depth_1(&longest).is_ok());
    assert_eq!(
        StoreItemBuilder::from_depth_1("caf\u{e9}"),
        Err(StoreItemError::InvalidCollection)
    );
}

#[test]
fn it_saturates_iid_addition() {
    assert_eq!(StoreObjectIid::new(1).saturating_add(2).into_inner(), 3);
    assert_eq!(StoreObjectIid::new(u32::MAX - 1).saturating_add(5).into_inner(), u32::MAX);
}

#[test]
fn it_owns_parsed_bucket_names() {
    assert_eq!(BucketOwned::parse("b:1").unwrap().as_str(), "b:1");
    assert!(BucketOwned::parse("").is_err());
    assert_eq!(
        BucketOwned::from_bucket(Bucket::from_part(bucket("b:2"))).as_str(),
        "b:2"
    );
    assert_eq!(Bucket::from_part(bucket("b:3")).to_bytes(), b"b:3".to_vec());
}
