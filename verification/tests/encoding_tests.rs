use sonic::encoding::{
    decode_i32_counter, decode_iid, decode_iids_list, decode_kv_key_part, decode_term_hash,
    decode_terms_list, decode_u32, decode_u32_counter, decode_u32_list, encode_i32_counter,
    encode_iid, encode_iids_list, encode_kv_key_part, encode_term_hash, encode_terms_list,
    encode_u32, encode_u32_counter, encode_u32_list, try_decode_iid,
};
use sonic::item::{StoreObjectIid, StoreTermHash};

#[test]
fn kv_it_encodes_atom() {
    assert_eq!(encode_u32(0), [0, 0, 0, 0]);
    assert_eq!(encode_u32(1), [1, 0, 0, 0]);
    assert_eq!(encode_u32(45402), [90, 177, 0, 0]);
}

#[test]
fn kv_it_decodes_atom() {
    assert_eq!(decode_u32(&[0, 0, 0, 0]), Ok(0));
    assert_eq!(decode_u32(&[1, 0, 0, 0]), Ok(1));
    assert_eq!(decode_u32(&[90, 177, 0, 0]), Ok(45402));
}

#[test]
fn kv_it_encodes_atom_list() {
    assert_eq!(
        encode_u32_list(&[0, 2, 3]),
        [0, 0, 0, 0, 2, 0, 0, 0, 3, 0, 0, 0]
    );
    assert_eq!(encode_u32_list(&[45402]), [90, 177, 0, 0]);
}

#[test]
fn kv_it_decodes_atom_list() {
    assert_eq!(
        decode_u32_list(&[0, 0, 0, 0, 2, 0, 0, 0, 3, 0, 0, 0]),
        Ok(vec![0, 2, 3])
    );
    assert_eq!(decode_u32_list(&[90, 177, 0, 0]), Ok(vec![45402]));
}

#[test]
fn util_it_encodes_atom() {
    assert_eq!(encode_u32(0), [0, 0, 0, 0]);
    assert_eq!(encode_u32(1), [1, 0, 0, 0]);
    assert_eq!(encode_u32(45402), [90, 177, 0, 0]);
}

#[test]
fn util_it_decodes_atom() {
    assert_eq!(decode_u32(&[0, 0, 0, 0]), Ok(0));
    assert_eq!(decode_u32(&[1, 0, 0, 0]), Ok(1));
    assert_eq!(decode_u32(&[90, 177, 0, 0]), Ok(45402));
}

#[test]
fn util_it_encodes_atom_list() {
    assert_eq!(
        encode_u32_list(&[0, 2, 3]),
        [0, 0, 0, 0, 2, 0, 0, 0, 3, 0, 0, 0]
    );
    assert_eq!(encode_u32_list(&[45402]), [90, 177, 0, 0]);
}

#[test]
fn util_it_decodes_atom_list() {
    assert_eq!(
        decode_u32_list(&[0, 0, 0, 0, 2, 0, 0, 0, 3, 0, 0, 0]),
        Ok(vec![0, 2, 3])
    );
    assert_eq!(decode_u32_list(&[90, 177, 0, 0]), Ok(vec![45402]));
}

#[test]
fn it_refuses_partial_atoms() {
    assert_eq!(decode_u32(&[1, 2, 3]), Err(()));
    assert_eq!(decode_u32(&[1, 2, 3, 4, 5]), Err(()));
    assert_eq!(decode_u32_list(&[1, 0, 0, 0, 2]), Err(()));
    assert_eq!(decode_u32_list(&[]), Ok(vec![]));
    assert!(try_decode_iid(&[1, 2]).is_err());
    assert_eq!(try_decode_iid(&[1, 0, 0, 0]).unwrap().into_inner(), 1);
}

#[test]
fn it_encodes_counters_and_key_parts() {
    assert_eq!(encode_i32_counter(-1), [255, 255, 255, 255]);
    assert_eq!(decode_i32_counter([255, 255, 255, 255]), -1);
    assert_eq!(decode_i32_counter(encode_i32_counter(i32::MIN)), i32::MIN);
    assert_eq!(encode_u32_counter(258), [2, 1, 0, 0]);
    assert_eq!(decode_u32_counter([2, 1, 0, 0]), 258);
    assert_eq!(encode_kv_key_part(258), [0, 0, 1, 2]);
    assert_eq!(decode_kv_key_part([0, 0, 1, 2]), 258);
}

#[test]
fn it_encodes_iid_and_term_lists() {
    let iids = [StoreObjectIid::new(1), StoreObjectIid::new(65536)];
    let encoded = encode_iids_list(&iids);
    assert_eq!(encoded, vec![1, 0, 0, 0, 0, 0, 1, 0]);
    let decoded = decode_iids_list(&encoded).unwrap();
    assert_eq!(decoded, iids.to_vec());
    assert_eq!(encode_iid(StoreObjectIid::new(7)), [7, 0, 0, 0]);
    assert_eq!(decode_iid([7, 0, 0, 0]).into_inner(), 7);
    let terms = [StoreTermHash::new(3), StoreTermHash::new(4)];
    let encoded = encode_terms_list(&terms);
    assert_eq!(decode_terms_list(&encoded).unwrap(), terms.to_vec());
    assert_eq!(encode_term_hash(StoreTermHash::new(9)), [9, 0, 0, 0]);
    assert_eq!(decode_term_hash([9, 0, 0, 0]).into_inner(), 9);
    assert!(decode_terms_list(&[1]).is_err());
}
