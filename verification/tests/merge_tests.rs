use sonic::iid::IidCounters;
use sonic::merge::{i32_counter, kv_merge_operator, prepend_u32_list, u32_max};

fn words(values: &[u32]) -> Vec<u8> {
    let mut out = Vec::new();
    for v in values {
        out.extend_from_slice(&v.to_le_bytes());
    }
    out
}

#[test]
fn it_keeps_the_largest_iid_counter() {
    assert_eq!(u32_max(None, &[]), None);
    assert_eq!(u32_max(None, &[words(&[3, 9, 4])]), Some(words(&[9])));
    assert_eq!(
        u32_max(Some(&words(&[12])), &[words(&[3]), words(&[9, 4])]),
        Some(words(&[12]))
    );
    assert_eq!(u32_max(Some(&words(&[12])), &[]), Some(words(&[12])));
    assert_eq!(u32_max(None, &[words(&[]), words(&[])]), Some(words(&[0])));
}

#[test]
fn it_merges_the_maximum_in_steps_and_in_any_order() {
    let a = vec![words(&[5, 1])];
    let b = vec![words(&[7]), words(&[2])];
    let first = u32_max(None, &a).unwrap();
    let stepped = u32_max(Some(&first), &b);
    let mut all = a.clone();
    all.extend(b.clone());
    assert_eq!(stepped, u32_max(None, &all));
    let mut swapped = b.clone();
    swapped.extend(a.clone());
    assert_eq!(u32_max(None, &swapped), u32_max(None, &all));
}

#[test]
fn it_counts_up_and_down() {
    let minus = (-1i32) as u32;
    let down = i32_counter(None, &[words(&[minus, minus])]).unwrap();
    assert_eq!(down, (-2i32).to_le_bytes().to_vec());
    let up = i32_counter(None, &[words(&[1, 1, 1])]).unwrap();
    assert_eq!(up, 3i32.to_le_bytes().to_vec());
    let merged = i32_counter(None, &[down.clone(), up.clone()]).unwrap();
    assert_eq!(merged, 1i32.to_le_bytes().to_vec());
    assert_eq!(i32_counter(None, &[]), None);
    let max = i32::MAX.to_le_bytes();
    assert_eq!(
        i32_counter(Some(&max), &[words(&[5])]),
        Some(i32::MAX.to_le_bytes().to_vec())
    );
    let stepped = i32_counter(Some(&up), &[words(&[minus])]).unwrap();
    assert_eq!(stepped, 2i32.to_le_bytes().to_vec());
}

#[test]
fn it_prepends_new_words_without_repeats() {
    let existing = words(&[10, 20, 30]);
    let merged = prepend_u32_list(Some(&existing), &[words(&[1, 20]), words(&[2, 1])]).unwrap();
    assert_eq!(merged, words(&[2, 20, 1, 10, 30]));
    assert_eq!(prepend_u32_list(None, &[words(&[4, 4, 5])]), Some(words(&[5, 4])));
    assert_eq!(prepend_u32_list(Some(&existing), &[]), Some(existing.clone()));
    let mut tail = words(&[7]);
    tail.extend_from_slice(&[1, 2]);
    assert_eq!(
        prepend_u32_list(Some(&tail), &[words(&[7])]),
        Some(vec![7, 0, 0, 0, 1, 2])
    );
}

#[test]
fn it_dispatches_merges_by_key_family() {
    let iid_incr_key = [b'b', 0xfe, 0, 0, 0, 0, 0];
    let count_key = [b'b', 0xfe, 0, 0, 0, 0, 1];
    let terms_key = [b'b', 0xfe, 1, 0, 0, 0, 9];
    let iids_key = [b'b', 0xfe, 4, 0, 0, 0, 9];
    assert_eq!(
        kv_merge_operator(&iid_incr_key, None, &[words(&[3, 2])]),
        Some(words(&[3]))
    );
    assert_eq!(
        kv_merge_operator(&count_key, None, &[words(&[3, 2])]),
        Some(words(&[5]))
    );
    assert_eq!(
        kv_merge_operator(&terms_key, Some(&words(&[1])), &[words(&[2])]),
        Some(words(&[2, 1]))
    );
    assert_eq!(
        kv_merge_operator(&iids_key, None, &[words(&[6, 6])]),
        Some(words(&[6]))
    );
}

#[test]
fn it_hands_out_iids_per_bucket() {
    let mut counters = IidCounters::new();
    assert_eq!(counters.last_iid(7), None);
    assert_eq!(counters.next_iid(7), (0, [0, 0, 0, 0]));
    assert_eq!(counters.next_iid(7), (1, [1, 0, 0, 0]));
    assert_eq!(counters.next_iid(9), (0, [0, 0, 0, 0]));
    assert_eq!(counters.last_iid(7), Some(1));
    counters.remember(7, 255);
    assert_eq!(counters.next_iid(7), (256, [0, 1, 0, 0]));
    counters.remember(3, u32::MAX);
    assert_eq!(counters.next_iid(3).0, u32::MAX);
}
