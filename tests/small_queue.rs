use utcp::utils::{checksum16, SmallQueue};

#[test]
fn test_small_queue() {
    let mut q = SmallQueue::<i32, 3>::new();
    assert_eq!(q.pop_front(), None);
    q.push(1);
    q.push(2);
    q.push(3);
    q.push(4);
    assert_eq!(q.pop_front(), Some(2));
    assert_eq!(q.pop_front(), Some(3));
    assert_eq!(q.pop_front(), Some(4));
    assert_eq!(q.pop_front(), None);
    q.push(5);
    q.push(6);
    assert_eq!(q.pop_front(), Some(5));
    assert_eq!(q.pop_front(), Some(6));
    assert_eq!(q.pop_front(), None);
    q.push(7);
    q.push(8);
    q.push(9);
    q.push(10);
    q.push(11);
    q.push(12);
    q.push(13);
    assert_eq!(q.pop_front(), Some(11));
    assert_eq!(q.pop_front(), Some(12));
    assert_eq!(q.pop_front(), Some(13));
}

#[test]
fn test_small_queue2() {
    let mut q = SmallQueue::<(u16, Vec<u8>), 3>::new();
    q.push((1, b"Hello, World".to_vec()));
    q.push((2, b"Hello, Rust".to_vec()));
    assert_eq!(q.pop_front(), Some((1, b"Hello, World".to_vec())));
    assert_eq!(q.pop_front(), Some((2, b"Hello, Rust".to_vec())));
}

#[test]
fn small_queue_len_never_exceeds_capacity() {
    let mut q = SmallQueue::<u32, 4>::new();
    assert!(q.is_empty());
    assert_eq!(q.len(), 0);
    for i in 0..10u32 {
        assert_eq!(q.push(i), Some(()));
        assert!(q.len() <= 4);
        assert_eq!(q.len(), std::cmp::min(i as usize + 1, 4));
    }
    assert!(!q.is_empty());
    assert_eq!(q.pop_front(), Some(6));
    assert_eq!(q.pop_front(), Some(7));
    assert_eq!(q.pop_front(), Some(8));
    assert_eq!(q.pop_front(), Some(9));
    assert_eq!(q.pop_front(), None);
    assert!(q.is_empty());
}

#[test]
fn small_queue_of_one_keeps_latest() {
    let mut q = SmallQueue::<u8, 1>::new();
    q.push(1);
    q.push(2);
    assert_eq!(q.len(), 1);
    assert_eq!(q.pop_front(), Some(2));
    assert_eq!(q.pop_front(), None);
}

#[test]
fn checksum_of_empty_is_all_ones() {
    assert_eq!(checksum16(&[], 0), 0xffff);
}

#[test]
fn checksum_uses_little_endian_words() {
    assert_eq!(checksum16(&[0x01, 0x02], 0), 0xfdfe);
    assert_eq!(checksum16(&[0x01], 0), 0xfffe);
    assert_eq!(checksum16(&[0x01, 0x02, 0x03], 0), !0x0204u16);
}

#[test]
fn checksum_folds_carries_and_seed() {
    assert_eq!(checksum16(&[0xff, 0xff, 0x02, 0x00], 0), !0x0002u16);
    assert_eq!(checksum16(&[], 0x0001_0002), !0x0003u16);
    assert_eq!(checksum16(&[0xff, 0xff], 0xffff_ffff), !0xffffu16);
}
