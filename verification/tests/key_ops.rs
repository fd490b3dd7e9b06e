//! Tests of the bit-key algebra.

use urkel_tree::key::{DepthTrait, KeyTrait};

#[test]
fn to_bytes_rounds_up() {
    assert_eq!(0u16.to_bytes(), 0);
    assert_eq!(1u16.to_bytes(), 1);
    assert_eq!(8u16.to_bytes(), 1);
    assert_eq!(9u16.to_bytes(), 2);
    assert_eq!(16u16.to_bytes(), 2);
    assert_eq!(17u16.to_bytes(), 3);
}

#[test]
fn get_bit_reads_msb_first() {
    let k: Vec<u8> = vec![0x80, 0x01];
    assert!(k.get_bit(0));
    assert!(!k.get_bit(1));
    assert!(!k.get_bit(14));
    assert!(k.get_bit(15));
}

#[test]
fn set_bit_round_trip() {
    let k: Vec<u8> = vec![0x00, 0x00];
    for i in 0..16u16 {
        let set = k.set_bit(i, true);
        assert!(set.get_bit(i));
        for j in 0..16u16 {
            if j != i {
                assert!(!set.get_bit(j));
            }
        }
        let cleared = set.set_bit(i, false);
        assert!(!cleared.get_bit(i));
        assert_eq!(cleared, k);
    }
}

#[test]
fn set_bit_grows_buffer() {
    let k: Vec<u8> = vec![0xFF];
    let grown = k.set_bit(10, true);
    assert_eq!(grown, vec![0xFF, 0x20]);
    assert!(grown.get_bit(10));
    assert!(grown.get_bit(0));
}

#[test]
fn bit_length_is_byte_count_times_eight() {
    let k: Vec<u8> = vec![0, 0, 0];
    assert_eq!(k.bit_length(), 24);
    let e: Vec<u8> = vec![];
    assert_eq!(e.bit_length(), 0);
}

#[test]
fn split_at_bit_three() {
    let k: Vec<u8> = vec![0xF0, 0x0F];
    let (p, s) = k.split(3, 16);
    assert_eq!(p, vec![0xE0]);
    assert_eq!(s, vec![0x80, 0x78]);
}

#[test]
fn split_on_byte_boundary() {
    let k: Vec<u8> = vec![0xAB, 0xCD];
    let (p, s) = k.split(8, 16);
    assert_eq!(p, vec![0xAB]);
    assert_eq!(s, vec![0xCD]);
}

#[test]
fn split_masks_prefix_tail() {
    let k: Vec<u8> = vec![0xFF];
    let (p, s) = k.split(1, 8);
    assert_eq!(p, vec![0x80]);
    assert_eq!(s, vec![0xFE]);
}

#[test]
fn merge_inverts_split() {
    let k: Vec<u8> = vec![0xF0, 0x0F];
    let (p, s) = k.split(3, 16);
    let merged = p.merge(3, &s, 13);
    assert_eq!(merged, vec![0xF0, 0x0F]);
}

#[test]
fn merge_inverts_split_various_points() {
    let k: Vec<u8> = vec![0xDE, 0xAD, 0xBE];
    for m in 0..=24u16 {
        let (p, s) = k.split(m, 24);
        let merged = p.merge(m, &s, 24 - m);
        assert_eq!(merged, k, "split point {}", m);
    }
}

#[test]
fn merge_on_empty_prefix() {
    let p: Vec<u8> = vec![];
    let s: Vec<u8> = vec![0x5A];
    let merged = p.merge(0, &s, 8);
    assert_eq!(merged, vec![0x5A]);
}

#[test]
fn append_bit_extends_by_one() {
    let k: Vec<u8> = vec![0xF0];
    let a = k.append_bit(4, true);
    assert_eq!(a, vec![0xF8]);
    let b = k.append_bit(4, false);
    assert_eq!(b, vec![0xF0]);
    let c = k.append_bit(8, true);
    assert_eq!(c, vec![0xF0, 0x80]);
}

#[test]
fn common_prefix_len_counts_shared_bits() {
    let a: Vec<u8> = vec![0xFF, 0x00];
    let b: Vec<u8> = vec![0xFF, 0x80];
    assert_eq!(a.common_prefix_len(16, &b, 16), 8);
    let c: Vec<u8> = vec![0x0F];
    assert_eq!(a.common_prefix_len(16, &c, 8), 0);
}

#[test]
fn common_prefix_len_is_capped_at_both_lengths() {
    let a: Vec<u8> = vec![0xAA];
    let b: Vec<u8> = vec![0xAA, 0xBB];
    assert_eq!(a.common_prefix_len(8, &b, 16), 8);
    assert_eq!(a.common_prefix_len(3, &b, 16), 3);
    assert_eq!(b.common_prefix_len(16, &a, 8), 8);
}

#[test]
fn common_prefix_len_of_identical_keys() {
    let a: Vec<u8> = vec![0x12, 0x34];
    assert_eq!(a.common_prefix_len(16, &a, 16), 16);
    assert_eq!(a.common_prefix_len(11, &a, 16), 11);
}

#[test]
fn split_empty_key() {
    let k: Vec<u8> = vec![];
    let (p, s) = k.split(0, 0);
    assert!(p.is_empty());
    assert!(s.is_empty());
}

#[test]
fn common_prefix_len_with_empty_key() {
    let a: Vec<u8> = vec![];
    let b: Vec<u8> = vec![0xFF];
    assert_eq!(a.common_prefix_len(0, &b, 8), 0);
}
