//! End-to-end scenarios over value cells, leaves, internal nodes and
//! pointers, with hash values checked against the digest directly.

use sha2::Digest;
use urkel_tree::node::{
    InternalNode, LeafNode, NodeBox, NodeID, NodeKind, NodePointer, Root, TreeError,
    ValuePointer,
};

fn h(parts: &[&[u8]]) -> Vec<u8> {
    let mut hasher = sha2::Sha512_256::new();
    for p in parts {
        hasher.update(p);
    }
    hasher.finalize().to_vec()
}

fn empty_hash() -> Vec<u8> {
    h(&[])
}

fn new_value(bytes: Option<Vec<u8>>) -> ValuePointer {
    ValuePointer { clean: false, hash: Vec::new(), value: bytes }
}

fn new_leaf(round: u64, key: Vec<u8>, value: Option<Vec<u8>>) -> LeafNode {
    LeafNode { clean: false, round, hash: Vec::new(), key, value: new_value(value) }
}

fn leaf_ptr(leaf: LeafNode) -> NodePointer {
    NodePointer {
        clean: true,
        hash: leaf.hash.clone(),
        node: Some(Box::new(NodeBox::Leaf(leaf))),
    }
}

#[test]
fn empty_leaf_hash() {
    let mut leaf = new_leaf(0, vec![], None);
    leaf.value.update_hash();
    assert_eq!(leaf.value.hash, empty_hash());
    leaf.update_hash();
    let expected = h(&[&[0x00], &0u64.to_be_bytes(), &[], &empty_hash()]);
    assert_eq!(leaf.hash, expected);
}

#[test]
fn single_byte_leaf_hash_and_validate() {
    let mut leaf = new_leaf(7, vec![0xA5], Some(vec![0x01, 0x02]));
    leaf.value.update_hash();
    assert_eq!(leaf.value.hash, h(&[&[0x01, 0x02]]));
    leaf.value.clean = true;
    leaf.update_hash();
    let expected = h(&[&[0x00], &7u64.to_be_bytes(), &[0xA5], &h(&[&[0x01, 0x02]])]);
    assert_eq!(leaf.hash, expected);

    let good = leaf.hash.clone();
    assert!(leaf.validate(good).is_ok());
    let bad = h(&[&[0xFF]]);
    match leaf.validate(bad.clone()) {
        Err(TreeError::HashMismatch { expected_hash, computed_hash }) => {
            assert_eq!(expected_hash, bad);
            assert_eq!(computed_hash, expected);
        }
        _ => panic!("expected a hash mismatch"),
    }
}

#[test]
fn internal_with_two_leaves_hash() {
    let mut left = new_leaf(7, vec![0xA5], Some(vec![0x01, 0x02]));
    left.value.update_hash();
    left.value.clean = true;
    left.update_hash();
    left.clean = true;
    let mut right = new_leaf(7, vec![0x5A], Some(vec![0x03]));
    right.value.update_hash();
    right.value.clean = true;
    right.update_hash();
    right.clean = true;

    let left_hash = left.hash.clone();
    let right_hash = right.hash.clone();
    let mut internal = InternalNode {
        clean: false,
        round: 7,
        hash: Vec::new(),
        label: vec![0x80],
        label_bit_length: 1,
        leaf_node: NodePointer::null_ptr(),
        left: leaf_ptr(left),
        right: leaf_ptr(right),
    };
    internal.update_hash();
    let expected = h(&[
        &[0x01],
        &7u64.to_be_bytes(),
        &1u16.to_be_bytes(),
        &[0x80],
        &empty_hash(),
        &left_hash,
        &right_hash,
    ]);
    assert_eq!(internal.hash, expected);

    let good = internal.hash.clone();
    assert!(internal.validate(good).is_ok());
}

#[test]
fn extract_yields_hash_only_skeleton() {
    let mut left = new_leaf(7, vec![0xA5], Some(vec![0x01, 0x02]));
    left.value.update_hash();
    left.value.clean = true;
    left.update_hash();
    left.clean = true;
    let mut right = new_leaf(7, vec![0x5A], Some(vec![0x03]));
    right.value.update_hash();
    right.value.clean = true;
    right.update_hash();
    right.clean = true;

    let mut internal = InternalNode {
        clean: false,
        round: 7,
        hash: Vec::new(),
        label: vec![0x80],
        label_bit_length: 1,
        leaf_node: NodePointer::null_ptr(),
        left: leaf_ptr(left),
        right: leaf_ptr(right),
    };
    internal.update_hash();
    internal.clean = true;

    let mut extracted = internal.extract();
    assert!(extracted.clean);
    assert_eq!(extracted.hash, internal.hash);
    assert!(extracted.left.node.is_none());
    assert!(extracted.right.node.is_none());
    assert_eq!(extracted.left.hash, internal.left.hash);
    assert_eq!(extracted.right.hash, internal.right.hash);

    // The extracted skeleton still validates against the original hash.
    let original = internal.hash.clone();
    assert!(extracted.validate(original).is_ok());
}

#[test]
fn extract_copies_mid_path_leaf() {
    let mut mid = new_leaf(3, vec![0x42], Some(vec![0x09]));
    mid.value.update_hash();
    mid.value.clean = true;
    mid.update_hash();
    mid.clean = true;
    let mid_hash = mid.hash.clone();

    let mut internal = InternalNode {
        clean: false,
        round: 3,
        hash: Vec::new(),
        label: vec![0x80],
        label_bit_length: 1,
        leaf_node: leaf_ptr(mid),
        left: NodePointer::null_ptr(),
        right: NodePointer::null_ptr(),
    };
    internal.update_hash();
    internal.clean = true;

    let extracted = internal.extract();
    assert!(extracted.leaf_node.clean);
    assert_eq!(extracted.leaf_node.hash, mid_hash);
    match extracted.leaf_node.node.as_deref() {
        Some(NodeBox::Leaf(copy)) => {
            assert_eq!(copy.key, vec![0x42]);
            assert_eq!(copy.value.value, Some(vec![0x09]));
            assert!(copy.value.clean);
        }
        _ => panic!("expected a deep-copied leaf"),
    }
}

#[test]
fn dirty_children_are_rejected() {
    let mut dirty_leaf = new_leaf(1, vec![0x01], Some(vec![0x0A]));
    dirty_leaf.value.update_hash();
    dirty_leaf.update_hash();
    let mut dirty_ptr = leaf_ptr(dirty_leaf);
    dirty_ptr.clean = false;

    let mut internal = InternalNode {
        clean: false,
        round: 1,
        hash: Vec::new(),
        label: vec![0x80],
        label_bit_length: 1,
        leaf_node: NodePointer::null_ptr(),
        left: dirty_ptr,
        right: NodePointer::null_ptr(),
    };
    let before = internal.hash.clone();
    match internal.validate(h(&[&[0x00]])) {
        Err(TreeError::DirtyPointers) => {}
        _ => panic!("expected dirty pointers to be rejected"),
    }
    assert_eq!(internal.hash, before);
}

#[test]
fn dirty_value_is_rejected() {
    let mut leaf = new_leaf(1, vec![0x01], Some(vec![0x0A]));
    leaf.value.update_hash();
    // value cell left dirty on purpose
    match leaf.validate(h(&[&[0x00]])) {
        Err(TreeError::DirtyValue) => {}
        _ => panic!("expected the dirty value to be rejected"),
    }
}

#[test]
fn value_pointer_validate_checks_contents() {
    let mut v = new_value(Some(vec![0x01, 0x02, 0x03]));
    let good = h(&[&[0x01, 0x02, 0x03]]);
    assert!(v.validate(good.clone()).is_ok());
    assert_eq!(v.hash, good);
    let bad = h(&[&[0x04]]);
    match v.validate(bad.clone()) {
        Err(TreeError::HashMismatch { expected_hash, computed_hash }) => {
            assert_eq!(expected_hash, bad);
            assert_eq!(computed_hash, good);
        }
        _ => panic!("expected a hash mismatch"),
    }
    let mut none = new_value(None);
    assert!(none.validate(empty_hash()).is_ok());
}

#[test]
fn value_pointer_extract_and_copy_are_deep_and_clean() {
    let mut v = new_value(Some(vec![0x10, 0x20]));
    v.update_hash();
    v.clean = true;
    let e = v.extract();
    assert!(e.clean);
    assert_eq!(e.hash, v.hash);
    assert_eq!(e.value, Some(vec![0x10, 0x20]));

    let mut dirty = new_value(Some(vec![0x30]));
    dirty.update_hash();
    let c = dirty.copy();
    assert!(c.clean);
    assert_eq!(c.hash, dirty.hash);
    assert_eq!(c.value, Some(vec![0x30]));
}

#[test]
fn null_pointer_uniqueness() {
    let p = NodePointer::null_ptr();
    assert!(p.is_null());
    assert!(p.clean);
    assert_eq!(p.hash, empty_hash());
    assert!(p.node.is_none());
    assert!(!p.has_node());

    let q = NodePointer { clean: true, hash: h(&[&[0x01]]), node: None };
    assert!(!q.is_null());
    assert!(!q.has_node());
}

#[test]
fn pointer_equality_semantics() {
    let a = NodePointer { clean: true, hash: h(&[&[0x01]]), node: None };
    let b = NodePointer { clean: true, hash: h(&[&[0x01]]), node: None };
    let c = NodePointer { clean: true, hash: h(&[&[0x02]]), node: None };
    assert!(a == b);
    assert!(a != c);

    // A clean hash-only pointer never equals a dirty pointer.
    let mut leaf = new_leaf(1, vec![0x01], Some(vec![0x0A]));
    leaf.value.update_hash();
    leaf.update_hash();
    let dirty = NodePointer {
        clean: false,
        hash: a.hash.clone(),
        node: Some(Box::new(NodeBox::Leaf(leaf))),
    };
    assert!(a != dirty);
    assert!(dirty != a);
}

#[test]
fn get_node_returns_the_body() {
    let mut leaf = new_leaf(9, vec![0x77], Some(vec![0x01]));
    leaf.value.update_hash();
    leaf.value.clean = true;
    leaf.update_hash();
    leaf.clean = true;
    let expected_hash = leaf.hash.clone();
    let p = leaf_ptr(leaf);
    assert!(p.has_node());
    let body = p.get_node();
    assert!(body.is_clean());
    assert_eq!(body.get_hash(), expected_hash);
}

#[test]
fn copy_leaf_ptr_deep_copies() {
    let mut leaf = new_leaf(9, vec![0x77], Some(vec![0x01]));
    leaf.value.update_hash();
    leaf.value.clean = true;
    leaf.update_hash();
    leaf.clean = true;
    let p = leaf_ptr(leaf);
    let copy = p.copy_leaf_ptr();
    assert!(copy.clean);
    assert_eq!(copy.hash, p.hash);
    assert!(copy.has_node());

    let null = NodePointer::null_ptr();
    let copy_of_null = null.copy_leaf_ptr();
    assert!(copy_of_null.is_null());
    assert!(copy_of_null.node.is_none());
}

#[test]
fn leaf_copy_keeps_clean_flag() {
    let mut leaf = new_leaf(2, vec![0x01], Some(vec![0x05]));
    leaf.value.update_hash();
    leaf.update_hash();
    let c = leaf.copy();
    assert!(!c.clean);
    assert_eq!(c.round, 2);
    assert_eq!(c.hash, leaf.hash);
    assert_eq!(c.key, leaf.key);
    assert!(c.value.clean);
}

#[test]
fn hash_determinism() {
    let mut a = new_leaf(5, vec![0x11, 0x22], Some(vec![0x33]));
    a.value.update_hash();
    a.update_hash();
    let mut b = new_leaf(5, vec![0x11, 0x22], Some(vec![0x33]));
    b.value.update_hash();
    b.update_hash();
    assert_eq!(a.hash, b.hash);
}

#[test]
fn node_kind_bytes() {
    assert_eq!(NodeKind::Leaf.as_byte(), 0x00);
    assert_eq!(NodeKind::Internal.as_byte(), 0x01);
    assert_eq!(NodeKind::NoNode.as_byte(), 0x02);
}

#[test]
fn root_equality_is_triple_equality() {
    let a = Root { namespace: vec![0u8; 32], round: 4, hash: h(&[&[0x01]]) };
    let b = Root { namespace: vec![0u8; 32], round: 4, hash: h(&[&[0x01]]) };
    assert!(a == b);
    let c = Root { namespace: vec![0u8; 32], round: 5, hash: h(&[&[0x01]]) };
    assert!(a != c);
    let mut ns = vec![0u8; 32];
    ns[0] = 1;
    let d = Root { namespace: ns, round: 4, hash: h(&[&[0x01]]) };
    assert!(a != d);
    let dup = a.duplicate();
    assert!(a == dup);
}

#[test]
fn node_id_root_and_depth() {
    let root = NodeID::root();
    assert!(root.is_root());
    assert_eq!(root.bit_depth, 0);
    assert!(root.path.is_empty());
    let deeper = root.at_bit_depth(12);
    assert!(!deeper.is_root());
    assert_eq!(deeper.bit_depth, 12);
    assert_eq!(deeper.path, root.path);
}

#[test]
fn node_box_dispatch() {
    let mut leaf = new_leaf(1, vec![0x01], Some(vec![0x02]));
    leaf.value.update_hash();
    leaf.value.clean = true;
    let mut boxed = NodeBox::Leaf(leaf);
    boxed.update_hash();
    let good = boxed.get_hash();
    assert!(boxed.validate(good.clone()).is_ok());
    assert!(!boxed.is_clean());
}

#[test]
fn empty_blob_hashes_like_absent_value() {
    // The digest of a zero-length blob coincides with the empty hash.
    let mut some_empty = new_value(Some(vec![]));
    some_empty.update_hash();
    let mut none = new_value(None);
    none.update_hash();
    assert_eq!(some_empty.hash, none.hash);
    assert_eq!(some_empty.hash, empty_hash());
}

#[test]
fn value_pointer_equality_semantics() {
    let clean_a = ValuePointer { clean: true, hash: h(&[&[0x01]]), value: None };
    let clean_b = ValuePointer { clean: true, hash: h(&[&[0x01]]), value: Some(vec![0x09]) };
    // Clean cells compare by hash alone.
    assert!(clean_a == clean_b);
    let dirty_none = ValuePointer { clean: false, hash: Vec::new(), value: None };
    let dirty_none2 = ValuePointer { clean: false, hash: Vec::new(), value: None };
    // Absent values never compare equal through the dirty branch.
    assert!(dirty_none != dirty_none2);
    let dirty_some = ValuePointer { clean: false, hash: Vec::new(), value: Some(vec![0x0A]) };
    let dirty_some2 = ValuePointer { clean: false, hash: vec![0xFF], value: Some(vec![0x0A]) };
    assert!(dirty_some == dirty_some2);
}
