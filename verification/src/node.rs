//! Tree nodes, pointers and value cells.
//!
//! A node is either an internal node (bit-label, optional mid-path leaf,
//! two children) or a leaf (full key and a value cell).  Nodes hang off
//! pointers that carry a hash identity and, optionally, a resolved body;
//! a pointer whose hash is the empty hash is the null pointer.  Every
//! entity carries a `clean` flag: clean asserts that the stored hash
//! matches the current contents.

use vstd::prelude::*;
use crate::hash::{
    Digest, HASH_SIZE, digest_of, empty_hash_spec, digest_bytes, empty_hash, bytes_eq,
    copy_bytes, be8, be2, u64_to_be_bytes, u16_to_be_bytes, push_bytes,
};
use crate::key::{Key, Depth};

verus! {

/// A value blob.
pub type Value = Vec<u8>;

/// The recoverable validation failures.
#[derive(Debug)]
pub enum TreeError {
    /// A `validate` call found the stored hash differs from the recomputed one.
    HashMismatch { expected_hash: Digest, computed_hash: Digest },
    /// Internal-node validation was attempted with unclean child pointers.
    DirtyPointers,
    /// Leaf validation was attempted with an unclean value cell.
    DirtyValue,
}

/// Node kinds, used as the leading discriminator byte of hash preimages.
#[derive(Clone, Copy, Debug, PartialEq, Eq, Structural)]
pub enum NodeKind {
    NoNode,
    Internal,
    Leaf,
}

/// The preimage discriminator byte of a node kind.
pub open spec fn kind_byte_spec(k: NodeKind) -> u8 {
    match k {
        NodeKind::NoNode => 0x02u8,
        NodeKind::Internal => 0x01u8,
        NodeKind::Leaf => 0x00u8,
    }
}

impl NodeKind {
    /// The byte this kind contributes to a hash preimage.
    pub fn as_byte(&self) -> (r: u8)
        ensures
            r == kind_byte_spec(*self),
    {
        match self {
            NodeKind::NoNode => 0x02u8,
            NodeKind::Internal => 0x01u8,
            NodeKind::Leaf => 0x00u8,
        }
    }
}

/// Storage root: the externally visible identifier of a committed tree
/// state.  Two roots are equal exactly when all three fields match.
#[derive(Debug)]
pub struct Root {
    /// Chain namespace: an opaque 32-byte identifier.
    pub namespace: Vec<u8>,
    /// Round number.
    pub round: u64,
    /// Root hash.
    pub hash: Digest,
}

impl Root {
    /// A field-wise copy of the root descriptor.
    pub fn duplicate(&self) -> (r: Root)
        ensures
            r.namespace@ == self.namespace@,
            r.round == self.round,
            r.hash@ == self.hash@,
    {
        Root {
            namespace: copy_bytes(&self.namespace),
            round: self.round,
            hash: copy_bytes(&self.hash),
        }
    }
}

impl PartialEq for Root {
    /// Triple equality: namespace, round and hash must all match.
    fn eq(&self, other: &Root) -> (r: bool) {
        self.round == other.round && bytes_eq(&self.namespace, &other.namespace) && bytes_eq(
            &self.hash,
            &other.hash,
        )
    }
}

impl Eq for Root {

}

impl vstd::std_specs::cmp::PartialEqSpecImpl for Root {
    open spec fn obeys_eq_spec() -> bool {
        true
    }

    open spec fn eq_spec(&self, other: &Root) -> bool {
        self.namespace@ == other.namespace@ && self.round == other.round && self.hash@
            == other.hash@
    }
}

/// A root-relative identifier of a node: the bit path from the root and
/// its length.  Purely positional; not stored in the tree.
#[derive(Debug)]
pub struct NodeID {
    /// The bit path from the root.
    pub path: Key,
    /// Number of significant bits of `path`.
    pub bit_depth: Depth,
}

impl NodeID {
    /// The identifier of the tree root: the empty path.
    pub fn root() -> (r: NodeID)
        ensures
            r.path@ == Seq::<u8>::empty(),
            r.bit_depth == 0,
    {
        let path: Key = Vec::new();
        NodeID { path, bit_depth: 0 }
    }

    /// Whether this identifier names the tree root.
    pub fn is_root(&self) -> (r: bool)
        ensures
            r == (self.bit_depth == 0 && self.path@.len() == 0),
    {
        self.bit_depth == 0 && self.path.len() == 0
    }

    /// This identifier with a different bit depth and the same path.
    pub fn at_bit_depth(&self, bit_depth: Depth) -> (r: NodeID)
        ensures
            r.path@ == self.path@,
            r.bit_depth == bit_depth,
    {
        NodeID { path: copy_bytes(&self.path), bit_depth }
    }
}

/// The contents of an optional value, as an optional byte string.
pub open spec fn opt_bytes(v: Option<Value>) -> Option<Seq<u8>> {
    match v {
        Option::None => Option::None,
        Option::Some(b) => Option::Some(b@),
    }
}

/// The hash a value cell's contents must carry: the digest of the blob,
/// or the empty hash for the absent value.
pub open spec fn value_hash_spec(v: Option<Value>) -> Seq<u8> {
    match v {
        Option::None => empty_hash_spec(),
        Option::Some(b) => digest_of(b@),
    }
}

/// A fresh copy of an optional value blob.
fn copy_opt_bytes(v: &Option<Value>) -> (r: Option<Value>)
    ensures
        opt_bytes(r) == opt_bytes(*v),
{
    match v {
        Option::None => Option::None,
        Option::Some(b) => Option::Some(copy_bytes(b)),
    }
}

/// A value cell: an optional blob with a content hash and a clean flag.
#[derive(Debug)]
pub struct ValuePointer {
    /// Whether `hash` matches the current `value`.
    pub clean: bool,
    /// The content hash.
    pub hash: Digest,
    /// The blob; the absent value is canonical and hashes to the empty hash.
    pub value: Option<Value>,
}

impl ValuePointer {
    /// Recompute `hash` from the current contents.
    pub fn update_hash(&mut self)
        ensures
            final(self).hash@ == value_hash_spec(old(self).value),
            final(self).value == old(self).value,
            final(self).clean == old(self).clean,
    {
        let h: Digest = match &self.value {
            Option::None => empty_hash(),
            Option::Some(v) => digest_bytes(v.as_slice()),
        };
        self.hash = h;
    }

    /// Recompute the hash and compare it with `expected`: `Ok` exactly
    /// when the contents hash to `expected`.
    pub fn validate(&mut self, expected: Digest) -> (r: Result<(), TreeError>)
        ensures
            final(self).hash@ == value_hash_spec(old(self).value),
            final(self).value == old(self).value,
            final(self).clean == old(self).clean,
            r is Ok <==> value_hash_spec(old(self).value) == expected@,
            r is Err ==> (r->Err_0 matches TreeError::HashMismatch {
                expected_hash,
                computed_hash,
            } && expected_hash@ == expected@ && computed_hash@ == value_hash_spec(
                old(self).value,
            )),
    {
        self.update_hash();
        if !bytes_eq(&self.hash, &expected) {
            Result::Err(
                TreeError::HashMismatch {
                    expected_hash: expected,
                    computed_hash: copy_bytes(&self.hash),
                },
            )
        } else {
            Result::Ok(())
        }
    }

    /// A clean copy of `(hash, value)`.  Extraction is only allowed on a
    /// clean cell.
    pub fn extract(&self) -> (r: ValuePointer)
        requires
            self.clean,
        ensures
            r.clean,
            r.hash@ == self.hash@,
            opt_bytes(r.value) == opt_bytes(self.value),
    {
        ValuePointer {
            clean: true,
            hash: copy_bytes(&self.hash),
            value: copy_opt_bytes(&self.value),
        }
    }

    /// A deep copy of the cell, marked clean; permitted regardless of the
    /// cell's own clean flag.
    pub fn copy(&self) -> (r: ValuePointer)
        ensures
            r.clean,
            r.hash@ == self.hash@,
            opt_bytes(r.value) == opt_bytes(self.value),
    {
        ValuePointer {
            clean: true,
            hash: copy_bytes(&self.hash),
            value: copy_opt_bytes(&self.value),
        }
    }
}

/// A leaf node: a full key and its value cell.
#[derive(Debug)]
pub struct LeafNode {
    /// Whether `hash` matches the current contents.
    pub clean: bool,
    /// The round this node was produced in.
    pub round: u64,
    /// The node hash.
    pub hash: Digest,
    /// The full key (not a residual suffix).
    pub key: Key,
    /// The value cell.
    pub value: ValuePointer,
}

/// The hash preimage of a leaf node: a leaf tag, the round in eight
/// big-endian bytes, the key bytes, and the value hash.
pub open spec fn leaf_preimage(round: u64, key: Seq<u8>, value_hash: Seq<u8>) -> Seq<u8> {
    seq![0x00u8] + be8(round) + key + value_hash
}

/// The hash a leaf node's contents must carry.
pub open spec fn leaf_hash_spec(n: LeafNode) -> Seq<u8> {
    digest_of(leaf_preimage(n.round, n.key@, n.value.hash@))
}

/// Every field of the leaf but the stored hash is unchanged.
pub open spec fn leaf_same_but_hash(a: LeafNode, b: LeafNode) -> bool {
    b.clean == a.clean && b.round == a.round && b.key == a.key && b.value == a.value
}

/// What a clean extraction of a leaf looks like: a clean copy of every
/// field, with a clean value cell.
pub open spec fn leaf_extract_rel(src: LeafNode, dst: LeafNode) -> bool {
    dst.clean && dst.round == src.round && dst.hash@ == src.hash@ && dst.key@ == src.key@
        && dst.value.clean && dst.value.hash@ == src.value.hash@ && opt_bytes(dst.value.value)
        == opt_bytes(src.value.value)
}

/// What a deep copy of a leaf looks like: the leaf's own clean flag is
/// kept, while the copied value cell is marked clean.
pub open spec fn leaf_copy_rel(src: LeafNode, dst: LeafNode) -> bool {
    dst.clean == src.clean && dst.round == src.round && dst.hash@ == src.hash@ && dst.key@
        == src.key@ && dst.value.clean && dst.value.hash@ == src.value.hash@ && opt_bytes(
        dst.value.value,
    ) == opt_bytes(src.value.value)
}

impl LeafNode {
    /// Whether the node is clean.
    pub fn is_clean(&self) -> (r: bool)
        ensures
            r == self.clean,
    {
        self.clean
    }

    /// The stored node hash.
    pub fn get_hash(&self) -> (r: Digest)
        ensures
            r@ == self.hash@,
    {
        copy_bytes(&self.hash)
    }

    /// Recompute the node hash from the current contents.
    pub fn update_hash(&mut self)
        ensures
            leaf_same_but_hash(*old(self), *final(self)),
            final(self).hash@ == leaf_hash_spec(*old(self)),
    {
        let mut pre: Vec<u8> = Vec::new();
        pre.push(NodeKind::Leaf.as_byte());
        let rb = u64_to_be_bytes(self.round);
        push_bytes(&mut pre, &rb);
        push_bytes(&mut pre, &self.key);
        push_bytes(&mut pre, &self.value.hash);
        proof {
            assert(pre@ =~= leaf_preimage(self.round, self.key@, self.value.hash@));
        }
        self.hash = digest_bytes(pre.as_slice());
    }

    /// Recompute the hash and compare it with `expected`.  Fails with
    /// `DirtyValue` (leaving the node untouched) when the value cell is
    /// not clean; otherwise `Ok` exactly when the contents hash to
    /// `expected`.
    pub fn validate(&mut self, expected: Digest) -> (r: Result<(), TreeError>)
        ensures
            leaf_same_but_hash(*old(self), *final(self)),
            !old(self).value.clean ==> final(self).hash == old(self).hash && r matches Err(
                TreeError::DirtyValue,
            ),
            old(self).value.clean ==> final(self).hash@ == leaf_hash_spec(*old(self)),
            r is Ok <==> (old(self).value.clean && leaf_hash_spec(*old(self)) == expected@),
            old(self).value.clean && r is Err ==> (r->Err_0 matches TreeError::HashMismatch {
                expected_hash,
                computed_hash,
            } && expected_hash@ == expected@ && computed_hash@ == leaf_hash_spec(*old(self))),
    {
        if !self.value.clean {
            return Result::Err(TreeError::DirtyValue);
        }
        self.update_hash();
        if !bytes_eq(&self.hash, &expected) {
            Result::Err(
                TreeError::HashMismatch {
                    expected_hash: expected,
                    computed_hash: copy_bytes(&self.hash),
                },
            )
        } else {
            Result::Ok(())
        }
    }

    /// A clean snapshot of the leaf, its value cell extracted.
    pub fn extract(&self) -> (r: LeafNode)
        requires
            self.clean,
            self.value.clean,
        ensures
            leaf_extract_rel(*self, r),
    {
        LeafNode {
            clean: true,
            round: self.round,
            hash: copy_bytes(&self.hash),
            key: copy_bytes(&self.key),
            value: self.value.extract(),
        }
    }

    /// A field-wise deep copy of the leaf; the copied value cell is clean.
    pub fn copy(&self) -> (r: LeafNode)
        ensures
            leaf_copy_rel(*self, r),
    {
        LeafNode {
            clean: self.clean,
            round: self.round,
            hash: copy_bytes(&self.hash),
            key: copy_bytes(&self.key),
            value: self.value.copy(),
        }
    }
}

/// A pointer to a node: a hash identity and, optionally, a resolved body.
///
/// Null: hash is the empty hash and no body.  Unresolved: a hash alone.
/// Resolved: a body is present.
#[derive(Debug)]
pub struct NodePointer {
    /// Whether `hash` matches the pointed-to node.
    pub clean: bool,
    /// The pointed-to node's hash; the empty hash marks the null pointer.
    pub hash: Digest,
    /// The resolved node body, if any.
    pub node: Option<Box<NodeBox>>,
}

/// A box type that contains either an internal or a leaf node.
#[derive(Debug)]
pub enum NodeBox {
    Internal(InternalNode),
    Leaf(LeafNode),
}

/// An internal node: a bit-label on the incoming edge, an optional
/// mid-path leaf for the key ending at this depth, and two children.
#[derive(Debug)]
pub struct InternalNode {
    /// Whether `hash` matches the current contents.
    pub clean: bool,
    /// The round this node was produced in.
    pub round: u64,
    /// The node hash.
    pub hash: Digest,
    /// The label on the incoming edge.
    pub label: Key,
    /// The length of the label in bits.
    pub label_bit_length: Depth,
    /// The pointer for the key ending exactly at this node's depth.
    pub leaf_node: NodePointer,
    /// The subtree for bit 0.
    pub left: NodePointer,
    /// The subtree for bit 1.
    pub right: NodePointer,
}

/// The pointer has a hash other than the empty hash and carries a body.
pub open spec fn has_node_spec(p: NodePointer) -> bool {
    p.hash@ != empty_hash_spec() && p.node is Some
}

/// The body a resolved pointer carries.
pub open spec fn ptr_node(p: NodePointer) -> NodeBox
    recommends
        p.node is Some,
{
    *p.node->Some_0
}

impl NodePointer {
    /// A null pointer: clean, the empty hash, no body.
    pub fn null_ptr() -> (r: NodePointer)
        ensures
            r.clean,
            r.hash@ == empty_hash_spec(),
            r.node is None,
    {
        NodePointer { clean: true, hash: empty_hash(), node: Option::None }
    }

    /// Whether this is the null pointer: its hash is the empty hash.
    pub fn is_null(&self) -> (r: bool)
        ensures
            r == (self.hash@ == empty_hash_spec()),
    {
        let e = empty_hash();
        bytes_eq(&self.hash, &e)
    }

    /// Whether the pointer is non-null and carries a resolved body.
    pub fn has_node(&self) -> (r: bool)
        ensures
            r == has_node_spec(*self),
    {
        !self.is_null() && self.node.is_some()
    }

    /// The resolved body.  Callers must have resolved the pointer first.
    pub fn get_node(&self) -> (r: &NodeBox)
        requires
            self.node is Some,
        ensures
            *r == ptr_node(*self),
    {
        match &self.node {
            Option::Some(b) => &**b,
            Option::None => vstd::pervasive::unreached(),
        }
    }

    /// A hash-only skeleton of this pointer: clean, the same hash, no
    /// body.  Extraction is only allowed on a clean pointer.
    pub fn extract(&self) -> (r: NodePointer)
        requires
            self.clean,
        ensures
            r.clean,
            r.hash@ == self.hash@,
            r.node is None,
    {
        NodePointer { clean: true, hash: copy_bytes(&self.hash), node: Option::None }
    }

    /// A deep copy of a pointer to a leaf: null pointers and bodiless
    /// pointers give a null pointer; a resolved pointer must point at a
    /// clean leaf, which is deep-copied.
    pub fn copy_leaf_ptr(&self) -> (r: NodePointer)
        requires
            has_node_spec(*self) ==> self.clean && ptr_node(*self) is Leaf,
        ensures
            !has_node_spec(*self) ==> r.clean && r.hash@ == empty_hash_spec() && r.node
                is None,
            has_node_spec(*self) ==> r.clean && r.hash@ == self.hash@ && r.node is Some && (
            ptr_node(r) matches NodeBox::Leaf(dst) && leaf_copy_rel(
                ptr_node(*self)->Leaf_0,
                dst,
            )),
    {
        if !self.has_node() {
            return NodePointer::null_ptr();
        }
        match &self.node {
            Option::Some(b) => match &**b {
                NodeBox::Leaf(leaf) => NodePointer {
                    clean: true,
                    hash: copy_bytes(&self.hash),
                    node: Option::Some(Box::new(NodeBox::Leaf(leaf.copy()))),
                },
                NodeBox::Internal(_) => vstd::pervasive::unreached(),
            },
            Option::None => vstd::pervasive::unreached(),
        }
    }
}

/// The hash preimage of an internal node: an internal tag, the round in
/// eight big-endian bytes, the label bit length in two big-endian bytes,
/// the label bytes, and the three child hashes.
pub open spec fn internal_preimage(
    round: u64,
    label_bit_length: Depth,
    label: Seq<u8>,
    leaf_hash: Seq<u8>,
    left_hash: Seq<u8>,
    right_hash: Seq<u8>,
) -> Seq<u8> {
    seq![0x01u8] + be8(round) + be2(label_bit_length) + label + leaf_hash + left_hash
        + right_hash
}

/// The hash an internal node's contents must carry.
pub open spec fn internal_hash_spec(n: InternalNode) -> Seq<u8> {
    digest_of(
        internal_preimage(
            n.round,
            n.label_bit_length,
            n.label@,
            n.leaf_node.hash@,
            n.left.hash@,
            n.right.hash@,
        ),
    )
}

/// Every field of the internal node but the stored hash is unchanged.
pub open spec fn internal_same_but_hash(a: InternalNode, b: InternalNode) -> bool {
    b.clean == a.clean && b.round == a.round && b.label == a.label && b.label_bit_length
        == a.label_bit_length && b.leaf_node == a.leaf_node && b.left == a.left && b.right
        == a.right
}

/// All three child pointers are clean.
pub open spec fn internal_children_clean(n: InternalNode) -> bool {
    n.leaf_node.clean && n.left.clean && n.right.clean
}

/// What `copy_leaf_ptr` returns: a null pointer when there is no body,
/// else a clean pointer with the same hash over a deep leaf copy.
pub open spec fn copy_leaf_ptr_rel(src: NodePointer, dst: NodePointer) -> bool {
    if has_node_spec(src) {
        dst.clean && dst.hash@ == src.hash@ && dst.node is Some && ptr_node(dst) is Leaf
            && leaf_copy_rel(ptr_node(src)->Leaf_0, ptr_node(dst)->Leaf_0)
    } else {
        dst.clean && dst.hash@ == empty_hash_spec() && dst.node is None
    }
}

/// What a clean extraction of an internal node looks like: the same
/// label, round and hash, hash-only left and right pointers, and a copied
/// leaf pointer.
pub open spec fn internal_extract_rel(src: InternalNode, dst: InternalNode) -> bool {
    dst.clean && dst.round == src.round && dst.hash@ == src.hash@ && dst.label@ == src.label@
        && dst.label_bit_length == src.label_bit_length && dst.left.clean && dst.left.hash@
        == src.left.hash@ && dst.left.node is None && dst.right.clean && dst.right.hash@
        == src.right.hash@ && dst.right.node is None && copy_leaf_ptr_rel(
        src.leaf_node,
        dst.leaf_node,
    )
}

/// What extraction demands of an internal node: the node and its child
/// pointers clean, and any resolved leaf pointer actually a leaf.
pub open spec fn internal_extract_req(n: InternalNode) -> bool {
    n.clean && n.left.clean && n.right.clean && (has_node_spec(n.leaf_node) ==> (
    n.leaf_node.clean && ptr_node(n.leaf_node) is Leaf))
}

impl InternalNode {
    /// Whether the node is clean.
    pub fn is_clean(&self) -> (r: bool)
        ensures
            r == self.clean,
    {
        self.clean
    }

    /// The stored node hash.
    pub fn get_hash(&self) -> (r: Digest)
        ensures
            r@ == self.hash@,
    {
        copy_bytes(&self.hash)
    }

    /// Recompute the node hash from the current contents.
    pub fn update_hash(&mut self)
        ensures
            internal_same_but_hash(*old(self), *final(self)),
            final(self).hash@ == internal_hash_spec(*old(self)),
    {
        let mut pre: Vec<u8> = Vec::new();
        pre.push(NodeKind::Internal.as_byte());
        let rb = u64_to_be_bytes(self.round);
        push_bytes(&mut pre, &rb);
        let lb = u16_to_be_bytes(self.label_bit_length);
        push_bytes(&mut pre, &lb);
        push_bytes(&mut pre, &self.label);
        push_bytes(&mut pre, &self.leaf_node.hash);
        push_bytes(&mut pre, &self.left.hash);
        push_bytes(&mut pre, &self.right.hash);
        proof {
            assert(pre@ =~= internal_preimage(
                self.round,
                self.label_bit_length,
                self.label@,
                self.leaf_node.hash@,
                self.left.hash@,
                self.right.hash@,
            ));
        }
        self.hash = digest_bytes(pre.as_slice());
    }

    /// Recompute the hash and compare it with `expected`.  Fails with
    /// `DirtyPointers` (leaving the node untouched) when a child pointer
    /// is not clean; otherwise `Ok` exactly when the contents hash to
    /// `expected`.  Validation does not recurse into the children.
    pub fn validate(&mut self, expected: Digest) -> (r: Result<(), TreeError>)
        ensures
            internal_same_but_hash(*old(self), *final(self)),
            !internal_children_clean(*old(self)) ==> final(self).hash == old(self).hash
                && r matches Err(TreeError::DirtyPointers),
            internal_children_clean(*old(self)) ==> final(self).hash@ == internal_hash_spec(
                *old(self),
            ),
            r is Ok <==> (internal_children_clean(*old(self)) && internal_hash_spec(
                *old(self),
            ) == expected@),
            internal_children_clean(*old(self)) && r is Err ==> (r->Err_0
                matches TreeError::HashMismatch {
                expected_hash,
                computed_hash,
            } && expected_hash@ == expected@ && computed_hash@ == internal_hash_spec(
                *old(self),
            )),
    {
        if !self.leaf_node.clean || !self.left.clean || !self.right.clean {
            return Result::Err(TreeError::DirtyPointers);
        }
        self.update_hash();
        if !bytes_eq(&self.hash, &expected) {
            Result::Err(
                TreeError::HashMismatch {
                    expected_hash: expected,
                    computed_hash: copy_bytes(&self.hash),
                },
            )
        } else {
            Result::Ok(())
        }
    }

    /// A clean snapshot: the same label, round and hash over hash-only
    /// children, with the mid-path leaf pointer deep-copied.
    pub fn extract(&self) -> (r: InternalNode)
        requires
            internal_extract_req(*self),
        ensures
            internal_extract_rel(*self, r),
    {
        InternalNode {
            clean: true,
            round: self.round,
            hash: copy_bytes(&self.hash),
            label: copy_bytes(&self.label),
            label_bit_length: self.label_bit_length,
            leaf_node: self.leaf_node.copy_leaf_ptr(),
            left: self.left.extract(),
            right: self.right.extract(),
        }
    }
}

/// Whether the box's node is clean.
pub open spec fn box_clean_spec(b: NodeBox) -> bool {
    match b {
        NodeBox::Internal(n) => n.clean,
        NodeBox::Leaf(n) => n.clean,
    }
}

/// The hash stored in the box's node.
pub open spec fn box_stored_hash(b: NodeBox) -> Seq<u8> {
    match b {
        NodeBox::Internal(n) => n.hash@,
        NodeBox::Leaf(n) => n.hash@,
    }
}

/// The hash the box's contents must carry.
pub open spec fn box_hash_spec(b: NodeBox) -> Seq<u8> {
    match b {
        NodeBox::Internal(n) => internal_hash_spec(n),
        NodeBox::Leaf(n) => leaf_hash_spec(n),
    }
}

/// Every field of the box's node but its stored hash is unchanged.
pub open spec fn box_same_but_hash(a: NodeBox, b: NodeBox) -> bool {
    match (a, b) {
        (NodeBox::Internal(x), NodeBox::Internal(y)) => internal_same_but_hash(x, y),
        (NodeBox::Leaf(x), NodeBox::Leaf(y)) => leaf_same_but_hash(x, y),
        _ => false,
    }
}

/// What validation checks before hashing: a leaf's value cell is clean;
/// an internal node's child pointers are clean.
pub open spec fn box_validate_ready(b: NodeBox) -> bool {
    match b {
        NodeBox::Internal(n) => internal_children_clean(n),
        NodeBox::Leaf(n) => n.value.clean,
    }
}

/// The error a dirty node fails validation with.
pub open spec fn box_dirty_error(b: NodeBox, e: TreeError) -> bool {
    match b {
        NodeBox::Internal(_) => e is DirtyPointers,
        NodeBox::Leaf(_) => e is DirtyValue,
    }
}

/// What extraction demands of the box's node.
pub open spec fn box_extract_req(b: NodeBox) -> bool {
    match b {
        NodeBox::Internal(n) => internal_extract_req(n),
        NodeBox::Leaf(n) => n.clean && n.value.clean,
    }
}

/// What a clean extraction of the box's node looks like.
pub open spec fn box_extract_rel(src: NodeBox, dst: NodeBox) -> bool {
    match (src, dst) {
        (NodeBox::Internal(s), NodeBox::Internal(d)) => internal_extract_rel(s, d),
        (NodeBox::Leaf(s), NodeBox::Leaf(d)) => leaf_extract_rel(s, d),
        _ => false,
    }
}

impl NodeBox {
    /// Whether the contained node is clean.
    pub fn is_clean(&self) -> (r: bool)
        ensures
            r == box_clean_spec(*self),
    {
        match self {
            NodeBox::Internal(n) => n.is_clean(),
            NodeBox::Leaf(n) => n.is_clean(),
        }
    }

    /// The contained node's stored hash.
    pub fn get_hash(&self) -> (r: Digest)
        ensures
            r@ == box_stored_hash(*self),
    {
        match self {
            NodeBox::Internal(n) => n.get_hash(),
            NodeBox::Leaf(n) => n.get_hash(),
        }
    }

    /// Recompute the contained node's hash.
    pub fn update_hash(&mut self)
        ensures
            box_same_but_hash(*old(self), *final(self)),
            box_stored_hash(*final(self)) == box_hash_spec(*old(self)),
    {
        match self {
            NodeBox::Internal(n) => n.update_hash(),
            NodeBox::Leaf(n) => n.update_hash(),
        }
    }

    /// Validate the contained node against `expected`.
    pub fn validate(&mut self, expected: Digest) -> (r: Result<(), TreeError>)
        ensures
            box_same_but_hash(*old(self), *final(self)),
            r is Ok <==> (box_validate_ready(*old(self)) && box_hash_spec(*old(self))
                == expected@),
            box_validate_ready(*old(self)) ==> box_stored_hash(*final(self)) == box_hash_spec(
                *old(self),
            ),
            !box_validate_ready(*old(self)) ==> box_stored_hash(*final(self))
                == box_stored_hash(*old(self)) && (r matches Err(e) && box_dirty_error(
                *old(self),
                e,
            )),
            box_validate_ready(*old(self)) && r is Err ==> (r->Err_0
                matches TreeError::HashMismatch {
                expected_hash,
                computed_hash,
            } && expected_hash@ == expected@ && computed_hash@ == box_hash_spec(*old(self))),
    {
        match self {
            NodeBox::Internal(n) => n.validate(expected),
            NodeBox::Leaf(n) => n.validate(expected),
        }
    }

    /// A clean snapshot of the contained node.
    pub fn extract(&self) -> (r: NodeBox)
        requires
            box_extract_req(*self),
        ensures
            box_extract_rel(*self, r),
    {
        match self {
            NodeBox::Internal(n) => NodeBox::Internal(n.extract()),
            NodeBox::Leaf(n) => NodeBox::Leaf(n.extract()),
        }
    }
}

/// Value-cell equality: two clean cells compare by hash alone; otherwise
/// both must hold a blob and the blobs must be equal.
pub open spec fn vp_eq_spec(a: ValuePointer, b: ValuePointer) -> bool {
    if a.clean && b.clean {
        a.hash@ == b.hash@
    } else {
        a.value is Some && b.value is Some && opt_bytes(a.value) == opt_bytes(b.value)
    }
}

/// Leaf equality: two clean leaves compare by hash alone; otherwise by
/// round, key and value cell.
pub open spec fn leaf_eq_spec(a: LeafNode, b: LeafNode) -> bool {
    if a.clean && b.clean {
        a.hash@ == b.hash@
    } else {
        a.round == b.round && a.key@ == b.key@ && vp_eq_spec(a.value, b.value)
    }
}

/// Pointer equality: two clean pointers compare by hash alone; otherwise
/// both must carry a body and the bodies must be equal.  A pointer
/// without a body is never equal to an unclean one.
pub open spec fn ptr_eq_spec(a: NodePointer, b: NodePointer) -> bool
    decreases a,
{
    if a.clean && b.clean {
        a.hash@ == b.hash@
    } else {
        a.node is Some && b.node is Some && box_eq_spec(ptr_node(a), ptr_node(b))
    }
}

/// Node-box equality: the variants must match and the nodes be equal.
pub open spec fn box_eq_spec(a: NodeBox, b: NodeBox) -> bool
    decreases a,
{
    match (a, b) {
        (NodeBox::Internal(x), NodeBox::Internal(y)) => internal_eq_spec(x, y),
        (NodeBox::Leaf(x), NodeBox::Leaf(y)) => leaf_eq_spec(x, y),
        _ => false,
    }
}

/// Internal-node equality: two clean nodes compare by hash alone;
/// otherwise by round and the three child pointers.
pub open spec fn internal_eq_spec(a: InternalNode, b: InternalNode) -> bool
    decreases a,
{
    if a.clean && b.clean {
        a.hash@ == b.hash@
    } else {
        a.round == b.round && ptr_eq_spec(a.leaf_node, b.leaf_node) && ptr_eq_spec(
            a.left,
            b.left,
        ) && ptr_eq_spec(a.right, b.right)
    }
}

fn vp_eq(a: &ValuePointer, b: &ValuePointer) -> (r: bool)
    ensures
        r == vp_eq_spec(*a, *b),
{
    if a.clean && b.clean {
        bytes_eq(&a.hash, &b.hash)
    } else {
        match (&a.value, &b.value) {
            (Option::Some(x), Option::Some(y)) => bytes_eq(x, y),
            _ => false,
        }
    }
}

fn leaf_eq(a: &LeafNode, b: &LeafNode) -> (r: bool)
    ensures
        r == leaf_eq_spec(*a, *b),
{
    if a.clean && b.clean {
        bytes_eq(&a.hash, &b.hash)
    } else {
        a.round == b.round && bytes_eq(&a.key, &b.key) && vp_eq(&a.value, &b.value)
    }
}

fn ptr_eq(a: &NodePointer, b: &NodePointer) -> (r: bool)
    ensures
        r == ptr_eq_spec(*a, *b),
    decreases *a,
{
    if a.clean && b.clean {
        bytes_eq(&a.hash, &b.hash)
    } else {
        match (&a.node, &b.node) {
            (Option::Some(x), Option::Some(y)) => box_eq(&**x, &**y),
            _ => false,
        }
    }
}

fn box_eq(a: &NodeBox, b: &NodeBox) -> (r: bool)
    ensures
        r == box_eq_spec(*a, *b),
    decreases *a,
{
    match (a, b) {
        (NodeBox::Internal(x), NodeBox::Internal(y)) => internal_eq(x, y),
        (NodeBox::Leaf(x), NodeBox::Leaf(y)) => leaf_eq(x, y),
        _ => false,
    }
}

fn internal_eq(a: &InternalNode, b: &InternalNode) -> (r: bool)
    ensures
        r == internal_eq_spec(*a, *b),
    decreases *a,
{
    if a.clean && b.clean {
        bytes_eq(&a.hash, &b.hash)
    } else {
        a.round == b.round && ptr_eq(&a.leaf_node, &b.leaf_node) && ptr_eq(&a.left, &b.left)
            && ptr_eq(&a.right, &b.right)
    }
}

impl PartialEq for ValuePointer {
    fn eq(&self, other: &ValuePointer) -> (r: bool) {
        vp_eq(self, other)
    }
}

impl Eq for ValuePointer {

}

impl vstd::std_specs::cmp::PartialEqSpecImpl for ValuePointer {
    open spec fn obeys_eq_spec() -> bool {
        true
    }

    open spec fn eq_spec(&self, other: &ValuePointer) -> bool {
        vp_eq_spec(*self, *other)
    }
}

impl PartialEq for LeafNode {
    fn eq(&self, other: &LeafNode) -> (r: bool) {
        leaf_eq(self, other)
    }
}

impl Eq for LeafNode {

}

impl vstd::std_specs::cmp::PartialEqSpecImpl for LeafNode {
    open spec fn obeys_eq_spec() -> bool {
        true
    }

    open spec fn eq_spec(&self, other: &LeafNode) -> bool {
        leaf_eq_spec(*self, *other)
    }
}

impl PartialEq for NodePointer {
    fn eq(&self, other: &NodePointer) -> (r: bool) {
        ptr_eq(self, other)
    }
}

impl Eq for NodePointer {

}

impl vstd::std_specs::cmp::PartialEqSpecImpl for NodePointer {
    open spec fn obeys_eq_spec() -> bool {
        true
    }

    open spec fn eq_spec(&self, other: &NodePointer) -> bool {
        ptr_eq_spec(*self, *other)
    }
}

impl PartialEq for NodeBox {
    fn eq(&self, other: &NodeBox) -> (r: bool) {
        box_eq(self, other)
    }
}

impl Eq for NodeBox {

}

impl vstd::std_specs::cmp::PartialEqSpecImpl for NodeBox {
    open spec fn obeys_eq_spec() -> bool {
        true
    }

    open spec fn eq_spec(&self, other: &NodeBox) -> bool {
        box_eq_spec(*self, *other)
    }
}

impl PartialEq for InternalNode {
    fn eq(&self, other: &InternalNode) -> (r: bool) {
        internal_eq(self, other)
    }
}

impl Eq for InternalNode {

}

impl vstd::std_specs::cmp::PartialEqSpecImpl for InternalNode {
    open spec fn obeys_eq_spec() -> bool {
        true
    }

    open spec fn eq_spec(&self, other: &InternalNode) -> bool {
        internal_eq_spec(*self, *other)
    }
}

/// Hash determinism: two leaves built from equal fields hash alike.
pub proof fn lemma_leaf_hash_deterministic(a: LeafNode, b: LeafNode)
    requires
        a.round == b.round,
        a.key@ == b.key@,
        a.value.hash@ == b.value.hash@,
    ensures
        leaf_hash_spec(a) == leaf_hash_spec(b),
{
}

/// Hash determinism: two internal nodes built from equal fields hash
/// alike.
pub proof fn lemma_internal_hash_deterministic(a: InternalNode, b: InternalNode)
    requires
        a.round == b.round,
        a.label_bit_length == b.label_bit_length,
        a.label@ == b.label@,
        a.leaf_node.hash@ == b.leaf_node.hash@,
        a.left.hash@ == b.left.hash@,
        a.right.hash@ == b.right.hash@,
    ensures
        internal_hash_spec(a) == internal_hash_spec(b),
{
}

/// Clean implies hash-matches: a leaf whose stored hash matches its
/// contents extracts to a leaf that validates against that same hash.
pub proof fn lemma_leaf_extract_validates(n: LeafNode, e: LeafNode)
    requires
        leaf_extract_rel(n, e),
        n.hash@ == leaf_hash_spec(n),
    ensures
        e.value.clean,
        leaf_hash_spec(e) == e.hash@,
{
}

/// Clean implies hash-matches: an internal node whose stored hash matches
/// its contents, and whose mid-path leaf pointer is resolved or null,
/// extracts to a node that validates against that same hash.
pub proof fn lemma_internal_extract_validates(n: InternalNode, e: InternalNode)
    requires
        internal_extract_rel(n, e),
        n.hash@ == internal_hash_spec(n),
        has_node_spec(n.leaf_node) || n.leaf_node.hash@ == empty_hash_spec(),
    ensures
        internal_children_clean(e),
        internal_hash_spec(e) == e.hash@,
{
}

/// Extraction preserves the root hash: the snapshot of a node carries
/// the very hash the node carried.
pub proof fn lemma_extract_preserves_hash(src: NodeBox, dst: NodeBox)
    requires
        box_extract_rel(src, dst),
    ensures
        box_stored_hash(dst) == box_stored_hash(src),
        box_clean_spec(dst),
{
}

/// Null-pointer uniqueness, as an invariant: a pointer whose hash is the
/// empty hash carries no body.
pub open spec fn ptr_wf(p: NodePointer) -> bool {
    p.hash@ == empty_hash_spec() ==> p.node is None
}

/// Every pointer that `copy_leaf_ptr` hands out keeps the null-pointer
/// invariant.
pub proof fn lemma_copy_leaf_ptr_wf(src: NodePointer, dst: NodePointer)
    requires
        copy_leaf_ptr_rel(src, dst),
    ensures
        ptr_wf(dst),
        dst.clean,
{
}

/// Equality semantics: two clean pointers compare equal exactly when
/// their hashes match.
pub proof fn lemma_clean_ptr_eq(a: NodePointer, b: NodePointer)
    requires
        a.clean,
        b.clean,
    ensures
        ptr_eq_spec(a, b) == (a.hash@ == b.hash@),
{
}

/// Equality semantics: a clean pointer without a resolved body — a null
/// pointer or a hash-only skeleton — is never equal to an unclean
/// pointer, in either direction.
pub proof fn lemma_clean_dirty_ptr_neq(a: NodePointer, b: NodePointer)
    requires
        a.clean,
        !b.clean,
        a.node is None,
    ensures
        !ptr_eq_spec(a, b),
        !ptr_eq_spec(b, a),
{
}

} // verus!
