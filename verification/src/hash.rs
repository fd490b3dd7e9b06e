//! The fixed cryptographic digest and small byte-string helpers.
//!
//! Node identities in the tree are digests of deterministic preimages.  The
//! digest itself is computed by an outside crate; everything stated about a
//! digest value goes through the uninterpreted name `digest_of`.

use vstd::prelude::*;

verus! {

/// A digest value: the raw bytes of the fixed cryptographic hash.
pub type Digest = Vec<u8>;

/// Number of bytes in a digest.
pub const HASH_SIZE: usize = 32;

/// What the fixed digest returns on the given input bytes.
pub uninterp spec fn digest_of(input: Seq<u8>) -> Seq<u8>;

/// The digest of the empty byte string: the identity of a null pointer and
/// of the absent value.
pub open spec fn empty_hash_spec() -> Seq<u8> {
    digest_of(Seq::<u8>::empty())
}

/// Relies on sha2's `Sha512_256::digest` (through the `Digest` trait): a
/// 32-byte digest that is a function of the input bytes alone.
#[verifier::external_body]
pub(crate) fn digest_bytes(data: &[u8]) -> (r: Digest)
    ensures
        r@ == digest_of(data@),
        r@.len() == HASH_SIZE,
{
    <sha2::Sha512_256 as sha2::Digest>::digest(data).to_vec()
}

/// Construct the digest of the empty byte string.
pub fn empty_hash() -> (r: Digest)
    ensures
        r@ == empty_hash_spec(),
        r@.len() == HASH_SIZE,
{
    let e: Vec<u8> = Vec::new();
    let r = digest_bytes(e.as_slice());
    proof {
        assert(e@ =~= Seq::<u8>::empty());
    }
    r
}

/// Byte-wise equality of two byte strings.
pub fn bytes_eq(a: &Vec<u8>, b: &Vec<u8>) -> (r: bool)
    ensures
        r == (a@ == b@),
{
    if a.len() != b.len() {
        proof {
            assert(a@ != b@);
        }
        return false;
    }
    let mut i: usize = 0;
    while i < a.len()
        invariant
            i <= a@.len(),
            a@.len() == b@.len(),
            forall|j: int| 0 <= j < i ==> a@[j] == b@[j],
        decreases a@.len() - i,
    {
        if a[i] != b[i] {
            proof {
                assert(a@[i as int] != b@[i as int]);
            }
            return false;
        }
        i += 1;
    }
    proof {
        assert(a@ =~= b@);
    }
    true
}

/// The eight bytes of a 64-bit value, most significant first.
pub open spec fn be8(x: u64) -> Seq<u8> {
    seq![
        ((x >> 56) & 0xff) as u8,
        ((x >> 48) & 0xff) as u8,
        ((x >> 40) & 0xff) as u8,
        ((x >> 32) & 0xff) as u8,
        ((x >> 24) & 0xff) as u8,
        ((x >> 16) & 0xff) as u8,
        ((x >> 8) & 0xff) as u8,
        (x & 0xff) as u8,
    ]
}

/// The two bytes of a 16-bit value, most significant first.
pub open spec fn be2(x: u16) -> Seq<u8> {
    seq![((x >> 8) & 0xff) as u8, (x & 0xff) as u8]
}

/// Write a 64-bit value as eight big-endian bytes.
pub fn u64_to_be_bytes(x: u64) -> (r: Vec<u8>)
    ensures
        r@ == be8(x),
{
    let mut r: Vec<u8> = Vec::new();
    r.push(((x >> 56) & 0xff) as u8);
    r.push(((x >> 48) & 0xff) as u8);
    r.push(((x >> 40) & 0xff) as u8);
    r.push(((x >> 32) & 0xff) as u8);
    r.push(((x >> 24) & 0xff) as u8);
    r.push(((x >> 16) & 0xff) as u8);
    r.push(((x >> 8) & 0xff) as u8);
    r.push((x & 0xff) as u8);
    proof {
        assert(r@ =~= be8(x));
    }
    r
}

/// Write a 16-bit value as two big-endian bytes.
pub fn u16_to_be_bytes(x: u16) -> (r: Vec<u8>)
    ensures
        r@ == be2(x),
{
    let mut r: Vec<u8> = Vec::new();
    r.push(((x >> 8) & 0xff) as u8);
    r.push((x & 0xff) as u8);
    proof {
        assert(r@ =~= be2(x));
    }
    r
}

/// A fresh copy of a byte string.
pub fn copy_bytes(src: &Vec<u8>) -> (r: Vec<u8>)
    ensures
        r@ == src@,
{
    let mut r: Vec<u8> = Vec::new();
    let mut i: usize = 0;
    while i < src.len()
        invariant
            i <= src@.len(),
            r@ == src@.subrange(0, i as int),
        decreases src@.len() - i,
    {
        r.push(src[i]);
        proof {
            assert(src@.subrange(0, i as int) + seq![src@[i as int]] =~= src@.subrange(
                0,
                i + 1,
            ));
        }
        i += 1;
    }
    proof {
        assert(src@.subrange(0, src@.len() as int) =~= src@);
    }
    r
}

/// Append all bytes of `src` to `dst`.
pub fn push_bytes(dst: &mut Vec<u8>, src: &Vec<u8>)
    ensures
        final(dst)@ == old(dst)@ + src@,
{
    let mut i: usize = 0;
    while i < src.len()
        invariant
            i <= src@.len(),
            dst@ == old(dst)@ + src@.subrange(0, i as int),
        decreases src@.len() - i,
    {
        dst.push(src[i]);
        proof {
            assert(old(dst)@ + src@.subrange(0, i as int) + seq![src@[i as int]] =~= old(
                dst,
            )@ + src@.subrange(0, i + 1));
        }
        i += 1;
    }
    proof {
        assert(src@.subrange(0, src@.len() as int) =~= src@);
    }
}

} // verus!
