//! SHA-256 as the tree hasher sees it: a named digest function and a
//! verified helper that hashes the concatenation of two 32-byte values.
use vstd::prelude::*;

verus! {

/// A 32-byte hash.
pub type Hash256 = [u8; 32];

/// The SHA-256 digest of a byte string.
pub uninterp spec fn sha256(input: Seq<u8>) -> Seq<u8>;

/// The all-zero 32-byte value.
pub open spec fn zero_bytes() -> Seq<u8> {
    Seq::new(32, |i: int| 0u8)
}

/// The digest of `left` followed by `right`.
pub open spec fn hash_pair(left: Seq<u8>, right: Seq<u8>) -> Seq<u8> {
    sha256(left + right)
}

/// Relies on `eth2_hashing::hash32_concat`: it returns the SHA-256 digest of
/// `left` followed by `right`.
#[verifier::external_body]
fn sha256_concat(left: &[u8], right: &[u8]) -> (r: [u8; 32])
    ensures
        r@ == sha256(left@ + right@),
{
    eth2_hashing::hash32_concat(left, right)
}

/// Hashes the 64 bytes `left ‖ right` into a new 32-byte value.
pub fn hash_concat(left: &Hash256, right: &Hash256) -> (r: Hash256)
    ensures
        r@ == hash_pair(left@, right@),
{
    sha256_concat(left.as_slice(), right.as_slice())
}

/// The root of a subtree of height `height` whose leaves are all zero.
pub open spec fn zero_subtree_root(height: nat) -> Seq<u8>
    decreases height,
{
    if height == 0 {
        zero_bytes()
    } else {
        hash_pair(zero_subtree_root((height - 1) as nat), zero_subtree_root((height - 1) as nat))
    }
}

/// The highest height for which a zero-subtree root is cached.
pub const ZERO_HASHES_MAX_INDEX: usize = 48;

/// Relies on `eth2_hashing::ZERO_HASHES`: entry 0 is 32 zero bytes and entry
/// `i + 1` is `hash32_concat` of entry `i` with itself, up to index 48.
#[verifier::external_body]
pub(crate) fn zero_hash(height: usize) -> (r: Hash256)
    requires
        height <= ZERO_HASHES_MAX_INDEX,
    ensures
        r@ == zero_subtree_root(height as nat),
{
    let mut out = [0u8; 32];
    out.copy_from_slice(&eth2_hashing::ZERO_HASHES[height]);
    out
}

/// The all-zero hash.
pub fn zero_hash256() -> (r: Hash256)
    ensures
        r@ == zero_bytes(),
{
    let r: Hash256 = [0u8; 32];
    assert(r@ =~= zero_bytes());
    r
}

/// Whether two hashes hold the same bytes.
pub fn hash_eq(a: &Hash256, b: &Hash256) -> (r: bool)
    ensures
        r == (a@ == b@),
{
    let mut i: usize = 0;
    while i < 32
        invariant
            i <= 32,
            forall|k: int| 0 <= k < i ==> a@[k] == b@[k],
        decreases 32 - i,
    {
        if a[i] != b[i] {
            return false;
        }
        i = i + 1;
    }
    assert(a@ =~= b@);
    true
}

} // verus!
