//! The 256-bit digest underlying the hash chain, and small byte helpers.
//!
//! The digest itself is computed by the `sha2` crate; its value is left
//! abstract here as [`sha256_of`], a function of the input bytes alone.
//! Everything the chain logic needs is stated over that name: an entry's
//! hash is the digest of the previous hash followed by the payload, and a
//! payload's content digest is the digest of the payload alone.

use sha2::Digest;
use vstd::prelude::*;

verus! {

/// The 256-bit digest of `bytes`, as the `sha2` crate computes it.
/// Left abstract: the chain logic only needs that equal inputs give
/// equal digests.
pub uninterp spec fn sha256_of(bytes: Seq<u8>) -> Seq<u8>;

/// The all-zero 32-byte value that seeds every chain: the
/// `previous_hash` of a server's first entry.
pub open spec fn genesis() -> Seq<u8> {
    Seq::new(32, |i: int| 0u8)
}

/// The genesis value as a concrete 32-byte array.
pub fn genesis_hash() -> (r: [u8; 32])
    ensures
        r@ == genesis(),
{
    let r = [0u8; 32];
    proof {
        assert(r@ =~= genesis());
    }
    r
}

/// Relies on `sha2::Sha256` (through the `Digest` trait): feeding
/// `prefix` then `data` into one hasher yields the 32-byte digest of
/// their concatenation, a value determined by those bytes alone.
#[verifier::external_body]
fn sha256_concat(prefix: &[u8], data: &[u8]) -> (r: [u8; 32])
    ensures
        r@ == sha256_of(prefix@ + data@),
{
    let mut hasher = sha2::Sha256::new();
    hasher.update(prefix);
    hasher.update(data);
    let digest = hasher.finalize();
    digest.as_slice().try_into().unwrap()
}

/// The digest of `data` alone: the content hash of a payload.
pub fn hash_bytes(data: &[u8]) -> (r: [u8; 32])
    ensures
        r@ == sha256_of(data@),
        sha256_of(data@).len() == 32,
{
    let empty: [u8; 0] = [];
    let r = sha256_concat(empty.as_slice(), data);
    proof {
        assert(empty@ + data@ =~= data@);
    }
    r
}

/// The chained digest: the digest of `prev` followed by `data`, which
/// commits the new entry to the whole chain before it.
pub fn hash_chained(prev: &[u8; 32], data: &[u8]) -> (r: [u8; 32])
    ensures
        r@ == sha256_of(prev@ + data@),
        sha256_of(prev@ + data@).len() == 32,
{
    sha256_concat(prev.as_slice(), data)
}

/// Byte-for-byte equality of two byte strings.
pub fn bytes_eq(a: &[u8], b: &[u8]) -> (r: bool)
    ensures
        r == (a@ == b@),
{
    if a.len() != b.len() {
        assert(a@ != b@);
        return false;
    }
    let n = a.len();
    let mut i: usize = 0;
    while i < n
        invariant
            n == a@.len(),
            n == b@.len(),
            i <= n,
            forall|j: int| 0 <= j < i ==> a@[j] == b@[j],
        decreases n - i,
    {
        if a[i] != b[i] {
            assert(a@ != b@);
            return false;
        }
        i += 1;
    }
    proof {
        assert(a@ =~= b@);
    }
    true
}

/// A fresh copy of a byte string.
pub fn copy_bytes(src: &[u8]) -> (r: Vec<u8>)
    ensures
        r@ == src@,
{
    let mut out: Vec<u8> = Vec::new();
    let n = src.len();
    let mut i: usize = 0;
    while i < n
        invariant
            n == src@.len(),
            i <= n,
            out@ == src@.subrange(0, i as int),
        decreases n - i,
    {
        out.push(src[i]);
        proof {
            assert(out@ =~= src@.subrange(0, i + 1));
        }
        i += 1;
    }
    proof {
        assert(src@.subrange(0, n as int) =~= src@);
    }
    out
}

} // verus!
