//! Hashes and their bytes.

use crate::bytes::{be_bytes, lemma_be_read_back};
use crate::cbor::{cbor_bytes, Token};
use crate::sha256::{hash_of, hex_bytes, lemma_hash_bytes, sha256_hex};
use crate::u256::{lemma_u256_bound, lemma_u256_injective};
use vstd::prelude::*;

verus! {

/// The bytes of the hash of a data item are the 32 bytes of the SHA-256 digest of
/// its CBOR encoding, in their order.
pub proof fn law_hash_bytes_are_the_digest(tokens: Seq<Token>)
    requires
        sha256_hex(cbor_bytes(tokens)).len() == 64,
    ensures
        be_bytes(hash_of(tokens).0@, 32) == hex_bytes(sha256_hex(cbor_bytes(tokens))),
        hex_bytes(sha256_hex(cbor_bytes(tokens))).len() == 32,
{
    lemma_hash_bytes(sha256_hex(cbor_bytes(tokens)));
}

/// Two hashes are the same if and only if their bytes are.
pub proof fn law_hash_is_its_bytes(a: crate::sha256::Hash, b: crate::sha256::Hash)
    ensures
        be_bytes(a.0@, 32) == be_bytes(b.0@, 32) <==> a == b,
{
    if be_bytes(a.0@, 32) == be_bytes(b.0@, 32) {
        lemma_u256_bound(a.0);
        lemma_u256_bound(b.0);
        lemma_be_read_back(a.0@, 32);
        lemma_be_read_back(b.0@, 32);
        lemma_u256_injective(a.0, b.0);
    }
}

} // verus!
