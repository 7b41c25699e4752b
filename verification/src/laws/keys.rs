//! Keys and signatures.

use crate::bytes::{be_bytes, be_value};
use crate::crypto::{ecdsa_signature, ecdsa_verifies, is_signature, lemma_private_key_injective,
    lemma_public_key_injective, lemma_signature_injective, pem_point, sec1_point, PrivateKey,
    PublicKey, Signature};
use vstd::prelude::*;

verus! {

/// The key that is read from the PEM text of a public key is that public key.
pub proof fn law_pem_is_read_back(key: PublicKey, text: Seq<char>, read: PublicKey)
    requires
        pem_point(text) == Some(key.sec1()),
        pem_point(text) == Some(read.sec1()),
    ensures
        read == key,
{
    lemma_public_key_injective(read, key);
}

/// The key that is read from the compressed bytes of a public key is that public
/// key.
pub proof fn law_public_bytes_are_read_back(key: PublicKey, read: PublicKey)
    requires
        sec1_point(key.sec1()) == Some(key.sec1()),
        sec1_point(key.sec1()) == Some(read.sec1()),
    ensures
        read == key,
{
    lemma_public_key_injective(read, key);
}

/// The key that is read from the secret bytes of a private key is that private
/// key.
pub proof fn law_secret_bytes_are_read_back(key: PrivateKey, read: PrivateKey)
    requires
        be_bytes(be_value(key.secret()), 32) == key.secret(),
        read.secret() == be_bytes(be_value(key.secret()), 32),
    ensures
        read == key,
{
    lemma_private_key_injective(read, key);
}

/// A private key has one public key.
pub proof fn law_public_key_is_unique(secret: PrivateKey, a: PublicKey, b: PublicKey)
    requires
        secret.has_public_key(a),
        secret.has_public_key(b),
    ensures
        a == b,
{
    lemma_public_key_injective(a, b);
}

/// A private key signs a hash in one way.
pub proof fn law_signature_is_unique(
    secret: PrivateKey,
    hash: crate::sha256::Hash,
    a: Signature,
    b: Signature,
)
    requires
        a.compact() == ecdsa_signature(secret.secret(), be_bytes(hash.0@, 32)),
        b.compact() == ecdsa_signature(secret.secret(), be_bytes(hash.0@, 32)),
    ensures
        a == b,
{
    lemma_signature_injective(a, b);
}

/// A signature is two numbers of 32 bytes that are neither zero nor as large as the
/// order of the group, which is that of secp256k1.
pub proof fn law_signature_bytes(bytes: Seq<u8>)
    ensures
        is_signature(bytes) <==> {
            &&& bytes.len() == 64
            &&& 0 < be_value(bytes.subrange(0, 32))
                < 0xffff_ffff_ffff_ffff_ffff_ffff_ffff_fffe_baae_dce6_af48_a03b_bfd2_5e8c_d036_4141nat
            &&& 0 < be_value(bytes.subrange(32, 64))
                < 0xffff_ffff_ffff_ffff_ffff_ffff_ffff_fffe_baae_dce6_af48_a03b_bfd2_5e8c_d036_4141nat
        },
{
    if bytes.len() == 64 {
        assert(bytes.take(32) =~= bytes.subrange(0, 32));
        assert(bytes.skip(32) =~= bytes.subrange(32, 64));
    }
}

/// A signature verifies if the bytes of the public key, of the hash and of the
/// signature do.
pub proof fn law_signature_is_of_the_hash(
    signature: Signature,
    hash: crate::sha256::Hash,
    key: PublicKey,
)
    ensures
        signature.verifies(hash, key) <==> ecdsa_verifies(
            key.sec1(),
            be_bytes(hash.0@, 32),
            signature.compact(),
        ),
{
}

} // verus!
