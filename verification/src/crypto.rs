//! Keys and signatures on the secp256k1 curve, computed by the `ecdsa` and
//! `k256` crates.

use crate::bytes::{be_bytes, be_value, lemma_be_bytes_len, lemma_be_read_back, lemma_be_write_back};
use crate::cbor::{array_of, tokens_of_all, unsigned, ToCbor, Token};
use crate::u256::U256;
use vstd::prelude::*;

verus! {

/// The upper half of the order of the curve's group.
const ORDER_HI: u128 = 0xffff_ffff_ffff_ffff_ffff_ffff_ffff_fffe;

/// The lower half of the order of the curve's group.
const ORDER_LO: u128 = 0xbaae_dce6_af48_a03b_bfd2_5e8c_d036_4141;

/// The order of the curve's group.
pub open spec fn curve_order() -> nat {
    0xffff_ffff_ffff_ffff_ffff_ffff_ffff_fffe_baae_dce6_af48_a03b_bfd2_5e8c_d036_4141nat
}

/// Whether a number is a scalar other than zero.
pub open spec fn is_scalar(value: nat) -> bool {
    0 < value < curve_order()
}

/// Whether 64 bytes are the two scalars of a signature.
pub open spec fn is_signature(bytes: Seq<u8>) -> bool {
    &&& bytes.len() == 64
    &&& is_scalar(be_value(bytes.take(32)))
    &&& is_scalar(be_value(bytes.skip(32)))
}

/// Whether 33 bytes have the form of a compressed point.
pub open spec fn is_compressed(bytes: Seq<u8>) -> bool {
    bytes.len() == 33 && (bytes[0] == 2 || bytes[0] == 3)
}

/// The compressed form of the public key that SEC 1 bytes encode, if they
/// encode one (`VerifyingKey::from_sec1_bytes`).
pub uninterp spec fn sec1_point(bytes: Seq<u8>) -> Option<Seq<u8>>;

/// The compressed public key of a secret scalar (`SigningKey::verifying_key`).
pub uninterp spec fn public_point(secret: Seq<u8>) -> Seq<u8>;

/// The signature of a message with a secret scalar (`SigningKey::sign`).
pub uninterp spec fn ecdsa_signature(secret: Seq<u8>, message: Seq<u8>) -> Seq<u8>;

/// Whether a signature of a message verifies against a compressed public key
/// (`VerifyingKey::verify`).
pub uninterp spec fn ecdsa_verifies(point: Seq<u8>, message: Seq<u8>, signature: Seq<u8>) -> bool;

/// The DER encoding of a compressed public key
/// (`EncodePublicKey::to_public_key_der`).
pub uninterp spec fn public_key_der(point: Seq<u8>) -> Seq<u8>;

/// The PEM encoding of a compressed public key
/// (`EncodePublicKey::to_public_key_pem`).
pub uninterp spec fn public_key_pem(point: Seq<u8>) -> Seq<char>;

/// The compressed public key that a PEM text encodes, if it encodes one
/// (`DecodePublicKey::from_public_key_pem`).
pub uninterp spec fn pem_point(text: Seq<char>) -> Option<Seq<u8>>;

/// `SigningKey::random` with the thread's generator: a secret scalar, as its 32
/// bytes. Which one is left to chance.
#[verifier::external_body]
fn random_secret() -> (secret: Vec<u8>)
    ensures
        secret@.len() == 32,
        is_scalar(be_value(secret@)),
{
    ecdsa::SigningKey::<k256::Secp256k1>::random(&mut rand::thread_rng()).to_bytes().to_vec()
}

/// `SigningKey::verifying_key` of the key that `SigningKey::from_slice` reads:
/// a public key, as its 33 compressed bytes, which decode to themselves.
#[verifier::external_body]
fn compute_public_point(secret: &[u8]) -> (point: Vec<u8>)
    requires
        secret@.len() == 32,
        is_scalar(be_value(secret@)),
    ensures
        point@ == public_point(secret@),
        is_compressed(point@),
        sec1_point(point@) == Some(point@),
{
    let key = ecdsa::SigningKey::<k256::Secp256k1>::from_slice(secret).expect("a scalar");
    key.verifying_key().to_encoded_point(true).as_bytes().to_vec()
}

/// `VerifyingKey::from_sec1_bytes`: decodes a public key and compresses it. The
/// compressed bytes decode to themselves.
#[verifier::external_body]
fn decode_point(bytes: &[u8]) -> (r: Option<Vec<u8>>)
    ensures
        match r {
            Some(point) => {
                &&& sec1_point(bytes@) == Some(point@)
                &&& is_compressed(point@)
                &&& sec1_point(point@) == Some(point@)
            },
            None => sec1_point(bytes@) is None,
        },
{
    match ecdsa::VerifyingKey::<k256::Secp256k1>::from_sec1_bytes(bytes) {
        Ok(key) => Some(key.to_encoded_point(true).as_bytes().to_vec()),
        Err(_) => None,
    }
}

/// `Signer::sign` of a `SigningKey`: a signature that depends on the secret and
/// the message alone, as the 32 bytes of each of its two scalars. It verifies
/// against the public key of the secret.
#[verifier::external_body]
fn compute_signature(secret: &[u8], message: &[u8]) -> (signature: Vec<u8>)
    requires
        secret@.len() == 32,
        is_scalar(be_value(secret@)),
    ensures
        signature@ == ecdsa_signature(secret@, message@),
        is_signature(signature@),
        ecdsa_verifies(public_point(secret@), message@, signature@),
{
    let key = ecdsa::SigningKey::<k256::Secp256k1>::from_slice(secret).expect("a scalar");
    let signature: ecdsa::Signature<k256::Secp256k1> = ecdsa::signature::Signer::sign(&key, message);
    signature.to_bytes().to_vec()
}

/// `Verifier::verify` of a `VerifyingKey`: whether it accepts the signature.
#[verifier::external_body]
fn check_signature(point: &[u8], message: &[u8], signature: &[u8]) -> (r: bool)
    requires
        sec1_point(point@) is Some,
        is_compressed(point@),
        is_signature(signature@),
    ensures
        r == ecdsa_verifies(point@, message@, signature@),
{
    let key = ecdsa::VerifyingKey::<k256::Secp256k1>::from_sec1_bytes(point).expect("a point");
    let signature = ecdsa::Signature::<k256::Secp256k1>::from_slice(signature).expect("two scalars");
    ecdsa::signature::Verifier::verify(&key, message, &signature).is_ok()
}

/// `EncodePublicKey::to_public_key_der`: the binary form in which the `ecdsa`
/// crate serializes a public key.
#[verifier::external_body]
fn encode_der(point: &[u8]) -> (der: Vec<u8>)
    requires
        sec1_point(point@) is Some,
        is_compressed(point@),
    ensures
        der@ == public_key_der(point@),
{
    let key = ecdsa::VerifyingKey::<k256::Secp256k1>::from_sec1_bytes(point).expect("a point");
    k256::pkcs8::EncodePublicKey::to_public_key_der(&key).expect("a key has an encoding").into_vec()
}

/// `EncodePublicKey::to_public_key_pem`, with line feeds: a text that decodes to
/// the key.
#[verifier::external_body]
fn encode_pem(point: &[u8]) -> (text: String)
    requires
        sec1_point(point@) == Some(point@),
        is_compressed(point@),
    ensures
        text@ == public_key_pem(point@),
        pem_point(text@) == Some(point@),
{
    let key = ecdsa::VerifyingKey::<k256::Secp256k1>::from_sec1_bytes(point).expect("a point");
    let ending = k256::pkcs8::LineEnding::LF;
    k256::pkcs8::EncodePublicKey::to_public_key_pem(&key, ending).expect("a key has an encoding")
}

/// `DecodePublicKey::from_public_key_pem`: decodes a public key and compresses
/// it. The compressed bytes decode to themselves.
#[verifier::external_body]
fn decode_pem(text: &str) -> (r: Option<Vec<u8>>)
    ensures
        match r {
            Some(point) => {
                &&& pem_point(text@) == Some(point@)
                &&& is_compressed(point@)
                &&& sec1_point(point@) == Some(point@)
            },
            None => pem_point(text@) is None,
        },
{
    let key: Result<ecdsa::VerifyingKey<k256::Secp256k1>, _> =
        k256::pkcs8::DecodePublicKey::from_public_key_pem(text);
    match key {
        Ok(key) => Some(key.to_encoded_point(true).as_bytes().to_vec()),
        Err(_) => None,
    }
}

/// Whether an integer is a scalar other than zero.
fn scalar_in_range(value: &U256) -> (r: bool)
    ensures
        r == is_scalar(value@),
{
    let order = U256 { hi: ORDER_HI, lo: ORDER_LO };
    value.less_than(&order) && (value.hi != 0 || value.lo != 0)
}

/// The 32 bytes of an integer.
fn word(value: &U256) -> (bytes: Vec<u8>)
    ensures
        bytes@ == be_bytes(value@, 32),
        bytes@.len() == 32,
        be_value(bytes@) == value@,
{
    let array = value.to_big_endian();
    let bytes = vstd::slice::slice_to_vec(array.as_slice());
    proof {
        lemma_be_bytes_len(value@, 32);
    }
    bytes
}

/// A public key on the secp256k1 curve, used to verify signatures and derive
/// addresses: the horizontal coordinate of its point, and whether the vertical
/// one is odd.
#[derive(Clone, Copy, Debug, PartialEq, Eq, Structural)]
pub struct PublicKey {
    odd: bool,
    x: U256,
}

impl PublicKey {
    #[verifier::type_invariant]
    spec fn inv(self) -> bool {
        sec1_point(self.sec1()) == Some(self.sec1())
    }

    /// The 33 bytes of the compressed point.
    pub closed spec fn sec1(self) -> Seq<u8> {
        seq![if self.odd { 3u8 } else { 2u8 }] + be_bytes(self.x@, 32)
    }

    /// Reads a public key from SEC 1 bytes, compressed or not.
    pub fn from_sec1_bytes(bytes: &[u8]) -> (r: Option<PublicKey>)
        ensures
            match r {
                Some(key) => sec1_point(bytes@) == Some(key.sec1()),
                None => sec1_point(bytes@) is None,
            },
    {
        match decode_point(bytes) {
            Some(point) => Some(PublicKey::from_point(point)),
            None => None,
        }
    }

    /// The key of a compressed point.
    fn from_point(point: Vec<u8>) -> (key: PublicKey)
        requires
            is_compressed(point@),
            sec1_point(point@) == Some(point@),
        ensures
            key.sec1() == point@,
    {
        let odd = point[0] == 3;
        let mut point = point;
        let ghost whole = point@;
        let tail = point.split_off(1);
        let x = U256::from_big_endian(tail.as_slice());
        proof {
            lemma_be_write_back(tail@);
            assert(seq![if odd { 3u8 } else { 2u8 }] + tail@ =~= whole);
        }
        PublicKey { odd, x }
    }

    /// Reads a public key from a PEM text.
    pub fn from_pem(text: &str) -> (r: Option<PublicKey>)
        ensures
            match r {
                Some(key) => pem_point(text@) == Some(key.sec1()),
                None => pem_point(text@) is None,
            },
    {
        match decode_pem(text) {
            Some(point) => Some(PublicKey::from_point(point)),
            None => None,
        }
    }

    /// The PEM text of the key. Reading it gives the key back.
    pub fn to_pem(&self) -> (text: String)
        ensures
            text@ == public_key_pem(self.sec1()),
            pem_point(text@) == Some(self.sec1()),
    {
        proof {
            use_type_invariant(self);
        }
        let point = self.to_sec1_bytes();
        encode_pem(point.as_slice())
    }

    /// The 33 bytes of the compressed point.
    pub fn to_sec1_bytes(&self) -> (bytes: Vec<u8>)
        ensures
            bytes@ == self.sec1(),
            bytes@.len() == 33,
            sec1_point(bytes@) == Some(bytes@),
    {
        proof {
            use_type_invariant(self);
        }
        let mut bytes = word(&self.x);
        bytes.insert(
            0,
            if self.odd {
                3
            } else {
                2
            },
        );
        assert(bytes@ =~= self.sec1());
        bytes
    }
}

/// Two public keys with the same compressed bytes are the same.
pub proof fn lemma_public_key_injective(a: PublicKey, b: PublicKey)
    requires
        a.sec1() == b.sec1(),
    ensures
        a == b,
{
    lemma_be_bytes_len(a.x@, 32);
    lemma_be_bytes_len(b.x@, 32);
    assert(a.sec1()[0] == if a.odd { 3u8 } else { 2u8 });
    assert(b.sec1()[0] == if b.odd { 3u8 } else { 2u8 });
    assert(a.sec1().skip(1) =~= be_bytes(a.x@, 32));
    assert(b.sec1().skip(1) =~= be_bytes(b.x@, 32));
    crate::u256::lemma_u256_bound(a.x);
    crate::u256::lemma_u256_bound(b.x);
    lemma_be_read_back(a.x@, 32);
    lemma_be_read_back(b.x@, 32);
    crate::u256::lemma_u256_injective(a.x, b.x);
}

impl ToCbor for PublicKey {
    open spec fn tokens(&self) -> Seq<Token> {
        seq![Token::ArrayOf(public_key_der(self.sec1()).len())] + tokens_of_all(
            public_key_der(self.sec1()),
        )
    }

    fn to_cbor(&self) -> (value: ciborium::Value) {
        proof {
            use_type_invariant(self);
        }
        let point = self.to_sec1_bytes();
        array_of(&encode_der(point.as_slice()))
    }
}

/// A private key on the secp256k1 curve, used to sign transactions.
#[derive(Clone, Copy, Debug, PartialEq, Eq, Structural)]
pub struct PrivateKey {
    scalar: U256,
}

impl PrivateKey {
    #[verifier::type_invariant]
    spec fn inv(self) -> bool {
        is_scalar(self.scalar@)
    }

    /// The 32 bytes of the secret scalar.
    pub closed spec fn secret(self) -> Seq<u8> {
        be_bytes(self.scalar@, 32)
    }

    /// Whether `key` is the public key of this private key.
    pub open spec fn has_public_key(self, key: PublicKey) -> bool {
        key.sec1() == public_point(self.secret())
    }

    /// A new key, chosen at random.
    pub fn new() -> (key: PrivateKey)
        ensures
            key.secret().len() == 32,
            is_scalar(be_value(key.secret())),
    {
        let secret = random_secret();
        let scalar = U256::from_big_endian(secret.as_slice());
        proof {
            lemma_be_write_back(secret@);
        }
        PrivateKey { scalar }
    }

    /// Reads a key from the big-endian bytes of its scalar. As few as 24 bytes
    /// are accepted: the missing ones in front are zeros.
    pub fn from_slice(bytes: &[u8]) -> (r: Option<PrivateKey>)
        ensures
            match r {
                Some(key) => {
                    &&& 24 <= bytes@.len() <= 32
                    &&& is_scalar(be_value(bytes@))
                    &&& key.secret() == be_bytes(be_value(bytes@), 32)
                },
                None => !(24 <= bytes@.len() <= 32 && is_scalar(be_value(bytes@))),
            },
    {
        if bytes.len() < 24 || bytes.len() > 32 {
            return None;
        }
        let scalar = U256::from_big_endian(bytes);
        if scalar_in_range(&scalar) {
            Some(PrivateKey { scalar })
        } else {
            None
        }
    }

    /// The 32 bytes of the secret scalar.
    pub fn to_bytes(&self) -> (bytes: Vec<u8>)
        ensures
            bytes@ == self.secret(),
            bytes@.len() == 32,
            is_scalar(be_value(bytes@)),
            be_bytes(be_value(bytes@), 32) == bytes@,
    {
        proof {
            use_type_invariant(self);
        }
        word(&self.scalar)
    }

    /// The public key that belongs to this private key.
    pub fn public_key(&self) -> (key: PublicKey)
        ensures
            self.has_public_key(key),
    {
        proof {
            use_type_invariant(self);
        }
        let secret = word(&self.scalar);
        PublicKey::from_point(compute_public_point(secret.as_slice()))
    }
}

/// Two private keys with the same secret bytes are the same.
pub proof fn lemma_private_key_injective(a: PrivateKey, b: PrivateKey)
    requires
        a.secret() == b.secret(),
    ensures
        a == b,
{
    crate::u256::lemma_u256_bound(a.scalar);
    crate::u256::lemma_u256_bound(b.scalar);
    lemma_be_read_back(a.scalar@, 32);
    lemma_be_read_back(b.scalar@, 32);
    crate::u256::lemma_u256_injective(a.scalar, b.scalar);
}

/// An ECDSA signature over the secp256k1 curve, produced when signing a
/// transaction: its two scalars.
#[derive(Clone, Copy, Debug, PartialEq, Eq, Structural)]
pub struct Signature {
    r: U256,
    s: U256,
}

impl Signature {
    #[verifier::type_invariant]
    spec fn inv(self) -> bool {
        is_scalar(self.r@) && is_scalar(self.s@)
    }

    /// The 64 bytes of the compact form.
    pub closed spec fn compact(self) -> Seq<u8> {
        be_bytes(self.r@, 32) + be_bytes(self.s@, 32)
    }

    /// Whether this signature of a hash verifies against a public key.
    pub open spec fn verifies(self, output_hash: crate::sha256::Hash, public_key: PublicKey) -> bool {
        ecdsa_verifies(public_key.sec1(), be_bytes(output_hash.0@, 32), self.compact())
    }

    /// The compact form has 64 bytes.
    pub proof fn lemma_compact_length(self)
        ensures
            self.compact().len() == 64,
    {
        lemma_be_bytes_len(self.r@, 32);
        lemma_be_bytes_len(self.s@, 32);
    }

    /// Reads a signature from its compact form.
    pub fn from_slice(bytes: &[u8]) -> (r: Option<Signature>)
        ensures
            match r {
                Some(signature) => is_signature(bytes@) && signature.compact() == bytes@,
                None => !is_signature(bytes@),
            },
    {
        if bytes.len() != 64 {
            return None;
        }
        let mut front = vstd::slice::slice_to_vec(bytes);
        let back = front.split_off(32);
        let r = U256::from_big_endian(front.as_slice());
        let s = U256::from_big_endian(back.as_slice());
        proof {
            assert(front@ =~= bytes@.take(32));
            assert(back@ =~= bytes@.skip(32));
            lemma_be_write_back(front@);
            lemma_be_write_back(back@);
            assert(front@ + back@ =~= bytes@);
        }
        if scalar_in_range(&r) && scalar_in_range(&s) {
            Some(Signature { r, s })
        } else {
            None
        }
    }

    /// The 64 bytes of the compact form.
    pub fn to_bytes(&self) -> (bytes: Vec<u8>)
        ensures
            bytes@ == self.compact(),
            is_signature(bytes@),
    {
        proof {
            use_type_invariant(self);
        }
        let mut bytes = word(&self.r);
        let mut back = word(&self.s);
        let ghost front = bytes@;
        let ghost end = back@;
        bytes.append(&mut back);
        proof {
            assert(bytes@.take(32) =~= front);
            assert(bytes@.skip(32) =~= end);
        }
        bytes
    }

    /// Signs the output hash using the given private key. The signature
    /// verifies against the public key of the private key.
    pub fn sign_output(output_hash: &crate::sha256::Hash, private_key: &PrivateKey) -> (signature: Signature)
        ensures
            signature.compact() == ecdsa_signature(
                private_key.secret(),
                be_bytes(output_hash.0@, 32),
            ),
            forall|key: PublicKey|
                private_key.has_public_key(key) ==> #[trigger] signature.verifies(
                    *output_hash,
                    key,
                ),
    {
        proof {
            use_type_invariant(private_key);
        }
        let secret = word(&private_key.scalar);
        let hash_bytes = output_hash.as_bytes();
        let bytes = compute_signature(secret.as_slice(), hash_bytes.as_slice());
        match Signature::from_slice(bytes.as_slice()) {
            Some(signature) => signature,
            None => {
                assert(false);
                Signature { r: U256::from_u64(1), s: U256::from_u64(1) }
            },
        }
    }

    /// Verifies the output hash against the given public key.
    pub fn verify_output(&self, output_hash: &crate::sha256::Hash, public_key: &PublicKey) -> (r: bool)
        ensures
            r == self.verifies(*output_hash, *public_key),
    {
        proof {
            use_type_invariant(self);
            use_type_invariant(public_key);
        }
        let point = public_key.to_sec1_bytes();
        let hash_bytes = output_hash.as_bytes();
        let bytes = self.to_bytes();
        check_signature(point.as_slice(), hash_bytes.as_slice(), bytes.as_slice())
    }
}

/// Two signatures with the same compact form are the same.
pub proof fn lemma_signature_injective(a: Signature, b: Signature)
    requires
        a.compact() == b.compact(),
    ensures
        a == b,
{
    crate::u256::lemma_u256_bound(a.r);
    crate::u256::lemma_u256_bound(a.s);
    crate::u256::lemma_u256_bound(b.r);
    crate::u256::lemma_u256_bound(b.s);
    lemma_be_bytes_len(a.r@, 32);
    lemma_be_bytes_len(b.r@, 32);
    assert(a.compact().take(32) =~= be_bytes(a.r@, 32));
    assert(b.compact().take(32) =~= be_bytes(b.r@, 32));
    assert(a.compact().skip(32) =~= be_bytes(a.s@, 32));
    assert(b.compact().skip(32) =~= be_bytes(b.s@, 32));
    lemma_be_read_back(a.r@, 32);
    lemma_be_read_back(a.s@, 32);
    lemma_be_read_back(b.r@, 32);
    lemma_be_read_back(b.s@, 32);
    crate::u256::lemma_u256_injective(a.r, b.r);
    crate::u256::lemma_u256_injective(a.s, b.s);
}

impl ToCbor for u8 {
    open spec fn tokens(&self) -> Seq<Token> {
        seq![Token::Unsigned(*self as u64)]
    }

    fn to_cbor(&self) -> (value: ciborium::Value) {
        unsigned(*self as u64)
    }
}

impl ToCbor for Signature {
    open spec fn tokens(&self) -> Seq<Token> {
        seq![Token::ArrayOf(64)] + tokens_of_all(self.compact())
    }

    fn to_cbor(&self) -> (value: ciborium::Value) {
        array_of(&self.to_bytes())
    }
}

} // verus!
