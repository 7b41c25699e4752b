//! SHA-256 hashes of CBOR-encoded data.

use crate::bytes::{be_bytes, be_value, lemma_be_value_bound, lemma_be_write_back};
use crate::cbor::{cbor_bytes, encode, ToCbor, Token};
use crate::text::{hex_digits, hex_text};
use crate::u256::{half_range, lemma_pow256_32, U256};
use vstd::prelude::*;

verus! {

/// A SHA-256 hash represented as a 256-bit unsigned integer.
#[derive(Clone, Copy, Debug, PartialEq, Eq, Hash, Structural)]
pub struct Hash(pub U256);

/// The lower-case hexadecimal text that `sha256::digest` returns for a byte
/// string.
pub uninterp spec fn sha256_hex(bytes: Seq<u8>) -> Seq<char>;

/// Whether a character is a hexadecimal digit, of either case.
pub open spec fn is_hex_digit(c: char) -> bool {
    '0' <= c <= '9' || 'a' <= c <= 'f' || 'A' <= c <= 'F'
}

/// The value of a hexadecimal digit.
pub open spec fn hex_digit(c: char) -> int {
    if '0' <= c <= '9' {
        c as int - '0' as int
    } else if 'a' <= c <= 'f' {
        c as int - 'a' as int + 10
    } else {
        c as int - 'A' as int + 10
    }
}

/// Whether a text consists of pairs of hexadecimal digits.
pub open spec fn is_hex(s: Seq<char>) -> bool {
    &&& s.len() % 2 == 0
    &&& forall|i: int| 0 <= i < s.len() ==> is_hex_digit(#[trigger] s[i])
}

/// The bytes that a text of pairs of hexadecimal digits stands for.
pub open spec fn hex_bytes(s: Seq<char>) -> Seq<u8> {
    Seq::new(s.len() / 2, |i: int| (hex_digit(s[2 * i]) * 16 + hex_digit(s[2 * i + 1])) as u8)
}

#[verifier::external_type_specification]
#[verifier::external_body]
pub struct ExFromHexError(hex::FromHexError);

/// `sha256::digest` of a byte vector: the digest of 32 bytes as 64 hexadecimal
/// digits.
#[verifier::external_body]
fn digest(bytes: &Vec<u8>) -> (text: String)
    ensures
        text@ == sha256_hex(bytes@),
        text@.len() == 64,
        is_hex(text@),
{
    ::sha256::digest(bytes)
}

/// `hex::decode`: succeeds on pairs of hexadecimal digits, of either case, and
/// returns one byte for each pair.
#[verifier::external_body]
fn decode_hex(text: &str) -> (r: Result<Vec<u8>, hex::FromHexError>)
    ensures
        match r {
            Ok(bytes) => is_hex(text@) && bytes@ == hex_bytes(text@),
            Err(_) => !is_hex(text@),
        },
{
    hex::decode(text)
}

/// The hash whose value is `value`.
pub open spec fn hash_from_value(value: nat) -> Hash {
    Hash(U256 { hi: (value / half_range()) as u128, lo: (value % half_range()) as u128 })
}

/// The hash of a data item: the SHA-256 digest of its CBOR encoding.
pub open spec fn hash_of(tokens: Seq<Token>) -> Hash {
    hash_from_value(be_value(hex_bytes(sha256_hex(cbor_bytes(tokens)))))
}

impl Hash {
    /// Encodes `data` as CBOR and returns its SHA-256 hash. The bytes of the hash
    /// are those that the 64 digits of the digest stand for.
    pub fn hash<T: ToCbor>(data: &T) -> (r: Hash)
        ensures
            r == hash_of(data.tokens()),
            sha256_hex(cbor_bytes(data.tokens())).len() == 64,
            is_hex(sha256_hex(cbor_bytes(data.tokens()))),
            be_bytes(r.0@, 32) == hex_bytes(sha256_hex(cbor_bytes(data.tokens()))),
    {
        let text = digest(&encode(data));
        proof {
            lemma_hash_bytes(text@);
        }
        match Hash::from_hex(text.as_str()) {
            Some(hash) => hash,
            None => Hash::zero(),
        }
    }

    /// Reads a hash from its 64 hexadecimal digits.
    pub fn from_hex(text: &str) -> (r: Option<Hash>)
        ensures
            match r {
                Some(hash) => {
                    &&& is_hex(text@)
                    &&& text@.len() == 64
                    &&& hash == hash_from_value(be_value(hex_bytes(text@)))
                },
                None => !(is_hex(text@) && text@.len() == 64),
            },
    {
        match decode_hex(text) {
            Ok(bytes) => {
                if bytes.len() == 32 {
                    let value = U256::from_big_endian(bytes.as_slice());
                    proof {
                        lemma_hash_from_value(Hash(value));
                    }
                    Some(Hash(value))
                } else {
                    None
                }
            },
            Err(_) => None,
        }
    }

    /// Returns `true` if this hash is less than or equal to `target`.
    ///
    /// Used in proof-of-work to check whether a block hash meets the difficulty
    /// target.
    pub fn matches(&self, target: U256) -> (r: bool)
        ensures
            r == (self.0@ <= target@),
    {
        self.0.at_most(&target)
    }

    /// The 32 bytes of this hash, most significant first.
    pub fn as_bytes(&self) -> (bytes: [u8; 32])
        ensures
            bytes@ == be_bytes(self.0@, 32),
    {
        self.0.to_big_endian()
    }

    /// The value of this hash in hexadecimal digits, without leading zeros.
    pub fn to_hex(&self) -> (r: String)
        ensures
            r@ == hex_digits(self.0@),
    {
        hex_text(&self.0)
    }

    /// Returns a hash of all zeros, used as a placeholder.
    pub fn zero() -> (r: Hash)
        ensures
            r == zero_hash(),
            r.0@ == 0,
    {
        Hash(U256::zero())
    }
}

/// The hash of all zeros.
pub open spec fn zero_hash() -> Hash {
    Hash(U256 { hi: 0, lo: 0 })
}

/// A hash is the one that has its value.
pub proof fn lemma_hash_from_value(hash: Hash)
    ensures
        hash_from_value(hash.0@) == hash,
{
    let (hi, lo, p) = (hash.0.hi as int, hash.0.lo as int, half_range() as int);
    assert((hi * p + lo) / p == hi && (hi * p + lo) % p == lo);
}

/// The bytes of the hash that 64 hexadecimal digits stand for are the bytes that
/// the digits stand for.
pub proof fn lemma_hash_bytes(digits: Seq<char>)
    requires
        digits.len() == 64,
    ensures
        be_bytes(hash_from_value(be_value(hex_bytes(digits))).0@, 32) == hex_bytes(digits),
{
    let bytes = hex_bytes(digits);
    let value = be_value(bytes);
    lemma_be_value_bound(bytes);
    lemma_pow256_32();
    let p = half_range();
    assert(value / p < p && value % p < p && (value / p) * p + value % p == value)
        by (nonlinear_arith)
        requires
            p == 0x1_0000_0000_0000_0000_0000_0000_0000_0000nat,
            value < p * p,
    ;
    lemma_be_write_back(bytes);
}

impl ToCbor for Hash {
    open spec fn tokens(&self) -> Seq<Token> {
        self.0.tokens()
    }

    fn to_cbor(&self) -> (value: ciborium::Value) {
        self.0.to_cbor()
    }
}

} // verus!
