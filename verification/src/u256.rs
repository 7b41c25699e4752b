//! 256-bit unsigned integers.

use crate::bytes::{be_bytes, be_value, lemma_be_read_back, lemma_be_value_bound,
    lemma_be_value_concat, pow256, to_be};
use crate::cbor::{array, joined_tokens, unsigned, ToCbor, Token};
use vstd::prelude::*;

verus! {

/// The number of values of one 128-bit half.
pub open spec fn half_range() -> nat {
    0x1_0000_0000_0000_0000_0000_0000_0000_0000nat
}

/// The number of 256-bit values.
pub open spec fn full_range() -> nat {
    half_range() * half_range()
}

/// A 256-bit unsigned integer, kept as two 128-bit halves.
#[derive(Clone, Copy, Debug, PartialEq, Eq, Hash, Structural)]
pub struct U256 {
    pub hi: u128,
    pub lo: u128,
}

impl View for U256 {
    type V = nat;

    open spec fn view(&self) -> nat {
        self.hi as nat * half_range() + self.lo as nat
    }
}

/// Two integers with the same value are the same.
pub proof fn lemma_u256_injective(a: U256, b: U256)
    requires
        a@ == b@,
    ensures
        a == b,
{
}

/// An integer takes at most 32 bytes.
pub proof fn lemma_u256_bound(a: U256)
    ensures
        a@ < full_range(),
        a@ < pow256(32),
{
    lemma_pow256_32();
}

/// 256 to the power of 31 and of 32.
pub(crate) proof fn lemma_pow256_32()
    ensures
        pow256(16) == half_range(),
        pow256(31) * 256 == full_range(),
        pow256(32) == full_range(),
        forall|n: nat| n <= 31 ==> #[trigger] pow256(n) <= pow256(31),
{
    reveal_with_fuel(pow256, 33);
    assert forall|n: nat| n <= 31 implies #[trigger] pow256(n) <= pow256(31) by {
        lemma_pow256_monotone(n, 31);
    }
}

proof fn lemma_pow256_monotone(a: nat, b: nat)
    requires
        a <= b,
    ensures
        0 < pow256(a) <= pow256(b),
    decreases b,
{
    if a < b {
        lemma_pow256_monotone(a, (b - 1) as nat);
    } else if a > 0 {
        lemma_pow256_monotone((a - 1) as nat, (b - 1) as nat);
    }
}

impl U256 {
    /// The integer 0.
    pub fn zero() -> (r: U256)
        ensures
            r@ == 0,
            r == (U256 { hi: 0, lo: 0 }),
    {
        U256 { hi: 0, lo: 0 }
    }

    /// The integer with the given value.
    pub fn from_u64(value: u64) -> (r: U256)
        ensures
            r@ == value,
    {
        U256 { hi: 0, lo: value as u128 }
    }

    /// Whether this integer is less than or equal to `other`.
    pub fn at_most(&self, other: &U256) -> (r: bool)
        ensures
            r == (self@ <= other@),
    {
        self.hi < other.hi || (self.hi == other.hi && self.lo <= other.lo)
    }

    /// Whether this integer is less than `other`.
    pub fn less_than(&self, other: &U256) -> (r: bool)
        ensures
            r == (self@ < other@),
    {
        !other.at_most(self)
    }

    /// The smaller of two integers.
    pub fn min(self, other: U256) -> (r: U256)
        ensures
            r == if self@ <= other@ { self } else { other },
    {
        if self.at_most(&other) {
            self
        } else {
            other
        }
    }

    /// A quarter of this integer, rounded down.
    pub fn quarter(&self) -> (r: U256)
        ensures
            r@ == self@ / 4,
    {
        let carry: u128 = self.hi % 4;
        U256 {
            hi: self.hi / 4,
            lo: carry * 0x4000_0000_0000_0000_0000_0000_0000_0000 + self.lo / 4,
        }
    }

    /// Four times this integer, or the largest integer if that is too large.
    pub fn saturating_quadruple(&self) -> (r: U256)
        ensures
            r@ == if self@ * 4 < full_range() { self@ * 4 } else { (full_range() - 1) as nat },
    {
        let q: u128 = 0x4000_0000_0000_0000_0000_0000_0000_0000;
        if self.hi >= q {
            U256 { hi: u128::MAX, lo: u128::MAX }
        } else {
            U256 { hi: self.hi * 4 + self.lo / q, lo: (self.lo % q) * 4 }
        }
    }

    /// The quotient and the remainder of a division by 10.
    pub fn div_ten(&self) -> (r: (U256, u8))
        ensures
            r.0@ == self@ / 10,
            r.1 == self@ % 10,
    {
        let w: u128 = 0x1_0000_0000_0000_0000;
        let carry: u128 = self.hi % 10;
        let upper: u128 = carry * w + self.lo / w;
        let lower: u128 = (upper % 10) * w + self.lo % w;
        (U256 { hi: self.hi / 10, lo: (upper / 10) * w + lower / 10 }, (lower % 10) as u8)
    }

    /// The quotient and the remainder of a division by 16.
    pub fn div_sixteen(&self) -> (r: (U256, u8))
        ensures
            r.0@ == self@ / 16,
            r.1 == self@ % 16,
    {
        let carry: u128 = self.hi % 16;
        let lo: u128 = carry * 0x1000_0000_0000_0000_0000_0000_0000_0000 + self.lo / 16;
        (U256 { hi: self.hi / 16, lo }, (self.lo % 16) as u8)
    }

    /// Ten times this integer plus a digit, if that fits.
    pub fn times_ten_plus(&self, digit: u8) -> (r: Option<U256>)
        requires
            digit < 10,
        ensures
            match r {
                Some(v) => v@ == self@ * 10 + digit,
                None => self@ * 10 + digit >= full_range(),
            },
    {
        let w: u128 = 0x1_0000_0000_0000_0000;
        let low: u128 = (self.lo % w) * 10 + digit as u128;
        let mid: u128 = (self.lo / w) * 10 + low / w;
        let lo: u128 = (mid % w) * w + low % w;
        let carry: u128 = mid / w;
        match self.hi.checked_mul(10) {
            Some(h) => match h.checked_add(carry) {
                Some(hi) => Some(U256 { hi, lo }),
                None => None,
            },
            None => None,
        }
    }

    /// Reads a big-endian byte string of at most 32 bytes.
    pub fn from_big_endian(bytes: &[u8]) -> (r: U256)
        requires
            bytes@.len() <= 32,
        ensures
            r@ == be_value(bytes@),
    {
        let mut r = U256 { hi: 0, lo: 0 };
        let mut i: usize = 0;
        let split: u128 = 0x100_0000_0000_0000_0000_0000_0000_0000;
        assert(bytes@.take(0) =~= Seq::empty());
        while i < bytes.len()
            invariant
                i <= bytes@.len() <= 32,
                split == 0x100_0000_0000_0000_0000_0000_0000_0000,
                r@ == be_value(bytes@.take(i as int)),
            decreases bytes@.len() - i,
        {
            proof {
                lemma_be_value_bound(bytes@.take(i as int));
                lemma_pow256_32();
                assert(r@ < pow256(31));
                assert(bytes@.take(i + 1).drop_last() =~= bytes@.take(i as int));
            }
            r = U256 { hi: r.hi * 256 + r.lo / split, lo: (r.lo % split) * 256 + bytes[i] as u128 };
            i = i + 1;
        }
        assert(bytes@.take(i as int) =~= bytes@);
        r
    }

    /// The 32 bytes of this integer, most significant first.
    pub fn to_big_endian(&self) -> (out: [u8; 32])
        ensures
            out@ == be_bytes(self@, 32),
            be_value(out@) == self@,
    {
        let hi = to_be(self.hi, 16);
        let lo = to_be(self.lo, 16);
        let mut out: [u8; 32] = [0; 32];
        proof {
            crate::bytes::lemma_be_bytes_len(self.hi as nat, 16);
            crate::bytes::lemma_be_bytes_len(self.lo as nat, 16);
        }
        let mut i: usize = 0;
        while i < 16
            invariant
                i <= 16,
                hi@.len() == 16,
                lo@.len() == 16,
                forall|j: int| 0 <= j < i ==> out@[j] == hi@[j] && out@[16 + j] == lo@[j],
            decreases 16 - i,
        {
            out[i] = hi[i];
            out[16 + i] = lo[i];
            i = i + 1;
        }
        proof {
            lemma_pow256_32();
            assert(out@ =~= hi@ + lo@);
            lemma_be_value_concat(hi@, lo@);
            lemma_be_read_back(self.hi as nat, 16);
            lemma_be_read_back(self.lo as nat, 16);
            crate::bytes::lemma_be_write_back(out@);
        }
        out
    }
}

/// The 64-bit words of an integer, least significant first.
pub open spec fn words(a: U256) -> Seq<u64> {
    let w = 0x1_0000_0000_0000_0000int;
    seq![
        (a.lo as int % w) as u64,
        (a.lo as int / w) as u64,
        (a.hi as int % w) as u64,
        (a.hi as int / w) as u64,
    ]
}

impl ToCbor for U256 {
    open spec fn tokens(&self) -> Seq<Token> {
        seq![
            Token::ArrayOf(4),
            Token::Unsigned(words(*self)[0]),
            Token::Unsigned(words(*self)[1]),
            Token::Unsigned(words(*self)[2]),
            Token::Unsigned(words(*self)[3]),
        ]
    }

    fn to_cbor(&self) -> (value: ciborium::Value) {
        let w: u128 = 0x1_0000_0000_0000_0000;
        let mut items: Vec<ciborium::Value> = Vec::new();
        items.push(unsigned((self.lo % w) as u64));
        items.push(unsigned((self.lo / w) as u64));
        items.push(unsigned((self.hi % w) as u64));
        items.push(unsigned((self.hi / w) as u64));
        proof {
            let v = items@;
            reveal_with_fuel(joined_tokens, 5);
            assert(v.drop_last() =~= seq![v[0], v[1], v[2]]);
            assert(v.drop_last().drop_last() =~= seq![v[0], v[1]]);
            assert(v.drop_last().drop_last().drop_last() =~= seq![v[0]]);
            assert(seq![Token::ArrayOf(4)] + joined_tokens(v) =~= self.tokens());
        }
        array(items)
    }
}

} // verus!
