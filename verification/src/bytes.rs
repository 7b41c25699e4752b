//! Unsigned integers as byte strings, most significant byte first.

use vstd::prelude::*;

verus! {

/// The number that a big-endian byte string stands for.
pub open spec fn be_value(bytes: Seq<u8>) -> nat
    decreases bytes.len(),
{
    if bytes.len() == 0 {
        0
    } else {
        be_value(bytes.drop_last()) * 256 + bytes.last() as nat
    }
}

/// The `len` low-order bytes of `value`, most significant first.
pub open spec fn be_bytes(value: nat, len: nat) -> Seq<u8>
    decreases len,
{
    if len == 0 {
        Seq::empty()
    } else {
        be_bytes(value / 256, (len - 1) as nat).push((value % 256) as u8)
    }
}

/// 256 to the power of `n`: the count of byte strings of length `n`.
pub open spec fn pow256(n: nat) -> nat
    decreases n,
{
    if n == 0 {
        1
    } else {
        256 * pow256((n - 1) as nat)
    }
}

/// `n` bytes stand for less than 256 to the power of `n`.
pub proof fn lemma_be_value_bound(bytes: Seq<u8>)
    ensures
        be_value(bytes) < pow256(bytes.len()),
    decreases bytes.len(),
{
    if bytes.len() > 0 {
        lemma_be_value_bound(bytes.drop_last());
    }
}

/// The encoding has the length that was asked for.
pub proof fn lemma_be_bytes_len(value: nat, len: nat)
    ensures
        be_bytes(value, len).len() == len,
    decreases len,
{
    if len > 0 {
        lemma_be_bytes_len(value / 256, (len - 1) as nat);
    }
}

/// Reading back an encoded number gives the number, if it fits.
pub proof fn lemma_be_read_back(value: nat, len: nat)
    requires
        value < pow256(len),
    ensures
        be_value(be_bytes(value, len)) == value,
    decreases len,
{
    if len > 0 {
        let rest = be_bytes(value / 256, (len - 1) as nat);
        lemma_be_read_back(value / 256, (len - 1) as nat);
        assert(rest.push((value % 256) as u8).drop_last() =~= rest);
    }
}

/// Encoding the number that a byte string stands for gives the byte string.
pub proof fn lemma_be_write_back(bytes: Seq<u8>)
    ensures
        be_bytes(be_value(bytes), bytes.len()) == bytes,
    decreases bytes.len(),
{
    if bytes.len() > 0 {
        let rest = bytes.drop_last();
        lemma_be_write_back(rest);
        assert((be_value(rest) * 256 + bytes.last() as nat) / 256 == be_value(rest));
        assert(rest.push(bytes.last()) =~= bytes);
    } else {
        assert(be_bytes(0, 0) =~= bytes);
    }
}

/// The number that two byte strings, one after the other, stand for.
pub proof fn lemma_be_value_concat(front: Seq<u8>, back: Seq<u8>)
    ensures
        be_value(front + back) == be_value(front) * pow256(back.len()) + be_value(back),
    decreases back.len(),
{
    if back.len() == 0 {
        assert(front + back =~= front);
        let (a, p) = (be_value(front), pow256(0));
        assert(a * p == a) by (nonlinear_arith)
            requires
                p == 1,
        ;
    } else {
        let rest = back.drop_last();
        lemma_be_value_concat(front, rest);
        assert((front + back).drop_last() =~= front + rest);
        let (a, p, r) = (be_value(front) as int, pow256(rest.len()) as int, be_value(rest) as int);
        assert((a * p + r) * 256 == a * (256 * p) + r * 256) by (nonlinear_arith);
        assert((front + back).last() == back.last());
        assert(pow256(back.len()) == 256 * pow256(rest.len()));
    }
}

/// 256 to the power of 8.
pub proof fn lemma_pow256_8()
    ensures
        pow256(8) == 0x1_0000_0000_0000_0000,
{
    reveal_with_fuel(pow256, 9);
}

/// Writes the `len` low-order bytes of a number, most significant first.
pub fn to_be(value: u128, len: usize) -> (out: Vec<u8>)
    ensures
        out@ == be_bytes(value as nat, len as nat),
{
    let mut out: Vec<u8> = Vec::new();
    let mut rest: u128 = value;
    let mut left: usize = len;
    assert(be_bytes(rest as nat, left as nat) + out@ =~= be_bytes(value as nat, len as nat));
    while left > 0
        invariant
            be_bytes(rest as nat, left as nat) + out@ == be_bytes(value as nat, len as nat),
        decreases left,
    {
        let byte: u128 = rest % 256;
        let ghost before = out@;
        out.insert(0, byte as u8);
        proof {
            let front = be_bytes(rest as nat / 256, (left - 1) as nat);
            assert(be_bytes(rest as nat, left as nat) == front.push(byte as u8));
            assert(front.push(byte as u8) + before =~= front + out@);
        }
        rest = rest / 256;
        left = left - 1;
    }
    assert(be_bytes(rest as nat, 0) + out@ =~= out@);
    out
}

} // verus!
