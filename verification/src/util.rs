//! The Merkle root of a block's transactions.

use crate::cbor::{array, joined_tokens, ToCbor, Token};
use crate::sha256::{hash_of, zero_hash};
use crate::types::transaction::{Transaction, TransactionView};
use vstd::prelude::*;

verus! {

/// The root of the Merkle tree over a list of transactions.
#[derive(Clone, Copy, Debug, PartialEq, Eq, Structural)]
pub struct MerkleRoot(pub crate::sha256::Hash);

/// Two neighbours in a layer of the tree.
struct Neighbours {
    left: crate::sha256::Hash,
    right: crate::sha256::Hash,
}

/// The hash of two neighbours: that of an array of the two.
pub open spec fn parent(
    left: crate::sha256::Hash,
    right: crate::sha256::Hash,
) -> crate::sha256::Hash {
    hash_of(seq![Token::ArrayOf(2)] + left.tokens() + right.tokens())
}

/// The layer above a layer: the parents of its pairs. A last hash without a
/// neighbour is paired with itself.
pub open spec fn layer_above(layer: Seq<crate::sha256::Hash>) -> Seq<crate::sha256::Hash> {
    Seq::new(
        (layer.len() + 1) / 2,
        |i: int|
            parent(
                layer[2 * i],
                if 2 * i + 1 < layer.len() {
                    layer[2 * i + 1]
                } else {
                    layer[2 * i]
                },
            ),
    )
}

/// The hash at the top of the tree over a layer, or zeros if there is none.
pub open spec fn root_of(layer: Seq<crate::sha256::Hash>) -> crate::sha256::Hash
    decreases layer.len(),
{
    if layer.len() == 0 {
        zero_hash()
    } else if layer.len() == 1 {
        layer[0]
    } else {
        root_of(layer_above(layer))
    }
}

/// The hashes of several transactions.
pub open spec fn transaction_ids(transactions: Seq<TransactionView>) -> Seq<crate::sha256::Hash> {
    transactions.map_values(|t: TransactionView| t.id())
}

/// The views of several transactions.
pub open spec fn views(transactions: Seq<Transaction>) -> Seq<TransactionView> {
    transactions.map_values(|t: Transaction| t@)
}

/// The Merkle root of several transactions.
pub open spec fn merkle_root(transactions: Seq<TransactionView>) -> MerkleRoot {
    MerkleRoot(root_of(transaction_ids(transactions)))
}

impl ToCbor for Neighbours {
    closed spec fn tokens(&self) -> Seq<Token> {
        seq![Token::ArrayOf(2)] + self.left.tokens() + self.right.tokens()
    }

    fn to_cbor(&self) -> (value: ciborium::Value) {
        let mut items: Vec<ciborium::Value> = Vec::new();
        items.push(self.left.to_cbor());
        items.push(self.right.to_cbor());
        proof {
            let v = items@;
            reveal_with_fuel(joined_tokens, 3);
            assert(v.drop_last() =~= seq![v[0]]);
            assert(seq![Token::ArrayOf(2)] + joined_tokens(v) =~= self.tokens());
        }
        array(items)
    }
}

impl MerkleRoot {
    /// The Merkle root of the given transactions. That of no transactions is
    /// zeros.
    pub fn calculate(transactions: &Vec<Transaction>) -> (r: MerkleRoot)
        ensures
            r == merkle_root(views(transactions@)),
    {
        let mut layer: Vec<crate::sha256::Hash> = Vec::new();
        let mut i: usize = 0;
        let ghost ids = transaction_ids(views(transactions@));
        while i < transactions.len()
            invariant
                i <= transactions@.len(),
                ids == transaction_ids(views(transactions@)),
                layer@ =~= ids.take(i as int),
            decreases transactions@.len() - i,
        {
            layer.push(transactions[i].hash());
            i = i + 1;
        }
        assert(layer@ =~= ids);
        if layer.len() == 0 {
            return MerkleRoot(crate::sha256::Hash::zero());
        }
        while layer.len() > 1
            invariant
                layer@.len() >= 1,
                root_of(layer@) == root_of(ids),
            decreases layer@.len(),
        {
            let above = MerkleRoot::next_layer(&layer);
            layer = above;
        }
        MerkleRoot(layer[0])
    }

    /// The layer above a layer.
    fn next_layer(layer: &Vec<crate::sha256::Hash>) -> (above: Vec<crate::sha256::Hash>)
        ensures
            above@ == layer_above(layer@),
    {
        let mut above: Vec<crate::sha256::Hash> = Vec::new();
        let mut i: usize = 0;
        while i < layer.len()
            invariant
                i <= layer@.len() + 1,
                i == 2 * above@.len(),
                above@.len() <= (layer@.len() + 1) / 2,
                above@ =~= layer_above(layer@).take(above@.len() as int),
            decreases layer@.len() + 1 - i,
        {
            let left = layer[i];
            let right = if layer.len() - i > 1 {
                layer[i + 1]
            } else {
                left
            };
            above.push(crate::sha256::Hash::hash(&Neighbours { left, right }));
            if layer.len() - i > 1 {
                i = i + 2;
            } else {
                assert(above@ =~= layer_above(layer@));
                return above;
            }
        }
        assert(above@ =~= layer_above(layer@));
        above
    }
}

impl ToCbor for MerkleRoot {
    open spec fn tokens(&self) -> Seq<Token> {
        self.0.tokens()
    }

    fn to_cbor(&self) -> (value: ciborium::Value) {
        self.0.to_cbor()
    }
}

} // verus!
