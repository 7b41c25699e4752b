//! The Merkle tree over the transactions of a block.

use crate::cbor::{ToCbor, Token};
use crate::error::BlockChainError;
use crate::laws::encoding::{collides, collision_exists, law_hash_commits_to_the_transaction,
    lemma_integer_item, same_transaction};
use crate::sha256::{hash_of, zero_hash};
use crate::types::block::BlockView;
use crate::types::blockchain::block_verdict;
use crate::types::transaction::TransactionView;
use crate::util::{layer_above, merkle_root, parent, root_of, transaction_ids};
use vstd::arithmetic::power2::{lemma_pow2_pos, lemma_pow2_unfold, pow2};
use vstd::prelude::*;

verus! {

/// The layer above a layer has one hash for every two: that of the hashes at twice
/// its position and at the one behind. The last hash of an odd layer is paired with
/// itself.
pub proof fn law_layer_is_made_of_pairs(layer: Seq<crate::sha256::Hash>, k: int)
    requires
        0 <= 2 * k < layer.len(),
    ensures
        2 * layer_above(layer).len() == layer.len() || 2 * layer_above(layer).len() == layer.len()
            + 1,
        2 * k + 1 < layer.len() ==> layer_above(layer)[k] == parent(layer[2 * k], layer[2 * k + 1]),
        2 * k + 1 == layer.len() ==> layer_above(layer)[k] == parent(layer[2 * k], layer[2 * k]),
{
}

/// The root of a tree is that of the layer above, up to the layer of one hash, which
/// is the root. The root of nothing is zeros.
pub proof fn law_root_is_that_of_every_layer(layer: Seq<crate::sha256::Hash>)
    ensures
        layer.len() > 1 ==> root_of(layer) == root_of(layer_above(layer)),
        layer.len() == 1 ==> root_of(layer) == layer[0],
        layer.len() == 0 ==> root_of(layer) == zero_hash(),
{
}

/// The roots over two, three, four and five hashes.
pub proof fn law_small_trees(
    a: crate::sha256::Hash,
    b: crate::sha256::Hash,
    c: crate::sha256::Hash,
    d: crate::sha256::Hash,
    e: crate::sha256::Hash,
)
    ensures
        root_of(seq![a, b]) == parent(a, b),
        root_of(seq![a, b, c]) == parent(parent(a, b), parent(c, c)),
        root_of(seq![a, b, c, d]) == parent(parent(a, b), parent(c, d)),
        root_of(seq![a, b, c, d, e]) == parent(
            parent(parent(a, b), parent(c, d)),
            parent(parent(e, e), parent(e, e)),
        ),
{
    reveal_with_fuel(root_of, 4);
    let (ab, cc, cd, ee) = (parent(a, b), parent(c, c), parent(c, d), parent(e, e));
    assert(layer_above(seq![a, b]) =~= seq![ab]);
    assert(layer_above(seq![a, b, c]) =~= seq![ab, cc]);
    assert(layer_above(seq![a, b, c, d]) =~= seq![ab, cd]);
    assert(layer_above(seq![a, b, c, d, e]) =~= seq![ab, cd, ee]);
    assert(layer_above(seq![ab, cc]) =~= seq![parent(ab, cc)]);
    assert(layer_above(seq![ab, cd]) =~= seq![parent(ab, cd)]);
    assert(layer_above(seq![ab, cd, ee]) =~= seq![parent(ab, cd), parent(ee, ee)]);
    assert(layer_above(seq![parent(ab, cd), parent(ee, ee)]) =~= seq![
        parent(parent(ab, cd), parent(ee, ee)),
    ]);
}

/// A tree over an odd number of hashes is that over the same hashes with the last
/// one twice.
pub proof fn law_odd_layer_repeats_its_last(layer: Seq<crate::sha256::Hash>)
    requires
        layer.len() > 1,
        layer.len() % 2 == 1,
    ensures
        root_of(layer) == root_of(layer.push(layer.last())),
{
    let longer = layer.push(layer.last());
    assert(layer_above(layer) =~= layer_above(longer));
}

/// The tree over two lists of the same power of two of hashes has the trees over
/// either list below its root.
pub proof fn law_tree_has_two_halves(
    left: Seq<crate::sha256::Hash>,
    right: Seq<crate::sha256::Hash>,
    height: nat,
)
    requires
        left.len() == pow2(height),
        right.len() == pow2(height),
    ensures
        root_of(left + right) == parent(root_of(left), root_of(right)),
    decreases height,
{
    let all = left + right;
    lemma_pow2_pos(height);
    if height == 0 {
        vstd::arithmetic::power2::lemma2_to64();
        reveal_with_fuel(root_of, 2);
        assert(layer_above(all) =~= seq![parent(left[0], right[0])]);
    } else {
        let below = (height - 1) as nat;
        lemma_pow2_unfold(height);
        lemma_pow2_pos(below);
        assert(layer_above(all) =~= layer_above(left) + layer_above(right)) by {
            let n = pow2(below) as int;
            assert forall|k: int| 0 <= k < 2 * n implies layer_above(all)[k] == (layer_above(left)
                + layer_above(right))[k] by {
                if k < n {
                    assert(all[2 * k] == left[2 * k] && all[2 * k + 1] == left[2 * k + 1]);
                } else {
                    assert(all[2 * k] == right[2 * (k - n)]);
                    assert(all[2 * k + 1] == right[2 * (k - n) + 1]);
                }
            }
        }
        law_tree_has_two_halves(layer_above(left), layer_above(right), below);
    }
}

/// The hash of a pair tells the pair, unless two data items have the same hash.
pub proof fn law_parent_commits_to_its_children(
    a: crate::sha256::Hash,
    b: crate::sha256::Hash,
    c: crate::sha256::Hash,
    d: crate::sha256::Hash,
)
    requires
        parent(a, b) == parent(c, d),
    ensures
        (a == c && b == d) || collision_exists(),
{
    let x = seq![Token::ArrayOf(2)] + a.tokens() + b.tokens();
    let y = seq![Token::ArrayOf(2)] + c.tokens() + d.tokens();
    if x == y {
        let none = Seq::<Token>::empty();
        assert(x.skip(1) =~= a.0.tokens() + (b.0.tokens() + none));
        assert(y.skip(1) =~= c.0.tokens() + (d.0.tokens() + none));
        lemma_integer_item(a.0, c.0, b.0.tokens() + none, d.0.tokens() + none);
        lemma_integer_item(b.0, d.0, none, none);
    } else {
        assert(collides(x, y));
    }
}

/// The root of a tree tells the hashes: two lists of the same length with the same
/// root are the same, unless two data items have the same hash.
pub proof fn law_root_commits_to_the_hashes(
    a: Seq<crate::sha256::Hash>,
    b: Seq<crate::sha256::Hash>,
)
    requires
        a.len() == b.len(),
        root_of(a) == root_of(b),
    ensures
        a == b || collision_exists(),
    decreases a.len(),
{
    if a.len() == 0 {
        assert(a =~= b);
    } else if a.len() == 1 {
        assert(a =~= b);
    } else if !collision_exists() {
        let (x, y) = (layer_above(a), layer_above(b));
        law_root_commits_to_the_hashes(x, y);
        assert forall|i: int| 0 <= i < a.len() implies a[i] == b[i] by {
            let k = i / 2;
            law_layer_is_made_of_pairs(a, k);
            law_layer_is_made_of_pairs(b, k);
            if 2 * k + 1 < a.len() {
                law_parent_commits_to_its_children(
                    a[2 * k],
                    a[2 * k + 1],
                    b[2 * k],
                    b[2 * k + 1],
                );
            } else {
                law_parent_commits_to_its_children(a[2 * k], a[2 * k], b[2 * k], b[2 * k]);
            }
            assert(i == 2 * k || i == 2 * k + 1);
        }
        assert(a =~= b);
    }
}

/// The Merkle root tells the transactions: two lists of as many transactions with
/// the same root agree at every position, unless two data items have the same hash.
pub proof fn law_root_commits_to_the_transactions(
    a: Seq<TransactionView>,
    b: Seq<TransactionView>,
    i: int,
)
    requires
        a.len() == b.len(),
        merkle_root(a) == merkle_root(b),
        0 <= i < a.len(),
    ensures
        same_transaction(a[i], b[i]) || collision_exists(),
{
    law_root_commits_to_the_hashes(transaction_ids(a), transaction_ids(b));
    if !collision_exists() {
        assert(transaction_ids(a)[i] == a[i].id() && transaction_ids(b)[i] == b[i].id());
        law_hash_commits_to_the_transaction(a[i], b[i]);
    }
}

/// The Merkle root is the root of the tree over the hashes of all transactions, in
/// their order.
pub proof fn law_root_is_over_all_transactions(transactions: Seq<TransactionView>)
    ensures
        merkle_root(transactions).0 == root_of(
            Seq::new(transactions.len(), |i: int| hash_of(transactions[i].tokens())),
        ),
{
    assert(transaction_ids(transactions) =~= Seq::new(
        transactions.len(),
        |i: int| hash_of(transactions[i].tokens()),
    ));
}

/// A block that could be appended can no longer be once one of its transactions is
/// exchanged for another one, unless two data items have the same hash.
pub proof fn law_exchanged_transaction_is_refused(
    blocks: Seq<BlockView>,
    block: BlockView,
    other: BlockView,
    i: int,
)
    requires
        blocks.len() > 0,
        block_verdict(blocks, block) is Ok,
        other.header == block.header,
        other.transactions.len() == block.transactions.len(),
        0 <= i < block.transactions.len(),
        !same_transaction(other.transactions[i], block.transactions[i]),
    ensures
        block_verdict(blocks, other) == Err::<(), BlockChainError>(
            BlockChainError::InvalidMerkleRoot,
        ) || collision_exists(),
{
    if merkle_root(other.transactions) == merkle_root(block.transactions) {
        law_root_commits_to_the_transactions(other.transactions, block.transactions, i);
    }
}

} // verus!
