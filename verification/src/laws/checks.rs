//! What a block must satisfy.

use crate::bytes::be_bytes;
use crate::crypto::ecdsa_verifies;
use crate::error::BlockChainError;
use crate::laws::values::{input_place, law_every_spent_output_counts, law_every_transaction_counts,
    lemma_input_at, lemma_output_at, lemma_places, lemma_places_ascend, output_place};
use crate::sha256::zero_hash;
use crate::time::Timestamp;
use crate::types::block::{after_coinbase, all_known, block_reward, created_outputs, fee_verdict,
    input_hashes, is_authorized, is_signed, miner_fees, output_hashes, spent_hashes, spent_value,
    transactions_verdict, BlockHeader, BlockView, Utxos};
use crate::types::blockchain::{block_verdict, header_verdict};
use crate::types::transaction::{lemma_total_value_concat, total_value, TransactionOutput,
    TransactionView};
use crate::util::{merkle_root, MerkleRoot};
use vstd::prelude::*;

verus! {

/// In a block that passes the check of its transactions, every input of every
/// transaction after the coinbase refers to an unspent output, and carries a
/// signature of its hash that verifies against the key of that output.
pub proof fn law_every_input_is_signed(
    transactions: Seq<TransactionView>,
    height: nat,
    utxos: Utxos,
    t: int,
    i: int,
)
    requires
        transactions_verdict(transactions, height, utxos) is Ok,
        1 <= t < transactions.len(),
        0 <= i < transactions[t].inputs.len(),
    ensures
        ({
            let input = transactions[t].inputs[i];
            let hash = input.prev_transaction_output_hash;
            &&& utxos.contains_key(hash)
            &&& input.signature.verifies(hash, utxos[hash].1.pubkey)
            &&& ecdsa_verifies(
                utxos[hash].1.pubkey.sec1(),
                be_bytes(hash.0@, 32),
                input.signature.compact(),
            )
        }),
{
    let tx = transactions[t];
    assert(is_authorized(tx, utxos));
    assert(is_signed(tx.inputs[i], utxos));
    assert(utxos.contains_key(input_hashes(tx.inputs)[i]));
}

/// In a block that passes the check of its transactions, two inputs refer to two
/// outputs, be they of one transaction or of two.
pub proof fn law_no_output_is_spent_twice(
    transactions: Seq<TransactionView>,
    height: nat,
    utxos: Utxos,
    t: int,
    i: int,
    u: int,
    j: int,
)
    requires
        transactions_verdict(transactions, height, utxos) is Ok,
        1 <= t < transactions.len(),
        0 <= i < transactions[t].inputs.len(),
        1 <= u < transactions.len(),
        0 <= j < transactions[u].inputs.len(),
        t != u || i != j,
    ensures
        transactions[t].inputs[i].prev_transaction_output_hash
            != transactions[u].inputs[j].prev_transaction_output_hash,
{
    let rest = after_coinbase(transactions);
    lemma_places(rest, t - 1);
    lemma_places(rest, u - 1);
    if t < u {
        lemma_places_ascend(rest, t, u - 1);
    } else if u < t {
        lemma_places_ascend(rest, u, t - 1);
    }
    let (a, b) = (input_place(rest, t - 1, i), input_place(rest, u - 1, j));
    assert(spent_hashes(rest)[a] != spent_hashes(rest)[b]);
}

/// In a block that passes the check of its transactions, no two outputs that are
/// created after the coinbase have the same hash.
pub proof fn law_no_output_is_created_twice(
    transactions: Seq<TransactionView>,
    height: nat,
    utxos: Utxos,
    t: int,
    i: int,
    u: int,
    j: int,
)
    requires
        transactions_verdict(transactions, height, utxos) is Ok,
        1 <= t < transactions.len(),
        0 <= i < transactions[t].outputs.len(),
        1 <= u < transactions.len(),
        0 <= j < transactions[u].outputs.len(),
        t != u || i != j,
    ensures
        transactions[t].outputs[i].id() != transactions[u].outputs[j].id(),
{
    let rest = after_coinbase(transactions);
    lemma_places(rest, t - 1);
    lemma_places(rest, u - 1);
    if t < u {
        lemma_places_ascend(rest, t, u - 1);
    } else if u < t {
        lemma_places_ascend(rest, u, t - 1);
    }
    let (a, b) = (output_place(rest, t - 1, i), output_place(rest, u - 1, j));
    let ids = output_hashes(created_outputs(rest));
    assert(ids[a] != ids[b]);
}

/// Whether the transactions after the coinbase spend known outputs.
pub open spec fn inputs_known(transactions: Seq<TransactionView>, utxos: Utxos) -> bool {
    forall|t: int, i: int|
        1 <= t < transactions.len() && 0 <= i < transactions[t].inputs.len()
            ==> utxos.contains_key(
            (#[trigger] transactions[t].inputs[i]).prev_transaction_output_hash,
        )
}

/// Whether the transactions after the coinbase spend no output twice.
pub open spec fn inputs_differ(transactions: Seq<TransactionView>) -> bool {
    forall|t: int, i: int, u: int, j: int|
        {
            &&& 1 <= t < transactions.len()
            &&& 0 <= i < transactions[t].inputs.len()
            &&& 1 <= u < transactions.len()
            &&& 0 <= j < transactions[u].inputs.len()
            &&& t != u || i != j
        } ==> (#[trigger] transactions[t].inputs[i]).prev_transaction_output_hash != (
        #[trigger] transactions[u].inputs[j]).prev_transaction_output_hash
}

/// Whether the transactions after the coinbase create no output twice.
pub open spec fn outputs_differ(transactions: Seq<TransactionView>) -> bool {
    forall|t: int, i: int, u: int, j: int|
        {
            &&& 1 <= t < transactions.len()
            &&& 0 <= i < transactions[t].outputs.len()
            &&& 1 <= u < transactions.len()
            &&& 0 <= j < transactions[u].outputs.len()
            &&& t != u || i != j
        } ==> (#[trigger] transactions[t].outputs[i]).id() != (
        #[trigger] transactions[u].outputs[j]).id()
}

/// The fees of a block are what its transactions after the coinbase spend, less
/// what they create. There are none if one of them spends an unknown output, if an
/// output is spent or created twice, or if they create more than they spend, or
/// leave more than 64 bits can tell.
pub proof fn law_fees_are_what_is_left(transactions: Seq<TransactionView>, utxos: Utxos)
    requires
        transactions.len() > 0,
    ensures
        ({
            let rest = transactions.skip(1);
            let left = spent_value(spent_hashes(rest), utxos) - total_value(created_outputs(rest));
            if inputs_known(transactions, utxos) && inputs_differ(transactions) && outputs_differ(
                transactions,
            ) && 0 <= left <= u64::MAX {
                miner_fees(transactions, utxos) == Ok::<u64, BlockChainError>(left as u64)
            } else {
                miner_fees(transactions, utxos) == Err::<u64, BlockChainError>(
                    BlockChainError::InvalidTransaction,
                )
            }
        }),
{
    let rest = transactions.skip(1);
    let spent = spent_hashes(rest);
    let ids = output_hashes(created_outputs(rest));
    lemma_known(transactions, utxos);
    lemma_spent_once(transactions);
    lemma_created_once(transactions);
    assert(all_known(spent, utxos) <==> inputs_known(transactions, utxos));
    assert(spent.no_duplicates() <==> inputs_differ(transactions));
    assert(ids.no_duplicates() <==> outputs_differ(transactions));
}

proof fn lemma_known(transactions: Seq<TransactionView>, utxos: Utxos)
    requires
        transactions.len() > 0,
    ensures
        all_known(spent_hashes(transactions.skip(1)), utxos) <==> inputs_known(transactions, utxos),
{
    let rest = transactions.skip(1);
    let spent = spent_hashes(rest);
    if all_known(spent, utxos) {
        assert forall|t: int, i: int|
            1 <= t < transactions.len() && 0 <= i
                < transactions[t].inputs.len() implies utxos.contains_key(
            (#[trigger] transactions[t].inputs[i]).prev_transaction_output_hash,
        ) by {
            assert(rest[t - 1] == transactions[t]);
            lemma_places(rest, t - 1);
            let k = input_place(rest, t - 1, i);
            assert(utxos.contains_key(spent[k]));
        }
    }
    if inputs_known(transactions, utxos) {
        assert forall|k: int| 0 <= k < spent.len() implies utxos.contains_key(
            #[trigger] spent[k],
        ) by {
            let (t, i) = lemma_input_at(rest, k);
            assert(rest[t] == transactions[t + 1]);
            lemma_places(rest, t);
            assert(k == input_place(rest, t, i));
            assert(transactions[t + 1].inputs[i].prev_transaction_output_hash == spent[k]);
        }
    }
}

proof fn lemma_spent_once(transactions: Seq<TransactionView>)
    requires
        transactions.len() > 0,
    ensures
        spent_hashes(transactions.skip(1)).no_duplicates() <==> inputs_differ(transactions),
{
    let rest = transactions.skip(1);
    let spent = spent_hashes(rest);
    if spent.no_duplicates() {
        assert forall|t: int, i: int, u: int, j: int|
            {
                &&& 1 <= t < transactions.len()
                &&& 0 <= i < transactions[t].inputs.len()
                &&& 1 <= u < transactions.len()
                &&& 0 <= j < transactions[u].inputs.len()
                &&& t != u || i != j
            } implies (#[trigger] transactions[t].inputs[i]).prev_transaction_output_hash != (
        #[trigger] transactions[u].inputs[j]).prev_transaction_output_hash by {
            assert(rest[t - 1] == transactions[t] && rest[u - 1] == transactions[u]);
            lemma_places(rest, t - 1);
            lemma_places(rest, u - 1);
            if t < u {
                lemma_places_ascend(rest, t, u - 1);
            } else if u < t {
                lemma_places_ascend(rest, u, t - 1);
            }
            let (a, b) = (input_place(rest, t - 1, i), input_place(rest, u - 1, j));
            assert(spent[a] != spent[b]);
        }
    }
    if inputs_differ(transactions) {
        assert forall|a: int, b: int|
            0 <= a < spent.len() && 0 <= b < spent.len() && a != b implies spent[a]
            != spent[b] by {
            let (t, i) = lemma_input_at(rest, a);
            let (u, j) = lemma_input_at(rest, b);
            lemma_places(rest, t);
            lemma_places(rest, u);
            assert(a == input_place(rest, t, i) && b == input_place(rest, u, j));
            assert(rest[t] == transactions[t + 1] && rest[u] == transactions[u + 1]);
            assert(transactions[t + 1].inputs[i].prev_transaction_output_hash
                != transactions[u + 1].inputs[j].prev_transaction_output_hash);
        }
    }
}

proof fn lemma_created_once(transactions: Seq<TransactionView>)
    requires
        transactions.len() > 0,
    ensures
        output_hashes(created_outputs(transactions.skip(1))).no_duplicates() <==> outputs_differ(
            transactions,
        ),
{
    let rest = transactions.skip(1);
    let created = created_outputs(rest);
    let ids = output_hashes(created);
    if ids.no_duplicates() {
        assert forall|t: int, i: int, u: int, j: int|
            {
                &&& 1 <= t < transactions.len()
                &&& 0 <= i < transactions[t].outputs.len()
                &&& 1 <= u < transactions.len()
                &&& 0 <= j < transactions[u].outputs.len()
                &&& t != u || i != j
            } implies (#[trigger] transactions[t].outputs[i]).id() != (
        #[trigger] transactions[u].outputs[j]).id() by {
            assert(rest[t - 1] == transactions[t] && rest[u - 1] == transactions[u]);
            lemma_places(rest, t - 1);
            lemma_places(rest, u - 1);
            if t < u {
                lemma_places_ascend(rest, t, u - 1);
            } else if u < t {
                lemma_places_ascend(rest, u, t - 1);
            }
            let (a, b) = (output_place(rest, t - 1, i), output_place(rest, u - 1, j));
            assert(ids[a] != ids[b]);
        }
    }
    if outputs_differ(transactions) {
        assert forall|a: int, b: int|
            0 <= a < ids.len() && 0 <= b < ids.len() && a != b implies ids[a] != ids[b] by {
            let (t, i) = lemma_output_at(rest, a);
            let (u, j) = lemma_output_at(rest, b);
            lemma_places(rest, t);
            lemma_places(rest, u);
            assert(a == output_place(rest, t, i) && b == output_place(rest, u, j));
            assert(rest[t] == transactions[t + 1] && rest[u] == transactions[u + 1]);
            assert(transactions[t + 1].outputs[i].id() != transactions[u + 1].outputs[j].id());
        }
    }
}

/// One more transaction adds to the fees of a block what it spends, less what it
/// creates.
pub proof fn law_transaction_adds_its_fee(
    transactions: Seq<TransactionView>,
    transaction: TransactionView,
    utxos: Utxos,
)
    requires
        transactions.len() > 0,
        miner_fees(transactions, utxos) is Ok,
        miner_fees(transactions.push(transaction), utxos) is Ok,
    ensures
        miner_fees(transactions.push(transaction), utxos)->Ok_0 == miner_fees(
            transactions,
            utxos,
        )->Ok_0 + spent_value(input_hashes(transaction.inputs), utxos) - total_value(
            transaction.outputs,
        ),
{
    let rest = transactions.skip(1);
    assert(transactions.push(transaction).skip(1) =~= rest + seq![transaction] + Seq::empty());
    law_every_transaction_counts(rest, transaction, Seq::empty());
    let hashes = input_hashes(transaction.inputs);
    assert(spent_hashes(rest) + hashes + spent_hashes(Seq::empty()) =~= spent_hashes(rest)
        + hashes);
    assert(created_outputs(rest) + transaction.outputs + created_outputs(Seq::empty())
        =~= created_outputs(rest) + transaction.outputs);
    lemma_spent_value_concat(spent_hashes(rest), hashes, utxos);
    lemma_total_value_concat(created_outputs(rest), transaction.outputs);
}

proof fn lemma_spent_value_concat(
    a: Seq<crate::sha256::Hash>,
    b: Seq<crate::sha256::Hash>,
    utxos: Utxos,
)
    ensures
        spent_value(a + b, utxos) == spent_value(a, utxos) + spent_value(b, utxos),
    decreases b.len(),
{
    if b.len() > 0 {
        lemma_spent_value_concat(a, b.drop_last(), utxos);
        assert(a + b.drop_last() + seq![b.last()] + Seq::empty() =~= a + b);
        assert(b.drop_last() + seq![b.last()] + Seq::empty() =~= b);
        law_every_spent_output_counts(a + b.drop_last(), b.last(), Seq::empty(), utxos);
        law_every_spent_output_counts(b.drop_last(), b.last(), Seq::empty(), utxos);
    } else {
        assert(a + b =~= a);
    }
}

/// What is left is what is spent, less what is created, where what is spent is known
/// and no hash occurs twice among the spent or the created ones.
pub proof fn law_leftover(
    spent: Seq<crate::sha256::Hash>,
    created: Seq<TransactionOutput>,
    ids: Seq<crate::sha256::Hash>,
    utxos: Utxos,
)
    ensures
        ({
            let known = forall|i: int| 0 <= i < spent.len() ==> utxos.contains_key(
                #[trigger] spent[i],
            );
            let left = spent_value(spent, utxos) - total_value(created);
            if known && spent.no_duplicates() && ids.no_duplicates() && 0 <= left <= u64::MAX {
                fee_verdict(spent, created, ids, utxos) == Ok::<u64, BlockChainError>(left as u64)
            } else {
                fee_verdict(spent, created, ids, utxos) == Err::<u64, BlockChainError>(
                    BlockChainError::InvalidTransaction,
                )
            }
        }),
{
}

/// A block with nothing but a coinbase, or with nothing at all, leaves no fee.
pub proof fn law_coinbase_leaves_no_fee(coinbase: TransactionView, utxos: Utxos)
    ensures
        miner_fees(seq![coinbase], utxos) == Ok::<u64, BlockChainError>(0),
        miner_fees(Seq::empty(), utxos) == Ok::<u64, BlockChainError>(0),
{
    assert(seq![coinbase].skip(1) =~= Seq::empty());
    assert(created_outputs(Seq::empty()) =~= Seq::empty());
    law_every_transaction_counts(Seq::empty(), coinbase, Seq::empty());
}

/// Whether every input of the transactions after the coinbase is signed by the
/// owner of what it spends.
pub open spec fn inputs_signed(transactions: Seq<TransactionView>, utxos: Utxos) -> bool {
    forall|t: int, i: int|
        1 <= t < transactions.len() && 0 <= i < transactions[t].inputs.len() ==> (
        #[trigger] transactions[t].inputs[i]).signature.verifies(
            transactions[t].inputs[i].prev_transaction_output_hash,
            utxos[transactions[t].inputs[i].prev_transaction_output_hash].1.pubkey,
        )
}

/// Whether no transaction after the coinbase creates more than it spends.
pub open spec fn outputs_covered(transactions: Seq<TransactionView>, utxos: Utxos) -> bool {
    forall|t: int|
        1 <= t < transactions.len() ==> total_value((#[trigger] transactions[t]).outputs)
            <= spent_value(input_hashes(transactions[t].inputs), utxos)
}

/// A block passes the check of its transactions if and only if it has a coinbase
/// without inputs and with outputs that are worth the reward and the fees, the
/// others leave a fee, every input of theirs is signed by the owner of what it
/// spends, and none creates more than it spends. What is wrong first tells the
/// error.
pub proof fn law_check_of_transactions(
    transactions: Seq<TransactionView>,
    height: nat,
    utxos: Utxos,
)
    ensures
        transactions_verdict(transactions, height, utxos) == if transactions.len() == 0 {
            Err::<(), BlockChainError>(BlockChainError::InvalidBlock)
        } else if transactions[0].inputs.len() > 0 {
            Err(BlockChainError::InvalidTransactionInput)
        } else if transactions[0].outputs.len() == 0 {
            Err(BlockChainError::InvalidTransactionOutput)
        } else if miner_fees(transactions, utxos) is Err {
            Err(BlockChainError::InvalidTransaction)
        } else if total_value(transactions[0].outputs) != miner_fees(transactions, utxos)->Ok_0
            + block_reward(height) {
            Err(BlockChainError::InvalidTransactionOutput)
        } else if !inputs_signed(transactions, utxos) || !outputs_covered(transactions, utxos) {
            Err(BlockChainError::InvalidTransaction)
        } else {
            Ok(())
        },
{
    if transactions.len() > 0 {
        law_fees_are_what_is_left(transactions, utxos);
        if miner_fees(transactions, utxos) is Ok {
            assert forall|t: int| 1 <= t < transactions.len() implies all_known(
                input_hashes((#[trigger] transactions[t]).inputs),
                utxos,
            ) by {
                let hashes = input_hashes(transactions[t].inputs);
                assert forall|i: int| 0 <= i < hashes.len() implies utxos.contains_key(
                    #[trigger] hashes[i],
                ) by {
                    assert(transactions[t].inputs[i].prev_transaction_output_hash == hashes[i]);
                }
            }
            let signed = inputs_signed(transactions, utxos);
            let covered = outputs_covered(transactions, utxos);
            if signed && covered {
                assert forall|t: int| 1 <= t < transactions.len() implies is_authorized(
                    #[trigger] transactions[t],
                    utxos,
                ) by {
                    assert forall|i: int| 0 <= i < transactions[t].inputs.len() implies is_signed(
                        #[trigger] transactions[t].inputs[i],
                        utxos,
                    ) by {
                    }
                }
            } else if !covered {
                let t = choose|t: int|
                    1 <= t < transactions.len() && total_value((#[trigger] transactions[t]).outputs)
                        > spent_value(input_hashes(transactions[t].inputs), utxos);
                assert(!is_authorized(transactions[t], utxos));
            } else {
                let (t, i) = choose|t: int, i: int|
                    1 <= t < transactions.len() && 0 <= i < transactions[t].inputs.len() && !(
                    #[trigger] transactions[t].inputs[i]).signature.verifies(
                        transactions[t].inputs[i].prev_transaction_output_hash,
                        utxos[transactions[t].inputs[i].prev_transaction_output_hash].1.pubkey,
                    );
                assert(!is_signed(transactions[t].inputs[i], utxos));
                assert(!is_authorized(transactions[t], utxos));
            }
        }
    }
}

/// The first block of a chain refers to the zero hash. Every other one refers to
/// the block before it, has a header whose hash is at most its target, carries the
/// Merkle root of its transactions, and is later than the block before it. What is
/// wrong first tells the error.
pub proof fn law_check_of_header(blocks: Seq<BlockView>, block: BlockView)
    ensures
        blocks.len() == 0 ==> block_verdict(blocks, block) == if block.header.prev_block_hash
            == zero_hash() {
            Ok::<(), BlockChainError>(())
        } else {
            Err(BlockChainError::InvalidBlock)
        },
        blocks.len() > 0 ==> ({
            let last = blocks[blocks.len() - 1];
            let time = block.header.timestamp;
            let last_time = last.header.timestamp;
            let later = time.secs() > last_time.secs() || (time.secs() == last_time.secs()
                && time.subsec() > last_time.subsec());
            block_verdict(blocks, block) == if block.header.prev_block_hash != last.id() {
                Err::<(), BlockChainError>(BlockChainError::InvalidBlockHeader)
            } else if block.header.id().0@ > block.header.target@ {
                Err(BlockChainError::InvalidBlockHeader)
            } else if block.header.merkle_root != merkle_root(block.transactions) {
                Err(BlockChainError::InvalidMerkleRoot)
            } else if !later {
                Err(BlockChainError::InvalidBlockHeader)
            } else {
                Ok(())
            }
        }),
{
}

/// The header of a block is held against the hash and the time of the last block, and
/// against its own hash and the Merkle root that were computed for it.
pub proof fn law_header_is_held_against(
    last: Option<(crate::sha256::Hash, Timestamp)>,
    header: BlockHeader,
    hash: crate::sha256::Hash,
    root: MerkleRoot,
)
    ensures
        match last {
            None => header_verdict(last, header, hash, root) is Ok <==> header.prev_block_hash
                == zero_hash(),
            Some((last_hash, last_time)) => header_verdict(last, header, hash, root) is Ok <==> {
                &&& header.prev_block_hash == last_hash
                &&& hash.0@ <= header.target@
                &&& header.merkle_root == root
                &&& header.timestamp.is_after(last_time)
            },
        },
        last is None && header.prev_block_hash != zero_hash() ==> header_verdict(
            last,
            header,
            hash,
            root,
        ) == Err::<(), BlockChainError>(BlockChainError::InvalidBlock),
        last matches Some((last_hash, last_time)) ==> header_verdict(last, header, hash, root) is Err
            ==> header_verdict(last, header, hash, root) == Err::<(), BlockChainError>(
            if header.prev_block_hash == last_hash && hash.0@ <= header.target@
                && header.merkle_root != root {
                BlockChainError::InvalidMerkleRoot
            } else {
                BlockChainError::InvalidBlockHeader
            },
        ),
{
}

} // verus!
