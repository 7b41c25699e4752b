//! Blocks: their checks against the unspent outputs, and proof-of-work.

use crate::cbor::{add_field, array_of, joined_entries, map_of, tokens_of_all, unsigned, ToCbor,
    Token};
use crate::error::BlockChainError;
use crate::sha256::hash_of;
use crate::table::HashTable;
use crate::time::{lemma_clock_time_exists, Timestamp};
use crate::types::transaction::{sum_values, total_value, Transaction, TransactionInput,
    TransactionOutput, TransactionView};
use crate::u256::U256;
use crate::util::{views, MerkleRoot};
use vstd::arithmetic::power2::pow2;
use vstd::prelude::*;

verus! {

/// Metadata for a block, used in hashing and proof-of-work validation.
#[derive(Clone, Copy, Debug, PartialEq, Eq, Structural)]
pub struct BlockHeader {
    /// When the block was created.
    pub timestamp: Timestamp,
    /// The value miners increment to find a hash that meets the target.
    pub nonce: u64,
    /// SHA-256 hash of the previous block, linking the chain together.
    pub prev_block_hash: crate::sha256::Hash,
    /// Root of the Merkle tree of all transactions in this block.
    pub merkle_root: MerkleRoot,
    /// The difficulty target: a valid block hash must be less than or equal to
    /// this value.
    pub target: U256,
}

/// A single block in the blockchain, containing a header and a list of
/// transactions.
#[derive(Debug)]
pub struct Block {
    pub header: BlockHeader,
    pub transactions: Vec<Transaction>,
}

/// What a block holds.
#[verifier::ext_equal]
pub struct BlockView {
    pub header: BlockHeader,
    pub transactions: Seq<TransactionView>,
}

impl View for Block {
    type V = BlockView;

    open spec fn view(&self) -> BlockView {
        BlockView { header: self.header, transactions: views(self.transactions@) }
    }
}

impl Clone for Block {
    fn clone(&self) -> (r: Block)
        ensures
            r@ == self@,
    {
        let r = Block { header: self.header, transactions: self.transactions.clone() };
        assert(views(r.transactions@) =~= views(self.transactions@));
        r
    }
}

/// The unspent outputs by their hashes, each with a mark that says whether a
/// waiting transaction spends it.
pub type Utxos = Map<crate::sha256::Hash, (bool, TransactionOutput)>;

/// The data items of several transactions, one after the other.
pub open spec fn transactions_tokens(transactions: Seq<TransactionView>) -> Seq<Token>
    decreases transactions.len(),
{
    if transactions.len() == 0 {
        Seq::empty()
    } else {
        transactions_tokens(transactions.drop_last()) + transactions.last().tokens()
    }
}

impl BlockView {
    /// The data item of the block.
    pub open spec fn tokens(self) -> Seq<Token> {
        seq![Token::MapOf(2), Token::Text("header"@)] + self.header.tokens() + seq![
            Token::Text("transactions"@),
            Token::ArrayOf(self.transactions.len()),
        ] + transactions_tokens(self.transactions)
    }

    /// The hash of the block.
    pub open spec fn id(self) -> crate::sha256::Hash {
        hash_of(self.tokens())
    }
}

/// The hashes of the outputs that inputs refer to.
pub open spec fn input_hashes(inputs: Seq<TransactionInput>) -> Seq<crate::sha256::Hash> {
    inputs.map_values(|i: TransactionInput| i.prev_transaction_output_hash)
}

/// The hashes of the outputs that several transactions spend, in order.
pub open spec fn spent_hashes(transactions: Seq<TransactionView>) -> Seq<crate::sha256::Hash>
    decreases transactions.len(),
{
    if transactions.len() == 0 {
        Seq::empty()
    } else {
        spent_hashes(transactions.drop_last()) + input_hashes(transactions.last().inputs)
    }
}

/// The outputs that several transactions create, in order.
pub open spec fn created_outputs(transactions: Seq<TransactionView>) -> Seq<TransactionOutput>
    decreases transactions.len(),
{
    if transactions.len() == 0 {
        Seq::empty()
    } else {
        created_outputs(transactions.drop_last()) + transactions.last().outputs
    }
}

/// The hashes of outputs.
pub open spec fn output_hashes(outputs: Seq<TransactionOutput>) -> Seq<crate::sha256::Hash> {
    outputs.map_values(|o: TransactionOutput| o.id())
}

/// Whether every hash is that of an unspent output.
pub open spec fn all_known(hashes: Seq<crate::sha256::Hash>, utxos: Utxos) -> bool {
    forall|i: int| 0 <= i < hashes.len() ==> utxos.contains_key(#[trigger] hashes[i])
}

/// The values of the unspent outputs with the given hashes, added up.
pub open spec fn spent_value(hashes: Seq<crate::sha256::Hash>, utxos: Utxos) -> nat
    decreases hashes.len(),
{
    if hashes.len() == 0 {
        0
    } else {
        spent_value(hashes.drop_last(), utxos) + utxos[hashes.last()].1.value as nat
    }
}

/// The transactions after the first, which is the coinbase.
pub open spec fn after_coinbase(transactions: Seq<TransactionView>) -> Seq<TransactionView> {
    if transactions.len() == 0 {
        transactions
    } else {
        transactions.skip(1)
    }
}

/// What is left of the unspent outputs with the given hashes, once the given
/// outputs are created, which have the hashes `ids`: it takes known outputs, each
/// spent once, and new ones that differ from each other and are worth no more.
pub open spec fn fee_verdict(
    spent: Seq<crate::sha256::Hash>,
    created: Seq<TransactionOutput>,
    ids: Seq<crate::sha256::Hash>,
    utxos: Utxos,
) -> Result<u64, BlockChainError> {
    let balance = spent_value(spent, utxos) - total_value(created);
    if all_known(spent, utxos) && spent.no_duplicates() && ids.no_duplicates() && 0 <= balance
        <= u64::MAX {
        Ok(balance as u64)
    } else {
        Err(BlockChainError::InvalidTransaction)
    }
}

/// The fee that the miner of a block may claim: what the transactions after the
/// coinbase leave.
pub open spec fn miner_fees(transactions: Seq<TransactionView>, utxos: Utxos) -> Result<
    u64,
    BlockChainError,
> {
    let rest = after_coinbase(transactions);
    let created = created_outputs(rest);
    fee_verdict(spent_hashes(rest), created, output_hashes(created), utxos)
}

/// The number of base units that the miner of the block at a height may create.
/// It halves at every halving interval.
pub open spec fn block_reward(height: nat) -> nat {
    (crate::INITIAL_REWARD * 100_000_000) as nat / pow2(height / crate::HALVING_INTERVAL as nat)
}

/// What the check of the coinbase transaction says: it has no inputs, it has
/// outputs, and they are worth the reward and the fees.
pub open spec fn coinbase_verdict(
    transactions: Seq<TransactionView>,
    height: nat,
    utxos: Utxos,
) -> Result<(), BlockChainError> {
    if transactions[0].inputs.len() > 0 {
        Err(BlockChainError::InvalidTransactionInput)
    } else if transactions[0].outputs.len() == 0 {
        Err(BlockChainError::InvalidTransactionOutput)
    } else {
        match miner_fees(transactions, utxos) {
            Ok(fees) => if total_value(transactions[0].outputs) == fees + block_reward(height) {
                Ok(())
            } else {
                Err(BlockChainError::InvalidTransactionOutput)
            },
            Err(e) => Err(e),
        }
    }
}

/// Whether a transaction spends known outputs, with a signature for each that
/// verifies against its owner's key, and creates no more than it spends.
pub open spec fn is_authorized(transaction: TransactionView, utxos: Utxos) -> bool {
    &&& all_known(input_hashes(transaction.inputs), utxos)
    &&& forall|i: int|
        0 <= i < transaction.inputs.len() ==> is_signed(#[trigger] transaction.inputs[i], utxos)
    &&& total_value(transaction.outputs) <= spent_value(input_hashes(transaction.inputs), utxos)
}

/// Whether the signature of an input verifies against the key of the output
/// that it spends.
pub open spec fn is_signed(input: TransactionInput, utxos: Utxos) -> bool {
    input.signature.verifies(
        input.prev_transaction_output_hash,
        utxos[input.prev_transaction_output_hash].1.pubkey,
    )
}

/// What the check of a block's transactions says.
pub open spec fn transactions_verdict(
    transactions: Seq<TransactionView>,
    height: nat,
    utxos: Utxos,
) -> Result<(), BlockChainError> {
    if transactions.len() == 0 {
        Err(BlockChainError::InvalidBlock)
    } else if coinbase_verdict(transactions, height, utxos) is Err {
        coinbase_verdict(transactions, height, utxos)
    } else if exists|t: int|
        1 <= t < transactions.len() && !is_authorized(#[trigger] transactions[t], utxos) {
        Err(BlockChainError::InvalidTransaction)
    } else {
        Ok(())
    }
}

proof fn lemma_transactions_tokens(transactions: Seq<Transaction>)
    ensures
        tokens_of_all(transactions) == transactions_tokens(views(transactions)),
    decreases transactions.len(),
{
    if transactions.len() > 0 {
        lemma_transactions_tokens(transactions.drop_last());
        assert(views(transactions).drop_last() =~= views(transactions.drop_last()));
    }
}

/// Whether hashes differ from each other.
pub fn all_distinct(hashes: &Vec<crate::sha256::Hash>) -> (r: bool)
    ensures
        r == hashes@.no_duplicates(),
{
    let mut seen: HashTable<()> = HashTable::new();
    let mut i: usize = 0;
    while i < hashes.len()
        invariant
            i <= hashes@.len(),
            hashes@.take(i as int).no_duplicates(),
            forall|h: crate::sha256::Hash|
                #[trigger] seen@.contains_key(h) <==> hashes@.take(i as int).contains(h),
        decreases hashes@.len() - i,
    {
        let ghost before = hashes@.take(i as int);
        let ghost now = hashes@.take(i + 1);
        assert(now =~= before.push(hashes@[i as int]));
        if seen.contains(&hashes[i]) {
            proof {
                let j = choose|j: int| 0 <= j < before.len() && before[j] == hashes@[i as int];
                assert(hashes@[j] == hashes@[i as int] && j != i);
            }
            return false;
        }
        let ghost seen_before = seen@;
        seen.insert(hashes[i], ());
        proof {
            assert forall|h: crate::sha256::Hash| #[trigger]
                seen@.contains_key(h) <==> now.contains(h) by {
                if before.contains(h) {
                    let j = choose|j: int| 0 <= j < before.len() && before[j] == h;
                    assert(now[j] == h);
                }
                if now.contains(h) {
                    let j = choose|j: int| 0 <= j < now.len() && now[j] == h;
                    if j < i {
                        assert(before[j] == h);
                    }
                }
                assert(now[i as int] == hashes@[i as int]);
                assert(seen_before.contains_key(h) <==> before.contains(h));
            }
            assert forall|a: int, b: int| 0 <= a < now.len() && 0 <= b < now.len() && a
                != b implies now[a] != now[b] by {
                if a == i {
                    assert(before[b] == now[b]);
                    assert(before.contains(now[b]));
                } else if b == i {
                    assert(before[a] == now[a]);
                    assert(before.contains(now[a]));
                } else {
                    assert(before[a] == now[a] && before[b] == now[b]);
                }
            }
        }
        i = i + 1;
    }
    assert(hashes@.take(i as int) =~= hashes@);
    true
}

/// The values of the unspent outputs with the given hashes, added up, if all of
/// them are known.
pub fn sum_spent(
    hashes: &Vec<crate::sha256::Hash>,
    utxos: &HashTable<(bool, TransactionOutput)>,
) -> (r: Option<u128>)
    ensures
        match r {
            Some(total) => all_known(hashes@, utxos@) && total == spent_value(hashes@, utxos@),
            None => !all_known(hashes@, utxos@),
        },
{
    let mut total: u128 = 0;
    let mut i: usize = 0;
    assert(hashes@.take(0) =~= Seq::empty());
    while i < hashes.len()
        invariant
            i <= hashes@.len(),
            all_known(hashes@.take(i as int), utxos@),
            total == spent_value(hashes@.take(i as int), utxos@),
            total <= i * u64::MAX,
        decreases hashes@.len() - i,
    {
        match utxos.get(&hashes[i]) {
            Some(entry) => {
                proof {
                    assert(hashes@.take(i + 1).drop_last() =~= hashes@.take(i as int));
                    assert forall|j: int| 0 <= j < i + 1 implies utxos@.contains_key(
                        #[trigger] hashes@.take(i + 1)[j],
                    ) by {
                        if j < i {
                            assert(hashes@.take(i as int)[j] == hashes@[j]);
                        }
                    }
                }
                total = total + entry.1.value as u128;
            },
            None => {
                return None;
            },
        }
        i = i + 1;
    }
    assert(hashes@.take(i as int) =~= hashes@);
    Some(total)
}

/// What is left of the unspent outputs with the given hashes, once the given
/// outputs are created, which have the hashes `ids`.
pub fn leftover(
    spent: &Vec<crate::sha256::Hash>,
    created: &Vec<TransactionOutput>,
    ids: &Vec<crate::sha256::Hash>,
    utxos: &HashTable<(bool, TransactionOutput)>,
) -> (r: Result<u64, BlockChainError>)
    ensures
        r == fee_verdict(spent@, created@, ids@, utxos@),
{
    let input_value: u128 = match sum_spent(spent, utxos) {
        Some(total) => total,
        None => {
            return Err(BlockChainError::InvalidTransaction);
        },
    };
    if !all_distinct(spent) || !all_distinct(ids) {
        return Err(BlockChainError::InvalidTransaction);
    }
    let output_value: u128 = sum_values(created);
    if output_value > input_value || input_value - output_value > u64::MAX as u128 {
        return Err(BlockChainError::InvalidTransaction);
    }
    Ok((input_value - output_value) as u64)
}

/// The hashes of the outputs that a transaction spends.
pub fn hashes_of_inputs(inputs: &Vec<TransactionInput>) -> (r: Vec<crate::sha256::Hash>)
    ensures
        r@ == input_hashes(inputs@),
{
    let mut r: Vec<crate::sha256::Hash> = Vec::new();
    let mut i: usize = 0;
    while i < inputs.len()
        invariant
            i <= inputs@.len(),
            r@ =~= input_hashes(inputs@).take(i as int),
        decreases inputs@.len() - i,
    {
        r.push(inputs[i].prev_transaction_output_hash);
        i = i + 1;
    }
    assert(r@ =~= input_hashes(inputs@));
    r
}

impl Block {
    /// Creates a new block from the given header and transactions.
    pub fn new(header: BlockHeader, transactions: Vec<Transaction>) -> (r: Block)
        ensures
            r.header == header,
            r.transactions == transactions,
    {
        Block { header, transactions }
    }

    /// Returns the SHA-256 hash of this block.
    pub fn hash(&self) -> (r: crate::sha256::Hash)
        ensures
            r == self@.id(),
    {
        crate::sha256::Hash::hash(self)
    }

    /// Verifies that all transactions in this block are valid against the
    /// current unspent outputs. Whoever adds a block to a chain calls this first.
    /// It performs four checks for every transaction after the coinbase:
    ///
    /// 1. **Referenced outputs exist** - every input must point to a known
    ///    unspent output.
    ///
    /// 2. **No double-spends** - an output cannot be spent more than once within
    ///    the same block.
    ///
    /// 3. **Signatures are valid** - each input must carry a signature that
    ///    verifies against the public key on the output it is spending, proving
    ///    the spender owns the corresponding private key.
    ///
    /// 4. **Inputs >= outputs** - the total value of inputs must be at least as
    ///    large as the total value of outputs. Any excess is implicitly claimed
    ///    by the miner as a transaction fee.
    pub fn verify_transactions(
        &self,
        predicted_block_height: u64,
        utxos: &HashTable<(bool, TransactionOutput)>,
    ) -> (r: Result<(), BlockChainError>)
        ensures
            r == transactions_verdict(
                self@.transactions,
                predicted_block_height as nat,
                utxos@,
            ),
    {
        if self.transactions.is_empty() {
            return Err(BlockChainError::InvalidBlock);
        }
        match self.verify_coinbase_transaction(predicted_block_height, utxos) {
            Ok(()) => {},
            Err(e) => {
                return Err(e);
            },
        }
        let ghost txs = self@.transactions;
        let mut t: usize = 1;
        while t < self.transactions.len()
            invariant
                1 <= t <= self.transactions@.len(),
                txs == self@.transactions,
                txs.len() == self.transactions@.len(),
                forall|k: int| 1 <= k < t ==> is_authorized(#[trigger] txs[k], utxos@),
                coinbase_verdict(txs, predicted_block_height as nat, utxos@) is Ok,
            decreases self.transactions@.len() - t,
        {
            assert(txs[t as int] == self.transactions@[t as int]@);
            if !Block::transaction_authorized(&self.transactions[t], utxos) {
                return Err(BlockChainError::InvalidTransaction);
            }
            t = t + 1;
        }
        Ok(())
    }

    /// Whether a transaction spends known outputs, with a valid signature for
    /// each, and creates no more than it spends.
    fn transaction_authorized(
        transaction: &Transaction,
        utxos: &HashTable<(bool, TransactionOutput)>,
    ) -> (r: bool)
        ensures
            r == is_authorized(transaction@, utxos@),
    {
        let hashes = hashes_of_inputs(&transaction.inputs);
        let input_value: u128 = match sum_spent(&hashes, utxos) {
            Some(total) => total,
            None => {
                return false;
            },
        };
        let mut i: usize = 0;
        while i < transaction.inputs.len()
            invariant
                i <= transaction.inputs@.len(),
                hashes@ == input_hashes(transaction.inputs@),
                all_known(hashes@, utxos@),
                forall|k: int|
                    0 <= k < i ==> is_signed(#[trigger] transaction.inputs@[k], utxos@),
            decreases transaction.inputs@.len() - i,
        {
            let input = transaction.inputs[i];
            assert(hashes@[i as int] == input.prev_transaction_output_hash);
            let signed = match utxos.get(&input.prev_transaction_output_hash) {
                Some(entry) => input.signature.verify_output(
                    &input.prev_transaction_output_hash,
                    &entry.1.pubkey,
                ),
                None => false,
            };
            if !signed {
                assert(!is_signed(transaction@.inputs[i as int], utxos@));
                return false;
            }
            i = i + 1;
        }
        sum_values(&transaction.outputs) <= input_value
    }

    /// Verifies the coinbase transaction in the block.
    ///
    /// Returns an error if the coinbase transaction has inputs or no outputs, if
    /// the other transactions leave no fee, or if its outputs are not worth the
    /// block reward and the fees.
    pub fn verify_coinbase_transaction(
        &self,
        predicted_block_height: u64,
        utxos: &HashTable<(bool, TransactionOutput)>,
    ) -> (r: Result<(), BlockChainError>)
        requires
            self.transactions@.len() > 0,
        ensures
            r == coinbase_verdict(self@.transactions, predicted_block_height as nat, utxos@),
    {
        let coinbase_transaction = &self.transactions[0];
        assert(self@.transactions[0] == coinbase_transaction@);
        if !coinbase_transaction.inputs.is_empty() {
            return Err(BlockChainError::InvalidTransactionInput);
        }
        if coinbase_transaction.outputs.is_empty() {
            return Err(BlockChainError::InvalidTransactionOutput);
        }
        let miner_fees: u64 = match self.calculate_miner_fees(utxos) {
            Ok(fees) => fees,
            Err(e) => {
                return Err(e);
            },
        };
        let block_reward: u64 = Block::calculate_block_reward(predicted_block_height);
        let total_coinbase_outputs: u128 = sum_values(&coinbase_transaction.outputs);
        if total_coinbase_outputs != miner_fees as u128 + block_reward as u128 {
            return Err(BlockChainError::InvalidTransactionOutput);
        }
        Ok(())
    }

    /// The hashes of the outputs that the transactions after the coinbase spend.
    fn collect_spent(&self) -> (r: Vec<crate::sha256::Hash>)
        ensures
            r@ == spent_hashes(after_coinbase(self@.transactions)),
    {
        let mut r: Vec<crate::sha256::Hash> = Vec::new();
        let mut t: usize = 1;
        let ghost rest = after_coinbase(self@.transactions);
        assert(rest.take(0) =~= Seq::empty());
        while t < self.transactions.len()
            invariant
                1 <= t,
                t <= self.transactions@.len() || t == 1,
                rest == after_coinbase(self@.transactions),
                r@ == spent_hashes(rest.take(t - 1)),
            decreases self.transactions@.len() - t,
        {
            let mut hashes = hashes_of_inputs(&self.transactions[t].inputs);
            r.append(&mut hashes);
            proof {
                assert(rest.take(t as int).drop_last() =~= rest.take(t - 1));
                assert(rest.take(t as int).last() == self.transactions@[t as int]@);
            }
            t = t + 1;
        }
        assert(rest.take(t - 1) =~= rest);
        r
    }

    /// The outputs that the transactions after the coinbase create.
    fn collect_created(&self) -> (r: Vec<TransactionOutput>)
        ensures
            r@ == created_outputs(after_coinbase(self@.transactions)),
    {
        let mut r: Vec<TransactionOutput> = Vec::new();
        let mut t: usize = 1;
        let ghost rest = after_coinbase(self@.transactions);
        assert(rest.take(0) =~= Seq::empty());
        while t < self.transactions.len()
            invariant
                1 <= t,
                t <= self.transactions@.len() || t == 1,
                rest == after_coinbase(self@.transactions),
                r@ == created_outputs(rest.take(t - 1)),
            decreases self.transactions@.len() - t,
        {
            let mut outputs = self.transactions[t].outputs.clone();
            assert(outputs@ =~= self.transactions@[t as int].outputs@);
            r.append(&mut outputs);
            proof {
                assert(rest.take(t as int).drop_last() =~= rest.take(t - 1));
                assert(rest.take(t as int).last() == self.transactions@[t as int]@);
            }
            t = t + 1;
        }
        assert(rest.take(t - 1) =~= rest);
        r
    }

    /// What the transactions after the coinbase spend, less what they create.
    ///
    /// Returns an error if one of them spends an unknown output, if an output is
    /// spent or created twice, or if the difference is negative or does not fit
    /// in 64 bits.
    pub fn calculate_miner_fees(&self, utxos: &HashTable<(bool, TransactionOutput)>) -> (r: Result<
        u64,
        BlockChainError,
    >)
        ensures
            r == miner_fees(self@.transactions, utxos@),
    {
        let spent = self.collect_spent();
        let created = self.collect_created();
        let mut ids: Vec<crate::sha256::Hash> = Vec::new();
        let mut i: usize = 0;
        while i < created.len()
            invariant
                i <= created@.len(),
                ids@ =~= output_hashes(created@).take(i as int),
            decreases created@.len() - i,
        {
            ids.push(created[i].hash());
            i = i + 1;
        }
        assert(ids@ =~= output_hashes(created@));
        leftover(&spent, &created, &ids, utxos)
    }

    /// The number of base units that the miner of the block at a height may
    /// create.
    pub fn calculate_block_reward(predicted_block_height: u64) -> (r: u64)
        ensures
            r == block_reward(predicted_block_height as nat),
    {
        let halvings: u64 = predicted_block_height / crate::HALVING_INTERVAL;
        let initial: u64 = crate::INITIAL_REWARD * 100_000_000;
        if halvings >= 64 {
            proof {
                vstd::arithmetic::power2::lemma2_to64();
                if halvings > 64 {
                    vstd::arithmetic::power2::lemma_pow2_strictly_increases(64, halvings as nat);
                }
                assert(initial as nat / pow2(halvings as nat) == 0) by (nonlinear_arith)
                    requires
                        initial < 0x1_0000_0000_0000_0000,
                        pow2(halvings as nat) >= 0x1_0000_0000_0000_0000,
                ;
            }
            0
        } else {
            proof {
                vstd::bits::lemma_u64_shr_is_div(initial, halvings);
            }
            initial >> halvings
        }
    }
}

impl ToCbor for BlockHeader {
    open spec fn tokens(&self) -> Seq<Token> {
        seq![Token::MapOf(5), Token::Text("timestamp"@)] + self.timestamp.tokens() + seq![
            Token::Text("nonce"@),
            Token::Unsigned(self.nonce),
            Token::Text("prev_block_hash"@),
        ] + self.prev_block_hash.tokens() + seq![Token::Text("merkle_root"@)]
            + self.merkle_root.tokens() + seq![Token::Text("target"@)] + self.target.tokens()
    }

    fn to_cbor(&self) -> (value: ciborium::Value) {
        let mut fields: Vec<(ciborium::Value, ciborium::Value)> = Vec::new();
        add_field(&mut fields, "timestamp", self.timestamp.to_cbor());
        add_field(&mut fields, "nonce", unsigned(self.nonce));
        add_field(&mut fields, "prev_block_hash", self.prev_block_hash.to_cbor());
        add_field(&mut fields, "merkle_root", self.merkle_root.to_cbor());
        add_field(&mut fields, "target", self.target.to_cbor());
        assert(seq![Token::MapOf(5)] + joined_entries(fields@) =~= self.tokens());
        map_of(fields)
    }
}

impl ToCbor for Block {
    open spec fn tokens(&self) -> Seq<Token> {
        self@.tokens()
    }

    fn to_cbor(&self) -> (value: ciborium::Value) {
        let mut fields: Vec<(ciborium::Value, ciborium::Value)> = Vec::new();
        add_field(&mut fields, "header", self.header.to_cbor());
        add_field(&mut fields, "transactions", array_of(&self.transactions));
        proof {
            lemma_transactions_tokens(self.transactions@);
            assert(seq![Token::MapOf(2)] + joined_entries(fields@) =~= self.tokens());
        }
        map_of(fields)
    }
}

impl BlockHeader {
    /// The hash of the header.
    pub open spec fn id(self) -> crate::sha256::Hash {
        hash_of(self.tokens())
    }

    /// Creates a new block header.
    pub fn new(
        timestamp: Timestamp,
        nonce: u64,
        prev_block_hash: crate::sha256::Hash,
        merkle_root: MerkleRoot,
        target: U256,
    ) -> (r: BlockHeader)
        ensures
            r == (BlockHeader { timestamp, nonce, prev_block_hash, merkle_root, target }),
    {
        BlockHeader { timestamp, nonce, prev_block_hash, merkle_root, target }
    }

    /// Whether the hash of the header meets its target.
    pub open spec fn meets_target(self) -> bool {
        self.id().0@ <= self.target@
    }

    /// The `i`-th header that mining tries. The nonce counts up; after the last
    /// nonce it starts again at zero with a new timestamp.
    pub open spec fn candidate(self, i: nat, renewed: Timestamp) -> BlockHeader {
        if self.nonce + i <= u64::MAX {
            BlockHeader { nonce: (self.nonce + i) as u64, ..self }
        } else {
            BlockHeader {
                nonce: (self.nonce + i - u64::MAX - 1) as u64,
                timestamp: renewed,
                ..self
            }
        }
    }

    /// Whether mining that tries the headers up to `steps` after this one ends
    /// with `found` at the header `end`: the first that meets the target, or the
    /// last if none does.
    pub open spec fn mining_ends(
        self,
        steps: nat,
        renewed: Timestamp,
        found: bool,
        end: BlockHeader,
    ) -> bool {
        if found {
            exists|k: nat|
                {
                    &&& k <= steps
                    &&& end == #[trigger] self.candidate(k, renewed)
                    &&& end.meets_target()
                    &&& forall|j: nat|
                        j < k ==> !(#[trigger] self.candidate(j, renewed)).meets_target()
                }
        } else {
            &&& end == self.candidate(steps, renewed)
            &&& forall|j: nat|
                j <= steps ==> !(#[trigger] self.candidate(j, renewed)).meets_target()
        }
    }

    /// Tries this header and the next `steps` ones, with nonces that count up
    /// and, past the last nonce, with the current time, until one meets the
    /// target. Returns whether one did.
    pub fn mine(&mut self, steps: usize) -> (found: bool)
        ensures
            exists|renewed: Timestamp|
                {
                    &&& #[trigger] old(self).mining_ends(steps as nat, renewed, found, *final(self))
                    &&& renewed.is_clock_time()
                },
            found ==> final(self).meets_target(),
    {
        let ghost start = *self;
        proof {
            lemma_clock_time_exists();
        }
        let ghost any = choose|t: Timestamp| t.is_clock_time();
        let room: u64 = u64::MAX - self.nonce;
        let steps: u64 = steps as u64;
        if steps <= room {
            let found = self.count_up(steps);
            proof {
                start.lemma_mining_within(steps as nat, steps as nat, any, found, *self);
            }
            return found;
        }
        if self.count_up(room) {
            proof {
                start.lemma_mining_within(room as nat, steps as nat, any, true, *self);
            }
            return true;
        }
        let renewed = Timestamp::now();
        let ghost last = *self;
        let found = self.start_over(renewed, steps - room - 1);
        proof {
            start.lemma_mining_resumes(steps as nat, renewed, last, found, *self);
        }
        found
    }

    /// As long as mining does not pass the last nonce, it does not matter which
    /// time would come then. A search that is successful stays so if it may go on.
    proof fn lemma_mining_within(
        self,
        steps: nat,
        limit: nat,
        renewed: Timestamp,
        found: bool,
        end: BlockHeader,
    )
        requires
            self.nonce + steps <= u64::MAX,
            steps <= limit,
            found || steps == limit,
            self.mining_ends(steps, self.timestamp, found, end),
        ensures
            self.mining_ends(limit, renewed, found, end),
    {
        let t = self.timestamp;
        assert forall|j: nat| j <= steps implies #[trigger] self.candidate(j, renewed)
            == self.candidate(j, t) by {
        }
        if found {
            let k = choose|k: nat|
                {
                    &&& k <= steps
                    &&& end == #[trigger] self.candidate(k, t)
                    &&& end.meets_target()
                    &&& forall|j: nat| j < k ==> !(#[trigger] self.candidate(j, t)).meets_target()
                };
            assert(end == self.candidate(k, renewed));
            assert forall|j: nat| j < k implies !(#[trigger] self.candidate(
                j,
                renewed,
            )).meets_target() by {
                assert(!self.candidate(j, t).meets_target());
            }
        } else {
            assert forall|j: nat| j <= steps implies !(#[trigger] self.candidate(
                j,
                renewed,
            )).meets_target() by {
                assert(!self.candidate(j, t).meets_target());
            }
        }
    }

    /// Mining that has used up the nonces goes on from nonce zero.
    proof fn lemma_mining_resumes(
        self,
        steps: nat,
        renewed: Timestamp,
        last: BlockHeader,
        found: bool,
        end: BlockHeader,
    )
        requires
            u64::MAX - self.nonce < steps <= u64::MAX,
            self.mining_ends((u64::MAX - self.nonce) as nat, self.timestamp, false, last),
            (BlockHeader { nonce: 0, timestamp: renewed, ..last }).mining_ends(
                (steps - (u64::MAX - self.nonce) - 1) as nat,
                renewed,
                found,
                end,
            ),
        ensures
            self.mining_ends(steps, renewed, found, end),
    {
        let room = (u64::MAX - self.nonce) as nat;
        let again = BlockHeader { nonce: 0, timestamp: renewed, ..last };
        assert forall|j: nat| j <= room implies !(#[trigger] self.candidate(
            j,
            renewed,
        )).meets_target() by {
            assert(self.candidate(j, renewed) == self.candidate(j, self.timestamp));
        }
        assert forall|j: nat| room < j <= steps implies #[trigger] self.candidate(j, renewed)
            == again.candidate((j - room - 1) as nat, renewed) by {
        }
        if found {
            let k = choose|k: nat|
                {
                    &&& k <= steps - room - 1
                    &&& end == #[trigger] again.candidate(k, renewed)
                    &&& end.meets_target()
                    &&& forall|j: nat|
                        j < k ==> !(#[trigger] again.candidate(j, renewed)).meets_target()
                };
            let whole = k + room + 1;
            assert(end == self.candidate(whole, renewed));
            assert forall|j: nat| j < whole implies !(#[trigger] self.candidate(
                j,
                renewed,
            )).meets_target() by {
                if j > room {
                    assert(!again.candidate((j - room - 1) as nat, renewed).meets_target());
                }
            }
        } else {
            assert forall|j: nat| j <= steps implies !(#[trigger] self.candidate(
                j,
                renewed,
            )).meets_target() by {
                if j > room {
                    assert(!again.candidate((j - room - 1) as nat, renewed).meets_target());
                }
            }
        }
    }

    /// Goes on mining after the last nonce: from nonce zero, with the given
    /// time, for `steps` more steps.
    pub fn start_over(&mut self, renewed: Timestamp, steps: u64) -> (found: bool)
        ensures
            (BlockHeader { nonce: 0, timestamp: renewed, ..*old(self) }).mining_ends(
                steps as nat,
                renewed,
                found,
                *final(self),
            ),
    {
        self.nonce = 0;
        self.timestamp = renewed;
        self.count_up(steps)
    }

    /// Tries this header and the next `steps` ones, of which none is past the
    /// last nonce.
    fn count_up(&mut self, steps: u64) -> (found: bool)
        requires
            old(self).nonce + steps <= u64::MAX,
        ensures
            old(self).mining_ends(steps as nat, old(self).timestamp, found, *final(self)),
    {
        let ghost start = *self;
        let mut i: u64 = 0;
        loop
            invariant
                i <= steps,
                start.nonce + steps <= u64::MAX,
                *self == start.candidate(i as nat, start.timestamp),
                start == *old(self),
                forall|j: nat|
                    j < i ==> !(#[trigger] start.candidate(j, start.timestamp)).meets_target(),
            decreases steps - i,
        {
            if self.hash().matches(self.target) {
                assert(*self == start.candidate(i as nat, start.timestamp));
                return true;
            }
            if i == steps {
                return false;
            }
            self.nonce = self.nonce + 1;
            i = i + 1;
        }
    }

    /// The nonce after a nonce in the range from `start` to before `end`, which
    /// is walked in a circle.
    pub open spec fn next_in_range(nonce: u64, start: u64, end: u64) -> u64 {
        if nonce + 1 < end {
            (nonce + 1) as u64
        } else {
            start
        }
    }

    /// The `i`-th header that mining in a range tries.
    pub open spec fn range_candidate(self, i: nat, start: u64, end: u64) -> BlockHeader
        decreases i,
    {
        if i == 0 {
            self
        } else {
            let before = self.range_candidate((i - 1) as nat, start, end);
            BlockHeader { nonce: BlockHeader::next_in_range(before.nonce, start, end), ..before }
        }
    }

    /// Tries `steps` headers, from this one on, with nonces from a range that is
    /// walked in a circle, until one meets the target. Returns whether one did.
    pub fn mine_range(&mut self, steps: usize, start: u64, end: u64) -> (found: bool)
        ensures
            found ==> exists|k: nat|
                {
                    &&& k < steps
                    &&& *final(self) == #[trigger] old(self).range_candidate(k, start, end)
                    &&& final(self).meets_target()
                    &&& forall|j: nat|
                        j < k ==> !(#[trigger] old(self).range_candidate(
                            j,
                            start,
                            end,
                        )).meets_target()
                },
            !found ==> {
                &&& *final(self) == old(self).range_candidate(steps as nat, start, end)
                &&& forall|j: nat|
                    j < steps ==> !(#[trigger] old(self).range_candidate(
                        j,
                        start,
                        end,
                    )).meets_target()
            },
    {
        let ghost first = *self;
        let mut i: usize = 0;
        while i < steps
            invariant
                i <= steps,
                first == *old(self),
                *self == first.range_candidate(i as nat, start, end),
                forall|j: nat|
                    j < i ==> !(#[trigger] first.range_candidate(j, start, end)).meets_target(),
            decreases steps - i,
        {
            if self.hash().matches(self.target) {
                assert(*self == first.range_candidate(i as nat, start, end));
                return true;
            }
            self.nonce = if self.nonce < u64::MAX && self.nonce + 1 < end {
                self.nonce + 1
            } else {
                start
            };
            i = i + 1;
        }
        false
    }

    /// Returns the SHA-256 hash of this block header.
    pub fn hash(&self) -> (r: crate::sha256::Hash)
        ensures
            r == self.id(),
    {
        crate::sha256::Hash::hash(self)
    }
}

} // verus!
