//! Transactions, which move value from earlier outputs to new ones.

use crate::bytes::{be_bytes, to_be};
use crate::cbor::{add_field, array_of, byte_string, joined_entries, map_of, tokens_of_all, unsigned,
    ToCbor, Token};
use crate::crypto::{PublicKey, Signature};
use crate::sha256::hash_of;
use vstd::prelude::*;

verus! {

/// A reference to a previous transaction output being spent.
#[derive(Clone, Copy, Debug, PartialEq, Eq, Structural)]
pub struct TransactionInput {
    /// Hash of the transaction output this input is spending.
    pub prev_transaction_output_hash: crate::sha256::Hash,
    /// ECDSA signature proving the owner authorized this spend (64 bytes,
    /// compact form).
    pub signature: Signature,
}

/// A destination for value in a transaction.
#[derive(Clone, Copy, Debug, PartialEq, Eq, Structural)]
pub struct TransactionOutput {
    /// Amount of satoshis being sent.
    pub value: u64,
    /// Unique identifier for this output, used to reference it in future
    /// inputs: the 128 bits of a UUID.
    pub unique_id: u128,
    /// Recipient's compressed public key (33 bytes).
    pub pubkey: PublicKey,
}

/// A transaction, moving value from inputs to outputs.
#[derive(Debug)]
pub struct Transaction {
    pub inputs: Vec<TransactionInput>,
    pub outputs: Vec<TransactionOutput>,
}

/// What a transaction holds.
#[verifier::ext_equal]
pub struct TransactionView {
    pub inputs: Seq<TransactionInput>,
    pub outputs: Seq<TransactionOutput>,
}

impl View for Transaction {
    type V = TransactionView;

    open spec fn view(&self) -> TransactionView {
        TransactionView { inputs: self.inputs@, outputs: self.outputs@ }
    }
}

impl Clone for Transaction {
    fn clone(&self) -> (r: Transaction)
        ensures
            r@ == self@,
    {
        let r = Transaction { inputs: self.inputs.clone(), outputs: self.outputs.clone() };
        assert(r.inputs@ =~= self.inputs@);
        assert(r.outputs@ =~= self.outputs@);
        r
    }
}

impl TransactionView {
    /// The data item of the transaction.
    pub open spec fn tokens(self) -> Seq<Token> {
        seq![Token::MapOf(2), Token::Text("inputs"@), Token::ArrayOf(self.inputs.len())]
            + tokens_of_all(self.inputs) + seq![
            Token::Text("outputs"@),
            Token::ArrayOf(self.outputs.len()),
        ] + tokens_of_all(self.outputs)
    }

    /// The hash of the transaction.
    pub open spec fn id(self) -> crate::sha256::Hash {
        hash_of(self.tokens())
    }
}

/// The values of several outputs, added up.
pub open spec fn total_value(outputs: Seq<TransactionOutput>) -> nat
    decreases outputs.len(),
{
    if outputs.len() == 0 {
        0
    } else {
        total_value(outputs.drop_last()) + outputs.last().value as nat
    }
}

/// The outputs of two lists are worth what those of either list are.
pub proof fn lemma_total_value_concat(a: Seq<TransactionOutput>, b: Seq<TransactionOutput>)
    ensures
        total_value(a + b) == total_value(a) + total_value(b),
    decreases b.len(),
{
    if b.len() == 0 {
        assert(a + b =~= a);
    } else {
        assert((a + b).drop_last() =~= a + b.drop_last());
        lemma_total_value_concat(a, b.drop_last());
    }
}

/// The value of one output.
pub proof fn lemma_total_value_one(output: TransactionOutput)
    ensures
        total_value(seq![output]) == output.value,
{
    assert(seq![output].drop_last() =~= Seq::empty());
    assert(total_value(seq![output].drop_last()) == 0);
}

impl TransactionOutput {
    /// The hash by which inputs refer to this output.
    pub open spec fn id(self) -> crate::sha256::Hash {
        hash_of(self.tokens())
    }

    /// Returns the SHA-256 hash of this transaction output.
    pub fn hash(&self) -> (r: crate::sha256::Hash)
        ensures
            r == self.id(),
    {
        crate::sha256::Hash::hash(self)
    }
}

impl Transaction {
    /// Creates a new transaction from the given inputs and outputs.
    pub fn new(inputs: Vec<TransactionInput>, outputs: Vec<TransactionOutput>) -> (r: Transaction)
        ensures
            r.inputs == inputs,
            r.outputs == outputs,
    {
        Transaction { inputs, outputs }
    }

    /// Returns the SHA-256 hash of this transaction.
    pub fn hash(&self) -> (r: crate::sha256::Hash)
        ensures
            r == self@.id(),
    {
        crate::sha256::Hash::hash(self)
    }
}

/// Adds up the values of outputs. So many 64-bit values fit in 128 bits.
pub fn sum_values(outputs: &Vec<TransactionOutput>) -> (total: u128)
    ensures
        total == total_value(outputs@),
        total <= outputs@.len() * u64::MAX,
{
    let mut total: u128 = 0;
    let mut i: usize = 0;
    assert(outputs@.take(0) =~= Seq::empty());
    while i < outputs.len()
        invariant
            i <= outputs@.len(),
            total == total_value(outputs@.take(i as int)),
            total <= i * u64::MAX,
        decreases outputs@.len() - i,
    {
        proof {
            assert(outputs@.take(i + 1).drop_last() =~= outputs@.take(i as int));
        }
        total = total + outputs[i].value as u128;
        i = i + 1;
    }
    assert(outputs@.take(i as int) =~= outputs@);
    total
}

impl ToCbor for TransactionInput {
    open spec fn tokens(&self) -> Seq<Token> {
        seq![Token::MapOf(2), Token::Text("prev_transaction_output_hash"@)]
            + self.prev_transaction_output_hash.tokens() + seq![Token::Text("signature"@)]
            + self.signature.tokens()
    }

    fn to_cbor(&self) -> (value: ciborium::Value) {
        let mut fields: Vec<(ciborium::Value, ciborium::Value)> = Vec::new();
        add_field(
            &mut fields,
            "prev_transaction_output_hash",
            self.prev_transaction_output_hash.to_cbor(),
        );
        add_field(&mut fields, "signature", self.signature.to_cbor());
        assert(seq![Token::MapOf(2)] + joined_entries(fields@) =~= self.tokens());
        map_of(fields)
    }
}

impl ToCbor for TransactionOutput {
    open spec fn tokens(&self) -> Seq<Token> {
        seq![
            Token::MapOf(3),
            Token::Text("value"@),
            Token::Unsigned(self.value),
            Token::Text("unique_id"@),
            Token::Bytes(be_bytes(self.unique_id as nat, 16)),
            Token::Text("pubkey"@),
        ] + self.pubkey.tokens()
    }

    fn to_cbor(&self) -> (value: ciborium::Value) {
        let mut fields: Vec<(ciborium::Value, ciborium::Value)> = Vec::new();
        add_field(&mut fields, "value", unsigned(self.value));
        add_field(&mut fields, "unique_id", byte_string(to_be(self.unique_id, 16)));
        add_field(&mut fields, "pubkey", self.pubkey.to_cbor());
        assert(seq![Token::MapOf(3)] + joined_entries(fields@) =~= self.tokens());
        map_of(fields)
    }
}

impl ToCbor for Transaction {
    open spec fn tokens(&self) -> Seq<Token> {
        self@.tokens()
    }

    fn to_cbor(&self) -> (value: ciborium::Value) {
        let mut fields: Vec<(ciborium::Value, ciborium::Value)> = Vec::new();
        add_field(&mut fields, "inputs", array_of(&self.inputs));
        add_field(&mut fields, "outputs", array_of(&self.outputs));
        assert(seq![Token::MapOf(2)] + joined_entries(fields@) =~= self.tokens());
        map_of(fields)
    }
}

} // verus!
