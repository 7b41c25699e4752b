//! What a wallet knows and the transactions that it makes.

use crate::bytes::be_bytes;
use crate::cbor::{cbor_bytes, encode, ToCbor};
use crate::crypto::{ecdsa_signature, PrivateKey, PublicKey, Signature};
use crate::network::{Message, MessageView};
use crate::node::message_view;
use crate::types::transaction::{lemma_total_value_concat, lemma_total_value_one, total_value,
    Transaction, TransactionInput, TransactionOutput, TransactionView};
use crate::unique_id::{is_random_uuid, new_unique_id};
use vstd::prelude::*;

verus! {

/// Where the two halves of a key pair are kept.
#[derive(Debug)]
pub struct Key {
    pub private_key_path: String,
    pub public_key_path: String,
}

/// A key pair.
#[derive(Clone, Copy, Debug, PartialEq, Eq, Structural)]
pub struct LoadedKey {
    pub private_key: PrivateKey,
    pub public_key: PublicKey,
}

impl Key {
    /// The key pair that the two files hold.
    pub fn load(&self, private_key: PrivateKey, public_key: PublicKey) -> (r: LoadedKey)
        ensures
            r == (LoadedKey { private_key, public_key }),
    {
        LoadedKey { private_key, public_key }
    }
}

/// A contact, and where its public key is kept.
#[derive(Debug)]
pub struct Recipient {
    pub name: String,
    pub public_key_path: String,
}

/// A contact and its public key.
#[derive(Debug)]
pub struct LoadedRecipient {
    pub name: String,
    pub public_key: PublicKey,
}

impl Recipient {
    /// The contact with the public key that the file holds.
    pub fn load(&self, public_key: PublicKey) -> (r: LoadedRecipient)
        ensures
            r.name@ == self.name@,
            r.public_key == public_key,
    {
        LoadedRecipient { name: self.name.clone(), public_key }
    }
}

/// How the fee of a payment is set.
#[derive(Clone, Copy, Debug, PartialEq, Eq, Structural)]
pub enum FeeType {
    /// A flat amount.
    Fixed,
    /// A percentage of the payment amount.
    Percentage,
}

impl FeeType {
    /// The fee of a payment, of the two that it could be.
    pub fn fee(self, flat: u64, share: u64) -> (r: u64)
        ensures
            r == match self {
                FeeType::Fixed => flat,
                FeeType::Percentage => share,
            },
    {
        match self {
            FeeType::Fixed => flat,
            FeeType::Percentage => share,
        }
    }
}

/// Outputs as a wallet knows them, each with the mark that says whether it is
/// about to be spent.
pub type Outputs = Seq<(TransactionOutput, bool)>;

/// The position of the entry with a key.
spec fn place(entries: Seq<(Vec<u8>, Vec<(TransactionOutput, bool)>)>, key: Seq<u8>) -> int {
    choose|i: int| 0 <= i < entries.len() && (#[trigger] entries[i]).0@ == key
}

/// The map whose entries are the given pairs.
spec fn as_map(entries: Seq<(Vec<u8>, Vec<(TransactionOutput, bool)>)>) -> Map<Seq<u8>, Outputs> {
    Map::new(
        |key: Seq<u8>| exists|i: int| 0 <= i < entries.len() && (#[trigger] entries[i]).0@ == key,
        |key: Seq<u8>| entries[place(entries, key)].1@,
    )
}

/// Holds all key pairs managed by this wallet and the last-known outputs for
/// each, keyed by the CBOR-encoded public key bytes.
#[derive(Debug)]
pub struct UtxoStore {
    my_keys: Vec<LoadedKey>,
    utxos: Vec<(Vec<u8>, Vec<(TransactionOutput, bool)>)>,
}

/// What a store holds.
#[verifier::ext_equal]
pub struct StoreView {
    pub my_keys: Seq<LoadedKey>,
    pub utxos: Map<Seq<u8>, Outputs>,
}

impl View for UtxoStore {
    type V = StoreView;

    closed spec fn view(&self) -> StoreView {
        StoreView { my_keys: self.my_keys@, utxos: as_map(self.utxos@) }
    }
}

/// A copy of a list of outputs.
fn copied(list: &Vec<(TransactionOutput, bool)>) -> (r: Vec<(TransactionOutput, bool)>)
    ensures
        r@ == list@,
{
    let mut r: Vec<(TransactionOutput, bool)> = Vec::new();
    let mut i: usize = 0;
    while i < list.len()
        invariant
            i <= list@.len(),
            r@ =~= list@.take(i as int),
        decreases list@.len() - i,
    {
        r.push(list[i]);
        i = i + 1;
    }
    assert(r@ =~= list@);
    r
}

/// Whether two byte strings are equal.
fn bytes_equal(a: &Vec<u8>, b: &Vec<u8>) -> (r: bool)
    ensures
        r == (a@ == b@),
{
    if a.len() != b.len() {
        return false;
    }
    let mut i: usize = 0;
    while i < a.len()
        invariant
            i <= a@.len() == b@.len(),
            forall|j: int| 0 <= j < i ==> a@[j] == b@[j],
        decreases a@.len() - i,
    {
        if a[i] != b[i] {
            assert(a@[i as int] != b@[i as int]);
            return false;
        }
        i = i + 1;
    }
    assert(a@ =~= b@);
    true
}

impl UtxoStore {
    #[verifier::type_invariant]
    spec fn inv(self) -> bool {
        distinct(self.utxos@)
    }

    /// Creates an empty store with no keys or outputs.
    pub fn new() -> (r: UtxoStore)
        ensures
            r@ == (StoreView { my_keys: Seq::empty(), utxos: Map::empty() }),
    {
        let r = UtxoStore { my_keys: Vec::new(), utxos: Vec::new() };
        assert(as_map(r.utxos@) =~= Map::empty());
        r
    }

    /// Registers a key pair so that its outputs will be fetched and tracked.
    pub fn add_key(&mut self, key: LoadedKey)
        ensures
            final(self)@ == (StoreView { my_keys: old(self)@.my_keys.push(key), ..old(self)@ }),
    {
        proof {
            use_type_invariant(&*self);
        }
        let mut keys: Vec<LoadedKey> = Vec::new();
        std::mem::swap(&mut keys, &mut self.my_keys);
        keys.push(key);
        self.my_keys = keys;
    }

    /// The key pairs.
    pub fn keys(&self) -> (r: &Vec<LoadedKey>)
        ensures
            r@ == self@.my_keys,
    {
        &self.my_keys
    }

    /// Serialises a public key to bytes for use as a map key.
    pub fn pubkey_bytes(key: &PublicKey) -> (r: Vec<u8>)
        ensures
            r@ == cbor_bytes(key.tokens()),
    {
        encode(key)
    }

    /// The last-known outputs of a key, given by its bytes.
    pub fn known(&self, key: &Vec<u8>) -> (r: Option<&Vec<(TransactionOutput, bool)>>)
        ensures
            match r {
                Some(list) => self@.utxos.contains_key(key@) && list@ == self@.utxos[key@],
                None => !self@.utxos.contains_key(key@),
            },
    {
        proof {
            use_type_invariant(self);
        }
        let mut i: usize = 0;
        while i < self.utxos.len()
            invariant
                i <= self.utxos@.len(),
                self.inv(),
                forall|j: int| 0 <= j < i ==> (#[trigger] self.utxos@[j]).0@ != key@,
            decreases self.utxos@.len() - i,
        {
            if bytes_equal(&self.utxos[i].0, key) {
                assert(self.utxos@[i as int].0@ == key@);
                assert(place(self.utxos@, key@) == i);
                return Some(&self.utxos[i].1);
            }
            i = i + 1;
        }
        None
    }

    /// Replaces the last-known outputs of a key, given by its bytes.
    pub fn record(&mut self, key: Vec<u8>, list: Vec<(TransactionOutput, bool)>)
        ensures
            final(self)@ == (StoreView {
                utxos: old(self)@.utxos.insert(key@, list@),
                ..old(self)@
            }),
    {
        proof {
            use_type_invariant(&*self);
        }
        let mut entries: Vec<(Vec<u8>, Vec<(TransactionOutput, bool)>)> = Vec::new();
        std::mem::swap(&mut entries, &mut self.utxos);
        let ghost before = entries@;
        let mut i: usize = 0;
        while i < entries.len() && !bytes_equal(&entries[i].0, &key)
            invariant
                entries@ == before,
                i <= entries@.len(),
                forall|j: int| 0 <= j < i ==> (#[trigger] before[j]).0@ != key@,
            decreases entries@.len() - i,
        {
            i = i + 1;
        }
        if i < entries.len() {
            entries.set(i, (key, list));
            proof {
                lemma_replaced(before, i as int, entries@);
            }
        } else {
            entries.push((key, list));
            proof {
                assert(entries@.drop_last() =~= before);
                lemma_added(before, entries@);
            }
        }
        self.utxos = entries;
    }
}

/// Each key once.
spec fn distinct(entries: Seq<(Vec<u8>, Vec<(TransactionOutput, bool)>)>) -> bool {
    forall|i: int, j: int|
        0 <= i < j < entries.len() ==> (#[trigger] entries[i]).0@ != (#[trigger] entries[j]).0@
}

proof fn lemma_at(entries: Seq<(Vec<u8>, Vec<(TransactionOutput, bool)>)>, i: int)
    requires
        distinct(entries),
        0 <= i < entries.len(),
    ensures
        as_map(entries).contains_key(entries[i].0@),
        as_map(entries)[entries[i].0@] == entries[i].1@,
{
    let j = place(entries, entries[i].0@);
    assert(entries[j].0@ == entries[i].0@);
    assert(i == j) by {
        if i < j {
            assert(entries[i].0@ != entries[j].0@);
        } else if j < i {
            assert(entries[j].0@ != entries[i].0@);
        }
    }
}

proof fn lemma_replaced(
    before: Seq<(Vec<u8>, Vec<(TransactionOutput, bool)>)>,
    i: int,
    after: Seq<(Vec<u8>, Vec<(TransactionOutput, bool)>)>,
)
    requires
        distinct(before),
        0 <= i < before.len(),
        after == before.update(i, after[i]),
        after[i].0@ == before[i].0@,
    ensures
        distinct(after),
        as_map(after) == as_map(before).insert(after[i].0@, after[i].1@),
{
    assert forall|a: int, b: int| 0 <= a < b < after.len() implies (#[trigger] after[a]).0@ != (
    #[trigger] after[b]).0@ by {
        assert(before[a].0@ != before[b].0@);
    }
    let (m, n) = (as_map(before), as_map(after));
    assert forall|key: Seq<u8>| #[trigger] n.dom().contains(key) <==> m.insert(
        after[i].0@,
        after[i].1@,
    ).dom().contains(key) by {
        if n.contains_key(key) {
            let j = choose|j: int| 0 <= j < after.len() && (#[trigger] after[j]).0@ == key;
            assert(before[j].0@ == key);
        }
        if m.contains_key(key) {
            let j = choose|j: int| 0 <= j < before.len() && (#[trigger] before[j]).0@ == key;
            assert(after[j].0@ == key);
        }
        assert(after[i].0@ == after[i].0@);
    }
    assert forall|key: Seq<u8>| #[trigger] n.dom().contains(key) implies n[key] == m.insert(
        after[i].0@,
        after[i].1@,
    )[key] by {
        let j = choose|j: int| 0 <= j < after.len() && (#[trigger] after[j]).0@ == key;
        lemma_at(after, j);
        lemma_at(before, j);
        if j != i {
            assert(key != after[i].0@) by {
                if i < j {
                    assert(after[i].0@ != after[j].0@);
                } else {
                    assert(after[j].0@ != after[i].0@);
                }
            }
        }
    }
    assert(n =~= m.insert(after[i].0@, after[i].1@));
}

proof fn lemma_added(
    before: Seq<(Vec<u8>, Vec<(TransactionOutput, bool)>)>,
    after: Seq<(Vec<u8>, Vec<(TransactionOutput, bool)>)>,
)
    requires
        distinct(before),
        after.len() == before.len() + 1,
        after.drop_last() == before,
        forall|j: int| 0 <= j < before.len() ==> (#[trigger] before[j]).0@ != after.last().0@,
    ensures
        distinct(after),
        as_map(after) == as_map(before).insert(after.last().0@, after.last().1@),
{
    let k = before.len() as int;
    assert forall|j: int| 0 <= j < k implies #[trigger] after[j] == before[j] by {
        assert(after.drop_last()[j] == after[j]);
    }
    assert forall|a: int, b: int| 0 <= a < b < after.len() implies (#[trigger] after[a]).0@ != (
    #[trigger] after[b]).0@ by {
        assert(after[a] == before[a]);
        if b < k {
            assert(before[a].0@ != before[b].0@);
        }
    }
    let (m, n) = (as_map(before), as_map(after));
    assert forall|key: Seq<u8>| #[trigger] n.dom().contains(key) <==> m.insert(
        after[k].0@,
        after[k].1@,
    ).dom().contains(key) by {
        if n.contains_key(key) {
            let j = choose|j: int| 0 <= j < after.len() && (#[trigger] after[j]).0@ == key;
            if j < k {
                assert(before[j].0@ == key);
            }
        }
        if m.contains_key(key) {
            let j = choose|j: int| 0 <= j < before.len() && (#[trigger] before[j]).0@ == key;
            assert(after[j].0@ == key);
        }
        assert(after[k].0@ == after[k].0@);
    }
    assert forall|key: Seq<u8>| #[trigger] n.dom().contains(key) implies n[key] == m.insert(
        after[k].0@,
        after[k].1@,
    )[key] by {
        let j = choose|j: int| 0 <= j < after.len() && (#[trigger] after[j]).0@ == key;
        lemma_at(after, j);
        if j < k {
            assert(before[j].0@ != after[k].0@);
            lemma_at(before, j);
        }
    }
    assert(n =~= m.insert(after[k].0@, after[k].1@));
}

/// The outputs that are not about to be spent, in order.
pub open spec fn unspent(utxos: Outputs) -> Seq<TransactionOutput>
    decreases utxos.len(),
{
    if utxos.len() == 0 {
        Seq::empty()
    } else if utxos[0].1 {
        unspent(utxos.drop_first())
    } else {
        seq![utxos[0].0] + unspent(utxos.drop_first())
    }
}

/// The outputs that pay for what is needed: the first ones, one at least, up to
/// the one with which they suffice.
pub open spec fn selected(available: Seq<TransactionOutput>, needed: int) -> Seq<TransactionOutput>
    decreases available.len(),
{
    if available.len() == 0 {
        Seq::empty()
    } else if available[0].value >= needed {
        seq![available[0]]
    } else {
        seq![available[0]] + selected(available.drop_first(), needed - available[0].value)
    }
}

/// The first key pair with a public key.
pub open spec fn owner(keys: Seq<LoadedKey>, public_key: PublicKey) -> Option<LoadedKey>
    decreases keys.len(),
{
    if keys.len() == 0 {
        None
    } else if keys[0].public_key == public_key {
        Some(keys[0])
    } else {
        owner(keys.drop_first(), public_key)
    }
}

/// The key pair that signs for an output: the one that owns it, or else the
/// first.
pub open spec fn signer(keys: Seq<LoadedKey>, output: TransactionOutput) -> LoadedKey {
    match owner(keys, output.pubkey) {
        Some(key) => key,
        None => keys[0],
    }
}

/// Whether an input spends an output with the signature of a private key.
pub open spec fn spends(input: TransactionInput, output: TransactionOutput, key: PrivateKey) -> bool {
    &&& input.prev_transaction_output_hash == output.id()
    &&& input.signature.compact() == ecdsa_signature(key.secret(), be_bytes(output.id().0@, 32))
    &&& forall|public_key: PublicKey|
        key.has_public_key(public_key) ==> #[trigger] input.signature.verifies(
            output.id(),
            public_key,
        )
}

/// A payment, together with the change, if there is any.
pub open spec fn payment_outputs(
    payment: TransactionOutput,
    change: TransactionOutput,
) -> Seq<TransactionOutput> {
    if change.value > 0 {
        seq![payment, change]
    } else {
        seq![payment]
    }
}

/// Why a wallet cannot pay.
#[derive(Clone, Copy, Debug, PartialEq, Eq, Structural)]
pub enum WalletError {
    /// The unspent outputs are worth less than the amount and the fee.
    InsufficientFunds { have: u128, need: u128 },
    /// No contact has the name.
    ContactNotFound,
}

/// The wallet: its node, its contacts, its keys and the outputs that it knows.
#[derive(Debug)]
pub struct Core {
    pub node: String,
    pub contacts: Vec<Recipient>,
    pub utxo_store: UtxoStore,
    /// Flat, ordered list of all outputs across every managed key, refreshed by
    /// `fetch_utxos`.
    pub utxos: Vec<(TransactionOutput, bool)>,
}

/// The outputs of the replies to a wallet's requests, one after the other: a
/// reply that is missing, or another message, brings none.
pub open spec fn received(replies: Seq<Option<MessageView>>) -> Outputs
    decreases replies.len(),
{
    if replies.len() == 0 {
        Seq::empty()
    } else {
        match replies.last() {
            Some(MessageView::UTXOs(list)) => received(replies.drop_last()) + list,
            _ => received(replies.drop_last()),
        }
    }
}

/// What is known of each key after the replies to a wallet's requests, in the
/// order of its keys.
pub open spec fn recorded(
    known: Map<Seq<u8>, Outputs>,
    keys: Seq<LoadedKey>,
    replies: Seq<Option<MessageView>>,
) -> Map<Seq<u8>, Outputs>
    decreases replies.len(),
{
    if replies.len() == 0 {
        known
    } else {
        let before = recorded(known, keys, replies.drop_last());
        match replies.last() {
            Some(MessageView::UTXOs(list)) => before.insert(
                cbor_bytes(keys[replies.len() - 1].public_key.tokens()),
                list,
            ),
            _ => before,
        }
    }
}

/// The views of replies.
pub open spec fn reply_views(replies: Seq<Option<Message>>) -> Seq<Option<MessageView>> {
    replies.map_values(|m: Option<Message>| message_view(m))
}

/// The views of messages.
pub open spec fn request_views(requests: Seq<Message>) -> Seq<MessageView> {
    requests.map_values(|m: Message| m@)
}

impl Core {
    /// A wallet with the given keys that knows no outputs yet.
    pub fn new(node: String, contacts: Vec<Recipient>, utxos: UtxoStore) -> (r: Core)
        ensures
            r.node == node,
            r.contacts == contacts,
            r.utxo_store == utxos,
            r.utxos@ == Seq::<(TransactionOutput, bool)>::empty(),
    {
        Core { node, contacts, utxo_store: utxos, utxos: Vec::new() }
    }

    /// Returns the node address.
    pub fn node_addr(&self) -> (r: &str)
        ensures
            r@ == self.node@,
    {
        self.node.as_str()
    }

    /// What is to be asked of the node, once per managed key.
    pub fn requests(&self) -> (r: Vec<Message>)
        ensures
            request_views(r@) == self.utxo_store@.my_keys.map_values(
                |k: LoadedKey| MessageView::FetchUTXOs(k.public_key),
            ),
    {
        let keys = self.utxo_store.keys();
        let mut r: Vec<Message> = Vec::new();
        let mut i: usize = 0;
        while i < keys.len()
            invariant
                i <= keys@.len(),
                r@.len() == i,
                forall|j: int|
                    0 <= j < i ==> (#[trigger] r@[j])@ == MessageView::FetchUTXOs(keys@[j].public_key),
            decreases keys@.len() - i,
        {
            r.push(Message::FetchUTXOs(keys[i].public_key));
            i = i + 1;
        }
        assert(request_views(r@) =~= self.utxo_store@.my_keys.map_values(
            |k: LoadedKey| MessageView::FetchUTXOs(k.public_key),
        ));
        r
    }

    /// Merges the replies to the requests, one per managed key, into both the
    /// per-key map and the flat list that the rest of the wallet reads.
    pub fn fetch_utxos(&mut self, replies: Vec<Option<Message>>)
        requires
            replies@.len() == old(self).utxo_store@.my_keys.len(),
        ensures
            final(self).utxos@ == received(reply_views(replies@)),
            final(self).utxo_store@ == (StoreView {
                utxos: recorded(
                    old(self).utxo_store@.utxos,
                    old(self).utxo_store@.my_keys,
                    reply_views(replies@),
                ),
                ..old(self).utxo_store@
            }),
            final(self).node == old(self).node,
            final(self).contacts == old(self).contacts,
    {
        let ghost keys = self.utxo_store@.my_keys;
        let ghost known = self.utxo_store@.utxos;
        let ghost all = reply_views(replies@);
        let mut all_utxos: Vec<(TransactionOutput, bool)> = Vec::new();
        let mut i: usize = 0;
        assert(all.take(0) =~= Seq::empty());
        while i < replies.len()
            invariant
                i <= replies@.len() == keys.len(),
                all == reply_views(replies@),
                all_utxos@ == received(all.take(i as int)),
                self.utxo_store@ == (StoreView {
                    utxos: recorded(known, keys, all.take(i as int)),
                    my_keys: keys,
                }),
                self.node == old(self).node,
                self.contacts == old(self).contacts,
            decreases replies@.len() - i,
        {
            proof {
                assert(all.take(i + 1).drop_last() =~= all.take(i as int));
                assert(all.take(i + 1).last() == message_view(replies@[i as int]));
            }
            match &replies[i] {
                Some(Message::UTXOs(utxos)) => {
                    let key = UtxoStore::pubkey_bytes(&self.utxo_store.keys()[i].public_key);
                    self.utxo_store.record(key, copied(utxos));
                    let mut list = copied(utxos);
                    all_utxos.append(&mut list);
                },
                _ => {},
            }
            i = i + 1;
        }
        assert(all.take(i as int) =~= all);
        self.utxos = all_utxos;
    }

    /// What submits a transaction to the node, which validates and propagates it
    /// to peers.
    pub fn send_transaction(&self, transaction: Transaction) -> (r: Message)
        ensures
            r@ == MessageView::SubmitTransaction(transaction@),
    {
        Message::SubmitTransaction(transaction)
    }

    /// Adds up the values of all unspent outputs across every managed key.
    pub fn total_unspent(&self) -> (r: u128)
        ensures
            r == total_value(unspent(self.utxos@)),
    {
        let mut total: u128 = 0;
        let mut i: usize = 0;
        let ghost all = unspent(self.utxos@);
        assert(self.utxos@.skip(0) =~= self.utxos@);
        while i < self.utxos.len()
            invariant
                i <= self.utxos@.len(),
                all == unspent(self.utxos@),
                total + total_value(unspent(self.utxos@.skip(i as int))) == total_value(all),
                total <= i * u64::MAX,
            decreases self.utxos@.len() - i,
        {
            let ghost rest = self.utxos@.skip(i as int);
            assert(rest.drop_first() =~= self.utxos@.skip(i + 1));
            if !self.utxos[i].1 {
                proof {
                    lemma_total_value_one(rest[0].0);
                    lemma_total_value_concat(seq![rest[0].0], unspent(rest.drop_first()));
                }
                total = total + self.utxos[i].0.value as u128;
            }
            i = i + 1;
        }
        assert(self.utxos@.skip(i as int) =~= Seq::empty());
        total
    }

    /// Sums the values of all unspent outputs across every managed key.
    pub fn get_balance(&self) -> (r: u64)
        requires
            total_value(unspent(self.utxos@)) <= u64::MAX,
        ensures
            r == total_value(unspent(self.utxos@)),
    {
        self.total_unspent() as u64
    }

    /// Whether `tx` pays an amount to a recipient and leaves a fee: it spends the
    /// selected outputs, each with the signature of its owner, and returns what
    /// is left to the first managed key.
    pub open spec fn pays(
        self,
        recipient: PublicKey,
        amount: u64,
        fee: u64,
        payment_id: u128,
        change_id: u128,
        tx: TransactionView,
    ) -> bool {
        let keys = self.utxo_store@.my_keys;
        let chosen = selected(unspent(self.utxos@), amount + fee);
        let change = (total_value(chosen) - amount - fee) as u64;
        &&& tx.inputs.len() == chosen.len()
        &&& forall|i: int|
            0 <= i < chosen.len() ==> spends(
                #[trigger] tx.inputs[i],
                chosen[i],
                signer(keys, chosen[i]).private_key,
            )
        &&& tx.outputs == payment_outputs(
            TransactionOutput { value: amount, unique_id: payment_id, pubkey: recipient },
            TransactionOutput { value: change, unique_id: change_id, pubkey: keys[0].public_key },
        )
    }

    /// Whether the wallet has what it takes to pay.
    pub open spec fn can_pay(self, amount: u64, fee: u64) -> bool {
        total_value(selected(unspent(self.utxos@), amount + fee)) >= amount + fee
    }

    /// Whether there is a key to sign with, where one is needed.
    pub open spec fn can_sign(self, amount: u64, fee: u64) -> bool {
        ||| self.utxo_store@.my_keys.len() > 0
        ||| !self.can_pay(amount, fee)
        ||| unspent(self.utxos@).len() == 0
    }

    /// Whether there is a key to sign with, where one is needed.
    pub fn has_signer(&self, amount: u64, fee: u64) -> (r: bool)
        ensures
            r == self.can_sign(amount, fee),
    {
        if self.utxo_store.keys().len() > 0 {
            return true;
        }
        let needed: u128 = amount as u128 + fee as u128;
        let (chosen, collected) = self.select(needed);
        proof {
            lemma_surplus(unspent(self.utxos@), needed as int);
        }
        collected < needed || chosen.len() == 0
    }

    /// Selects outputs greedily to cover `amount + fee`, signs each input with
    /// the key that owns the corresponding output, and produces a change output
    /// back to the first managed key if there is a surplus. Returns an error if
    /// funds are insufficient.
    pub fn create_transaction(&self, recipient: &PublicKey, amount: u64, fee: u64) -> (r: Result<
        Transaction,
        WalletError,
    >)
        requires
            self.can_sign(amount, fee),
        ensures
            match r {
                Ok(tx) => self.can_pay(amount, fee) && exists|payment_id: u128, change_id: u128| #[trigger]
                    self.pays(*recipient, amount, fee, payment_id, change_id, tx@)
                        && is_random_uuid(payment_id) && is_random_uuid(change_id),
                Err(e) => !self.can_pay(amount, fee) && e == self.shortage(amount, fee),
            },
    {
        let payment_id = new_unique_id();
        let change_id = new_unique_id();
        let r = self.create_transaction_with(recipient, amount, fee, payment_id, change_id);
        proof {
            if r is Ok {
                assert(self.pays(*recipient, amount, fee, payment_id, change_id, r->Ok_0@));
            }
        }
        r
    }

    /// What is missing when funds are insufficient.
    pub open spec fn shortage(self, amount: u64, fee: u64) -> WalletError {
        WalletError::InsufficientFunds {
            have: total_value(unspent(self.utxos@)) as u128,
            need: (amount + fee) as u128,
        }
    }

    /// Makes a payment as `create_transaction` does, with the given unique
    /// identifiers for its outputs.
    pub fn create_transaction_with(
        &self,
        recipient: &PublicKey,
        amount: u64,
        fee: u64,
        payment_id: u128,
        change_id: u128,
    ) -> (r: Result<Transaction, WalletError>)
        requires
            self.can_sign(amount, fee),
        ensures
            match r {
                Ok(tx) => self.can_pay(amount, fee) && self.pays(
                    *recipient,
                    amount,
                    fee,
                    payment_id,
                    change_id,
                    tx@,
                ),
                Err(e) => !self.can_pay(amount, fee) && e == self.shortage(amount, fee),
            },
    {
        let needed: u128 = amount as u128 + fee as u128;
        let (chosen, collected) = self.select(needed);
        proof {
            lemma_surplus(unspent(self.utxos@), needed as int);
        }
        if collected < needed {
            return Err(WalletError::InsufficientFunds { have: collected, need: needed });
        }
        let inputs = self.sign_inputs(&chosen);
        let mut outputs: Vec<TransactionOutput> = Vec::new();
        outputs.push(
            TransactionOutput { value: amount, unique_id: payment_id, pubkey: *recipient },
        );
        let change: u64 = (collected - needed) as u64;
        if change > 0 {
            let keys = self.utxo_store.keys();
            outputs.push(
                TransactionOutput {
                    value: change,
                    unique_id: change_id,
                    pubkey: keys[0].public_key,
                },
            );
        }
        proof {
            let payment = TransactionOutput {
                value: amount,
                unique_id: payment_id,
                pubkey: *recipient,
            };
            let rest = TransactionOutput {
                value: change,
                unique_id: change_id,
                pubkey: self.utxo_store@.my_keys[0].public_key,
            };
            assert(outputs@ =~= payment_outputs(payment, rest));
        }
        Ok(Transaction::new(inputs, outputs))
    }

    /// Selects outputs to cover what is needed, and adds them up.
    fn select(&self, needed: u128) -> (r: (Vec<TransactionOutput>, u128))
        ensures
            r.0@ == selected(unspent(self.utxos@), needed as int),
            r.1 == total_value(r.0@),
    {
        let mut chosen: Vec<TransactionOutput> = Vec::new();
        let mut collected: u128 = 0;
        let mut i: usize = 0;
        let ghost want = selected(unspent(self.utxos@), needed as int);
        assert(self.utxos@.skip(0) =~= self.utxos@);
        assert(chosen@ + want =~= want);
        while i < self.utxos.len()
            invariant
                i <= self.utxos@.len(),
                want == chosen@ + selected(
                    unspent(self.utxos@.skip(i as int)),
                    needed - collected,
                ),
                want == selected(unspent(self.utxos@), needed as int),
                collected == total_value(chosen@),
                collected <= i * u64::MAX,
            decreases self.utxos@.len() - i,
        {
            let ghost rest = self.utxos@.skip(i as int);
            assert(rest.drop_first() =~= self.utxos@.skip(i + 1));
            if !self.utxos[i].1 {
                let out = self.utxos[i].0;
                let ghost before = chosen@;
                let ghost left = needed - collected;
                proof {
                    let available = unspent(rest);
                    assert(available[0] == out);
                    assert(available.drop_first() =~= unspent(rest.drop_first()));
                    assert(before.push(out).drop_last() =~= before);
                }
                collected = collected + out.value as u128;
                chosen.push(out);
                if collected >= needed {
                    assert(want =~= chosen@);
                    return (chosen, collected);
                }
                assert(want =~= chosen@ + selected(
                    unspent(self.utxos@.skip(i + 1)),
                    left - out.value,
                ));
            }
            i = i + 1;
        }
        assert(self.utxos@.skip(i as int) =~= Seq::empty());
        assert(want =~= chosen@);
        (chosen, collected)
    }

    /// Signs for each of the given outputs.
    fn sign_inputs(&self, chosen: &Vec<TransactionOutput>) -> (inputs: Vec<TransactionInput>)
        requires
            chosen@.len() > 0 ==> self.utxo_store@.my_keys.len() > 0,
        ensures
            inputs@.len() == chosen@.len(),
            forall|i: int|
                0 <= i < chosen@.len() ==> spends(
                    #[trigger] inputs@[i],
                    chosen@[i],
                    signer(self.utxo_store@.my_keys, chosen@[i]).private_key,
                ),
    {
        let mut inputs: Vec<TransactionInput> = Vec::new();
        let mut i: usize = 0;
        while i < chosen.len()
            invariant
                i <= chosen@.len(),
                inputs@.len() == i,
                chosen@.len() > 0 ==> self.utxo_store@.my_keys.len() > 0,
                forall|j: int|
                    0 <= j < i ==> spends(
                        #[trigger] inputs@[j],
                        chosen@[j],
                        signer(self.utxo_store@.my_keys, chosen@[j]).private_key,
                    ),
            decreases chosen@.len() - i,
        {
            let signing_key = self.signing_key(&chosen[i]);
            let output_hash = chosen[i].hash();
            let signature = Signature::sign_output(&output_hash, &signing_key.private_key);
            inputs.push(
                TransactionInput { prev_transaction_output_hash: output_hash, signature },
            );
            i = i + 1;
        }
        inputs
    }

    /// The key pair that signs for an output.
    fn signing_key(&self, output: &TransactionOutput) -> (r: LoadedKey)
        requires
            self.utxo_store@.my_keys.len() > 0,
        ensures
            r == signer(self.utxo_store@.my_keys, *output),
    {
        let keys = self.utxo_store.keys();
        let mut i: usize = 0;
        assert(keys@.skip(0) =~= keys@);
        while i < keys.len()
            invariant
                i <= keys@.len(),
                owner(keys@, output.pubkey) == owner(keys@.skip(i as int), output.pubkey),
                keys@ == self.utxo_store@.my_keys,
            decreases keys@.len() - i,
        {
            if keys[i].public_key == output.pubkey {
                return keys[i];
            }
            assert(keys@.skip(i as int).drop_first() =~= keys@.skip(i + 1));
            i = i + 1;
        }
        keys[0]
    }

    /// The first contact with a name.
    pub fn find_contact(&self, name: &str) -> (r: Result<&Recipient, WalletError>)
        ensures
            match r {
                Ok(contact) => exists|i: int| is_first_named(self.contacts@, name@, i) && *contact
                    == self.contacts@[i],
                Err(e) => e == WalletError::ContactNotFound && forall|i: int|
                    0 <= i < self.contacts@.len() ==> (#[trigger] self.contacts@[i]).name@ != name@,
            },
    {
        let wanted: String = name.to_owned();
        let mut i: usize = 0;
        while i < self.contacts.len()
            invariant
                i <= self.contacts@.len(),
                wanted@ == name@,
                forall|j: int| 0 <= j < i ==> (#[trigger] self.contacts@[j]).name@ != name@,
            decreases self.contacts@.len() - i,
        {
            if self.contacts[i].name == wanted {
                assert(is_first_named(self.contacts@, name@, i as int));
                return Ok(&self.contacts[i]);
            }
            i = i + 1;
        }
        Err(WalletError::ContactNotFound)
    }
}

/// Whether the contact at position `i` is the first with a name.
pub open spec fn is_first_named(contacts: Seq<Recipient>, name: Seq<char>, i: int) -> bool {
    &&& 0 <= i < contacts.len()
    &&& contacts[i].name@ == name
    &&& forall|j: int| 0 <= j < i ==> (#[trigger] contacts[j]).name@ != name
}

/// What is selected exceeds what is needed by the value of one output at most. If
/// it does not suffice, it is all that there is.
pub proof fn lemma_surplus(available: Seq<TransactionOutput>, needed: int)
    requires
        needed >= 0,
    ensures
        total_value(selected(available, needed)) >= needed ==> total_value(
            selected(available, needed),
        ) - needed <= u64::MAX,
        total_value(selected(available, needed)) < needed ==> selected(available, needed)
            == available,
        selected(available, needed).len() == 0 <==> available.len() == 0,
    decreases available.len(),
{
    if available.len() > 0 {
        let (first, rest) = (available[0], available.drop_first());
        lemma_total_value_one(first);
        assert(seq![first] + rest =~= available);
        if first.value < needed {
            lemma_surplus(rest, needed - first.value);
            lemma_total_value_concat(seq![first], selected(rest, needed - first.value));
        }
    }
}

} // verus!
