//! What a hash commits to.

use crate::bytes::{be_bytes, lemma_be_read_back};
use crate::cbor::{tokens_of_all, ToCbor, Token};
use crate::crypto::{lemma_signature_injective, public_key_der, PublicKey, Signature};
use crate::sha256::hash_of;
use crate::time::rfc3339;
use crate::types::block::{transactions_tokens, BlockHeader, BlockView};
use crate::types::transaction::{TransactionInput, TransactionOutput, TransactionView};
use crate::u256::{half_range, lemma_pow256_32, words, U256};
use vstd::prelude::*;

verus! {

/// Whether two data items differ and have the same hash.
pub open spec fn collides(a: Seq<Token>, b: Seq<Token>) -> bool {
    a != b && hash_of(a) == hash_of(b)
}

/// Whether there are two data items with the same hash.
pub open spec fn collision_exists() -> bool {
    exists|a: Seq<Token>, b: Seq<Token>| #[trigger] collides(a, b)
}

/// The words of an integer make up its value, least significant first.
pub proof fn law_words_make_up_the_value(a: U256)
    ensures
        words(a).len() == 4,
        a@ == words(a)[0] + words(a)[1] * 0x1_0000_0000_0000_0000 + words(a)[2] * half_range()
            + words(a)[3] * 0x1_0000_0000_0000_0000 * half_range(),
{
    let w = 0x1_0000_0000_0000_0000int;
    let (hi, lo) = (a.hi as int, a.lo as int);
    assert(lo == (lo / w) * w + lo % w && 0 <= lo / w < w && 0 <= lo % w < w);
    assert(hi == (hi / w) * w + hi % w && 0 <= hi / w < w && 0 <= hi % w < w);
}

/// The data item of an integer tells the integer, whatever follows it.
pub proof fn lemma_integer_item(a: U256, b: U256, ra: Seq<Token>, rb: Seq<Token>)
    requires
        a.tokens() + ra == b.tokens() + rb,
    ensures
        a == b,
        ra == rb,
{
    let (x, y) = (a.tokens() + ra, b.tokens() + rb);
    assert(x[1] == a.tokens()[1] && y[1] == b.tokens()[1]);
    assert(x[2] == a.tokens()[2] && y[2] == b.tokens()[2]);
    assert(x[3] == a.tokens()[3] && y[3] == b.tokens()[3]);
    assert(x[4] == a.tokens()[4] && y[4] == b.tokens()[4]);
    law_words_make_up_the_value(a);
    law_words_make_up_the_value(b);
    assert(words(a)[0] == words(b)[0] && words(a)[1] == words(b)[1]);
    assert(words(a)[2] == words(b)[2] && words(a)[3] == words(b)[3]);
    crate::u256::lemma_u256_injective(a, b);
    assert(x.skip(5) =~= ra && y.skip(5) =~= rb);
}

/// The data items of bytes tell the bytes, whatever follows them.
proof fn lemma_byte_items(a: Seq<u8>, b: Seq<u8>, ra: Seq<Token>, rb: Seq<Token>)
    requires
        a.len() == b.len(),
        tokens_of_all(a) + ra == tokens_of_all(b) + rb,
    ensures
        a == b,
        ra == rb,
{
    lemma_byte_tokens(a);
    lemma_byte_tokens(b);
    let (x, y) = (tokens_of_all(a) + ra, tokens_of_all(b) + rb);
    assert forall|i: int| 0 <= i < a.len() implies a[i] == b[i] by {
        assert(x[i] == tokens_of_all(a)[i] && y[i] == tokens_of_all(b)[i]);
        assert(tokens_of_all(a)[i] == Token::Unsigned(a[i] as u64));
        assert(tokens_of_all(b)[i] == Token::Unsigned(b[i] as u64));
    }
    assert(a =~= b);
    assert(x.skip(a.len() as int) =~= ra && y.skip(a.len() as int) =~= rb);
}

proof fn lemma_byte_tokens(a: Seq<u8>)
    ensures
        tokens_of_all(a).len() == a.len(),
        forall|i: int|
            0 <= i < a.len() ==> #[trigger] tokens_of_all(a)[i] == Token::Unsigned(a[i] as u64),
    decreases a.len(),
{
    if a.len() > 0 {
        lemma_byte_tokens(a.drop_last());
    }
}

/// The data item of a public key tells its binary form, whatever follows it.
proof fn lemma_key_item(a: PublicKey, b: PublicKey, ra: Seq<Token>, rb: Seq<Token>)
    requires
        a.tokens() + ra == b.tokens() + rb,
    ensures
        public_key_der(a.sec1()) == public_key_der(b.sec1()),
        ra == rb,
{
    let (p, q) = (public_key_der(a.sec1()), public_key_der(b.sec1()));
    let (x, y) = (a.tokens() + ra, b.tokens() + rb);
    assert(x[0] == Token::ArrayOf(p.len()) && y[0] == Token::ArrayOf(q.len()));
    assert(x.skip(1) =~= tokens_of_all(p) + ra);
    assert(y.skip(1) =~= tokens_of_all(q) + rb);
    lemma_byte_items(p, q, ra, rb);
}

/// The data item of a signature tells the signature, whatever follows it.
proof fn lemma_signature_item(a: Signature, b: Signature, ra: Seq<Token>, rb: Seq<Token>)
    requires
        a.tokens() + ra == b.tokens() + rb,
    ensures
        a == b,
        ra == rb,
{
    a.lemma_compact_length();
    b.lemma_compact_length();
    let (x, y) = (a.tokens() + ra, b.tokens() + rb);
    assert(x.skip(1) =~= tokens_of_all(a.compact()) + ra);
    assert(y.skip(1) =~= tokens_of_all(b.compact()) + rb);
    lemma_byte_items(a.compact(), b.compact(), ra, rb);
    lemma_signature_injective(a, b);
}

/// Whether two outputs agree in all that their data items tell.
pub open spec fn same_output(a: TransactionOutput, b: TransactionOutput) -> bool {
    &&& a.value == b.value
    &&& a.unique_id == b.unique_id
    &&& public_key_der(a.pubkey.sec1()) == public_key_der(b.pubkey.sec1())
}

/// The data item of an output tells the output, whatever follows it.
proof fn lemma_output_item(
    a: TransactionOutput,
    b: TransactionOutput,
    ra: Seq<Token>,
    rb: Seq<Token>,
)
    requires
        a.tokens() + ra == b.tokens() + rb,
    ensures
        same_output(a, b),
        ra == rb,
{
    let (x, y) = (a.tokens() + ra, b.tokens() + rb);
    assert(x[2] == Token::Unsigned(a.value) && y[2] == Token::Unsigned(b.value));
    let (p, q) = (be_bytes(a.unique_id as nat, 16), be_bytes(b.unique_id as nat, 16));
    assert(x[4] == Token::Bytes(p) && y[4] == Token::Bytes(q));
    lemma_pow256_32();
    lemma_be_read_back(a.unique_id as nat, 16);
    lemma_be_read_back(b.unique_id as nat, 16);
    assert(x.skip(6) =~= a.pubkey.tokens() + ra);
    assert(y.skip(6) =~= b.pubkey.tokens() + rb);
    lemma_key_item(a.pubkey, b.pubkey, ra, rb);
}

/// The data item of an input tells the input, whatever follows it.
proof fn lemma_input_item(
    a: TransactionInput,
    b: TransactionInput,
    ra: Seq<Token>,
    rb: Seq<Token>,
)
    requires
        a.tokens() + ra == b.tokens() + rb,
    ensures
        a == b,
        ra == rb,
{
    let (x, y) = (a.tokens() + ra, b.tokens() + rb);
    let (p, q) = (a.prev_transaction_output_hash, b.prev_transaction_output_hash);
    let (sa, sb) = (
        seq![Token::Text("signature"@)] + a.signature.tokens() + ra,
        seq![Token::Text("signature"@)] + b.signature.tokens() + rb,
    );
    assert(x.skip(2) =~= p.0.tokens() + sa);
    assert(y.skip(2) =~= q.0.tokens() + sb);
    lemma_integer_item(p.0, q.0, sa, sb);
    assert(sa.skip(1) =~= a.signature.tokens() + ra);
    assert(sb.skip(1) =~= b.signature.tokens() + rb);
    lemma_signature_item(a.signature, b.signature, ra, rb);
}

/// The data items of several values begin with that of the first.
proof fn lemma_first_item<T: ToCbor>(items: Seq<T>)
    requires
        items.len() > 0,
    ensures
        tokens_of_all(items) == items[0].tokens() + tokens_of_all(items.drop_first()),
    decreases items.len(),
{
    if items.len() == 1 {
        assert(items.drop_last() =~= Seq::empty());
        assert(items.drop_first() =~= Seq::empty());
        assert(tokens_of_all(items) =~= items[0].tokens() + tokens_of_all(items.drop_first()));
    } else {
        lemma_first_item(items.drop_last());
        assert(items.drop_last().drop_first() =~= items.drop_first().drop_last());
        assert(tokens_of_all(items) =~= items[0].tokens() + tokens_of_all(items.drop_first()));
    }
}

/// The data items of inputs tell the inputs, whatever follows them.
proof fn lemma_input_items(
    a: Seq<TransactionInput>,
    b: Seq<TransactionInput>,
    ra: Seq<Token>,
    rb: Seq<Token>,
)
    requires
        a.len() == b.len(),
        tokens_of_all(a) + ra == tokens_of_all(b) + rb,
    ensures
        a == b,
        ra == rb,
    decreases a.len(),
{
    if a.len() > 0 {
        let (ta, tb) = (tokens_of_all(a.drop_first()) + ra, tokens_of_all(b.drop_first()) + rb);
        lemma_first_item(a);
        lemma_first_item(b);
        assert(a[0].tokens() + ta =~= tokens_of_all(a) + ra);
        assert(b[0].tokens() + tb =~= tokens_of_all(b) + rb);
        lemma_input_item(a[0], b[0], ta, tb);
        lemma_input_items(a.drop_first(), b.drop_first(), ra, rb);
        assert(a =~= seq![a[0]] + a.drop_first());
        assert(b =~= seq![b[0]] + b.drop_first());
    } else {
        assert(tokens_of_all(a) + ra =~= ra && tokens_of_all(b) + rb =~= rb);
        assert(a =~= b);
    }
}

/// The data items of outputs tell the outputs, whatever follows them.
proof fn lemma_output_items(
    a: Seq<TransactionOutput>,
    b: Seq<TransactionOutput>,
    ra: Seq<Token>,
    rb: Seq<Token>,
)
    requires
        a.len() == b.len(),
        tokens_of_all(a) + ra == tokens_of_all(b) + rb,
    ensures
        forall|i: int| 0 <= i < a.len() ==> same_output(#[trigger] a[i], b[i]),
        ra == rb,
    decreases a.len(),
{
    if a.len() > 0 {
        let (ta, tb) = (tokens_of_all(a.drop_first()) + ra, tokens_of_all(b.drop_first()) + rb);
        lemma_first_item(a);
        lemma_first_item(b);
        assert(a[0].tokens() + ta =~= tokens_of_all(a) + ra);
        assert(b[0].tokens() + tb =~= tokens_of_all(b) + rb);
        lemma_output_item(a[0], b[0], ta, tb);
        lemma_output_items(a.drop_first(), b.drop_first(), ra, rb);
        assert forall|i: int| 0 <= i < a.len() implies same_output(#[trigger] a[i], b[i]) by {
            if i > 0 {
                assert(a.drop_first()[i - 1] == a[i] && b.drop_first()[i - 1] == b[i]);
            }
        }
    } else {
        assert(tokens_of_all(a) + ra =~= ra && tokens_of_all(b) + rb =~= rb);
    }
}

/// Whether two transactions agree in all that their data items tell: they have the
/// same inputs, and as many outputs with the same values, identifiers and keys.
pub open spec fn same_transaction(a: TransactionView, b: TransactionView) -> bool {
    &&& a.inputs == b.inputs
    &&& a.outputs.len() == b.outputs.len()
    &&& forall|i: int| 0 <= i < a.outputs.len() ==> same_output(#[trigger] a.outputs[i], b.outputs[i])
}

/// The data item of a transaction tells the transaction, whatever follows it.
proof fn lemma_transaction_item(
    a: TransactionView,
    b: TransactionView,
    ra: Seq<Token>,
    rb: Seq<Token>,
)
    requires
        a.tokens() + ra == b.tokens() + rb,
    ensures
        same_transaction(a, b),
        ra == rb,
{
    let (x, y) = (a.tokens() + ra, b.tokens() + rb);
    let (oa, ob) = (tokens_of_all(a.outputs) + ra, tokens_of_all(b.outputs) + rb);
    let (ma, mb) = (
        seq![Token::Text("outputs"@), Token::ArrayOf(a.outputs.len())] + oa,
        seq![Token::Text("outputs"@), Token::ArrayOf(b.outputs.len())] + ob,
    );
    assert(x[2] == Token::ArrayOf(a.inputs.len()) && y[2] == Token::ArrayOf(b.inputs.len()));
    assert(x.skip(3) =~= tokens_of_all(a.inputs) + ma);
    assert(y.skip(3) =~= tokens_of_all(b.inputs) + mb);
    lemma_input_items(a.inputs, b.inputs, ma, mb);
    assert(ma[1] == Token::ArrayOf(a.outputs.len()) && mb[1] == Token::ArrayOf(b.outputs.len()));
    assert(ma.skip(2) =~= oa && mb.skip(2) =~= ob);
    lemma_output_items(a.outputs, b.outputs, ra, rb);
}

/// The data items of transactions tell the transactions.
proof fn lemma_transaction_items(
    a: Seq<TransactionView>,
    b: Seq<TransactionView>,
    ra: Seq<Token>,
    rb: Seq<Token>,
)
    requires
        a.len() == b.len(),
        transactions_tokens(a) + ra == transactions_tokens(b) + rb,
    ensures
        forall|i: int| 0 <= i < a.len() ==> same_transaction(#[trigger] a[i], b[i]),
        ra == rb,
    decreases a.len(),
{
    if a.len() > 0 {
        let (fa, fb) = (a.drop_first(), b.drop_first());
        let (ta, tb) = (transactions_tokens(fa) + ra, transactions_tokens(fb) + rb);
        lemma_first_transaction(a);
        lemma_first_transaction(b);
        assert(a[0].tokens() + ta =~= transactions_tokens(a) + ra);
        assert(b[0].tokens() + tb =~= transactions_tokens(b) + rb);
        lemma_transaction_item(a[0], b[0], ta, tb);
        lemma_transaction_items(fa, fb, ra, rb);
        assert forall|i: int| 0 <= i < a.len() implies same_transaction(#[trigger] a[i], b[i]) by {
            if i > 0 {
                assert(fa[i - 1] == a[i] && fb[i - 1] == b[i]);
            }
        }
    } else {
        assert(transactions_tokens(a) + ra =~= ra && transactions_tokens(b) + rb =~= rb);
    }
}

proof fn lemma_first_transaction(a: Seq<TransactionView>)
    requires
        a.len() > 0,
    ensures
        transactions_tokens(a) == a[0].tokens() + transactions_tokens(a.drop_first()),
    decreases a.len(),
{
    if a.len() == 1 {
        assert(a.drop_last() =~= Seq::empty());
        assert(a.drop_first() =~= Seq::empty());
        assert(transactions_tokens(a) =~= a[0].tokens() + transactions_tokens(a.drop_first()));
    } else {
        lemma_first_transaction(a.drop_last());
        assert(a.drop_last().drop_first() =~= a.drop_first().drop_last());
        assert(transactions_tokens(a) =~= a[0].tokens() + transactions_tokens(a.drop_first()));
    }
}

/// Whether two headers agree in all that their data items tell.
pub open spec fn same_header(a: BlockHeader, b: BlockHeader) -> bool {
    &&& rfc3339(a.timestamp.secs(), a.timestamp.subsec()) == rfc3339(
        b.timestamp.secs(),
        b.timestamp.subsec(),
    )
    &&& a.nonce == b.nonce
    &&& a.prev_block_hash == b.prev_block_hash
    &&& a.merkle_root == b.merkle_root
    &&& a.target == b.target
}

/// The data item of a header tells the header, whatever follows it.
proof fn lemma_header_item(a: BlockHeader, b: BlockHeader, ra: Seq<Token>, rb: Seq<Token>)
    requires
        a.tokens() + ra == b.tokens() + rb,
    ensures
        same_header(a, b),
        ra == rb,
{
    let (x, y) = (a.tokens() + ra, b.tokens() + rb);
    assert(x[2] == a.timestamp.tokens()[0] && y[2] == b.timestamp.tokens()[0]);
    assert(x[4] == Token::Unsigned(a.nonce) && y[4] == Token::Unsigned(b.nonce));
    let (ta, tb) = (
        seq![Token::Text("target"@)] + a.target.tokens() + ra,
        seq![Token::Text("target"@)] + b.target.tokens() + rb,
    );
    let (ma, mb) = (
        seq![Token::Text("merkle_root"@)] + a.merkle_root.0.0.tokens() + ta,
        seq![Token::Text("merkle_root"@)] + b.merkle_root.0.0.tokens() + tb,
    );
    assert(x.skip(6) =~= a.prev_block_hash.0.tokens() + ma);
    assert(y.skip(6) =~= b.prev_block_hash.0.tokens() + mb);
    lemma_integer_item(a.prev_block_hash.0, b.prev_block_hash.0, ma, mb);
    assert(ma.skip(1) =~= a.merkle_root.0.0.tokens() + ta);
    assert(mb.skip(1) =~= b.merkle_root.0.0.tokens() + tb);
    lemma_integer_item(a.merkle_root.0.0, b.merkle_root.0.0, ta, tb);
    assert(ta.skip(1) =~= a.target.tokens() + ra);
    assert(tb.skip(1) =~= b.target.tokens() + rb);
    lemma_integer_item(a.target, b.target, ra, rb);
}

/// The hash of an output commits to its value, its identifier and its key: two
/// outputs with the same hash agree in them, unless two data items have the same
/// hash.
pub proof fn law_hash_commits_to_the_output(a: TransactionOutput, b: TransactionOutput)
    requires
        a.id() == b.id(),
    ensures
        same_output(a, b) || collision_exists(),
{
    if a.tokens() == b.tokens() {
        assert(a.tokens() + Seq::empty() =~= a.tokens());
        assert(b.tokens() + Seq::empty() =~= b.tokens());
        lemma_output_item(a, b, Seq::empty(), Seq::empty());
    } else {
        assert(collides(a.tokens(), b.tokens()));
    }
}

/// The hash of a transaction commits to its inputs and its outputs.
pub proof fn law_hash_commits_to_the_transaction(a: TransactionView, b: TransactionView)
    requires
        a.id() == b.id(),
    ensures
        same_transaction(a, b) || collision_exists(),
{
    if a.tokens() == b.tokens() {
        assert(a.tokens() + Seq::empty() =~= a.tokens());
        assert(b.tokens() + Seq::empty() =~= b.tokens());
        lemma_transaction_item(a, b, Seq::empty(), Seq::empty());
    } else {
        assert(collides(a.tokens(), b.tokens()));
    }
}

/// The hash of a header, which proves the work, commits to all of its fields.
pub proof fn law_hash_commits_to_the_header(a: BlockHeader, b: BlockHeader)
    requires
        a.id() == b.id(),
    ensures
        same_header(a, b) || collision_exists(),
{
    if a.tokens() == b.tokens() {
        assert(a.tokens() + Seq::empty() =~= a.tokens());
        assert(b.tokens() + Seq::empty() =~= b.tokens());
        lemma_header_item(a, b, Seq::empty(), Seq::empty());
    } else {
        assert(collides(a.tokens(), b.tokens()));
    }
}

/// The hash of a block, to which the next block refers, commits to its header and
/// to all of its transactions.
pub proof fn law_hash_commits_to_the_block(a: BlockView, b: BlockView)
    requires
        a.id() == b.id(),
    ensures
        collision_exists() || {
            &&& same_header(a.header, b.header)
            &&& a.transactions.len() == b.transactions.len()
            &&& forall|i: int|
                0 <= i < a.transactions.len() ==> same_transaction(
                    #[trigger] a.transactions[i],
                    b.transactions[i],
                )
        },
{
    let (x, y) = (a.tokens(), b.tokens());
    if x == y {
        let (ta, tb) = (transactions_tokens(a.transactions), transactions_tokens(b.transactions));
        let (ma, mb) = (
            seq![Token::Text("transactions"@), Token::ArrayOf(a.transactions.len())] + ta,
            seq![Token::Text("transactions"@), Token::ArrayOf(b.transactions.len())] + tb,
        );
        assert(x.skip(2) =~= a.header.tokens() + ma);
        assert(y.skip(2) =~= b.header.tokens() + mb);
        lemma_header_item(a.header, b.header, ma, mb);
        assert(ma[1] == Token::ArrayOf(a.transactions.len()));
        assert(mb[1] == Token::ArrayOf(b.transactions.len()));
        assert(ma.skip(2) =~= ta + Seq::empty() && mb.skip(2) =~= tb + Seq::empty());
        lemma_transaction_items(a.transactions, b.transactions, Seq::empty(), Seq::empty());
    } else {
        assert(collides(x, y));
    }
}

} // verus!
