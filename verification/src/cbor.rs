//! CBOR data items, built and encoded by the `ciborium` crate.

use vstd::prelude::*;

verus! {

/// One step of a CBOR data item, read from left to right. An array or a map
/// gives the count of its elements or entries, which follow it.
pub enum Token {
    Unsigned(u64),
    Bytes(Seq<u8>),
    Text(Seq<char>),
    ArrayOf(nat),
    MapOf(nat),
}

#[verifier::external_type_specification]
#[verifier::external_body]
pub struct ExValue(ciborium::Value);

/// What a `ciborium::Value` holds, as the steps of its left-to-right walk.
pub uninterp spec fn cbor_tokens(value: ciborium::Value) -> Seq<Token>;

/// The bytes that `ciborium::into_writer` writes for a data item.
pub uninterp spec fn cbor_bytes(tokens: Seq<Token>) -> Seq<u8>;

/// The steps of several values, one value after the other.
pub open spec fn joined_tokens(values: Seq<ciborium::Value>) -> Seq<Token>
    decreases values.len(),
{
    if values.len() == 0 {
        Seq::empty()
    } else {
        joined_tokens(values.drop_last()) + cbor_tokens(values.last())
    }
}

/// The steps of several map entries: each key is followed by its value.
pub open spec fn joined_entries(entries: Seq<(ciborium::Value, ciborium::Value)>) -> Seq<Token>
    decreases entries.len(),
{
    if entries.len() == 0 {
        Seq::empty()
    } else {
        joined_entries(entries.drop_last()) + cbor_tokens(entries.last().0) + cbor_tokens(
            entries.last().1,
        )
    }
}

/// `ciborium::Value::from` of a `u64`: an unsigned integer item.
#[verifier::external_body]
pub(crate) fn unsigned(n: u64) -> (value: ciborium::Value)
    ensures
        cbor_tokens(value) == seq![Token::Unsigned(n)],
{
    ciborium::Value::from(n)
}

/// `ciborium::Value::Text`: a text string item.
#[verifier::external_body]
pub(crate) fn text(s: &str) -> (value: ciborium::Value)
    ensures
        cbor_tokens(value) == seq![Token::Text(s@)],
{
    ciborium::Value::from(s)
}

/// `ciborium::Value::Bytes`: a byte string item.
#[verifier::external_body]
pub(crate) fn byte_string(bytes: Vec<u8>) -> (value: ciborium::Value)
    ensures
        cbor_tokens(value) == seq![Token::Bytes(bytes@)],
{
    ciborium::Value::Bytes(bytes)
}

/// `ciborium::Value::Array`: an array item that holds the given values in
/// their order.
#[verifier::external_body]
pub(crate) fn array(values: Vec<ciborium::Value>) -> (value: ciborium::Value)
    ensures
        cbor_tokens(value) == seq![Token::ArrayOf(values@.len())] + joined_tokens(values@),
{
    ciborium::Value::Array(values)
}

/// `ciborium::Value::Map`: a map item that holds the given entries in their
/// order.
#[verifier::external_body]
pub(crate) fn map_of(entries: Vec<(ciborium::Value, ciborium::Value)>) -> (value: ciborium::Value)
    ensures
        cbor_tokens(value) == seq![Token::MapOf(entries@.len())] + joined_entries(entries@),
{
    ciborium::Value::Map(entries)
}

/// `ciborium::into_writer` on a growing byte vector, to which a write cannot
/// fail: the bytes depend on what the value holds alone.
#[verifier::external_body]
pub(crate) fn into_bytes(value: &ciborium::Value) -> (bytes: Vec<u8>)
    ensures
        bytes@ == cbor_bytes(cbor_tokens(*value)),
{
    let mut bytes: Vec<u8> = Vec::new();
    ciborium::into_writer(value, &mut bytes).expect("a vector accepts every write");
    bytes
}

/// Adds a field, under its name, to the entries of a map.
pub(crate) fn add_field(
    entries: &mut Vec<(ciborium::Value, ciborium::Value)>,
    name: &str,
    value: ciborium::Value,
)
    ensures
        final(entries)@.len() == old(entries)@.len() + 1,
        joined_entries(final(entries)@) == joined_entries(old(entries)@).push(Token::Text(name@))
            + cbor_tokens(value),
{
    let ghost before = entries@;
    entries.push((text(name), value));
    proof {
        assert(entries@.drop_last() =~= before);
        assert(joined_entries(before) + seq![Token::Text(name@)] =~= joined_entries(before).push(
            Token::Text(name@),
        ));
    }
}

/// A value that has a CBOR encoding.
pub trait ToCbor {
    /// The data item that stands for this value.
    spec fn tokens(&self) -> Seq<Token>;

    /// Builds the data item.
    fn to_cbor(&self) -> (value: ciborium::Value)
        ensures
            cbor_tokens(value) == self.tokens(),
    ;
}

/// The CBOR encoding of a value.
pub fn encode<T: ToCbor>(data: &T) -> (bytes: Vec<u8>)
    ensures
        bytes@ == cbor_bytes(data.tokens()),
{
    into_bytes(&data.to_cbor())
}

impl<'a> ToCbor for &'a str {
    open spec fn tokens(&self) -> Seq<Token> {
        seq![Token::Text(self@)]
    }

    fn to_cbor(&self) -> (value: ciborium::Value) {
        text(self)
    }
}

/// The items of several values, one value after the other.
pub open spec fn tokens_of_all<T: ToCbor>(items: Seq<T>) -> Seq<Token>
    decreases items.len(),
{
    if items.len() == 0 {
        Seq::empty()
    } else {
        tokens_of_all(items.drop_last()) + items.last().tokens()
    }
}

/// An array of the data items of several values.
pub(crate) fn array_of<T: ToCbor>(items: &Vec<T>) -> (value: ciborium::Value)
    ensures
        cbor_tokens(value) == seq![Token::ArrayOf(items@.len())] + tokens_of_all(items@),
{
    let mut values: Vec<ciborium::Value> = Vec::new();
    let mut i: usize = 0;
    assert(items@.take(0) =~= Seq::empty());
    while i < items.len()
        invariant
            i <= items@.len(),
            values@.len() == i,
            joined_tokens(values@) == tokens_of_all(items@.take(i as int)),
        decreases items@.len() - i,
    {
        let ghost before = values@;
        values.push(items[i].to_cbor());
        proof {
            assert(values@.drop_last() =~= before);
            assert(items@.take(i + 1).drop_last() =~= items@.take(i as int));
        }
        i = i + 1;
    }
    assert(items@.take(i as int) =~= items@);
    array(values)
}

} // verus!
