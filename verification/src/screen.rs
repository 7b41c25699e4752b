//! What the wallet shows.

use crate::text::{decimal_text, digits_of, number, read_number, trim, trimmed};
use crate::types::transaction::TransactionOutput;
use crate::wallet::{Outputs, Recipient, WalletError};
use vstd::prelude::*;

verus! {

/// The line of keys, with a note behind it.
pub open spec fn status_line(note: Seq<char>) -> Seq<char> {
    "[S]end  [C]ontacts  [R]efresh  [Q]uit  — "@ + note
}

/// The line of keys, with a note behind it.
pub fn show_status(note: &str) -> (r: String)
    ensures
        r@ == status_line(note@),
{
    let mut r = "[S]end  [C]ontacts  [R]efresh  [Q]uit  — ".to_owned();
    r.append(note);
    r
}

/// What is noted after the outputs have been asked for.
pub fn sync_note(ok: bool) -> (r: String)
    ensures
        r@ == if ok {
            "synced"@
        } else {
            "node unreachable"@
        },
{
    if ok {
        "synced".to_owned()
    } else {
        "node unreachable".to_owned()
    }
}

/// A number of coins.
pub open spec fn coins(value: nat) -> Seq<char> {
    digits_of(value) + " coins"@
}

/// A number of coins.
pub fn show_coins(value: u64) -> (r: String)
    ensures
        r@ == coins(value as nat),
{
    let mut r = decimal_text(value as u128);
    r.append(" coins");
    r
}

/// The line of an output.
pub open spec fn output_line(entry: (TransactionOutput, bool)) -> Seq<char> {
    (if entry.1 {
        "[pending]"@
    } else {
        "[unspent]"@
    }) + " "@ + coins(entry.0.value as nat)
}

/// Several lines as one text, each but the first on a new line.
pub open spec fn joined(lines: Seq<Seq<char>>) -> Seq<char>
    decreases lines.len(),
{
    if lines.len() == 0 {
        Seq::empty()
    } else if lines.len() == 1 {
        lines[0]
    } else {
        joined(lines.drop_last()) + "\n"@ + lines.last()
    }
}

/// The list of outputs.
pub open spec fn output_list(utxos: Outputs) -> Seq<char> {
    if utxos.len() == 0 {
        "No UTXOs found."@
    } else {
        joined(utxos.map_values(|e: (TransactionOutput, bool)| output_line(e)))
    }
}

/// Adds a line to a text.
fn add_line(text: &mut String, first: bool, line: &str)
    ensures
        final(text)@ == if first {
            old(text)@ + line@
        } else {
            old(text)@ + "\n"@ + line@
        },
{
    if !first {
        text.append("\n");
    }
    text.append(line);
}

/// Lists the outputs.
pub fn show_outputs(utxos: &Vec<(TransactionOutput, bool)>) -> (r: String)
    ensures
        r@ == output_list(utxos@),
{
    if utxos.len() == 0 {
        return "No UTXOs found.".to_owned();
    }
    let ghost lines = utxos@.map_values(|e: (TransactionOutput, bool)| output_line(e));
    let mut r = String::new();
    let mut i: usize = 0;
    assert(lines.take(0) =~= Seq::empty());
    while i < utxos.len()
        invariant
            i <= utxos@.len(),
            lines == utxos@.map_values(|e: (TransactionOutput, bool)| output_line(e)),
            r@ == joined(lines.take(i as int)),
        decreases utxos@.len() - i,
    {
        let mut line = if utxos[i].1 {
            "[pending]".to_owned()
        } else {
            "[unspent]".to_owned()
        };
        line.append(" ");
        line.append(show_coins(utxos[i].0.value).as_str());
        proof {
            assert(lines[i as int] == line@);
            assert(lines.take(i + 1).drop_last() =~= lines.take(i as int));
            assert(lines.take(i + 1).last() == line@);
            assert(Seq::<char>::empty() + line@ =~= line@);
        }
        add_line(&mut r, i == 0, line.as_str());
        i = i + 1;
    }
    assert(lines.take(i as int) =~= lines);
    r
}

/// The list of contacts, if there are any.
pub open spec fn contact_list(contacts: Seq<Recipient>) -> Option<Seq<char>> {
    if contacts.len() == 0 {
        None
    } else {
        Some(joined(contacts.map_values(|c: Recipient| "  "@ + c.name@)))
    }
}

/// What is shown in place of an empty list of contacts.
pub fn no_contacts() -> (r: String)
    ensures
        r@ == "No contacts configured."@,
{
    "No contacts configured.".to_owned()
}

/// Lists the contacts, if there are any.
pub fn show_contacts(contacts: &Vec<Recipient>) -> (r: Option<String>)
    ensures
        match r {
            Some(text) => contact_list(contacts@) == Some(text@),
            None => contact_list(contacts@) is None,
        },
{
    if contacts.len() == 0 {
        return None;
    }
    let ghost lines = contacts@.map_values(|c: Recipient| "  "@ + c.name@);
    let mut r = String::new();
    let mut i: usize = 0;
    assert(lines.take(0) =~= Seq::empty());
    while i < contacts.len()
        invariant
            i <= contacts@.len(),
            lines == contacts@.map_values(|c: Recipient| "  "@ + c.name@),
            r@ == joined(lines.take(i as int)),
        decreases contacts@.len() - i,
    {
        let mut line = "  ".to_owned();
        line.append(contacts[i].name.as_str());
        proof {
            assert(lines[i as int] == line@);
            assert(lines.take(i + 1).drop_last() =~= lines.take(i as int));
            assert(lines.take(i + 1).last() == line@);
            assert(Seq::<char>::empty() + line@ =~= line@);
        }
        add_line(&mut r, i == 0, line.as_str());
        i = i + 1;
    }
    assert(lines.take(i as int) =~= lines);
    Some(r)
}

/// The names that a payment can be sent to, in order; none if there are no
/// contacts.
pub fn show_send(contacts: &Vec<Recipient>) -> (r: Option<Vec<String>>)
    ensures
        match r {
            Some(names) => {
                &&& contacts@.len() > 0
                &&& names@.len() == contacts@.len()
                &&& forall|i: int|
                    0 <= i < names@.len() ==> (#[trigger] names@[i])@ == contacts@[i].name@
            },
            None => contacts@.len() == 0,
        },
{
    if contacts.len() == 0 {
        return None;
    }
    let mut names: Vec<String> = Vec::new();
    let mut i: usize = 0;
    while i < contacts.len()
        invariant
            i <= contacts@.len(),
            names@.len() == i,
            forall|j: int| 0 <= j < i ==> (#[trigger] names@[j])@ == contacts@[j].name@,
        decreases contacts@.len() - i,
    {
        names.push(contacts[i].name.clone());
        i = i + 1;
    }
    Some(names)
}

/// Why the form for a payment is refused.
#[derive(Clone, Copy, Debug, PartialEq, Eq, Structural)]
pub enum FormError {
    /// The amount is not a whole number that fits in 64 bits.
    InvalidAmount,
    /// No contact is selected.
    NoRecipient,
}

impl FormError {
    /// What is shown for this error.
    pub open spec fn message(self) -> Seq<char> {
        match self {
            FormError::InvalidAmount => "Invalid amount. Enter a whole number of coins."@,
            FormError::NoRecipient => "No recipient selected."@,
        }
    }

    /// What is shown for this error.
    pub fn text(self) -> (r: String)
        ensures
            r@ == self.message(),
    {
        match self {
            FormError::InvalidAmount => "Invalid amount. Enter a whole number of coins.".to_owned(),
            FormError::NoRecipient => "No recipient selected.".to_owned(),
        }
    }
}

/// Checks the form for a payment: the amount, which may have white space around
/// it, and then the contact.
pub fn on_send(contact: Option<String>, amount: &str) -> (r: Result<(String, u64), FormError>)
    ensures
        match r {
            Ok((name, value)) => {
                &&& number(trimmed(amount@), u64::MAX as nat) == Some(value as nat)
                &&& contact == Some(name)
            },
            Err(FormError::InvalidAmount) => number(trimmed(amount@), u64::MAX as nat) is None,
            Err(FormError::NoRecipient) => {
                &&& number(trimmed(amount@), u64::MAX as nat) is Some
                &&& contact is None
            },
        },
{
    let value: u64 = match read_number(trim(amount), u64::MAX) {
        Some(value) => value,
        None => {
            return Err(FormError::InvalidAmount);
        },
    };
    match contact {
        Some(name) => Ok((name, value)),
        None => Err(FormError::NoRecipient),
    }
}

/// What is noted after a payment has been queued.
pub fn queued_note(amount: u64, name: &str) -> (r: String)
    ensures
        r@ == "Queued: "@ + coins(amount as nat) + " → "@ + name@,
{
    let mut r = "Queued: ".to_owned();
    r.append(show_coins(amount).as_str());
    r.append(" → ");
    r.append(name);
    r
}

/// What is noted after a payment has failed.
pub fn error_note(error: &str) -> (r: String)
    ensures
        r@ == "Error: "@ + error@,
{
    let mut r = "Error: ".to_owned();
    r.append(error);
    r
}

impl WalletError {
    /// What is shown for this error.
    pub open spec fn message(self) -> Seq<char> {
        match self {
            WalletError::InsufficientFunds { have, need } => "Insufficient funds: have "@
                + digits_of(have as nat) + " satoshis, need "@ + digits_of(need as nat),
            WalletError::ContactNotFound => "Contact not found"@,
        }
    }

    /// What is shown for this error.
    pub fn text(self) -> (r: String)
        ensures
            r@ == self.message(),
    {
        match self {
            WalletError::InsufficientFunds { have, need } => {
                let mut r = "Insufficient funds: have ".to_owned();
                r.append(decimal_text(have).as_str());
                r.append(" satoshis, need ");
                r.append(decimal_text(need).as_str());
                r
            },
            WalletError::ContactNotFound => "Contact not found".to_owned(),
        }
    }
}

} // verus!
