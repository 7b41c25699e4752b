//! The commands of the interactive wallet.

use crate::text::{is_white_space, number, read_number, white_space};
use vstd::prelude::*;

verus! {

/// The words of a text that starts with the unfinished word `current`.
pub open spec fn words_from(s: Seq<char>, current: Seq<char>) -> Seq<Seq<char>>
    decreases s.len(),
{
    let finished = if current.len() > 0 {
        seq![current]
    } else {
        Seq::empty()
    };
    if s.len() == 0 {
        finished
    } else if is_white_space(s[0]) {
        finished + words_from(s.drop_first(), Seq::empty())
    } else {
        words_from(s.drop_first(), current.push(s[0]))
    }
}

/// The words of a text, which white space separates.
pub open spec fn words(s: Seq<char>) -> Seq<Seq<char>> {
    words_from(s, Seq::empty())
}

/// The views of several words.
pub open spec fn word_views(strings: Seq<String>) -> Seq<Seq<char>> {
    strings.map_values(|s: String| s@)
}

/// Splits a text into its words.
pub fn split_words(text: &str) -> (r: Vec<String>)
    ensures
        word_views(r@) == words(text@),
{
    let n = text.unicode_len();
    let mut r: Vec<String> = Vec::new();
    let mut start: usize = 0;
    let mut i: usize = 0;
    let ghost all = words(text@);
    assert(text@.skip(0) =~= text@);
    assert(text@.subrange(0, 0) =~= Seq::empty());
    assert(word_views(r@) + words_from(text@.skip(0), text@.subrange(0, 0)) =~= all);
    while i < n
        invariant
            start <= i <= n == text@.len(),
            all == word_views(r@) + words_from(
                text@.skip(i as int),
                text@.subrange(start as int, i as int),
            ),
        decreases n - i,
    {
        let ghost rest = text@.skip(i as int);
        let ghost current = text@.subrange(start as int, i as int);
        assert(rest.drop_first() =~= text@.skip(i + 1));
        if white_space(text.get_char(i)) {
            let ghost before = word_views(r@);
            let ghost after = words_from(text@.skip(i + 1), Seq::empty());
            if start < i {
                r.push(text.substring_char(start, i).to_owned());
                assert(word_views(r@) =~= before.push(current));
                assert(all =~= word_views(r@) + after);
            } else {
                assert(all =~= word_views(r@) + after);
            }
            start = i + 1;
            assert(text@.subrange(i + 1, i + 1) =~= Seq::empty());
        } else {
            assert(text@.subrange(start as int, i + 1) =~= current.push(rest[0]));
        }
        i = i + 1;
    }
    let ghost current = text@.subrange(start as int, n as int);
    let ghost before = word_views(r@);
    assert(text@.skip(n as int) =~= Seq::empty());
    if start < n {
        r.push(text.substring_char(start, n).to_owned());
        assert(word_views(r@) =~= before.push(current));
    }
    assert(word_views(r@) =~= all);
    r
}

/// A command to the wallet.
#[derive(Debug)]
pub enum Command {
    /// Show the unspent balance.
    Balance,
    /// Send base units to a named contact.
    Send { contact: String, amount: u64 },
    /// List the configured contacts.
    Contacts,
    /// Show the available commands.
    Help,
    /// Quit.
    Exit,
    /// Anything else.
    Unknown,
}

/// What a command holds.
#[verifier::ext_equal]
pub enum CommandView {
    Balance,
    Send { contact: Seq<char>, amount: u64 },
    Contacts,
    Help,
    Exit,
    Unknown,
}

impl View for Command {
    type V = CommandView;

    open spec fn view(&self) -> CommandView {
        match *self {
            Command::Balance => CommandView::Balance,
            Command::Send { contact, amount } => CommandView::Send { contact: contact@, amount },
            Command::Contacts => CommandView::Contacts,
            Command::Help => CommandView::Help,
            Command::Exit => CommandView::Exit,
            Command::Unknown => CommandView::Unknown,
        }
    }
}

/// The command that a line holds.
pub open spec fn meaning(line: Seq<char>) -> CommandView {
    let w = words(line);
    if w.len() == 1 && w[0] == "balance"@ {
        CommandView::Balance
    } else if w.len() == 1 && w[0] == "contacts"@ {
        CommandView::Contacts
    } else if w.len() == 1 && w[0] == "help"@ {
        CommandView::Help
    } else if w.len() == 1 && (w[0] == "exit"@ || w[0] == "quit"@) {
        CommandView::Exit
    } else if w.len() == 3 && w[0] == "send"@ {
        match number(w[2], u64::MAX as nat) {
            Some(amount) => CommandView::Send { contact: w[1], amount: amount as u64 },
            None => CommandView::Unknown,
        }
    } else {
        CommandView::Unknown
    }
}

/// Whether a word is the given text.
fn is_word(word: &String, text: &str) -> (r: bool)
    ensures
        r == (word@ == text@),
{
    *word == text.to_owned()
}

/// Reads a command.
pub fn parse_command(line: &str) -> (r: Command)
    ensures
        r@ == meaning(line@),
{
    let mut w = split_words(line);
    let ghost all = words(line@);
    if w.len() == 1 {
        assert(all[0] == w@[0]@);
        if is_word(&w[0], "balance") {
            return Command::Balance;
        }
        if is_word(&w[0], "contacts") {
            return Command::Contacts;
        }
        if is_word(&w[0], "help") {
            return Command::Help;
        }
        if is_word(&w[0], "exit") || is_word(&w[0], "quit") {
            return Command::Exit;
        }
        return Command::Unknown;
    }
    if w.len() == 3 {
        assert(all[0] == w@[0]@ && all[1] == w@[1]@ && all[2] == w@[2]@);
        if is_word(&w[0], "send") {
            let amount: u64 = match read_number(w[2].as_str(), u64::MAX) {
                Some(amount) => amount,
                None => {
                    return Command::Unknown;
                },
            };
            let contact = w.remove(1);
            return Command::Send { contact, amount };
        }
    }
    Command::Unknown
}

/// Lists the available commands.
pub fn show_help() -> (r: String)
    ensures
        r@ == "balance\nsend <contact> <amount>\ncontacts\nhelp\nexit / quit"@,
{
    "balance\nsend <contact> <amount>\ncontacts\nhelp\nexit / quit".to_owned()
}

} // verus!
