//! Numbers, words and lines in texts.

use crate::bytes::{be_value, pow256};
use crate::command::{meaning, words, words_from, CommandView};
use crate::decimal::{decimal, decimal_value, lemma_decimal};
use crate::screen::{coins, contact_list, joined, output_line, output_list};
use crate::sha256::{hex_bytes, hex_digit, is_hex_digit};
use crate::text::{digits_of, digits_value, hex_char, hex_digits, is_digit, is_white_space,
    number, trimmed, trimmed_end, trimmed_start, unsigned_part};
use crate::types::transaction::TransactionOutput;
use crate::wallet::{Outputs, Recipient};
use vstd::arithmetic::power::{lemma_pow0, lemma_pow1, lemma_pow_adds, pow};
use vstd::prelude::*;

verus! {

/// Decimal digits count ten times as much for every place further to the left.
pub proof fn law_decimal_places(front: Seq<char>, back: Seq<char>)
    ensures
        digits_value(front + back) == digits_value(front) * pow(10, back.len()) + digits_value(back),
    decreases back.len(),
{
    if back.len() == 0 {
        assert(front + back =~= front);
        lemma_pow0(10);
    } else {
        let rest = back.drop_last();
        assert((front + back).drop_last() =~= front + rest);
        law_decimal_places(front, rest);
        lemma_pow1(10);
        lemma_pow_adds(10, rest.len(), 1);
        let (f, p) = (digits_value(front) as int, pow(10, rest.len()));
        assert((f * p) * 10 == f * (p * 10)) by (nonlinear_arith);
    }
}

/// The value of one decimal digit.
pub proof fn law_decimal_digit(c: char)
    requires
        '0' <= c <= '9',
    ensures
        digits_value(seq![c]) == c as int - '0' as int,
{
    assert(seq![c].drop_last() =~= Seq::empty());
    assert(digits_value(seq![c].drop_last()) == 0);
}

/// The digits of a number are decimal digits that stand for the number. Only those
/// of zero start with a zero.
pub proof fn law_digits_stand_for_the_number(n: nat)
    ensures
        digits_of(n).len() > 0,
        forall|i: int| 0 <= i < digits_of(n).len() ==> '0' <= #[trigger] digits_of(n)[i] <= '9',
        n > 0 ==> digits_of(n)[0] != '0',
        n == 0 ==> digits_of(n) == seq!['0'],
        digits_value(digits_of(n)) == n,
    decreases n,
{
    lemma_decimal(n);
    let text = digits_of(n);
    assert forall|i: int| 0 <= i < text.len() implies '0' <= #[trigger] text[i] <= '9' by {
        assert(48 <= decimal(n)[i] <= 57);
        assert(text[i] == decimal(n)[i] as char);
    }
    if n < 10 {
        assert(text.drop_last() =~= Seq::empty());
        assert(digits_value(text.drop_last()) == 0);
    } else {
        law_digits_stand_for_the_number(n / 10);
        assert(text.drop_last() =~= digits_of(n / 10));
        assert(text.last() == (48 + n % 10) as u8 as char);
        assert(text[0] == digits_of(n / 10)[0]);
    }
}

/// A number that is written in digits is read as that number, with a plus sign in
/// front or without, unless it is too large.
pub proof fn law_number_is_read_back(n: nat, largest: nat)
    ensures
        number(digits_of(n), largest) == if n <= largest {
            Some(n)
        } else {
            None
        },
        number(seq!['+'] + digits_of(n), largest) == if n <= largest {
            Some(n)
        } else {
            None
        },
{
    law_digits_stand_for_the_number(n);
    let text = digits_of(n);
    assert(unsigned_part(text) == text);
    assert((seq!['+'] + text).drop_first() =~= text);
    assert forall|i: int| 0 <= i < text.len() implies is_digit(#[trigger] text[i]) by {
    }
}

/// What is no numeral is no number: a text without digits, and one with anything but
/// digits behind a plus sign that it may start with.
pub proof fn law_other_texts_are_no_numbers(s: Seq<char>, i: int, largest: nat)
    requires
        s.len() == 0 || s == seq!['+'] || (0 <= i < s.len() && !('0' <= s[i] <= '9') && (i > 0
            || s[0] != '+')),
    ensures
        number(s, largest) is None,
{
    let digits = unsigned_part(s);
    if s.len() > 0 && s != seq!['+'] {
        if s[0] == '+' {
            assert(digits[i - 1] == s[i]);
            assert(!is_digit(digits[i - 1]));
        } else {
            assert(!is_digit(digits[i]));
        }
    }
}

/// What hexadecimal digits stand for.
pub open spec fn hex_value(s: Seq<char>) -> nat
    decreases s.len(),
{
    if s.len() == 0 {
        0
    } else {
        hex_value(s.drop_last()) * 16 + hex_digit(s.last()) as nat
    }
}

/// The hexadecimal digits of a number are lower-case, and stand for the number. Only
/// those of zero start with a zero.
pub proof fn law_hex_digits_stand_for_the_number(n: nat)
    ensures
        hex_digits(n).len() > 0,
        forall|i: int|
            0 <= i < hex_digits(n).len() ==> {
                let c = #[trigger] hex_digits(n)[i];
                '0' <= c <= '9' || 'a' <= c <= 'f'
            },
        n > 0 ==> hex_digits(n)[0] != '0',
        n == 0 ==> hex_digits(n) == seq!['0'],
        hex_value(hex_digits(n)) == n,
    decreases n,
{
    let text = hex_digits(n);
    if n < 16 {
        lemma_hex_char(n);
        assert(text.drop_last() =~= Seq::empty());
        assert(hex_value(text.drop_last()) == 0);
    } else {
        law_hex_digits_stand_for_the_number(n / 16);
        lemma_hex_char(n % 16);
        assert(text.drop_last() =~= hex_digits(n / 16));
        assert(text[0] == hex_digits(n / 16)[0]);
    }
}

proof fn lemma_hex_char(n: nat)
    requires
        n < 16,
    ensures
        ({
            let c = hex_char(n);
            &&& '0' <= c <= '9' || 'a' <= c <= 'f'
            &&& hex_digit(c) == n
            &&& n > 0 ==> c != '0'
        }),
{
}

/// Two hexadecimal digits stand for a byte, the first for its upper half.
pub proof fn law_hex_pairs_stand_for_bytes(s: Seq<char>, i: int)
    requires
        0 <= i,
        2 * i + 1 < s.len(),
        is_hex_digit(s[2 * i]),
        is_hex_digit(s[2 * i + 1]),
    ensures
        2 * hex_bytes(s).len() <= s.len() <= 2 * hex_bytes(s).len() + 1,
        hex_bytes(s)[i] == 16 * hex_digit(s[2 * i]) + hex_digit(s[2 * i + 1]),
{
}

/// The value of a hexadecimal digit, of either case.
pub proof fn law_hex_digit(c: char, n: int)
    ensures
        0 <= n <= 9 && c as int == '0' as int + n ==> hex_digit(c) == n,
        10 <= n <= 15 && c as int == 'a' as int + n - 10 ==> hex_digit(c) == n,
        10 <= n <= 15 && c as int == 'A' as int + n - 10 ==> hex_digit(c) == n,
{
}

/// The first byte of a big-endian number counts the most.
pub proof fn law_first_byte_counts_most(first: u8, rest: Seq<u8>)
    ensures
        be_value(seq![first] + rest) == first * pow256(rest.len()) + be_value(rest),
        be_value(seq![first]) == first,
        pow256(rest.len() + 1) == 256 * pow256(rest.len()),
        pow256(0) == 1,
{
    assert(seq![first].drop_last() =~= Seq::empty());
    assert(be_value(seq![first].drop_last()) == 0);
    crate::bytes::lemma_be_value_concat(seq![first], rest);
}

/// A trimmed text is a part of the text. What is left out is white space, and it
/// neither starts nor ends with white space.
pub proof fn law_trimming_takes_white_space(s: Seq<char>) -> (r: (int, int))
    ensures
        0 <= r.0 <= r.1 <= s.len(),
        trimmed(s) == s.subrange(r.0, r.1),
        forall|i: int| 0 <= i < r.0 ==> is_white_space(#[trigger] s[i]),
        forall|i: int| r.1 <= i < s.len() ==> is_white_space(#[trigger] s[i]),
        trimmed(s).len() > 0 ==> !is_white_space(trimmed(s)[0]) && !is_white_space(
            trimmed(s).last(),
        ),
{
    let from = lemma_trim_start(s);
    let front = trimmed_start(s);
    let to = lemma_trim_end(front);
    assert(trimmed(s) =~= s.subrange(from, from + to));
    assert forall|i: int| from + to <= i < s.len() implies is_white_space(#[trigger] s[i]) by {
        assert(front[i - from] == s[i]);
    }
    if trimmed(s).len() > 0 {
        assert(trimmed(s)[0] == front[0]);
    }
    (from, from + to)
}

proof fn lemma_trim_start(s: Seq<char>) -> (from: int)
    ensures
        0 <= from <= s.len(),
        trimmed_start(s) == s.skip(from),
        forall|i: int| 0 <= i < from ==> is_white_space(#[trigger] s[i]),
        from < s.len() ==> !is_white_space(s[from]),
    decreases s.len(),
{
    if s.len() > 0 && is_white_space(s[0]) {
        let rest = s.drop_first();
        let n = lemma_trim_start(rest);
        assert(rest.skip(n) =~= s.skip(n + 1));
        assert forall|i: int| 0 <= i < n + 1 implies is_white_space(#[trigger] s[i]) by {
            if i > 0 {
                assert(rest[i - 1] == s[i]);
            }
        }
        if n + 1 < s.len() {
            assert(rest[n] == s[n + 1]);
        }
        n + 1
    } else {
        assert(s.skip(0) =~= s);
        0
    }
}

proof fn lemma_trim_end(s: Seq<char>) -> (to: int)
    ensures
        0 <= to <= s.len(),
        trimmed_end(s) == s.take(to),
        forall|i: int| to <= i < s.len() ==> is_white_space(#[trigger] s[i]),
        to > 0 ==> !is_white_space(s[to - 1]),
    decreases s.len(),
{
    if s.len() > 0 && is_white_space(s.last()) {
        let rest = s.drop_last();
        let n = lemma_trim_end(rest);
        assert(rest.take(n) =~= s.take(n));
        assert forall|i: int| n <= i < s.len() implies is_white_space(#[trigger] s[i]) by {
            if i < s.len() - 1 {
                assert(rest[i] == s[i]);
            }
        }
        n
    } else {
        assert(s.take(s.len() as int) =~= s);
        s.len() as int
    }
}

/// A text without white space is one word, and no word if it is empty.
pub proof fn law_word_without_white_space(s: Seq<char>)
    requires
        forall|i: int| 0 <= i < s.len() ==> !is_white_space(#[trigger] s[i]),
    ensures
        words(s) == if s.len() == 0 {
            Seq::<Seq<char>>::empty()
        } else {
            seq![s]
        },
{
    lemma_word_grows(s, Seq::empty());
    assert(Seq::<char>::empty() + s =~= s);
}

proof fn lemma_word_grows(s: Seq<char>, current: Seq<char>)
    requires
        forall|i: int| 0 <= i < s.len() ==> !is_white_space(#[trigger] s[i]),
    ensures
        words_from(s, current) == if current.len() + s.len() == 0 {
            Seq::<Seq<char>>::empty()
        } else {
            seq![current + s]
        },
    decreases s.len(),
{
    if s.len() > 0 {
        let rest = s.drop_first();
        assert forall|i: int| 0 <= i < rest.len() implies !is_white_space(#[trigger] rest[i]) by {
            assert(rest[i] == s[i + 1]);
        }
        assert(!is_white_space(s[0]));
        lemma_word_grows(rest, current.push(s[0]));
        assert(current.push(s[0]) + rest =~= current + s);
    } else {
        assert(current + s =~= current);
    }
}

/// White space between two texts separates their words.
pub proof fn law_white_space_separates_words(a: Seq<char>, c: char, b: Seq<char>)
    requires
        is_white_space(c),
    ensures
        words(a + seq![c] + b) == words(a) + words(b),
{
    lemma_words_separate(a, c, b, Seq::empty());
}

proof fn lemma_words_separate(a: Seq<char>, c: char, b: Seq<char>, current: Seq<char>)
    requires
        is_white_space(c),
    ensures
        words_from(a + seq![c] + b, current) == words_from(a, current) + words(b),
    decreases a.len(),
{
    let all = a + seq![c] + b;
    if a.len() > 0 {
        assert(all.drop_first() =~= a.drop_first() + seq![c] + b);
        if is_white_space(a[0]) {
            lemma_words_separate(a.drop_first(), c, b, Seq::empty());
        } else {
            lemma_words_separate(a.drop_first(), c, b, current.push(a[0]));
        }
    } else {
        assert(all.drop_first() =~= b);
    }
    assert(words_from(all, current) =~= words_from(a, current) + words(b));
}

/// The line `send`, a contact and an amount sends the amount to the contact, if the
/// amount is a number of 64 bits. Other lines of three words are unknown.
pub proof fn law_send_command(line: Seq<char>)
    requires
        words(line).len() == 3,
    ensures
        meaning(line) == match number(words(line)[2], u64::MAX as nat) {
            Some(amount) => if words(line)[0] == "send"@ {
                CommandView::Send { contact: words(line)[1], amount: amount as u64 }
            } else {
                CommandView::Unknown
            },
            None => CommandView::Unknown,
        },
{
}

/// A line of one word is the command with that name. A line of any other number of
/// words but three is unknown.
pub proof fn law_plain_commands(line: Seq<char>)
    requires
        words(line).len() != 3,
    ensures
        words(line).len() != 1 ==> meaning(line) == CommandView::Unknown,
        words(line).len() == 1 ==> {
            let word = words(line)[0];
            &&& word == "balance"@ <==> meaning(line) == CommandView::Balance
            &&& word == "contacts"@ <==> meaning(line) == CommandView::Contacts
            &&& word == "help"@ <==> meaning(line) == CommandView::Help
            &&& word == "exit"@ || word == "quit"@ <==> meaning(line) == CommandView::Exit
        },
{
    reveal_strlit("balance");
    reveal_strlit("contacts");
    reveal_strlit("help");
    reveal_strlit("exit");
    reveal_strlit("quit");
    assert("balance"@[0] == 'b' && "contacts"@[0] == 'c' && "help"@[0] == 'h');
    assert("exit"@[0] == 'e' && "quit"@[0] == 'q');
}

/// Lines are joined by line feeds: those of two lists by one more.
pub proof fn law_lines_are_joined(a: Seq<Seq<char>>, b: Seq<Seq<char>>)
    ensures
        a.len() > 0 && b.len() > 0 ==> joined(a + b) == joined(a) + seq!['\n'] + joined(b),
        a.len() == 1 ==> joined(a) == a[0],
        a.len() == 0 ==> joined(a).len() == 0,
    decreases b.len(),
{
    reveal_strlit("\n");
    assert("\n"@ =~= seq!['\n']);
    if a.len() > 0 && b.len() > 0 {
        assert((a + b).drop_last() =~= a + b.drop_last());
        if b.len() > 1 {
            law_lines_are_joined(a, b.drop_last());
            assert(joined(a + b) =~= joined(a) + seq!['\n'] + joined(b));
        } else {
            assert(a + b.drop_last() =~= a);
        }
    }
}

/// An amount of coins is shown by its decimal digits.
pub proof fn law_coins_show_the_amount(value: nat)
    ensures
        coins(value).len() == digits_of(value).len() + 6,
        digits_value(coins(value).take(coins(value).len() - 6)) == value,
        coins(value).skip(coins(value).len() - 6) == " coins"@,
{
    reveal_strlit(" coins");
    law_digits_stand_for_the_number(value);
    assert(coins(value).take(coins(value).len() - 6) =~= digits_of(value));
    assert(coins(value).skip(coins(value).len() - 6) =~= " coins"@);
}

/// The digits that are handed to arbitrary-precision arithmetic stand for the number.
pub proof fn law_numeral_stands_for_the_number(n: nat, digit: nat)
    requires
        digit < 10,
    ensures
        decimal_value(decimal(n)) == n,
        decimal(digit) == seq![(48 + digit) as u8],
        n > 0 ==> decimal(10 * n + digit) == decimal(n) + decimal(digit),
{
    lemma_decimal(n);
    if n > 0 {
        let m = 10 * n + digit;
        assert(m / 10 == n && m % 10 == digit);
        assert(decimal(m) =~= decimal(n) + decimal(digit));
    }
}

/// The line of an output tells whether it is about to be spent, and its value.
pub proof fn law_output_line(output: TransactionOutput, pending: bool)
    ensures
        output_line((output, pending)).take(9) == if pending {
            "[pending]"@
        } else {
            "[unspent]"@
        },
        output_line((output, pending)).skip(10) == coins(output.value as nat),
        output_line((output, pending))[9] == ' ',
{
    reveal_strlit("[pending]");
    reveal_strlit("[unspent]");
    reveal_strlit(" ");
    let line = output_line((output, pending));
    assert(line.take(9) =~= if pending {
        "[pending]"@
    } else {
        "[unspent]"@
    });
    assert(line.skip(10) =~= coins(output.value as nat));
}

/// Every output has its line in the list, in the order of the outputs.
pub proof fn law_every_output_is_listed(a: Outputs, b: Outputs)
    requires
        a.len() > 0,
        b.len() > 0,
    ensures
        output_list(a + b) == output_list(a) + seq!['\n'] + output_list(b),
        a.len() == 1 ==> output_list(a) == output_line(a[0]),
        output_list(Seq::empty()) == "No UTXOs found."@,
{
    let line = |e: (TransactionOutput, bool)| output_line(e);
    assert((a + b).map_values(line) =~= a.map_values(line) + b.map_values(line));
    law_lines_are_joined(a.map_values(line), b.map_values(line));
}

/// Every contact has its line in the list, in the order of the contacts.
pub proof fn law_every_contact_is_listed(a: Seq<Recipient>, b: Seq<Recipient>)
    requires
        a.len() > 0,
        b.len() > 0,
    ensures
        contact_list(a) is Some,
        contact_list(b) is Some,
        contact_list(a + b) == Some(
            contact_list(a).unwrap() + seq!['\n'] + contact_list(b).unwrap(),
        ),
        a.len() == 1 ==> contact_list(a) == Some(seq![' ', ' '] + a[0].name@),
        contact_list(Seq::empty()) is None,
{
    reveal_strlit("  ");
    assert("  "@ =~= seq![' ', ' ']);
    let line = |c: Recipient| "  "@ + c.name@;
    assert((a + b).map_values(line) =~= a.map_values(line) + b.map_values(line));
    law_lines_are_joined(a.map_values(line), b.map_values(line));
}

} // verus!
