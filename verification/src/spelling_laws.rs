//! How numbers are spelled, and how texts are cut into words and trimmed.
use vstd::prelude::*;

use crate::text::{
    WordScan, all_digits, decimal, digit, digits_value, hex_padded, is_white, numeral,
    parse_unsigned, quotes_escaped, scan_words, signed_decimal, trim_end_char, without_plus, words,
};

verus! {

/// A number in decimal is made of digits, without a zero before others, and the digits
/// spell the number.
pub proof fn decimals_spell_their_number(n: nat)
    ensures
        decimal(n).len() > 0,
        all_digits(decimal(n)),
        digits_value(decimal(n)) == n,
        decimal(n).len() > 1 ==> decimal(n)[0] != '0',
    decreases n,
{
    let s = decimal(n);
    let zero = '0' as nat;
    assert(zero == 48);
    if n < 10 {
        assert(s =~= seq![digit(n, false)]);
        assert(s.drop_last() =~= Seq::empty());
        assert(digits_value(s.drop_last()) == 0);
        assert(s.last() as nat == 48 + n);
    } else {
        let front = decimal(n / 10);
        decimals_spell_their_number(n / 10);
        assert(s == front.push(digit(n % 10, false)));
        assert(s.drop_last() =~= front);
        assert(s.last() as nat == 48 + n % 10);
        if front.len() == 1 {
            assert(n / 10 >= 1);
            assert(digits_value(front.drop_last()) == 0);
            assert(front.last() as nat - 48 == n / 10);
        }
        assert(s[0] == front[0]);
    }
}

/// Two numbers in decimal differ where the numbers do.
pub proof fn decimals_differ(a: nat, b: nat)
    ensures
        decimal(a) == decimal(b) ==> a == b,
{
    decimals_spell_their_number(a);
    decimals_spell_their_number(b);
}

/// A number in decimal reads back as itself, with a plus sign before it or not.
pub proof fn numbers_read_back(n: u64)
    ensures
        parse_unsigned(decimal(n as nat)) == Some(n),
        parse_unsigned(seq!['+'] + decimal(n as nat)) == Some(n),
{
    let s = decimal(n as nat);
    decimals_spell_their_number(n as nat);
    assert(crate::text::is_digit(s[0]));
    assert(without_plus(s) == s);
    assert((seq!['+'] + s).skip(1) =~= s);
}

/// What is not made of digits, with a plus sign before them or not, is no number; and the
/// number of what is, is the one that its digits spell.
pub proof fn only_digits_are_numbers(s: Seq<char>)
    ensures
        parse_unsigned(s) matches Some(n) ==> {
            let digits = if s[0] == '+' {
                s.skip(1)
            } else {
                s
            };
            digits.len() > 0 && all_digits(digits) && digits_value(digits) == n
        },
{
}

/// A number below zero is spelled with a minus sign, any other without one.
pub proof fn signs_are_spelled(n: int)
    ensures
        n < 0 ==> signed_decimal(n)[0] == '-' && digits_value(signed_decimal(n).skip(1)) == -n,
        n >= 0 ==> all_digits(signed_decimal(n)) && digits_value(signed_decimal(n)) == n,
{
    if n < 0 {
        reveal_strlit("-");
        decimals_spell_their_number((-n) as nat);
        assert(signed_decimal(n).skip(1) =~= decimal((-n) as nat));
    } else {
        decimals_spell_their_number(n as nat);
    }
}

/// The value of a hexadecimal digit.
pub open spec fn hex_digit(c: char) -> nat {
    if '0' <= c <= '9' {
        (c as nat - '0' as nat) as nat
    } else if 'A' <= c <= 'F' {
        (c as nat - 'A' as nat + 10) as nat
    } else if 'a' <= c <= 'f' {
        (c as nat - 'a' as nat + 10) as nat
    } else {
        0
    }
}

/// The number that a row of hexadecimal digits spells.
pub open spec fn hex_value(s: Seq<char>) -> nat
    decreases s.len(),
{
    if s.len() == 0 {
        0
    } else {
        hex_value(s.drop_last()) * 16 + hex_digit(s.last())
    }
}

proof fn numerals_spell_their_number(n: nat, upper: bool)
    ensures
        hex_value(numeral(n, 16, upper)) == n,
    decreases n,
{
    let s = numeral(n, 16, upper);
    assert('0' as nat == 48 && 'A' as nat == 65 && 'a' as nat == 97);
    if n < 16 {
        assert(s =~= seq![digit(n, upper)]);
        assert(s.drop_last() =~= Seq::empty());
        assert(hex_value(s.drop_last()) == 0);
        assert(hex_digit(digit(n, upper)) == n);
    } else {
        numerals_spell_their_number(n / 16, upper);
        assert(s.drop_last() =~= numeral(n / 16, 16, upper));
        assert(hex_digit(digit(n % 16, upper)) == n % 16);
    }
}

proof fn zeros_spell_nothing(zeros: Seq<char>, digits: Seq<char>)
    requires
        forall|i: int| 0 <= i < zeros.len() ==> zeros[i] == '0',
    ensures
        hex_value(zeros + digits) == hex_value(digits),
    decreases zeros.len() + digits.len(),
{
    let all = zeros + digits;
    if digits.len() > 0 {
        assert(all.drop_last() =~= zeros + digits.drop_last());
        zeros_spell_nothing(zeros, digits.drop_last());
    } else if zeros.len() > 0 {
        assert(all.drop_last() =~= zeros.drop_last() + digits);
        zeros_spell_nothing(zeros.drop_last(), digits);
        assert(all.last() == '0');
        assert(hex_digit('0') == 0);
    }
}

/// A number in hexadecimal spells the number, and has as many digits as it should have at
/// the least.
pub proof fn hexadecimals_spell_their_number(n: nat, width: nat, upper: bool)
    ensures
        hex_value(hex_padded(n, width, upper)) == n,
        hex_padded(n, width, upper).len() >= width,
{
    let digits = numeral(n, 16, upper);
    numerals_spell_their_number(n, upper);
    if digits.len() < width {
        zeros_spell_nothing(Seq::new((width - digits.len()) as nat, |i: int| '0'), digits);
    }
}

proof fn scan_goes_on(front: Seq<char>, s: Seq<char>)
    requires
        scan_words(front).current.len() == 0,
    ensures
        scan_words(front + s).done == scan_words(front).done + scan_words(s).done,
        scan_words(front + s).current == scan_words(s).current,
    decreases s.len(),
{
    if s.len() == 0 {
        assert(front + s =~= front);
        assert(scan_words(front).done + Seq::<Seq<char>>::empty() =~= scan_words(front).done);
        assert(scan_words(front).current =~= Seq::empty());
    } else {
        scan_goes_on(front, s.drop_last());
        assert((front + s).drop_last() =~= front + s.drop_last());
        let before = scan_words(s.drop_last());
        let done = scan_words(front).done;
        assert((done + before.done).push(before.current) =~= done + before.done.push(
            before.current,
        ));
    }
}

proof fn scan_of_a_word(w: Seq<char>)
    requires
        forall|i: int| 0 <= i < w.len() ==> !is_white(#[trigger] w[i]),
    ensures
        scan_words(w) == (WordScan { done: Seq::empty(), current: w }),
    decreases w.len(),
{
    if w.len() == 0 {
        assert(w =~= Seq::empty());
    } else {
        let front = w.drop_last();
        assert forall|i: int| 0 <= i < front.len() implies !is_white(#[trigger] front[i]) by {
            assert(front[i] == w[i]);
        }
        scan_of_a_word(front);
        assert(!is_white(w[w.len() - 1]));
        assert(front.push(w.last()) =~= w);
    }
}

/// White space parts the words of a text: what stands before it and what stands behind it
/// have their words for themselves.
pub proof fn white_space_parts_words(a: Seq<char>, c: char, b: Seq<char>)
    requires
        is_white(c),
    ensures
        words(a.push(c) + b) == words(a) + words(b),
{
    assert(a.push(c).drop_last() =~= a);
    scan_goes_on(a.push(c), b);
    let before = words(a);
    let rest = scan_words(b);
    assert((before + rest.done).push(rest.current) =~= before + rest.done.push(rest.current));
}

/// A text without white space is one word, unless it is empty: then it has none.
pub proof fn words_are_whole(w: Seq<char>)
    requires
        forall|i: int| 0 <= i < w.len() ==> !is_white(#[trigger] w[i]),
    ensures
        w.len() > 0 ==> words(w) == seq![w],
        w.len() == 0 ==> words(w).len() == 0,
{
    scan_of_a_word(w);
    if w.len() > 0 {
        assert(words(w) =~= seq![w]);
    }
}

/// A double quote gets a backslash before it, and any other character stays; each for
/// itself, wherever it stands.
pub proof fn quotes_are_escaped_one_by_one(a: Seq<char>, c: char, b: Seq<char>)
    ensures
        quotes_escaped(a.push(c) + b) == quotes_escaped(a) + (if c == '"' {
            seq!['\\', '"']
        } else {
            seq![c]
        }) + quotes_escaped(b),
    decreases b.len(),
{
    let all = a.push(c) + b;
    let own = if c == '"' {
        seq!['\\', '"']
    } else {
        seq![c]
    };
    if b.len() == 0 {
        assert(all =~= a.push(c));
        assert(all.drop_last() =~= a);
        assert(quotes_escaped(all) =~= quotes_escaped(a) + own + quotes_escaped(b));
    } else {
        quotes_are_escaped_one_by_one(a, c, b.drop_last());
        assert(all.drop_last() =~= a.push(c) + b.drop_last());
        assert(quotes_escaped(all) =~= quotes_escaped(a) + own + quotes_escaped(b));
    }
}

/// What is trimmed off the end of a text is all one character, and what is left does not
/// end with it.
pub proof fn ends_are_trimmed(s: Seq<char>, c: char)
    ensures
        ({
            let t = trim_end_char(s, c);
            &&& t.len() <= s.len()
            &&& s.take(t.len() as int) == t
            &&& forall|i: int| t.len() <= i < s.len() ==> s[i] == c
            &&& t.len() > 0 ==> t.last() != c
        }),
    decreases s.len(),
{
    if s.len() > 0 && s.last() == c {
        let front = s.drop_last();
        ends_are_trimmed(front, c);
        let t = trim_end_char(s, c);
        assert(s.take(t.len() as int) =~= front.take(t.len() as int));
        assert forall|i: int| t.len() <= i < s.len() implies s[i] == c by {
            if i < front.len() {
                assert(front[i] == s[i]);
            }
        }
    } else {
        assert(s.take(s.len() as int) =~= s);
    }
}

} // verus!
