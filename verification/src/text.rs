//! Text made of pieces and of numbers.

use vstd::prelude::*;

verus! {

/// The character of a decimal digit.
pub open spec fn digit_char(digit: nat) -> char {
    ('0' as nat + digit) as char
}

/// The decimal digits of a number.
pub open spec fn decimal(number: nat) -> Seq<char>
    decreases number,
{
    if number < 10 {
        seq![digit_char(number)]
    } else {
        decimal(number / 10).push(digit_char(number % 10))
    }
}

/// A copy of a text.
pub fn copied(words: &str) -> (result: String)
    ensures
        result@ == words@,
{
    String::from_str(words)
}

/// One text after another.
pub fn joined(first: &str, second: &str) -> (result: String)
    ensures
        result@ == first@ + second@,
{
    let mut result: String = String::from_str(first);
    result.append(second);
    result
}

/// The text of a decimal digit.
fn digit(number: u64) -> (result: &'static str)
    requires
        number < 10,
    ensures
        result@ == seq![digit_char(number as nat)],
{
    proof {
        reveal_strlit("0");
        reveal_strlit("1");
        reveal_strlit("2");
        reveal_strlit("3");
        reveal_strlit("4");
        reveal_strlit("5");
        reveal_strlit("6");
        reveal_strlit("7");
        reveal_strlit("8");
        reveal_strlit("9");
    }
    match number {
        0 => "0",
        1 => "1",
        2 => "2",
        3 => "3",
        4 => "4",
        5 => "5",
        6 => "6",
        7 => "7",
        8 => "8",
        _ => "9",
    }
}

/// The decimal text of a number.
pub fn decimal_string(number: u64) -> (result: String)
    ensures
        result@ == decimal(number as nat),
{
    large_decimal_string(number as u128)
}

/// The decimal text of a large number.
pub fn large_decimal_string(number: u128) -> (result: String)
    ensures
        result@ == decimal(number as nat),
    decreases number,
{
    if number < 10 {
        String::from_str(digit(number as u64))
    } else {
        let mut result: String = large_decimal_string(number / 10);
        result.append(digit((number % 10) as u64));
        result
    }
}

/// The number that some decimal digits stand for.
pub open spec fn number_of(digits: Seq<char>) -> int
    decreases digits.len(),
{
    if digits.len() == 0 {
        0
    } else {
        10 * number_of(digits.drop_last()) + (digits.last() as int - '0' as int)
    }
}

/// The digits of a number give the number back. They are decimal digits, and
/// the first is a zero only in the number zero.
pub proof fn the_digits_of_a_number_give_it_back(number: nat)
    ensures
        number_of(decimal(number)) == number,
        decimal(number).len() > 0,
        forall|i: int| 0 <= i < decimal(number).len() ==> '0' <= #[trigger] decimal(number)[i] <= '9',
        decimal(number)[0] == '0' <==> number == 0,
    decreases number,
{
    let digits = decimal(number);
    reveal_with_fuel(number_of, 2);
    if number < 10 {
        assert(digits.drop_last() =~= Seq::empty());
    } else {
        the_digits_of_a_number_give_it_back(number / 10);
        assert(digits.drop_last() =~= decimal(number / 10));
    }
}

} // verus!
