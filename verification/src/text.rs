//! Text of diagnostic messages.

use vstd::prelude::*;
use vstd::string::StringExecFns;

verus! {

/// The character of one hexadecimal digit.
pub open spec fn digit(value: nat) -> Seq<char> {
    if value == 0 {
        "0"@
    } else if value == 1 {
        "1"@
    } else if value == 2 {
        "2"@
    } else if value == 3 {
        "3"@
    } else if value == 4 {
        "4"@
    } else if value == 5 {
        "5"@
    } else if value == 6 {
        "6"@
    } else if value == 7 {
        "7"@
    } else if value == 8 {
        "8"@
    } else if value == 9 {
        "9"@
    } else if value == 10 {
        "a"@
    } else if value == 11 {
        "b"@
    } else if value == 12 {
        "c"@
    } else if value == 13 {
        "d"@
    } else if value == 14 {
        "e"@
    } else {
        "f"@
    }
}

/// Decimal text of a number.
pub open spec fn decimal(value: nat) -> Seq<char>
    decreases value,
{
    if value < 10 {
        digit(value)
    } else {
        decimal(value / 10) + digit(value % 10)
    }
}

/// Lower-case hexadecimal text of a number.
pub open spec fn hexadecimal(value: nat) -> Seq<char>
    decreases value,
{
    if value < 16 {
        digit(value)
    } else {
        hexadecimal(value / 16) + digit(value % 16)
    }
}

/// Lower-case hexadecimal text of a number in exactly four digits.
pub open spec fn hexadecimal4(value: u16) -> Seq<char> {
    digit((value / 4096) as nat) + digit(((value / 256) % 16) as nat) + digit(
        ((value / 16) % 16) as nat,
    ) + digit((value % 16) as nat)
}

/// Returns the character of one hexadecimal digit.
pub fn digit_text(value: u64) -> (text: &'static str)
    requires
        value < 16,
    ensures
        text@ == digit(value as nat),
{
    match value {
        0 => "0",
        1 => "1",
        2 => "2",
        3 => "3",
        4 => "4",
        5 => "5",
        6 => "6",
        7 => "7",
        8 => "8",
        9 => "9",
        10 => "a",
        11 => "b",
        12 => "c",
        13 => "d",
        14 => "e",
        _ => "f",
    }
}

/// Returns the decimal text of a number.
pub fn decimal_text(value: u64) -> (text: String)
    ensures
        text@ == decimal(value as nat),
    decreases value,
{
    if value < 10 {
        String::from_str(digit_text(value))
    } else {
        decimal_text(value / 10).concat(digit_text(value % 10))
    }
}

/// Returns the lower-case hexadecimal text of a number.
pub fn hexadecimal_text(value: u64) -> (text: String)
    ensures
        text@ == hexadecimal(value as nat),
    decreases value,
{
    if value < 16 {
        String::from_str(digit_text(value))
    } else {
        hexadecimal_text(value / 16).concat(digit_text(value % 16))
    }
}

/// Returns the four-digit hexadecimal text of a 16-bit number.
pub fn hexadecimal4_text(value: u16) -> (text: String)
    ensures
        text@ == hexadecimal4(value),
{
    String::from_str(digit_text((value / 4096) as u64)).concat(
        digit_text(((value / 256) % 16) as u64),
    ).concat(digit_text(((value / 16) % 16) as u64)).concat(digit_text((value % 16) as u64))
}

/// Returns a fixed text.
pub fn fixed(text: &'static str) -> (owned: String)
    ensures
        owned@ == text@,
{
    String::from_str(text)
}

/// Returns `before`, the decimal text of `value` and `after` in a row.
pub fn with_number(before: &'static str, value: u64, after: &'static str) -> (text: String)
    ensures
        text@ == before@ + decimal(value as nat) + after@,
{
    String::from_str(before).concat(decimal_text(value).as_str()).concat(after)
}

/// Returns a text with two decimal numbers in it.
pub fn with_two_numbers(
    before: &'static str,
    first: u64,
    between: &'static str,
    second: u64,
    after: &'static str,
) -> (text: String)
    ensures
        text@ == before@ + decimal(first as nat) + between@ + decimal(second as nat) + after@,
{
    with_number(before, first, between).concat(decimal_text(second).as_str()).concat(after)
}

/// The decimal texts of a byte string's bytes with commas between them.
pub open spec fn byte_items(bytes: Seq<u8>) -> Seq<char>
    decreases bytes.len(),
{
    if bytes.len() == 0 {
        Seq::empty()
    } else if bytes.len() == 1 {
        decimal(bytes[0] as nat)
    } else {
        byte_items(bytes.drop_last()) + ", "@ + decimal(bytes.last() as nat)
    }
}

/// The text of a byte string as a list of decimal numbers.
pub open spec fn byte_list(bytes: Seq<u8>) -> Seq<char> {
    "["@ + byte_items(bytes) + "]"@
}

/// Returns the text of a byte string as a list of decimal numbers.
pub fn byte_list_text(bytes: &[u8]) -> (text: String)
    ensures
        text@ == byte_list(bytes@),
{
    let mut items: String = String::from_str("");
    proof {
        reveal_strlit("");
        assert(items@ =~= byte_items(bytes@.take(0)));
    }
    let mut i: usize = 0;
    while i < bytes.len()
        invariant
            i <= bytes@.len(),
            items@ == byte_items(bytes@.take(i as int)),
        decreases bytes@.len() - i,
    {
        proof {
            let next = bytes@.take(i + 1);
            assert(next.drop_last() =~= bytes@.take(i as int));
            assert(next.last() == bytes@[i as int]);
        }
        if i == 0 {
            items = decimal_text(bytes[i] as u64);
        } else {
            items = items.concat(", ").concat(decimal_text(bytes[i] as u64).as_str());
        }
        i = i + 1;
    }
    assert(bytes@.take(bytes@.len() as int) =~= bytes@);
    String::from_str("[").concat(items.as_str()).concat("]")
}

/// A list of items with one more item in it, if the item is present.
pub open spec fn with_item(list: Seq<char>, present: bool, item: Seq<char>) -> Seq<char> {
    if !present {
        list
    } else if list.len() == 0 {
        item
    } else {
        list + ", "@ + item
    }
}

/// Returns a list of items with one more item in it, if the item is present.
pub fn with_item_text(list: String, present: bool, item: &'static str) -> (extended: String)
    ensures
        extended@ == with_item(list@, present, item@),
{
    if !present {
        return list;
    }
    if list.as_str().is_empty() {
        return String::from_str(item);
    }
    list.concat(", ").concat(item)
}

} // verus!
