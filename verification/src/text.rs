//! Decimal and hexadecimal text.
use vstd::prelude::*;

verus! {

/// The character of a decimal digit.
pub open spec fn digit_char(d: nat) -> char {
    (48 + d) as char
}

/// The decimal text of a number: no sign, no leading zero.
pub open spec fn decimal(n: nat) -> Seq<char>
    decreases n,
{
    if n < 10 {
        seq![digit_char(n)]
    } else {
        decimal(n / 10).push(digit_char(n % 10))
    }
}

/// The character of a lower-case hexadecimal digit.
pub open spec fn hex_char(d: nat) -> char {
    if d < 10 {
        (48 + d) as char
    } else {
        (87 + d) as char
    }
}

/// The lower-case hexadecimal text of some bytes, two characters a byte, high half first.
pub open spec fn hex(bytes: Seq<u8>) -> Seq<char> {
    Seq::new(
        2 * bytes.len(),
        |i: int|
            if i % 2 == 0 {
                hex_char(bytes[i / 2] as nat / 16)
            } else {
                hex_char(bytes[i / 2] as nat % 16)
            },
    )
}

/// The one-character text of a hexadecimal digit.
fn digit_text(d: u8) -> (s: &'static str)
    requires
        d < 16,
    ensures
        s@ == seq![hex_char(d as nat)],
{
    proof {
        reveal_strlit("0");
        reveal_strlit("1");
        reveal_strlit("2");
        reveal_strlit("3");
        reveal_strlit("4");
        reveal_strlit("5");
        reveal_strlit("6");
        reveal_strlit("7");
        reveal_strlit("8");
        reveal_strlit("9");
        reveal_strlit("a");
        reveal_strlit("b");
        reveal_strlit("c");
        reveal_strlit("d");
        reveal_strlit("e");
        reveal_strlit("f");
    }
    match d {
        0 => "0",
        1 => "1",
        2 => "2",
        3 => "3",
        4 => "4",
        5 => "5",
        6 => "6",
        7 => "7",
        8 => "8",
        9 => "9",
        10 => "a",
        11 => "b",
        12 => "c",
        13 => "d",
        14 => "e",
        _ => "f",
    }
}

/// Writes a number in decimal.
pub fn decimal_text(n: u64) -> (s: String)
    ensures
        s@ == decimal(n as nat),
    decreases n,
{
    let mut s = if n < 10 {
        String::new()
    } else {
        decimal_text(n / 10)
    };
    s.append(digit_text((n % 10) as u8));
    s
}

/// Writes some bytes in lower-case hexadecimal.
pub fn hex_text(bytes: &[u8]) -> (s: String)
    ensures
        s@ == hex(bytes@),
{
    let mut s = String::new();
    let mut i: usize = 0;
    while i < bytes.len()
        invariant
            i <= bytes@.len(),
            s@ == hex(bytes@.take(i as int)),
        decreases bytes@.len() - i,
    {
        let b = bytes[i];
        s.append(digit_text(b / 16));
        s.append(digit_text(b % 16));
        i = i + 1;
        assert(s@ =~= hex(bytes@.take(i as int)));
    }
    assert(bytes@.take(bytes@.len() as int) =~= bytes@);
    s
}

/// The number that decimal digits stand for, the last digit counting ones.
pub open spec fn number_of(digits: Seq<char>) -> int
    decreases digits.len(),
{
    if digits.len() == 0 {
        0
    } else {
        10 * number_of(digits.drop_last()) + (digits.last() as int - '0' as int)
    }
}

/// Whether the text is one or more decimal digits, the first of several not being zero.
pub open spec fn is_number(text: Seq<char>) -> bool {
    &&& text.len() > 0
    &&& forall|i: int| 0 <= i < text.len() ==> '0' <= #[trigger] text[i] <= '9'
    &&& text.len() > 1 ==> text[0] != '0'
}

/// The decimal text of a number is digits without a leading zero, and they stand for that number.
pub proof fn decimal_text_stands_for_its_number(n: nat)
    ensures
        is_number(decimal(n)),
        number_of(decimal(n)) == n,
        n > 0 ==> decimal(n)[0] != '0',
    decreases n,
{
    if n < 10 {
        assert(decimal(n).drop_last() =~= Seq::empty());
        assert(number_of(decimal(n).drop_last()) == 0);
    } else {
        decimal_text_stands_for_its_number(n / 10);
        let d = decimal(n);
        assert(d.drop_last() =~= decimal(n / 10));
        assert(d[0] == decimal(n / 10)[0]);
        assert forall|i: int| 0 <= i < d.len() implies '0' <= #[trigger] d[i] <= '9' by {
            if i < d.len() - 1 {
                assert(d[i] == decimal(n / 10)[i]);
            }
        }
    }
}

/// Digits without a leading zero are the decimal text of the number that they stand for, and of no
/// other.
pub proof fn digits_are_the_text_of_their_number(text: Seq<char>)
    requires
        is_number(text),
    ensures
        number_of(text) >= 0,
        text.len() > 1 ==> number_of(text) >= 10,
        decimal(number_of(text) as nat) == text,
    decreases text.len(),
{
    let some = text.drop_last();
    let last = text.last() as int - '0' as int;
    assert('0' <= text[text.len() - 1] <= '9');
    if text.len() == 1 {
        assert(number_of(some) == 0);
        assert(decimal(number_of(text) as nat) =~= text);
    } else {
        assert forall|i: int| 0 <= i < some.len() implies '0' <= #[trigger] some[i] <= '9' by {
            assert(some[i] == text[i]);
        }
        assert(some[0] == text[0]);
        digits_are_the_text_of_their_number(some);
        if some.len() == 1 {
            assert(number_of(some.drop_last()) == 0);
            assert(number_of(some) == some[0] as int - '0' as int);
        }
        let n = number_of(text) as nat;
        assert(n / 10 == number_of(some));
        assert(n % 10 == last);
        assert(decimal(n) =~= text);
    }
}

/// Different numbers have different decimal texts.
pub proof fn decimal_texts_differ(a: nat, b: nat)
    requires
        decimal(a) == decimal(b),
    ensures
        a == b,
{
    decimal_text_stands_for_its_number(a);
    decimal_text_stands_for_its_number(b);
}

/// What a lower-case hexadecimal digit stands for; -1 for another character.
pub open spec fn hex_value(c: char) -> int {
    if '0' <= c <= '9' {
        c as int - '0' as int
    } else if 'a' <= c <= 'f' {
        c as int - 'a' as int + 10
    } else {
        -1
    }
}

/// The hexadecimal text of some bytes has two digits for each byte, and they stand for it.
pub proof fn hex_text_stands_for_its_bytes(bytes: Seq<u8>)
    ensures
        hex(bytes).len() == 2 * bytes.len(),
        forall|i: int|
            #![trigger bytes[i]]
            0 <= i < bytes.len() ==> {
                &&& 0 <= hex_value(hex(bytes)[2 * i]) < 16
                &&& 0 <= hex_value(hex(bytes)[2 * i + 1]) < 16
                &&& 16 * hex_value(hex(bytes)[2 * i]) + hex_value(hex(bytes)[2 * i + 1]) == bytes[i]
            },
{
    assert forall|i: int| #![trigger bytes[i]] 0 <= i < bytes.len() implies {
        &&& 0 <= hex_value(hex(bytes)[2 * i]) < 16
        &&& 0 <= hex_value(hex(bytes)[2 * i + 1]) < 16
        &&& 16 * hex_value(hex(bytes)[2 * i]) + hex_value(hex(bytes)[2 * i + 1]) == bytes[i]
    } by {
        assert((2 * i) / 2 == i && (2 * i + 1) / 2 == i);
        assert((2 * i) % 2 == 0 && (2 * i + 1) % 2 == 1);
        let high = bytes[i] as nat / 16;
        let low = bytes[i] as nat % 16;
        assert(hex(bytes)[2 * i] == hex_char(high));
        assert(hex(bytes)[2 * i + 1] == hex_char(low));
    }
}

} // verus!
