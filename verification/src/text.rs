//! Numbers as text.

use vstd::prelude::*;
use vstd::string::StringExecFns;

verus! {

/// A decimal digit.
pub open spec fn digit_char(d: nat) -> char {
    if d == 0 {
        '0'
    } else if d == 1 {
        '1'
    } else if d == 2 {
        '2'
    } else if d == 3 {
        '3'
    } else if d == 4 {
        '4'
    } else if d == 5 {
        '5'
    } else if d == 6 {
        '6'
    } else if d == 7 {
        '7'
    } else if d == 8 {
        '8'
    } else {
        '9'
    }
}

/// A number in decimal, without leading zeros.
pub open spec fn decimal_text(n: nat) -> Seq<char>
    decreases n,
{
    if n < 10 {
        seq![digit_char(n)]
    } else {
        decimal_text(n / 10).push(digit_char(n % 10))
    }
}

fn digit(d: u64) -> (text: &'static str)
    requires
        d < 10,
    ensures
        text@ == seq![digit_char(d as nat)],
{
    proof {
        reveal_strlit("0");
        reveal_strlit("1");
        reveal_strlit("2");
        reveal_strlit("3");
        reveal_strlit("4");
        reveal_strlit("5");
        reveal_strlit("6");
        reveal_strlit("7");
        reveal_strlit("8");
        reveal_strlit("9");
    }
    if d == 0 {
        "0"
    } else if d == 1 {
        "1"
    } else if d == 2 {
        "2"
    } else if d == 3 {
        "3"
    } else if d == 4 {
        "4"
    } else if d == 5 {
        "5"
    } else if d == 6 {
        "6"
    } else if d == 7 {
        "7"
    } else if d == 8 {
        "8"
    } else {
        "9"
    }
}

/// Write a number in decimal.
pub fn decimal(n: u64) -> (text: String)
    ensures
        text@ == decimal_text(n as nat),
    decreases n,
{
    if n < 10 {
        return String::from_str(digit(n));
    }
    let mut text: String = decimal(n / 10);
    text.append(digit(n % 10));
    assert(text@ =~= decimal_text(n as nat));
    text
}

/// The number that decimal text stands for.
pub open spec fn decimal_value(text: Seq<char>) -> nat
    decreases text.len(),
{
    if text.len() == 0 {
        0
    } else {
        10 * decimal_value(text.drop_last()) + digit_value(text.last())
    }
}

/// The value of a decimal digit.
pub open spec fn digit_value(c: char) -> nat {
    if c == '1' {
        1
    } else if c == '2' {
        2
    } else if c == '3' {
        3
    } else if c == '4' {
        4
    } else if c == '5' {
        5
    } else if c == '6' {
        6
    } else if c == '7' {
        7
    } else if c == '8' {
        8
    } else if c == '9' {
        9
    } else {
        0
    }
}

/// The last digit of a number in decimal is its remainder by ten, as ASCII, and
/// what stands before it is the number without that digit.
pub proof fn decimal_ends_with_its_last_digit(n: nat)
    ensures
        decimal_text(n).len() > 0,
        decimal_text(n).last() as int == 48 + n % 10,
        n < 10 ==> decimal_text(n).len() == 1,
        n >= 10 ==> decimal_text(n).drop_last() == decimal_text(n / 10),
{
}

/// Text in decimal can be read back.
pub proof fn decimal_reads_back(n: nat)
    ensures
        decimal_value(decimal_text(n)) == n,
    decreases n,
{
    let text = decimal_text(n);
    if n < 10 {
        assert(text.drop_last() =~= Seq::<char>::empty());
        assert(decimal_value(text.drop_last()) == 0);
    } else {
        assert(text.drop_last() =~= decimal_text(n / 10));
        decimal_reads_back(n / 10);
    }
}

/// Different numbers have different texts.
pub proof fn decimal_is_injective(a: nat, b: nat)
    requires
        decimal_text(a) == decimal_text(b),
    ensures
        a == b,
{
    decimal_reads_back(a);
    decimal_reads_back(b);
}

/// A number of millionths in decimal: whole ones, a point, and six digits.
pub open spec fn millionths_text(n: nat) -> Seq<char> {
    decimal_text(n / 1_000_000) + "."@ + seq![
        digit_char(n / 100_000 % 10),
        digit_char(n / 10_000 % 10),
        digit_char(n / 1_000 % 10),
        digit_char(n / 100 % 10),
        digit_char(n / 10 % 10),
        digit_char(n % 10),
    ]
}

/// A hexadecimal digit, in lower case.
pub open spec fn hex_char(d: int) -> char {
    if d == 10 {
        'a'
    } else if d == 11 {
        'b'
    } else if d == 12 {
        'c'
    } else if d == 13 {
        'd'
    } else if d == 14 {
        'e'
    } else if d == 15 {
        'f'
    } else {
        digit_char(d as nat)
    }
}

/// A number in four hexadecimal digits behind `0x`.
pub open spec fn hex_text(n: u16) -> Seq<char> {
    "0x"@ + seq![
        hex_char(n as int / 4096),
        hex_char(n as int / 256 % 16),
        hex_char(n as int / 16 % 16),
        hex_char(n as int % 16),
    ]
}

/// The value of a hexadecimal digit in lower case, by its ASCII code.
pub open spec fn hex_value(c: char) -> int {
    if c as int >= 97 {
        c as int - 87
    } else {
        c as int - 48
    }
}

/// Text in hexadecimal is `0x` and four digits, and can be read back.
pub proof fn hex_reads_back(n: u16)
    ensures
        hex_text(n).len() == 6,
        hex_text(n)[0] == '0',
        hex_text(n)[1] == 'x',
        4096 * hex_value(hex_text(n)[2]) + 256 * hex_value(hex_text(n)[3]) + 16 * hex_value(
            hex_text(n)[4],
        ) + hex_value(hex_text(n)[5]) == n,
{
    reveal_strlit("0x");
    let v = n as int;
    assert(0 <= v / 4096 < 16);
    assert(hex_value(hex_text(n)[2]) == v / 4096);
    assert(hex_value(hex_text(n)[3]) == v / 256 % 16);
    assert(hex_value(hex_text(n)[4]) == v / 16 % 16);
    assert(hex_value(hex_text(n)[5]) == v % 16);
}

proof fn lemma_digit(d: nat)
    requires
        d < 10,
    ensures
        digit_char(d) as int == 48 + d,
{
}

proof fn lemma_six_digits(n: nat)
    ensures
        100_000 * (n / 100_000 % 10) + 10_000 * (n / 10_000 % 10) + 1_000 * (n / 1_000 % 10) + 100
            * (n / 100 % 10) + 10 * (n / 10 % 10) + n % 10 == n % 1_000_000,
{
    let a: nat = n / 10;
    let b: nat = a / 10;
    let c: nat = b / 10;
    let d: nat = c / 10;
    let e: nat = d / 10;
    let f: nat = e / 10;
    assert(n / 100 == b);
    assert(n / 1_000 == c) by {
        assert(n / 1_000 == b / 10);
    }
    assert(n / 10_000 == d) by {
        assert(n / 10_000 == c / 10);
    }
    assert(n / 100_000 == e) by {
        assert(n / 100_000 == d / 10);
    }
    let low = 100_000 * (e % 10) + 10_000 * (d % 10) + 1_000 * (c % 10) + 100 * (b % 10) + 10 * (a
        % 10) + n % 10;
    assert(n == 1_000_000 * f + low);
    assert(0 <= low < 1_000_000);
    assert(low == n % 1_000_000) by {
        vstd::arithmetic::div_mod::lemma_fundamental_div_mod_converse(
            n as int,
            1_000_000,
            f as int,
            low as int,
        );
    }
}

/// Six digits behind the point stand for the millionths, whole ones before it.
pub proof fn millionths_read_back(n: nat)
    ensures
        ({
            let text = millionths_text(n);
            let point = text.len() - 7;
            &&& point >= 1
            &&& text[point] == '.'
            &&& decimal_value(text.take(point)) == n / 1_000_000
            &&& 100_000 * (text[point + 1] as int - 48) + 10_000 * (text[point + 2] as int - 48)
                + 1_000 * (text[point + 3] as int - 48) + 100 * (text[point + 4] as int - 48)
                + 10 * (text[point + 5] as int - 48) + (text[point + 6] as int - 48) == n
                % 1_000_000
        }),
{
    reveal_strlit(".");
    let text = millionths_text(n);
    let whole = decimal_text(n / 1_000_000);
    let point = whole.len() as int;
    assert(text.len() == point + 7);
    assert(point >= 1) by {
        decimal_ends_with_its_last_digit(n / 1_000_000);
    }
    decimal_reads_back(n / 1_000_000);
    assert(text.take(point) =~= whole);
    assert(text[point + 1] == digit_char(n / 100_000 % 10));
    assert(text[point + 2] == digit_char(n / 10_000 % 10));
    assert(text[point + 3] == digit_char(n / 1_000 % 10));
    assert(text[point + 4] == digit_char(n / 100 % 10));
    assert(text[point + 5] == digit_char(n / 10 % 10));
    assert(text[point + 6] == digit_char(n % 10));
    lemma_digit(n / 100_000 % 10);
    lemma_digit(n / 10_000 % 10);
    lemma_digit(n / 1_000 % 10);
    lemma_digit(n / 100 % 10);
    lemma_digit(n / 10 % 10);
    lemma_digit(n % 10);
    lemma_six_digits(n);
}

fn hex_digit(d: u16) -> (text: &'static str)
    requires
        d < 16,
    ensures
        text@ == seq![hex_char(d as int)],
{
    proof {
        reveal_strlit("a");
        reveal_strlit("b");
        reveal_strlit("c");
        reveal_strlit("d");
        reveal_strlit("e");
        reveal_strlit("f");
    }
    if d < 10 {
        digit(d as u64)
    } else if d == 10 {
        "a"
    } else if d == 11 {
        "b"
    } else if d == 12 {
        "c"
    } else if d == 13 {
        "d"
    } else if d == 14 {
        "e"
    } else {
        "f"
    }
}

/// Write a number in four hexadecimal digits behind `0x`.
pub fn hex(n: u16) -> (text: String)
    ensures
        text@ == hex_text(n),
{
    let mut text: String = String::from_str("0x");
    text.append(hex_digit(n / 4096));
    text.append(hex_digit(n / 256 % 16));
    text.append(hex_digit(n / 16 % 16));
    text.append(hex_digit(n % 16));
    assert(text@ =~= hex_text(n));
    text
}

} // verus!
