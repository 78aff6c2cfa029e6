//! Numbers as text.
use vstd::prelude::*;

verus! {

/// The character of a digit below 16, with small letters.
pub open spec fn digit(value: nat) -> char {
    if value < 10 {
        (0x30 + value) as char
    } else {
        (0x57 + value) as char
    }
}

/// The digits of a number, the highest first.
pub open spec fn digits(value: nat, base: nat) -> Seq<char>
    decreases value,
{
    if base < 2 || value < base {
        seq![digit(value)]
    } else {
        proof {
            assert(value / base < value) by (nonlinear_arith)
                requires
                    value >= base,
                    base >= 2,
            ;
        }
        digits(value / base, base).push(digit(value % base))
    }
}

/// The digits of a number, with zeros in front up to `width` characters.
pub open spec fn padded_digits(value: nat, base: nat, width: nat) -> Seq<char> {
    let plain = digits(value, base);
    if plain.len() >= width {
        plain
    } else {
        Seq::new((width - plain.len()) as nat, |i: int| '0') + plain
    }
}

/// The text of one digit.
fn digit_text(value: u64) -> (r: &'static str)
    requires
        value < 16,
    ensures
        r@ == seq![digit(value as nat)],
{
    proof {
        reveal_strlit("0");
        reveal_strlit("1");
        reveal_strlit("2");
        reveal_strlit("3");
        reveal_strlit("4");
        reveal_strlit("5");
        reveal_strlit("6");
        reveal_strlit("7");
        reveal_strlit("8");
        reveal_strlit("9");
        reveal_strlit("a");
        reveal_strlit("b");
        reveal_strlit("c");
        reveal_strlit("d");
        reveal_strlit("e");
        reveal_strlit("f");
    }
    let text: &'static str = match value {
        0 => "0",
        1 => "1",
        2 => "2",
        3 => "3",
        4 => "4",
        5 => "5",
        6 => "6",
        7 => "7",
        8 => "8",
        9 => "9",
        10 => "a",
        11 => "b",
        12 => "c",
        13 => "d",
        14 => "e",
        _ => "f",
    };
    assert(text@ =~= seq![digit(value as nat)]);
    text
}

/// Writes a number down.
pub fn number_text(value: u64, base: u64) -> (r: String)
    requires
        2 <= base <= 16,
    ensures
        r@ == digits(value as nat, base as nat),
    decreases value,
{
    if value < base {
        let mut text: String = String::new();
        text.append(digit_text(value));
        assert(text@ =~= digits(value as nat, base as nat));
        text
    } else {
        assert(value / base < value) by (nonlinear_arith)
            requires
                value >= base,
                base >= 2,
        ;
        let mut text: String = number_text(value / base, base);
        assert(value % base < base) by (nonlinear_arith)
            requires
                base >= 2,
        ;
        text.append(digit_text(value % base));
        assert(text@ =~= digits(value as nat, base as nat));
        text
    }
}

/// Writes a number down with at least `width` characters.
pub fn padded_number_text(value: u64, base: u64, width: usize) -> (r: String)
    requires
        2 <= base <= 16,
    ensures
        r@ == padded_digits(value as nat, base as nat, width as nat),
{
    let plain: String = number_text(value, base);
    let len: usize = plain.as_str().unicode_len();
    if len >= width {
        return plain;
    }
    let mut text: String = String::new();
    for i in 0..width - len
        invariant
            text@ == Seq::new(i as nat, |k: int| '0'),
    {
        text.append("0");
        proof {
            reveal_strlit("0");
        }
        assert(text@ =~= Seq::new((i + 1) as nat, |k: int| '0'));
    }
    text.append(plain.as_str());
    text
}

/// The number that a digit stands for.
pub open spec fn digit_value(c: char) -> nat {
    if c <= '9' {
        (c as int - 0x30) as nat
    } else {
        (c as int - 0x57) as nat
    }
}

/// The number that a text stands for.
pub open spec fn number(text: Seq<char>, base: nat) -> nat
    decreases text.len(),
{
    if text.len() == 0 {
        0
    } else {
        number(text.drop_last(), base) * base + digit_value(text.last())
    }
}

/// A number that was written down reads back.
pub proof fn law_digits_read_back(value: nat, base: nat, width: nat)
    requires
        2 <= base <= 16,
    ensures
        number(digits(value, base), base) == value,
        number(padded_digits(value, base, width), base) == value,
    decreases value,
{
    if value < base {
        let front = digits(value, base).drop_last();
        assert(front =~= Seq::empty());
        assert(number(front, base) * base == 0) by (nonlinear_arith)
            requires
                number(front, base) == 0,
        ;
        assert(digit_value(digit(value)) == value);
    } else {
        assert(value / base < value) by (nonlinear_arith)
            requires
                value >= base,
                base >= 2,
        ;
        law_digits_read_back(value / base, base, 0);
        vstd::arithmetic::div_mod::lemma_fundamental_div_mod(value as int, base as int);
        assert(digits(value, base).drop_last() =~= digits(value / base, base));
        assert(value % base < base) by (nonlinear_arith)
            requires
                base >= 2,
        ;
        assert(base * (value / base) == (value / base) * base) by (nonlinear_arith);
        assert(digit_value(digit(value % base)) == value % base);
    }
    let plain = digits(value, base);
    if plain.len() < width {
        lemma_leading_zeros((width - plain.len()) as nat, plain, base);
    }
}

/// Zeros in front do not change a number.
proof fn lemma_leading_zeros(count: nat, text: Seq<char>, base: nat)
    ensures
        number(Seq::new(count, |i: int| '0') + text, base) == number(text, base),
    decreases count + text.len(),
{
    let zeros = Seq::new(count, |i: int| '0');
    if text.len() > 0 {
        lemma_leading_zeros(count, text.drop_last(), base);
        assert((zeros + text).drop_last() =~= zeros + text.drop_last());
    } else if count > 0 {
        lemma_leading_zeros((count - 1) as nat, text, base);
        assert((zeros + text).drop_last() =~= Seq::new((count - 1) as nat, |i: int| '0') + text);
        assert(0 * base == 0);
    } else {
        assert(zeros + text =~= text);
    }
}

} // verus!
