//! Numbers as text.

use vstd::prelude::*;

verus! {

/// The lower-case digit of value `d`.
pub open spec fn digit(d: nat) -> char {
    if d < 10 {
        (48 + d) as char
    } else {
        (87 + d) as char
    }
}

/// `n` written in `base`, most significant digit first, without leading zeros.
pub open spec fn numeral(n: nat, base: nat) -> Seq<char>
    decreases n,
{
    if n < base || base < 2 {
        seq![digit(n)]
    } else {
        proof {
            vstd::arithmetic::div_mod::lemma_div_decreases(n as int, base as int);
        }
        numeral(n / base, base).push(digit(n % base))
    }
}

/// A decimal numeral is made of the ten digits, and no two numbers have the same one.
pub proof fn decimal_numerals_differ(m: nat, n: nat)
    ensures
        forall|i: int|
            0 <= i < numeral(m, 10).len() ==> '0' <= #[trigger] numeral(m, 10)[i] <= '9',
        numeral(m, 10) == numeral(n, 10) ==> m == n,
    decreases m,
{
    let a = numeral(m, 10);
    let b = numeral(n, 10);
    if m >= 10 {
        decimal_numerals_differ(m / 10, n / 10);
        assert(a.drop_last() =~= numeral(m / 10, 10));
        assert(a.last() == digit(m % 10));
        lemma_numeral_is_not_empty(m / 10);
        if n >= 10 {
            assert(b.drop_last() =~= numeral(n / 10, 10));
            assert(b.last() == digit(n % 10));
        }
    } else {
        assert(a.last() == digit(m));
        if n >= 10 {
            lemma_numeral_is_not_empty(n / 10);
        } else {
            assert(b.last() == digit(n));
        }
    }
}

proof fn lemma_numeral_is_not_empty(n: nat)
    ensures
        numeral(n, 10).len() > 0,
{
}

fn digit_text(d: u64) -> (text: &'static str)
    requires
        d < 16,
    ensures
        text@ == seq![digit(d as nat)],
{
    proof {
        reveal_strlit("0");
        reveal_strlit("1");
        reveal_strlit("2");
        reveal_strlit("3");
        reveal_strlit("4");
        reveal_strlit("5");
        reveal_strlit("6");
        reveal_strlit("7");
        reveal_strlit("8");
        reveal_strlit("9");
        reveal_strlit("a");
        reveal_strlit("b");
        reveal_strlit("c");
        reveal_strlit("d");
        reveal_strlit("e");
        reveal_strlit("f");
    }
    let text: &'static str = match d {
        0 => "0",
        1 => "1",
        2 => "2",
        3 => "3",
        4 => "4",
        5 => "5",
        6 => "6",
        7 => "7",
        8 => "8",
        9 => "9",
        10 => "a",
        11 => "b",
        12 => "c",
        13 => "d",
        14 => "e",
        _ => "f",
    };
    assert(text@ =~= seq![digit(d as nat)]);
    text
}

fn write_numeral(n: u64, base: u64) -> (text: String)
    requires
        2 <= base <= 16,
    ensures
        text@ == numeral(n as nat, base as nat),
    decreases n,
{
    if n < base {
        digit_text(n).to_string()
    } else {
        proof {
            vstd::arithmetic::div_mod::lemma_div_decreases(n as int, base as int);
        }
        let mut text = write_numeral(n / base, base);
        let ghost head = text@;
        text.append(digit_text(n % base));
        assert(text@ =~= head.push(digit((n % base) as nat)));
        text
    }
}

/// `n` in decimal.
pub fn decimal(n: u64) -> (text: String)
    ensures
        text@ == numeral(n as nat, 10),
{
    write_numeral(n, 10)
}

/// `n` in lower-case hexadecimal, without a prefix.
pub fn lower_hex(n: u64) -> (text: String)
    ensures
        text@ == numeral(n as nat, 16),
{
    write_numeral(n, 16)
}

/// `a` followed by `b`.
pub fn joined(a: &str, b: &str) -> (text: String)
    ensures
        text@ == a@ + b@,
{
    let mut text = a.to_string();
    text.append(b);
    text
}

} // verus!
