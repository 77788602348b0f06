//! Decimal notation for unsigned integers.

use vstd::prelude::*;
use vstd::string::StringExecFns;

verus! {

/// The character that writes the digit `d`.
pub open spec fn digit(d: nat) -> char
    recommends
        d < 10,
{
    if d == 0 {
        '0'
    } else if d == 1 {
        '1'
    } else if d == 2 {
        '2'
    } else if d == 3 {
        '3'
    } else if d == 4 {
        '4'
    } else if d == 5 {
        '5'
    } else if d == 6 {
        '6'
    } else if d == 7 {
        '7'
    } else if d == 8 {
        '8'
    } else {
        '9'
    }
}

/// `n` written in base ten, most significant digit first, without leading
/// zeros (zero itself is written `0`).
pub open spec fn decimal(n: nat) -> Seq<char>
    decreases n,
{
    if n < 10 {
        seq![digit(n)]
    } else {
        decimal(n / 10).push(digit(n % 10))
    }
}

fn digit_text(d: u8) -> (text: &'static str)
    requires
        d < 10,
    ensures
        text@ == seq![digit(d as nat)],
{
    proof {
        reveal_strlit("0");
        reveal_strlit("1");
        reveal_strlit("2");
        reveal_strlit("3");
        reveal_strlit("4");
        reveal_strlit("5");
        reveal_strlit("6");
        reveal_strlit("7");
        reveal_strlit("8");
        reveal_strlit("9");
    }
    let text = match d {
        0 => "0",
        1 => "1",
        2 => "2",
        3 => "3",
        4 => "4",
        5 => "5",
        6 => "6",
        7 => "7",
        8 => "8",
        _ => "9",
    };
    assert(text@ =~= seq![digit(d as nat)]);
    text
}

/// Appends the decimal notation of `n` to `out`.
pub fn push_decimal(out: &mut String, n: u128)
    ensures
        final(out)@ == old(out)@ + decimal(n as nat),
{
    let mut digits: Vec<u8> = Vec::new();
    let mut rest: u128 = n;
    while rest >= 10
        invariant
            forall|i: int| 0 <= i < digits.len() ==> digits[i] < 10,
            decimal(n as nat) == decimal(rest as nat) + Seq::new(
                digits.len() as nat,
                |i: int| digit(digits[digits.len() - 1 - i] as nat),
            ),
        decreases rest,
    {
        let ghost before = digits@;
        let d: u8 = (rest % 10) as u8;
        digits.push(d);
        proof {
            let tail_before = Seq::new(
                before.len() as nat,
                |i: int| digit(before[before.len() - 1 - i] as nat),
            );
            let tail_after = Seq::new(
                digits.len() as nat,
                |i: int| digit(digits[digits.len() - 1 - i] as nat),
            );
            assert(tail_after =~= seq![digit(d as nat)] + tail_before);
            assert(decimal(rest as nat) == decimal((rest / 10) as nat).push(digit(d as nat)));
            assert(decimal(n as nat) =~= decimal((rest / 10) as nat) + tail_after);
        }
        rest = rest / 10;
    }
    let lead: u8 = rest as u8;
    out.append(digit_text(lead));
    let mut k: usize = digits.len();
    while k > 0
        invariant
            k <= digits.len(),
            forall|i: int| 0 <= i < digits.len() ==> digits[i] < 10,
            out@ == old(out)@ + seq![digit(lead as nat)] + Seq::new(
                (digits.len() - k) as nat,
                |i: int| digit(digits[digits.len() - 1 - i] as nat),
            ),
        decreases k,
    {
        k = k - 1;
        out.append(digit_text(digits[k]));
        proof {
            assert(out@ =~= old(out)@ + seq![digit(lead as nat)] + Seq::new(
                (digits.len() - k) as nat,
                |i: int| digit(digits[digits.len() - 1 - i] as nat),
            ));
        }
    }
    proof {
        assert(decimal(rest as nat) == seq![digit(lead as nat)]);
        assert(out@ =~= old(out)@ + decimal(n as nat));
    }
}

/// The decimal notation of `n` as a fresh string.
pub fn to_decimal(n: u128) -> (text: String)
    ensures
        text@ == decimal(n as nat),
{
    let mut text = String::new();
    push_decimal(&mut text, n);
    assert(text@ =~= decimal(n as nat));
    text
}

} // verus!
