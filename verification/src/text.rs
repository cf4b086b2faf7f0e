//! Text that the library produces: integers in decimal, and how long text is
//! on the wire.

use vstd::prelude::*;
use vstd::string::StringExecFns;
use vstd::utf8::encode_utf8;

verus! {

/// The character of the decimal digit `d`.
pub open spec fn digit(d: nat) -> char {
    if d == 0 {
        '0'
    } else if d == 1 {
        '1'
    } else if d == 2 {
        '2'
    } else if d == 3 {
        '3'
    } else if d == 4 {
        '4'
    } else if d == 5 {
        '5'
    } else if d == 6 {
        '6'
    } else if d == 7 {
        '7'
    } else if d == 8 {
        '8'
    } else {
        '9'
    }
}

/// The decimal digits of `n`, most significant first, without leading zeros.
pub open spec fn decimal_digits(n: nat) -> Seq<char>
    decreases n,
{
    if n < 10 {
        seq![digit(n)]
    } else {
        decimal_digits(n / 10).push(digit(n % 10))
    }
}

/// `v` in decimal, with a minus sign where it is negative.
pub open spec fn decimal_text(v: int) -> Seq<char> {
    if v < 0 {
        seq!['-'] + decimal_digits((-v) as nat)
    } else {
        decimal_digits(v as nat)
    }
}

/// The digits `ds`, given least significant first, as text.
spec fn reversed_text(ds: Seq<u8>) -> Seq<char> {
    Seq::new(ds.len(), |i: int| digit(ds[ds.len() - 1 - i] as nat))
}

fn digit_str(d: u8) -> (r: &'static str)
    requires
        d < 10,
    ensures
        r@ == seq![digit(d as nat)],
{
    proof {
        reveal_strlit("0");
        reveal_strlit("1");
        reveal_strlit("2");
        reveal_strlit("3");
        reveal_strlit("4");
        reveal_strlit("5");
        reveal_strlit("6");
        reveal_strlit("7");
        reveal_strlit("8");
        reveal_strlit("9");
    }
    let r: &'static str = if d == 0 {
        "0"
    } else if d == 1 {
        "1"
    } else if d == 2 {
        "2"
    } else if d == 3 {
        "3"
    } else if d == 4 {
        "4"
    } else if d == 5 {
        "5"
    } else if d == 6 {
        "6"
    } else if d == 7 {
        "7"
    } else if d == 8 {
        "8"
    } else {
        "9"
    };
    assert(r@ =~= seq![digit(d as nat)]);
    r
}

/// `v` in decimal.
pub fn decimal(v: i64) -> (r: String)
    ensures
        r@ == decimal_text(v as int),
{
    let negative: bool = v < 0;
    let magnitude: u64 = if negative {
        (-(v + 1)) as u64 + 1
    } else {
        v as u64
    };
    let mut rest: u64 = magnitude;
    let mut digits: Vec<u8> = Vec::new();
    assert(decimal_digits(rest as nat) + reversed_text(digits@) =~= decimal_digits(
        magnitude as nat,
    ));
    loop
        invariant_except_break
            decimal_digits(magnitude as nat) == decimal_digits(rest as nat) + reversed_text(
                digits@,
            ),
        invariant
            forall|j: int| 0 <= j < digits@.len() ==> digits@[j] < 10,
        ensures
            decimal_digits(magnitude as nat) == reversed_text(digits@),
        decreases rest,
    {
        let d: u8 = (rest % 10) as u8;
        let ghost before: Seq<u8> = digits@;
        digits.push(d);
        assert(reversed_text(digits@) =~= seq![digit(d as nat)] + reversed_text(before));
        if rest < 10 {
            break ;
        }
        assert(decimal_digits(rest as nat) =~= decimal_digits((rest / 10) as nat) + seq![
            digit(d as nat),
        ]);
        rest = rest / 10;
    }
    let mut text: String = String::new();
    if negative {
        proof {
            reveal_strlit("-");
        }
        text.append("-");
        assert(text@ =~= seq!['-']);
    }
    let ghost sign: Seq<char> = text@;
    let mut i: usize = digits.len();
    assert(text@ =~= sign + reversed_text(digits@).take(0));
    while i > 0
        invariant
            i <= digits@.len(),
            forall|j: int| 0 <= j < digits@.len() ==> digits@[j] < 10,
            text@ == sign + reversed_text(digits@).take(digits@.len() - i),
        decreases i,
    {
        i -= 1;
        let ghost before: Seq<char> = text@;
        text.append(digit_str(digits[i]));
        assert(text@ =~= sign + reversed_text(digits@).take(digits@.len() - i));
    }
    assert(reversed_text(digits@).take(digits@.len() as int) =~= reversed_text(digits@));
    text
}

/// Text takes at most four bytes a character in UTF-8.
pub proof fn lemma_utf8_len(text: Seq<char>)
    ensures
        encode_utf8(text).len() <= 4 * text.len(),
    decreases text.len(),
{
    if text.len() > 0 {
        lemma_utf8_len(text.drop_first());
    }
}

} // verus!
