//! Decimal text of fixed-point numbers.
use vstd::prelude::*;
use crate::SCALE;

verus! {

pub open spec fn digit_char(d: int) -> char {
    "0123456789"@[d]
}

/// Decimal digits of a natural number, most significant first.
pub open spec fn dec_text(n: nat) -> Seq<char>
    decreases n,
{
    if n < 10 {
        seq![digit_char(n as int)]
    } else {
        dec_text(n / 10).push(digit_char((n % 10) as int))
    }
}

/// Exactly `k` decimal digits of `n`, padded with leading zeros.
pub open spec fn padded_text(n: nat, k: nat) -> Seq<char>
    decreases k,
{
    if k == 0 {
        Seq::empty()
    } else {
        padded_text(n / 10, (k - 1) as nat).push(digit_char((n % 10) as int))
    }
}

/// A fixed-point amount: whole units, then six decimals where any is non-zero.
pub open spec fn amount_text(v: nat) -> Seq<char> {
    if v % (SCALE as nat) == 0 {
        dec_text(v / (SCALE as nat))
    } else {
        dec_text(v / (SCALE as nat)) + "."@ + padded_text(v % (SCALE as nat), 6)
    }
}

fn digit_str(d: u64) -> (r: &'static str)
    requires
        d < 10,
    ensures
        r@ == seq![digit_char(d as int)],
{
    proof {
        reveal_strlit("0123456789");
    }
    if d == 0 {
        proof { reveal_strlit("0"); }
        assert("0"@ =~= seq![digit_char(0)]);
        "0"
    } else if d == 1 {
        proof { reveal_strlit("1"); }
        assert("1"@ =~= seq![digit_char(1)]);
        "1"
    } else if d == 2 {
        proof { reveal_strlit("2"); }
        assert("2"@ =~= seq![digit_char(2)]);
        "2"
    } else if d == 3 {
        proof { reveal_strlit("3"); }
        assert("3"@ =~= seq![digit_char(3)]);
        "3"
    } else if d == 4 {
        proof { reveal_strlit("4"); }
        assert("4"@ =~= seq![digit_char(4)]);
        "4"
    } else if d == 5 {
        proof { reveal_strlit("5"); }
        assert("5"@ =~= seq![digit_char(5)]);
        "5"
    } else if d == 6 {
        proof { reveal_strlit("6"); }
        assert("6"@ =~= seq![digit_char(6)]);
        "6"
    } else if d == 7 {
        proof { reveal_strlit("7"); }
        assert("7"@ =~= seq![digit_char(7)]);
        "7"
    } else if d == 8 {
        proof { reveal_strlit("8"); }
        assert("8"@ =~= seq![digit_char(8)]);
        "8"
    } else {
        proof { reveal_strlit("9"); }
        assert("9"@ =~= seq![digit_char(9)]);
        "9"
    }
}

/// Appends the decimal digits of `n`.
pub fn push_decimal(out: &mut String, n: u64)
    ensures
        final(out)@ == old(out)@ + dec_text(n as nat),
    decreases n,
{
    if n >= 10 {
        push_decimal(out, n / 10);
        out.append(digit_str(n % 10));
        assert(final(out)@ =~= old(out)@ + dec_text(n as nat));
    } else {
        out.append(digit_str(n));
    }
}

/// Appends exactly `k` digits of `n`, zero-padded.
fn push_padded(out: &mut String, n: u64, k: u64)
    ensures
        final(out)@ == old(out)@ + padded_text(n as nat, k as nat),
    decreases k,
{
    if k > 0 {
        push_padded(out, n / 10, k - 1);
        out.append(digit_str(n % 10));
        assert(final(out)@ =~= old(out)@ + padded_text(n as nat, k as nat));
    } else {
        assert(final(out)@ =~= old(out)@ + padded_text(n as nat, k as nat));
    }
}

/// Appends a fixed-point amount.
pub fn push_amount(out: &mut String, v: u64)
    ensures
        final(out)@ == old(out)@ + amount_text(v as nat),
{
    push_decimal(out, v / SCALE);
    if v % SCALE != 0 {
        out.append(".");
        push_padded(out, v % SCALE, 6);
        assert(final(out)@ =~= old(out)@ + amount_text(v as nat));
    }
}

} // verus!
