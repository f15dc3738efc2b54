use vstd::prelude::*;

verus! {

/// The character of the decimal digit `d`.
pub open spec fn digit_char(d: int) -> char {
    if d == 0 {
        '0'
    } else if d == 1 {
        '1'
    } else if d == 2 {
        '2'
    } else if d == 3 {
        '3'
    } else if d == 4 {
        '4'
    } else if d == 5 {
        '5'
    } else if d == 6 {
        '6'
    } else if d == 7 {
        '7'
    } else if d == 8 {
        '8'
    } else {
        '9'
    }
}

/// The decimal digits of `n`, most significant first, without leading zeros.
pub open spec fn decimal_nat(n: nat) -> Seq<char>
    decreases n,
{
    if n < 10 {
        seq![digit_char(n as int)]
    } else {
        decimal_nat(n / 10).push(digit_char(n as int % 10))
    }
}

/// `v` in decimal, with a leading `-` when negative.
pub open spec fn decimal(v: int) -> Seq<char> {
    if v < 0 {
        seq!['-'] + decimal_nat((-v) as nat)
    } else {
        decimal_nat(v as nat)
    }
}

fn digit_str(d: u64) -> (r: &'static str)
    requires
        d < 10,
    ensures
        r@ == seq![digit_char(d as int)],
{
    if d == 0 {
        proof { reveal_strlit("0"); }
        "0"
    } else if d == 1 {
        proof { reveal_strlit("1"); }
        "1"
    } else if d == 2 {
        proof { reveal_strlit("2"); }
        "2"
    } else if d == 3 {
        proof { reveal_strlit("3"); }
        "3"
    } else if d == 4 {
        proof { reveal_strlit("4"); }
        "4"
    } else if d == 5 {
        proof { reveal_strlit("5"); }
        "5"
    } else if d == 6 {
        proof { reveal_strlit("6"); }
        "6"
    } else if d == 7 {
        proof { reveal_strlit("7"); }
        "7"
    } else if d == 8 {
        proof { reveal_strlit("8"); }
        "8"
    } else {
        proof { reveal_strlit("9"); }
        "9"
    }
}

/// Appends `n` in decimal to `s`.
pub fn push_digits(s: &mut String, n: u64)
    ensures
        final(s)@ == old(s)@ + decimal_nat(n as nat),
    decreases n,
{
    if n >= 10 {
        push_digits(s, n / 10);
    }
    s.append(digit_str(n % 10));
    assert(s@ =~= old(s)@ + decimal_nat(n as nat));
}

/// Appends `v` in decimal to `s`.
pub fn push_decimal(s: &mut String, v: i64)
    ensures
        final(s)@ == old(s)@ + decimal(v as int),
{
    if v < 0 {
        proof { reveal_strlit("-"); }
        s.append("-");
        let m = (0i128 - v as i128) as u64;
        push_digits(s, m);
        assert(s@ =~= old(s)@ + decimal(v as int));
    } else {
        push_digits(s, v as u64);
    }
}

} // verus!
