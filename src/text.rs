//! Decimal and textual forms shared by the IR and assembly printers. Each
//! spec function gives the text that printing appends to a prefix `pre`.
use vstd::prelude::*;

verus! {

pub open spec fn digit_text(d: nat) -> Seq<char> {
    if d == 0 {
        "0"@
    } else if d == 1 {
        "1"@
    } else if d == 2 {
        "2"@
    } else if d == 3 {
        "3"@
    } else if d == 4 {
        "4"@
    } else if d == 5 {
        "5"@
    } else if d == 6 {
        "6"@
    } else if d == 7 {
        "7"@
    } else if d == 8 {
        "8"@
    } else {
        "9"@
    }
}

/// `pre` followed by the decimal digits of `n`, most significant first.
pub open spec fn put_nat(pre: Seq<char>, n: nat) -> Seq<char>
    decreases n,
{
    if n < 10 {
        pre + digit_text(n)
    } else {
        put_nat(pre, n / 10) + digit_text(n % 10)
    }
}

/// `pre` followed by `v` in decimal, with a leading `-` when negative.
pub open spec fn put_int(pre: Seq<char>, v: int) -> Seq<char> {
    if v < 0 {
        put_nat(pre + "-"@, (-v) as nat)
    } else {
        put_nat(pre, v as nat)
    }
}

fn put_digit(out: &mut String, d: u64)
    requires
        d < 10,
    ensures
        final(out)@ == old(out)@ + digit_text(d as nat),
{
    if d == 0 {
        out.append("0");
    } else if d == 1 {
        out.append("1");
    } else if d == 2 {
        out.append("2");
    } else if d == 3 {
        out.append("3");
    } else if d == 4 {
        out.append("4");
    } else if d == 5 {
        out.append("5");
    } else if d == 6 {
        out.append("6");
    } else if d == 7 {
        out.append("7");
    } else if d == 8 {
        out.append("8");
    } else {
        out.append("9");
    }
}

/// Appends `n` in decimal.
pub fn write_u64(out: &mut String, n: u64)
    ensures
        final(out)@ == put_nat(old(out)@, n as nat),
    decreases n,
{
    if n >= 10 {
        write_u64(out, n / 10);
    }
    put_digit(out, n % 10);
}

/// Appends `v` in decimal.
pub fn write_i64(out: &mut String, v: i64)
    requires
        v > i64::MIN,
    ensures
        final(out)@ == put_int(old(out)@, v as int),
{
    if v < 0 {
        out.append("-");
        write_u64(out, (-v) as u64);
    } else {
        write_u64(out, v as u64);
    }
}

} // verus!
