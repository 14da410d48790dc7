//! Human-readable sizes, as `format!` renders a size divided into a unit
//! in double precision.
use vstd::prelude::*;

verus! {

/// Two to the power 53: below it every integer has an exact double.
pub const DOUBLE_EXACT_LIMIT: u64 = 9007199254740992;

/// One kibibyte.
pub const KB: u64 = 1024;

/// One mebibyte.
pub const MB: u64 = 1048576;

/// One gibibyte.
pub const GB: u64 = 1073741824;

/// The spacing of doubles around `b`: 1 below two to the power 53, doubling
/// with every further bit of `b`.
pub open spec fn double_spacing(b: nat) -> nat
    decreases b,
{
    if b < DOUBLE_EXACT_LIMIT {
        1
    } else {
        2 * double_spacing(b / 2)
    }
}

/// `n / d` rounded to the nearest integer, halves to the even neighbour.
pub open spec fn round_half_even(n: nat, d: nat) -> nat {
    let q = n / d;
    let r = n % d;
    if 2 * r > d || (2 * r == d && q % 2 == 1) {
        q + 1
    } else {
        q
    }
}

/// The value of `b as f64`: `b` rounded to the nearest double, ties to even.
pub open spec fn as_double(b: nat) -> nat {
    let u = double_spacing(b);
    round_half_even(b, u) * u
}

/// The character of the decimal digit `d`.
pub open spec fn digit_char(d: nat) -> char {
    (48 + d) as char
}

/// The decimal representation of `n`, without leading zeros.
pub open spec fn decimal(n: nat) -> Seq<char>
    decreases n,
{
    if n < 10 {
        seq![digit_char(n)]
    } else {
        decimal(n / 10).push(digit_char(n % 10))
    }
}

/// How `bytes` reads for people: with two decimals in gibibytes, one in
/// mebibytes, none in kibibytes (each rounded half to even from the double
/// quotient), or as a plain count of bytes.
pub open spec fn format_size_spec(bytes: u64) -> Seq<char> {
    if bytes >= GB {
        let c = round_half_even(as_double(bytes as nat) * 100, GB as nat);
        decimal(c / 100) + seq!['.', digit_char((c % 100) / 10), digit_char(c % 10)] + " ГБ"@
    } else if bytes >= MB {
        let c = round_half_even(bytes as nat * 10, MB as nat);
        decimal(c / 10) + seq!['.', digit_char(c % 10)] + " МБ"@
    } else if bytes >= KB {
        decimal(round_half_even(bytes as nat, KB as nat)) + " КБ"@
    } else {
        decimal(bytes as nat) + " Б"@
    }
}

/// The one-character string of the digit `d`.
fn digit_str(d: u128) -> (r: &'static str)
    requires
        d < 10,
    ensures
        r@ == seq![digit_char(d as nat)],
{
    match d {
        0 => { proof { reveal_strlit("0"); } "0" },
        1 => { proof { reveal_strlit("1"); } "1" },
        2 => { proof { reveal_strlit("2"); } "2" },
        3 => { proof { reveal_strlit("3"); } "3" },
        4 => { proof { reveal_strlit("4"); } "4" },
        5 => { proof { reveal_strlit("5"); } "5" },
        6 => { proof { reveal_strlit("6"); } "6" },
        7 => { proof { reveal_strlit("7"); } "7" },
        8 => { proof { reveal_strlit("8"); } "8" },
        _ => { proof { reveal_strlit("9"); } "9" },
    }
}

/// Appends the decimal representation of `n` to `s`.
fn push_decimal(s: &mut String, n: u128)
    ensures
        final(s)@ == old(s)@ + decimal(n as nat),
    decreases n,
{
    if n >= 10 {
        push_decimal(s, n / 10);
    }
    s.append(digit_str(n % 10));
    assert(s@ =~= old(s)@ + decimal(n as nat));
}


/// Executable `round_half_even`.
fn round_half_even_exec(n: u128, d: u128) -> (r: u128)
    requires
        d > 0,
        n / d < u128::MAX,
    ensures
        r == round_half_even(n as nat, d as nat),
{
    let q = n / d;
    let r = n % d;
    if r > d - r || (r == d - r && q % 2 == 1) {
        q + 1
    } else {
        q
    }
}

/// `bytes as f64`, as an integer.
fn as_double_exec(bytes: u64) -> (r: u128)
    ensures
        r == as_double(bytes as nat),
        r <= 2 * bytes as nat + 2,
{
    let mut q: u64 = bytes;
    let mut unit: u128 = 1;
    while q >= DOUBLE_EXACT_LIMIT
        invariant
            1 <= unit <= bytes as nat + 1,
            q == bytes as nat / unit as nat,
            double_spacing(bytes as nat) == unit * double_spacing(q as nat),
        decreases q,
    {
        proof {
            vstd::arithmetic::div_mod::lemma_div_denominator(bytes as int, unit as int, 2);
            vstd::arithmetic::div_mod::lemma_fundamental_div_mod(bytes as int, unit as int);
            assert(unit * q <= bytes as nat) by (nonlinear_arith)
                requires q == bytes as nat / unit as nat, unit >= 1;
            assert(unit * 2 <= bytes) by (nonlinear_arith)
                requires unit * q <= bytes as nat, q >= 2;
        }
        let ghost old_unit = unit;
        let ghost old_q = q;
        q = q / 2;
        unit = unit * 2;
        assert(double_spacing(old_q as nat) == 2 * double_spacing(q as nat));
        assert(double_spacing(bytes as nat) == unit * double_spacing(q as nat)) by (nonlinear_arith)
            requires double_spacing(bytes as nat) == old_unit * double_spacing(old_q as nat),
                double_spacing(old_q as nat) == 2 * double_spacing(q as nat),
                unit == old_unit * 2;
    }
    assert(double_spacing(q as nat) == 1);
    assert(double_spacing(bytes as nat) == unit) by (nonlinear_arith)
        requires double_spacing(bytes as nat) == unit * double_spacing(q as nat),
            double_spacing(q as nat) == 1;
    let r = round_half_even_exec(bytes as u128, unit);
    proof {
        assert(r <= q + 1);
        assert(unit * q <= bytes as nat) by (nonlinear_arith)
            requires q == bytes as nat / unit as nat, unit >= 1;
        assert(r * unit <= 2 * bytes as nat + 2) by (nonlinear_arith)
            requires r <= q + 1, unit * q <= bytes as nat, unit <= bytes as nat + 1;
    }
    r * unit
}

/// Renders a size in bytes for people: `"59.12 ГБ"`, `"1.5 МБ"`, `"3 КБ"`, `"512 Б"`.
pub fn format_size(bytes: u64) -> (r: String)
    ensures
        r@ == format_size_spec(bytes),
{
    let mut s = String::new();
    if bytes >= GB {
        let v = as_double_exec(bytes);
        let c = round_half_even_exec(v * 100, GB as u128);
        push_decimal(&mut s, c / 100);
        s.append(".");
        s.append(digit_str((c % 100) / 10));
        s.append(digit_str(c % 10));
        s.append(" ГБ");
        proof { reveal_strlit("."); }
    } else if bytes >= MB {
        let c = round_half_even_exec(bytes as u128 * 10, MB as u128);
        push_decimal(&mut s, c / 10);
        s.append(".");
        s.append(digit_str(c % 10));
        s.append(" МБ");
        proof { reveal_strlit("."); }
    } else if bytes >= KB {
        let c = round_half_even_exec(bytes as u128, KB as u128);
        push_decimal(&mut s, c);
        s.append(" КБ");
    } else {
        push_decimal(&mut s, bytes as u128);
        s.append(" Б");
    }
    assert(s@ =~= format_size_spec(bytes));
    s
}

} // verus!
