use vstd::prelude::*;
use crate::text::{decimal, digit_char, digit_to_char, push_decimal, string_from_chars};

verus! {

/// `format!("{}s ago")` and its minute, hour and day siblings: the age `secs`
/// in the largest whole unit below which it stays.
pub open spec fn relative_seconds_spec(secs: nat) -> Seq<char> {
    if secs < 60 {
        decimal(secs) + seq!['s', ' ', 'a', 'g', 'o']
    } else if secs < 3600 {
        decimal(secs / 60) + seq!['m', ' ', 'a', 'g', 'o']
    } else if secs < 86400 {
        decimal(secs / 3600) + seq!['h', ' ', 'a', 'g', 'o']
    } else {
        decimal(secs / 86400) + seq!['d', ' ', 'a', 'g', 'o']
    }
}

/// A human-readable age: `5s ago`, `2m ago`, `2h ago`, `2d ago`.
pub fn relative_seconds(secs: u64) -> (r: String)
    ensures
        r@ == relative_seconds_spec(secs as nat),
{
    let mut v: Vec<char> = Vec::new();
    let unit = if secs < 60 {
        push_decimal(&mut v, secs);
        's'
    } else if secs < 3600 {
        push_decimal(&mut v, secs / 60);
        'm'
    } else if secs < 86400 {
        push_decimal(&mut v, secs / 3600);
        'h'
    } else {
        push_decimal(&mut v, secs / 86400);
        'd'
    };
    v.push(unit);
    v.push(' ');
    v.push('a');
    v.push('g');
    v.push('o');
    assert(v@ =~= relative_seconds_spec(secs as nat));
    string_from_chars(v.as_slice())
}

pub open spec fn p2(j: nat) -> nat
    decreases j,
{
    if j == 0 {
        1
    } else {
        2 * p2((j - 1) as nat)
    }
}

pub open spec fn mantissa_limit() -> nat {
    9007199254740992
}

/// The spacing of `f64` values near `n`: the least power of two `g` with `n < 2^53 * g`.
pub open spec fn granule(n: nat) -> nat
    decreases n,
{
    if n < mantissa_limit() {
        1
    } else {
        2 * granule(n / 2)
    }
}

/// `a / d` rounded to the nearest integer, ties to even.
pub open spec fn div_round_even(a: nat, d: nat) -> nat {
    let q = a / d;
    let r = a % d;
    if 2 * r > d || (2 * r == d && q % 2 == 1) {
        q + 1
    } else {
        q
    }
}

/// The value of `n as f64`: `n` rounded to the nearest multiple of its granule, ties to even.
pub open spec fn f64_of(n: nat) -> nat {
    div_round_even(n, granule(n)) * granule(n)
}

/// `format!("{:.2}", m / d)` for an exactly representable quotient: rounded to
/// hundredths, ties to even, spelled with two fraction digits.
pub open spec fn fixed2(m: nat, d: nat) -> Seq<char> {
    let t = div_round_even(m * 100, d);
    decimal(t / 100) + seq!['.', digit_char(((t % 100) / 10) as int), digit_char((t % 10) as int)]
}

pub open spec fn kib() -> nat {
    1024
}

/// `bytes_human`: the byte count in B, KiB, MiB, GiB or TiB, as the float
/// arithmetic `n as f64 / 1024.0 ...` and `{:.2}` formatting produce it.
pub open spec fn bytes_human_spec(n: nat) -> Seq<char> {
    let x = f64_of(n);
    if x < kib() {
        decimal(x) + seq![' ', 'B']
    } else if x < kib() * kib() {
        fixed2(x, kib()) + seq![' ', 'K', 'i', 'B']
    } else if x < kib() * kib() * kib() {
        fixed2(x, kib() * kib()) + seq![' ', 'M', 'i', 'B']
    } else if x < kib() * kib() * kib() * kib() {
        fixed2(x, kib() * kib() * kib()) + seq![' ', 'G', 'i', 'B']
    } else {
        fixed2(x, kib() * kib() * kib() * kib()) + seq![' ', 'T', 'i', 'B']
    }
}

proof fn lemma_div_le(x: int, d: int)
    requires
        0 <= x,
        1 <= d,
    ensures
        x / d <= x,
        0 <= x / d,
{
    vstd::arithmetic::div_mod::lemma_div_is_ordered_by_denominator(x, 1, d);
    vstd::arithmetic::div_mod::lemma_div_pos_is_pos(x, d);
}

proof fn lemma_granule_bound(n: nat, j: nat)
    requires
        n < mantissa_limit() * p2(j),
    ensures
        granule(n) <= p2(j),
        granule(n) >= 1,
    decreases n,
{
    if n >= mantissa_limit() {
        if j == 0 {
            assert(false);
        } else {
            assert(n / 2 < mantissa_limit() * p2((j - 1) as nat));
            lemma_granule_bound(n / 2, (j - 1) as nat);
        }
    }
}

fn granule_of(n: u64) -> (g: u64)
    requires
        n < mantissa_limit() * p2(11),
    ensures
        g == granule(n as nat),
        1 <= g <= 2048,
    decreases n,
{
    proof {
        lemma_granule_bound(n as nat, 11);
        reveal_with_fuel(p2, 12);
    }
    if n < 9007199254740992 {
        1
    } else {
        proof {
            assert(n / 2 < mantissa_limit() * p2(10)) by {
                reveal_with_fuel(p2, 12);
            }
        }
        let h = granule_of(n / 2);
        proof {
            lemma_granule_bound((n / 2) as nat, 10);
            reveal_with_fuel(p2, 11);
        }
        2 * h
    }
}

/// `a / d` rounded to the nearest integer, ties to even.
fn div_round_even_exec(a: u128, d: u128) -> (r: u128)
    requires
        d > 0,
        a < 0x1_0000_0000_0000_0000_0000_0000,
    ensures
        r == div_round_even(a as nat, d as nat),
{
    let q = a / d;
    let r = a % d;
    if r > d - r || (r == d - r && q % 2 == 1) {
        proof {
            lemma_div_le(a as int, d as int);
        }
        q + 1
    } else {
        q
    }
}

/// The value of `n as f64`, exactly.
pub fn f64_value(n: u64) -> (x: u128)
    ensures
        x == f64_of(n as nat),
        x <= n + 2048,
{
    proof {
        reveal_with_fuel(p2, 12);
    }
    let g = granule_of(n);
    let q = div_round_even_exec(n as u128, g as u128);
    proof {
        let qq = (n as int) / (g as int);
        vstd::arithmetic::div_mod::lemma_fundamental_div_mod(n as int, g as int);
        vstd::arithmetic::div_mod::lemma_mod_bound(n as int, g as int);
        assert(q <= qq + 1);
        assert(q * g <= qq * g + g) by (nonlinear_arith)
            requires
                q <= qq + 1,
                g >= 1,
        ;
        assert(qq * g <= n) by (nonlinear_arith)
            requires
                n == g * qq + (n as int) % (g as int),
                (n as int) % (g as int) >= 0,
        ;
    }
    q * (g as u128)
}

/// Appends `format!("{:.2}", m / d)` for `m / d` exactly representable.
fn push_fixed2(out: &mut Vec<char>, m: u128, d: u128)
    requires
        d >= 1024,
        m <= 0x2_0000_0000_0000_0000,
    ensures
        final(out)@ == old(out)@ + fixed2(m as nat, d as nat),
{
    let t = div_round_even_exec(m * 100, d);
    proof {
        lemma_div_le((m * 100) as int, d as int);
        vstd::arithmetic::div_mod::lemma_div_is_ordered_by_denominator((m * 100) as int, 1024, d as int);
        assert(((m * 100) as int) / 1024 <= 0x2_0000_0000_0000_0000 * 100 / 1024) by {
            vstd::arithmetic::div_mod::lemma_div_is_ordered((m * 100) as int, 0x2_0000_0000_0000_0000int * 100, 1024);
        }
        lemma_div_le(t as int, 100);
    }
    let whole = t / 100;
    push_decimal(out, whole as u64);
    out.push('.');
    out.push(digit_to_char(((t % 100) / 10) as u64));
    out.push(digit_to_char((t % 10) as u64));
    assert(final(out)@ =~= old(out)@ + fixed2(m as nat, d as nat));
}

/// The byte count `n` in human units: `512 B`, `1.50 KiB`, `3.00 MiB`, ... `TiB`.
pub fn bytes_human(n: u64) -> (r: String)
    ensures
        r@ == bytes_human_spec(n as nat),
{
    let x = f64_value(n);
    let mut v: Vec<char> = Vec::new();
    if x < 1024 {
        push_decimal(&mut v, x as u64);
        v.push(' ');
        v.push('B');
    } else if x < 1024 * 1024 {
        push_fixed2(&mut v, x, 1024);
        v.push(' ');
        v.push('K');
        v.push('i');
        v.push('B');
    } else if x < 1024 * 1024 * 1024 {
        push_fixed2(&mut v, x, 1024 * 1024);
        v.push(' ');
        v.push('M');
        v.push('i');
        v.push('B');
    } else if x < 1024 * 1024 * 1024 * 1024 {
        push_fixed2(&mut v, x, 1024 * 1024 * 1024);
        v.push(' ');
        v.push('G');
        v.push('i');
        v.push('B');
    } else {
        push_fixed2(&mut v, x, 1024 * 1024 * 1024 * 1024);
        v.push(' ');
        v.push('T');
        v.push('i');
        v.push('B');
    }
    assert(v@ =~= bytes_human_spec(n as nat));
    string_from_chars(v.as_slice())
}

} // verus!

verus! {

/// Below 2^53 a byte count converts to `f64` exactly, so `bytes_human` formats `n` itself.
pub proof fn lemma_f64_exact_below_2_53(n: nat)
    requires
        n < mantissa_limit(),
    ensures
        f64_of(n) == n,
{
    assert(granule(n) == 1);
    assert(n % 1 == 0 && n / 1 == n) by (nonlinear_arith);
}

} // verus!
