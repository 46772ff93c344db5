//! Human-readable byte sizes.

use vstd::prelude::*;
use crate::text::{decimal, digit, digit_char, push_decimal, string_from_chars};

verus! {

/// `n / d` rounded to the nearest integer, ties going to the even one.
pub open spec fn round_half_even(n: nat, d: nat) -> nat {
    let q = n / d;
    let r = n % d;
    if 2 * r < d {
        q
    } else if 2 * r > d {
        q + 1
    } else if q % 2 == 0 {
        q
    } else {
        q + 1
    }
}

/// `n` rounded (ties to even) to a multiple of `ulp`, where `ulp` is the first
/// power of two from the given one up for which `n < 2^53 * ulp`: the value
/// that an IEEE 754 double holds after conversion from the integer `n`.
pub open spec fn binary64_round_from(n: nat, ulp: nat) -> nat
    decreases n - ulp,
{
    if ulp == 0 || n < 0x20_0000_0000_0000 * ulp {
        round_half_even(n, ulp) * ulp
    } else {
        binary64_round_from(n, ulp * 2)
    }
}

/// The nearest double to the integer `n` (round to nearest, ties to even).
pub open spec fn binary64_round(n: nat) -> nat {
    binary64_round_from(n, 1)
}

/// `q / 10` with one decimal digit: the rendering of `q` tenths.
pub open spec fn tenths_text(q: nat) -> Seq<char> {
    decimal(q / 10) + seq!['.', digit_char(q % 10)]
}

/// `q / 100` with two decimal digits: the rendering of `q` hundredths.
pub open spec fn hundredths_text(q: nat) -> Seq<char> {
    decimal(q / 100) + seq!['.', digit_char((q / 10) % 10), digit_char(q % 10)]
}

pub open spec fn kib() -> nat { 1024 }
pub open spec fn mib() -> nat { 1024 * 1024 }
pub open spec fn gib() -> nat { 1024 * 1024 * 1024 }

/// The text of a byte count: whole bytes below 1 KiB, tenths of KiB below
/// 1 MiB, tenths of MiB below 1 GiB, and hundredths of GiB above, each
/// rounded as the standard float formatting with that precision rounds the
/// double nearest to the quotient.
pub open spec fn bytes_text(bytes: nat) -> Seq<char> {
    if bytes < kib() {
        decimal(bytes) + seq![' ', 'B']
    } else if bytes < mib() {
        tenths_text(round_half_even(bytes * 10, kib())) + seq![' ', 'K', 'B']
    } else if bytes < gib() {
        tenths_text(round_half_even(bytes * 10, mib())) + seq![' ', 'M', 'B']
    } else {
        hundredths_text(round_half_even(binary64_round(bytes) * 100, gib())) + seq![' ', 'G', 'B']
    }
}

/// The unit a byte count is shown in: 0 for `B`, 1 for `KB`, 2 for `MB`,
/// 3 for `GB`.
pub open spec fn size_unit(bytes: nat) -> nat {
    if bytes < kib() {
        0
    } else if bytes < mib() {
        1
    } else if bytes < gib() {
        2
    } else {
        3
    }
}

/// The number shown before the unit, counted in steps of its last digit:
/// bytes, tenths of KiB or MiB, hundredths of GiB.
pub open spec fn size_amount(bytes: nat) -> nat {
    if bytes < kib() {
        bytes
    } else if bytes < mib() {
        round_half_even(bytes * 10, kib())
    } else if bytes < gib() {
        round_half_even(bytes * 10, mib())
    } else {
        round_half_even(binary64_round(bytes) * 100, gib())
    }
}

/// The text of `amount` steps of `unit`.
pub open spec fn size_text(unit: nat, amount: nat) -> Seq<char> {
    if unit == 0 {
        decimal(amount) + seq![' ', 'B']
    } else if unit == 1 {
        tenths_text(amount) + seq![' ', 'K', 'B']
    } else if unit == 2 {
        tenths_text(amount) + seq![' ', 'M', 'B']
    } else {
        hundredths_text(amount) + seq![' ', 'G', 'B']
    }
}

proof fn lemma_round_half_even_monotone(n1: nat, n2: nat, d: nat)
    requires
        n1 <= n2,
        d > 0,
    ensures
        round_half_even(n1, d) <= round_half_even(n2, d),
{
    let q1 = n1 / d;
    let q2 = n2 / d;
    vstd::arithmetic::div_mod::lemma_div_is_ordered(n1 as int, n2 as int, d as int);
    if q1 == q2 {
        vstd::arithmetic::div_mod::lemma_fundamental_div_mod(n1 as int, d as int);
        vstd::arithmetic::div_mod::lemma_fundamental_div_mod(n2 as int, d as int);
        assert(n1 % d <= n2 % d);
    }
}

proof fn lemma_round_half_even_bounds(n: nat, d: nat)
    requires
        d > 0,
    ensures
        (n / d) * d <= round_half_even(n, d) * d,
        round_half_even(n, d) <= n / d + 1,
        n / d * d <= n,
{
    vstd::arithmetic::div_mod::lemma_fundamental_div_mod(n as int, d as int);
    assert((n / d) * d <= round_half_even(n, d) * d) by (nonlinear_arith)
        requires
            n / d <= round_half_even(n, d),
    ;
}

/// A count of at least `2^52` steps of `ulp` stays at least that after
/// rounding to a double.
proof fn lemma_binary64_lower(n: nat, ulp: nat)
    requires
        ulp >= 1,
        n >= 0x10_0000_0000_0000 * ulp,
    ensures
        binary64_round_from(n, ulp) >= 0x10_0000_0000_0000 * ulp,
    decreases n - ulp,
{
    if n < 0x20_0000_0000_0000 * ulp {
        lemma_round_half_even_bounds(n, ulp);
        assert(n / ulp >= 0x10_0000_0000_0000) by (nonlinear_arith)
            requires
                ulp >= 1,
                n >= 0x10_0000_0000_0000 * ulp,
        ;
        assert(round_half_even(n, ulp) * ulp >= 0x10_0000_0000_0000 * ulp) by (nonlinear_arith)
            requires
                (n / ulp) * ulp <= round_half_even(n, ulp) * ulp,
                n / ulp >= 0x10_0000_0000_0000,
                ulp >= 1,
        ;
    } else {
        assert(n - ulp * 2 < n - ulp);
        lemma_binary64_lower(n, ulp * 2);
    }
}

proof fn lemma_binary64_monotone(n1: nat, n2: nat, ulp: nat)
    requires
        n1 <= n2,
        ulp >= 1,
    ensures
        binary64_round_from(n1, ulp) <= binary64_round_from(n2, ulp),
    decreases n2 - ulp,
{
    let m: nat = 0x20_0000_0000_0000;
    if n2 < m * ulp {
        lemma_round_half_even_monotone(n1, n2, ulp);
        assert(round_half_even(n1, ulp) * ulp <= round_half_even(n2, ulp) * ulp) by (nonlinear_arith)
            requires
                round_half_even(n1, ulp) <= round_half_even(n2, ulp),
        ;
    } else if n1 >= m * ulp {
        assert(n2 - ulp * 2 < n2 - ulp);
        lemma_binary64_monotone(n1, n2, ulp * 2);
    } else {
        lemma_round_half_even_bounds(n1, ulp);
        assert(n1 / ulp < m) by (nonlinear_arith)
            requires
                n1 < m * ulp,
                ulp >= 1,
        ;
        assert(round_half_even(n1, ulp) * ulp <= m * ulp) by (nonlinear_arith)
            requires
                round_half_even(n1, ulp) <= m,
        ;
        lemma_binary64_lower(n2, ulp * 2);
    }
}

/// A larger byte count is never shown smaller: its unit is the same or a
/// larger one, and in the same unit the number shown is the same or
/// larger. The text of a count is its number followed by its unit.
pub proof fn lemma_format_bytes_monotone(a: nat, b: nat)
    requires
        a <= b,
    ensures
        size_unit(a) <= size_unit(b),
        size_unit(a) == size_unit(b) ==> size_amount(a) <= size_amount(b),
        bytes_text(a) == size_text(size_unit(a), size_amount(a)),
        bytes_text(b) == size_text(size_unit(b), size_amount(b)),
{
    if size_unit(a) == size_unit(b) {
        if a >= gib() {
            lemma_binary64_monotone(a, b, 1);
            assert(binary64_round(a) * 100 <= binary64_round(b) * 100);
            lemma_round_half_even_monotone(binary64_round(a) * 100, binary64_round(b) * 100, gib());
        } else if a >= mib() {
            lemma_round_half_even_monotone(a * 10, b * 10, mib());
        } else if a >= kib() {
            lemma_round_half_even_monotone(a * 10, b * 10, kib());
        }
    }
}

/// Computes `round_half_even(n, d)`.
fn div_round_half_even(n: u128, d: u128) -> (q: u128)
    requires
        d > 0,
        n / d < u128::MAX,
    ensures
        q as nat == round_half_even(n as nat, d as nat),
{
    let q = n / d;
    let r = n % d;
    if r < d - r {
        q
    } else if r > d - r {
        q + 1
    } else if q % 2 == 0 {
        q
    } else {
        q + 1
    }
}

proof fn lemma_round_bound(n: nat, d: nat)
    requires
        d > 0,
    ensures
        round_half_even(n, d) * d <= n + d,
        round_half_even(n, d) <= n / d + 1,
{
    let q = n / d;
    assert(q * d <= n) by (nonlinear_arith)
        requires
            q == n / d,
            d > 0,
    ;
    assert((q + 1) * d == q * d + d) by (nonlinear_arith);
    assert(round_half_even(n, d) * d <= (q + 1) * d) by (nonlinear_arith)
        requires
            round_half_even(n, d) <= q + 1,
            d > 0,
    ;
}

/// Rounds `n` to the nearest double, as an integer.
fn binary64_of(n: u64) -> (f: u128)
    ensures
        f as nat == binary64_round(n as nat),
        f <= 2 * (n as nat) + 1,
{
    let mut ulp: u128 = 1;
    let nn = n as u128;
    while !(nn < 0x20_0000_0000_0000 * ulp)
        invariant
            1 <= ulp <= nn + 1,
            ulp <= 0x1_0000_0000_0000_0000,
            nn == n,
            binary64_round_from(nn as nat, ulp as nat) == binary64_round(nn as nat),
        decreases nn + 1 - ulp,
    {
        ulp = ulp * 2;
    }
    proof {
        lemma_round_bound(nn as nat, ulp as nat);
        assert(nn as nat / ulp as nat <= nn) by (nonlinear_arith)
            requires
                ulp >= 1,
        ;
    }
    let q = div_round_half_even(nn, ulp);
    q * ulp
}

/// Formats a byte count for display: `"512 B"`, `"1.5 KB"`, `"3.2 MB"`,
/// `"1.25 GB"`.
pub fn format_bytes(bytes: u64) -> (s: String)
    ensures
        s@ == bytes_text(bytes as nat),
{
    let mut out: Vec<char> = Vec::new();
    let b = bytes as u128;
    if b < 1024 {
        push_decimal(&mut out, b);
        out.push(' ');
        out.push('B');
    } else if b < 1024 * 1024 {
        let q = div_round_half_even(b * 10, 1024);
        push_decimal(&mut out, q / 10);
        out.push('.');
        out.push(digit((q % 10) as u8));
        out.push(' ');
        out.push('K');
        out.push('B');
    } else if b < 1024 * 1024 * 1024 {
        let q = div_round_half_even(b * 10, 1024 * 1024);
        push_decimal(&mut out, q / 10);
        out.push('.');
        out.push(digit((q % 10) as u8));
        out.push(' ');
        out.push('M');
        out.push('B');
    } else {
        let f = binary64_of(bytes);
        let q = div_round_half_even(f * 100, 1024 * 1024 * 1024);
        push_decimal(&mut out, q / 100);
        out.push('.');
        out.push(digit(((q / 10) % 10) as u8));
        out.push(digit((q % 10) as u8));
        out.push(' ');
        out.push('G');
        out.push('B');
    }
    assert(out@ =~= bytes_text(bytes as nat));
    string_from_chars(out)
}

} // verus!
