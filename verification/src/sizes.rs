//! Sizes in words. Quotients are those of double-precision arithmetic, worked
//! out in integers: a quotient is rounded to 53 significant bits, half to even,
//! and then to the digits that are shown, again half to even.

use crate::text::{dec, push_dec};
use vstd::arithmetic::power2::{lemma_pow2, lemma_pow2_adds, lemma_pow2_unfold, pow2};
use vstd::prelude::*;
use vstd::string::*;

verus! {

/// `a / b` rounded to an integer, half to even.
pub open spec fn round_even(a: int, b: int) -> int {
    let q = a / b;
    let r = a % b;
    if 2 * r > b || (2 * r == b && q % 2 == 1) {
        q + 1
    } else {
        q
    }
}

/// The largest `k` with `d * 2^k <= n`, for `n >= d`.
pub open spec fn exponent(n: int, d: int) -> int
    decreases n - d,
{
    if d <= 0 || n < 2 * d {
        0
    } else {
        1 + exponent(n, 2 * d)
    }
}

fn round_half_even(a: u128, b: u128) -> (r: u128)
    requires
        0 < b <= 0x7FFF_FFFF_FFFF_FFFF_FFFF_FFFF_FFFF_FFFF,
        a <= 0x7FFF_FFFF_FFFF_FFFF_FFFF_FFFF_FFFF_FFFF,
    ensures
        r == round_even(a as int, b as int),
        r <= a / b + 1,
{
    let q: u128 = a / b;
    let r: u128 = a % b;
    proof {
        assert(q <= a) by (nonlinear_arith)
            requires
                q == a / b,
                b > 0,
        ;
    }
    if 2 * r > b || (2 * r == b && q % 2 == 1) {
        q + 1
    } else {
        q
    }
}

/// `n` as a double: 53 significant bits.
pub open spec fn double_of(n: int) -> int {
    if n < pow2(53) {
        n
    } else {
        let e = exponent(n, pow2(53) as int) + 1;
        round_even(n, pow2(e as nat) as int) * pow2(e as nat)
    }
}

/// A double quotient at least 1: `mantissa / 2^shift`.
pub struct Quotient {
    pub mantissa: int,
    pub shift: int,
}

/// The double quotient `n / d`, for `n >= d > 0`.
pub open spec fn quotient(n: int, d: int) -> Quotient {
    let shift = 52 - exponent(n, d);
    Quotient { mantissa: round_even(n * pow2(shift as nat), d), shift }
}

/// A quotient times `scale`, rounded to an integer.
pub open spec fn scaled(q: Quotient, scale: int) -> int {
    round_even(q.mantissa * scale, pow2(q.shift as nat) as int)
}

pub open spec fn at_least(q: Quotient, x: int) -> bool {
    q.mantissa >= x * pow2(q.shift as nat)
}


proof fn lemma_exponent_step(n: int, d: int, k: int, s: int)
    requires
        0 < d,
        0 <= k,
        s == d * pow2(k as nat),
        exponent(n, d) == k + exponent(n, s),
        n >= 2 * s,
    ensures
        2 * s == d * pow2((k + 1) as nat),
        exponent(n, d) == k + 1 + exponent(n, 2 * s),
{
    lemma_pow2_unfold((k + 1) as nat);
    vstd::arithmetic::power2::lemma_pow2_pos(k as nat);
    let p = pow2(k as nat) as int;
    assert(s > 0) by (nonlinear_arith)
        requires
            s == d * p,
            d > 0,
            p > 0,
    ;
    assert(2 * s == d * (2 * p)) by (nonlinear_arith)
        requires
            s == d * p,
    ;
}

/// The largest `k` with `d * 2^k <= n`, and `d * 2^k`.
fn find_exponent(n: u128, d: u128) -> (r: (u32, u128))
    requires
        0 < d <= n <= 0x1_0000_0000_0000_0000,
    ensures
        r.0 == exponent(n as int, d as int),
        r.1 == d * pow2(r.0 as nat),
        r.1 <= n < 2 * r.1,
        r.0 <= 64,
{
    let mut k: u32 = 0;
    let mut s: u128 = d;
    proof {
        lemma_pow2(0);
        vstd::arithmetic::power2::lemma2_to64();
        assert(d * 1 == d);
    }
    while n >= 2 * s
        invariant
            0 < d <= s <= n <= 0x1_0000_0000_0000_0000,
            k <= 64,
            s == d * pow2(k as nat),
            exponent(n as int, d as int) == k + exponent(n as int, s as int),
        decreases n - s,
    {
        proof {
            lemma_exponent_step(n as int, d as int, k as int, s as int);
            lemma_small_exponent(d as int, (k + 1) as nat);
        }
        s = 2 * s;
        k = k + 1;
    }
    (k, s)
}

/// `d * 2^k <= 2^64` bounds `k`.
proof fn lemma_small_exponent(d: int, k: nat)
    requires
        d >= 1,
        d * pow2(k) <= 0x1_0000_0000_0000_0000,
    ensures
        k <= 64,
{
    if k > 64 {
        vstd::arithmetic::power2::lemma2_to64();
        vstd::arithmetic::power2::lemma_pow2_strictly_increases(64, k);
        let p = pow2(k) as int;
        assert(d * p >= p) by (nonlinear_arith)
            requires
                d >= 1,
                p > 0,
        ;
    }
}

fn power_of_two(k: u32) -> (p: u128)
    requires
        k <= 100,
    ensures
        p == pow2(k as nat),
        p > 0,
{
    let mut p: u128 = 1;
    let mut i: u32 = 0;
    proof {
        vstd::arithmetic::power2::lemma2_to64();
    }
    while i < k
        invariant
            i <= k <= 100,
            p == pow2(i as nat),
            p > 0,
        decreases k - i,
    {
        proof {
            lemma_pow2_unfold((i + 1) as nat);
            if i + 1 < 101 {
                vstd::arithmetic::power2::lemma_pow2_strictly_increases((i + 1) as nat, 101);
            }
            lemma_pow2_101();
        }
        p = 2 * p;
        i += 1;
    }
    p
}

proof fn lemma_pow2_101()
    ensures
        pow2(101) == 0x20_0000_0000_0000_0000_0000_0000,
{
    vstd::arithmetic::power2::lemma2_to64();
    vstd::arithmetic::power2::lemma2_to64_rest();
    lemma_pow2_adds(64, 37);
    assert(pow2(64) * pow2(37) == 0x20_0000_0000_0000_0000_0000_0000);
}

/// `n` as a double.
fn to_double(n: u64) -> (r: u128)
    ensures
        r == double_of(n as int),
        r <= 0x1_0000_0000_0000_0000,
        n < 0x20_0000_0000_0000 ==> r == n,
        n >= 0x20_0000_0000_0000 ==> r >= 0x20_0000_0000_0000,
{
    proof {
        vstd::arithmetic::power2::lemma2_to64();
        vstd::arithmetic::power2::lemma2_to64_rest();
    }
    if n < 0x20_0000_0000_0000 {
        return n as u128;
    }
    let (k, s) = find_exponent(n as u128, 0x20_0000_0000_0000);
    let p: u128 = power_of_two(k + 1);
    proof {
        lemma_pow2_unfold((k + 1) as nat);
        let pk = pow2(k as nat) as int;
        // s = 2^53 * 2^k <= n < 2^64
        assert(pk <= 0x800) by (nonlinear_arith)
            requires
                0x20_0000_0000_0000 * pk == s,
                s <= n,
                n <= 0xFFFF_FFFF_FFFF_FFFF,
        ;
        assert(pk < 0x800) by (nonlinear_arith)
            requires
                0x20_0000_0000_0000 * pk == s,
                s <= n,
                n <= 0xFFFF_FFFF_FFFF_FFFF,
                pk <= 0x800,
        ;
    }
    let q: u128 = round_half_even(n as u128, p);
    proof {
        lemma_double_bounds(n as int, k as int, s as int, p as int, q as int);
    }
    q * p
}

proof fn lemma_double_bounds(n: int, k: int, s: int, p: int, q: int)
    requires
        0 <= k,
        s == 0x20_0000_0000_0000 * pow2(k as nat),
        p == 2 * pow2(k as nat),
        p > 0,
        s <= n < 2 * s,
        n <= 0xFFFF_FFFF_FFFF_FFFF,
        pow2(k as nat) < 0x800,
        q == round_even(n, p),
    ensures
        0x20_0000_0000_0000 <= q * p <= 0x1_0000_0000_0000_0000,
{
    let pk = pow2(k as nat) as int;
    let f = n / p;
    let r = n % p;
    vstd::arithmetic::div_mod::lemma_fundamental_div_mod(n, p);
    assert(0 <= r < p);
    // n < 2^53 * p, so f < 2^53
    assert(n < 0x20_0000_0000_0000 * p) by (nonlinear_arith)
        requires
            n < 2 * s,
            s == 0x20_0000_0000_0000 * pk,
            p == 2 * pk,
    ;
    assert(f < 0x20_0000_0000_0000) by (nonlinear_arith)
        requires
            n == p * f + r,
            r >= 0,
            p > 0,
            n < 0x20_0000_0000_0000 * p,
    ;
    assert(f >= 0x10_0000_0000_0000) by (nonlinear_arith)
        requires
            n == p * f + r,
            r < p,
            p > 0,
            n >= 0x10_0000_0000_0000 * p,
    ;
    assert(n >= 0x10_0000_0000_0000 * p);
    // 2^53 * p is a power of two, and at most 2^64
    lemma_pow2_unfold((k + 1) as nat);
    vstd::arithmetic::power2::lemma2_to64();
    vstd::arithmetic::power2::lemma2_to64_rest();
    if k > 10 {
        if k > 11 {
            vstd::arithmetic::power2::lemma_pow2_strictly_increases(11, k as nat);
        }
        assert(pow2(k as nat) >= 0x800);
        assert(false);
    }
    if k < 10 {
        vstd::arithmetic::power2::lemma_pow2_strictly_increases(k as nat, 10);
    }
    assert(pk <= 0x400);
    assert(p <= 0x800);
    assert(q * p <= 0x20_0000_0000_0000 * p) by (nonlinear_arith)
        requires
            q <= f + 1,
            f < 0x20_0000_0000_0000,
            p > 0,
    ;
    assert(q * p >= 0x10_0000_0000_0000 * p) by (nonlinear_arith)
        requires
            q >= f,
            f >= 0x10_0000_0000_0000,
            p > 0,
    ;
    assert(p >= 2) by {
        vstd::arithmetic::power2::lemma_pow2_pos(k as nat);
    }
}

/// The double quotient `n / d`: its mantissa and `2^shift`.
fn divide(n: u128, d: u128) -> (r: (u128, u128))
    requires
        0 < d <= 1_000_000_000,
        d <= n <= 0x1_0000_0000_0000_0000,
        exponent(n as int, d as int) <= 52,
    ensures
        r.0 == quotient(n as int, d as int).mantissa,
        r.1 == pow2(quotient(n as int, d as int).shift as nat),
        0 < r.1 <= 0x10_0000_0000_0000,
        r.0 <= 0x20_0000_0000_0001,
{
    let (k, s) = find_exponent(n, d);
    let p: u128 = power_of_two(52 - k);
    proof {
        vstd::arithmetic::power2::lemma2_to64();
        vstd::arithmetic::power2::lemma2_to64_rest();
        lemma_pow2_adds(k as nat, (52 - k) as nat);
        let pk = pow2(k as nat) as int;
        vstd::arithmetic::power2::lemma_pow2_pos(k as nat);
        assert(pk * p == 0x10_0000_0000_0000);
        assert(p <= 0x10_0000_0000_0000) by (nonlinear_arith)
            requires
                pk * p == 0x10_0000_0000_0000,
                pk >= 1,
                p >= 0,
        ;
        assert(s * p == d * 0x10_0000_0000_0000) by (nonlinear_arith)
            requires
                s == d * pk,
                pk * p == 0x10_0000_0000_0000,
        ;
        assert(n * p < 2 * (s * p)) by (nonlinear_arith)
            requires
                n < 2 * s,
                p > 0,
        ;
        let np = n * p;
        assert(np / (d as int) <= 0x20_0000_0000_0000) by (nonlinear_arith)
            requires
                np < 0x20_0000_0000_0000 * d,
                d > 0,
                np >= 0,
        ;
        assert(np < 0x20_0000_0000_0000 * d) by (nonlinear_arith)
            requires
                np < 2 * (s * p),
                s * p == d * 0x10_0000_0000_0000,
        ;
        assert(n * p >= 0) by (nonlinear_arith)
            requires
                n >= 0,
                p > 0,
        ;
    }
    (round_half_even(n * p, d), p)
}

/// The exponent of a size in gigabytes is small.
proof fn lemma_gb_exponent(n: int)
    requires
        1_000_000_000 <= n <= 0x1_0000_0000_0000_0000,
    ensures
        0 <= exponent(n, 1_000_000_000) <= 52,
{
    vstd::arithmetic::power2::lemma2_to64();
    vstd::arithmetic::power2::lemma2_to64_rest();
    assert(1_000_000_000 * pow2(36) > 0x1_0000_0000_0000_0000);
    lemma_exponent_bound(n, 1_000_000_000, 36);
}

proof fn lemma_exponent_bound(n: int, d: int, m: nat)
    requires
        0 < d <= n,
        n < d * pow2(m),
    ensures
        0 <= exponent(n, d) <= m,
    decreases m,
{
    if m == 0 {
        lemma_pow2(0);
        vstd::arithmetic::power2::lemma2_to64();
        assert(d * pow2(0) == d) by {
            assert(pow2(0) == 1);
        }
    } else if n >= 2 * d {
        lemma_pow2_unfold(m);
        let p = pow2((m - 1) as nat) as int;
        assert(d * (2 * p) == (2 * d) * p) by (nonlinear_arith);
        lemma_exponent_bound(n, 2 * d, (m - 1) as nat);
    }
}

// ---- texts ------------------------------------------------------------------

/// Tenths as a number with one digit behind the point.
pub open spec fn tenths_text(t: int) -> Seq<char> {
    dec((t / 10) as nat) + "."@ + dec((t % 10) as nat)
}

/// The double quotient of a size by 10^9.
pub open spec fn gigabytes(n: int) -> Quotient {
    quotient(double_of(n), 1_000_000_000)
}

/// Millions of bytes, rounded half up.
pub open spec fn megabytes_text(n: int) -> Seq<char> {
    dec(((n + 500_000) / 1_000_000) as nat) + " MB"@
}

/// Size in words: gigabytes with one digit behind the point, or megabytes.
pub open spec fn size_text(n: int) -> Seq<char> {
    if n >= 1_000_000_000 {
        tenths_text(scaled(gigabytes(n), 10)) + " GB"@
    } else {
        megabytes_text(n)
    }
}

/// The same, but from 100 gigabytes on without the digit.
pub open spec fn device_size_text(n: int) -> Seq<char> {
    if n >= 1_000_000_000 && at_least(gigabytes(n), 100) {
        dec(scaled(gigabytes(n), 1) as nat) + " GB"@
    } else {
        size_text(n)
    }
}

fn gigabyte_quotient(n: u64) -> (r: (u128, u128))
    requires
        n >= 1_000_000_000,
    ensures
        r.0 == gigabytes(n as int).mantissa,
        r.1 == pow2(gigabytes(n as int).shift as nat),
        0 < r.1 <= 0x10_0000_0000_0000,
        r.0 <= 0x20_0000_0000_0001,
{
    let x: u128 = to_double(n);
    proof {
        lemma_gb_exponent(x as int);
    }
    divide(x, 1_000_000_000)
}

/// Size in words, such as `57.3 GB`.
pub fn fmt_size(bytes: u64) -> (s: String)
    ensures
        s@ == size_text(bytes as int),
{
    let mut s: String = String::new();
    if bytes >= 1_000_000_000 {
        let (m, p) = gigabyte_quotient(bytes);
        let t: u128 = round_half_even(m * 10, p);
        proof {
            lemma_quotient_small((m * 10) as int, p as int);
        }
        push_dec(&mut s, (t / 10) as u64);
        s.push('.');
        push_dec(&mut s, (t % 10) as u64);
        proof {
            reveal_strlit(".");
            assert("."@ =~= seq!['.']);
        }
        s.append(" GB");
        assert(s@ =~= size_text(bytes as int));
    } else {
        push_dec(&mut s, (bytes + 500_000) / 1_000_000);
        s.append(" MB");
        assert(s@ =~= size_text(bytes as int));
    }
    s
}

proof fn lemma_quotient_small(a: int, b: int)
    requires
        0 <= a <= 0x200_0000_0000_0000,
        b > 0,
    ensures
        a / b <= a,
{
    assert(a / b <= a) by (nonlinear_arith)
        requires
            a >= 0,
            b > 0,
    ;
}

/// Size of a device in words: as `fmt_size`, but whole gigabytes from 100 on.
pub fn fmt_device_size(bytes: u64) -> (s: String)
    ensures
        s@ == device_size_text(bytes as int),
{
    if bytes >= 1_000_000_000 {
        let (m, p) = gigabyte_quotient(bytes);
        if m >= 100 * p {
            let t: u128 = round_half_even(m, p);
            proof {
                lemma_quotient_small(m as int, p as int);
                assert(gigabytes(bytes as int).mantissa * 1 == m);
            }
            let mut s: String = String::new();
            push_dec(&mut s, t as u64);
            s.append(" GB");
            assert(s@ =~= device_size_text(bytes as int));
            return s;
        }
    }
    fmt_size(bytes)
}

// ---- laws -------------------------------------------------------------------

proof fn lemma_round_even(a: int, b: int)
    requires
        b > 0,
    ensures
        -b <= 2 * (round_even(a, b) * b - a) <= b,
{
    let q = a / b;
    let r = a % b;
    vstd::arithmetic::div_mod::lemma_fundamental_div_mod(a, b);
    vstd::arithmetic::div_mod::lemma_mod_bound(a, b);
    assert(b * q == q * b) by (nonlinear_arith);
    assert((q + 1) * b == q * b + b) by (nonlinear_arith);
}

/// Rounding takes the nearest integer, and of two that are as near the even one.
pub proof fn law_round_half_even(a: int, b: int)
    requires
        b > 0,
    ensures
        -b <= 2 * (round_even(a, b) * b - a) <= b,
        2 * (round_even(a, b) * b - a) == b || 2 * (round_even(a, b) * b - a) == -b ==> round_even(
            a,
            b,
        ) % 2 == 0,
{
    lemma_round_even(a, b);
    let q = a / b;
    vstd::arithmetic::div_mod::lemma_fundamental_div_mod(a, b);
    assert(b * q == q * b) by (nonlinear_arith);
    assert((q + 1) * b == q * b + b) by (nonlinear_arith);
}

/// The binary exponent of a quotient: how often its divisor can be doubled.
pub proof fn law_exponent(n: int, d: int)
    requires
        0 < d <= n,
    ensures
        exponent(n, d) >= 0,
        d * pow2(exponent(n, d) as nat) <= n < 2 * (d * pow2(exponent(n, d) as nat)),
    decreases n - d,
{
    vstd::arithmetic::power2::lemma2_to64();
    if n >= 2 * d {
        law_exponent(n, 2 * d);
        let k = exponent(n, 2 * d);
        lemma_pow2_unfold((k + 1) as nat);
        let p = pow2(k as nat) as int;
        assert((2 * d) * p == d * (2 * p)) by (nonlinear_arith);
    } else {
        assert(d * pow2(0) == d) by {
            assert(pow2(0) == 1);
        }
    }
}

/// A quotient is the nearest one with 53 significant bits.
#[verifier::rlimit(40)]
pub proof fn law_quotient_is_nearest(n: int, d: int)
    requires
        0 < d <= n,
        exponent(n, d) <= 52,
    ensures
        ({
            let q = quotient(n, d);
            let p = pow2(q.shift as nat) as int;
            &&& 0 <= q.shift <= 52
            &&& -d <= 2 * (q.mantissa * d - n * p) <= d
            &&& 0x10_0000_0000_0000 <= q.mantissa <= 0x20_0000_0000_0000
        }),
{
    law_exponent(n, d);
    vstd::arithmetic::power2::lemma2_to64();
    vstd::arithmetic::power2::lemma2_to64_rest();
    let k = exponent(n, d);
    let p = pow2((52 - k) as nat) as int;
    let pk = pow2(k as nat) as int;
    lemma_pow2_adds(k as nat, (52 - k) as nat);
    lemma_round_even(n * p, d);
    let m = quotient(n, d).mantissa;
    let full = 0x10_0000_0000_0000int;
    assert(pk * p == full);
    assert(d * full <= n * p) by (nonlinear_arith)
        requires
            d * pk <= n,
            pk * p == full,
            p >= 0,
    ;
    vstd::arithmetic::power2::lemma_pow2_pos((52 - k) as nat);
    assert(n * p < 2 * (d * full)) by (nonlinear_arith)
        requires
            n < 2 * (d * pk),
            pk * p == full,
            p > 0,
    ;
    assert(m >= full) by (nonlinear_arith)
        requires
            2 * (m * d - n * p) >= -d,
            d * full <= n * p,
            d > 0,
    ;
    assert(m <= 2 * full) by (nonlinear_arith)
        requires
            2 * (m * d - n * p) <= d,
            n * p < 2 * (d * full),
            d > 0,
    ;
}

/// A quotient by 10^9 that is scaled and rounded is off by little more than half
/// a unit.
#[verifier::rlimit(40)]
proof fn lemma_scaled_close(n: int, scale: int, unit: int)
    requires
        1_000_000_000 <= n < 0x20_0000_0000_0000,
        scale == 1 && unit == 1_000_000_000 || scale == 10 && unit == 100_000_000,
    ensures
        -unit - 4 <= 2 * (scaled(gigabytes(n), scale) * unit - n) <= unit + 4,
{
    vstd::arithmetic::power2::lemma2_to64();
    vstd::arithmetic::power2::lemma2_to64_rest();
    assert(double_of(n) == n);
    assert(1_000_000_000 * pow2(24) > 0x20_0000_0000_0000);
    lemma_exponent_bound(n, 1_000_000_000, 24);
    let k = exponent(n, 1_000_000_000);
    let s = 52 - k;
    let p = pow2(s as nat) as int;
    let m = round_even(n * p, 1_000_000_000);
    let t = round_even(m * scale, p);
    assert(p >= 0x1000_0000) by {
        if s > 28 {
            vstd::arithmetic::power2::lemma_pow2_strictly_increases(28, s as nat);
        }
    }
    lemma_round_even(n * p, 1_000_000_000);
    lemma_round_even(m * scale, p);
    let d = t * unit - n;
    let e1 = m * 1_000_000_000 - n * p;
    let e2 = t * p - m * scale;
    assert(d * p == e2 * unit + e1) by (nonlinear_arith)
        requires
            d == t * unit - n,
            e1 == m * 1_000_000_000 - n * p,
            e2 == t * p - m * scale,
            scale * unit == 1_000_000_000,
    ;
    assert(-(p * unit) <= 2 * (e2 * unit) <= p * unit) by (nonlinear_arith)
        requires
            -p <= 2 * e2 <= p,
            unit > 0,
    ;
    assert(2 * d <= unit + 4) by (nonlinear_arith)
        requires
            2 * (d * p) <= p * unit + 1_000_000_000,
            p >= 0x1000_0000,
    ;
    assert(2 * d >= -unit - 4) by (nonlinear_arith)
        requires
            2 * (d * p) >= -(p * unit) - 1_000_000_000,
            p >= 0x1000_0000,
    ;
}

/// Sizes in words are right to half of their last digit: in megabytes below
/// 10^9, and in tenths of gigabytes from there on (for a size below 2^53, with at
/// most 2 bytes more for the rounding of the quotient).
pub proof fn law_sizes_are_close(n: int)
    requires
        0 <= n < 0x20_0000_0000_0000,
    ensures
        n < 1_000_000_000 ==> exists|mb: nat|
            size_text(n) == #[trigger] dec(mb) + " MB"@ && -500_000 < mb * 1_000_000 - n <= 500_000,
        n >= 1_000_000_000 ==> exists|whole: nat, tenth: nat|
            size_text(n) == (#[trigger] dec(whole)) + "."@ + (#[trigger] dec(tenth)) + " GB"@
                && tenth < 10 && -50_000_002 <= whole * 1_000_000_000 + tenth * 100_000_000 - n
                <= 50_000_002,
{
    if n < 1_000_000_000 {
        let mb = ((n + 500_000) / 1_000_000) as nat;
        assert(size_text(n) == dec(mb) + " MB"@);
    } else {
        lemma_scaled_close(n, 10, 100_000_000);
        let t = scaled(gigabytes(n), 10);
        let whole = (t / 10) as nat;
        let tenth = (t % 10) as nat;
        assert(size_text(n) == dec(whole) + "."@ + dec(tenth) + " GB"@);
    }
}

/// The size of a device in words is that of any size below 100 gigabytes, and
/// whole gigabytes, right to half of one, from there on.
#[verifier::rlimit(40)]
pub proof fn law_device_sizes_are_close(n: int)
    requires
        0 <= n < 0x20_0000_0000_0000,
    ensures
        n < 99_999_999_998 ==> device_size_text(n) == size_text(n),
        n >= 100_000_000_002 ==> exists|gb: nat|
            device_size_text(n) == #[trigger] dec(gb) + " GB"@ && -500_000_002 <= gb * 1_000_000_000
                - n <= 500_000_002,
{
    if n >= 1_000_000_000 {
        vstd::arithmetic::power2::lemma2_to64();
        vstd::arithmetic::power2::lemma2_to64_rest();
        assert(double_of(n) == n);
        assert(1_000_000_000 * pow2(24) > 0x20_0000_0000_0000);
        lemma_exponent_bound(n, 1_000_000_000, 24);
        let q = gigabytes(n);
        let p = pow2(q.shift as nat) as int;
        assert(p >= 0x1000_0000) by {
            if q.shift > 28 {
                vstd::arithmetic::power2::lemma_pow2_strictly_increases(28, q.shift as nat);
            }
        }
        lemma_round_even(n * p, 1_000_000_000);
        let m = q.mantissa;
        if n < 99_999_999_998 {
            assert(m < 100 * p) by (nonlinear_arith)
                requires
                    2 * (m * 1_000_000_000 - n * p) <= 1_000_000_000,
                    n <= 99_999_999_997,
                    p >= 0x1000_0000,
            ;
        }
        if n >= 100_000_000_002 {
            assert(m >= 100 * p) by (nonlinear_arith)
                requires
                    2 * (m * 1_000_000_000 - n * p) >= -1_000_000_000,
                    n >= 100_000_000_002,
                    p >= 0x1000_0000,
            ;
            lemma_scaled_close(n, 1, 1_000_000_000);
            let gb = scaled(q, 1) as nat;
            assert(device_size_text(n) == dec(gb) + " GB"@);
        }
    }
}

} // verus!
