//! Rounding to single precision, in integers: what `x as f32` gives for a
//! whole number `x`, the item price that the campaign computes in single
//! precision as `base * (1 + power / 10)`, and the salvage share that it
//! computes as the single-precision product `price as f32 * 0.35`.

use vstd::prelude::*;

verus! {

/// 2^k.
pub open spec fn two_pow(k: nat) -> nat
    decreases k,
{
    if k == 0 { 1 } else { 2 * two_pow((k - 1) as nat) }
}

/// Number of binary digits of `v` (0 for 0).
pub open spec fn bit_len(v: nat) -> nat
    decreases v,
{
    if v == 0 { 0 } else { 1 + bit_len(v / 2) }
}

/// The multiple of 2^k nearest to `v`, ties going to the even multiple.
pub open spec fn round_even(v: nat, k: nat) -> nat {
    let h = two_pow(k);
    let q = v / h;
    let r = v % h;
    if 2 * r < h {
        q * h
    } else if 2 * r > h {
        (q + 1) * h
    } else if q % 2 == 0 {
        q * h
    } else {
        (q + 1) * h
    }
}

/// The single-precision number nearest to the whole number `v` (ties to
/// an even significand): `v` itself when it has at most 24 binary digits,
/// else `v` rounded to 24 significant digits.
pub open spec fn to_f32(v: nat) -> nat {
    if bit_len(v) <= 24 { v } else { round_even(v, (bit_len(v) - 24) as nat) }
}

/// The single-precision 0.35 is 11744051 / 2^25.
pub const F32_035_SIGNIFICAND: u64 = 11744051;

/// `(price as f32 * 0.35) as u32`: the price rounded to single precision,
/// times the single-precision 0.35, the product rounded to single
/// precision, then truncated.
pub open spec fn f32_share_035(price: u32) -> nat {
    to_f32(to_f32(price as nat) * 11744051) / two_pow(25)
}

proof fn lemma_two_pow_pos(k: nat)
    ensures
        two_pow(k) >= 1,
    decreases k,
{
    if k > 0 {
        lemma_two_pow_pos((k - 1) as nat);
    }
}

/// A number of `n` binary digits lies in [2^(n-1), 2^n).
proof fn lemma_bit_len_bounds(v: nat)
    ensures
        v < two_pow(bit_len(v)),
        v > 0 ==> two_pow((bit_len(v) - 1) as nat) <= v,
    decreases v,
{
    if v > 0 {
        lemma_bit_len_bounds(v / 2);
    }
}

/// 2^a · 2^b = 2^(a+b).
proof fn lemma_two_pow_add(a: nat, b: nat)
    ensures
        two_pow(a) * two_pow(b) == two_pow(a + b),
    decreases a,
{
    if a == 0 {
        assert(two_pow(0) == 1);
        assert(a + b == b);
    } else {
        let a1 = (a - 1) as nat;
        lemma_two_pow_add(a1, b);
        assert(a + b == (a1 + b) + 1);
        assert(two_pow(a + b) == 2 * two_pow(a1 + b));
        assert(two_pow(a) == 2 * two_pow(a1));
        assert(two_pow(a) * two_pow(b) == 2 * (two_pow(a1) * two_pow(b))) by (nonlinear_arith)
            requires
                two_pow(a) == 2 * two_pow(a1),
        ;
    }
}

/// A number below 2^k has at most k binary digits.
proof fn lemma_bit_len_le(v: nat, k: nat)
    requires
        v < two_pow(k),
    ensures
        bit_len(v) <= k,
    decreases k,
{
    if v > 0 {
        lemma_bit_len_le(v / 2, (k - 1) as nat);
    }
}

/// Number of binary digits, computed.
fn bit_length(v: u128) -> (n: u128)
    requires
        v < 0x10_0000_0000_0000_0000_0000_0000,
    ensures
        n == bit_len(v as nat),
        n <= 100,
{
    let mut t = v;
    let mut n: u128 = 0;
    proof {
        lemma_two_pow_100();
        lemma_bit_len_le(v as nat, 100);
    }
    while t > 0
        invariant
            bit_len(v as nat) == n + bit_len(t as nat),
            n + bit_len(t as nat) <= 100,
        decreases t,
    {
        t = t / 2;
        n = n + 1;
    }
    n
}

/// 2^100.
proof fn lemma_two_pow_100()
    ensures
        two_pow(100) == 0x10_0000_0000_0000_0000_0000_0000,
{
    reveal_with_fuel(two_pow, 41);
    assert(two_pow(40) == 0x100_0000_0000);
    assert(two_pow(20) == 0x10_0000);
    lemma_two_pow_add(40, 40);
    lemma_two_pow_add(80, 20);
    assert(two_pow(80) == 0x100_0000_0000 * 0x100_0000_0000);
}

/// 2^k, computed.
fn pow_two(k: u128) -> (h: u128)
    requires
        k <= 100,
    ensures
        h == two_pow(k as nat),
{
    let mut h: u128 = 1;
    let mut i: u128 = 0;
    proof {
        lemma_two_pow_100();
        lemma_two_pow_add(0, 100);
    }
    while i < k
        invariant
            i <= k <= 100,
            h == two_pow(i as nat),
            two_pow(i as nat) * two_pow((100 - i) as nat) == 0x10_0000_0000_0000_0000_0000_0000,
        decreases k - i,
    {
        proof {
            lemma_two_pow_add((i + 1) as nat, (99 - i) as nat);
            lemma_two_pow_add(i as nat, (100 - i) as nat);
            lemma_two_pow_100();
            lemma_two_pow_pos((99 - i) as nat);
            assert(two_pow((i + 1) as nat) <= 0x10_0000_0000_0000_0000_0000_0000) by (nonlinear_arith)
                requires
                    two_pow((i + 1) as nat) * two_pow((99 - i) as nat) == 0x10_0000_0000_0000_0000_0000_0000,
                    two_pow((99 - i) as nat) >= 1,
            ;
        }
        h = h * 2;
        i = i + 1;
    }
    h
}

/// `v as f32`, as a whole number.
pub fn round_to_f32(v: u128) -> (r: u128)
    requires
        v < 0x10_0000_0000_0000_0000_0000_0000,
    ensures
        r == to_f32(v as nat),
        r <= v + v / 0x80_0000,
{
    let n = bit_length(v);
    if n <= 24 {
        return v;
    }
    proof {
        lemma_two_pow_100();
        lemma_bit_len_le(v as nat, 100);
        lemma_bit_len_bounds(v as nat);
        lemma_two_pow_add((n - 24) as nat, 23);
        assert((n - 24) as nat + 23 == (n - 1) as nat);
        lemma_two_pow_pos(23);
        lemma_two_pow_pos((n - 24) as nat);
    }
    let k = n - 24;
    let h = pow_two(k);
    assert(h <= v && h * two_pow(23) <= v) by (nonlinear_arith)
        requires
            h * two_pow(23) == two_pow((n - 1) as nat),
            two_pow((n - 1) as nat) <= v,
            two_pow(23) >= 1,
            h >= 1,
    ;
    let q = v / h;
    let r = v % h;
    assert(q * h + r == v && r < h) by (nonlinear_arith)
        requires
            h >= 1,
            q == v / h,
            r == v % h,
    ;
    proof {
        reveal_with_fuel(two_pow, 24);
        assert(two_pow(23) == 0x80_0000);
    }
    assert(h <= v / 0x80_0000) by (nonlinear_arith)
        requires
            h * 0x80_0000 <= v,
    ;
    assert((q + 1) * h <= v + v / 0x80_0000) by (nonlinear_arith)
        requires
            q * h + r == v,
            r >= 0,
            h <= v / 0x80_0000,
    ;
    if 2 * r < h {
        q * h
    } else if 2 * r > h {
        (q + 1) * h
    } else if q % 2 == 0 {
        q * h
    } else {
        (q + 1) * h
    }
}

/// `n / d` rounded to a multiple of 2^k, ties going to the even multiple.
pub open spec fn round_grid(n: nat, d: nat, k: nat) -> nat {
    let h = d * two_pow(k);
    let q = n / h;
    let r = n % h;
    if 2 * r < h {
        q * two_pow(k)
    } else if 2 * r > h {
        (q + 1) * two_pow(k)
    } else if q % 2 == 0 {
        q * two_pow(k)
    } else {
        (q + 1) * two_pow(k)
    }
}

/// The exponent of the last of 24 significant binary digits of a number
/// whose integer part is `v` (0 when `v` has at most 24 digits).
pub open spec fn grid_exp(v: nat) -> nat {
    if bit_len(v) <= 24 { 0 } else { (bit_len(v) - 24) as nat }
}

/// `n / d` rounded to 24 significant binary digits at the scale of whole
/// numbers (ties to an even significand): what single precision gives for
/// a quotient of at least 2^23, or 0.
pub open spec fn to_f32_frac(n: nat, d: nat) -> nat {
    round_grid(n, d, grid_exp(n / d))
}

/// `n / d` rounded as `to_f32_frac` says, computed.
fn round_frac_to_f32(n: u128, d: u128) -> (r: u128)
    requires
        1 <= d <= 16,
        n < 0x10_0000_0000_0000_0000_0000_0000,
    ensures
        r == to_f32_frac(n as nat, d as nat),
        r <= 2 * (n / d) + 1,
{
    let v = n / d;
    let b = bit_length(v);
    let k: u128 = if b <= 24 { 0 } else { b - 24 };
    proof {
        lemma_two_pow_100();
        lemma_bit_len_le(v as nat, 100);
        lemma_bit_len_bounds(v as nat);
        lemma_two_pow_pos(k as nat);
        if b > 24 {
            lemma_two_pow_add(k as nat, 23);
            assert(k as nat + 23 == (b - 1) as nat);
            lemma_two_pow_pos(23);
            reveal_with_fuel(two_pow, 24);
            assert(two_pow(23) == 0x80_0000);
        }
    }
    let t = pow_two(k);
    assert(t <= v || t == 1) by (nonlinear_arith)
        requires
            b > 24 ==> t * 0x80_0000 == two_pow((b - 1) as nat),
            b > 24 ==> two_pow((b - 1) as nat) <= v,
            b <= 24 ==> t == 1,
            t >= 1,
    ;
    assert(v * d <= n) by (nonlinear_arith)
        requires
            v == n / d,
            d >= 1,
    ;
    assert(t * d <= n || t == 1) by (nonlinear_arith)
        requires
            t <= v || t == 1,
            v * d <= n,
            d >= 1,
    ;
    assert(d * t >= 1 && d * t <= 16 * v + 16) by (nonlinear_arith)
        requires
            d >= 1,
            t >= 1,
            d <= 16,
            t <= v || t == 1,
    ;
    let h = d * t;
    let q = n / h;
    let r = n % h;
    assert(q * h + r == n && r < h && q <= v / t) by (nonlinear_arith)
        requires
            h >= 1,
            h == d * t,
            t >= 1,
            d >= 1,
            q == n / h,
            r == n % h,
            v == n / d,
    ;
    assert((q + 1) * t <= 2 * v + 1 && q * t <= v) by (nonlinear_arith)
        requires
            q <= v / t,
            t >= 1,
            t <= v || t == 1,
    ;
    if 2 * r < h {
        q * t
    } else if 2 * r > h {
        (q + 1) * t
    } else if q % 2 == 0 {
        q * t
    } else {
        (q + 1) * t
    }
}

/// A larger number has at least as many binary digits.
proof fn lemma_bit_len_mono(a: nat, b: nat)
    requires
        a <= b,
    ensures
        bit_len(a) <= bit_len(b),
    decreases b,
{
    if a > 0 {
        lemma_bit_len_mono(a / 2, b / 2);
    }
}

/// 2^i <= 2^j for i <= j.
proof fn lemma_two_pow_mono(i: nat, j: nat)
    requires
        i <= j,
    ensures
        two_pow(i) <= two_pow(j),
{
    lemma_two_pow_add(i, (j - i) as nat);
    lemma_two_pow_pos(i);
    lemma_two_pow_pos((j - i) as nat);
    assert(two_pow(i) <= two_pow(i) * two_pow((j - i) as nat)) by (nonlinear_arith)
        requires
            two_pow((j - i) as nat) >= 1,
            two_pow(i) >= 1,
    ;
}

/// Rounding to a fixed grid keeps the order.
proof fn lemma_round_grid_mono(n1: nat, n2: nat, d: nat, k: nat)
    requires
        n1 <= n2,
        d >= 1,
    ensures
        round_grid(n1, d, k) <= round_grid(n2, d, k),
{
    let t = two_pow(k);
    lemma_two_pow_pos(k);
    let h = d * t;
    assert(h >= 1) by (nonlinear_arith)
        requires
            d >= 1,
            t >= 1,
            h == d * t,
    ;
    let q1 = n1 / h;
    let q2 = n2 / h;
    vstd::arithmetic::div_mod::lemma_div_is_ordered(n1 as int, n2 as int, h as int);
    vstd::arithmetic::div_mod::lemma_fundamental_div_mod(n1 as int, h as int);
    vstd::arithmetic::div_mod::lemma_fundamental_div_mod(n2 as int, h as int);
    if q1 < q2 {
        assert((q1 + 1) * t <= q2 * t) by (nonlinear_arith)
            requires
                q1 + 1 <= q2,
                t >= 1,
        ;
        assert(q1 * t <= (q1 + 1) * t) by (nonlinear_arith)
            requires
                t >= 1,
        ;
        assert(q2 * t <= (q2 + 1) * t) by (nonlinear_arith)
            requires
                t >= 1,
        ;
    } else {
        assert(n1 % h <= n2 % h);
        assert(q1 * t <= (q1 + 1) * t) by (nonlinear_arith)
            requires
                t >= 1,
        ;
    }
}

/// The rounded quotient lies between 2^(b-1) and 2^b, where b is the
/// number of binary digits of the integer part.
proof fn lemma_round_grid_bounds(n: nat, d: nat)
    requires
        d >= 1,
    ensures
        to_f32_frac(n, d) <= two_pow(bit_len(n / d)),
        bit_len(n / d) >= 1 ==> two_pow((bit_len(n / d) - 1) as nat) <= to_f32_frac(n, d),
{
    let v = n / d;
    let b = bit_len(v);
    let k = grid_exp(v);
    let t = two_pow(k);
    lemma_two_pow_pos(k);
    lemma_bit_len_bounds(v);
    vstd::arithmetic::div_mod::lemma_div_denominator(n as int, d as int, t as int);
    let q = v / t;
    assert(n / (d * t) == q);
    let e: nat = if b <= 24 { b } else { 24 };
    lemma_two_pow_add(k, e);
    assert(k + e == b);
    let m = two_pow(e);
    assert(t * m == two_pow(b));
    assert(q + 1 <= m && (q + 1) * t <= two_pow(b)) by (nonlinear_arith)
        requires
            q == v / t,
            v < t * m,
            t >= 1,
            t * m == two_pow(b),
    ;
    assert(q * t <= (q + 1) * t) by (nonlinear_arith)
        requires
            t >= 1,
    ;
    assert(q * t <= to_f32_frac(n, d) <= (q + 1) * t);
    if b >= 1 {
        if b > 24 {
            lemma_two_pow_add(k, 23);
            assert(k + 23 == (b - 1) as nat);
            assert(q * t >= two_pow((b - 1) as nat)) by (nonlinear_arith)
                requires
                    q == v / t,
                    t * two_pow(23) == two_pow((b - 1) as nat),
                    two_pow((b - 1) as nat) <= v,
                    t >= 1,
            ;
        } else {
            assert(t == 1);
            assert(q * t == v) by (nonlinear_arith)
                requires
                    t == 1,
                    q == v / t,
            ;
        }
    }
}

/// Rounding a quotient to 24 significant digits keeps the order.
proof fn lemma_to_f32_frac_mono(n1: nat, n2: nat, d: nat)
    requires
        n1 <= n2,
        d >= 1,
    ensures
        to_f32_frac(n1, d) <= to_f32_frac(n2, d),
{
    let v1 = n1 / d;
    let v2 = n2 / d;
    vstd::arithmetic::div_mod::lemma_div_is_ordered(n1 as int, n2 as int, d as int);
    lemma_bit_len_mono(v1, v2);
    if grid_exp(v1) == grid_exp(v2) {
        lemma_round_grid_mono(n1, n2, d, grid_exp(v1));
    } else {
        lemma_round_grid_bounds(n1, d);
        lemma_round_grid_bounds(n2, d);
        lemma_two_pow_mono(bit_len(v1), (bit_len(v2) - 1) as nat);
    }
}

/// `to_f32` is the quotient rounding with denominator 1.
proof fn lemma_to_f32_as_frac(v: nat)
    ensures
        to_f32(v) == to_f32_frac(v, 1),
{
    assert(v / 1 == v);
    lemma_two_pow_pos(grid_exp(v));
    assert(1 * two_pow(grid_exp(v)) == two_pow(grid_exp(v)));
    if bit_len(v) <= 24 {
        assert(two_pow(0) == 1);
    }
}

/// Rounding a whole number to single precision keeps the order.
pub proof fn lemma_to_f32_mono(a: nat, b: nat)
    requires
        a <= b,
    ensures
        to_f32(a) <= to_f32(b),
{
    lemma_to_f32_as_frac(a);
    lemma_to_f32_as_frac(b);
    lemma_to_f32_frac_mono(a, b, 1);
}

/// A higher power never lowers the price.
pub proof fn lemma_f32_price_mono(base: nat, p1: u32, p2: u32)
    requires
        p1 <= p2,
    ensures
        f32_price(base, p1) <= f32_price(base, p2),
{
    let s = two_pow(27);
    lemma_to_f32_mono(p1 as nat, p2 as nat);
    let a1 = to_f32(p1 as nat);
    let a2 = to_f32(p2 as nat);
    assert(a1 * s <= a2 * s) by (nonlinear_arith)
        requires
            a1 <= a2,
    ;
    lemma_to_f32_frac_mono(a1 * s, a2 * s, 10);
    let q1 = to_f32_frac(a1 * s, 10);
    let q2 = to_f32_frac(a2 * s, 10);
    lemma_to_f32_mono(s + q1, s + q2);
    let b1 = to_f32(s + q1);
    let b2 = to_f32(s + q2);
    assert(base * b1 <= base * b2) by (nonlinear_arith)
        requires
            b1 <= b2,
    ;
    lemma_to_f32_mono(base * b1, base * b2);
    lemma_two_pow_pos(27);
    vstd::arithmetic::div_mod::lemma_div_is_ordered(to_f32(base * b1) as int, to_f32(base * b2) as int, s as int);
}

/// `(base as f32 * (1.0 + power as f32 / 10.0)) as u32`: every operation
/// rounded to single precision, the values kept as whole numbers at the
/// scale 2^27 (so the quotient by ten, at least a tenth, keeps all its
/// digits), the result truncated and capped at `u32::MAX`.
pub open spec fn f32_price(base: nat, power: u32) -> nat {
    let p = to_f32(power as nat);
    let q = to_f32_frac(p * two_pow(27), 10);
    let a = to_f32(two_pow(27) + q);
    let t = to_f32(base * a) / two_pow(27);
    if t > u32::MAX { u32::MAX as nat } else { t }
}

/// `(base as f32 * (1.0 + power as f32 / 10.0)) as u32`, in integers
/// (see `f32_price`).
pub fn price_f32(base: u32, power: u32) -> (r: u32)
    requires
        base <= 1000,
    ensures
        r == f32_price(base as nat, power),
{
    proof {
        reveal_with_fuel(two_pow, 28);
        assert(two_pow(27) == 0x800_0000);
    }
    let s: u128 = 0x800_0000;
    let p = round_to_f32(power as u128);
    assert(p <= 0x1_0000_0200) by (nonlinear_arith)
        requires
            p <= power + power / 0x80_0000,
            power < 0x1_0000_0000,
    ;
    let q = round_frac_to_f32(p * s, 10);
    assert(q <= 0x1000_0000_0000_0000) by (nonlinear_arith)
        requires
            q <= 2 * ((p * s) / 10) + 1,
            p <= 0x1_0000_0200,
            s == 0x800_0000,
    ;
    let a = round_to_f32(s + q);
    assert(a <= 0x4000_0000_0000_0000) by (nonlinear_arith)
        requires
            a <= (s + q) + (s + q) / 0x80_0000,
            q <= 0x1000_0000_0000_0000,
            s == 0x800_0000,
    ;
    assert((base as u128) * a <= 1000 * 0x4000_0000_0000_0000) by (nonlinear_arith)
        requires
            base <= 1000,
            a <= 0x4000_0000_0000_0000,
    ;
    let m = round_to_f32(base as u128 * a);
    let t = m / s;
    if t > 0xffff_ffff {
        0xffff_ffff
    } else {
        t as u32
    }
}

/// `(price as f32 * 0.35) as u32`, in integers (see `f32_share_035`).
pub fn share_035(price: u32) -> (s: u32)
    ensures
        s == f32_share_035(price),
{
    let p = round_to_f32(price as u128);
    assert(p <= 0x1_0000_0200) by (nonlinear_arith)
        requires
            p <= price + price / 0x80_0000,
            price < 0x1_0000_0000,
    ;
    let sig = F32_035_SIGNIFICAND as u128;
    assert(p * sig <= 0x1_0000_0200 * 11744051) by (nonlinear_arith)
        requires
            p <= 0x1_0000_0200,
            sig == 11744051,
    ;
    let x = round_to_f32(p * sig);
    proof {
        reveal_with_fuel(two_pow, 26);
        assert(two_pow(25) == 0x200_0000);
    }
    let h: u128 = 0x200_0000;
    let y = x / h;
    assert(x <= 0x1_0000_0200 * 11744051 + 0x1_0000_0200 * 11744051 / 0x80_0000) by (nonlinear_arith)
        requires
            x <= p * 11744051 + (p * 11744051) / 0x80_0000,
            p * 11744051 <= 0x1_0000_0200 * 11744051,
    ;
    assert(y <= 0xffff_ffff) by (nonlinear_arith)
        requires
            x <= 0x1_0000_0200 * 11744051 + 0x1_0000_0200 * 11744051 / 0x80_0000,
            y == x / 0x200_0000,
    ;
    y as u32
}

} // verus!
