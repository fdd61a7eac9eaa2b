//! An exact integer model of the binary64 roundings that the download counts
//! go through on their way to the report: a count converted to a binary64
//! value, divided by a power of ten, and printed with one decimal.
//!
//! A binary64 value is modelled as a pair `(mant, exp)` that stands for
//! `mant * 2^exp`. All values here are at least 1, so only normal numbers
//! occur: the mantissa keeps 53 significant bits, and every rounding goes to
//! the nearest representable value, ties to the even mantissa.
use vstd::prelude::*;

verus! {

/// `2^k`.
pub open spec fn two_to(k: nat) -> nat
    decreases k,
{
    if k == 0 {
        1
    } else {
        2 * two_to((k - 1) as nat)
    }
}

/// The binary exponent of the quotient `a / b`: the largest `e` with
/// `b * 2^e <= a` (for `a >= b >= 1`).
pub open spec fn ratio_exponent(a: nat, b: nat) -> nat
    decreases a - b,
{
    if b == 0 || a < 2 * b {
        0
    } else {
        1 + ratio_exponent(a, 2 * b)
    }
}

/// `n / d` rounded to the nearest integer, ties to the even one.
pub open spec fn round_half_even(n: nat, d: nat) -> nat {
    let q = n / d;
    let r = n % d;
    if 2 * r > d || (2 * r == d && q % 2 == 1) {
        q + 1
    } else {
        q
    }
}

/// The binary64 value nearest to the quotient `a / b` (for `a >= b >= 1`),
/// as `(mant, exp)`: the quotient scaled to 53 significant bits and rounded.
pub open spec fn nearest_binary64(a: nat, b: nat) -> (nat, int) {
    let e = ratio_exponent(a, b);
    if e <= 52 {
        (round_half_even(a * two_to((52 - e) as nat), b), e - 52)
    } else {
        (round_half_even(a, b * two_to((e - 52) as nat)), e - 52)
    }
}

/// The binary64 value of the integer `n >= 1`, as `n as f64` gives it.
pub open spec fn binary64_of(n: nat) -> (nat, int) {
    nearest_binary64(n, 1)
}

/// The binary64 quotient of the value `x` by the integer `q`, as the
/// division `x / q` of two binary64 values gives it.
pub open spec fn binary64_div(x: (nat, int), q: nat) -> (nat, int) {
    if x.1 >= 0 {
        nearest_binary64(x.0 * two_to(x.1 as nat), q)
    } else {
        nearest_binary64(x.0, q * two_to((-x.1) as nat))
    }
}

/// The value `x` in tenths, rounded to the nearest tenth (ties to even), as
/// formatting with one decimal (`{:.1}`) prints it.
pub open spec fn tenths_of(x: (nat, int)) -> nat {
    if x.1 >= 0 {
        10 * x.0 * two_to(x.1 as nat)
    } else {
        round_half_even(10 * x.0, two_to((-x.1) as nat))
    }
}

pub proof fn lemma_two_to_positive(k: nat)
    ensures
        two_to(k) >= 1,
    decreases k,
{
    if k > 0 {
        lemma_two_to_positive((k - 1) as nat);
    }
}

pub proof fn lemma_two_to_adds(j: nat, k: nat)
    ensures
        two_to(j + k) == two_to(j) * two_to(k),
    decreases j,
{
    if j > 0 {
        lemma_two_to_adds((j - 1) as nat, k);
        let x = two_to((j - 1) as nat);
        let y = two_to(k);
        assert(two_to(j) == 2 * x);
        assert(((j + k) - 1) as nat == ((j - 1) as nat + k) as nat);
        assert(two_to(j + k) == 2 * two_to(((j - 1) as nat + k) as nat));
        assert(two_to(j) * y == 2 * (x * y)) by (nonlinear_arith)
            requires
                two_to(j) == 2 * x,
        ;
    } else {
        assert(two_to(j) == 1);
    }
}

pub proof fn lemma_two_to_monotone(j: nat, k: nat)
    requires
        j <= k,
    ensures
        two_to(j) <= two_to(k),
    decreases k,
{
    if j < k {
        lemma_two_to_monotone(j, (k - 1) as nat);
        lemma_two_to_positive((k - 1) as nat);
    }
}

pub proof fn lemma_two_to_product(j: nat, k: nat, x: nat, y: nat)
    requires
        two_to(j) == x,
        two_to(k) == y,
    ensures
        two_to(j + k) == x * y,
{
    lemma_two_to_adds(j, k);
}

pub proof fn lemma_two_to_constants()
    ensures
        two_to(3) == 8,
        two_to(9) == 512,
        two_to(52) == 0x10_0000_0000_0000,
        two_to(53) == 0x20_0000_0000_0000,
        two_to(56) == 0x100_0000_0000_0000,
        two_to(64) == 0x1_0000_0000_0000_0000,
        two_to(72) == 0x100_0000_0000_0000_0000,
        two_to(100) == 0x10_0000_0000_0000_0000_0000_0000,
        two_to(125) == 0x2000_0000_0000_0000_0000_0000_0000_0000,
{
    reveal_with_fuel(two_to, 10);
    assert(two_to(1) == 2);
    assert(two_to(3) == 8);
    assert(two_to(4) == 16);
    assert(two_to(8) == 256);
    assert(two_to(9) == 512);
    lemma_two_to_product(8, 8, 0x100, 0x100);
    lemma_two_to_product(16, 16, 0x1_0000, 0x1_0000);
    lemma_two_to_product(32, 32, 0x1_0000_0000, 0x1_0000_0000);
    lemma_two_to_product(32, 16, 0x1_0000_0000, 0x1_0000);
    lemma_two_to_product(48, 4, 0x1_0000_0000_0000, 16);
    lemma_two_to_product(52, 1, 0x10_0000_0000_0000, 2);
    lemma_two_to_product(52, 4, 0x10_0000_0000_0000, 16);
    lemma_two_to_product(64, 8, 0x1_0000_0000_0000_0000, 0x100);
    lemma_two_to_product(64, 32, 0x1_0000_0000_0000_0000, 0x1_0000_0000);
    lemma_two_to_product(96, 4, 0x1_0000_0000_0000_0000_0000_0000, 16);
    lemma_two_to_product(100, 16, 0x10_0000_0000_0000_0000_0000_0000, 0x1_0000);
    lemma_two_to_product(116, 9, 0x10_0000_0000_0000_0000_0000_0000_0000, 0x200);
}

/// `ratio_exponent` brackets the quotient between two powers of two.
pub proof fn lemma_ratio_exponent_bounds(a: nat, b: nat)
    requires
        1 <= b <= a,
    ensures
        b * two_to(ratio_exponent(a, b)) <= a,
        a < 2 * b * two_to(ratio_exponent(a, b)),
    decreases a - b,
{
    if a >= 2 * b {
        lemma_ratio_exponent_bounds(a, 2 * b);
        let e = ratio_exponent(a, 2 * b);
        let t = two_to(e);
        assert(ratio_exponent(a, b) == e + 1);
        assert(two_to(e + 1) == 2 * t);
        assert(b * two_to(e + 1) == (2 * b) * t) by (nonlinear_arith)
            requires
                two_to(e + 1) == 2 * t,
        ;
        assert(2 * b * two_to(e + 1) == 2 * (2 * b) * t) by (nonlinear_arith)
            requires
                two_to(e + 1) == 2 * t,
        ;
    } else {
        assert(ratio_exponent(a, b) == 0);
        assert(two_to(0) == 1);
    }
}

/// `2^k` as a `u128`.
fn two_to_u128(k: u32) -> (r: u128)
    requires
        k < 126,
    ensures
        r == two_to(k as nat),
{
    let mut r: u128 = 1;
    let mut i: u32 = 0;
    while i < k
        invariant
            i <= k < 126,
            r == two_to(i as nat),
        decreases k - i,
    {
        proof {
            lemma_two_to_monotone(i as nat, 125);
            lemma_two_to_constants();
        }
        r = r * 2;
        i = i + 1;
    }
    r
}

/// `n / d` rounded to the nearest integer, ties to even.
fn round_half_even_u128(n: u128, d: u128) -> (r: u128)
    requires
        d > 0,
    ensures
        r == round_half_even(n as nat, d as nat),
        n / d <= r <= n / d + 1,
{
    let q = n / d;
    let rem = n % d;
    if rem > d - rem || (rem == d - rem && q % 2 == 1) {
        assert(q < u128::MAX) by (nonlinear_arith)
            requires
                q == n / d,
                rem == n % d,
                rem > 0,
                d > 0,
                n <= u128::MAX,
        ;
        q + 1
    } else {
        q
    }
}

/// The binary64 value nearest to `a / b`, with the bounds on its mantissa and
/// exponent that a normal binary64 value has.
pub fn nearest_u128(a: u128, b: u128) -> (r: (u128, i32))
    requires
        1 <= b <= a,
        a < two_to(100),
        b < two_to(72),
    ensures
        r.0 == nearest_binary64(a as nat, b as nat).0,
        r.1 == nearest_binary64(a as nat, b as nat).1,
        r.1 + 52 == ratio_exponent(a as nat, b as nat),
        two_to(52) <= r.0 <= two_to(53),
{
    let mut e: u32 = 0;
    let mut p: u128 = b;
    proof {
        lemma_two_to_constants();
        assert(two_to(0) == 1);
    }
    while p <= a / 2
        invariant
            1 <= b <= p <= a < two_to(100),
            p == b * two_to(e as nat),
            ratio_exponent(a as nat, b as nat) == e + ratio_exponent(a as nat, p as nat),
            e < 100,
        decreases a - p,
    {
        proof {
            assert(ratio_exponent(a as nat, p as nat) == 1 + ratio_exponent(a as nat, 2 * p as nat));
            assert(b * two_to((e + 1) as nat) == 2 * p) by (nonlinear_arith)
                requires
                    p == b * two_to(e as nat),
                    two_to((e + 1) as nat) == 2 * two_to(e as nat),
            ;
            lemma_two_to_monotone((e + 1) as nat, 100);
            assert(two_to((e + 1) as nat) <= 2 * p) by (nonlinear_arith)
                requires
                    2 * p == b * two_to((e + 1) as nat),
                    b >= 1,
            ;
            if e + 1 >= 100 {
                assert(false);
            }
        }
        p = p * 2;
        e = e + 1;
    }
    proof {
        lemma_ratio_exponent_bounds(a as nat, b as nat);
        assert(ratio_exponent(a as nat, p as nat) == 0);
    }
    if e <= 52 {
        let s: u32 = 52 - e;
        let scale = two_to_u128(s);
        proof {
            lemma_two_to_adds(e as nat, s as nat);
            lemma_two_to_adds(72, 53);
            lemma_two_to_positive(s as nat);
            assert(p * scale == b * two_to(52)) by (nonlinear_arith)
                requires
                    p == b * two_to(e as nat),
                    scale == two_to(s as nat),
                    two_to(e as nat) * two_to(s as nat) == two_to(52),
            ;
            assert(a * scale < 2 * (p * scale)) by (nonlinear_arith)
                requires
                    a < 2 * p,
                    scale >= 1,
            ;
            assert(b * two_to(53) < two_to(125)) by (nonlinear_arith)
                requires
                    b < two_to(72),
                    two_to(125) == two_to(72) * two_to(53),
                    two_to(53) >= 1,
            ;
        }
        let num = a * scale;
        let m = round_half_even_u128(num, b);
        proof {
            assert(b * two_to(52) <= num) by (nonlinear_arith)
                requires
                    p <= a,
                    p == b * two_to(e as nat),
                    num == a * scale,
                    scale == two_to(s as nat),
                    two_to(e as nat) * two_to(s as nat) == two_to(52),
            ;
            assert(two_to(52) <= num / b < two_to(53)) by (nonlinear_arith)
                requires
                    b * two_to(52) <= num,
                    num < b * two_to(53),
                    b >= 1,
            ;
        }
        (m, e as i32 - 52)
    } else {
        let s: u32 = e - 52;
        let scale = two_to_u128(s);
        proof {
            lemma_two_to_adds(52, s as nat);
            lemma_two_to_positive(s as nat);
            assert(b * scale <= p) by (nonlinear_arith)
                requires
                    p == b * two_to(e as nat),
                    scale == two_to(s as nat),
                    two_to(e as nat) == two_to(52) * two_to(s as nat),
                    two_to(52) >= 1,
            ;
        }
        assert(b * scale >= 1) by (nonlinear_arith)
            requires
                b >= 1,
                scale >= 1,
        ;
        let den = b * scale;
        let m = round_half_even_u128(a, den);
        proof {
            lemma_two_to_positive(s as nat);
            assert(two_to(52) <= a / den < two_to(53)) by (nonlinear_arith)
                requires
                    p <= a,
                    a < 2 * p,
                    p == b * two_to(e as nat),
                    den == b * scale,
                    scale == two_to(s as nat),
                    two_to(e as nat) == two_to(52) * two_to(s as nat),
                    two_to(53) == 2 * two_to(52),
                    den >= 1,
            ;
        }
        (m, e as i32 - 52)
    }
}

/// The binary64 quotient of the value `m * 2^exp` by `q`.
fn binary64_div_u128(m: u128, exp: i32, q: u128) -> (r: (u128, i32))
    requires
        two_to(52) <= m <= two_to(53),
        -43 <= exp <= 11,
        512 < q < two_to(20),
        exp >= 0 ==> m * two_to(exp as nat) >= q,
        exp < 0 ==> m >= q * two_to((-exp) as nat),
    ensures
        r.0 == binary64_div((m as nat, exp as int), q as nat).0,
        r.1 == binary64_div((m as nat, exp as int), q as nat).1,
        two_to(52) <= r.0 <= two_to(53),
        -52 <= r.1 <= 3,
{
    proof {
        lemma_two_to_constants();
    }
    let (a, b) = if exp >= 0 {
        let scale = two_to_u128(exp as u32);
        proof {
            lemma_two_to_monotone(exp as nat, 11);
            lemma_two_to_product(53, 11, two_to(53), two_to(11));
            reveal_with_fuel(two_to, 12);
            assert(m * scale <= two_to(64)) by (nonlinear_arith)
                requires
                    m <= two_to(53),
                    scale <= two_to(11),
                    two_to(64) == two_to(53) * two_to(11),
            ;
            assert(scale == two_to(exp as nat));
            assert(m * scale >= q);
        }
        (m * scale, q)
    } else {
        let scale = two_to_u128((-exp) as u32);
        proof {
            lemma_two_to_monotone((-exp) as nat, 43);
            lemma_two_to_product(20, 43, two_to(20), two_to(43));
            lemma_two_to_monotone(63, 72);
            lemma_two_to_positive((-exp) as nat);
            assert(q * scale < two_to(63)) by (nonlinear_arith)
                requires
                    q < two_to(20),
                    1 <= scale <= two_to(43),
                    two_to(63) == two_to(20) * two_to(43),
            ;
            assert(scale == two_to((-exp) as nat));
            assert(q * scale <= m);
            assert(q <= q * scale) by (nonlinear_arith)
                requires
                    q >= 1,
                    scale >= 1,
            ;
        }
        (m, q * scale)
    };
    proof {
        lemma_two_to_monotone(64, 100);
        lemma_two_to_monotone(53, 64);
        lemma_two_to_monotone(63, 72);
    }
    let r = nearest_u128(a, b);
    proof {
        let e = ratio_exponent(a as nat, b as nat);
        lemma_ratio_exponent_bounds(a as nat, b as nat);
        if e >= 56 {
            lemma_two_to_monotone(56, e);
            lemma_two_to_product(9, 56, 512, two_to(56));
            assert(b * two_to(e) > two_to(64)) by (nonlinear_arith)
                requires
                    b > 512,
                    two_to(e) >= two_to(56),
                    two_to(65) == 512 * two_to(56),
                    two_to(65) == 2 * two_to(64),
                    two_to(64) >= 1,
            ;
            assert(false);
        }
    }
    r
}

/// The tenths of the value `m * 2^exp`, rounded to the nearest, ties to even.
fn tenths_u128(m: u128, exp: i32) -> (t: u128)
    requires
        m <= two_to(53),
        -100 <= exp <= 3,
    ensures
        t == tenths_of((m as nat, exp as int)),
        t < two_to(60),
{
    proof {
        lemma_two_to_constants();
        reveal_with_fuel(two_to, 8);
        assert(two_to(7) == 128);
        lemma_two_to_product(53, 7, two_to(53), 128);
    }
    if exp >= 0 {
        let scale = two_to_u128(exp as u32);
        proof {
            lemma_two_to_monotone(exp as nat, 3);
            assert(10 * m * scale < 0x1000_0000_0000_0000) by (nonlinear_arith)
                requires
                    m <= 0x20_0000_0000_0000,
                    scale <= 8,
            ;
        }
        10 * m * scale
    } else {
        let scale = two_to_u128((-exp) as u32);
        proof {
            lemma_two_to_positive((-exp) as nat);
        }
        let t = round_half_even_u128(10 * m, scale);
        proof {
            assert(t <= 10 * m + 1) by (nonlinear_arith)
                requires
                    t <= (10 * m) as int / scale as int + 1,
                    scale >= 1,
            ;
        }
        t
    }
}

/// The tenths that formatting `d as f64 / q as f64` with one decimal shows,
/// for a count `d` at least `q`.
pub fn scaled_tenths(d: u64, q: u64) -> (t: u64)
    requires
        1000 <= q <= 1_000_000,
        q <= d,
    ensures
        t == tenths_of(binary64_div(binary64_of(d as nat), q as nat)),
{
    proof {
        lemma_two_to_constants();
        lemma_two_to_monotone(64, 100);
        reveal_with_fuel(two_to, 2);
        lemma_two_to_product(9, 11, 512, two_to(11));
        reveal_with_fuel(two_to, 12);
    }
    let x = nearest_u128(d as u128, 1);
    proof {
        let e = ratio_exponent(d as nat, 1);
        lemma_ratio_exponent_bounds(d as nat, 1);
        if e <= 8 {
            lemma_two_to_monotone(e, 8);
            assert(false);
        }
        if e <= 52 {
            let s = (52 - e) as nat;
            lemma_two_to_adds(e, s);
            assert(x.0 == d * two_to(s));
            if e == 52 {
                assert(x.0 * two_to(0) == x.0);
            }
            assert(x.0 >= q * two_to(s)) by (nonlinear_arith)
                requires
                    x.0 == d * two_to(s),
                    d >= q,
            ;
        } else {
            let s = (e - 52) as nat;
            lemma_two_to_positive(s);
            if e >= 64 {
                lemma_two_to_monotone(64, e);
                assert(false);
            }
            assert(x.0 * two_to(s) >= q) by (nonlinear_arith)
                requires
                    x.0 >= two_to(52),
                    two_to(s) >= 1,
                    q <= 1_000_000,
                    two_to(52) == 0x10_0000_0000_0000,
            ;
        }
    }
    let y = binary64_div_u128(x.0, x.1, q as u128);
    let t = tenths_u128(y.0, y.1);
    proof {
        lemma_two_to_monotone(60, 64);
    }
    t as u64
}

/// The rounded quotient is within half a divisor of the dividend.
pub proof fn lemma_round_half_even_close(n: nat, d: nat)
    requires
        d > 0,
    ensures
        2 * round_half_even(n, d) * d + d >= 2 * n,
        2 * round_half_even(n, d) * d <= 2 * n + d,
{
    let q = n / d;
    let r = n % d;
    assert(n == q * d + r && 0 <= r < d) by (nonlinear_arith)
        requires
            d > 0,
            q == n / d,
            r == n % d,
    ;
    if 2 * r > d || (2 * r == d && q % 2 == 1) {
        assert(2 * (q + 1) * d + d >= 2 * n && 2 * (q + 1) * d <= 2 * n + d) by (nonlinear_arith)
            requires
                n == q * d + r,
                r < d,
                2 * r >= d,
        ;
    } else {
        assert(2 * q * d + d >= 2 * n && 2 * q * d <= 2 * n + d) by (nonlinear_arith)
            requires
                n == q * d + r,
                0 <= r,
                2 * r <= d,
        ;
    }
}

/// A quotient strictly between `t - 1/2` and `t + 1/2` rounds to `t`.
pub proof fn lemma_round_half_even_exact(n: nat, d: nat, t: nat)
    requires
        d > 0,
        (2 * t - 1) * d < 2 * n,
        2 * n < (2 * t + 1) * d,
    ensures
        round_half_even(n, d) == t,
{
    let q = n / d;
    let r = n % d;
    assert(n == q * d + r && 0 <= r < d) by (nonlinear_arith)
        requires
            d > 0,
            q == n / d,
            r == n % d,
    ;
    assert(q == t || q + 1 == t) by (nonlinear_arith)
        requires
            n == q * d + r,
            0 <= r < d,
            (2 * t - 1) * d < 2 * n,
            2 * n < (2 * t + 1) * d,
            d > 0,
    ;
    if q == t {
        assert(2 * r < d) by (nonlinear_arith)
            requires
                n == q * d + r,
                q == t,
                2 * n < (2 * t + 1) * d,
        ;
    } else {
        assert(2 * r > d) by (nonlinear_arith)
            requires
                n == q * d + r,
                q + 1 == t,
                (2 * t - 1) * d < 2 * n,
        ;
    }
}

/// From a mantissa within half a unit of `n * dd / q`, the tenths of
/// `m / dd` are those of `n / q` rounded to the nearest, where `q = 20 h`,
/// `n` is strictly between the ties around `t` units of `2 h`, and `dd` is
/// more than half of `q`.
proof fn lemma_tenths_bounds(n: int, h: int, m: int, dd: int, t: int)
    requires
        h >= 1,
        dd > 0,
        20 * h < 2 * dd,
        2 * m * (20 * h) + 20 * h >= 2 * n * dd,
        2 * m * (20 * h) <= 2 * n * dd + 20 * h,
        2 * h * t - h < n,
        n < 2 * h * t + h,
    ensures
        (2 * t - 1) * dd < 20 * m,
        20 * m < (2 * t + 1) * dd,
{
    let q = 20 * h;
    assert(20 * n * dd <= (2 * t + 1) * q * dd - 20 * dd) by (nonlinear_arith)
        requires
            n <= 2 * h * t + h - 1,
            q == 20 * h,
            dd > 0,
    ;
    assert(20 * n * dd >= (2 * t - 1) * q * dd + 20 * dd) by (nonlinear_arith)
        requires
            n >= 2 * h * t - h + 1,
            q == 20 * h,
            dd > 0,
    ;
    assert(20 * m * q < (2 * t + 1) * dd * q) by (nonlinear_arith)
        requires
            2 * m * q <= 2 * n * dd + q,
            20 * n * dd <= (2 * t + 1) * q * dd - 20 * dd,
            q < 2 * dd,
    ;
    assert(20 * m * q > (2 * t - 1) * dd * q) by (nonlinear_arith)
        requires
            2 * m * q + q >= 2 * n * dd,
            20 * n * dd >= (2 * t - 1) * q * dd + 20 * dd,
            q < 2 * dd,
    ;
    assert(20 * m < (2 * t + 1) * dd) by (nonlinear_arith)
        requires
            20 * m * q < (2 * t + 1) * dd * q,
            q > 0,
    ;
    assert((2 * t - 1) * dd < 20 * m) by (nonlinear_arith)
        requires
            20 * m * q > (2 * t - 1) * dd * q,
            q > 0,
    ;
}

/// For a count `n` below `2^53` (so `n as f64` is exact) and a divisor
/// `q = 20 h` whose quotient `n / q` is below `2^k`, with `q < 2^(54 - k)`:
/// the tenths printed for `n as f64 / q as f64` are `n / (2 h)` rounded to
/// the nearest, unless `n / (2 h)` lies exactly halfway between two
/// integers.
pub proof fn lemma_tenths_of_exact_count(n: nat, h: nat, k: nat)
    requires
        h >= 1,
        20 * h <= n < two_to(53),
        n % (2 * h) != h,
        1 <= k <= 52,
        n < 20 * h * two_to(k),
        20 * h < two_to((54 - k) as nat),
    ensures
        tenths_of(binary64_div(binary64_of(n), 20 * h)) == (n + h) / (2 * h),
{
    let q = 20 * h;
    // The conversion to binary64 is exact.
    let e1 = ratio_exponent(n, 1);
    lemma_ratio_exponent_bounds(n, 1);
    if e1 > 52 {
        lemma_two_to_monotone(53, e1);
        assert(false);
    }
    let c = two_to((52 - e1) as nat);
    lemma_two_to_positive((52 - e1) as nat);
    assert(binary64_of(n) == (n * c, e1 - 52));
    let x = binary64_of(n);
    // The quotient by `q` is the quotient of `n c` by `q c`.
    let a = n * c;
    let b = q * c;
    if e1 == 52 {
        assert(c == 1);
        assert(x.0 * two_to(x.1 as nat) == a && b == q) by (nonlinear_arith)
            requires
                c == 1,
                x.0 == n * c,
                x.1 == 0,
                two_to(0) == 1,
                a == n * c,
                b == q * c,
        ;
    } else {
        assert(x.0 == a);
    }
    assert(binary64_div(x, q) == nearest_binary64(a, b));
    assert(1 <= b <= a) by (nonlinear_arith)
        requires
            a == n * c,
            b == q * c,
            c >= 1,
            q <= n,
            q >= 1,
    ;
    let e2 = ratio_exponent(a, b);
    lemma_ratio_exponent_bounds(a, b);
    assert(q * two_to(e2) <= n) by (nonlinear_arith)
        requires
            b * two_to(e2) <= a,
            a == n * c,
            b == q * c,
            c >= 1,
    ;
    if e2 >= k {
        lemma_two_to_monotone(k, e2);
        assert(q * two_to(k) <= q * two_to(e2)) by (nonlinear_arith)
            requires
                two_to(k) <= two_to(e2),
        ;
        assert(false);
    }
    let dd = two_to((52 - e2) as nat);
    lemma_two_to_monotone((53 - k) as nat, (52 - e2) as nat);
    lemma_two_to_adds(1, (53 - k) as nat);
    reveal_with_fuel(two_to, 2);
    assert(q < 2 * dd);
    let m = round_half_even(a * dd, b);
    assert(nearest_binary64(a, b) == (m, e2 - 52));
    assert(tenths_of((m, e2 - 52)) == round_half_even(10 * m, dd));
    // The mantissa is within half a unit.
    lemma_round_half_even_close(a * dd, b);
    assert(2 * m * q + q >= 2 * n * dd && 2 * m * q <= 2 * n * dd + q) by (nonlinear_arith)
        requires
            2 * m * b + b >= 2 * (a * dd),
            2 * m * b <= 2 * (a * dd) + b,
            a == n * c,
            b == q * c,
            c >= 1,
    ;
    let t = (n + h) / (2 * h);
    assert(2 * h * t - h < n && n < 2 * h * t + h) by (nonlinear_arith)
        requires
            h >= 1,
            t == (n + h) / (2 * h),
            n % (2 * h) != h,
    ;
    lemma_tenths_bounds(n as int, h as int, m as int, dd as int, t as int);
    lemma_round_half_even_exact(10 * m, dd, t);
}

} // verus!
