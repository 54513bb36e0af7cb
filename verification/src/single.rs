//! Single-precision binary arithmetic on non-negative values, carried out on integers: every
//! result is the exact one rounded to 24 significant bits, to the nearest, ties to even. Within
//! the exponents used here this is what the hardware type of that format computes.
use vstd::arithmetic::div_mod::{lemma_fundamental_div_mod, lemma_mod_bound};
use vstd::arithmetic::power2::{
    lemma2_to64,
    lemma2_to64_rest,
    lemma_pow2_adds,
    lemma_pow2_pos,
    lemma_pow2_strictly_increases,
    lemma_pow2_unfold,
    pow2,
};
use vstd::prelude::*;

verus! {

/// The least significand with all 24 bits in use.
pub const LEAST: u32 = 0x80_0000;

/// One more than the greatest significand.
pub const LIMIT: u32 = 0x100_0000;

/// The value `mant * 2^exp`.
#[derive(Clone, Copy, Debug, PartialEq, Eq, Structural)]
pub struct Single {
    pub mant: u32,
    pub exp: i32,
}

impl Single {
    /// Zero has one form; every other value uses all 24 bits of its significand.
    pub open spec fn wf(self) -> bool {
        ||| self.mant == 0 && self.exp == 0
        ||| LEAST <= self.mant < LIMIT
    }

    /// Exponents with room to spare on both sides.
    pub open spec fn small(self) -> bool {
        -200 <= self.exp <= 200
    }
}

pub open spec fn zero() -> Single {
    Single { mant: 0, exp: 0 }
}

/// How many binary digits `n` has.
pub open spec fn bit_len(n: nat) -> nat
    decreases n,
{
    if n == 0 {
        0
    } else {
        1 + bit_len(n / 2)
    }
}

/// The integer nearest to `n / d`, the even one of two that are equally near.
pub open spec fn nearest_even(n: nat, d: nat) -> nat {
    let q = n / d;
    let r = n % d;
    if 2 * r < d || (2 * r == d && q % 2 == 0) {
        q
    } else {
        q + 1
    }
}

/// `m * 2^e` for a significand that rounding may have carried to the limit.
pub open spec fn packed(m: nat, e: int) -> Single {
    if m == LIMIT {
        Single { mant: LEAST, exp: (e + 1) as i32 }
    } else {
        Single { mant: m as u32, exp: e as i32 }
    }
}

/// `n * 2^e`, rounded.
pub open spec fn rounded(n: nat, e: int) -> Single {
    let k = bit_len(n);
    if n == 0 {
        zero()
    } else if k <= 24 {
        packed(n * pow2((24 - k) as nat), e + k - 24)
    } else {
        packed(nearest_even(n, pow2((k - 24) as nat)), e + k - 24)
    }
}

pub open spec fn product(a: Single, b: Single) -> Single {
    rounded((a.mant * b.mant) as nat, a.exp + b.exp)
}

pub open spec fn quotient(a: Single, b: Single) -> Single {
    if a.mant == 0 {
        zero()
    } else if a.mant >= b.mant {
        packed(nearest_even((a.mant * LEAST) as nat, b.mant as nat), a.exp - b.exp - 23)
    } else {
        packed(nearest_even((a.mant * LIMIT) as nat, b.mant as nat), a.exp - b.exp - 24)
    }
}

pub open spec fn sum(a: Single, b: Single) -> Single {
    if a.mant == 0 {
        b
    } else if b.mant == 0 {
        a
    } else if a.exp >= b.exp {
        rounded(a.mant as nat * pow2((a.exp - b.exp) as nat) + b.mant as nat, b.exp as int)
    } else {
        rounded(a.mant as nat + b.mant as nat * pow2((b.exp - a.exp) as nat), a.exp as int)
    }
}

/// Whether `a` is less than `b`: by the exponents first, as all 24 bits are in use.
pub open spec fn less(a: Single, b: Single) -> bool {
    if a.mant == 0 || b.mant == 0 {
        a.mant < b.mant
    } else {
        a.exp < b.exp || (a.exp == b.exp && a.mant < b.mant)
    }
}

pub open spec fn smaller(a: Single, b: Single) -> Single {
    if less(b, a) {
        b
    } else {
        a
    }
}

/// The integer nearest to `a`, the greater one of two that are equally near, at most `u32::MAX`.
pub open spec fn nearest_int(a: Single) -> nat {
    let n = if a.exp >= 0 {
        a.mant as nat * pow2(a.exp as nat)
    } else {
        let d = pow2((-a.exp) as nat);
        (2 * a.mant as nat + d) / (2 * d)
    };
    if n > u32::MAX {
        u32::MAX as nat
    } else {
        n
    }
}

/// `a` without its fraction, at most `u32::MAX`.
pub open spec fn whole_part(a: Single) -> nat {
    let n = if a.exp >= 0 {
        a.mant as nat * pow2(a.exp as nat)
    } else {
        a.mant as nat / pow2((-a.exp) as nat)
    };
    if n > u32::MAX {
        u32::MAX as nat
    } else {
        n
    }
}

// ── Facts about rounding ──────────────────────────────────────────────

pub proof fn lemma_bit_len(n: nat)
    requires
        n > 0,
    ensures
        bit_len(n) > 0,
        pow2((bit_len(n) - 1) as nat) <= n < pow2(bit_len(n)),
    decreases n,
{
    lemma2_to64();
    if n > 1 {
        lemma_bit_len(n / 2);
        lemma_pow2_unfold(bit_len(n));
        lemma_pow2_unfold((bit_len(n) - 1) as nat);
    } else {
        assert(bit_len(0) == 0);
    }
}

pub proof fn lemma_bit_len_is(n: nat, k: nat)
    requires
        k > 0,
        pow2((k - 1) as nat) <= n < pow2(k),
    ensures
        bit_len(n) == k,
{
    lemma_pow2_pos((k - 1) as nat);
    lemma_bit_len(n);
    let b = bit_len(n);
    if b < k {
        if b < k - 1 {
            lemma_pow2_strictly_increases(b, (k - 1) as nat);
        }
    } else if b > k {
        if k < b - 1 {
            lemma_pow2_strictly_increases(k, (b - 1) as nat);
        }
    }
}

/// A quotient between two integers rounds to something between them.
pub proof fn lemma_nearest_between(n: nat, d: nat, lo: nat, hi: nat)
    requires
        d > 0,
        lo * d <= n <= hi * d,
    ensures
        lo <= nearest_even(n, d) <= hi,
{
    lemma_fundamental_div_mod(n as int, d as int);
    lemma_mod_bound(n as int, d as int);
    let q = n / d;
    let r = n % d;
    assert(n == d * q + r);
    assert(lo <= q) by (nonlinear_arith)
        requires
            lo * d <= n,
            n == d * q + r,
            r < d,
            d > 0,
    ;
    assert(q <= hi && (q == hi ==> r == 0)) by (nonlinear_arith)
        requires
            n <= hi * d,
            n == d * q + r,
            0 <= r,
            d > 0,
    ;
}

/// The exponent of a rounded value follows from how long the integer is.
pub proof fn lemma_rounded(n: nat, e: int)
    requires
        n > 0,
        -10000 <= e <= 10000,
        bit_len(n) <= 10000,
    ensures
        rounded(n, e).wf(),
        rounded(n, e).mant > 0,
        e + bit_len(n) - 24 <= rounded(n, e).exp <= e + bit_len(n) - 23,
{
    lemma_bit_len(n);
    lemma2_to64();
    let k = bit_len(n);
    if k <= 24 {
        let s = (24 - k) as nat;
        lemma_pow2_adds((k - 1) as nat, s);
        lemma_pow2_adds(k, s);
        let lo = pow2((k - 1) as nat);
        let hi = pow2(k);
        let p = pow2(s);
        assert(lo * p <= n * p < hi * p) by (nonlinear_arith)
            requires
                lo <= n < hi,
                p > 0,
        {
        }
        assert(pow2(23) == lo * p);
        assert(pow2(24) == hi * p);
    } else {
        let s = (k - 24) as nat;
        lemma_pow2_adds(23, s);
        lemma_pow2_adds(24, s);
        lemma_pow2_pos(s);
        lemma_nearest_between(n, pow2(s), LEAST as nat, LIMIT as nat);
    }
}

// ── Arithmetic ────────────────────────────────────────────────────────

fn round_quotient(n: u128, d: u128) -> (m: u128)
    requires
        0 < d <= 0x4000_0000_0000_0000_0000_0000_0000_0000,
        n < u128::MAX,
    ensures
        m == nearest_even(n as nat, d as nat),
{
    let q: u128 = n / d;
    let r: u128 = n % d;
    proof {
        lemma_fundamental_div_mod(n as int, d as int);
        assert(q <= n) by (nonlinear_arith)
            requires
                n == d * q + r,
                0 <= r,
                d > 0,
        ;
    }
    if 2 * r < d || (2 * r == d && q % 2 == 0) {
        q
    } else {
        q + 1
    }
}

fn pack(m: u128, e: i32) -> (s: Single)
    requires
        m <= LIMIT,
        -100_000 <= e <= 100_000,
    ensures
        s == packed(m as nat, e as int),
{
    if m == LIMIT as u128 {
        Single { mant: LEAST, exp: e + 1 }
    } else {
        Single { mant: m as u32, exp: e }
    }
}

/// `n * 2^e`, rounded.
pub fn round_scaled(n: u128, e: i32) -> (s: Single)
    requires
        n < 0x10_0000_0000_0000_0000_0000_0000,
        -10000 <= e <= 10000,
    ensures
        s == rounded(n as nat, e as int),
{
    if n == 0 {
        return Single { mant: 0, exp: 0 };
    }
    proof {
        lemma2_to64();
    }
    if n < LIMIT as u128 {
        let mut m: u128 = n;
        let mut s: i32 = 0;
        assert(n * pow2(0) == n) by (nonlinear_arith)
            requires
                pow2(0) == 1,
        ;
        while m < LEAST as u128
            invariant
                0 <= s <= 23,
                0 < n,
                m == n * pow2(s as nat),
                0 < m < LIMIT,
                s > 0 ==> m >= 2,
                m >= pow2(s as nat),
                pow2(23) == LEAST,
            decreases LIMIT - m,
        {
            proof {
                lemma_pow2_unfold((s + 1) as nat);
                if s == 23 {
                    assert(false);
                }
                let p = pow2(s as nat) as int;
                assert(2 * (n * p) == n * (2 * p)) by (nonlinear_arith);
            }
            m = m * 2;
            s = s + 1;
        }
        proof {
            lemma_scaled_bit_len(n as nat, s as nat);
        }
        pack(m, e - s)
    } else {
        let mut d: u128 = 1;
        let mut s: i32 = 0;
        while n >= LIMIT as u128 * d
            invariant
                0 <= s <= 76,
                n < 0x10_0000_0000_0000_0000_0000_0000,
                d == pow2(s as nat),
                0 < d <= n,
                LEAST * d <= n,
                LIMIT * d <= 2 * n,
            decreases n - d,
        {
            proof {
                lemma_pow2_unfold((s + 1) as nat);
                lemma_pow2_76();
                if s == 76 {
                    assert(false);
                }
            }
            d = d * 2;
            s = s + 1;
        }
        proof {
            lemma_divided_bit_len(n as nat, s as nat);
            lemma_nearest_between(n as nat, d as nat, LEAST as nat, LIMIT as nat);
        }
        pack(round_quotient(n, d), e + s)
    }
}

/// An integer as a single.
pub fn from_u32(n: u32) -> (s: Single)
    ensures
        s == rounded(n as nat, 0),
        s.wf(),
        -23 <= s.exp <= 9,
        n > 0 ==> s.mant > 0,
        n == 0 ==> s == zero(),
{
    proof {
        if n > 0 {
            lemma_short(n as nat, 32);
            lemma_rounded(n as nat, 0);
        }
    }
    round_scaled(n as u128, 0)
}

proof fn lemma_short(n: nat, k: nat)
    requires
        0 < n < pow2(k) || (k == 32 && 0 < n <= u32::MAX),
    ensures
        0 < bit_len(n) <= k,
{
    lemma2_to64();
    lemma_bit_len(n);
    let b = bit_len(n);
    if b > k {
        if k < b - 1 {
            lemma_pow2_strictly_increases(k, (b - 1) as nat);
        }
    }
}

pub fn multiply(a: Single, b: Single) -> (s: Single)
    requires
        a.wf(),
        b.wf(),
        a.small(),
        b.small(),
    ensures
        s == product(a, b),
        s.wf(),
        a.mant == 0 || b.mant == 0 ==> s == zero(),
        a.mant > 0 && b.mant > 0 ==> s.mant > 0 && a.exp + b.exp + 23 <= s.exp <= a.exp + b.exp
            + 25,
{
    proof {
        lemma_product(a, b);
    }
    round_scaled(a.mant as u128 * b.mant as u128, a.exp + b.exp)
}

pub proof fn lemma_product(a: Single, b: Single)
    requires
        a.wf(),
        b.wf(),
        a.small(),
        b.small(),
    ensures
        product(a, b).wf(),
        a.mant * b.mant < 0x1_0000_0000_0000,
        a.mant == 0 || b.mant == 0 ==> product(a, b) == zero(),
        a.mant > 0 && b.mant > 0 ==> product(a, b).mant > 0 && a.exp + b.exp + 23 <= product(
            a,
            b,
        ).exp <= a.exp + b.exp + 25,
{
    lemma2_to64();
    lemma2_to64_rest();
    let x = a.mant as int;
    let y = b.mant as int;
    assert(0 <= x * y < 0x1_0000_0000_0000) by (nonlinear_arith)
        requires
            0 <= x < 0x100_0000,
            0 <= y < 0x100_0000,
    ;
    if x == 0 || y == 0 {
        assert(x * y == 0) by (nonlinear_arith)
            requires
                x == 0 || y == 0,
        ;
    } else {
        assert(0x4000_0000_0000 <= x * y) by (nonlinear_arith)
            requires
                0x80_0000 <= x,
                0x80_0000 <= y,
        ;
        let n = (x * y) as nat;
        if n < pow2(47) {
            lemma_bit_len_is(n, 47);
        } else {
            lemma_bit_len_is(n, 48);
        }
        lemma_rounded(n, a.exp + b.exp);
    }
}

pub fn divide(a: Single, b: Single) -> (s: Single)
    requires
        a.wf(),
        b.wf(),
        b.mant > 0,
        a.small(),
        b.small(),
    ensures
        s == quotient(a, b),
        s.wf(),
        a.mant == 0 ==> s == zero(),
        a.mant > 0 ==> s.mant > 0 && a.exp - b.exp - 24 <= s.exp <= a.exp - b.exp - 22,
{
    proof {
        lemma_quotient(a, b);
    }
    if a.mant == 0 {
        Single { mant: 0, exp: 0 }
    } else if a.mant >= b.mant {
        pack(round_quotient(a.mant as u128 * LEAST as u128, b.mant as u128), a.exp - b.exp - 23)
    } else {
        pack(round_quotient(a.mant as u128 * LIMIT as u128, b.mant as u128), a.exp - b.exp - 24)
    }
}

pub proof fn lemma_quotient(a: Single, b: Single)
    requires
        a.wf(),
        b.wf(),
        b.mant > 0,
        a.small(),
        b.small(),
    ensures
        quotient(a, b).wf(),
        a.mant > 0 ==> quotient(a, b).mant > 0 && a.exp - b.exp - 24 <= quotient(a, b).exp <= a.exp
            - b.exp - 22,
        a.mant >= b.mant ==> LEAST <= nearest_even((a.mant * LEAST) as nat, b.mant as nat) <= LIMIT,
        0 < a.mant < b.mant ==> LEAST <= nearest_even((a.mant * LIMIT) as nat, b.mant as nat)
            <= LIMIT,
{
    let x = a.mant as int;
    let y = b.mant as int;
    if x >= y {
        assert(0x80_0000 * y <= x * 0x80_0000 <= 0x100_0000 * y) by (nonlinear_arith)
            requires
                y <= x < 0x100_0000,
                0x80_0000 <= y,
        ;
        lemma_nearest_between((x * LEAST) as nat, y as nat, LEAST as nat, LIMIT as nat);
    } else if x > 0 {
        assert(0x80_0000 * y <= x * 0x100_0000 <= 0x100_0000 * y) by (nonlinear_arith)
            requires
                0x80_0000 <= x < y,
                y < 0x100_0000,
        ;
        lemma_nearest_between((x * LIMIT) as nat, y as nat, LEAST as nat, LIMIT as nat);
    }
}

/// `2^n`, for a shift that fits.
fn power_of_two(n: u32) -> (p: u128)
    requires
        n <= 70,
    ensures
        p == pow2(n as nat),
        0 < p <= 0x1000_0000_0000_0000_0000,
{
    let mut p: u128 = 1;
    let mut i: u32 = 0;
    proof {
        lemma2_to64();
        lemma_pow2_76();
    }
    while i < n
        invariant
            i <= n <= 70,
            p == pow2(i as nat),
            0 < p <= 0x1000_0000_0000_0000_0000,
            pow2(76) == 0x1000_0000_0000_0000_0000int,
        decreases n - i,
    {
        proof {
            lemma_pow2_unfold((i + 1) as nat);
            lemma_pow2_strictly_increases((i + 1) as nat, 76);
        }
        p = p * 2;
        i = i + 1;
    }
    p
}

pub fn plus(a: Single, b: Single) -> (s: Single)
    requires
        a.wf(),
        b.wf(),
        a.small(),
        b.small(),
        a.mant > 0 && b.mant > 0 ==> -60 <= a.exp - b.exp <= 60,
    ensures
        s == sum(a, b),
        s.wf(),
        a.mant == 0 ==> s == b,
        b.mant == 0 ==> s == a,
        a.mant > 0 && b.mant > 0 ==> s.mant > 0,
        a.mant > 0 && b.mant > 0 && a.exp >= b.exp ==> a.exp <= s.exp <= a.exp + 2,
        a.mant > 0 && b.mant > 0 && b.exp >= a.exp ==> b.exp <= s.exp <= b.exp + 2,
{
    if a.mant == 0 {
        return b;
    }
    if b.mant == 0 {
        return a;
    }
    if a.exp >= b.exp {
        let p: u128 = power_of_two((a.exp - b.exp) as u32);
        proof {
            lemma_aligned(a.mant as nat, b.mant as nat, (a.exp - b.exp) as nat, b.exp as int);
        }
        round_scaled(a.mant as u128 * p + b.mant as u128, b.exp)
    } else {
        let p: u128 = power_of_two((b.exp - a.exp) as u32);
        proof {
            lemma_aligned(b.mant as nat, a.mant as nat, (b.exp - a.exp) as nat, a.exp as int);
        }
        round_scaled(a.mant as u128 + b.mant as u128 * p, a.exp)
    }
}

proof fn lemma_aligned(x: nat, y: nat, k: nat, e: int)
    requires
        LEAST <= x < LIMIT,
        LEAST <= y < LIMIT,
        k <= 60,
        -200 <= e <= 200,
    ensures
        x * pow2(k) < 0x1_0000_0000_0000_0000_0000_0000,
        x * pow2(k) + y < 0x2_0000_0000_0000_0000_0000_0000,
        24 + k <= bit_len(x * pow2(k) + y) <= 25 + k,
        rounded(x * pow2(k) + y, e).wf(),
        rounded(x * pow2(k) + y, e).mant > 0,
        e + k <= rounded(x * pow2(k) + y, e).exp <= e + k + 2,
{
    lemma2_to64();
    lemma2_to64_rest();
    lemma_pow2_pos(k);
    lemma_pow2_adds(23, k);
    lemma_pow2_adds(24, k);
    lemma_pow2_adds(25, k);
    if k < 60 {
        lemma_pow2_strictly_increases(k, 60);
    }
    let p = pow2(k);
    assert(LEAST * p <= x * p && x * p + y < 2 * LIMIT * p && x * p < LIMIT * pow2(60))
        by (nonlinear_arith)
        requires
            LEAST <= x < LIMIT,
            y < LIMIT,
            1 <= p <= pow2(60),
    ;
    let n = x * p + y;
    if n < pow2(24 + k) {
        lemma_bit_len_is(n, 24 + k);
    } else {
        lemma_bit_len_is(n, 25 + k);
    }
    lemma_rounded(n, e);
}

pub fn less_than(a: Single, b: Single) -> (r: bool)
    ensures
        r == less(a, b),
{
    if a.mant == 0 || b.mant == 0 {
        a.mant < b.mant
    } else {
        a.exp < b.exp || (a.exp == b.exp && a.mant < b.mant)
    }
}

pub fn min(a: Single, b: Single) -> (s: Single)
    ensures
        s == smaller(a, b),
{
    if less_than(b, a) {
        b
    } else {
        a
    }
}

proof fn lemma_pow2_24_limit(k: nat)
    requires
        k >= 25,
    ensures
        pow2(k) >= 2 * LIMIT,
{
    lemma2_to64();
    if k > 25 {
        lemma_pow2_strictly_increases(25, k);
    }
}

/// `mant * 2^exp` for an exponent that is not negative, at most `u32::MAX`.
fn grow(mant: u32, exp: u32) -> (n: u32)
    requires
        mant < LIMIT,
    ensures
        n == (if mant as nat * pow2(exp as nat) > u32::MAX {
            u32::MAX as nat
        } else {
            mant as nat * pow2(exp as nat)
        }),
{
    if mant == 0 {
        assert(0 * pow2(exp as nat) == 0);
        return 0;
    }
    if exp > 32 {
        proof {
            lemma2_to64();
            lemma_pow2_strictly_increases(32, exp as nat);
            assert(mant * pow2(exp as nat) > u32::MAX) by (nonlinear_arith)
                requires
                    mant >= 1,
                    pow2(exp as nat) > 0x1_0000_0000,
            ;
        }
        return u32::MAX;
    }
    let p: u128 = power_of_two(exp);
    assert(mant * p <= 0x100_0000 * 0x1000_0000_0000_0000_0000) by (nonlinear_arith)
        requires
            mant < 0x100_0000,
            p <= 0x1000_0000_0000_0000_0000,
    ;
    let n: u128 = mant as u128 * p;
    if n > u32::MAX as u128 {
        u32::MAX
    } else {
        n as u32
    }
}

/// The nearest integer, ties away from zero.
pub fn round_to_u32(a: Single) -> (n: u32)
    requires
        a.wf(),
        a.small(),
    ensures
        n == nearest_int(a),
{
    if a.exp >= 0 {
        return grow(a.mant, a.exp as u32);
    }
    let k: u32 = (-a.exp) as u32;
    if k >= 26 {
        proof {
            lemma_pow2_24_limit(k as nat);
            let d = pow2(k as nat);
            assert((2 * a.mant as nat + d) / (2 * d) == 0) by (nonlinear_arith)
                requires
                    2 * a.mant < d,
                    d > 0,
            ;
        }
        return 0;
    }
    let d: u128 = power_of_two(k);
    proof {
        assert((2 * a.mant as nat + d as nat) / (2 * d as nat) <= 2 * a.mant + d)
            by (nonlinear_arith)
            requires
                d > 0,
        ;
        lemma2_to64();
        lemma_pow2_strictly_increases(k as nat, 26);
    }
    let n: u128 = (2 * a.mant as u128 + d) / (2 * d);
    n as u32
}

/// The integer below, towards zero.
pub fn truncate_to_u32(a: Single) -> (n: u32)
    requires
        a.wf(),
        a.small(),
    ensures
        n == whole_part(a),
{
    if a.exp >= 0 {
        return grow(a.mant, a.exp as u32);
    }
    let k: u32 = (-a.exp) as u32;
    if k >= 25 {
        proof {
            lemma_pow2_24_limit(k as nat);
            let d = pow2(k as nat);
            assert(a.mant as nat / d == 0) by (nonlinear_arith)
                requires
                    a.mant < d,
            ;
        }
        return 0;
    }
    let d: u128 = power_of_two(k);
    proof {
        assert(a.mant as nat / d as nat <= a.mant) by (nonlinear_arith)
            requires
                d > 0,
        ;
    }
    (a.mant as u128 / d) as u32
}

proof fn lemma_pow2_76()
    ensures
        pow2(76) == 0x1000_0000_0000_0000_0000int,
{
    lemma2_to64();
    lemma2_to64_rest();
    lemma_pow2_adds(64, 12);
}

proof fn lemma_scaled_bit_len(n: nat, s: nat)
    requires
        s <= 23,
        n > 0,
        pow2(23) <= n * pow2(s) < pow2(24),
    ensures
        bit_len(n) == 24 - s,
{
    let lo = pow2((23 - s) as nat);
    let hi = pow2((24 - s) as nat);
    let p = pow2(s);
    lemma_pow2_adds((23 - s) as nat, s);
    lemma_pow2_adds((24 - s) as nat, s);
    assert(lo <= n < hi) by (nonlinear_arith)
        requires
            lo * p <= n * p < hi * p,
            p >= 0,
    ;
    lemma_bit_len_is(n, (24 - s) as nat);
}

proof fn lemma_divided_bit_len(n: nat, s: nat)
    requires
        LEAST * pow2(s) <= n < LIMIT * pow2(s),
    ensures
        bit_len(n) == 24 + s,
{
    lemma2_to64();
    lemma_pow2_adds(23, s);
    lemma_pow2_adds(24, s);
    lemma_bit_len_is(n, 24 + s);
}

// ── How far rounding goes ─────────────────────────────────────────────

/// The value of `s` in units so small that every value in use is a whole number of them: there
/// are `unit()` of them in one.
pub open spec fn value(s: Single) -> nat {
    s.mant as nat * pow2((s.exp + 500) as nat)
}

pub open spec fn unit() -> nat {
    pow2(500)
}

/// A rounded quotient is off by at most one part in two to the 24th.
proof fn lemma_nearest_close(n: nat, d: nat)
    requires
        d > 0,
        n >= LEAST * d,
    ensures
        nearest_even(n, d) * d * LIMIT <= n * (LIMIT + 1),
        nearest_even(n, d) * d * LIMIT >= n * (LIMIT - 1),
{
    lemma_fundamental_div_mod(n as int, d as int);
    lemma_mod_bound(n as int, d as int);
    let q = n / d;
    let r = n % d;
    let m = nearest_even(n, d);
    assert(2 * m * d <= 2 * n + d) by (nonlinear_arith)
        requires
            n == d * q + r,
            0 <= r < d,
            m == q || (m == q + 1 && 2 * r >= d),
    ;
    assert(2 * m * d >= 2 * n - d) by (nonlinear_arith)
        requires
            n == d * q + r,
            0 <= r < d,
            (m == q && 2 * r <= d) || m == q + 1,
    ;
    assert(m * d * LIMIT >= n * (LIMIT - 1)) by (nonlinear_arith)
        requires
            2 * m * d >= 2 * n - d,
            n >= LEAST * d,
            2 * LEAST == LIMIT,
            LIMIT == 0x100_0000,
    ;
    assert(m * d * LIMIT <= n * (LIMIT + 1)) by (nonlinear_arith)
        requires
            2 * m * d <= 2 * n + d,
            n >= LEAST * d,
            2 * LEAST == LIMIT,
            LIMIT == 0x100_0000,
    ;
}

proof fn lemma_packed_value(m: nat, e: int)
    requires
        m <= LIMIT,
        -400 <= e <= 400,
    ensures
        value(packed(m, e)) == m * pow2((e + 500) as nat),
{
    if m == LIMIT {
        let p = pow2((e + 500) as nat);
        lemma_pow2_unfold((e + 501) as nat);
        assert(LEAST as nat * (2 * p) == m * p) by (nonlinear_arith)
            requires
                m == 0x100_0000,
                LEAST == 0x80_0000,
        ;
    }
}

/// A rounded product is off by at most one part in two to the 24th.
pub proof fn lemma_product_close(a: Single, b: Single)
    requires
        a.wf(),
        b.wf(),
        -100 <= a.exp <= 100,
        -100 <= b.exp <= 100,
    ensures
        value(product(a, b)) * unit() * LIMIT <= value(a) * value(b) * (LIMIT + 1),
        value(product(a, b)) * unit() * LIMIT >= value(a) * value(b) * (LIMIT - 1),
{
    lemma_product(a, b);
    let va = value(a);
    let vb = value(b);
    if a.mant == 0 || b.mant == 0 {
        let z = pow2(500);
        assert(value(zero()) == 0) by (nonlinear_arith)
            requires
                value(zero()) == 0 * z,
        ;
        assert(value(product(a, b)) * unit() * LIMIT == 0) by (nonlinear_arith)
            requires
                value(product(a, b)) == 0,
        ;
        assert(va * vb == 0) by (nonlinear_arith)
            requires
                va == a.mant * pow2((a.exp + 500) as nat),
                vb == b.mant * pow2((b.exp + 500) as nat),
                a.mant == 0 || b.mant == 0,
        ;
        return ;
    }
    lemma2_to64();
    lemma2_to64_rest();
    let n = (a.mant * b.mant) as nat;
    let e = a.exp + b.exp;
    assert(0x4000_0000_0000 <= n) by (nonlinear_arith)
        requires
            n == a.mant * b.mant,
            a.mant >= 0x80_0000,
            b.mant >= 0x80_0000,
    ;
    let k: nat = if n < pow2(47) {
        47
    } else {
        48
    };
    lemma_bit_len_is(n, k);
    let s = (k - 24) as nat;
    let d = pow2(s);
    lemma_pow2_pos(s);
    lemma_pow2_adds(23, s);
    lemma_pow2_adds(24, s);
    lemma_nearest_close(n, d);
    lemma_nearest_between(n, d, LEAST as nat, LIMIT as nat);
    let m = nearest_even(n, d);
    lemma_packed_value(m, e + k - 24);
    // value(product) == m * 2^(e + s + 500)
    let base = pow2((e + 500) as nat);
    lemma_pow2_adds(s, (e + 500) as nat);
    let vp = value(product(a, b));
    assert(vp == m * (d * base));
    let pa = pow2((a.exp + 500) as nat);
    let pb = pow2((b.exp + 500) as nat);
    lemma_pow2_adds((a.exp + 500) as nat, (b.exp + 500) as nat);
    lemma_pow2_adds((e + 500) as nat, 500);
    let u = unit();
    assert(pa * pb == base * u);
    assert(va * vb == n * (base * u)) by (nonlinear_arith)
        requires
            va == a.mant * pa,
            vb == b.mant * pb,
            n == a.mant * b.mant,
            pa * pb == base * u,
    ;
    let f = base * u;
    assert(vp * u * LIMIT == (m * d * LIMIT) * f) by (nonlinear_arith)
        requires
            vp == m * (d * base),
            f == base * u,
    ;
    assert(va * vb * (LIMIT + 1) == (n * (LIMIT + 1)) * f) by (nonlinear_arith)
        requires
            va * vb == n * f,
    ;
    assert(va * vb * (LIMIT - 1) == (n * (LIMIT - 1)) * f) by (nonlinear_arith)
        requires
            va * vb == n * f,
    ;
    assert((m * d * LIMIT) * f <= (n * (LIMIT + 1)) * f) by (nonlinear_arith)
        requires
            m * d * LIMIT <= n * (LIMIT + 1),
            f >= 0,
    ;
    assert((m * d * LIMIT) * f >= (n * (LIMIT - 1)) * f) by (nonlinear_arith)
        requires
            m * d * LIMIT >= n * (LIMIT - 1),
            f >= 0,
    ;
}

/// A rounded quotient, multiplied back, is off the dividend by at most one part in two to the 24th.
pub proof fn lemma_quotient_close(a: Single, b: Single)
    requires
        a.wf(),
        b.wf(),
        a.mant > 0,
        b.mant > 0,
        -100 <= a.exp <= 100,
        -100 <= b.exp <= 100,
    ensures
        value(quotient(a, b)) * value(b) * LIMIT <= value(a) * unit() * (LIMIT + 1),
        value(quotient(a, b)) * value(b) * LIMIT >= value(a) * unit() * (LIMIT - 1),
{
    lemma2_to64();
    lemma_quotient(a, b);
    let k: nat = if a.mant >= b.mant {
        23
    } else {
        24
    };
    let c = pow2(k);
    let n = (a.mant * c) as nat;
    let d = b.mant as nat;
    assert(n >= LEAST * d) by (nonlinear_arith)
        requires
            n == a.mant * c,
            a.mant >= d && c == 0x80_0000 || (a.mant >= 0x80_0000 && c == 0x100_0000 && d
                < 0x100_0000),
            LEAST == 0x80_0000,
    ;
    lemma_nearest_close(n, d);
    let m = nearest_even(n, d);
    let e = a.exp - b.exp - k;
    lemma_packed_value(m, e);
    let vq = value(quotient(a, b));
    let base = pow2((e + 500) as nat);
    assert(vq == m * base);
    let pa = pow2((a.exp + 500) as nat);
    let pb = pow2((b.exp + 500) as nat);
    let u = unit();
    // 2^(e+500) * 2^(eb+500) * 2^k == 2^(ea+500) * 2^500
    lemma_pow2_adds((e + 500) as nat, (b.exp + 500) as nat);
    lemma_pow2_adds((e + 500 + b.exp + 500) as nat, k);
    lemma_pow2_adds((a.exp + 500) as nat, 500);
    let f = base * pb;
    assert(f * c == pa * u);
    assert(vq * value(b) * LIMIT == (m * d * LIMIT) * f) by (nonlinear_arith)
        requires
            vq == m * base,
            value(b) == d * pb,
            f == base * pb,
    ;
    assert(value(a) * u * (LIMIT + 1) == (n * (LIMIT + 1)) * f) by (nonlinear_arith)
        requires
            value(a) == a.mant * pa,
            n == a.mant * c,
            f * c == pa * u,
    ;
    assert(value(a) * u * (LIMIT - 1) == (n * (LIMIT - 1)) * f) by (nonlinear_arith)
        requires
            value(a) == a.mant * pa,
            n == a.mant * c,
            f * c == pa * u,
    ;
    assert((m * d * LIMIT) * f <= (n * (LIMIT + 1)) * f) by (nonlinear_arith)
        requires
            m * d * LIMIT <= n * (LIMIT + 1),
            f >= 0,
    ;
    assert((m * d * LIMIT) * f >= (n * (LIMIT - 1)) * f) by (nonlinear_arith)
        requires
            m * d * LIMIT >= n * (LIMIT - 1),
            f >= 0,
    ;
}

/// The order of singles is the order of their values.
pub proof fn lemma_less_is_by_value(a: Single, b: Single)
    requires
        a.wf(),
        b.wf(),
        -400 <= a.exp <= 400,
        -400 <= b.exp <= 400,
    ensures
        less(a, b) <==> value(a) < value(b),
{
    let pa = pow2((a.exp + 500) as nat);
    let pb = pow2((b.exp + 500) as nat);
    lemma_pow2_pos((a.exp + 500) as nat);
    lemma_pow2_pos((b.exp + 500) as nat);
    let x = a.mant as int;
    let y = b.mant as int;
    if x == 0 || y == 0 {
        assert(x * pa < y * pb <==> x < y) by (nonlinear_arith)
            requires
                x == 0 || y == 0,
                x >= 0,
                y >= 0,
                pa > 0,
                pb > 0,
        ;
    } else if a.exp == b.exp {
        assert(x * pa < y * pa <==> x < y) by (nonlinear_arith)
            requires
                pa > 0,
        ;
    } else if a.exp < b.exp {
        lemma_double(a.exp + 500, b.exp + 500);
        assert(x * pa < y * pb) by (nonlinear_arith)
            requires
                x < 0x100_0000,
                y >= 0x80_0000,
                pb >= 2 * pa,
                pa > 0,
        ;
    } else {
        lemma_double(b.exp + 500, a.exp + 500);
        assert(x * pa >= y * pb) by (nonlinear_arith)
            requires
                y < 0x100_0000,
                x >= 0x80_0000,
                pa >= 2 * pb,
                pb > 0,
        ;
    }
}

proof fn lemma_double(i: int, j: int)
    requires
        0 <= i < j,
    ensures
        pow2(j as nat) >= 2 * pow2(i as nat),
{
    lemma_pow2_unfold((i + 1) as nat);
    if i + 1 < j {
        lemma_pow2_strictly_increases((i + 1) as nat, j as nat);
    }
}

/// What is less than `n` and a half rounds to at most `n`.
pub proof fn lemma_nearest_int_upper(s: Single, n: nat)
    requires
        s.wf(),
        -400 <= s.exp <= 400,
        2 * value(s) < (2 * n + 1) * unit(),
    ensures
        nearest_int(s) <= n,
{
    let u = unit();
    lemma_pow2_pos(500);
    if s.exp >= 0 {
        let p = pow2(s.exp as nat);
        lemma_pow2_adds(s.exp as nat, 500);
        let m = s.mant as nat;
        assert(m * p <= n) by (nonlinear_arith)
            requires
                2 * (m * (p * u)) < (2 * n + 1) * u,
                u > 0,
        ;
    } else {
        let d = pow2((-s.exp) as nat);
        let p = pow2((s.exp + 500) as nat);
        lemma_pow2_adds((-s.exp) as nat, (s.exp + 500) as nat);
        lemma_pow2_pos((-s.exp) as nat);
        lemma_pow2_pos((s.exp + 500) as nat);
        let m = s.mant as nat;
        assert(u == d * p);
        assert(2 * m < (2 * n + 1) * d) by (nonlinear_arith)
            requires
                2 * (m * p) < (2 * n + 1) * (d * p),
                p > 0,
        ;
        assert((2 * m + d) / (2 * d) <= n) by (nonlinear_arith)
            requires
                2 * m < (2 * n + 1) * d,
                d > 0,
        ;
    }
}

/// What is at least `n` less a half rounds to at least `n`.
pub proof fn lemma_nearest_int_lower(s: Single, n: nat)
    requires
        s.wf(),
        -400 <= s.exp <= 400,
        n <= u32::MAX,
        2 * value(s) + unit() >= 2 * n * unit(),
    ensures
        nearest_int(s) >= n,
{
    let u = unit();
    lemma_pow2_pos(500);
    if s.exp >= 0 {
        let p = pow2(s.exp as nat);
        lemma_pow2_adds(s.exp as nat, 500);
        let m = s.mant as nat;
        assert(m * p >= n) by (nonlinear_arith)
            requires
                2 * (m * (p * u)) + u >= 2 * n * u,
                u > 0,
        ;
    } else {
        let d = pow2((-s.exp) as nat);
        let p = pow2((s.exp + 500) as nat);
        lemma_pow2_adds((-s.exp) as nat, (s.exp + 500) as nat);
        lemma_pow2_pos((-s.exp) as nat);
        lemma_pow2_pos((s.exp + 500) as nat);
        let m = s.mant as nat;
        assert(u == d * p);
        assert(2 * m + d >= 2 * n * d) by (nonlinear_arith)
            requires
                2 * (m * p) + d * p >= 2 * n * (d * p),
                p > 0,
        ;
        assert((2 * m + d) / (2 * d) >= n) by (nonlinear_arith)
            requires
                2 * m + d >= 2 * n * d,
                d > 0,
        ;
    }
}

/// A whole number is off by at most one part in two to the 24th when it is rounded.
pub proof fn lemma_rounded_close(n: nat)
    requires
        0 < n <= u32::MAX,
    ensures
        value(rounded(n, 0)) * LIMIT <= n * unit() * (LIMIT + 1),
        value(rounded(n, 0)) * LIMIT >= n * unit() * (LIMIT - 1),
{
    let u = unit();
    lemma_pow2_pos(500);
    if n < LIMIT {
        lemma_whole_value(n);
        let v = n * u;
        assert(v >= 0) by (nonlinear_arith)
            requires
                v == n * u,
                n >= 0,
                u > 0,
        ;
    } else {
        lemma2_to64();
        lemma_bit_len(n);
        lemma_short(n, 32);
        let k = bit_len(n);
        if k <= 24 {
            if k < 24 {
                lemma_pow2_strictly_increases(k, 24);
            }
        }
        let s = (k - 24) as nat;
        let d = pow2(s);
        lemma_pow2_pos(s);
        lemma_pow2_adds(23, s);
        lemma_pow2_adds(24, s);
        lemma_nearest_close(n, d);
        lemma_nearest_between(n, d, LEAST as nat, LIMIT as nat);
        let m = nearest_even(n, d);
        lemma_packed_value(m, k - 24);
        lemma_pow2_adds(s, 500);
        let v = value(rounded(n, 0));
        assert(v == m * (d * u));
        assert(v * LIMIT <= n * u * (LIMIT + 1) && v * LIMIT >= n * u * (LIMIT - 1))
            by (nonlinear_arith)
            requires
                v == m * (d * u),
                m * d * LIMIT <= n * (LIMIT + 1),
                m * d * LIMIT >= n * (LIMIT - 1),
                u > 0,
        ;
    }
}

/// Singles with the same value are the same.
pub proof fn lemma_value_tells_apart(a: Single, b: Single)
    requires
        a.wf(),
        b.wf(),
        -400 <= a.exp <= 400,
        -400 <= b.exp <= 400,
        value(a) == value(b),
    ensures
        a == b,
{
    lemma_less_is_by_value(a, b);
    lemma_less_is_by_value(b, a);
}

/// A value over one that is no greater is at least one.
pub proof fn lemma_quotient_at_least_one(a: Single, b: Single, one: Single)
    requires
        a.wf(),
        b.wf(),
        b.mant > 0,
        -100 <= a.exp <= 100,
        -100 <= b.exp <= 100,
        value(b) <= value(a),
        one == (Single { mant: LEAST, exp: (-23) as i32 }),
    ensures
        value(quotient(a, b)) >= value(one),
{
    lemma_less_is_by_value(a, b);
    lemma_quotient(a, b);
    lemma_less_is_by_value(quotient(a, b), one);
}

/// A product with one is the other factor.
pub proof fn lemma_times_one(a: Single, one: Single)
    requires
        a.wf(),
        -100 <= a.exp <= 100,
        one == (Single { mant: LEAST, exp: (-23) as i32 }),
    ensures
        product(a, one) == a,
{
    lemma2_to64();
    lemma2_to64_rest();
    if a.mant > 0 {
        let n = (a.mant * LEAST) as nat;
        lemma_bit_len_is(n, 47);
        let d = pow2(23);
        assert(n / d == a.mant && n % d == 0) by (nonlinear_arith)
            requires
                n == a.mant * d,
                d > 0,
        ;
    } else {
        lemma_product(a, one);
    }
}

/// A whole number below two to the 24th is represented exactly.
pub proof fn lemma_whole_value(n: nat)
    requires
        n < LIMIT,
    ensures
        value(rounded(n, 0)) == n * unit(),
        rounded(n, 0).wf(),
        n > 0 ==> -23 <= rounded(n, 0).exp <= 0,
{
    lemma2_to64();
    if n == 0 {
        assert(0 * pow2(500) == 0);
    } else {
        lemma_bit_len(n);
        let k = bit_len(n);
        if k > 24 {
            if k > 25 {
                lemma_pow2_strictly_increases(24, (k - 1) as nat);
            }
        }
        let s = (24 - k) as nat;
        lemma_rounded(n, 0);
        lemma_pow2_adds((k - 1) as nat, s);
        lemma_pow2_adds(k, s);
        let lo = pow2((k - 1) as nat);
        let hi = pow2(k);
        let p = pow2(s);
        lemma_pow2_pos(s);
        assert(lo * p <= n * p < hi * p) by (nonlinear_arith)
            requires
                lo <= n < hi,
                p > 0,
        ;
        lemma_packed_value(n * p, k - 24);
        lemma_pow2_adds(s, (k - 24 + 500) as nat);
        let b = pow2((k - 24 + 500) as nat);
        assert((n * p) * b == n * (p * b)) by (nonlinear_arith);
    }
}

/// Zeros behind the binary digits of a number can be counted into the exponent.
pub proof fn lemma_rounded_shift(c: nat, j: nat, e: int)
    requires
        0 < c < LIMIT,
        j <= 30,
        -1000 <= e <= 1000,
    ensures
        rounded(c * pow2(j), e) == rounded(c, e + j),
{
    lemma2_to64();
    lemma_bit_len(c);
    let k = bit_len(c);
    if k > 24 {
        if k > 25 {
            lemma_pow2_strictly_increases(24, (k - 1) as nat);
        }
    }
    let p = pow2(j);
    lemma_pow2_pos(j);
    lemma_pow2_adds((k - 1) as nat, j);
    lemma_pow2_adds(k, j);
    let lo = pow2((k - 1) as nat);
    let hi = pow2(k);
    assert(lo * p <= c * p < hi * p) by (nonlinear_arith)
        requires
            lo <= c < hi,
            p > 0,
    ;
    lemma_bit_len_is(c * p, k + j);
    assert(c * p > 0) by (nonlinear_arith)
        requires
            c > 0,
            p > 0,
    ;
    let m = c * pow2((24 - k) as nat);
    if k + j <= 24 {
        lemma_pow2_adds(j, (24 - k - j) as nat);
        let r = pow2((24 - k - j) as nat);
        assert((c * p) * r == c * (p * r)) by (nonlinear_arith);
    } else {
        let d = pow2((k + j - 24) as nat);
        lemma_pow2_pos((k + j - 24) as nat);
        lemma_pow2_adds((24 - k) as nat, (k + j - 24) as nat);
        let q = pow2((24 - k) as nat);
        assert(c * p == m * d) by (nonlinear_arith)
            requires
                p == q * d,
                m == c * q,
        ;
        vstd::arithmetic::div_mod::lemma_fundamental_div_mod_converse(
            (c * p) as int,
            d as int,
            m as int,
            0,
        );
        assert(nearest_even(c * p, d) == m);
    }
}

/// The whole part of a value is the last whole number that is not above it.
pub proof fn lemma_whole_part(s: Single)
    requires
        s.wf(),
        -400 <= s.exp <= 400,
        value(s) < 0x1_0000_0000 * unit(),
    ensures
        whole_part(s) * unit() <= value(s) < (whole_part(s) + 1) * unit(),
{
    let u = unit();
    let m = s.mant as nat;
    lemma_pow2_pos(500);
    if s.exp >= 0 {
        let p = pow2(s.exp as nat);
        lemma_pow2_adds(s.exp as nat, 500);
        let n = m * p;
        assert(m * (p * u) == n * u) by (nonlinear_arith)
            requires
                n == m * p,
        ;
        assert(n < 0x1_0000_0000) by (nonlinear_arith)
            requires
                n * u < 0x1_0000_0000 * u,
                u > 0,
        ;
        assert(n * u < (n + 1) * u) by (nonlinear_arith)
            requires
                u > 0,
        ;
    } else {
        let d = pow2((-s.exp) as nat);
        let p = pow2((s.exp + 500) as nat);
        lemma_pow2_adds((-s.exp) as nat, (s.exp + 500) as nat);
        lemma_pow2_pos((-s.exp) as nat);
        lemma_pow2_pos((s.exp + 500) as nat);
        let n = m / d;
        lemma_fundamental_div_mod(m as int, d as int);
        lemma_mod_bound(m as int, d as int);
        let r = m % d;
        assert(n * u <= m * p && m * p < (n + 1) * u) by (nonlinear_arith)
            requires
                m == d * n + r,
                0 <= r < d,
                u == d * p,
                p > 0,
        ;
        assert(n < 0x1_0000_0000) by (nonlinear_arith)
            requires
                n * u <= m * p,
                m * p < 0x1_0000_0000 * u,
                u > 0,
        ;
    }
}

} // verus!
