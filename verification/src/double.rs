//! Floating-point values as the library carries them: by their IEEE-754 bits.
use vstd::prelude::*;

verus! {

/// The bits of a double.
#[derive(Clone, Copy, Debug, PartialEq, Eq, Structural)]
pub struct Double {
    pub bits: u64,
}

/// The bit of the sign.
pub const SIGN: u64 = 0x8000_0000_0000_0000;

/// The bits of 0.0.
pub const ZERO: u64 = 0;

/// The bits of 1.0.
pub const ONE: u64 = 0x3ff0_0000_0000_0000;

/// The bits of infinity.
pub const INFINITY: u64 = 0x7ff0_0000_0000_0000;

/// The bits of 0.02.
pub const FIFTIETH: u64 = 0x3f94_7ae1_47ae_147b;

/// The bits of 0.10.
pub const TENTH: u64 = 0x3fb9_9999_9999_999a;

/// The bits of 0.90.
pub const NINE_TENTHS: u64 = 0x3fec_cccc_cccc_cccd;

impl Double {
    /// The place of the value in the total order of doubles: the negative ones
    /// before the others, by magnitude.
    pub open spec fn rank(self) -> int {
        if self.bits < SIGN {
            self.bits as int
        } else {
            SIGN - self.bits - 1
        }
    }

    /// Whether the value lies between two bounds that are not negative, given by
    /// their bits. No NaN does; a zero of either sign is a zero.
    pub open spec fn between(self, low: u64, high: u64) -> bool {
        if self.bits == SIGN {
            low == 0
        } else {
            low <= self.bits <= high
        }
    }

    /// Whether the value is above zero: no NaN is.
    pub open spec fn positive(self) -> bool {
        0 < self.bits <= INFINITY
    }

    /// Whether the value is above zero.
    pub fn is_positive(self) -> (r: bool)
        ensures
            r == self.positive(),
    {
        0 < self.bits && self.bits <= INFINITY
    }

    /// Whether the value comes before another in the total order.
    pub fn precedes(self, other: Double) -> (r: bool)
        ensures
            r == (self.rank() < other.rank()),
    {
        if self.bits < SIGN {
            other.bits < SIGN && self.bits < other.bits
        } else {
            other.bits < SIGN || self.bits > other.bits
        }
    }

    /// Whether the value lies between two bounds.
    pub fn within(self, low: u64, high: u64) -> (r: bool)
        ensures
            r == self.between(low, high),
    {
        if self.bits == SIGN {
            low == 0
        } else {
            low <= self.bits && self.bits <= high
        }
    }
}

/// The whole number nearest to `n` over `d`, the even one of two.
pub open spec fn nearest(n: nat, d: nat) -> nat {
    let q = n / d;
    let r = n % d;
    if 2 * r > d || 2 * r == d && q % 2 == 1 {
        q + 1
    } else {
        q
    }
}

/// The largest power of two that, times `d`, is no more than `n`, or else one.
pub open spec fn factor(n: nat, d: nat) -> nat
    decreases n - d,
{
    if 0 < d && 2 * d <= n {
        2 * factor(n, 2 * d)
    } else {
        1
    }
}

/// 2^52: a double has one more bit than this has zeros.
pub const MANTISSA: u64 = 0x10_0000_0000_0000;

/// The double that a whole number becomes, itself a whole number.
pub open spec fn double_of(n: nat) -> nat {
    let f = factor(n, MANTISSA as nat);
    nearest(n, f) * f
}

/// The quotient of `n` and `d` in doubles, in hundredths: `n` as a double over
/// `d`, rounded to a double, and that rounded to two decimals. This is for `d`
/// that are doubles themselves and no more than `n`.
pub open spec fn hundredths(n: nat, d: nat) -> nat {
    let m = double_of(n);
    let f = factor(m, d);
    let q = nearest(m * MANTISSA as nat, d * f);
    nearest(100 * q * f, MANTISSA as nat)
}

fn divide_nearest(n: u128, d: u128) -> (r: u128)
    requires
        0 < d < 0x1_0000_0000_0000_0000_0000_0000_0000,
        n < 0x8000_0000_0000_0000_0000_0000_0000_0000,
    ensures
        r == nearest(n as nat, d as nat),
        r <= n as nat / d as nat + 1,
        r <= n + 1,
{
    let q: u128 = n / d;
    let r: u128 = n % d;
    proof {
        assert(q <= n) by (nonlinear_arith)
            requires
                q == n / d,
                d > 0,
        ;
    }
    if 2 * r > d || 2 * r == d && q % 2 == 1 {
        q + 1
    } else {
        q
    }
}

fn find_factor(n: u128, d: u128) -> (f: u128)
    requires
        0 < d,
        n < 0x8000_0000_0000_0000_0000_0000_0000_0000,
    ensures
        f == factor(n as nat, d as nat),
        f > 0,
        f == 1 || d * f <= n,
{
    let mut f: u128 = 1;
    let mut den: u128 = d;
    while den <= n / 2
        invariant
            0 < d <= den,
            n < 0x8000_0000_0000_0000_0000_0000_0000_0000,
            f > 0,
            den == d * f,
            f == 1 || den <= n,
            factor(n as nat, d as nat) == f * factor(n as nat, den as nat),
        decreases n - den,
    {
        let ghost rest = factor(n as nat, 2 * den as nat);
        proof {
            assert(f <= den) by (nonlinear_arith)
                requires
                    den == d * f,
                    d >= 1,
                    f > 0,
            ;
            assert(factor(n as nat, den as nat) == 2 * rest);
            assert(f * (2 * rest) == (f * 2) * rest) by (nonlinear_arith);
            assert(d * (f * 2) == d * f * 2) by (nonlinear_arith);
        }
        f = f * 2;
        den = den * 2;
    }
    proof {
        assert(factor(n as nat, den as nat) == 1);
        assert(f * 1 == f);
    }
    f
}

/// The quotient of two numbers in doubles, in hundredths.
pub fn divide_hundredths(n: u64, d: u64) -> (r: u128)
    requires
        d > 0,
    ensures
        r == hundredths(n as nat, d as nat),
{
    let f: u128 = find_factor(n as u128, MANTISSA as u128);
    proof {
        assert(f <= n || f == 1) by (nonlinear_arith)
            requires
                f == 1 || MANTISSA * f <= n,
                f > 0,
        ;
    }
    let whole: u128 = divide_nearest(n as u128, f);
    proof {
        assert(whole * f <= 0x3_0000_0000_0000_0000) by (nonlinear_arith)
            requires
                whole <= n as nat / f as nat + 1,
                f > 0,
                f <= n || f == 1,
                n <= 0xffff_ffff_ffff_ffff,
        ;
        assert(whole * f >= 0) by (nonlinear_arith);
    }
    let m: u128 = whole * f;
    let g: u128 = find_factor(m, d as u128);
    proof {
        assert(d * g <= 0x3_0000_0000_0000_0000);
        assert(d * g > 0) by (nonlinear_arith)
            requires
                d > 0,
                g > 0,
        ;
    }
    let a: u128 = m * MANTISSA as u128;
    let den: u128 = d as u128 * g;
    let q: u128 = divide_nearest(a, den);
    proof {
        let x = a as int / den as int;
        assert(x * g <= a) by (nonlinear_arith)
            requires
                x == a as int / den as int,
                den == d * g,
                d >= 1,
                g > 0,
                den > 0,
        ;
        assert(g <= den) by (nonlinear_arith)
            requires
                den == d * g,
                d >= 1,
                g > 0,
        ;
        assert(q * g <= x * g + g) by (nonlinear_arith)
            requires
                q <= x + 1,
                g > 0,
        ;
        assert(q * g >= 0) by (nonlinear_arith);
        assert(100 * q * g == 100 * (q * g)) by (nonlinear_arith);
        assert(100 * q <= 100 * (q * g)) by (nonlinear_arith)
            requires
                g >= 1,
                q >= 0,
        ;
    }
    divide_nearest(100 * q * g, MANTISSA as u128)
}

} // verus!
