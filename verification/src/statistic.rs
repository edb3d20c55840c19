//! The t-statistic of one measurement, held as an exact decimal number.
//!
//! A timing runner prints its statistic as decimal text. The number is kept
//! as the decimal it was written as, a sign, a whole mantissa and a power of
//! ten, so that the comparison with the acceptance bound is exact. The model
//! of a statistic is one integer: its value counted in hundred-thousandths.

use vstd::prelude::*;

verus! {

/// The acceptance bound of 4.5, in hundred-thousandths.
pub const THRESHOLD: i64 = 450_000;

/// The smallest power of ten a statistic is stored with: five decimals.
pub const MIN_EXPONENT: i32 = -5;

/// The largest power of ten a statistic is stored with.
pub const MAX_EXPONENT: i32 = 1_000_000;

/// The largest power of ten that `TStatistic::from_parts` takes; the rest up
/// to `MAX_EXPONENT` is room for the trailing zeros of a mantissa.
pub const MAX_INPUT_EXPONENT: i32 = 999_980;

/// Ten to the power `k`.
pub open spec fn pow10(k: nat) -> nat
    decreases k,
{
    if k == 0 {
        1
    } else {
        10 * pow10((k - 1) as nat)
    }
}

/// The value, in hundred-thousandths, of the decimal
/// `mantissa * 10^exponent` with the given sign. Meant for exponents of
/// `MIN_EXPONENT` and more, where that value is whole.
pub open spec fn decimal_value(negative: bool, mantissa: nat, exponent: int) -> int {
    let magnitude = mantissa * pow10((exponent + 5) as nat);
    if negative {
        -magnitude
    } else {
        magnitude as int
    }
}

/// Whether a value in hundred-thousandths lies in the accepted band
/// `[-4.5, 4.5]`, both ends included.
pub open spec fn in_band(value: int) -> bool {
    -THRESHOLD <= value <= THRESHOLD
}

/// A power of ten is at least one.
pub proof fn lemma_pow10_positive(k: nat)
    ensures
        pow10(k) >= 1,
    decreases k,
{
    if k > 0 {
        lemma_pow10_positive((k - 1) as nat);
    }
}

/// Powers of ten grow with the exponent.
pub proof fn lemma_pow10_increases(j: nat, k: nat)
    requires
        j <= k,
    ensures
        pow10(j) <= pow10(k),
    decreases k,
{
    if j < k {
        lemma_pow10_increases(j, (k - 1) as nat);
    }
}

/// Powers of ten multiply when exponents add.
pub proof fn lemma_pow10_adds(j: nat, k: nat)
    ensures
        pow10(j + k) == pow10(j) * pow10(k),
    decreases j,
{
    if j > 0 {
        lemma_pow10_adds((j - 1) as nat, k);
        let a = pow10((j - 1) as nat);
        let b = pow10(k);
        assert(((j - 1) as nat) + k == (j + k - 1) as nat);
        assert(pow10(j + k) == 10 * pow10((j + k - 1) as nat));
        assert(10 * (a * b) == (10 * a) * b) by (nonlinear_arith);
    } else {
        assert(1 * pow10(k) == pow10(k));
    }
}

/// A decimal whose mantissa does not end in zero is written in one way only:
/// equal products of such a mantissa and a power of ten have equal factors.
proof fn lemma_decimal_unique(m1: nat, k1: nat, m2: nat, k2: nat)
    requires
        m1 % 10 != 0,
        m2 % 10 != 0,
        m1 * pow10(k1) == m2 * pow10(k2),
    ensures
        m1 == m2,
        k1 == k2,
    decreases k1 + k2,
{
    let p1 = pow10((k1 - 1) as nat);
    let p2 = pow10((k2 - 1) as nat);
    if k1 == 0 {
        assert(m1 * 1 == m1);
    }
    if k2 == 0 {
        assert(m2 * 1 == m2);
    }
    if k1 == 0 && k2 == 0 {
    } else if k1 == 0 {
        assert(m2 * (10 * p2) == 10 * (m2 * p2)) by (nonlinear_arith);
    } else if k2 == 0 {
        assert(m1 * (10 * p1) == 10 * (m1 * p1)) by (nonlinear_arith);
    } else {
        assert(m1 * (10 * p1) == 10 * (m1 * p1)) by (nonlinear_arith);
        assert(m2 * (10 * p2) == 10 * (m2 * p2)) by (nonlinear_arith);
        lemma_decimal_unique(m1, (k1 - 1) as nat, m2, (k2 - 1) as nat);
    }
}

/// Ten to the power `k`, for a power that fits in 64 bits.
fn power_of_ten(k: u32) -> (p: u64)
    requires
        k <= 19,
    ensures
        p == pow10(k as nat),
{
    let mut p: u64 = 1;
    let mut done: u32 = 0;
    proof {
        lemma_pow10_19();
        lemma_pow10_positive(19);
    }
    while done < k
        invariant
            done <= k <= 19,
            p == pow10(done as nat),
            p <= pow10(19),
            pow10(19) == 10_000_000_000_000_000_000u64,
        decreases k - done,
    {
        proof {
            lemma_pow10_increases((done + 1) as nat, 19);
        }
        p = p * 10;
        done += 1;
    }
    p
}

/// The value of the largest power of ten below `2^64`.
proof fn lemma_pow10_19()
    ensures
        pow10(19) == 10_000_000_000_000_000_000u64,
{
    reveal_with_fuel(pow10, 20);
}

/// The t-statistic of one measurement: an exact decimal number.
///
/// The number is stored as a sign, a mantissa and a power of ten. The
/// mantissa of a non-zero number never ends in zero, and zero is stored in
/// one way, so two statistics are equal exactly when their values are.
#[derive(Clone, Copy, Debug, PartialEq, Eq, Structural)]
pub struct TStatistic {
    negative: bool,
    mantissa: u64,
    exponent: i32,
}

impl View for TStatistic {
    type V = int;

    /// The value in hundred-thousandths.
    closed spec fn view(&self) -> int {
        decimal_value(self.negative, self.mantissa as nat, self.exponent as int)
    }
}

impl TStatistic {
    /// The stored form is the canonical one.
    #[verifier::type_invariant]
    pub closed spec fn wf(self) -> bool {
        &&& MIN_EXPONENT <= self.exponent <= MAX_EXPONENT
        &&& self.mantissa == 0 ==> self.exponent == 0 && !self.negative
        &&& self.mantissa != 0 ==> self.mantissa % 10 != 0
    }

    /// Two well-formed statistics of one value are one statistic.
    pub proof fn lemma_value_determines(a: TStatistic, b: TStatistic)
        requires
            a.wf(),
            b.wf(),
            a@ == b@,
        ensures
            a == b,
    {
        let k1 = (a.exponent + 5) as nat;
        let k2 = (b.exponent + 5) as nat;
        let m1 = a.mantissa as nat;
        let m2 = b.mantissa as nat;
        lemma_pow10_positive(k1);
        lemma_pow10_positive(k2);
        assert(m1 >= 1 ==> m1 * pow10(k1) >= 1) by (nonlinear_arith)
            requires
                pow10(k1) >= 1,
        ;
        assert(m2 >= 1 ==> m2 * pow10(k2) >= 1) by (nonlinear_arith)
            requires
                pow10(k2) >= 1,
        ;
        assert(0 * pow10(k1) == 0 && 0 * pow10(k2) == 0);
        if m1 != 0 && m2 != 0 {
            lemma_decimal_unique(m1, k1, m2, k2);
        }
    }

    /// The statistic `mantissa * 10^exponent`, negated if `negative` is set.
    ///
    /// Trailing zeros of the mantissa move into the exponent, and a zero
    /// loses its sign.
    pub fn from_parts(negative: bool, mantissa: u64, exponent: i32) -> (t: TStatistic)
        requires
            MIN_EXPONENT <= exponent <= MAX_INPUT_EXPONENT,
        ensures
            t@ == decimal_value(negative, mantissa as nat, exponent as int),
            t.wf(),
    {
        if mantissa == 0 {
            assert(0 * pow10((exponent + 5) as nat) == 0);
            return TStatistic { negative: false, mantissa: 0, exponent: 0 };
        }
        let mut m: u64 = mantissa;
        let mut e: i32 = exponent;
        let ghost mut steps: nat = 0;
        assert(m * 1 == m);
        while m % 10 == 0
            invariant
                m >= 1,
                e == exponent + steps,
                MIN_EXPONENT <= exponent <= MAX_INPUT_EXPONENT,
                m * pow10(steps) == mantissa,
                steps <= 19,
            decreases m,
        {
            proof {
                let p = pow10(steps);
                let q = (m / 10) as nat;
                assert(q * (10 * p) == (10 * q) * p) by (nonlinear_arith);
                assert(pow10(steps + 1) == 10 * p);
                if steps + 1 > 19 {
                    lemma_pow10_19();
                    lemma_pow10_increases(20, steps + 1);
                    assert(pow10(20) == 10 * pow10(19));
                    assert(q * pow10(steps + 1) >= pow10(steps + 1)) by (nonlinear_arith)
                        requires
                            q >= 1,
                    ;
                }
                steps = steps + 1;
            }
            m = m / 10;
            e = e + 1;
        }
        proof {
            let k = (exponent + 5) as nat;
            lemma_pow10_adds(steps, k);
            assert(m * (pow10(steps) * pow10(k)) == (m * pow10(steps)) * pow10(k))
                by (nonlinear_arith);
            assert((e + 5) as nat == steps + k);
        }
        TStatistic { negative, mantissa: m, exponent: e }
    }

    /// The statistic of the given value in hundred-thousandths.
    pub fn from_hundred_thousandths(value: i64) -> (t: TStatistic)
        ensures
            t@ == value,
            t.wf(),
    {
        let negative = value < 0;
        let magnitude: u64 = if value >= 0 {
            value as u64
        } else if value == i64::MIN {
            9_223_372_036_854_775_808u64
        } else {
            (-value) as u64
        };
        proof {
            assert(pow10(0) == 1);
            assert(magnitude * 1 == magnitude);
        }
        TStatistic::from_parts(negative, magnitude, MIN_EXPONENT)
    }

    /// The sign, the mantissa and the power of ten that the statistic is
    /// stored with.
    pub fn parts(&self) -> (p: (bool, u64, i32))
        ensures
            self@ == decimal_value(p.0, p.1 as nat, p.2 as int),
            MIN_EXPONENT <= p.2 <= MAX_EXPONENT,
            p.1 == 0 ==> p.2 == 0 && !p.0,
            p.1 != 0 ==> p.1 % 10 != 0,
    {
        proof {
            use_type_invariant(self);
        }
        (self.negative, self.mantissa, self.exponent)
    }

    /// Whether the statistic lies in the accepted band `[-4.5, 4.5]`.
    ///
    /// Both ends are included: 4.5 and -4.5 are accepted, 4.50001 is not.
    pub fn within_threshold(&self) -> (ok: bool)
        ensures
            ok == in_band(self@),
    {
        proof {
            use_type_invariant(self);
        }
        let ghost k = (self.exponent + 5) as nat;
        let ghost m = self.mantissa as nat;
        proof {
            lemma_pow10_positive(k);
        }
        if self.mantissa == 0 {
            assert(0 * pow10(k) == 0);
            true
        } else if self.exponent > 0 || self.mantissa > 450_000 {
            proof {
                if self.exponent > 0 {
                    lemma_pow10_increases(6, k);
                    reveal_with_fuel(pow10, 7);
                    assert(pow10(6) == 1_000_000);
                }
                assert(m * pow10(k) >= m && m * pow10(k) >= pow10(k)) by (nonlinear_arith)
                    requires
                        m >= 1,
                        pow10(k) >= 1,
                ;
            }
            false
        } else {
            let shift: u32 = (self.exponent + 5) as u32;
            let scale: u64 = power_of_ten(shift);
            proof {
                lemma_pow10_increases(k, 5);
                reveal_with_fuel(pow10, 6);
                assert(pow10(5) == 100_000);
                assert(m * pow10(k) <= 450_000 * 100_000) by (nonlinear_arith)
                    requires
                        m <= 450_000,
                        pow10(k) <= 100_000,
                ;
            }
            let scaled: u64 = self.mantissa * scale;
            scaled <= 450_000
        }
    }
}

} // verus!
