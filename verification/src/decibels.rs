use vstd::arithmetic::power2::{
    lemma_pow2_pos, lemma_pow2_strictly_increases, lemma_pow2_unfold, pow2,
};
use vstd::prelude::*;

verus! {

/// Mask of the sign bit of a binary64 pattern.
pub const SIGN_BIT: u64 = 0x8000_0000_0000_0000;

/// Magnitude of the two infinities. Every larger magnitude is a NaN.
pub const INFINITY_MAGNITUDE: u64 = 0x7ff0_0000_0000_0000;

/// Weight of the lowest exponent bit, which is also the implicit leading bit
/// of a normal number's significand.
pub const HIDDEN_BIT: u64 = 0x0010_0000_0000_0000;

/// What a binary64 pattern stands for.
///
/// A finite number is given exactly, counted in units of 2^-1074 (the
/// smallest positive binary64 number), so that it is an integer. Both zeros
/// are `Finite(0)`.
pub enum Level {
    NotANumber,
    NegativeInfinity,
    Finite(int),
    PositiveInfinity,
}

impl Level {
    /// The comparison `self >= other` of IEEE-754: false as soon as one side
    /// is not a number, and the order of the extended reals otherwise.
    pub open spec fn at_least(self, other: Level) -> bool {
        match (self, other) {
            (Level::NotANumber, _) => false,
            (_, Level::NotANumber) => false,
            (Level::PositiveInfinity, _) => true,
            (_, Level::NegativeInfinity) => true,
            (Level::Finite(a), Level::Finite(b)) => a >= b,
            _ => false,
        }
    }

    /// The comparison `self == other` of IEEE-754.
    pub open spec fn equals(self, other: Level) -> bool {
        self != Level::NotANumber && self == other
    }
}

/// The absolute value of the finite number with the given magnitude bits, in
/// units of 2^-1074: the fraction alone below the first binade, and above it
/// the fraction with the hidden bit, doubled once for each further binade.
pub open spec fn scaled_magnitude(magnitude: nat) -> nat {
    let exponent = magnitude / (HIDDEN_BIT as nat);
    let fraction = magnitude % (HIDDEN_BIT as nat);
    if exponent == 0 {
        fraction
    } else {
        (HIDDEN_BIT as nat + fraction) * pow2((exponent - 1) as nat)
    }
}

/// A larger magnitude stands for a larger absolute value.
pub proof fn lemma_scaled_magnitude_increases(low: nat, high: nat)
    requires
        low < high,
    ensures
        scaled_magnitude(low) < scaled_magnitude(high),
{
    let h = HIDDEN_BIT as nat;
    let (e1, f1) = (low / h, low % h);
    let (e2, f2) = (high / h, high % h);
    assert(e1 <= e2);
    if e2 == 0 {
    } else {
        let p2 = pow2((e2 - 1) as nat);
        lemma_pow2_pos((e2 - 1) as nat);
        if e1 == e2 {
            assert((h + f1) * p2 < (h + f2) * p2) by (nonlinear_arith)
                requires
                    f1 < f2,
                    p2 > 0,
            ;
        } else if e1 == 0 {
            assert((h + f2) * p2 >= h) by (nonlinear_arith)
                requires
                    p2 >= 1,
            ;
        } else {
            let p1 = pow2((e1 - 1) as nat);
            lemma_pow2_pos((e1 - 1) as nat);
            lemma_pow2_unfold(e1);
            if e1 < e2 - 1 {
                lemma_pow2_strictly_increases(e1, (e2 - 1) as nat);
            }
            assert(2 * p1 <= p2);
            assert((h + f1) * p1 < (h + f2) * p2) by (nonlinear_arith)
                requires
                    f1 < h,
                    2 * p1 <= p2,
                    p1 > 0,
            ;
        }
    }
}

/// A loudness in decibels: an IEEE-754 binary64 number held as its bit pattern.
#[derive(Clone, Copy, Debug)]
pub struct Decibels {
    pub bits: u64,
}

impl View for Decibels {
    type V = Level;

    open spec fn view(&self) -> Level {
        if self.magnitude() > INFINITY_MAGNITUDE {
            Level::NotANumber
        } else if self.magnitude() == INFINITY_MAGNITUDE {
            if self.is_negative() {
                Level::NegativeInfinity
            } else {
                Level::PositiveInfinity
            }
        } else if self.is_negative() {
            Level::Finite(-(scaled_magnitude(self.magnitude()) as int))
        } else {
            Level::Finite(scaled_magnitude(self.magnitude()) as int)
        }
    }
}

impl Decibels {
    /// The pattern without its sign bit.
    pub open spec fn magnitude(self) -> nat {
        (self.bits % SIGN_BIT) as nat
    }

    /// The sign bit is set. This holds of the negative zero and of some NaNs too.
    pub open spec fn is_negative(self) -> bool {
        self.bits >= SIGN_BIT
    }

    /// Wraps a bit pattern, as `f64::to_bits` gives it.
    pub fn from_bits(bits: u64) -> (d: Decibels)
        ensures
            d.bits == bits,
    {
        Decibels { bits }
    }

    /// The bit pattern, as `f64::from_bits` takes it.
    pub fn to_bits(&self) -> (bits: u64)
        ensures
            bits == self.bits,
    {
        self.bits
    }

    /// Whether the pattern is a NaN.
    pub fn is_nan(&self) -> (b: bool)
        ensures
            b <==> self@ is NotANumber,
    {
        self.bits % SIGN_BIT > INFINITY_MAGNITUDE
    }

    /// Whether the pattern is a finite number, neither an infinity nor a NaN.
    pub fn is_finite(&self) -> (b: bool)
        ensures
            b <==> self@ is Finite,
    {
        self.bits % SIGN_BIT < INFINITY_MAGNITUDE
    }

    /// Decides `self >= threshold` as IEEE-754 does, on the bit patterns alone.
    ///
    /// A NaN on either side gives `false`; the two zeros are equal.
    pub fn at_least(&self, threshold: &Decibels) -> (b: bool)
        ensures
            b == self@.at_least(threshold@),
    {
        let score: u64 = self.bits % SIGN_BIT;
        let bar: u64 = threshold.bits % SIGN_BIT;
        if score > INFINITY_MAGNITUDE || bar > INFINITY_MAGNITUDE {
            return false;
        }
        proof {
            if score < bar {
                lemma_scaled_magnitude_increases(score as nat, bar as nat);
            }
            if bar < score {
                lemma_scaled_magnitude_increases(bar as nat, score as nat);
            }
            if 0 < score {
                lemma_scaled_magnitude_increases(0, score as nat);
            }
            if 0 < bar {
                lemma_scaled_magnitude_increases(0, bar as nat);
            }
        }
        if self.bits >= SIGN_BIT {
            if threshold.bits >= SIGN_BIT {
                score <= bar
            } else {
                score == 0 && bar == 0
            }
        } else {
            if threshold.bits >= SIGN_BIT {
                true
            } else {
                score >= bar
            }
        }
    }
}

/// A number is at least itself. A NaN is not.
pub proof fn lemma_at_least_reflexive(level: Level)
    ensures
        level.at_least(level) <==> level != Level::NotANumber,
{
}

/// `at_least` is transitive.
pub proof fn lemma_at_least_transitive(high: Level, middle: Level, low: Level)
    requires
        high.at_least(middle),
        middle.at_least(low),
    ensures
        high.at_least(low),
{
}

/// Of two numbers, one is at least the other.
pub proof fn lemma_at_least_total(left: Level, right: Level)
    requires
        left != Level::NotANumber,
        right != Level::NotANumber,
    ensures
        left.at_least(right) || right.at_least(left),
        left.at_least(right) && right.at_least(left) <==> left.equals(right),
{
}

/// A comparison with a NaN on either side fails, so a score that is not a
/// number is never admitted and a threshold that is not a number admits
/// nothing.
pub proof fn lemma_nan_admits_nothing(score: Level, threshold: Level)
    requires
        score == Level::NotANumber || threshold == Level::NotANumber,
    ensures
        !score.at_least(threshold),
{
}

/// Negative infinity, the score of a window of zeros, is below every finite
/// threshold and below positive infinity.
pub proof fn lemma_negative_infinity_is_below(threshold: Level)
    ensures
        Level::NegativeInfinity.at_least(threshold) <==> threshold == Level::NegativeInfinity,
{
}

/// Two patterns are equal numbers exactly when neither is a NaN and they
/// are the same pattern or the two zeros.
pub proof fn lemma_equal_levels_share_a_pattern(left: Decibels, right: Decibels)
    ensures
        left@.equals(right@) <==> !(left@ is NotANumber) && !(right@ is NotANumber) && (left.bits
            == right.bits || (left.magnitude() == 0 && right.magnitude() == 0)),
{
    let (a, b) = (left.magnitude(), right.magnitude());
    if a < b {
        lemma_scaled_magnitude_increases(a, b);
    }
    if b < a {
        lemma_scaled_magnitude_increases(b, a);
    }
    if 0 < a {
        lemma_scaled_magnitude_increases(0, a);
    }
    if 0 < b {
        lemma_scaled_magnitude_increases(0, b);
    }
}

} // verus!
