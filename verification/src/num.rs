//! Numeric models for instrument readings: particle concentrations as
//! fixed-point hundredths of particles/cm3, and exact rationals for fit
//! factors and their uncertainty. The instrument's wire dialect carries at
//! most two decimal places, so hundredths lose nothing.

use vstd::prelude::*;

verus! {

/// Largest representable concentration, in hundredths of particles/cm3:
/// one billion particles/cm3, the width of the instrument's display.
pub const CONC_MAX_HUNDREDTHS: u64 = 100_000_000_000;

/// A non-negative particle concentration, stored as hundredths of
/// particles/cm3. Always at most `CONC_MAX_HUNDREDTHS`.
#[derive(Clone, Copy, Debug, PartialEq, Eq)]
pub struct Concentration {
    hundredths: u64,
}

impl Concentration {
    /// Holds of every run-time `Concentration` value; callers obtain it
    /// with `use_type_invariant` and unfold it with `lemma_range`.
    #[verifier::type_invariant]
    pub closed spec fn bounded(self) -> bool {
        self.hundredths <= CONC_MAX_HUNDREDTHS
    }

    /// The concentration in hundredths of particles/cm3.
    pub closed spec fn as_hundredths(self) -> int {
        self.hundredths as int
    }

    /// Concentrations are never negative, bounded or not.
    pub proof fn lemma_nonneg(self)
        ensures
            self.as_hundredths() >= 0,
    {
    }

    pub proof fn lemma_range(self)
        requires
            self.bounded(),
        ensures
            0 <= self.as_hundredths() <= CONC_MAX_HUNDREDTHS,
    {
    }

    /// The concentration whose value is `h` hundredths; meaningful for
    /// `0 <= h <= CONC_MAX_HUNDREDTHS`.
    pub closed spec fn spec_from_hundredths(h: int) -> Concentration {
        Concentration { hundredths: h as u64 }
    }

    pub proof fn lemma_spec_from_hundredths(h: int)
        requires
            0 <= h <= CONC_MAX_HUNDREDTHS,
        ensures
            Concentration::spec_from_hundredths(h).as_hundredths() == h,
    {
    }

    /// Concentrations are nothing but their value.
    pub proof fn lemma_value_injective(a: Concentration, b: Concentration)
        requires
            a.as_hundredths() == b.as_hundredths(),
        ensures
            a == b,
    {
    }

    /// Accepts a value in hundredths of particles/cm3, rejecting anything
    /// beyond the instrument's range.
    pub fn from_hundredths(hundredths: u64) -> (r: Option<Concentration>)
        ensures
            match r {
                Some(c) => hundredths <= CONC_MAX_HUNDREDTHS && c
                    == Concentration::spec_from_hundredths(hundredths as int),
                None => hundredths > CONC_MAX_HUNDREDTHS,
            },
    {
        if hundredths <= CONC_MAX_HUNDREDTHS {
            Some(Concentration { hundredths })
        } else {
            None
        }
    }

    pub fn hundredths(&self) -> (h: u64)
        ensures
            h == self.as_hundredths(),
            h <= CONC_MAX_HUNDREDTHS,
    {
        proof {
            use_type_invariant(self);
        }
        self.hundredths
    }
}

/// An exact non-negative rational; the denominator is always positive.
/// Fit factors and squared relative errors are reported in this form; an
/// embedder that wants a floating-point reading divides the parts.
#[derive(Clone, Copy, Debug, PartialEq, Eq)]
pub struct Ratio {
    pub num: u128,
    pub den: u128,
}

/// Two ratios denote the same rational number.
pub open spec fn ratio_eq(a: Ratio, b: Ratio) -> bool {
    a.num * b.den == b.num * a.den
}

impl Ratio {
    pub fn new(num: u128, den: u128) -> (r: Ratio)
        requires
            den > 0,
        ensures
            r.num == num,
            r.den == den,
    {
        Ratio { num, den }
    }
}

} // verus!
