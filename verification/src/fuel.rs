//! Fuel burnt per lap, held as an exact fraction.

use crate::arith::{ceil_div, lemma_ceil_div_by_cases, lemma_ceil_div_galois, lemma_floor_div_galois};
use vstd::prelude::*;

verus! {

/// Fuel burnt on one lap: `numerator / denominator` units, in the unit of the
/// tank's capacity. A rate of 3.93 is `393 / 100`.
#[derive(Debug, Clone, Copy, PartialEq, Eq)]
pub struct FuelRate {
    pub numerator: u64,
    pub denominator: u64,
}

impl FuelRate {
    /// A rate is a positive fraction.
    pub open spec fn wf(&self) -> bool {
        self.numerator > 0 && self.denominator > 0
    }

    /// Whole laps that `fuel` units last for: `fuel / rate`, rounded down.
    /// Fuel short of a full lap completes no lap.
    pub open spec fn spec_laps_from_fuel(&self, fuel: nat) -> nat {
        (fuel * self.denominator / (self.numerator as int)) as nat
    }

    /// Fuel that `laps` laps burn: `laps * rate`, rounded up to a whole unit.
    pub open spec fn spec_fuel_for_laps(&self, laps: nat) -> nat {
        ceil_div(laps * self.numerator, self.denominator as int) as nat
    }

    /// The rate `numerator / denominator`, if it is a positive fraction.
    pub fn new(numerator: u64, denominator: u64) -> (rate: Option<FuelRate>)
        ensures
            rate is Some <==> numerator > 0 && denominator > 0,
            rate matches Some(r) ==> r.numerator == numerator && r.denominator == denominator
                && r.wf(),
    {
        if numerator > 0 && denominator > 0 {
            Some(FuelRate { numerator, denominator })
        } else {
            None
        }
    }

    /// Whole laps that `fuel` units last for.
    pub fn laps_from_fuel(&self, fuel: u32) -> (laps: u128)
        requires
            self.wf(),
        ensures
            laps == self.spec_laps_from_fuel(fuel as nat),
    {
        assert(fuel * self.denominator <= u128::MAX) by (nonlinear_arith)
            requires
                fuel <= u32::MAX,
                self.denominator <= u64::MAX,
        ;
        let scaled: u128 = (fuel as u128) * (self.denominator as u128);
        scaled / (self.numerator as u128)
    }

    /// Fuel that `laps` laps burn, rounded up to a whole unit.
    pub fn fuel_for_laps(&self, laps: u64) -> (fuel: u128)
        requires
            self.wf(),
        ensures
            fuel == self.spec_fuel_for_laps(laps as nat),
    {
        assert(laps * self.numerator <= u128::MAX) by (nonlinear_arith)
            requires
                laps <= u64::MAX,
                self.numerator <= u64::MAX,
        ;
        let burnt: u128 = (laps as u128) * (self.numerator as u128);
        let divisor: u128 = self.denominator as u128;
        let whole: u128 = burnt / divisor;
        proof {
            lemma_ceil_div_by_cases(burnt as int, divisor as int);
            lemma_floor_div_galois(burnt as int, divisor as int, burnt as int + 1);
        }
        if burnt % divisor == 0 {
            whole
        } else {
            assert(whole < burnt) by (nonlinear_arith)
                requires
                    whole == burnt as int / divisor as int,
                    burnt as int % divisor as int != 0,
                    divisor > 0,
            ;
            whole + 1
        }
    }

    /// More laps never burn less fuel.
    pub proof fn lemma_fuel_for_laps_monotone(&self, fewer: nat, more: nat)
        requires
            self.wf(),
            fewer <= more,
        ensures
            self.spec_fuel_for_laps(fewer) <= self.spec_fuel_for_laps(more),
    {
        let n = self.numerator as int;
        let d = self.denominator as int;
        let top = ceil_div(more * n, d);
        lemma_ceil_div_galois(more * n, d, top);
        assert(fewer * n <= more * n) by (nonlinear_arith)
            requires
                fewer <= more,
                n > 0,
        ;
        lemma_ceil_div_galois(fewer * n, d, top);
        lemma_ceil_div_galois(fewer * n, d, -1);
        assert((-1) * d < 0) by (nonlinear_arith)
            requires
                d > 0,
        ;
        assert(0 <= fewer * n) by (nonlinear_arith)
            requires
                fewer >= 0,
                n > 0,
        ;
    }

    /// The laps that a quantity of fuel lasts for never burn more than that
    /// quantity.
    pub proof fn lemma_laps_from_fuel_fit(&self, fuel: nat)
        requires
            self.wf(),
        ensures
            self.spec_fuel_for_laps(self.spec_laps_from_fuel(fuel)) <= fuel,
    {
        let n = self.numerator as int;
        let d = self.denominator as int;
        let laps = fuel * d / n;
        lemma_floor_div_galois(fuel * d, n, laps);
        lemma_floor_div_galois(fuel * d, n, 0);
        assert(0 <= fuel * d) by (nonlinear_arith)
            requires
                fuel >= 0,
                d > 0,
        ;
        assert(0 * n == 0);
        lemma_ceil_div_galois(laps * n, d, fuel as int);
        lemma_ceil_div_galois(laps * n, d, -1);
        assert((-1) * d < 0 <= laps * n) by (nonlinear_arith)
            requires
                d > 0,
                laps >= 0,
                n > 0,
        ;
    }
}

} // verus!
