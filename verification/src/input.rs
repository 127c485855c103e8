//! The figures of a race and what follows from them: how long a tank lasts,
//! how many stints are needed, and the strategies on offer.

use crate::arith::{
    ceil_div, ceil_div_u64, lemma_ceil_div_at_most_dividend, lemma_ceil_div_by_min,
    lemma_ceil_div_capped_divisor, lemma_ceil_div_covered, lemma_ceil_div_galois,
    lemma_ceil_div_monotone, lemma_ceil_div_of_multiple, lemma_ceil_div_sign, max_int, min_int,
};
use crate::fuel::FuelRate;
use crate::strategy::{
    lemma_stops_ascend, lemma_total_duration_step, lemma_total_laps_at_most_duration, spec_stops,
    stops_ascend, stops_between, total_duration, total_laps, Stint, Stop, Strategy, StrategyInner,
};
use vstd::prelude::*;

verus! {

/// The figures of a race.
#[derive(Debug, Clone)]
pub struct StrategyInput {
    /// Race length, in seconds.
    pub race_duration: u64,
    /// Average time for one lap, in seconds.
    pub avg_laptime: u64,
    /// Fuel burnt per lap.
    pub fuel_per_lap: FuelRate,
    /// Most fuel the car can carry.
    pub fuel_capacity: u32,
    /// Stops that the rules require whatever the fuel state; each is taken to
    /// include a tyre change.
    pub mandatory_pits: Option<u8>,
    /// Longest stint that the rules permit, in seconds.
    pub permitted_max_stint_length: Option<u64>,
}

/// A value capped at the largest `u32`.
pub open spec fn clamp_u32(value: int) -> u32 {
    min_int(value, u32::MAX as int) as u32
}

/// A value capped at the largest `u64`.
pub open spec fn clamp_u64(value: int) -> u64 {
    min_int(value, u64::MAX as int) as u64
}

impl StrategyInput {
    /// The figures describe a race that can be planned: lap time, fuel rate
    /// and tank are positive, a full tank lasts for at least one lap, and a
    /// permitted stint length, if there is one, is positive.
    pub open spec fn valid(&self) -> bool {
        &&& self.avg_laptime > 0
        &&& self.fuel_per_lap.wf()
        &&& self.fuel_capacity > 0
        &&& self.fuel_per_lap.spec_laps_from_fuel(self.fuel_capacity as nat) > 0
        &&& (self.permitted_max_stint_length matches Some(cap) ==> cap > 0)
    }

    /// Laps needed to cover `length` seconds: a lap that is begun counts.
    pub open spec fn spec_laps_for(&self, length: nat) -> nat {
        ceil_div(length as int, self.avg_laptime as int) as nat
    }

    /// How long `fuel` units last: the whole laps they pay for, at the average
    /// lap time.
    pub open spec fn spec_fuel_duration(&self, fuel: nat) -> nat {
        (self.fuel_per_lap.spec_laps_from_fuel(fuel) * self.avg_laptime) as nat
    }

    /// The longest stint that a full tank permits.
    pub open spec fn spec_max_fuel_duration(&self) -> nat {
        self.spec_fuel_duration(self.fuel_capacity as nat)
    }

    /// Fuel needed for a stint of `length` seconds.
    pub open spec fn spec_fuel_for_stint(&self, length: nat) -> nat {
        self.fuel_per_lap.spec_fuel_for_laps(self.spec_laps_for(length))
    }

    /// The longest stint that both fuel and rules permit.
    pub open spec fn spec_max_stint_time(&self) -> nat {
        match self.permitted_max_stint_length {
            Some(cap) => min_int(cap as int, self.spec_max_fuel_duration() as int) as nat,
            None => self.spec_max_fuel_duration(),
        }
    }

    /// Stints needed on account of fuel alone.
    pub open spec fn spec_fuel_required_stints(&self) -> nat {
        ceil_div(self.race_duration as int, self.spec_max_fuel_duration() as int) as nat
    }

    /// Stints needed on account of the mandatory stops alone.
    pub open spec fn spec_mandatory_pits_required_stints(&self) -> nat {
        match self.mandatory_pits {
            Some(pits) => pits as nat + 1,
            None => 1,
        }
    }

    /// Stints needed on account of the permitted stint length alone.
    pub open spec fn spec_permitted_stint_length_required_stints(&self) -> nat {
        match self.permitted_max_stint_length {
            Some(cap) => ceil_div(self.race_duration as int, cap as int) as nat,
            None => 1,
        }
    }

    /// Stints needed: the largest of the three counts.
    pub open spec fn spec_required_stints(&self) -> nat {
        max_int(
            max_int(
                self.spec_fuel_required_stints() as int,
                self.spec_mandatory_pits_required_stints() as int,
            ),
            self.spec_permitted_stint_length_required_stints() as int,
        ) as nat
    }

    /// Whether the mandatory stops cover every stop that fuel and rules force.
    pub open spec fn spec_all_pits_mandatory(&self) -> bool {
        match self.mandatory_pits {
            Some(pits) => ceil_div(self.race_duration as int, self.spec_max_stint_time() as int)
                - 1 <= pits,
            None => false,
        }
    }

    /// The stint of `duration` seconds, with the laps it takes and the fuel
    /// it burns (capped at the largest `u32`).
    pub open spec fn spec_stint(&self, duration: nat) -> Stint {
        Stint {
            duration: duration as u64,
            laps: self.spec_laps_for(duration) as u64,
            fuel_required: clamp_u32(self.spec_fuel_for_stint(duration) as int),
        }
    }

    /// How many stints the race takes when each aims at `target` seconds.
    pub open spec fn spec_stint_count(&self, target: nat) -> nat {
        if target == 0 {
            0
        } else {
            ceil_div(self.race_duration as int, target as int) as nat
        }
    }

    /// Length of stint `index` when each aims at `target` seconds: the target,
    /// or what is left of the race if that is less.
    pub open spec fn spec_stint_time(&self, target: nat, index: int) -> nat {
        min_int(target as int, self.race_duration - index * target) as nat
    }

    /// The stints of the race when each aims at `target` seconds.
    pub open spec fn spec_stints(&self, target: nat) -> Seq<Stint> {
        Seq::new(
            self.spec_stint_count(target),
            |index: int| self.spec_stint(self.spec_stint_time(target, index)),
        )
    }

    /// The stint length of the even layout: the race split into as many parts
    /// as stints are needed, rounded up to a whole second.
    pub open spec fn spec_equal_target(&self) -> nat {
        ceil_div(self.race_duration as int, self.spec_required_stints() as int) as nat
    }

    /// Whether `stint` is within what fuel and rules permit, with its laps and
    /// fuel worked out from its length.
    pub open spec fn spec_stint_fits(&self, stint: Stint) -> bool {
        &&& 1 <= stint.duration <= self.spec_max_stint_time()
        &&& stint.laps == self.spec_laps_for(stint.duration as nat)
        &&& stint.laps >= 1
        &&& stint.fuel_required == self.spec_fuel_for_stint(stint.duration as nat)
        &&& stint.fuel_required <= self.fuel_capacity
    }

    /// Whether `strategy` runs this race: its stints add up to the race, each
    /// is within what fuel and rules permit, there are no more of them than
    /// are needed, and between each two there is one stop, at a later lap
    /// than the stop before.
    pub open spec fn spec_consistent(&self, strategy: Strategy) -> bool {
        let stints = strategy.stints();
        let stops = strategy.stops();
        &&& total_duration(stints) == self.race_duration
        &&& (self.race_duration > 0 ==> stints.len() >= 1)
        &&& stints.len() <= self.spec_required_stints()
        &&& (forall|i: int| 0 <= i < stints.len() ==> self.spec_stint_fits(#[trigger] stints[i]))
        &&& (stints.len() >= 1 ==> stops.len() == stints.len() - 1)
        &&& (stints.len() == 0 ==> stops.len() == 0)
        &&& stops_ascend(stops)
        &&& (forall|i: int|
            0 <= i < stops.len() ==> (#[trigger] stops[i]).fuel_to_add == stints[i
                + 1].fuel_required)
    }

    /// Whether `strategy` is the even layout of this race.
    pub open spec fn spec_is_even_stint_strategy(&self, strategy: Strategy) -> bool {
        &&& strategy is EqualStints
        &&& strategy.stints() == self.spec_stints(self.spec_equal_target())
        &&& strategy.stops() == spec_stops(strategy.stints())
    }

    /// Whether `strategy` is the long-stint layout of this race.
    pub open spec fn spec_is_long_stint_strategy(&self, strategy: Strategy) -> bool {
        &&& strategy is LongStints
        &&& strategy.stints() == self.spec_stints(self.spec_max_stint_time())
        &&& strategy.stops() == spec_stops(strategy.stints())
    }

    /// Whether `strategy` is the single stint of this race.
    pub open spec fn spec_is_single_stint(&self, strategy: Strategy) -> bool {
        &&& strategy is SingleStint
        &&& strategy.stints() == self.spec_stints(self.spec_max_stint_time())
        &&& strategy.stops() == Seq::<Stop>::empty()
    }

    /// Tells whether the figures describe a race that can be planned.
    pub fn is_valid(&self) -> (ok: bool)
        ensures
            ok == self.valid(),
    {
        if self.avg_laptime == 0 || self.fuel_per_lap.numerator == 0
            || self.fuel_per_lap.denominator == 0 || self.fuel_capacity == 0 {
            return false;
        }
        if self.fuel_per_lap.laps_from_fuel(self.fuel_capacity) == 0 {
            return false;
        }
        match self.permitted_max_stint_length {
            Some(cap) => cap > 0,
            None => true,
        }
    }

    /// How long `fuel` units last, in seconds, capped at the largest `u64`.
    pub fn fuel_duration(&self, fuel: u32) -> (duration: u64)
        requires
            self.valid(),
        ensures
            duration == clamp_u64(self.spec_fuel_duration(fuel as nat) as int),
    {
        let laps: u128 = self.fuel_per_lap.laps_from_fuel(fuel);
        let lap_time: u128 = self.avg_laptime as u128;
        if laps > u64::MAX as u128 {
            assert(laps * lap_time > u64::MAX) by (nonlinear_arith)
                requires
                    laps > u64::MAX,
                    lap_time >= 1,
            ;
            return u64::MAX;
        }
        assert(laps * lap_time <= u128::MAX) by (nonlinear_arith)
            requires
                laps <= u64::MAX,
                lap_time <= u64::MAX,
        ;
        let seconds: u128 = laps * lap_time;
        if seconds > u64::MAX as u128 {
            u64::MAX
        } else {
            seconds as u64
        }
    }

    /// The longest stint that a full tank permits, capped at the largest
    /// `u64`.
    pub fn max_fuel_duration(&self) -> (duration: u64)
        requires
            self.valid(),
        ensures
            duration == clamp_u64(self.spec_max_fuel_duration() as int),
            duration > 0,
    {
        assert(self.spec_max_fuel_duration() > 0) by (nonlinear_arith)
            requires
                self.spec_max_fuel_duration() == self.fuel_per_lap.spec_laps_from_fuel(
                    self.fuel_capacity as nat,
                ) * self.avg_laptime,
                self.fuel_per_lap.spec_laps_from_fuel(self.fuel_capacity as nat) > 0,
                self.avg_laptime > 0,
        ;
        self.fuel_duration(self.fuel_capacity)
    }

    /// Laps needed to cover `length` seconds.
    pub fn laps_for(&self, length: u64) -> (laps: u64)
        requires
            self.valid(),
        ensures
            laps == self.spec_laps_for(length as nat),
            laps <= length,
            length > 0 <==> laps > 0,
    {
        proof {
            lemma_ceil_div_sign(length as int, self.avg_laptime as int);
            lemma_ceil_div_at_most_dividend(length as int, self.avg_laptime as int);
        }
        ceil_div_u64(length, self.avg_laptime)
    }

    /// Fuel needed for a stint of `length` seconds, capped at the largest
    /// `u32`.
    pub fn fuel_for_stint(&self, length: u64) -> (fuel: u32)
        requires
            self.valid(),
        ensures
            fuel == clamp_u32(self.spec_fuel_for_stint(length as nat) as int),
    {
        let laps: u64 = self.laps_for(length);
        let fuel: u128 = self.fuel_per_lap.fuel_for_laps(laps);
        if fuel > u32::MAX as u128 {
            u32::MAX
        } else {
            fuel as u32
        }
    }

    /// The longest stint that both fuel and rules permit, capped at the
    /// largest `u64`.
    pub fn max_stint_time(&self) -> (duration: u64)
        requires
            self.valid(),
        ensures
            duration == clamp_u64(self.spec_max_stint_time() as int),
            duration > 0,
    {
        let fuel_limit: u64 = self.max_fuel_duration();
        match self.permitted_max_stint_length {
            Some(cap) => {
                if cap < fuel_limit {
                    cap
                } else {
                    fuel_limit
                }
            },
            None => fuel_limit,
        }
    }

    /// Stints needed on account of fuel alone.
    pub fn fuel_required_stints(&self) -> (stints: u64)
        requires
            self.valid(),
        ensures
            stints == self.spec_fuel_required_stints(),
    {
        let fuel_limit: u64 = self.max_fuel_duration();
        proof {
            lemma_ceil_div_capped_divisor(
                self.race_duration as int,
                self.spec_max_fuel_duration() as int,
                u64::MAX as int,
            );
            lemma_ceil_div_sign(self.race_duration as int, self.spec_max_fuel_duration() as int);
        }
        ceil_div_u64(self.race_duration, fuel_limit)
    }

    /// Stints needed on account of the mandatory stops alone.
    pub fn mandatory_pits_required_stints(&self) -> (stints: u64)
        ensures
            stints == self.spec_mandatory_pits_required_stints(),
    {
        match self.mandatory_pits {
            Some(pits) => pits as u64 + 1,
            None => 1,
        }
    }

    /// Stints needed on account of the permitted stint length alone.
    pub fn permitted_stint_length_required_stints(&self) -> (stints: u64)
        requires
            self.valid(),
        ensures
            stints == self.spec_permitted_stint_length_required_stints(),
    {
        match self.permitted_max_stint_length {
            Some(cap) => {
                proof {
                    lemma_ceil_div_sign(self.race_duration as int, cap as int);
                }
                ceil_div_u64(self.race_duration, cap)
            },
            None => 1,
        }
    }

    /// Stints needed, taking fuel and rules together.
    pub fn required_stints(&self) -> (stints: u64)
        requires
            self.valid(),
        ensures
            stints == self.spec_required_stints(),
            stints >= 1,
    {
        let by_fuel: u64 = self.fuel_required_stints();
        let by_pits: u64 = self.mandatory_pits_required_stints();
        let by_length: u64 = self.permitted_stint_length_required_stints();
        let mut stints: u64 = by_fuel;
        if by_pits > stints {
            stints = by_pits;
        }
        if by_length > stints {
            stints = by_length;
        }
        stints
    }

    /// Whether the mandatory stops cover every stop that fuel and rules force.
    /// Then long stints save no stop, and only the even layout is offered.
    pub fn all_pits_mandatory(&self) -> (all: bool)
        requires
            self.valid(),
        ensures
            all == self.spec_all_pits_mandatory(),
    {
        let limit: u64 = self.max_stint_time();
        proof {
            lemma_ceil_div_capped_divisor(
                self.race_duration as int,
                self.spec_max_stint_time() as int,
                u64::MAX as int,
            );
        }
        let forced_stints: u64 = ceil_div_u64(self.race_duration, limit);
        match self.mandatory_pits {
            Some(pits) => forced_stints <= pits as u64 + 1,
            None => false,
        }
    }
}

impl StrategyInput {
    /// After `done` stints of `target` seconds, more stints follow just when
    /// the race is not yet covered.
    pub proof fn lemma_stints_remaining(&self, target: nat, done: int)
        requires
            target > 0,
            done >= 0,
        ensures
            done < self.spec_stint_count(target) <==> done * target < self.race_duration,
    {
        lemma_ceil_div_galois(self.race_duration as int, target as int, done);
        lemma_ceil_div_sign(self.race_duration as int, target as int);
    }

    /// Every stint lasts at least a second, and no longer than the target or
    /// the race.
    pub proof fn lemma_stint_time_bounds(&self, target: nat, index: int)
        requires
            target > 0,
            0 <= index < self.spec_stint_count(target),
        ensures
            1 <= self.spec_stint_time(target, index) <= target,
            self.spec_stint_time(target, index) <= self.race_duration,
            index * target < self.race_duration,
    {
        self.lemma_stints_remaining(target, index);
        assert(0 <= index * target) by (nonlinear_arith)
            requires
                index >= 0,
                target > 0,
        ;
    }

    /// The first `done` stints cover `done` targets, or the whole race if
    /// that is less.
    pub proof fn lemma_stints_prefix_duration(&self, target: nat, done: int)
        requires
            target > 0,
            0 <= done <= self.spec_stint_count(target),
        ensures
            total_duration(self.spec_stints(target).take(done)) == min_int(
                done * target,
                self.race_duration as int,
            ),
        decreases done,
    {
        let stints = self.spec_stints(target);
        if done == 0 {
            assert(stints.take(0) =~= Seq::<Stint>::empty());
            assert(0 * target == 0);
        } else {
            self.lemma_stints_prefix_duration(target, done - 1);
            lemma_total_duration_step(stints, done - 1);
            self.lemma_stint_time_bounds(target, done - 1);
            assert(done * target == (done - 1) * target + target) by (nonlinear_arith);
        }
    }

    /// The stints at a target: how many there are, how long each is, and
    /// what they add up to.
    pub proof fn lemma_stints_shape(&self, target: nat)
        requires
            self.valid(),
            self.race_duration > 0 ==> target > 0,
        ensures
            self.spec_stints(target).len() == self.spec_stint_count(target),
            self.race_duration > 0 ==> self.spec_stints(target).len() >= 1,
            forall|i: int|
                0 <= i < self.spec_stints(target).len() ==> {
                    let stint = #[trigger] self.spec_stints(target)[i];
                    &&& stint.duration == self.spec_stint_time(target, i)
                    &&& 1 <= stint.duration <= target
                    &&& stint.laps == self.spec_laps_for(stint.duration as nat)
                    &&& 1 <= stint.laps <= stint.duration
                },
            total_duration(self.spec_stints(target)) == self.race_duration,
            total_laps(self.spec_stints(target)) <= self.race_duration,
    {
        let stints = self.spec_stints(target);
        let count = self.spec_stint_count(target) as int;
        if target == 0 {
            assert(stints =~= Seq::<Stint>::empty());
        } else {
            lemma_ceil_div_sign(self.race_duration as int, target as int);
            assert forall|i: int| 0 <= i < stints.len() implies {
                let stint = #[trigger] stints[i];
                &&& stint.duration == self.spec_stint_time(target, i)
                &&& 1 <= stint.duration <= target
                &&& stint.laps == self.spec_laps_for(stint.duration as nat)
                &&& 1 <= stint.laps <= stint.duration
            } by {
                self.lemma_stint_time_bounds(target, i);
                let time = self.spec_stint_time(target, i);
                lemma_ceil_div_sign(time as int, self.avg_laptime as int);
                lemma_ceil_div_at_most_dividend(time as int, self.avg_laptime as int);
            }
            self.lemma_stints_prefix_duration(target, count);
            self.lemma_stints_remaining(target, count);
            assert(stints.take(count) =~= stints);
            lemma_total_laps_at_most_duration(stints);
        }
    }

    /// A longer stint never needs less fuel.
    pub proof fn lemma_fuel_for_stint_monotone(&self, shorter: nat, longer: nat)
        requires
            self.avg_laptime > 0,
            self.fuel_per_lap.wf(),
            shorter <= longer,
        ensures
            self.spec_fuel_for_stint(shorter) <= self.spec_fuel_for_stint(longer),
    {
        let lap_time = self.avg_laptime as int;
        lemma_ceil_div_monotone(shorter as int, longer as int, lap_time);
        lemma_ceil_div_sign(shorter as int, lap_time);
        self.fuel_per_lap.lemma_fuel_for_laps_monotone(
            self.spec_laps_for(shorter),
            self.spec_laps_for(longer),
        );
    }

    /// Round trip: the stint that a quantity of fuel lasts for never needs
    /// more than that quantity. This holds of the exact figures and of the
    /// capped ones that `fuel_duration` and `fuel_for_stint` return.
    pub proof fn lemma_fuel_round_trip(&self, fuel: nat)
        requires
            self.avg_laptime > 0,
            self.fuel_per_lap.wf(),
        ensures
            self.spec_fuel_for_stint(self.spec_fuel_duration(fuel)) <= fuel,
            self.spec_fuel_for_stint(clamp_u64(self.spec_fuel_duration(fuel) as int) as nat)
                <= fuel,
            clamp_u32(
                self.spec_fuel_for_stint(
                    clamp_u64(self.spec_fuel_duration(fuel) as int) as nat,
                ) as int,
            ) <= fuel,
    {
        let lap_time = self.avg_laptime as int;
        let laps = self.fuel_per_lap.spec_laps_from_fuel(fuel);
        lemma_ceil_div_of_multiple(laps as int, lap_time);
        assert(laps * lap_time >= 0) by (nonlinear_arith)
            requires
                laps >= 0,
                lap_time > 0,
        ;
        self.fuel_per_lap.lemma_laps_from_fuel_fit(fuel);
        self.lemma_fuel_for_stint_monotone(
            clamp_u64(self.spec_fuel_duration(fuel) as int) as nat,
            self.spec_fuel_duration(fuel),
        );
    }

    /// A stint that a full tank lasts for needs no more fuel than the tank
    /// holds.
    pub proof fn lemma_stint_within_tank(&self, duration: nat)
        requires
            self.valid(),
            duration <= self.spec_max_fuel_duration(),
        ensures
            self.spec_fuel_for_stint(duration) <= self.fuel_capacity,
    {
        self.lemma_fuel_round_trip(self.fuel_capacity as nat);
        self.lemma_fuel_for_stint_monotone(duration, self.spec_max_fuel_duration());
    }

    /// A full tank lasts for at least a second, and so does the longest
    /// stint that fuel and rules permit, which a full tank covers.
    pub proof fn lemma_max_stint_time_bounds(&self)
        requires
            self.valid(),
        ensures
            1 <= self.spec_max_stint_time() <= self.spec_max_fuel_duration(),
    {
        assert(self.fuel_per_lap.spec_laps_from_fuel(self.fuel_capacity as nat)
            * self.avg_laptime >= 1) by (nonlinear_arith)
            requires
                self.fuel_per_lap.spec_laps_from_fuel(self.fuel_capacity as nat) >= 1,
                self.avg_laptime >= 1,
        ;
    }

    /// With a target that fuel and rules permit, every stint is within what
    /// they permit.
    pub proof fn lemma_stints_fit(&self, target: nat)
        requires
            self.valid(),
            self.race_duration > 0 ==> target > 0,
            target <= self.spec_max_stint_time(),
        ensures
            forall|i: int|
                0 <= i < self.spec_stints(target).len() ==> self.spec_stint_fits(
                    #[trigger] self.spec_stints(target)[i],
                ),
    {
        let stints = self.spec_stints(target);
        self.lemma_stints_shape(target);
        self.lemma_max_stint_time_bounds();
        assert forall|i: int| 0 <= i < stints.len() implies self.spec_stint_fits(
            #[trigger] stints[i],
        ) by {
            self.lemma_stint_within_tank(stints[i].duration as nat);
        }
    }

    /// Two targets that both cover the race give the same stints.
    pub proof fn lemma_stints_covering_target(&self, first: nat, second: nat)
        requires
            first >= self.race_duration,
            second >= self.race_duration,
        ensures
            self.spec_stints(first) == self.spec_stints(second),
    {
        if self.race_duration > 0 {
            lemma_ceil_div_covered(self.race_duration as int, first as int);
            lemma_ceil_div_covered(self.race_duration as int, second as int);
            assert(0 * first == 0 && 0 * second == 0);
        } else {
            if first > 0 {
                lemma_ceil_div_covered(0, first as int);
            }
            if second > 0 {
                lemma_ceil_div_covered(0, second as int);
            }
        }
        assert(self.spec_stints(first) =~= self.spec_stints(second));
    }
}

impl StrategyInput {
    /// The even layout's stint length is one that fuel and rules permit, and
    /// it takes no more stints than are needed.
    pub proof fn lemma_equal_target_bounds(&self)
        requires
            self.valid(),
        ensures
            self.spec_required_stints() >= 1,
            self.spec_equal_target() <= self.spec_max_stint_time(),
            self.spec_equal_target() <= self.race_duration,
            self.race_duration > 0 ==> self.spec_equal_target() >= 1,
            self.spec_stint_count(self.spec_equal_target()) <= self.spec_required_stints(),
    {
        let race = self.race_duration as int;
        let needed = self.spec_required_stints() as int;
        let tank = self.spec_max_fuel_duration() as int;
        let target = self.spec_equal_target() as int;
        self.lemma_max_stint_time_bounds();
        lemma_ceil_div_sign(race, tank);
        lemma_ceil_div_sign(race, needed);
        lemma_ceil_div_at_most_dividend(race, needed);
        // The needed stints, each a full tank long, cover the race.
        lemma_ceil_div_galois(race, tank, needed);
        lemma_ceil_div_galois(race, needed, tank);
        assert(needed * tank == tank * needed) by (nonlinear_arith);
        if let Some(cap) = self.permitted_max_stint_length {
            lemma_ceil_div_sign(race, cap as int);
            lemma_ceil_div_galois(race, cap as int, needed);
            lemma_ceil_div_galois(race, needed, cap as int);
            assert(needed * cap == cap * needed) by (nonlinear_arith);
        }
        // As many stints as are needed, each of the even length, cover it too.
        if target > 0 {
            lemma_ceil_div_galois(race, needed, target);
            lemma_ceil_div_galois(race, target, needed);
            assert(needed * target == target * needed) by (nonlinear_arith);
        }
    }

    /// Stints as long as fuel and rules permit are no more than are needed.
    pub proof fn lemma_long_stint_count(&self)
        requires
            self.valid(),
        ensures
            self.spec_stint_count(self.spec_max_stint_time()) <= self.spec_required_stints(),
    {
        let race = self.race_duration as int;
        let tank = self.spec_max_fuel_duration() as int;
        self.lemma_max_stint_time_bounds();
        lemma_ceil_div_sign(race, tank);
        if let Some(cap) = self.permitted_max_stint_length {
            lemma_ceil_div_sign(race, cap as int);
            lemma_ceil_div_by_min(race, cap as int, tank);
        }
    }

    /// Where one stint is needed, the longest permitted stint covers the race.
    pub proof fn lemma_single_stint_covers(&self)
        requires
            self.valid(),
            self.spec_required_stints() == 1,
        ensures
            self.race_duration <= self.spec_max_stint_time(),
            self.spec_stints(self.spec_max_stint_time()).len() <= 1,
    {
        let race = self.race_duration as int;
        let tank = self.spec_max_fuel_duration() as int;
        self.lemma_max_stint_time_bounds();
        lemma_ceil_div_sign(race, tank);
        lemma_ceil_div_galois(race, tank, 1);
        assert(1 * tank == tank);
        if let Some(cap) = self.permitted_max_stint_length {
            lemma_ceil_div_sign(race, cap as int);
            lemma_ceil_div_galois(race, cap as int, 1);
            assert(1 * cap == cap);
        }
        lemma_ceil_div_covered(race, self.spec_max_stint_time() as int);
    }

    /// Stints at a target that fuel and rules permit, no more of them than
    /// are needed, with the stops they call for, run the race.
    pub proof fn lemma_layout_consistent(&self, strategy: Strategy, target: nat)
        requires
            self.valid(),
            self.race_duration > 0 ==> target > 0,
            target <= self.spec_max_stint_time(),
            self.spec_stint_count(target) <= self.spec_required_stints(),
            strategy.stints() == self.spec_stints(target),
            strategy.stops() == spec_stops(strategy.stints()),
        ensures
            self.spec_consistent(strategy),
    {
        let stints = strategy.stints();
        self.lemma_stints_shape(target);
        self.lemma_stints_fit(target);
        if stints.len() >= 1 {
            lemma_stops_ascend(stints);
        }
    }

    /// The stint of `duration` seconds, with the laps it takes and the fuel
    /// it burns.
    pub fn make_stint(&self, duration: u64) -> (stint: Stint)
        requires
            self.valid(),
        ensures
            stint == self.spec_stint(duration as nat),
    {
        Stint {
            duration,
            fuel_required: self.fuel_for_stint(duration),
            laps: self.laps_for(duration),
        }
    }

    /// Lays the race out as stints of `target_stint_time` seconds; the last
    /// stint takes what is left.
    pub fn calculate_stints(&self, target_stint_time: u64) -> (stints: Vec<Stint>)
        requires
            self.valid(),
            self.race_duration > 0 ==> target_stint_time > 0,
        ensures
            stints@ == self.spec_stints(target_stint_time as nat),
    {
        let ghost target = target_stint_time as nat;
        let ghost count = self.spec_stint_count(target);
        let mut remaining_race_time: u64 = self.race_duration;
        let mut stints: Vec<Stint> = Vec::new();
        proof {
            if target > 0 {
                self.lemma_stints_remaining(target, 0);
                assert(0 * target == 0);
            }
        }
        while remaining_race_time != 0
            invariant
                self.valid(),
                target == target_stint_time,
                count == self.spec_stint_count(target),
                stints.len() <= count,
                stints.len() < count ==> target > 0 && remaining_race_time == self.race_duration
                    - stints.len() * target,
                stints.len() == count ==> remaining_race_time == 0,
                forall|j: int|
                    0 <= j < stints.len() ==> stints[j] == self.spec_stint(
                        self.spec_stint_time(target, j),
                    ),
            decreases remaining_race_time,
        {
            let ghost done = stints.len() as int;
            let this_stint_time: u64 = if remaining_race_time < target_stint_time {
                remaining_race_time
            } else {
                target_stint_time
            };
            proof {
                self.lemma_stints_remaining(target, done + 1);
                assert((done + 1) * target == done * target + target) by (nonlinear_arith);
            }
            let stint = self.make_stint(this_stint_time);
            stints.push(stint);
            remaining_race_time = if this_stint_time >= remaining_race_time {
                0
            } else {
                remaining_race_time - this_stint_time
            };
        }
        proof {
            if stints.len() < count {
                self.lemma_stints_remaining(target, stints.len() as int);
            }
            assert(stints@ =~= self.spec_stints(target));
        }
        stints
    }

    /// The even layout: as many stints as are needed, of as even a length as
    /// whole seconds allow, and the stops between them.
    pub fn calculate_even_stint_strategy(&self) -> (strategy: Strategy)
        requires
            self.valid(),
        ensures
            self.spec_is_even_stint_strategy(strategy),
            self.spec_consistent(strategy),
    {
        let remaining_required_stints: u64 = self.required_stints();
        let target_stint_time: u64 = ceil_div_u64(self.race_duration, remaining_required_stints);
        proof {
            self.lemma_equal_target_bounds();
            self.lemma_stints_shape(target_stint_time as nat);
        }
        let stints = self.calculate_stints(target_stint_time);
        let stops = stops_between(&stints);
        let strategy = Strategy::EqualStints(StrategyInner { stints, stops });
        proof {
            self.lemma_layout_consistent(strategy, target_stint_time as nat);
        }
        strategy
    }

    /// The long-stint layout: every stint as long as fuel and rules permit,
    /// the last taking what is left, and the stops between them.
    pub fn calculate_long_stint_strategy(&self) -> (strategy: Strategy)
        requires
            self.valid(),
        ensures
            self.spec_is_long_stint_strategy(strategy),
            self.spec_consistent(strategy),
    {
        let stints = self.longest_stints();
        proof {
            self.lemma_max_stint_time_bounds();
            self.lemma_stints_shape(self.spec_max_stint_time());
        }
        let stops = stops_between(&stints);
        let strategy = Strategy::LongStints(StrategyInner { stints, stops });
        proof {
            self.lemma_long_stint_count();
            self.lemma_layout_consistent(strategy, self.spec_max_stint_time());
        }
        strategy
    }

    /// The race as one stint, without a stop. It runs the race where one
    /// stint is all that is needed.
    pub fn calculate_single_stint(&self) -> (strategy: Strategy)
        requires
            self.valid(),
        ensures
            self.spec_is_single_stint(strategy),
            self.spec_required_stints() == 1 ==> self.spec_consistent(strategy),
    {
        let stints = self.longest_stints();
        let strategy = Strategy::SingleStint(StrategyInner { stints, stops: Vec::new() });
        proof {
            if self.spec_required_stints() == 1 {
                self.lemma_max_stint_time_bounds();
                self.lemma_single_stint_covers();
                assert(strategy.stops() =~= spec_stops(strategy.stints()));
                self.lemma_layout_consistent(strategy, self.spec_max_stint_time());
            }
        }
        strategy
    }

    /// The strategies on offer. Where one stint is enough, that stint alone.
    /// Otherwise the long-stint layout, unless the mandatory stops already
    /// cover every stop that fuel and rules force, and then the even layout.
    pub fn calculate(&self) -> (strategies: Vec<Strategy>)
        requires
            self.valid(),
        ensures
            self.spec_required_stints() == 1 ==> strategies.len() == 1
                && self.spec_is_single_stint(strategies[0]),
            self.spec_required_stints() > 1 && self.spec_all_pits_mandatory()
                ==> strategies.len() == 1 && self.spec_is_even_stint_strategy(strategies[0]),
            self.spec_required_stints() > 1 && !self.spec_all_pits_mandatory()
                ==> strategies.len() == 2 && self.spec_is_long_stint_strategy(strategies[0])
                && self.spec_is_even_stint_strategy(strategies[1]),
            forall|i: int|
                0 <= i < strategies.len() ==> self.spec_consistent(#[trigger] strategies[i]),
    {
        let mut result: Vec<Strategy> = Vec::new();
        if self.required_stints() == 1 {
            result.push(self.calculate_single_stint());
            return result;
        }
        if !self.all_pits_mandatory() {
            result.push(self.calculate_long_stint_strategy());
        }
        result.push(self.calculate_even_stint_strategy());
        result
    }

    /// The stints when each runs as long as fuel and rules permit.
    fn longest_stints(&self) -> (stints: Vec<Stint>)
        requires
            self.valid(),
        ensures
            stints@ == self.spec_stints(self.spec_max_stint_time()),
    {
        let target_stint_time: u64 = self.max_stint_time();
        proof {
            if self.spec_max_stint_time() > u64::MAX {
                self.lemma_stints_covering_target(
                    self.spec_max_stint_time(),
                    target_stint_time as nat,
                );
            }
        }
        self.calculate_stints(target_stint_time)
    }
}

} // verus!
