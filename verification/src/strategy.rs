//! Stints, stops and the strategies made of them.

use vstd::prelude::*;

verus! {

/// One continuous driving segment.
#[derive(Debug, Clone, Copy, PartialEq, Eq)]
pub struct Stint {
    /// Time driven, in seconds.
    pub duration: u64,
    /// Laps completed; a lap that is begun counts.
    pub laps: u64,
    /// Fuel burnt over those laps, rounded up to a whole unit.
    pub fuel_required: u32,
}

/// One pit stop between two consecutive stints.
#[derive(Debug, Clone, Copy, PartialEq, Eq)]
pub struct Stop {
    /// Laps completed in the race when the car comes in.
    pub lap: u64,
    /// Fuel taken on: what the stint after the stop requires.
    pub fuel_to_add: u32,
}

/// The stints of a strategy, in race order, and the stops between them.
#[derive(Debug, Clone)]
pub struct StrategyInner {
    pub stints: Vec<Stint>,
    pub stops: Vec<Stop>,
}

/// A way of running the race.
#[derive(Debug, Clone)]
pub enum Strategy {
    /// The race fits in one stint; there is no stop.
    SingleStint(StrategyInner),
    /// Every stint runs as long as fuel and rules allow; the last takes what
    /// is left.
    LongStints(StrategyInner),
    /// The race is split into stints of even length.
    EqualStints(StrategyInner),
}

impl Strategy {
    /// The stints and stops, whatever the kind.
    pub open spec fn spec_inner(&self) -> StrategyInner {
        match self {
            Strategy::SingleStint(inner) => *inner,
            Strategy::LongStints(inner) => *inner,
            Strategy::EqualStints(inner) => *inner,
        }
    }

    /// The stints and stops, whatever the kind.
    pub fn inner(&self) -> (inner: &StrategyInner)
        ensures
            *inner == self.spec_inner(),
    {
        match self {
            Strategy::SingleStint(inner) => inner,
            Strategy::LongStints(inner) => inner,
            Strategy::EqualStints(inner) => inner,
        }
    }

    /// The stints, in race order.
    pub open spec fn stints(&self) -> Seq<Stint> {
        self.spec_inner().stints@
    }

    /// The stops, in race order.
    pub open spec fn stops(&self) -> Seq<Stop> {
        self.spec_inner().stops@
    }
}

/// Seconds driven over all of `stints`.
pub open spec fn total_duration(stints: Seq<Stint>) -> nat
    decreases stints.len(),
{
    if stints.len() == 0 {
        0
    } else {
        total_duration(stints.drop_last()) + stints.last().duration as nat
    }
}

/// Laps completed over all of `stints`.
pub open spec fn total_laps(stints: Seq<Stint>) -> nat
    decreases stints.len(),
{
    if stints.len() == 0 {
        0
    } else {
        total_laps(stints.drop_last()) + stints.last().laps as nat
    }
}

/// The stop that precedes stint `index + 1`: it comes at the lap count that
/// the stints before it add up to, and takes on the fuel of the stint after it.
pub open spec fn spec_stop(stints: Seq<Stint>, index: int) -> Stop {
    Stop {
        lap: total_laps(stints.take(index + 1)) as u64,
        fuel_to_add: stints[index + 1].fuel_required,
    }
}

/// The stops that `stints` call for: one between each two consecutive stints.
pub open spec fn spec_stops(stints: Seq<Stint>) -> Seq<Stop> {
    Seq::new(
        if stints.len() == 0 {
            0nat
        } else {
            (stints.len() - 1) as nat
        },
        |index: int| spec_stop(stints, index),
    )
}

/// Whether each stop comes at a later lap than the one before it.
pub open spec fn stops_ascend(stops: Seq<Stop>) -> bool {
    forall|a: int, b: int| 0 <= a < b < stops.len() ==> stops[a].lap < stops[b].lap
}

/// One more stint adds its laps to the total.
pub proof fn lemma_total_laps_step(stints: Seq<Stint>, count: int)
    requires
        0 <= count < stints.len(),
    ensures
        total_laps(stints.take(count + 1)) == total_laps(stints.take(count))
            + stints[count].laps,
{
    assert(stints.take(count + 1).drop_last() =~= stints.take(count));
}

/// One more stint adds its duration to the total.
pub proof fn lemma_total_duration_step(stints: Seq<Stint>, count: int)
    requires
        0 <= count < stints.len(),
    ensures
        total_duration(stints.take(count + 1)) == total_duration(stints.take(count))
            + stints[count].duration,
{
    assert(stints.take(count + 1).drop_last() =~= stints.take(count));
}

/// The laps of the first `count` stints grow with `count`, and strictly so
/// where every stint completes a lap.
pub proof fn lemma_total_laps_grow(stints: Seq<Stint>, fewer: int, more: int)
    requires
        0 <= fewer <= more <= stints.len(),
    ensures
        total_laps(stints.take(fewer)) <= total_laps(stints.take(more)),
        fewer < more && (forall|i: int| 0 <= i < stints.len() ==> stints[i].laps >= 1)
            ==> total_laps(stints.take(fewer)) < total_laps(stints.take(more)),
    decreases more - fewer,
{
    if fewer < more {
        lemma_total_laps_grow(stints, fewer, more - 1);
        lemma_total_laps_step(stints, more - 1);
    }
}

/// Where no stint has more laps than seconds, neither has the whole.
pub proof fn lemma_total_laps_at_most_duration(stints: Seq<Stint>)
    requires
        forall|i: int| 0 <= i < stints.len() ==> stints[i].laps <= stints[i].duration,
    ensures
        total_laps(stints) <= total_duration(stints),
    decreases stints.len(),
{
    if stints.len() > 0 {
        lemma_total_laps_at_most_duration(stints.drop_last());
    }
}

/// Where every stint completes a lap, each stop comes at a later lap than the
/// one before it, and there is one stop fewer than there are stints.
pub proof fn lemma_stops_ascend(stints: Seq<Stint>)
    requires
        stints.len() >= 1,
        forall|i: int| 0 <= i < stints.len() ==> stints[i].laps >= 1,
        total_laps(stints) <= u64::MAX,
    ensures
        spec_stops(stints).len() == stints.len() - 1,
        stops_ascend(spec_stops(stints)),
{
    let stops = spec_stops(stints);
    assert forall|a: int, b: int| 0 <= a < b < stops.len() implies stops[a].lap
        < stops[b].lap by {
        lemma_total_laps_grow(stints, a + 1, b + 1);
        lemma_total_laps_grow(stints, b + 1, stints.len() as int);
        assert(stints.take(stints.len() as int) =~= stints);
    }
}

/// The stops that `stints` call for.
pub fn stops_between(stints: &Vec<Stint>) -> (stops: Vec<Stop>)
    requires
        total_laps(stints@) <= u64::MAX,
    ensures
        stops@ == spec_stops(stints@),
{
    let mut stops: Vec<Stop> = Vec::new();
    if stints.len() == 0 {
        return stops;
    }
    let mut laps_so_far: u64 = 0;
    let mut next: usize = 1;
    assert(stints@.take(0) =~= Seq::<Stint>::empty());
    while next < stints.len()
        invariant
            1 <= next <= stints.len(),
            total_laps(stints@) <= u64::MAX,
            stops.len() == next - 1,
            laps_so_far == total_laps(stints@.take(next - 1)),
            forall|j: int| 0 <= j < next - 1 ==> stops[j] == spec_stop(stints@, j),
        decreases stints.len() - next,
    {
        proof {
            lemma_total_laps_step(stints@, next - 1);
            lemma_total_laps_grow(stints@, next as int, stints.len() as int);
            assert(stints@.take(stints.len() as int) =~= stints@);
        }
        laps_so_far = laps_so_far + stints[next - 1].laps;
        stops.push(Stop { lap: laps_so_far, fuel_to_add: stints[next].fuel_required });
        next = next + 1;
    }
    assert(stops@ =~= spec_stops(stints@));
    stops
}

} // verus!
