use stewart::fuel::FuelRate;
use stewart::input::StrategyInput;
use stewart::strategy::Strategy;

fn rate(numerator: u64, denominator: u64) -> FuelRate {
    FuelRate { numerator, denominator }
}

#[test]
fn test_fuel_req_only() {
    let mut input = StrategyInput {
        race_duration: 7200, // 2 hrs
        avg_laptime: 138,    // 2:18
        fuel_per_lap: rate(393, 100),
        fuel_capacity: 110,
        permitted_max_stint_length: None,
        mandatory_pits: None,
    };
    assert!(input.is_valid());

    assert_eq!(2, input.required_stints());

    input.race_duration = 600; // 10m
    assert_eq!(1, input.required_stints());
}

#[test]
fn test_stints_mandatory_pit() {
    let mut input = StrategyInput {
        race_duration: 7200, // 2 hrs
        avg_laptime: 138,    // 2:18
        fuel_per_lap: rate(393, 100),
        fuel_capacity: 110,
        permitted_max_stint_length: None,
        mandatory_pits: Some(2),
    };
    assert!(input.is_valid());

    assert_eq!(3, input.required_stints());

    input.race_duration = 600; // 10m
    assert_eq!(3, input.required_stints());
}

#[test]
fn test_stints_max_time() {
    let input = StrategyInput {
        race_duration: 7200, // 2 hrs
        avg_laptime: 138,    // 2:18
        fuel_per_lap: rate(393, 100),
        fuel_capacity: 125,
        permitted_max_stint_length: Some(3540), // 59mins
        mandatory_pits: None,
    };
    assert!(input.is_valid());

    assert_eq!(3, input.required_stints());
}

#[test]
fn test_all_mandatory_pits() {
    let mut input = StrategyInput {
        race_duration: 7200, // 2 hrs
        avg_laptime: 138,    // 2:18
        fuel_per_lap: rate(393, 100),
        fuel_capacity: 125,
        permitted_max_stint_length: Some(3540), // 59mins
        mandatory_pits: Some(1),
    };
    assert!(input.is_valid());
    assert_eq!(false, input.all_pits_mandatory());

    input.mandatory_pits = Some(2);
    assert_eq!(true, input.all_pits_mandatory());
}

#[test]
fn calculate_even_stints_strategy() {
    let input = StrategyInput {
        race_duration: 8640, // 2 hrs 24 mins
        avg_laptime: 138,    // 2:18
        fuel_per_lap: rate(393, 100),
        fuel_capacity: 125,
        permitted_max_stint_length: Some(3540), // 59mins
        mandatory_pits: None,
    };
    assert!(input.is_valid());

    let result = input.calculate_even_stint_strategy();
    match result {
        Strategy::EqualStints(strat) => {
            assert_eq!(3, strat.stints.len());
            assert_eq!(2, strat.stops.len());

            assert_eq!(21, strat.stops[0].lap);
        }
        _ => panic!("Got wrong enum variant"),
    }
}

#[test]
fn calculate_long_stint_strategy() {
    let input = StrategyInput {
        race_duration: 14400, // 4 hrs
        avg_laptime: 138,     // 2:18
        fuel_per_lap: rate(325, 100),
        fuel_capacity: 110,
        permitted_max_stint_length: None,
        mandatory_pits: Some(3),
    };
    assert!(input.is_valid());

    let result = input.calculate_long_stint_strategy();
    match result {
        Strategy::LongStints(strat) => {
            assert_eq!(4, strat.stints.len());
            assert_eq!(3, strat.stops.len());

            assert_eq!(33, strat.stops[0].lap);
            assert_eq!(108, strat.stops[0].fuel_to_add);
        }
        _ => panic!("Got wrong enum variant"),
    }
}

#[test]
fn calculate_simple_strategy() {
    let input = StrategyInput {
        race_duration: 3600, // 1 hrs
        avg_laptime: 138,    // 2:18
        fuel_per_lap: rate(325, 100),
        fuel_capacity: 110,
        permitted_max_stint_length: None,
        mandatory_pits: None,
    };
    assert!(input.is_valid());

    let result = input.calculate();
    assert_eq!(1, result.len());
    match &result[0] {
        Strategy::SingleStint(strat) => {
            assert_eq!(strat.stints[0].fuel_required, 88);
        }
        _ => panic!("Got wrong type of strategy for single stint race"),
    }
}

#[test]
fn calculates_both_strategies() {
    let input = StrategyInput {
        race_duration: 14400, // 4 hrs
        avg_laptime: 138,     // 2:18
        fuel_per_lap: rate(390, 100),
        fuel_capacity: 110,
        permitted_max_stint_length: None,
        mandatory_pits: None,
    };
    assert!(input.is_valid());

    let result = input.calculate();
    assert_eq!(2, result.len());
}

#[test]
fn calculates_only_one_strategy_where_appropriate() {
    let input = StrategyInput {
        race_duration: 14400, // 4 hrs
        avg_laptime: 138,     // 2:18
        fuel_per_lap: rate(390, 100),
        fuel_capacity: 110,
        permitted_max_stint_length: None,
        mandatory_pits: Some(3), // every stop is a tyre change, so long stints save nothing
    };
    assert!(input.is_valid());

    let result = input.calculate();
    assert_eq!(1, result.len());
}
