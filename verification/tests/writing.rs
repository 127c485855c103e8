use stewart::fuel::FuelRate;
use stewart::input::StrategyInput;
use stewart::strategy::{Stint, Stop, Strategy, StrategyInner};
use stewart::text::append_decimal;

fn decimal(value: u64) -> String {
    let mut text = String::new();
    append_decimal(&mut text, value);
    text
}

fn two_stints() -> StrategyInner {
    StrategyInner {
        stints: vec![
            Stint { duration: 4554, laps: 33, fuel_required: 108 },
            Stint { duration: 738, laps: 6, fuel_required: 20 },
        ],
        stops: vec![Stop { lap: 33, fuel_to_add: 20 }],
    }
}

#[test]
fn decimal_digits() {
    assert_eq!(decimal(0), "0");
    assert_eq!(decimal(7), "7");
    assert_eq!(decimal(10), "10");
    assert_eq!(decimal(108), "108");
    assert_eq!(decimal(1234567890), "1234567890");
    assert_eq!(decimal(u64::MAX), "18446744073709551615");
    let mut text = String::from("Lap ");
    append_decimal(&mut text, 33);
    assert_eq!(text, "Lap 33");
}

#[test]
fn titles() {
    let inner = two_stints();
    assert_eq!(Strategy::SingleStint(inner.clone()).discord_title(), "Single Stint");
    assert_eq!(Strategy::LongStints(inner.clone()).discord_title(), "Longer Stints");
    assert_eq!(Strategy::EqualStints(inner).discord_title(), "Equal Stints");
}

#[test]
fn text_with_given_lengths() {
    let inner = two_stints();
    let lengths = vec![String::from("first"), String::from("second")];
    assert_eq!(
        inner.text_with_lengths(&lengths).unwrap(),
        "**Starting Fuel**\n108 L\n33 Laps\
         \n\n**Stint 1**\nfirst\
         \n\n**Stop 1**\nLap 33\nAdd fuel: 20 L\
         \n\n**Stint 2**\nsecond"
    );
}

#[test]
fn text_needs_a_length_for_each_stint() {
    let inner = two_stints();
    assert_eq!(inner.text_with_lengths(&vec![String::from("first")]), None);
    assert_eq!(inner.text_with_lengths(&Vec::new()), None);
    let three = vec![String::new(), String::new(), String::new()];
    assert_eq!(inner.text_with_lengths(&three), None);
    let empty = StrategyInner { stints: Vec::new(), stops: Vec::new() };
    assert_eq!(empty.text_with_lengths(&Vec::new()), None);
}

#[test]
fn text_without_stops_and_with_stops_to_spare() {
    let mut inner = two_stints();
    inner.stops.clear();
    let lengths = vec![String::from("a"), String::from("b")];
    assert_eq!(
        inner.text_with_lengths(&lengths).unwrap(),
        "**Starting Fuel**\n108 L\n33 Laps\n\n**Stint 1**\na\n\n**Stint 2**\nb"
    );
    inner.stops = vec![
        Stop { lap: 1, fuel_to_add: 2 },
        Stop { lap: 3, fuel_to_add: 4 },
        Stop { lap: 5, fuel_to_add: 6 },
    ];
    assert_eq!(
        inner.text_with_lengths(&lengths).unwrap(),
        "**Starting Fuel**\n108 L\n33 Laps\
         \n\n**Stint 1**\na\n\n**Stop 1**\nLap 1\nAdd fuel: 2 L\
         \n\n**Stint 2**\nb\n\n**Stop 2**\nLap 3\nAdd fuel: 4 L"
    );
}

#[test]
fn text_of_a_strategy_has_lengths_in_words() {
    let inner = two_stints();
    let expected = "**Starting Fuel**\n108 L\n33 Laps\
         \n\n**Stint 1**\n1h 15m 54s\
         \n\n**Stop 1**\nLap 33\nAdd fuel: 20 L\
         \n\n**Stint 2**\n12m 18s";
    assert_eq!(inner.as_discord_text(), expected);
    assert_eq!(Strategy::LongStints(inner.clone()).as_discord_text(), expected);
    assert_eq!(Strategy::EqualStints(inner.clone()).as_discord_text(), expected);
    assert_eq!(Strategy::SingleStint(inner).as_discord_text(), expected);
}

#[test]
fn text_of_a_calculated_strategy() {
    let input = StrategyInput {
        race_duration: 14400,
        avg_laptime: 138,
        fuel_per_lap: FuelRate { numerator: 325, denominator: 100 },
        fuel_capacity: 110,
        permitted_max_stint_length: None,
        mandatory_pits: None,
    };
    assert!(input.is_valid());
    let strategies = input.calculate();
    assert_eq!(strategies.len(), 2);
    assert_eq!(strategies[0].discord_title(), "Longer Stints");
    assert_eq!(
        strategies[0].as_discord_text(),
        "**Starting Fuel**\n108 L\n33 Laps\
         \n\n**Stint 1**\n1h 15m 54s\n\n**Stop 1**\nLap 33\nAdd fuel: 108 L\
         \n\n**Stint 2**\n1h 15m 54s\n\n**Stop 2**\nLap 66\nAdd fuel: 108 L\
         \n\n**Stint 3**\n1h 15m 54s\n\n**Stop 3**\nLap 99\nAdd fuel: 20 L\
         \n\n**Stint 4**\n12m 18s"
    );
    assert_eq!(strategies[1].discord_title(), "Equal Stints");
    assert_eq!(
        strategies[1].as_discord_text(),
        "**Starting Fuel**\n88 L\n27 Laps\
         \n\n**Stint 1**\n1h\n\n**Stop 1**\nLap 27\nAdd fuel: 88 L\
         \n\n**Stint 2**\n1h\n\n**Stop 2**\nLap 54\nAdd fuel: 88 L\
         \n\n**Stint 3**\n1h\n\n**Stop 3**\nLap 81\nAdd fuel: 88 L\
         \n\n**Stint 4**\n1h"
    );
}

#[test]
fn lengths_are_written_as_humantime_does() {
    for seconds in [1u64, 59, 60, 61, 3600, 86399, 86400, 31_557_600, 1_000_000_000] {
        let inner = StrategyInner {
            stints: vec![Stint { duration: seconds, laps: 1, fuel_required: 1 }],
            stops: Vec::new(),
        };
        let length = humantime::format_duration(std::time::Duration::from_secs(seconds)).to_string();
        assert_eq!(inner.as_discord_text(), inner.text_with_lengths(&vec![length]).unwrap());
    }
    let second = StrategyInner {
        stints: vec![Stint { duration: 1, laps: 1, fuel_required: 1 }],
        stops: Vec::new(),
    };
    assert_eq!(second.as_discord_text(), "**Starting Fuel**\n1 L\n1 Laps\n\n**Stint 1**\n1s");
}
