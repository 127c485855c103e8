use stewart::fuel::FuelRate;
use stewart::request::{
    find_mark, parse_fuel_rate, parse_minutes_or_hhmm, parse_mmss, parse_number,
    parse_number_between, parse_number_u32, parse_number_u8, parse_request, CommandErr, COLON, DOT,
};
use stewart::strategy::Strategy;

fn words(line: &str) -> Vec<Vec<u8>> {
    line.split_whitespace().map(|word| word.as_bytes().to_vec()).collect()
}

#[test]
fn marks_are_found_where_they_first_occur() {
    assert_eq!(find_mark(b"2:24", COLON), 1);
    assert_eq!(find_mark(b":", COLON), 0);
    assert_eq!(find_mark(b"1:2:3", COLON), 1);
    assert_eq!(find_mark(b"144", COLON), 3);
    assert_eq!(find_mark(b"", COLON), 0);
    assert_eq!(find_mark(b"3.93", DOT), 1);
    assert_eq!(find_mark(b"3:93", DOT), 4);
}

#[test]
fn numbers_are_digits_only() {
    assert_eq!(parse_number(b"0"), Some(0));
    assert_eq!(parse_number(b"144"), Some(144));
    assert_eq!(parse_number(b"007"), Some(7));
    assert_eq!(parse_number(b"18446744073709551615"), Some(u64::MAX));
    assert_eq!(parse_number(b"18446744073709551616"), None);
    assert_eq!(parse_number(b"99999999999999999999"), None);
    assert_eq!(parse_number(b"184467440737095516150"), None);
    assert_eq!(parse_number(b""), None);
    assert_eq!(parse_number(b"+1"), None);
    assert_eq!(parse_number(b"-1"), None);
    assert_eq!(parse_number(b"1 "), None);
    assert_eq!(parse_number(b"1a"), None);
    assert_eq!(parse_number(b"/"), None);
    assert_eq!(parse_number(b":"), None);
    assert_eq!(parse_number("١٢".as_bytes()), None);
}

#[test]
fn numbers_within_a_word() {
    assert_eq!(parse_number_between(b"12:34", 0, 2), Some(12));
    assert_eq!(parse_number_between(b"12:34", 3, 5), Some(34));
    assert_eq!(parse_number_between(b"12:34", 0, 5), None);
    assert_eq!(parse_number_between(b"12:34", 2, 2), None);
    assert_eq!(parse_number_between(b"12:34", 5, 5), None);
}

#[test]
fn narrow_numbers() {
    assert_eq!(parse_number_u32(b"120"), Some(120));
    assert_eq!(parse_number_u32(b"4294967295"), Some(u32::MAX));
    assert_eq!(parse_number_u32(b"4294967296"), None);
    assert_eq!(parse_number_u32(b"x"), None);
    assert_eq!(parse_number_u8(b"1"), Some(1));
    assert_eq!(parse_number_u8(b"255"), Some(255));
    assert_eq!(parse_number_u8(b"256"), None);
    assert_eq!(parse_number_u8(b""), None);
}

#[test]
fn race_length_in_minutes_or_hours_and_minutes() {
    assert_eq!(parse_minutes_or_hhmm(b"144"), Some(8640));
    assert_eq!(parse_minutes_or_hhmm(b"2:24"), Some(8640));
    assert_eq!(parse_minutes_or_hhmm(b"0:55"), Some(3300));
    assert_eq!(parse_minutes_or_hhmm(b"24:00"), Some(86400));
    assert_eq!(parse_minutes_or_hhmm(b"0"), Some(0));
    assert_eq!(parse_minutes_or_hhmm(b"0:0"), Some(0));
    assert_eq!(parse_minutes_or_hhmm(b"1:75"), Some(8100));
    assert_eq!(parse_minutes_or_hhmm(b""), None);
    assert_eq!(parse_minutes_or_hhmm(b":"), None);
    assert_eq!(parse_minutes_or_hhmm(b"2:"), None);
    assert_eq!(parse_minutes_or_hhmm(b":24"), None);
    assert_eq!(parse_minutes_or_hhmm(b"1:2:3"), None);
    assert_eq!(parse_minutes_or_hhmm(b"2.5"), None);
    assert_eq!(parse_minutes_or_hhmm(b"2h"), None);
    assert_eq!(parse_minutes_or_hhmm(b"307445734561825860"), Some(18446744073709551600));
    assert_eq!(parse_minutes_or_hhmm(b"307445734561825861"), None);
    assert_eq!(parse_minutes_or_hhmm(b"5124095576030431:0"), Some(18446744073709551600));
    assert_eq!(parse_minutes_or_hhmm(b"5124095576030431:1"), None);
    assert_eq!(parse_minutes_or_hhmm(b"99999999999999999999:0"), None);
    assert_eq!(parse_minutes_or_hhmm(b"0:99999999999999999999"), None);
}

#[test]
fn lap_time_in_minutes_and_seconds() {
    assert_eq!(parse_mmss(b"2:18"), Some(138));
    assert_eq!(parse_mmss(b"0:59"), Some(59));
    assert_eq!(parse_mmss(b"10:00"), Some(600));
    assert_eq!(parse_mmss(b"1:90"), Some(150));
    assert_eq!(parse_mmss(b"138"), None);
    assert_eq!(parse_mmss(b""), None);
    assert_eq!(parse_mmss(b"2:"), None);
    assert_eq!(parse_mmss(b":18"), None);
    assert_eq!(parse_mmss(b"2:18:00"), None);
    assert_eq!(parse_mmss(b"2:18.5"), None);
    assert_eq!(parse_mmss(b"307445734561825860:15"), Some(u64::MAX));
    assert_eq!(parse_mmss(b"307445734561825860:16"), None);
}

#[test]
fn fuel_rate_as_a_decimal_number() {
    assert_eq!(parse_fuel_rate(b"3.93"), Some(FuelRate { numerator: 393, denominator: 100 }));
    assert_eq!(parse_fuel_rate(b"3.25"), Some(FuelRate { numerator: 325, denominator: 100 }));
    assert_eq!(parse_fuel_rate(b"3.90"), Some(FuelRate { numerator: 390, denominator: 100 }));
    assert_eq!(parse_fuel_rate(b"4"), Some(FuelRate { numerator: 4, denominator: 1 }));
    assert_eq!(parse_fuel_rate(b"4."), Some(FuelRate { numerator: 4, denominator: 1 }));
    assert_eq!(parse_fuel_rate(b".5"), Some(FuelRate { numerator: 5, denominator: 10 }));
    assert_eq!(parse_fuel_rate(b"0.05"), Some(FuelRate { numerator: 5, denominator: 100 }));
    assert_eq!(parse_fuel_rate(b"010.50"), Some(FuelRate { numerator: 1050, denominator: 100 }));
    assert_eq!(parse_fuel_rate(b""), None);
    assert_eq!(parse_fuel_rate(b"."), None);
    assert_eq!(parse_fuel_rate(b"0"), None);
    assert_eq!(parse_fuel_rate(b"0.0"), None);
    assert_eq!(parse_fuel_rate(b"3.9.3"), None);
    assert_eq!(parse_fuel_rate(b"3,93"), None);
    assert_eq!(parse_fuel_rate(b"-3.93"), None);
    assert_eq!(parse_fuel_rate(b"1e3"), None);
    assert_eq!(parse_fuel_rate(b"3.93 "), None);
    assert_eq!(
        parse_fuel_rate(b"1.8446744073709551615"),
        Some(FuelRate { numerator: u64::MAX, denominator: 10_000_000_000_000_000_000 })
    );
    assert_eq!(parse_fuel_rate(b"1.8446744073709551616"), None);
    assert_eq!(parse_fuel_rate(b"0.00000000000000000001"), None);
    assert_eq!(
        parse_fuel_rate(b"0.0000000000000000001"),
        Some(FuelRate { numerator: 1, denominator: 10_000_000_000_000_000_000 })
    );
}

#[test]
fn a_request_of_four_words() {
    let input = parse_request(&words("2:24 2:18 3.44 120")).unwrap();
    assert_eq!(input.race_duration, 8640);
    assert_eq!(input.avg_laptime, 138);
    assert_eq!(input.fuel_per_lap, FuelRate { numerator: 344, denominator: 100 });
    assert_eq!(input.fuel_capacity, 120);
    assert_eq!(input.mandatory_pits, None);
    assert_eq!(input.permitted_max_stint_length, None);
    assert!(input.is_valid());
}

#[test]
fn a_request_of_six_words() {
    let input = parse_request(&words("2:24 2:18 3.44 120 1 0:55")).unwrap();
    assert_eq!(input.race_duration, 8640);
    assert_eq!(input.avg_laptime, 138);
    assert_eq!(input.fuel_per_lap, FuelRate { numerator: 344, denominator: 100 });
    assert_eq!(input.fuel_capacity, 120);
    assert_eq!(input.mandatory_pits, Some(1));
    assert_eq!(input.permitted_max_stint_length, Some(3300));
    let strategies = input.calculate();
    assert_eq!(strategies.len(), 2);
    assert!(matches!(strategies[0], Strategy::LongStints(_)));
    assert!(matches!(strategies[1], Strategy::EqualStints(_)));
}

#[test]
fn a_request_in_minutes() {
    let input = parse_request(&words("144 2:18 3.44 120 0 55")).unwrap();
    assert_eq!(input.race_duration, 8640);
    assert_eq!(input.mandatory_pits, Some(0));
    assert_eq!(input.permitted_max_stint_length, Some(3300));
}

#[test]
fn requests_that_are_turned_down() {
    let bad = [
        "",
        "2:24",
        "2:24 2:18 3.44",
        "2:24 2:18 3.44 120 1",
        "2:24 2:18 3.44 120 1 0:55 7",
        "x 2:18 3.44 120",
        "2:24 138 3.44 120",
        "2:24 2:18 three 120",
        "2:24 2:18 3.44 12.5",
        "2:24 2:18 3.44 4294967296",
        "2:24 2:18 3.44 120 256 0:55",
        "2:24 2:18 3.44 120 1 fifty",
        "2:24 2:18 3.44 120 one 0:55",
        // no lap time
        "2:24 0:00 3.44 120",
        // no fuel burnt
        "2:24 2:18 0 120",
        // no tank
        "2:24 2:18 3.44 0",
        // a tank that does not last for one lap
        "2:24 2:18 3.44 3",
        // no stint permitted
        "2:24 2:18 3.44 120 1 0",
    ];
    for line in bad {
        assert_eq!(parse_request(&words(line)).err(), Some(CommandErr::InvalidCommandArgument), "{}", line);
    }
}

#[test]
fn the_message_of_the_error() {
    assert_eq!(CommandErr::InvalidCommandArgument.message(), "Invalid argument parsed for command");
}
