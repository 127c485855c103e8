//! The text of a request, word by word: a race length in minutes or as
//! `HH:MM`, a lap time as `MM:SS`, the fuel per lap as a decimal number, the
//! tank's capacity, and optionally the mandatory stops and the longest
//! permitted stint.
//!
//! A number is one or more ASCII digits. A word with a colon must be two
//! numbers with one colon between them.

use crate::fuel::FuelRate;
use crate::input::StrategyInput;
use vstd::prelude::*;

verus! {

/// The byte `0`.
pub const ZERO: u8 = 0x30;

/// The byte `9`.
pub const NINE: u8 = 0x39;

/// The byte `:`.
pub const COLON: u8 = 0x3a;

/// The byte `.`.
pub const DOT: u8 = 0x2e;

/// Whether `byte` is an ASCII digit.
pub open spec fn is_digit(byte: u8) -> bool {
    ZERO <= byte <= NINE
}

/// Whether `text` is a number: one or more digits and nothing else.
pub open spec fn is_number(text: Seq<u8>) -> bool {
    text.len() > 0 && forall|i: int| 0 <= i < text.len() ==> is_digit(#[trigger] text[i])
}

/// The value of digits read as a decimal number.
pub open spec fn number_value(text: Seq<u8>) -> nat
    decreases text.len(),
{
    if text.len() == 0 {
        0
    } else {
        number_value(text.drop_last()) * 10 + (text.last() - ZERO) as nat
    }
}

/// A value as a `u64`, if it is not too large for one.
pub open spec fn fitting(value: nat) -> Option<u64> {
    if value <= u64::MAX {
        Some(value as u64)
    } else {
        None
    }
}

/// What a word holds as a number: its value, if it is a number that fits a
/// `u64`.
pub open spec fn spec_number(text: Seq<u8>) -> Option<u64> {
    if is_number(text) {
        fitting(number_value(text))
    } else {
        None
    }
}

/// Whether `mark` occurs in `text`.
pub open spec fn has_mark(text: Seq<u8>, mark: u8) -> bool {
    exists|i: int| 0 <= i < text.len() && text[i] == mark
}

/// Whether `mark` occurs at `index` in `text` and nowhere before it.
pub open spec fn is_first_mark(text: Seq<u8>, mark: u8, index: int) -> bool {
    &&& 0 <= index < text.len()
    &&& text[index] == mark
    &&& forall|j: int| 0 <= j < index ==> text[j] != mark
}

/// Where `mark` first occurs in `text`; the length of `text` if it does not
/// occur.
pub open spec fn first_mark(text: Seq<u8>, mark: u8) -> int {
    if has_mark(text, mark) {
        choose|index: int| is_first_mark(text, mark, index)
    } else {
        text.len() as int
    }
}

/// The two numbers of a word that is two numbers with `mark` between them.
pub open spec fn spec_pair(text: Seq<u8>, mark: u8) -> Option<(nat, nat)> {
    let split = first_mark(text, mark);
    if split < text.len() && is_number(text.take(split)) && is_number(text.skip(split + 1)) {
        Some((number_value(text.take(split)), number_value(text.skip(split + 1))))
    } else {
        None
    }
}

/// The seconds that a word holds as minutes or as `HH:MM`: without a colon
/// the word is a number of minutes; with one it is hours, a colon and
/// minutes.
pub open spec fn spec_minutes_or_hhmm(text: Seq<u8>) -> Option<u64> {
    if has_mark(text, COLON) {
        match spec_pair(text, COLON) {
            Some((hours, minutes)) => fitting((hours * 60 + minutes) * 60),
            None => None,
        }
    } else if is_number(text) {
        fitting(number_value(text) * 60)
    } else {
        None
    }
}

/// The seconds that a word holds as `MM:SS`: minutes, a colon and seconds.
pub open spec fn spec_mmss(text: Seq<u8>) -> Option<u64> {
    match spec_pair(text, COLON) {
        Some((minutes, seconds)) => fitting(minutes * 60 + seconds),
        None => None,
    }
}

/// Digits never read as less than the digits they begin with.
pub proof fn lemma_number_value_grows(text: Seq<u8>, count: int)
    requires
        0 <= count <= text.len(),
    ensures
        number_value(text.take(count)) <= number_value(text),
    decreases text.len() - count,
{
    if count < text.len() {
        lemma_number_value_grows(text, count + 1);
        assert(text.take(count + 1).drop_last() =~= text.take(count));
    } else {
        assert(text.take(count) =~= text);
    }
}

/// Where `mark` first occurs in `text`; the length of `text` if it does not
/// occur.
pub fn find_mark(text: &[u8], mark: u8) -> (index: usize)
    ensures
        index == first_mark(text@, mark),
        index <= text.len(),
        index < text.len() <==> has_mark(text@, mark),
        index < text.len() ==> is_first_mark(text@, mark, index as int),
{
    let mut index: usize = 0;
    while index < text.len()
        invariant
            index <= text.len(),
            forall|j: int| 0 <= j < index ==> text@[j] != mark,
        decreases text.len() - index,
    {
        if text[index] == mark {
            proof {
                assert(is_first_mark(text@, mark, index as int));
                let chosen = choose|i: int| is_first_mark(text@, mark, i);
                assert(is_first_mark(text@, mark, chosen));
                assert(chosen == index);
            }
            return index;
        }
        index = index + 1;
    }
    index
}

/// The number that the bytes of `text` from `from` up to `to` hold.
pub fn parse_number_between(text: &[u8], from: usize, to: usize) -> (value: Option<u64>)
    requires
        from <= to <= text.len(),
    ensures
        value == spec_number(text@.subrange(from as int, to as int)),
{
    let ghost word = text@.subrange(from as int, to as int);
    if from == to {
        return None;
    }
    let mut value: u64 = 0;
    let mut index: usize = from;
    assert(word.take(0) =~= Seq::<u8>::empty());
    while index < to
        invariant
            from <= index <= to <= text.len(),
            word == text@.subrange(from as int, to as int),
            value == number_value(word.take(index - from)),
            forall|j: int| 0 <= j < index - from ==> is_digit(#[trigger] word[j]),
        decreases to - index,
    {
        let byte: u8 = text[index];
        assert(byte == word[index - from]);
        if byte < ZERO || byte > NINE {
            return None;
        }
        proof {
            assert(word.take(index - from + 1).drop_last() =~= word.take(index - from));
            lemma_number_value_grows(word, index - from + 1);
        }
        let scaled: u64 = match value.checked_mul(10) {
            Some(scaled) => scaled,
            None => {
                return None;
            },
        };
        value = match scaled.checked_add((byte - ZERO) as u64) {
            Some(sum) => sum,
            None => {
                return None;
            },
        };
        index = index + 1;
    }
    assert(word.take(to - from) =~= word);
    Some(value)
}

/// The number that `text` holds.
pub fn parse_number(text: &[u8]) -> (value: Option<u64>)
    ensures
        value == spec_number(text@),
{
    assert(text@.subrange(0, text.len() as int) =~= text@);
    parse_number_between(text, 0, text.len())
}

/// The seconds that `text` holds as minutes or as `HH:MM`.
pub fn parse_minutes_or_hhmm(text: &[u8]) -> (seconds: Option<u64>)
    ensures
        seconds == spec_minutes_or_hhmm(text@),
{
    let split: usize = find_mark(text, COLON);
    if split == text.len() {
        return match parse_number(text) {
            Some(minutes) => minutes.checked_mul(60),
            None => None,
        };
    }
    assert(text@.take(split as int) =~= text@.subrange(0, split as int));
    assert(text@.skip(split + 1) =~= text@.subrange(split + 1, text.len() as int));
    let hours: u64 = match parse_number_between(text, 0, split) {
        Some(hours) => hours,
        None => {
            return None;
        },
    };
    let minutes: u64 = match parse_number_between(text, split + 1, text.len()) {
        Some(minutes) => minutes,
        None => {
            return None;
        },
    };
    let hours_as_minutes: u64 = match hours.checked_mul(60) {
        Some(product) => product,
        None => {
            return None;
        },
    };
    match hours_as_minutes.checked_add(minutes) {
        Some(total) => total.checked_mul(60),
        None => None,
    }
}

/// The seconds that `text` holds as `MM:SS`.
pub fn parse_mmss(text: &[u8]) -> (seconds: Option<u64>)
    ensures
        seconds == spec_mmss(text@),
{
    let split: usize = find_mark(text, COLON);
    if split == text.len() {
        return None;
    }
    assert(text@.take(split as int) =~= text@.subrange(0, split as int));
    assert(text@.skip(split + 1) =~= text@.subrange(split + 1, text.len() as int));
    let minutes: u64 = match parse_number_between(text, 0, split) {
        Some(minutes) => minutes,
        None => {
            return None;
        },
    };
    let seconds: u64 = match parse_number_between(text, split + 1, text.len()) {
        Some(seconds) => seconds,
        None => {
            return None;
        },
    };
    match minutes.checked_mul(60) {
        Some(product) => product.checked_add(seconds),
        None => None,
    }
}

/// Ten to the power of `exponent`.
pub open spec fn pow10(exponent: nat) -> nat
    decreases exponent,
{
    if exponent == 0 {
        1
    } else {
        pow10((exponent - 1) as nat) * 10
    }
}

/// The digits before the first dot of `text`.
pub open spec fn whole_digits(text: Seq<u8>) -> Seq<u8> {
    text.take(first_mark(text, DOT))
}

/// What follows the first dot of `text`; nothing if there is no dot.
pub open spec fn fraction_digits(text: Seq<u8>) -> Seq<u8> {
    if has_mark(text, DOT) {
        text.skip(first_mark(text, DOT) + 1)
    } else {
        Seq::<u8>::empty()
    }
}

/// The fuel rate that a word holds as a decimal number: digits, with at most
/// one dot before, between or after them. The rate is the digits read as one
/// number, over ten to the number of digits after the dot. It must be above
/// zero, and both parts must fit a `u64`.
pub open spec fn spec_fuel_rate(text: Seq<u8>) -> Option<FuelRate> {
    let digits = whole_digits(text) + fraction_digits(text);
    let scale = pow10(fraction_digits(text).len());
    if is_number(digits) && 0 < number_value(digits) <= u64::MAX && scale <= u64::MAX {
        Some(FuelRate { numerator: number_value(digits) as u64, denominator: scale as u64 })
    } else {
        None
    }
}

/// A larger exponent never gives a smaller power of ten.
pub proof fn lemma_pow10_grows(smaller: nat, larger: nat)
    requires
        smaller <= larger,
    ensures
        1 <= pow10(smaller) <= pow10(larger),
    decreases larger,
{
    if larger > 0 {
        if smaller < larger {
            lemma_pow10_grows(smaller, (larger - 1) as nat);
        } else {
            lemma_pow10_grows((smaller - 1) as nat, (larger - 1) as nat);
        }
    }
}

/// The fuel rate that `text` holds as a decimal number.
pub fn parse_fuel_rate(text: &[u8]) -> (rate: Option<FuelRate>)
    ensures
        rate == spec_fuel_rate(text@),
        rate matches Some(parsed) ==> parsed.wf(),
{
    let split: usize = find_mark(text, DOT);
    let ghost whole = whole_digits(text@);
    let ghost fraction = fraction_digits(text@);
    let ghost digits = whole + fraction;
    let mut numerator: u64 = 0;
    let mut denominator: u64 = 1;
    let mut index: usize = 0;
    assert(digits.take(0) =~= Seq::<u8>::empty());
    while index < text.len()
        invariant
            index <= text.len(),
            split <= text.len(),
            split == first_mark(text@, DOT),
            split < text.len() <==> has_mark(text@, DOT),
            whole == whole_digits(text@),
            fraction == fraction_digits(text@),
            digits == whole + fraction,
            index <= split ==> numerator == number_value(digits.take(index as int))
                && denominator == 1,
            index > split ==> numerator == number_value(digits.take(index - 1))
                && denominator == pow10((index - 1 - split) as nat),
            forall|j: int|
                0 <= j < (if index <= split {
                    index as int
                } else {
                    index - 1
                }) ==> is_digit(#[trigger] digits[j]),
        decreases text.len() - index,
    {
        if index != split {
            let byte: u8 = text[index];
            let ghost place: int = if index < split {
                index as int
            } else {
                index - 1
            };
            proof {
                assert(digits[place] == byte);
                assert(digits.take(place + 1).drop_last() =~= digits.take(place));
                lemma_number_value_grows(digits, place + 1);
                if index > split {
                    lemma_pow10_grows((index - split) as nat, fraction.len());
                }
            }
            if byte < ZERO || byte > NINE {
                return None;
            }
            let scaled: u64 = match numerator.checked_mul(10) {
                Some(scaled) => scaled,
                None => {
                    return None;
                },
            };
            numerator = match scaled.checked_add((byte - ZERO) as u64) {
                Some(sum) => sum,
                None => {
                    return None;
                },
            };
            if index > split {
                denominator = match denominator.checked_mul(10) {
                    Some(scaled) => scaled,
                    None => {
                        return None;
                    },
                };
            }
        }
        index = index + 1;
    }
    proof {
        assert(digits.take(digits.len() as int) =~= digits);
        lemma_pow10_grows(0, fraction.len());
    }
    if numerator == 0 {
        return None;
    }
    Some(FuelRate { numerator, denominator })
}

/// Why a request was turned down.
#[derive(Debug, Clone, Copy, PartialEq, Eq)]
pub enum CommandErr {
    /// A word is missing, is one too many, does not read as what its place
    /// calls for, or the figures describe no race that can be planned.
    InvalidCommandArgument,
}

impl CommandErr {
    /// The message of the error.
    pub open spec fn spec_message(&self) -> Seq<char> {
        "Invalid argument parsed for command"@
    }

    /// The message of the error.
    pub fn message(&self) -> (text: &'static str)
        ensures
            text@ == self.spec_message(),
    {
        "Invalid argument parsed for command"
    }
}

/// A number that fits a `u32`.
pub open spec fn spec_number_u32(text: Seq<u8>) -> Option<u32> {
    match spec_number(text) {
        Some(value) if value <= u32::MAX => Some(value as u32),
        _ => None,
    }
}

/// A number that fits a `u8`.
pub open spec fn spec_number_u8(text: Seq<u8>) -> Option<u8> {
    match spec_number(text) {
        Some(value) if value <= u8::MAX => Some(value as u8),
        _ => None,
    }
}

/// The bytes of each word.
pub open spec fn spec_words(words: Seq<Vec<u8>>) -> Seq<Seq<u8>> {
    Seq::new(words.len(), |index: int| words[index]@)
}

/// The figures that the words of a request hold, read in this order: race
/// length in minutes or as `HH:MM`, lap time as `MM:SS`, fuel per lap, tank
/// capacity, and then either nothing more or both the mandatory stops and
/// the longest permitted stint, in minutes or as `HH:MM`. `None` unless there
/// are four or six words, each reads as what its place calls for, and the
/// figures describe a race that can be planned.
pub open spec fn spec_request(words: Seq<Seq<u8>>) -> Option<StrategyInput> {
    if words.len() != 4 && words.len() != 6 {
        None
    } else {
        let race = spec_minutes_or_hhmm(words[0]);
        let lap = spec_mmss(words[1]);
        let rate = spec_fuel_rate(words[2]);
        let capacity = spec_number_u32(words[3]);
        let pits = if words.len() == 6 {
            spec_number_u8(words[4])
        } else {
            None
        };
        let limit = if words.len() == 6 {
            spec_minutes_or_hhmm(words[5])
        } else {
            None
        };
        if race is None || lap is None || rate is None || capacity is None {
            None
        } else if words.len() == 6 && (pits is None || limit is None) {
            None
        } else {
            let input = StrategyInput {
                race_duration: race->0,
                avg_laptime: lap->0,
                fuel_per_lap: rate->0,
                fuel_capacity: capacity->0,
                mandatory_pits: pits,
                permitted_max_stint_length: limit,
            };
            if input.valid() {
                Some(input)
            } else {
                None
            }
        }
    }
}

/// The number that `text` holds, if it fits a `u32`.
pub fn parse_number_u32(text: &[u8]) -> (value: Option<u32>)
    ensures
        value == spec_number_u32(text@),
{
    match parse_number(text) {
        Some(number) => {
            if number <= u32::MAX as u64 {
                Some(number as u32)
            } else {
                None
            }
        },
        None => None,
    }
}

/// The number that `text` holds, if it fits a `u8`.
pub fn parse_number_u8(text: &[u8]) -> (value: Option<u8>)
    ensures
        value == spec_number_u8(text@),
{
    match parse_number(text) {
        Some(number) => {
            if number <= u8::MAX as u64 {
                Some(number as u8)
            } else {
                None
            }
        },
        None => None,
    }
}

/// The figures that the words of a request hold; an error where they hold
/// none.
pub fn parse_request(words: &Vec<Vec<u8>>) -> (request: Result<StrategyInput, CommandErr>)
    ensures
        match request {
            Ok(input) => spec_request(spec_words(words@)) == Some(input) && input.valid(),
            Err(_) => spec_request(spec_words(words@)) is None,
        },
{
    if words.len() != 4 && words.len() != 6 {
        return Err(CommandErr::InvalidCommandArgument);
    }
    let race = parse_minutes_or_hhmm(words[0].as_slice());
    let lap = parse_mmss(words[1].as_slice());
    let rate = parse_fuel_rate(words[2].as_slice());
    let capacity = parse_number_u32(words[3].as_slice());
    let mut pits: Option<u8> = None;
    let mut limit: Option<u64> = None;
    if words.len() == 6 {
        pits = parse_number_u8(words[4].as_slice());
        limit = parse_minutes_or_hhmm(words[5].as_slice());
        if pits.is_none() || limit.is_none() {
            return Err(CommandErr::InvalidCommandArgument);
        }
    }
    match (race, lap, rate, capacity) {
        (Some(race_duration), Some(avg_laptime), Some(fuel_per_lap), Some(fuel_capacity)) => {
            let input = StrategyInput {
                race_duration,
                avg_laptime,
                fuel_per_lap,
                fuel_capacity,
                mandatory_pits: pits,
                permitted_max_stint_length: limit,
            };
            if input.is_valid() {
                Ok(input)
            } else {
                Err(CommandErr::InvalidCommandArgument)
            }
        },
        _ => Err(CommandErr::InvalidCommandArgument),
    }
}

} // verus!
