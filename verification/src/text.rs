//! A strategy written out as text: a title, the starting fuel, and a section
//! for each stint and each stop.

use crate::strategy::{Stint, Stop, Strategy, StrategyInner};
use vstd::prelude::*;
use vstd::string::*;

verus! {

/// What `humantime::format_duration` writes for a duration of `seconds` whole
/// seconds.
pub uninterp spec fn formatted_duration(seconds: u64) -> Seq<char>;

/// Calls `humantime::format_duration` on a duration of `seconds` whole seconds
/// and collects what its `Display` writes. The text depends on the duration
/// alone; nothing more is claimed of it here.
#[verifier::external_body]
fn format_duration(seconds: u64) -> (text: String)
    ensures
        text@ == formatted_duration(seconds),
{
    humantime::format_duration(std::time::Duration::from_secs(seconds)).to_string()
}

/// The character of a decimal digit.
pub open spec fn digit(value: nat) -> char {
    if value == 0 {
        '0'
    } else if value == 1 {
        '1'
    } else if value == 2 {
        '2'
    } else if value == 3 {
        '3'
    } else if value == 4 {
        '4'
    } else if value == 5 {
        '5'
    } else if value == 6 {
        '6'
    } else if value == 7 {
        '7'
    } else if value == 8 {
        '8'
    } else {
        '9'
    }
}

/// A number in decimal, without sign or leading zeros.
pub open spec fn decimal(value: nat) -> Seq<char>
    decreases value,
{
    if value < 10 {
        seq![digit(value)]
    } else {
        decimal(value / 10).push(digit(value % 10))
    }
}

/// What comes before the first stint: the fuel and the laps to start with.
pub open spec fn spec_heading(first: Stint) -> Seq<char> {
    "**Starting Fuel**\n"@ + decimal(first.fuel_required as nat) + " L\n"@ + decimal(
        first.laps as nat,
    ) + " Laps"@
}

/// The section of the stint with the given number and length.
pub open spec fn spec_stint_section(number: nat, length: Seq<char>) -> Seq<char> {
    "\n\n**Stint "@ + decimal(number) + "**\n"@ + length
}

/// The section of the stop with the given number.
pub open spec fn spec_stop_section(number: nat, stop: Stop) -> Seq<char> {
    "\n\n**Stop "@ + decimal(number) + "**\nLap "@ + decimal(stop.lap as nat) + "\nAdd fuel: "@
        + decimal(stop.fuel_to_add as nat) + " L"@
}

/// The sections of the first `count` stints, each followed by that of the
/// stop after it, where there is one. Stints and stops are numbered from one.
pub open spec fn spec_sections(
    stops: Seq<Stop>,
    lengths: Seq<Seq<char>>,
    count: nat,
) -> Seq<char>
    decreases count,
{
    if count == 0 {
        Seq::<char>::empty()
    } else {
        let index = count - 1;
        spec_sections(stops, lengths, index as nat) + spec_stint_section(count, lengths[index])
            + if index < stops.len() {
            spec_stop_section(count, stops[index])
        } else {
            Seq::<char>::empty()
        }
    }
}

/// The whole text, given each stint's length as text.
pub open spec fn spec_text(stints: Seq<Stint>, stops: Seq<Stop>, lengths: Seq<Seq<char>>) -> Seq<
    char,
> {
    spec_heading(stints[0]) + spec_sections(stops, lengths, stints.len())
}

/// The length of each stint as `humantime` writes it.
pub open spec fn spec_lengths(stints: Seq<Stint>) -> Seq<Seq<char>> {
    Seq::new(stints.len(), |index: int| formatted_duration(stints[index].duration))
}

/// The texts held in a vector of strings.
pub open spec fn spec_texts(strings: Seq<String>) -> Seq<Seq<char>> {
    Seq::new(strings.len(), |index: int| strings[index]@)
}

/// One decimal digit as text.
fn digit_text(value: u64) -> (text: &'static str)
    requires
        value < 10,
    ensures
        text@ == seq![digit(value as nat)],
{
    proof {
        reveal_strlit("0");
        reveal_strlit("1");
        reveal_strlit("2");
        reveal_strlit("3");
        reveal_strlit("4");
        reveal_strlit("5");
        reveal_strlit("6");
        reveal_strlit("7");
        reveal_strlit("8");
        reveal_strlit("9");
    }
    let text = if value == 0 {
        "0"
    } else if value == 1 {
        "1"
    } else if value == 2 {
        "2"
    } else if value == 3 {
        "3"
    } else if value == 4 {
        "4"
    } else if value == 5 {
        "5"
    } else if value == 6 {
        "6"
    } else if value == 7 {
        "7"
    } else if value == 8 {
        "8"
    } else {
        "9"
    };
    assert(text@ =~= seq![digit(value as nat)]);
    text
}

/// Writes `value` in decimal at the end of `text`.
pub fn append_decimal(text: &mut String, value: u64)
    ensures
        final(text)@ == old(text)@ + decimal(value as nat),
    decreases value,
{
    if value >= 10 {
        append_decimal(text, value / 10);
    }
    text.append(digit_text(value % 10));
    assert(final(text)@ =~= old(text)@ + decimal(value as nat));
}

/// Writes the section of the stint with the given number and length at the
/// end of `text`.
fn append_stint_section(text: &mut String, number: u64, length: &str)
    ensures
        final(text)@ == old(text)@ + spec_stint_section(number as nat, length@),
{
    text.append("\n\n**Stint ");
    append_decimal(text, number);
    text.append("**\n");
    text.append(length);
    assert(final(text)@ =~= old(text)@ + spec_stint_section(number as nat, length@));
}

/// Writes the section of the stop with the given number at the end of `text`.
fn append_stop_section(text: &mut String, number: u64, stop: &Stop)
    ensures
        final(text)@ == old(text)@ + spec_stop_section(number as nat, *stop),
{
    text.append("\n\n**Stop ");
    append_decimal(text, number);
    text.append("**\nLap ");
    append_decimal(text, stop.lap);
    text.append("\nAdd fuel: ");
    append_decimal(text, stop.fuel_to_add as u64);
    text.append(" L");
    assert(final(text)@ =~= old(text)@ + spec_stop_section(number as nat, *stop));
}

/// Writes what comes before the first stint at the end of `text`.
fn append_heading(text: &mut String, first: &Stint)
    ensures
        final(text)@ == old(text)@ + spec_heading(*first),
{
    text.append("**Starting Fuel**\n");
    append_decimal(text, first.fuel_required as u64);
    text.append(" L\n");
    append_decimal(text, first.laps);
    text.append(" Laps");
    assert(final(text)@ =~= old(text)@ + spec_heading(*first));
}

impl StrategyInner {
    /// The strategy as text, given each stint's length as text: the starting
    /// fuel and laps, then a section for each stint, each followed by the
    /// section of the stop after it. `None` where there is no stint, or not
    /// one length for each stint.
    pub fn text_with_lengths(&self, lengths: &Vec<String>) -> (text: Option<String>)
        ensures
            text is Some <==> self.stints.len() >= 1 && lengths.len() == self.stints.len(),
            text matches Some(written) ==> written@ == spec_text(
                self.stints@,
                self.stops@,
                spec_texts(lengths@),
            ),
    {
        if self.stints.len() == 0 || lengths.len() != self.stints.len() {
            return None;
        }
        let ghost texts = spec_texts(lengths@);
        let ghost heading = spec_heading(self.stints@[0]);
        let mut output = String::new();
        append_heading(&mut output, &self.stints[0]);
        assert(output@ =~= heading);
        let mut index: usize = 0;
        while index < self.stints.len()
            invariant
                index <= self.stints.len(),
                lengths.len() == self.stints.len(),
                texts == spec_texts(lengths@),
                output@ == heading + spec_sections(self.stops@, texts, index as nat),
            decreases self.stints.len() - index,
        {
            let ghost done = spec_sections(self.stops@, texts, index as nat);
            let number: u64 = (index + 1) as u64;
            append_stint_section(&mut output, number, lengths[index].as_str());
            let ghost stint_part = spec_stint_section(number as nat, texts[index as int]);
            let ghost stop_part = if index < self.stops.len() {
                spec_stop_section(number as nat, self.stops@[index as int])
            } else {
                Seq::<char>::empty()
            };
            if index < self.stops.len() {
                append_stop_section(&mut output, number, &self.stops[index]);
            }
            index = index + 1;
            proof {
                assert(spec_sections(self.stops@, texts, index as nat) == done + stint_part
                    + stop_part);
                assert(output@ =~= heading + (done + stint_part + stop_part));
            }
        }
        Some(output)
    }

    /// The strategy as text, with each stint's length as `humantime` writes
    /// it.
    pub fn as_discord_text(&self) -> (text: String)
        requires
            self.stints.len() >= 1,
        ensures
            text@ == spec_text(self.stints@, self.stops@, spec_lengths(self.stints@)),
    {
        let mut lengths: Vec<String> = Vec::new();
        let mut index: usize = 0;
        while index < self.stints.len()
            invariant
                index <= self.stints.len(),
                lengths.len() == index,
                forall|j: int|
                    0 <= j < index ==> lengths[j]@ == formatted_duration(self.stints[j].duration),
            decreases self.stints.len() - index,
        {
            lengths.push(format_duration(self.stints[index].duration));
            index = index + 1;
        }
        assert(spec_texts(lengths@) =~= spec_lengths(self.stints@));
        self.text_with_lengths(&lengths).unwrap()
    }
}

impl Strategy {
    /// The title of the kind of strategy.
    pub open spec fn spec_title(&self) -> Seq<char> {
        match self {
            Strategy::SingleStint(_) => "Single Stint"@,
            Strategy::LongStints(_) => "Longer Stints"@,
            Strategy::EqualStints(_) => "Equal Stints"@,
        }
    }

    /// The strategy as text, with each stint's length as `humantime` writes
    /// it.
    pub fn as_discord_text(&self) -> (text: String)
        requires
            self.stints().len() >= 1,
        ensures
            text@ == spec_text(self.stints(), self.stops(), spec_lengths(self.stints())),
    {
        match self {
            Strategy::SingleStint(inner) => inner.as_discord_text(),
            Strategy::LongStints(inner) => inner.as_discord_text(),
            Strategy::EqualStints(inner) => inner.as_discord_text(),
        }
    }

    /// The title of the kind of strategy.
    pub fn discord_title(&self) -> (title: &'static str)
        ensures
            title@ == self.spec_title(),
    {
        match self {
            Strategy::SingleStint(_) => "Single Stint",
            Strategy::LongStints(_) => "Longer Stints",
            Strategy::EqualStints(_) => "Equal Stints",
        }
    }
}

} // verus!
