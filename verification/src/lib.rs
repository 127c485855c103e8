//! Pit-stop and fuel planning for endurance races.
//!
//! A race is described by its length, the average lap time, the fuel burnt per
//! lap, the size of the tank and two optional rules: a number of mandatory
//! stops and a ceiling on the length of a stint. From these the planner derives
//! how many stints are needed and lays the race out as stints separated by
//! refuelling stops.
//!
//! All durations are whole seconds. Fuel per lap is an exact fraction, so every
//! rounding step is integer arithmetic with a stated direction.

pub mod arith;
pub mod fuel;
pub mod input;
pub mod request;
pub mod strategy;
pub mod text;
