//! Calendar values that fields decode to.
use vstd::prelude::*;

verus! {

/// A calendar date.
#[derive(Debug, Clone, Copy, PartialEq, Eq, Structural)]
pub struct Date {
    pub year: u16,
    pub month: u8,
    pub day: u8,
}

impl Date {
    pub fn new(year: u16, month: u8, day: u8) -> (r: Self)
        ensures
            r == (Date { year, month, day }),
    {
        Date { year, month, day }
    }
}

/// A time of day.
#[derive(Debug, Clone, Copy, PartialEq, Eq, Structural)]
pub struct Time {
    pub hour: u8,
    pub minute: u8,
    pub second: u8,
    pub millisecond: u16,
}

impl Time {
    pub fn new(hour: u8, minute: u8, second: u8, millisecond: u16) -> (r: Self)
        ensures
            r == (Time { hour, minute, second, millisecond }),
    {
        Time { hour, minute, second, millisecond }
    }
}

/// A date together with a time of day.
#[derive(Debug, Clone, Copy, PartialEq, Eq, Structural)]
pub struct Timestamp {
    pub date: Date,
    pub time: Time,
}

impl Timestamp {
    pub fn new(year: u16, month: u8, day: u8, hour: u8, minute: u8, second: u8, millisecond: u16) -> (r: Self)
        ensures
            r.date == (Date { year, month, day }),
            r.time == (Time { hour, minute, second, millisecond }),
    {
        Timestamp { date: Date { year, month, day }, time: Time { hour, minute, second, millisecond } }
    }
}

} // verus!
