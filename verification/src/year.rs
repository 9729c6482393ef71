//! The year model: the closed set of cohort-relative year bands, the intake
//! year each band implies, and the offset an event's band adds to the
//! attending person's intake year.

use vstd::prelude::*;
use crate::error::ImportError;

verus! {

/// A cohort-relative year band, in progression order.
#[derive(Copy, Clone, Debug, Hash, Eq, PartialEq, Structural)]
pub enum Year {
    _4,
    L5,
    U5,
    L6,
    U6,
}

impl Year {
    /// Calendar year in which a person of this band joined the school.
    pub open spec fn spec_join_year(self) -> int {
        match self {
            Year::_4 => 2022,
            Year::L5 => 2021,
            Year::U5 => 2020,
            Year::L6 => 2019,
            Year::U6 => 2018,
        }
    }

    /// Years after intake at which an event of this band takes place.
    pub open spec fn spec_offset(self) -> int {
        match self {
            Year::_4 => 0,
            Year::L5 => 1,
            Year::U5 => 2,
            Year::L6 => 3,
            Year::U6 => 4,
        }
    }

    /// Label put in front of an event's name when a display name is derived.
    pub open spec fn spec_prefix(self) -> Seq<char> {
        match self {
            Year::_4 => "4th"@,
            Year::L5 => "L5"@,
            Year::U5 => "U5"@,
            Year::L6 => "L6"@,
            Year::U6 => "U6"@,
        }
    }

    /// Position of this band in progression order.
    pub open spec fn spec_index(self) -> int {
        match self {
            Year::_4 => 0,
            Year::L5 => 1,
            Year::U5 => 2,
            Year::L6 => 3,
            Year::U6 => 4,
        }
    }

    /// The band at a given position of the progression.
    pub open spec fn spec_band_at(i: int) -> Year {
        if i == 0 {
            Year::_4
        } else if i == 1 {
            Year::L5
        } else if i == 2 {
            Year::U5
        } else if i == 3 {
            Year::L6
        } else {
            Year::U6
        }
    }

    /// Which band, if any, a raw form token denotes. Matching is exact:
    /// no case folding, no trimming.
    pub open spec fn spec_parse(s: Seq<char>) -> Option<Year> {
        if s == "4K"@ {
            Some(Year::_4)
        } else if s == "L5K"@ {
            Some(Year::L5)
        } else if s == "U5K"@ {
            Some(Year::U5)
        } else if s == "L6K"@ {
            Some(Year::L6)
        } else if s == "U6K"@ {
            Some(Year::U6)
        } else {
            None
        }
    }

    pub fn event_prefix(self) -> (r: &'static str)
        ensures
            r@ == self.spec_prefix(),
    {
        match self {
            Year::_4 => "4th",
            Year::L5 => "L5",
            Year::U5 => "U5",
            Year::L6 => "L6",
            Year::U6 => "U6",
        }
    }

    /// Absolute calendar year of an event: the attending person's intake
    /// year plus the event band's offset. Total over all band pairs.
    pub fn get_year(event_year: Self, person_year: Self) -> (r: usize)
        ensures
            r as int == person_year.spec_join_year() + event_year.spec_offset(),
    {
        let join_year: usize = match person_year {
            Year::_4 => 2022,
            Year::L5 => 2021,
            Year::U5 => 2020,
            Year::L6 => 2019,
            Year::U6 => 2018,
        };
        let offset: usize = match event_year {
            Year::_4 => 0,
            Year::L5 => 1,
            Year::U5 => 2,
            Year::L6 => 3,
            Year::U6 => 4,
        };
        join_year + offset
    }

    /// The band at a given position of the progression.
    pub fn band_at(i: usize) -> (r: Year)
        requires
            i <= 4,
        ensures
            r == Year::spec_band_at(i as int),
    {
        if i == 0 {
            Year::_4
        } else if i == 1 {
            Year::L5
        } else if i == 2 {
            Year::U5
        } else if i == 3 {
            Year::L6
        } else {
            Year::U6
        }
    }

    /// Parses a raw form token; rejects anything outside the closed set.
    pub fn parse(s: &str) -> (r: Result<Year, ImportError>)
        ensures
            match Self::spec_parse(s@) {
                Some(y) => r == Ok::<Year, ImportError>(y),
                None => match r {
                    Err(ImportError::InvalidYearBand(t)) => t@ == s@,
                    _ => false,
                },
            },
    {
        if crate::text::str_eq(s, "4K") {
            Ok(Year::_4)
        } else if crate::text::str_eq(s, "L5K") {
            Ok(Year::L5)
        } else if crate::text::str_eq(s, "U5K") {
            Ok(Year::U5)
        } else if crate::text::str_eq(s, "L6K") {
            Ok(Year::L6)
        } else if crate::text::str_eq(s, "U6K") {
            Ok(Year::U6)
        } else {
            Err(ImportError::InvalidYearBand(s.to_owned()))
        }
    }
}

/// Logical identity of an event: its name together with the year band its
/// column group belongs to. Two values with equal name and band denote the
/// same logical event wherever they were encountered.
#[derive(Clone, Debug, Eq, PartialEq, Hash)]
pub struct EventInfo {
    pub name: String,
    pub event_year: Year,
}

impl EventInfo {
    /// Model of the identity: the name's characters and the band.
    pub open spec fn model(&self) -> (Seq<char>, Year) {
        (self.name@, self.event_year)
    }

    /// Derived display name: "{band prefix} {name}".
    pub fn display_name(&self) -> (r: String)
        ensures
            r@ == self.event_year.spec_prefix() + " "@ + self.name@,
    {
        let mut s = String::new();
        s.append(self.event_year.event_prefix());
        s.append(" ");
        s.append(self.name.as_str());
        s
    }
}

} // verus!
