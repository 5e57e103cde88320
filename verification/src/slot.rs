//! Days, periods and the errors of the slot notation.

use vstd::prelude::*;

verus! {

/// A weekday on which classes meet.
#[derive(Clone, Copy, Debug, PartialEq, Eq, Hash, Structural)]
pub enum Day {
    Monday,
    Tuesday,
    Wednesday,
    Thursday,
    Friday,
}

/// One slot of the week: a day and the number of a period on that day.
#[derive(Clone, Copy, Debug, PartialEq, Eq, Hash, Structural)]
pub struct Period(pub Day, pub u8);

/// Why a slot notation could not be turned into periods.
#[derive(Clone, Copy, Debug, PartialEq, Eq, Structural)]
pub enum ParseError {
    /// A day group holds a character other than `M`, `T`, `W`, `R`, `F`.
    UnknownDay(char),
    /// A period number is not a run of ASCII digits with a value of at most 255.
    BadPeriodNumber,
    /// A match lacks its day group or its first period number.
    IncompleteMatch,
    /// The regular expression engine rejected the pattern.
    BadPattern,
}

impl Day {
    /// The day that a character code stands for, if it stands for one.
    pub open spec fn spec_from_char(c: char) -> Option<Day> {
        if c == 'M' {
            Some(Day::Monday)
        } else if c == 'T' {
            Some(Day::Tuesday)
        } else if c == 'W' {
            Some(Day::Wednesday)
        } else if c == 'R' {
            Some(Day::Thursday)
        } else if c == 'F' {
            Some(Day::Friday)
        } else {
            None
        }
    }

    /// The position of the day in the week, Monday being 0.
    pub open spec fn spec_index(self) -> nat {
        match self {
            Day::Monday => 0,
            Day::Tuesday => 1,
            Day::Wednesday => 2,
            Day::Thursday => 3,
            Day::Friday => 4,
        }
    }

    /// The day at a position of the week, Monday being 0; positions past
    /// Friday have no day.
    pub open spec fn spec_from_index(i: nat) -> Option<Day> {
        if i == 0 {
            Some(Day::Monday)
        } else if i == 1 {
            Some(Day::Tuesday)
        } else if i == 2 {
            Some(Day::Wednesday)
        } else if i == 3 {
            Some(Day::Thursday)
        } else if i == 4 {
            Some(Day::Friday)
        } else {
            None
        }
    }

    /// Reads a day from its one-letter code: `M`, `T`, `W`, `R` (Thursday)
    /// or `F`. Any other character is reported as `UnknownDay`.
    pub fn from_char(c: char) -> (day: Result<Day, ParseError>)
        ensures
            day == match Day::spec_from_char(c) {
                Some(d) => Ok::<Day, ParseError>(d),
                None => Err::<Day, ParseError>(ParseError::UnknownDay(c)),
            },
    {
        match c {
            'M' => Ok(Day::Monday),
            'T' => Ok(Day::Tuesday),
            'W' => Ok(Day::Wednesday),
            'R' => Ok(Day::Thursday),
            'F' => Ok(Day::Friday),
            other => Err(ParseError::UnknownDay(other)),
        }
    }

    /// The position of the day in the week, Monday being 0.
    pub fn index(self) -> (i: u8)
        ensures
            i == self.spec_index(),
            i < 5,
    {
        match self {
            Day::Monday => 0,
            Day::Tuesday => 1,
            Day::Wednesday => 2,
            Day::Thursday => 3,
            Day::Friday => 4,
        }
    }

    /// The day at a position of the week, Monday being 0.
    pub fn from_index(i: u8) -> (day: Option<Day>)
        ensures
            day == Day::spec_from_index(i as nat),
    {
        match i {
            0 => Some(Day::Monday),
            1 => Some(Day::Tuesday),
            2 => Some(Day::Wednesday),
            3 => Some(Day::Thursday),
            4 => Some(Day::Friday),
            _ => None,
        }
    }

    /// The English name of the day.
    pub fn name(self) -> (name: &'static str)
        ensures
            name@ == self.spec_name(),
    {
        match self {
            Day::Monday => "Monday",
            Day::Tuesday => "Tuesday",
            Day::Wednesday => "Wednesday",
            Day::Thursday => "Thursday",
            Day::Friday => "Friday",
        }
    }

    /// The English name of the day.
    pub open spec fn spec_name(self) -> Seq<char> {
        match self {
            Day::Monday => "Monday"@,
            Day::Tuesday => "Tuesday"@,
            Day::Wednesday => "Wednesday"@,
            Day::Thursday => "Thursday"@,
            Day::Friday => "Friday"@,
        }
    }

    /// A day's position names that day and no other.
    pub proof fn lemma_index_round_trip(self)
        ensures
            Day::spec_from_index(self.spec_index()) == Some(self),
            self.spec_index() < 5,
    {
    }
}

impl Period {
    /// The day of the slot.
    pub fn day(&self) -> (d: Day)
        ensures
            d == self.0,
    {
        self.0
    }

    /// The period number of the slot.
    pub fn number(&self) -> (n: u8)
        ensures
            n == self.1,
    {
        self.1
    }
}

} // verus!
