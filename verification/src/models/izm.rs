//! What Izmir's transit authority sends.
use vstd::prelude::*;

verus! {

/// One line of the datastore.
#[derive(Clone, Debug)]
pub struct IzmLine {
    pub line_code: u32,
    pub line_name: String,
    pub line_start: String,
    pub line_end: String,
}

/// One page of the line list, and the number of records in the whole list.
#[derive(Clone, Debug)]
pub struct IzmLinesResult {
    pub records: Vec<IzmLine>,
    pub total: u32,
}

/// The answer of the datastore.
#[derive(Clone, Debug)]
pub struct IzmLinesResponse {
    pub result: IzmLinesResult,
}

/// The account of a login.
#[derive(Clone, Debug)]
pub struct IzmLoginBody {
    pub user_name: String,
    pub password: String,
}

/// The token that a login, or its exchange, gives.
#[derive(Clone, Debug)]
pub struct IzmLoginBodyData {
    pub token: String,
}

/// The answer to a login, and to the exchange of its token.
#[derive(Clone, Debug)]
pub struct IzmLoginBodyResponse {
    pub data: IzmLoginBodyData,
}

/// One hit of the search by name: the authority's own identifier of a line.
#[derive(Clone, Debug)]
pub struct IzmSearchResult {
    pub id: i32,
    pub name: String,
    pub code: String,
}

/// The answer of the search by name.
#[derive(Clone, Debug)]
pub struct IzmSearchResponse {
    pub data: Vec<IzmSearchResult>,
}

/// The details of a line: one entry for each direction.
#[derive(Clone, Debug)]
pub struct EshotLineResponse {
    pub data: Vec<EShotLineData>,
}

/// The direction of a route: outbound, inbound, or a ring.
#[derive(Clone, Copy, Debug, PartialEq, Eq, Structural)]
pub enum Direction {
    G,
    D,
    R,
}

impl Direction {
    /// The direction that the authority numbers `value`.
    pub open spec fn of(value: i32) -> Option<Direction> {
        if value == 1 {
            Some(Direction::G)
        } else if value == 2 {
            Some(Direction::D)
        } else if value == 3 {
            Some(Direction::R)
        } else {
            None
        }
    }

    /// The authority's number of this direction.
    pub open spec fn number(self) -> i32 {
        match self {
            Direction::G => 1,
            Direction::D => 2,
            Direction::R => 3,
        }
    }

    /// The letter that stands for the direction in a route code.
    pub open spec fn letter(self) -> char {
        match self {
            Direction::G => 'G',
            Direction::D => 'D',
            Direction::R => 'R',
        }
    }

    /// The letter that stands for the direction in a route code.
    pub fn to_letter(&self) -> (c: char)
        ensures
            c == self.letter(),
    {
        match self {
            Direction::G => 'G',
            Direction::D => 'D',
            Direction::R => 'R',
        }
    }
}

impl TryFrom<i32> for Direction {
    type Error = ();

    fn try_from(value: i32) -> (r: Result<Direction, ()>) {
        match value {
            1 => Ok(Direction::G),
            2 => Ok(Direction::D),
            3 => Ok(Direction::R),
            _ => Err(()),
        }
    }
}

impl vstd::std_specs::convert::TryFromSpecImpl<i32> for Direction {
    open spec fn obeys_try_from_spec() -> bool {
        true
    }

    open spec fn try_from_spec(value: i32) -> Result<Direction, ()> {
        match Direction::of(value) {
            Some(d) => Ok(d),
            None => Err(()),
        }
    }
}

/// Every direction is the direction of its own number.
pub proof fn lemma_direction_round_trip(d: Direction)
    ensures
        Direction::of(d.number()) == Some(d),
{
}

/// A station of a route. Both coordinates are decimal text.
#[derive(Clone, Debug)]
pub struct EshotLineStation {
    pub lat: String,
    pub lng: String,
    pub id: i32,
    pub name: String,
    pub code: String,
}

/// A departure: the time as text, and the days as a mask of bits.
#[derive(Clone, Debug)]
pub struct EshotTimetable {
    pub time: String,
    pub day: i32,
}

/// All that the authority says of one direction of a line.
#[derive(Clone, Debug)]
pub struct EShotLineData {
    pub direction: i32,
    pub tracks: Vec<String>,
    pub stations: Vec<EshotLineStation>,
    pub times: Vec<EshotTimetable>,
}

} // verus!
