//! The day-type bucketer: departures tagged with a day type or a mask of
//! day bits become the seven weekday lists of a timetable.
//!
//! A time that cannot be read is left out; the times around it stay, in
//! their order.
use crate::models::database::{DatabaseTimetable, TimeOfDay, TimetableView};
use crate::models::ist::DayType;
use vstd::prelude::*;

verus! {

/// The days of the week.
#[derive(Clone, Copy, Debug, PartialEq, Eq, Structural)]
pub enum Weekday {
    Sunday,
    Monday,
    Tuesday,
    Wednesday,
    Thursday,
    Friday,
    Saturday,
}

/// The groups of days on which a departure runs. The groups do not exclude
/// each other.
#[derive(Clone, Copy, Debug, PartialEq, Eq, Structural)]
pub struct DaySet {
    /// Monday to Friday.
    pub weekdays: bool,
    pub saturday: bool,
    pub sunday: bool,
}

impl DaySet {
    /// Whether `day` belongs to one of the groups.
    pub open spec fn has(self, day: Weekday) -> bool {
        match day {
            Weekday::Sunday => self.sunday,
            Weekday::Saturday => self.saturday,
            _ => self.weekdays,
        }
    }

    /// Whether `day` belongs to one of the groups.
    pub fn contains(&self, day: Weekday) -> (r: bool)
        ensures
            r == self.has(day),
    {
        match day {
            Weekday::Sunday => self.sunday,
            Weekday::Saturday => self.saturday,
            _ => self.weekdays,
        }
    }
}

/// The bits of a day mask that stand for Monday to Friday.
pub const WEEKDAY_BITS: i32 = 0b0011111;

/// The bit of a day mask that stands for Saturday.
pub const SATURDAY_BIT: i32 = 0b0100000;

/// The bit of a day mask that stands for Sunday.
pub const SUNDAY_BIT: i32 = 0b1000000;

/// The days of a three-way day type: working days run Monday to Friday,
/// the two others on their one day.
pub open spec fn day_type_days(day_type: DayType) -> DaySet {
    match day_type {
        DayType::I => DaySet { weekdays: true, saturday: false, sunday: false },
        DayType::C => DaySet { weekdays: false, saturday: true, sunday: false },
        DayType::P => DaySet { weekdays: false, saturday: false, sunday: true },
    }
}

/// The days of a mask of day bits: each group is in when one of its bits is
/// set.
pub open spec fn mask_days(mask: i32) -> DaySet {
    DaySet {
        weekdays: mask & WEEKDAY_BITS != 0,
        saturday: mask & SATURDAY_BIT != 0,
        sunday: mask & SUNDAY_BIT != 0,
    }
}

/// The days of a three-way day type.
pub fn days_of_day_type(day_type: DayType) -> (days: DaySet)
    ensures
        days == day_type_days(day_type),
{
    match day_type {
        DayType::I => DaySet { weekdays: true, saturday: false, sunday: false },
        DayType::C => DaySet { weekdays: false, saturday: true, sunday: false },
        DayType::P => DaySet { weekdays: false, saturday: false, sunday: true },
    }
}

/// The days of a mask of day bits.
pub fn days_of_mask(mask: i32) -> (days: DaySet)
    ensures
        days == mask_days(mask),
{
    DaySet {
        weekdays: mask & WEEKDAY_BITS != 0,
        saturday: mask & SATURDAY_BIT != 0,
        sunday: mask & SUNDAY_BIT != 0,
    }
}

/// A working-day departure runs on Monday, Tuesday, Wednesday, Thursday and
/// Friday and on no other day; a Saturday departure on Saturday only; a
/// Sunday departure on Sunday only.
pub proof fn lemma_day_type_days(day_type: DayType, day: Weekday)
    ensures
        day_type_days(day_type).has(day) <==> match day_type {
            DayType::I => day != Weekday::Saturday && day != Weekday::Sunday,
            DayType::C => day == Weekday::Saturday,
            DayType::P => day == Weekday::Sunday,
        },
{
}

/// A mask with the Saturday bit alone runs on Saturday only, one with the
/// Sunday bit alone on Sunday only, and one with nothing but weekday bits,
/// at least one of them, on Monday to Friday only.
pub proof fn lemma_mask_days_single_group(mask: i32)
    ensures
        mask == SATURDAY_BIT ==> mask_days(mask) == (DaySet {
            weekdays: false,
            saturday: true,
            sunday: false,
        }),
        mask == SUNDAY_BIT ==> mask_days(mask) == (DaySet {
            weekdays: false,
            saturday: false,
            sunday: true,
        }),
        0 < mask <= WEEKDAY_BITS ==> mask_days(mask) == (DaySet {
            weekdays: true,
            saturday: false,
            sunday: false,
        }),
{
    assert(0b0100000i32 & 0b0011111i32 == 0 && 0b0100000i32 & 0b0100000i32 != 0 && 0b0100000i32
        & 0b1000000i32 == 0) by (bit_vector);
    assert(0b1000000i32 & 0b0011111i32 == 0 && 0b1000000i32 & 0b0100000i32 == 0 && 0b1000000i32
        & 0b1000000i32 != 0) by (bit_vector);
    assert(0 < mask <= 0b0011111i32 ==> mask & 0b0011111i32 != 0 && mask & 0b0100000i32 == 0
        && mask & 0b1000000i32 == 0) by (bit_vector);
}

/// One departure as it is bucketed: the time that was read, if any, and the
/// days on which it runs.
pub struct Departure {
    pub time: Option<TimeOfDay>,
    pub days: DaySet,
}

/// The times of one day after one more departure.
pub open spec fn with_departure(times: Seq<TimeOfDay>, departure: Departure, day: Weekday) -> Seq<
    TimeOfDay,
> {
    match departure.time {
        Some(t) => if departure.days.has(day) {
            times.push(t)
        } else {
            times
        },
        None => times,
    }
}

/// The timetable after one more departure: its time, if it was read, is at
/// the end of the list of each of its days.
pub open spec fn record(table: TimetableView, departure: Departure) -> TimetableView {
    TimetableView {
        route_long_name: table.route_long_name,
        route_code: table.route_code,
        city: table.city,
        sunday: with_departure(table.sunday, departure, Weekday::Sunday),
        monday: with_departure(table.monday, departure, Weekday::Monday),
        tuesday: with_departure(table.tuesday, departure, Weekday::Tuesday),
        wednesday: with_departure(table.wednesday, departure, Weekday::Wednesday),
        thursday: with_departure(table.thursday, departure, Weekday::Thursday),
        friday: with_departure(table.friday, departure, Weekday::Friday),
        saturday: with_departure(table.saturday, departure, Weekday::Saturday),
    }
}

/// The timetable of a route without departures.
pub open spec fn empty_timetable(route_code: Seq<char>, city: Seq<char>) -> TimetableView {
    TimetableView {
        route_long_name: None,
        route_code,
        city,
        sunday: Seq::empty(),
        monday: Seq::empty(),
        tuesday: Seq::empty(),
        wednesday: Seq::empty(),
        thursday: Seq::empty(),
        friday: Seq::empty(),
        saturday: Seq::empty(),
    }
}

/// The timetable of a route with the departures, in their order.
pub open spec fn timetable_of(route_code: Seq<char>, city: Seq<char>, departures: Seq<Departure>)
    -> TimetableView
    decreases departures.len(),
{
    if departures.len() == 0 {
        empty_timetable(route_code, city)
    } else {
        record(timetable_of(route_code, city, departures.drop_last()), departures.last())
    }
}

/// The times of the departures that were read and run on `day`, in order.
pub open spec fn times_on(departures: Seq<Departure>, day: Weekday) -> Seq<TimeOfDay>
    decreases departures.len(),
{
    if departures.len() == 0 {
        Seq::empty()
    } else {
        with_departure(times_on(departures.drop_last(), day), departures.last(), day)
    }
}

/// The list of a day in a timetable.
pub open spec fn day_list(table: TimetableView, day: Weekday) -> Seq<TimeOfDay> {
    match day {
        Weekday::Sunday => table.sunday,
        Weekday::Monday => table.monday,
        Weekday::Tuesday => table.tuesday,
        Weekday::Wednesday => table.wednesday,
        Weekday::Thursday => table.thursday,
        Weekday::Friday => table.friday,
        Weekday::Saturday => table.saturday,
    }
}

/// Each day's list holds exactly the times of the departures that run on
/// that day.
pub proof fn lemma_timetable_buckets(
    route_code: Seq<char>,
    city: Seq<char>,
    departures: Seq<Departure>,
    day: Weekday,
)
    ensures
        day_list(timetable_of(route_code, city, departures), day) == times_on(departures, day),
        timetable_of(route_code, city, departures).route_code == route_code,
        timetable_of(route_code, city, departures).city == city,
        timetable_of(route_code, city, departures).route_long_name == None::<Seq<char>>,
    decreases departures.len(),
{
    if departures.len() > 0 {
        lemma_timetable_buckets(route_code, city, departures.drop_last(), day);
    }
}

/// A departure whose time was not read changes nothing.
pub proof fn lemma_record_unread(table: TimetableView, days: DaySet)
    ensures
        record(table, Departure { time: None, days }) == table,
{
}

/// What `NaiveTime::from_str` of chrono makes of a text: the time of day, or
/// nothing where it reports an error.
pub uninterp spec fn naive_time_of(text: Seq<char>) -> Option<TimeOfDay>;

/// What `NaiveDateTime::parse_from_str` of chrono makes of a text under a
/// format: the time of day of the date and time, or nothing where it reports
/// an error.
pub uninterp spec fn naive_stamp_time_of(text: Seq<char>, format: Seq<char>) -> Option<TimeOfDay>;

/// `NaiveTime::from_str` of chrono. The result is a function of the text
/// alone; a time that it gives has fewer than 86 400 seconds and fewer than
/// two billion nanoseconds, as every `NaiveTime` has.
#[verifier::external_body]
fn parse_naive_time(text: &str) -> (r: Option<TimeOfDay>)
    ensures
        r == naive_time_of(text@),
        r matches Some(t) ==> t.valid(),
{
    match text.parse::<chrono::NaiveTime>() {
        Ok(t) => Some(
            TimeOfDay {
                secs: chrono::Timelike::num_seconds_from_midnight(&t),
                nanos: chrono::Timelike::nanosecond(&t),
            },
        ),
        Err(_) => None,
    }
}

/// `NaiveDateTime::parse_from_str` of chrono, and `NaiveDateTime::time` on
/// what it gives, for the one format of this library. The result is a
/// function of the text and the format alone; a time that it gives is
/// within the bounds of every `NaiveTime`.
#[verifier::external_body]
fn parse_naive_stamp(text: &str, format: &str) -> (r: Option<TimeOfDay>)
    requires
        format@ == stamp_format(),
    ensures
        r == naive_stamp_time_of(text@, format@),
        r matches Some(t) ==> t.valid(),
{
    match chrono::NaiveDateTime::parse_from_str(text, format) {
        Ok(stamp) => Some(
            TimeOfDay {
                secs: chrono::Timelike::num_seconds_from_midnight(&stamp.time()),
                nanos: chrono::Timelike::nanosecond(&stamp.time()),
            },
        ),
        Err(_) => None,
    }
}

/// The format of a date and time as Istanbul's authority writes it.
pub open spec fn stamp_format() -> Seq<char> {
    "%Y-%m-%d %H:%M:%S"@
}

/// The time of day that a text denotes once the two readings have been
/// made: the reading as a time of day where there is one, else the time of
/// the reading as a date and time.
pub open spec fn choose_time(time: Option<TimeOfDay>, stamp: Option<TimeOfDay>) -> Option<
    TimeOfDay,
> {
    match time {
        Some(t) => Some(t),
        None => stamp,
    }
}

/// The time of day that a text denotes: a time of day as such, or the time
/// of a date and time.
pub open spec fn time_of_text(text: Seq<char>) -> Option<TimeOfDay> {
    choose_time(naive_time_of(text), naive_stamp_time_of(text, stamp_format()))
}

/// Picks between the two readings of one text.
pub fn pick_time(time: Option<TimeOfDay>, stamp: Option<TimeOfDay>) -> (r: Option<TimeOfDay>)
    ensures
        r == choose_time(time, stamp),
{
    match time {
        Some(t) => Some(t),
        None => stamp,
    }
}

/// Reads a time of day, timezone-naive.
pub fn parse_time(text: &str) -> (r: Option<TimeOfDay>)
    ensures
        r == time_of_text(text@),
        r matches Some(t) ==> t.valid(),
{
    let time = parse_naive_time(text);
    match time {
        Some(_) => pick_time(time, None),
        None => {
            let stamp = parse_naive_stamp(text, "%Y-%m-%d %H:%M:%S");
            pick_time(time, stamp)
        },
    }
}

impl DatabaseTimetable {
    /// The timetable of a route without departures.
    pub fn new(route_code: String, city: String) -> (table: DatabaseTimetable)
        ensures
            table@ == empty_timetable(route_code@, city@),
    {
        DatabaseTimetable {
            route_long_name: None,
            route_code,
            city,
            sunday: Vec::new(),
            monday: Vec::new(),
            tuesday: Vec::new(),
            wednesday: Vec::new(),
            thursday: Vec::new(),
            friday: Vec::new(),
            saturday: Vec::new(),
        }
    }

    /// Puts a departure at the end of the list of each of its days.
    pub fn push(&mut self, time: Option<TimeOfDay>, days: DaySet)
        ensures
            final(self)@ == record(old(self)@, Departure { time, days }),
    {
        match time {
            Some(t) => {
                if days.weekdays {
                    self.monday.push(t);
                    self.tuesday.push(t);
                    self.wednesday.push(t);
                    self.thursday.push(t);
                    self.friday.push(t);
                }
                if days.saturday {
                    self.saturday.push(t);
                }
                if days.sunday {
                    self.sunday.push(t);
                }
            },
            None => {},
        }
    }
}

} // verus!
