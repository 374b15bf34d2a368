use transit_sync::models::database::{DatabaseTimetable, TimeOfDay};
use transit_sync::models::ist::DayType;
use transit_sync::timetable::{
    days_of_day_type, days_of_mask, parse_time, pick_time, DaySet, Weekday,
};

fn at(hours: u32, minutes: u32, seconds: u32) -> TimeOfDay {
    TimeOfDay { secs: hours * 3600 + minutes * 60 + seconds, nanos: 0 }
}

fn table() -> DatabaseTimetable {
    DatabaseTimetable::new("34A_G_D0".to_string(), "istanbul".to_string())
}

#[test]
fn times_of_day_are_read() {
    assert_eq!(parse_time("08:15:00"), Some(at(8, 15, 0)));
    assert_eq!(parse_time("23:59:59"), Some(at(23, 59, 59)));
    assert_eq!(parse_time("00:00:00"), Some(at(0, 0, 0)));
    assert_eq!(parse_time("06:05"), Some(at(6, 5, 0)));
    assert_eq!(parse_time("12:30:15.5"), Some(TimeOfDay { secs: 45015, nanos: 500_000_000 }));
}

#[test]
fn the_time_of_a_date_and_time_is_read() {
    assert_eq!(parse_time("2023-01-05 08:15:00"), Some(at(8, 15, 0)));
    assert_eq!(parse_time("2024-02-29 23:00:01"), Some(at(23, 0, 1)));
}

#[test]
fn unreadable_times_are_nothing() {
    assert_eq!(parse_time(""), None);
    assert_eq!(parse_time("bogus"), None);
    assert_eq!(parse_time("25:00:00"), None);
    assert_eq!(parse_time("08:61:00"), None);
    assert_eq!(parse_time("2023-13-01 08:15:00"), None);
    assert_eq!(parse_time("2023-02-30 08:15:00"), None);
}

#[test]
fn the_time_of_day_is_preferred() {
    assert_eq!(pick_time(Some(at(1, 0, 0)), Some(at(2, 0, 0))), Some(at(1, 0, 0)));
    assert_eq!(pick_time(None, Some(at(2, 0, 0))), Some(at(2, 0, 0)));
    assert_eq!(pick_time(Some(at(1, 0, 0)), None), Some(at(1, 0, 0)));
    assert_eq!(pick_time(None, None), None);
}

#[test]
fn day_types_are_three_ways() {
    assert_eq!(days_of_day_type(DayType::I), DaySet { weekdays: true, saturday: false, sunday: false });
    assert_eq!(days_of_day_type(DayType::C), DaySet { weekdays: false, saturday: true, sunday: false });
    assert_eq!(days_of_day_type(DayType::P), DaySet { weekdays: false, saturday: false, sunday: true });
}

#[test]
fn masks_are_read_by_groups_of_bits() {
    assert_eq!(days_of_mask(0), DaySet { weekdays: false, saturday: false, sunday: false });
    assert_eq!(days_of_mask(0b0100000), DaySet { weekdays: false, saturday: true, sunday: false });
    assert_eq!(days_of_mask(0b1000000), DaySet { weekdays: false, saturday: false, sunday: true });
    assert_eq!(days_of_mask(0b0000001), DaySet { weekdays: true, saturday: false, sunday: false });
    assert_eq!(days_of_mask(0b0010000), DaySet { weekdays: true, saturday: false, sunday: false });
    assert_eq!(days_of_mask(0b0011111), DaySet { weekdays: true, saturday: false, sunday: false });
    assert_eq!(days_of_mask(0b1100000), DaySet { weekdays: false, saturday: true, sunday: true });
    assert_eq!(days_of_mask(0b1111111), DaySet { weekdays: true, saturday: true, sunday: true });
    assert_eq!(days_of_mask(0b10000000), DaySet { weekdays: false, saturday: false, sunday: false });
}

#[test]
fn day_sets_hold_their_days() {
    let weekdays = DaySet { weekdays: true, saturday: false, sunday: false };
    for day in [Weekday::Monday, Weekday::Tuesday, Weekday::Wednesday, Weekday::Thursday, Weekday::Friday] {
        assert!(weekdays.contains(day));
    }
    assert!(!weekdays.contains(Weekday::Saturday));
    assert!(!weekdays.contains(Weekday::Sunday));
    let weekend = DaySet { weekdays: false, saturday: true, sunday: true };
    assert!(weekend.contains(Weekday::Saturday));
    assert!(weekend.contains(Weekday::Sunday));
    assert!(!weekend.contains(Weekday::Wednesday));
}

#[test]
fn a_weekday_time_is_in_the_five_weekday_buckets() {
    let mut t = table();
    t.push(parse_time("08:15:00"), days_of_day_type(DayType::I));
    let time = vec![at(8, 15, 0)];
    assert_eq!(t.monday, time);
    assert_eq!(t.tuesday, time);
    assert_eq!(t.wednesday, time);
    assert_eq!(t.thursday, time);
    assert_eq!(t.friday, time);
    assert!(t.saturday.is_empty());
    assert!(t.sunday.is_empty());
    assert_eq!(t.route_code, "34A_G_D0");
    assert_eq!(t.city, "istanbul");
    assert_eq!(t.route_long_name, None);
}

#[test]
fn a_saturday_mask_is_in_the_saturday_bucket_only() {
    let mut t = table();
    t.push(parse_time("09:00:00"), days_of_mask(0b0100000));
    assert_eq!(t.saturday, vec![at(9, 0, 0)]);
    assert!(t.sunday.is_empty());
    assert!(t.monday.is_empty());
    assert!(t.tuesday.is_empty());
    assert!(t.wednesday.is_empty());
    assert!(t.thursday.is_empty());
    assert!(t.friday.is_empty());
}

#[test]
fn saturday_and_sunday_types_have_one_bucket_each() {
    let mut t = table();
    t.push(Some(at(7, 0, 0)), days_of_day_type(DayType::C));
    t.push(Some(at(8, 0, 0)), days_of_day_type(DayType::P));
    assert_eq!(t.saturday, vec![at(7, 0, 0)]);
    assert_eq!(t.sunday, vec![at(8, 0, 0)]);
    assert!(t.monday.is_empty());
    assert!(t.friday.is_empty());
}

#[test]
fn unread_times_are_dropped_and_order_is_kept() {
    let mut t = table();
    t.push(Some(at(6, 0, 0)), days_of_mask(0b1111111));
    t.push(None, days_of_mask(0b1111111));
    t.push(Some(at(5, 0, 0)), days_of_mask(0b1000001));
    assert_eq!(t.monday, vec![at(6, 0, 0), at(5, 0, 0)]);
    assert_eq!(t.saturday, vec![at(6, 0, 0)]);
    assert_eq!(t.sunday, vec![at(6, 0, 0), at(5, 0, 0)]);
}
