//! Rows of the relational schema, each with its mathematical view.
//!
//! Every entity is scoped by `city`: a code is unique within a city only.
use vstd::prelude::*;

verus! {

/// A time of day without a time zone: whole seconds since midnight, and the
/// nanoseconds since that whole second (a billion or more during a leap
/// second).
#[derive(Clone, Copy, Debug, PartialEq, Eq, Structural)]
pub struct TimeOfDay {
    pub secs: u32,
    pub nanos: u32,
}

impl TimeOfDay {
    /// The values that denote a time of day.
    pub open spec fn valid(self) -> bool {
        self.secs < 86_400 && self.nanos < 2_000_000_000
    }
}

/// One point of a route's path. Both coordinates are decimal text.
#[derive(Clone, Debug)]
pub struct LatLng {
    pub lat: String,
    pub lng: String,
}

/// The view of a point.
pub struct LatLngView {
    pub lat: Seq<char>,
    pub lng: Seq<char>,
}

impl View for LatLng {
    type V = LatLngView;

    open spec fn view(&self) -> LatLngView {
        LatLngView { lat: self.lat@, lng: self.lng@ }
    }
}

impl DeepView for LatLng {
    type V = LatLngView;

    open spec fn deep_view(&self) -> LatLngView {
        self@
    }
}

/// A line as the store hands it back, with the identifier the store gave it.
#[derive(Clone, Debug)]
pub struct DatabaseLine {
    pub id: i32,
    pub code: String,
    pub title: String,
    pub city: String,
}

/// A named transit service. Identified by `(code, city)`.
#[derive(Clone, Debug)]
pub struct Line {
    pub code: String,
    pub title: String,
    pub city: String,
}

/// The view of a line.
pub struct LineView {
    pub code: Seq<char>,
    pub title: Seq<char>,
    pub city: Seq<char>,
}

impl View for Line {
    type V = LineView;

    open spec fn view(&self) -> LineView {
        LineView { code: self.code@, title: self.title@, city: self.city@ }
    }
}

impl DeepView for Line {
    type V = LineView;

    open spec fn deep_view(&self) -> LineView {
        self@
    }
}

/// One directional variant of a line's path. Identified by
/// `(route_code, city)`.
#[derive(Clone, Debug)]
pub struct DatabaseRoute {
    pub agency_id: Option<i32>,
    pub route_short_name: Option<String>,
    pub route_long_name: Option<String>,
    pub route_type: Option<i32>,
    pub route_desc: Option<String>,
    pub route_code: Option<String>,
    pub city: String,
}

/// The view of a route.
pub struct RouteView {
    pub agency_id: Option<i32>,
    pub route_short_name: Option<Seq<char>>,
    pub route_long_name: Option<Seq<char>>,
    pub route_type: Option<i32>,
    pub route_desc: Option<Seq<char>>,
    pub route_code: Option<Seq<char>>,
    pub city: Seq<char>,
}

impl View for DatabaseRoute {
    type V = RouteView;

    open spec fn view(&self) -> RouteView {
        RouteView {
            agency_id: self.agency_id,
            route_short_name: self.route_short_name.deep_view(),
            route_long_name: self.route_long_name.deep_view(),
            route_type: self.route_type,
            route_desc: self.route_desc.deep_view(),
            route_code: self.route_code.deep_view(),
            city: self.city@,
        }
    }
}

impl DeepView for DatabaseRoute {
    type V = RouteView;

    open spec fn deep_view(&self) -> RouteView {
        self@
    }
}

/// A boarding location. Identified by `(stop_code, city)`. The coordinates
/// are decimal text.
#[derive(Clone, Debug)]
pub struct Stop {
    pub stop_code: i32,
    pub stop_name: String,
    pub x_coord: String,
    pub y_coord: String,
    pub province: Option<String>,
    pub city: String,
}

/// The view of a stop.
pub struct StopView {
    pub stop_code: i32,
    pub stop_name: Seq<char>,
    pub x_coord: Seq<char>,
    pub y_coord: Seq<char>,
    pub province: Option<Seq<char>>,
    pub city: Seq<char>,
}

impl View for Stop {
    type V = StopView;

    open spec fn view(&self) -> StopView {
        StopView {
            stop_code: self.stop_code,
            stop_name: self.stop_name@,
            x_coord: self.x_coord@,
            y_coord: self.y_coord@,
            province: self.province.deep_view(),
            city: self.city@,
        }
    }
}

impl DeepView for Stop {
    type V = StopView;

    open spec fn deep_view(&self) -> StopView {
        self@
    }
}

/// The place of a stop on a route. Identified by
/// `(route_code, stop_code, city)`.
#[derive(Clone, Debug)]
pub struct LineStop {
    pub line_code: String,
    pub stop_code: i32,
    pub stop_order: Option<i32>,
    pub route_code: String,
    pub city: String,
}

/// The view of a line stop.
pub struct LineStopView {
    pub line_code: Seq<char>,
    pub stop_code: i32,
    pub stop_order: Option<i32>,
    pub route_code: Seq<char>,
    pub city: Seq<char>,
}

impl View for LineStop {
    type V = LineStopView;

    open spec fn view(&self) -> LineStopView {
        LineStopView {
            line_code: self.line_code@,
            stop_code: self.stop_code,
            stop_order: self.stop_order,
            route_code: self.route_code@,
            city: self.city@,
        }
    }
}

impl DeepView for LineStop {
    type V = LineStopView;

    open spec fn deep_view(&self) -> LineStopView {
        self@
    }
}

/// The polyline that a route's vehicles travel. Identified by
/// `(route_code, city)`.
#[derive(Clone, Debug)]
pub struct RoutePath {
    pub route_code: String,
    pub route_path: Vec<LatLng>,
    pub city: String,
}

/// The view of a route path.
pub struct RoutePathView {
    pub route_code: Seq<char>,
    pub route_path: Seq<LatLngView>,
    pub city: Seq<char>,
}

impl View for RoutePath {
    type V = RoutePathView;

    open spec fn view(&self) -> RoutePathView {
        RoutePathView {
            route_code: self.route_code@,
            route_path: self.route_path.deep_view(),
            city: self.city@,
        }
    }
}

impl DeepView for RoutePath {
    type V = RoutePathView;

    open spec fn deep_view(&self) -> RoutePathView {
        self@
    }
}

/// The departure times of a route, one ordered list per weekday. Identified
/// by `(route_code, city)`.
#[derive(Clone, Debug)]
pub struct DatabaseTimetable {
    pub route_long_name: Option<String>,
    pub route_code: String,
    pub city: String,
    pub sunday: Vec<TimeOfDay>,
    pub monday: Vec<TimeOfDay>,
    pub tuesday: Vec<TimeOfDay>,
    pub wednesday: Vec<TimeOfDay>,
    pub thursday: Vec<TimeOfDay>,
    pub friday: Vec<TimeOfDay>,
    pub saturday: Vec<TimeOfDay>,
}

/// The view of a timetable.
pub struct TimetableView {
    pub route_long_name: Option<Seq<char>>,
    pub route_code: Seq<char>,
    pub city: Seq<char>,
    pub sunday: Seq<TimeOfDay>,
    pub monday: Seq<TimeOfDay>,
    pub tuesday: Seq<TimeOfDay>,
    pub wednesday: Seq<TimeOfDay>,
    pub thursday: Seq<TimeOfDay>,
    pub friday: Seq<TimeOfDay>,
    pub saturday: Seq<TimeOfDay>,
}

impl View for DatabaseTimetable {
    type V = TimetableView;

    open spec fn view(&self) -> TimetableView {
        TimetableView {
            route_long_name: self.route_long_name.deep_view(),
            route_code: self.route_code@,
            city: self.city@,
            sunday: self.sunday@,
            monday: self.monday@,
            tuesday: self.tuesday@,
            wednesday: self.wednesday@,
            thursday: self.thursday@,
            friday: self.friday@,
            saturday: self.saturday@,
        }
    }
}

impl DeepView for DatabaseTimetable {
    type V = TimetableView;

    open spec fn deep_view(&self) -> TimetableView {
        self@
    }
}

/// A copy of an optional text.
pub fn copy_optional_text(text: &Option<String>) -> (r: Option<String>)
    ensures
        r.deep_view() == text.deep_view(),
{
    match text {
        Some(t) => Some(t.clone()),
        None => None,
    }
}

/// A copy of a list of times.
pub fn copy_times(times: &Vec<TimeOfDay>) -> (r: Vec<TimeOfDay>)
    ensures
        r@ == times@,
{
    let mut r: Vec<TimeOfDay> = Vec::new();
    let mut i: usize = 0;
    while i < times.len()
        invariant
            i <= times.len(),
            r@ =~= times@.take(i as int),
        decreases times.len() - i,
    {
        r.push(times[i]);
        i += 1;
    }
    assert(times@.take(i as int) =~= times@);
    r
}

/// A copy of a list of points.
pub fn copy_points(points: &Vec<LatLng>) -> (r: Vec<LatLng>)
    ensures
        r.deep_view() == points.deep_view(),
{
    let mut r: Vec<LatLng> = Vec::new();
    let mut i: usize = 0;
    while i < points.len()
        invariant
            i <= points.len(),
            r.deep_view() =~= points.deep_view().take(i as int),
        decreases points.len() - i,
    {
        let ghost before = r.deep_view();
        let p = LatLng { lat: points[i].lat.clone(), lng: points[i].lng.clone() };
        r.push(p);
        assert(r.deep_view() =~= before.push(points[i as int]@));
        i += 1;
    }
    assert(points.deep_view().take(i as int) =~= points.deep_view());
    r
}

impl Line {
    /// A copy of the row.
    pub fn duplicate(&self) -> (r: Line)
        ensures
            r@ == self@,
    {
        Line { code: self.code.clone(), title: self.title.clone(), city: self.city.clone() }
    }
}

impl DatabaseRoute {
    /// A copy of the row.
    pub fn duplicate(&self) -> (r: DatabaseRoute)
        ensures
            r@ == self@,
    {
        DatabaseRoute {
            agency_id: self.agency_id,
            route_short_name: copy_optional_text(&self.route_short_name),
            route_long_name: copy_optional_text(&self.route_long_name),
            route_type: self.route_type,
            route_desc: copy_optional_text(&self.route_desc),
            route_code: copy_optional_text(&self.route_code),
            city: self.city.clone(),
        }
    }
}

impl Stop {
    /// A copy of the row.
    pub fn duplicate(&self) -> (r: Stop)
        ensures
            r@ == self@,
    {
        Stop {
            stop_code: self.stop_code,
            stop_name: self.stop_name.clone(),
            x_coord: self.x_coord.clone(),
            y_coord: self.y_coord.clone(),
            province: copy_optional_text(&self.province),
            city: self.city.clone(),
        }
    }
}

impl LineStop {
    /// A copy of the row.
    pub fn duplicate(&self) -> (r: LineStop)
        ensures
            r@ == self@,
    {
        LineStop {
            line_code: self.line_code.clone(),
            stop_code: self.stop_code,
            stop_order: self.stop_order,
            route_code: self.route_code.clone(),
            city: self.city.clone(),
        }
    }
}

impl RoutePath {
    /// A copy of the row.
    pub fn duplicate(&self) -> (r: RoutePath)
        ensures
            r@ == self@,
    {
        RoutePath {
            route_code: self.route_code.clone(),
            route_path: copy_points(&self.route_path),
            city: self.city.clone(),
        }
    }
}

impl DatabaseTimetable {
    /// A copy of the row.
    pub fn duplicate(&self) -> (r: DatabaseTimetable)
        ensures
            r@ == self@,
    {
        DatabaseTimetable {
            route_long_name: copy_optional_text(&self.route_long_name),
            route_code: self.route_code.clone(),
            city: self.city.clone(),
            sunday: copy_times(&self.sunday),
            monday: copy_times(&self.monday),
            tuesday: copy_times(&self.tuesday),
            wednesday: copy_times(&self.wednesday),
            thursday: copy_times(&self.thursday),
            friday: copy_times(&self.friday),
            saturday: copy_times(&self.saturday),
        }
    }
}

} // verus!
