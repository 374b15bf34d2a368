//! What Istanbul's transit authority sends.
use vstd::prelude::*;

verus! {

/// The answer to a request for credentials.
#[derive(Clone, Debug)]
pub struct IstTokensResponse {
    pub access_token: String,
    pub token_type: String,
    pub expires_in: u64,
    pub refresh_token: String,
    pub expire_date: u64,
}

/// One route of a line, in one direction of travel.
#[derive(Clone, Debug)]
pub struct IstLineRoutesResponse {
    pub line_code: String,
    pub route_name: String,
    pub route_code: String,
}

/// Where a stop lies. Both coordinates are decimal text.
#[derive(Clone, Debug)]
pub struct StopGeoLocation {
    pub x: String,
    pub y: String,
}

/// One stop of a route, at its place on the route.
#[derive(Clone, Debug)]
pub struct IstLineStopsResponse {
    pub route_code: String,
    pub stop_order: i32,
    pub stop_name: String,
    pub stop_code: i32,
    pub stop_geo: StopGeoLocation,
    pub province: String,
}

/// Two stops of an answer are the same stop when their stop codes are the
/// same.
impl PartialEq for IstLineStopsResponse {
    fn eq(&self, other: &Self) -> (r: bool) {
        self.stop_code == other.stop_code
    }
}

impl vstd::std_specs::cmp::PartialEqSpecImpl for IstLineStopsResponse {
    open spec fn obeys_eq_spec() -> bool {
        true
    }

    open spec fn eq_spec(&self, other: &Self) -> bool {
        self.stop_code == other.stop_code
    }
}

/// A route's path as one text: `LINESTRING (..)` segments with `|` between
/// them.
#[derive(Clone, Debug)]
pub struct IstRoutePathResponse {
    pub line: String,
}

/// The days on which a departure runs: working days, Saturdays or Sundays.
#[derive(Clone, Copy, Debug, PartialEq, Eq, Structural)]
pub enum DayType {
    /// Monday to Friday.
    I,
    /// Saturday.
    C,
    /// Sunday.
    P,
}

/// One departure of a route.
#[derive(Clone, Debug)]
pub struct IstTimetableResponse {
    pub route_code: String,
    pub time: String,
    pub day_type: DayType,
}

/// What identifies a feature of the path snapshot.
#[derive(Clone, Debug)]
pub struct IstRoutePathGeoJsonProperties {
    pub route_code: String,
}

/// A `MultiLineString`: lines of positions, each position a list of
/// numbers, longitude first, as decimal text.
#[derive(Clone, Debug)]
pub struct IstRoutePathGeoJsonGeometry {
    pub coordinates: Vec<Vec<Vec<String>>>,
}

/// One fragment of the path of a route.
#[derive(Clone, Debug)]
pub struct IstRoutePathGeoJsonFeature {
    pub properties: IstRoutePathGeoJsonProperties,
    pub geometry: IstRoutePathGeoJsonGeometry,
}

/// The snapshot of all route paths.
#[derive(Clone, Debug)]
pub struct IstRoutePathGeoJson {
    pub features: Vec<IstRoutePathGeoJsonFeature>,
}

} // verus!
