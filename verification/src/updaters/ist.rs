//! Istanbul: the lines from a SOAP service, routes, stops and timetables
//! from a JSON service that is asked line by line, the route paths from a
//! snapshot file.
use crate::dedup::{
    distinct, first_indices, first_occurrences, key_texts, lemma_distinct_contains,
    lemma_distinct_no_duplicates, lemma_distinct_push, lemma_first_indices_are_first,
    lemma_first_indices_cover, lemma_first_indices_increase, position_of, positions,
};
use crate::geometry::{append_multiline, multiline_points, parse_wkt, wkt_points};
use crate::models::database::{
    DatabaseLine, DatabaseRoute, DatabaseTimetable, LatLng, LatLngView, Line, LineStop,
    LineStopView, LineView, RoutePath, RoutePathView, RouteView, Stop, StopView, TimetableView,
};
use crate::models::ist::{
    IstLineRoutesResponse, IstLineStopsResponse, IstRoutePathGeoJson, IstRoutePathGeoJsonFeature,
    IstRoutePathResponse, IstTimetableResponse, IstTokensResponse,
};
use crate::models::soap::BusLineSoap;
use crate::store::identified;
use crate::text::{trim, trimmed};
use crate::timetable::{
    day_type_days, days_of_day_type, empty_timetable, parse_time, record, time_of_text,
    timetable_of, Departure,
};
use crate::store::{upsert_all, Rows, Table};
use crate::updater::{
    append_effects, cursor_after, leaves, lemma_leaves_both, lemma_second_run_changes_nothing,
    lemma_write_leaves, lists, written, copy_fields, json_quote, json_text_of, push_sleep, push_write, AuthContext, Batch, BatchView,
    Effect, EffectView, Field, FieldView, HttpRequest, Method, RequestView, Source, Updater, Walk,
    authorization, write_unless_empty,
};
use vstd::prelude::*;
use vstd::string::*;

verus! {

/// Where the credentials are asked for.
pub const IST_TOKEN_URL: &'static str = "https://ntcapi.iett.istanbul/oauth2/v2/auth";

/// The JSON service of routes, stops and timetables.
pub const IST_SERVICE_URL: &'static str = "https://ntcapi.iett.istanbul/service";

/// The SOAP service of the lines.
pub const IST_LINES_URL: &'static str =
    "https://api.ibb.gov.tr/iett/UlasimAnaVeri/HatDurakGuzergah.asmx";

/// The envelope that asks for all lines.
pub const IST_LINES_ENVELOPE: &'static str =
    "<soap:Envelope xmlns:soap=\"http://schemas.xmlsoap.org/soap/envelope/\"><soap:Body><GetHat_json xmlns=\"http://tempuri.org/\"><HatKodu></HatKodu></GetHat_json></soap:Body></soap:Envelope>";

/// The seconds to pause after the routes of a line.
pub const IST_ROUTES_PAUSE: u64 = 5;

/// The seconds to pause after the stops, or the timetable, of a line.
pub const IST_LINE_PAUSE: u64 = 10;

/// The headers of every request to the JSON service.
pub open spec fn ist_base_headers() -> Seq<FieldView> {
    seq![
        FieldView { name: "Host"@, value: "ntcapi.iett.istanbul"@ },
        FieldView { name: "Content-Type"@, value: "application/json; charset=UTF-8"@ },
    ]
}

/// The body that asks for credentials, the client-credentials grant, from
/// the JSON texts of the client's identifier, secret and scope.
pub open spec fn ist_credentials_body(
    client_id: Seq<char>,
    client_secret: Seq<char>,
    scope: Seq<char>,
) -> Seq<char> {
    "{\"client_id\":"@ + client_id + ",\"client_secret\":"@ + client_secret
        + ",\"grant_type\":\"client_credentials\",\"scope\":"@ + scope + "}"@
}

/// The code of a direction of travel: the two directions are asked for one
/// after the other.
pub open spec fn ist_direction(step: int) -> Seq<char> {
    if step == 0 {
        "119"@
    } else {
        "120"@
    }
}

/// The body of a question about one direction of one line, from the JSON
/// text of the line's code.
pub open spec fn ist_directed_body(alias: Seq<char>, step: int, line_code: Seq<char>) -> Seq<
    char,
> {
    "{\"alias\":\""@ + alias + "\",\"data\":{\"HATYONETIM.GUZERGAH.YON\":"@ + ist_direction(step)
        + ",\"HATYONETIM.HAT.HAT_KODU\":"@ + line_code + "}}"@
}

/// The body of the question about the timetable of one line, from the
/// JSON text of the line's code.
pub open spec fn ist_timetable_body(line_code: Seq<char>) -> Seq<char> {
    "{\"alias\":\"akyolbilGetTimeTable\",\"data\":{\"HATYONETIM.GUZERGAH.HAT_KODU\":"@
        + line_code + "}}"@
}

/// A request to the JSON service.
pub open spec fn ist_service_request(headers: Seq<FieldView>, body: Seq<char>) -> RequestView {
    RequestView {
        method: Method::Post,
        url: IST_SERVICE_URL@,
        headers,
        query: Seq::empty(),
        body: Some(body),
    }
}

fn service_request(headers: &Vec<Field>, body: String) -> (r: HttpRequest)
    ensures
        r@ == ist_service_request(headers.deep_view(), body@),
{
    let r = HttpRequest {
        method: Method::Post,
        url: IST_SERVICE_URL.to_owned(),
        headers: copy_fields(headers),
        query: Vec::new(),
        body: Some(body),
    };
    assert(r.query.deep_view() =~= Seq::<FieldView>::empty());
    r
}

fn direction_code(step: usize) -> (r: &'static str)
    ensures
        r@ == ist_direction(step as int),
{
    if step == 0 {
        "119"
    } else {
        "120"
    }
}

/// Writes the body of a question about one direction of one line.
pub fn directed_body(alias: &str, step: usize, line_code: &str) -> (r: String)
    ensures
        r@ == ist_directed_body(alias@, step as int, line_code@),
{
    "{\"alias\":\"".to_owned().concat(alias).concat(
        "\",\"data\":{\"HATYONETIM.GUZERGAH.YON\":",
    ).concat(direction_code(step)).concat(",\"HATYONETIM.HAT.HAT_KODU\":").concat(
        line_code,
    ).concat("}}")
}

/// Writes the body of the question about the timetable of one line.
pub fn timetable_body(line_code: &str) -> (r: String)
    ensures
        r@ == ist_timetable_body(line_code@),
{
    "{\"alias\":\"akyolbilGetTimeTable\",\"data\":{\"HATYONETIM.GUZERGAH.HAT_KODU\":".to_owned().concat(
        line_code,
    ).concat("}}")
}

/// Writes the body that asks for credentials.
pub fn credentials_body(client_id: &str, client_secret: &str, scope: &str) -> (r: String)
    ensures
        r@ == ist_credentials_body(client_id@, client_secret@, scope@),
{
    "{\"client_id\":".to_owned().concat(client_id).concat(",\"client_secret\":").concat(
        client_secret,
    ).concat(",\"grant_type\":\"client_credentials\",\"scope\":").concat(scope).concat("}")
}

/// The request that asks for all lines.
pub open spec fn ist_lines_request() -> RequestView {
    RequestView {
        method: Method::Post,
        url: IST_LINES_URL@,
        headers: seq![
            FieldView { name: "Content-Type"@, value: "text/xml; charset=UTF-8"@ },
            FieldView { name: "SOAPAction"@, value: "\"http://tempuri.org/GetHat_json\""@ },
        ],
        query: Seq::empty(),
        body: Some(IST_LINES_ENVELOPE@),
    }
}

/// The row of a line of the list.
pub open spec fn ist_line_row(line: BusLineSoap) -> LineView {
    LineView { code: line.line_code@, title: line.line_name@, city: Source::Istanbul.city() }
}

/// The effects of the stage of the lines: one write of all lines.
pub open spec fn ist_lines_effects(lines: Seq<BusLineSoap>) -> Seq<EffectView> {
    write_unless_empty(BatchView::Lines(lines.map_values(|l: BusLineSoap| ist_line_row(l))))
}

/// The row of a route.
pub open spec fn ist_route_row(route: IstLineRoutesResponse) -> RouteView {
    RouteView {
        agency_id: Some(1i32),
        route_short_name: Some(route.line_code@),
        route_long_name: Some(trim(route.route_name@)),
        route_type: Some(3i32),
        route_desc: None,
        route_code: Some(route.route_code@),
        city: Source::Istanbul.city(),
    }
}

/// The rows of the routes of an answer.
pub open spec fn ist_route_rows(routes: Seq<IstLineRoutesResponse>) -> Seq<RouteView> {
    routes.map_values(|r: IstLineRoutesResponse| ist_route_row(r))
}

/// Every route that the stage of the routes writes has a code.
pub proof fn lemma_ist_routes_identified(routes: Seq<IstLineRoutesResponse>)
    ensures
        forall|k: int|
            0 <= k < routes.len() ==> identified(
                #[trigger] BatchView::Routes(ist_route_rows(routes)).rows()[k],
            ),
{
}

/// The pause that follows the last answer for a line.
pub open spec fn pause_after(last: bool, seconds: u64) -> Seq<EffectView> {
    if last {
        seq![EffectView::Sleep(seconds)]
    } else {
        Seq::empty()
    }
}

/// The effects of an answer about the routes of one direction of a line:
/// the write of the routes, and after the second direction a pause.
pub open spec fn ist_routes_effects(routes: Seq<IstLineRoutesResponse>, last: bool) -> Seq<
    EffectView,
> {
    write_unless_empty(BatchView::Routes(ist_route_rows(routes))) + pause_after(
        last,
        IST_ROUTES_PAUSE,
    )
}

/// Appends the pause that follows the last answer for a line.
pub fn push_pause(effects: &mut Vec<Effect>, last: bool, seconds: u64)
    ensures
        final(effects).deep_view() == old(effects).deep_view() + pause_after(last, seconds),
{
    let ghost before = effects.deep_view();
    if last {
        push_sleep(effects, seconds);
    } else {
        assert(effects.deep_view() =~= before + Seq::<EffectView>::empty());
    }
}

/// The updater of Istanbul: the headers that its JSON service asks for.
#[derive(Debug)]
pub struct IstUpdater {
    pub headers: Vec<Field>,
}

impl Updater for IstUpdater {
    open spec fn source_of(&self) -> Source {
        Source::Istanbul
    }

    fn source(&self) -> (s: Source) {
        Source::Istanbul
    }
}

impl IstUpdater {
    /// The updater, with the headers of the JSON service.
    pub fn new() -> (updater: IstUpdater)
        ensures
            updater.headers.deep_view() == ist_base_headers(),
    {
        let mut headers: Vec<Field> = Vec::new();
        headers.push(Field::new("Host", "ntcapi.iett.istanbul"));
        headers.push(Field::new("Content-Type", "application/json; charset=UTF-8"));
        assert(headers.deep_view() =~= ist_base_headers());
        IstUpdater { headers }
    }

    /// The request that exchanges the client's identifier, secret and scope
    /// for a token.
    pub fn credentials_request(&self, client_id: &str, client_secret: &str, scope: &str) -> (r:
        HttpRequest)
        ensures
            r@ == (RequestView {
                method: Method::Post,
                url: IST_TOKEN_URL@,
                headers: self.headers.deep_view(),
                query: Seq::empty(),
                body: Some(
                    ist_credentials_body(
                        json_text_of(client_id@),
                        json_text_of(client_secret@),
                        json_text_of(scope@),
                    ),
                ),
            }),
    {
        let id = json_quote(client_id);
        let secret = json_quote(client_secret);
        let quoted_scope = json_quote(scope);
        let body = credentials_body(id.as_str(), secret.as_str(), quoted_scope.as_str());
        let r = HttpRequest {
            method: Method::Post,
            url: IST_TOKEN_URL.to_owned(),
            headers: copy_fields(&self.headers),
            query: Vec::new(),
            body: Some(body),
        };
        assert(r.query.deep_view() =~= Seq::<FieldView>::empty());
        r
    }

    /// The context of all later requests: the headers of the updater, and
    /// the token that was granted as a bearer token.
    pub fn get_credentials(&self, tokens: &IstTokensResponse) -> (context: AuthContext)
        ensures
            context@ == self.headers.deep_view().push(authorization(tokens.access_token@)),
    {
        AuthContext::issue(&self.headers, tokens.access_token.as_str())
    }

    /// The request that asks for all lines.
    pub fn lines_request(&self) -> (r: HttpRequest)
        ensures
            r@ == ist_lines_request(),
    {
        let mut headers: Vec<Field> = Vec::new();
        headers.push(Field::new("Content-Type", "text/xml; charset=UTF-8"));
        headers.push(Field::new("SOAPAction", "\"http://tempuri.org/GetHat_json\""));
        let r = HttpRequest {
            method: Method::Post,
            url: IST_LINES_URL.to_owned(),
            headers,
            query: Vec::new(),
            body: Some(IST_LINES_ENVELOPE.to_owned()),
        };
        assert(r.query.deep_view() =~= Seq::<FieldView>::empty());
        assert(r.headers.deep_view() =~= ist_lines_request().headers);
        r
    }

    /// The stage of the lines: every line of the list becomes a row.
    pub fn insert_lines(&self, bus_lines: &Vec<BusLineSoap>) -> (effects: Vec<Effect>)
        ensures
            effects.deep_view() == ist_lines_effects(bus_lines@),
    {
        let mut rows: Vec<Line> = Vec::new();
        let mut i: usize = 0;
        let ghost wanted = bus_lines@.map_values(|l: BusLineSoap| ist_line_row(l));
        while i < bus_lines.len()
            invariant
                i <= bus_lines.len(),
                wanted == bus_lines@.map_values(|l: BusLineSoap| ist_line_row(l)),
                rows.deep_view() =~= wanted.take(i as int),
            decreases bus_lines.len() - i,
        {
            let ghost before = rows.deep_view();
            let row = Line {
                code: bus_lines[i].line_code.clone(),
                title: bus_lines[i].line_name.clone(),
                city: Source::Istanbul.city_name(),
            };
            rows.push(row);
            assert(rows.deep_view() =~= before.push(wanted[i as int]));
            i += 1;
        }
        assert(wanted.take(i as int) =~= wanted);
        let mut effects: Vec<Effect> = Vec::new();
        push_write(&mut effects, Batch::Lines(rows));
        assert(effects.deep_view() =~= ist_lines_effects(bus_lines@));
        effects
    }

    /// The stage of the routes, for the lines that the store holds for
    /// Istanbul in the order of their codes.
    pub fn insert_routes(&self, auth: &AuthContext, lines: Vec<DatabaseLine>) -> (stage:
        IstRoutesSync)
        ensures
            stage.headers() == auth@,
            stage.walk().lines() == lines@,
            stage.walk().line() == 0,
            stage.walk().step() == 0,
            stage.walk().steps() == 2,
    {
        IstRoutesSync { walk: Walk::new(lines, 2), headers: auth.headers() }
    }

    /// Where the geometry of this run comes from.
    pub fn route_paths_source(&self, cache_present: bool) -> (source: GeometrySource)
        ensures
            source == geometry_source(cache_present),
    {
        if cache_present {
            GeometrySource::Cache
        } else {
            GeometrySource::Download
        }
    }

    /// The request that downloads the snapshot of all route paths.
    pub fn snapshot_request(&self) -> (r: HttpRequest)
        ensures
            r@ == ist_snapshot_request(),
    {
        let r = HttpRequest {
            method: Method::Get,
            url: IST_SNAPSHOT_URL.to_owned(),
            headers: Vec::new(),
            query: Vec::new(),
            body: None,
        };
        assert(r.query.deep_view() =~= Seq::<FieldView>::empty());
        assert(r.headers.deep_view() =~= Seq::<FieldView>::empty());
        r
    }

    /// The stage of the route paths: the routes of the snapshot that the
    /// store does not hold yet for Istanbul, each with the points of all
    /// its features. Routes of other cities among `routes` exclude
    /// nothing.
    pub fn insert_route_paths(&self, routes: &Vec<DatabaseRoute>, geojson: &IstRoutePathGeoJson)
        -> (effects: Vec<Effect>)
        ensures
            effects.deep_view() == ist_route_paths_effects(routes@, geojson.features@),
    {
        let mut effects: Vec<Effect> = Vec::new();
        push_write(&mut effects, Batch::RoutePaths(route_path_rows(routes, &geojson.features)));
        assert(effects.deep_view() =~= ist_route_paths_effects(routes@, geojson.features@));
        effects
    }

    /// The path of a route as the live service sends it.
    pub fn route_path_of(&self, route_code: &str, response: &IstRoutePathResponse) -> (path:
        RoutePath)
        ensures
            path@ == ist_wkt_route_path(route_code@, response.line@),
    {
        RoutePath {
            route_code: route_code.to_owned(),
            route_path: parse_wkt(response.line.as_str()),
            city: Source::Istanbul.city_name(),
        }
    }

    /// The stage of the stops, for the lines that the store holds for
    /// Istanbul in the order of their codes.
    pub fn insert_line_stops(&self, auth: &AuthContext, lines: Vec<DatabaseLine>) -> (stage:
        IstStopsSync)
        ensures
            stage.headers() == auth@,
            stage.walk().lines() == lines@,
            stage.walk().line() == 0,
            stage.walk().step() == 0,
            stage.walk().steps() == 2,
    {
        IstStopsSync { walk: Walk::new(lines, 2), headers: auth.headers() }
    }

    /// The stage of the timetables, for the lines that the store holds for
    /// Istanbul in the order of their codes.
    pub fn insert_timetable(&self, auth: &AuthContext, lines: Vec<DatabaseLine>) -> (stage:
        IstTimetableSync)
        ensures
            stage.headers() == auth@,
            stage.walk().lines() == lines@,
            stage.walk().line() == 0,
            stage.walk().step() == 0,
            stage.walk().steps() == 1,
    {
        IstTimetableSync { walk: Walk::new(lines, 1), headers: auth.headers() }
    }
}

/// The stage of the routes: for every line two questions, one for each
/// direction of travel, and a pause after the second answer.
pub struct IstRoutesSync {
    walk: Walk,
    headers: Vec<Field>,
}

impl IstRoutesSync {
    /// How far the stage has come.
    pub closed spec fn walk(&self) -> Walk {
        self.walk
    }

    /// The headers of its requests.
    pub closed spec fn headers(&self) -> Seq<FieldView> {
        self.headers.deep_view()
    }

    /// The request to make next; none when all lines are done.
    pub fn next_request(&self) -> (r: Option<HttpRequest>)
        ensures
            match r {
                Some(request) => !self.walk().finished() && request@ == ist_service_request(
                    self.headers(),
                    ist_directed_body(
                        "mainGetLine_basic"@,
                        self.walk().step(),
                        json_text_of(self.walk().lines()[self.walk().line()].code@),
                    ),
                ),
                None => self.walk().finished(),
            },
    {
        match self.walk.current() {
            Some(line) => {
                let quoted = json_quote(line.code.as_str());
                let body = directed_body("mainGetLine_basic", self.walk.current_step(), quoted.as_str());
                Some(service_request(&self.headers, body))
            },
            None => None,
        }
    }

    /// Takes the answer to the last request and says what to do before the
    /// next one.
    pub fn on_response(&mut self, routes: &Vec<IstLineRoutesResponse>) -> (effects: Vec<Effect>)
        ensures
            final(self).headers() == old(self).headers(),
            final(self).walk().follows(&old(self).walk()),
            effects.deep_view() == if old(self).walk().finished() {
                Seq::<EffectView>::empty()
            } else {
                ist_routes_effects(
                    routes@,
                    old(self).walk().step() + 1 == old(self).walk().steps(),
                )
            },
    {
        let mut effects: Vec<Effect> = Vec::new();
        if self.walk.is_finished() {
            self.walk.advance();
            assert(effects.deep_view() =~= Seq::<EffectView>::empty());
            return effects;
        }
        let rows = route_rows(routes);
        push_write(&mut effects, Batch::Routes(rows));
        let last = self.walk.advance();
        push_pause(&mut effects, last, IST_ROUTES_PAUSE);
        assert(effects.deep_view() =~= ist_routes_effects(routes@, last));
        effects
    }
}

fn route_rows(routes: &Vec<IstLineRoutesResponse>) -> (rows: Vec<DatabaseRoute>)
    ensures
        rows.deep_view() == routes@.map_values(|r: IstLineRoutesResponse| ist_route_row(r)),
{
    let mut rows: Vec<DatabaseRoute> = Vec::new();
    let mut i: usize = 0;
    let ghost wanted = routes@.map_values(|r: IstLineRoutesResponse| ist_route_row(r));
    while i < routes.len()
        invariant
            i <= routes.len(),
            wanted == routes@.map_values(|r: IstLineRoutesResponse| ist_route_row(r)),
            rows.deep_view() =~= wanted.take(i as int),
        decreases routes.len() - i,
    {
        let ghost before = rows.deep_view();
        let row = DatabaseRoute {
            agency_id: Some(1),
            route_short_name: Some(routes[i].line_code.clone()),
            route_long_name: Some(trimmed(routes[i].route_name.as_str())),
            route_type: Some(3),
            route_desc: None,
            route_code: Some(routes[i].route_code.clone()),
            city: Source::Istanbul.city_name(),
        };
        rows.push(row);
        assert(rows.deep_view() =~= before.push(wanted[i as int]));
        i += 1;
    }
    assert(wanted.take(i as int) =~= wanted);
    rows
}

// ---------------------------------------------------------------------------
// Stops
// ---------------------------------------------------------------------------

/// The stop codes of a list of stops, in order.
pub open spec fn ist_stop_codes(stops: Seq<IstLineStopsResponse>) -> Seq<i32> {
    stops.map_values(|s: IstLineStopsResponse| s.stop_code)
}

/// The stops that are kept: of each stop code the first occurrence, in the
/// order of the answer.
pub open spec fn ist_kept_stops(stops: Seq<IstLineStopsResponse>) -> Seq<IstLineStopsResponse> {
    first_indices(ist_stop_codes(stops)).map_values(|i: int| stops[i])
}

/// The place of a stop on its route.
pub open spec fn ist_line_stop_row(line_code: Seq<char>, stop: IstLineStopsResponse)
    -> LineStopView {
    LineStopView {
        line_code,
        stop_code: stop.stop_code,
        stop_order: Some(stop.stop_order),
        route_code: stop.route_code@,
        city: Source::Istanbul.city(),
    }
}

/// The row of a stop.
pub open spec fn ist_stop_row(stop: IstLineStopsResponse) -> StopView {
    StopView {
        stop_code: stop.stop_code,
        stop_name: stop.stop_name@,
        x_coord: stop.stop_geo.x@,
        y_coord: stop.stop_geo.y@,
        province: Some(stop.province@),
        city: Source::Istanbul.city(),
    }
}

/// The line stops that an answer gives.
pub open spec fn ist_line_stop_rows(line_code: Seq<char>, stops: Seq<IstLineStopsResponse>) -> Seq<
    LineStopView,
> {
    ist_kept_stops(stops).map_values(|s: IstLineStopsResponse| ist_line_stop_row(line_code, s))
}

/// The stops that an answer gives.
pub open spec fn ist_stop_rows(stops: Seq<IstLineStopsResponse>) -> Seq<StopView> {
    ist_kept_stops(stops).map_values(|s: IstLineStopsResponse| ist_stop_row(s))
}

/// The effects of an answer about the stops of one direction of a line:
/// the write of the line stops, then that of the stops, both without
/// repeated stop codes, and after the second direction a pause. An answer
/// without stops writes nothing.
pub open spec fn ist_stops_effects(
    line_code: Seq<char>,
    stops: Seq<IstLineStopsResponse>,
    last: bool,
) -> Seq<EffectView> {
    write_unless_empty(BatchView::LineStops(ist_line_stop_rows(line_code, stops)))
        + write_unless_empty(BatchView::Stops(ist_stop_rows(stops))) + pause_after(
        last,
        IST_LINE_PAUSE,
    )
}

/// Whatever the answer holds, the batches of the stops and of the line
/// stops hold every stop code of the answer once and no other: no two rows
/// share a stop code, each row is made of the first stop of the answer with
/// its stop code, and the rows keep the order of the answer.
pub proof fn lemma_ist_stops_deduplicated(line_code: Seq<char>, stops: Seq<IstLineStopsResponse>)
    ensures
        ist_line_stop_rows(line_code, stops).len() == ist_stop_rows(stops).len(),
        ist_stop_rows(stops).len() == first_indices(ist_stop_codes(stops)).len(),
        forall|k1: int, k2: int|
            0 <= k1 < k2 < ist_stop_rows(stops).len() ==> (#[trigger] ist_stop_rows(
                stops,
            )[k1]).stop_code != (#[trigger] ist_stop_rows(stops)[k2]).stop_code,
        forall|i: int|
            0 <= i < stops.len() ==> exists|k: int|
                0 <= k < ist_stop_rows(stops).len() && (#[trigger] ist_stop_rows(
                    stops,
                )[k]).stop_code == (#[trigger] stops[i]).stop_code,
        forall|k: int|
            0 <= k < ist_stop_rows(stops).len() ==> {
                let i = first_indices(ist_stop_codes(stops))[k];
                &&& 0 <= i < stops.len()
                &&& #[trigger] ist_stop_rows(stops)[k] == ist_stop_row(stops[i])
                &&& ist_line_stop_rows(line_code, stops)[k] == ist_line_stop_row(
                    line_code,
                    stops[i],
                )
                &&& forall|j: int| 0 <= j < i ==> (#[trigger] stops[j]).stop_code != stops[i].stop_code
            },
        forall|k1: int, k2: int|
            0 <= k1 < k2 < first_indices(ist_stop_codes(stops)).len() ==> first_indices(
                ist_stop_codes(stops),
            )[k1] < first_indices(ist_stop_codes(stops))[k2],
{
    let codes = ist_stop_codes(stops);
    let fi = first_indices(codes);
    lemma_first_indices_increase(codes);
    lemma_first_indices_are_first(codes);
    let rows = ist_stop_rows(stops);
    assert forall|k1: int, k2: int| 0 <= k1 < k2 < rows.len() implies (#[trigger] rows[k1]).stop_code
        != (#[trigger] rows[k2]).stop_code by {
        assert(fi[k1] < fi[k2]);
        assert(codes[fi[k1]] != codes[fi[k2]]);
    }
    assert forall|i: int| 0 <= i < stops.len() implies exists|k: int|
        0 <= k < rows.len() && (#[trigger] rows[k]).stop_code == (#[trigger] stops[i]).stop_code by {
        lemma_first_indices_cover(codes, i);
        let k = choose|k: int|
            0 <= k < fi.len() && 0 <= #[trigger] fi[k] <= i && codes[fi[k]] == codes[i];
        assert(rows[k].stop_code == stops[i].stop_code);
    }
    assert forall|k: int| 0 <= k < rows.len() implies {
        let i = fi[k];
        &&& 0 <= i < stops.len()
        &&& #[trigger] rows[k] == ist_stop_row(stops[i])
        &&& ist_line_stop_rows(line_code, stops)[k] == ist_line_stop_row(line_code, stops[i])
        &&& forall|j: int| 0 <= j < i ==> (#[trigger] stops[j]).stop_code != stops[i].stop_code
    } by {
        let i = fi[k];
        assert forall|j: int| 0 <= j < i implies (#[trigger] stops[j]).stop_code
            != stops[i].stop_code by {
            assert(codes[j] != codes[fi[k]]);
        }
    }
}

fn stop_codes(stops: &Vec<IstLineStopsResponse>) -> (codes: Vec<i32>)
    ensures
        codes@ == ist_stop_codes(stops@),
{
    let mut codes: Vec<i32> = Vec::new();
    let mut i: usize = 0;
    while i < stops.len()
        invariant
            i <= stops.len(),
            codes@ =~= ist_stop_codes(stops@).take(i as int),
        decreases stops.len() - i,
    {
        codes.push(stops[i].stop_code);
        i += 1;
    }
    assert(ist_stop_codes(stops@).take(i as int) =~= ist_stop_codes(stops@));
    codes
}

fn stops_effects(line_code: &String, stops: &Vec<IstLineStopsResponse>, last: bool) -> (effects:
    Vec<Effect>)
    ensures
        effects.deep_view() == ist_stops_effects(line_code@, stops@, last),
{
    let codes = stop_codes(stops);
    let kept = first_occurrences(&codes);
    let ghost fi = first_indices(ist_stop_codes(stops@));
    let ghost wanted_line_stops = ist_line_stop_rows(line_code@, stops@);
    let ghost wanted_stops = ist_stop_rows(stops@);
    proof {
        lemma_first_indices_increase(ist_stop_codes(stops@));
    }
    let mut line_stops: Vec<LineStop> = Vec::new();
    let mut rows: Vec<Stop> = Vec::new();
    let mut k: usize = 0;
    while k < kept.len()
        invariant
            k <= kept.len(),
            positions(kept@) == fi,
            fi == first_indices(ist_stop_codes(stops@)),
            forall|j: int| 0 <= j < fi.len() ==> 0 <= #[trigger] fi[j] < stops.len(),
            wanted_line_stops == ist_line_stop_rows(line_code@, stops@),
            wanted_stops == ist_stop_rows(stops@),
            line_stops.deep_view() =~= wanted_line_stops.take(k as int),
            rows.deep_view() =~= wanted_stops.take(k as int),
        decreases kept.len() - k,
    {
        let i = kept[k];
        assert(positions(kept@)[k as int] == i);
        assert(0 <= fi[k as int] < stops.len());
        let stop = &stops[i];
        let ghost before_line_stops = line_stops.deep_view();
        let ghost before_rows = rows.deep_view();
        line_stops.push(
            LineStop {
                line_code: line_code.clone(),
                stop_code: stop.stop_code,
                stop_order: Some(stop.stop_order),
                route_code: stop.route_code.clone(),
                city: Source::Istanbul.city_name(),
            },
        );
        rows.push(
            Stop {
                stop_code: stop.stop_code,
                stop_name: stop.stop_name.clone(),
                x_coord: stop.stop_geo.x.clone(),
                y_coord: stop.stop_geo.y.clone(),
                province: Some(stop.province.clone()),
                city: Source::Istanbul.city_name(),
            },
        );
        assert(line_stops.deep_view() =~= before_line_stops.push(wanted_line_stops[k as int]));
        assert(rows.deep_view() =~= before_rows.push(wanted_stops[k as int]));
        k += 1;
    }
    assert(wanted_line_stops.take(k as int) =~= wanted_line_stops);
    assert(wanted_stops.take(k as int) =~= wanted_stops);
    let mut effects: Vec<Effect> = Vec::new();
    push_write(&mut effects, Batch::LineStops(line_stops));
    push_write(&mut effects, Batch::Stops(rows));
    push_pause(&mut effects, last, IST_LINE_PAUSE);
    assert(effects.deep_view() =~= ist_stops_effects(line_code@, stops@, last));
    effects
}

/// The stage of the stops: for every line two questions, one for each
/// direction of travel, and a pause after the second answer.
pub struct IstStopsSync {
    walk: Walk,
    headers: Vec<Field>,
}

impl IstStopsSync {
    /// How far the stage has come.
    pub closed spec fn walk(&self) -> Walk {
        self.walk
    }

    /// The headers of its requests.
    pub closed spec fn headers(&self) -> Seq<FieldView> {
        self.headers.deep_view()
    }

    /// The request to make next; none when all lines are done.
    pub fn next_request(&self) -> (r: Option<HttpRequest>)
        ensures
            match r {
                Some(request) => !self.walk().finished() && request@ == ist_service_request(
                    self.headers(),
                    ist_directed_body(
                        "mainGetRoute"@,
                        self.walk().step(),
                        json_text_of(self.walk().lines()[self.walk().line()].code@),
                    ),
                ),
                None => self.walk().finished(),
            },
    {
        match self.walk.current() {
            Some(line) => {
                let quoted = json_quote(line.code.as_str());
                let body = directed_body("mainGetRoute", self.walk.current_step(), quoted.as_str());
                Some(service_request(&self.headers, body))
            },
            None => None,
        }
    }

    /// Takes the answer to the last request and says what to do before the
    /// next one.
    pub fn on_response(&mut self, stops: &Vec<IstLineStopsResponse>) -> (effects: Vec<Effect>)
        ensures
            final(self).headers() == old(self).headers(),
            final(self).walk().follows(&old(self).walk()),
            effects.deep_view() == if old(self).walk().finished() {
                Seq::<EffectView>::empty()
            } else {
                ist_stops_effects(
                    old(self).walk().lines()[old(self).walk().line()].code@,
                    stops@,
                    old(self).walk().step() + 1 == old(self).walk().steps(),
                )
            },
    {
        let code = match self.walk.current() {
            Some(line) => line.code.clone(),
            None => {
                self.walk.advance();
                let effects: Vec<Effect> = Vec::new();
                assert(effects.deep_view() =~= Seq::<EffectView>::empty());
                return effects;
            },
        };
        let last = self.walk.advance();
        stops_effects(&code, stops, last)
    }
}

// ---------------------------------------------------------------------------
// Timetables
// ---------------------------------------------------------------------------

/// The route codes of a list of departures, in order.
pub open spec fn ist_route_codes(records: Seq<IstTimetableResponse>) -> Seq<Seq<char>> {
    records.map_values(|r: IstTimetableResponse| r.route_code@)
}

/// A departure as the timetable of a route sees it: with its time where
/// it is a departure of that route and its time can be read, without a
/// time else.
pub open spec fn ist_departure(record: IstTimetableResponse, route_code: Seq<char>) -> Departure {
    Departure {
        time: if record.route_code@ == route_code {
            time_of_text(record.time@)
        } else {
            None
        },
        days: day_type_days(record.day_type),
    }
}

/// The departures of an answer as the timetable of a route sees them.
pub open spec fn ist_departures(records: Seq<IstTimetableResponse>, route_code: Seq<char>) -> Seq<
    Departure,
> {
    records.map_values(|r: IstTimetableResponse| ist_departure(r, route_code))
}

/// The timetable of one route of an answer.
pub open spec fn ist_timetable(records: Seq<IstTimetableResponse>, route_code: Seq<char>)
    -> TimetableView {
    timetable_of(route_code, Source::Istanbul.city(), ist_departures(records, route_code))
}

/// The timetables that an answer gives: one for each route code, in the
/// order in which the route codes first occur.
pub open spec fn ist_timetables(records: Seq<IstTimetableResponse>) -> Seq<TimetableView> {
    distinct(ist_route_codes(records)).map_values(|code: Seq<char>| ist_timetable(records, code))
}

/// The effects of an answer about the timetable of a line: the write of
/// the timetables of its routes, and a pause.
pub open spec fn ist_timetable_effects(records: Seq<IstTimetableResponse>) -> Seq<EffectView> {
    write_unless_empty(BatchView::Timetables(ist_timetables(records))) + pause_after(
        true,
        IST_LINE_PAUSE,
    )
}

proof fn lemma_ist_timetable_absent(records: Seq<IstTimetableResponse>, route_code: Seq<char>)
    requires
        !ist_route_codes(records).contains(route_code),
    ensures
        ist_timetable(records, route_code) == empty_timetable(route_code, Source::Istanbul.city()),
    decreases records.len(),
{
    let departures = ist_departures(records, route_code);
    if records.len() > 0 {
        let rest = records.drop_last();
        assert(ist_departures(rest, route_code) =~= departures.drop_last());
        assert forall|j: int| 0 <= j < ist_route_codes(rest).len() implies ist_route_codes(rest)[j]
            != route_code by {
            assert(ist_route_codes(records)[j] == ist_route_codes(rest)[j]);
        }
        lemma_ist_timetable_absent(rest, route_code);
        assert(ist_route_codes(records)[records.len() - 1] != route_code);
        assert(departures.last().time is None);
    }
}

proof fn lemma_ist_timetable_push(
    records: Seq<IstTimetableResponse>,
    next: IstTimetableResponse,
    route_code: Seq<char>,
)
    ensures
        ist_timetable(records.push(next), route_code) == record(
            ist_timetable(records, route_code),
            ist_departure(next, route_code),
        ),
{
    let longer = ist_departures(records.push(next), route_code);
    assert(longer.drop_last() =~= ist_departures(records, route_code));
    assert(longer.last() == ist_departure(next, route_code));
}

/// The timetables of an answer.
pub fn timetable_rows(records: &Vec<IstTimetableResponse>) -> (tables: Vec<DatabaseTimetable>)
    ensures
        tables.deep_view() == ist_timetables(records@),
{
    let mut tables: Vec<DatabaseTimetable> = Vec::new();
    let mut keys: Vec<String> = Vec::new();
    let mut i: usize = 0;
    proof {
        assert(records@.take(0) =~= Seq::<IstTimetableResponse>::empty());
        assert(ist_route_codes(records@.take(0)) =~= Seq::<Seq<char>>::empty());
        assert(key_texts(keys@) =~= distinct(ist_route_codes(records@.take(0))));
    }
    while i < records.len()
        invariant
            i <= records.len(),
            tables.len() == keys.len(),
            key_texts(keys@) =~= distinct(ist_route_codes(records@.take(i as int))),
            forall|g: int|
                0 <= g < tables.len() ==> (#[trigger] tables[g])@ == ist_timetable(
                    records@.take(i as int),
                    keys[g]@,
                ),
        decreases records.len() - i,
    {
        let entry = &records[i];
        let ghost prefix = records@.take(i as int);
        let ghost next = records@.take(i + 1);
        let ghost code = entry.route_code@;
        let time = parse_time(entry.time.as_str());
        let days = days_of_day_type(entry.day_type);
        proof {
            assert(next =~= prefix.push(*entry));
            assert(ist_route_codes(next) =~= ist_route_codes(prefix).push(code));
            lemma_distinct_push(ist_route_codes(prefix), code);
            lemma_distinct_contains(ist_route_codes(prefix), code);
            lemma_distinct_no_duplicates(ist_route_codes(prefix));
            assert forall|g: int| 0 <= g < keys.len() implies ist_timetable(next, keys[g]@)
                == record(ist_timetable(prefix, keys[g]@), ist_departure(*entry, keys[g]@)) by {
                lemma_ist_timetable_push(prefix, *entry, keys[g]@);
            }
            assert forall|g: int| 0 <= g < keys.len() implies key_texts(keys@)[g] == (
            #[trigger] keys[g])@ by {}
        }
        match position_of(&keys, &entry.route_code) {
            Some(found) => {
                let ghost before = tables@;
                tables[found].push(time, days);
                proof {
                    assert(ist_route_codes(prefix).contains(code)) by {
                        assert(key_texts(keys@)[found as int] == code);
                    }
                    assert forall|g: int| 0 <= g < tables.len() implies (#[trigger] tables[g])@
                        == ist_timetable(next, keys[g]@) by {
                        if g != found {
                            assert(tables[g] == before[g]);
                            assert(key_texts(keys@)[g] != key_texts(keys@)[found as int]);
                        }
                    }
                }
            },
            None => {
                let ghost before = tables@;
                let ghost before_keys = keys@;
                let mut table = DatabaseTimetable::new(
                    entry.route_code.clone(),
                    Source::Istanbul.city_name(),
                );
                table.push(time, days);
                tables.push(table);
                keys.push(entry.route_code.clone());
                proof {
                    lemma_ist_timetable_absent(prefix, code);
                    lemma_ist_timetable_push(prefix, *entry, code);
                    assert(key_texts(keys@) =~= key_texts(before_keys).push(code));
                    assert forall|g: int| 0 <= g < tables.len() implies (#[trigger] tables[g])@
                        == ist_timetable(next, keys[g]@) by {
                        if g < before.len() {
                            assert(tables[g] == before[g]);
                            assert(keys[g] == before_keys[g]);
                            assert(key_texts(before_keys)[g] != code);
                        }
                    }
                }
            },
        }
        i += 1;
    }
    proof {
        assert(records@.take(i as int) =~= records@);
        assert forall|g: int| 0 <= g < keys.len() implies key_texts(keys@)[g] == (
        #[trigger] keys[g])@ by {}
        assert(tables.deep_view() =~= ist_timetables(records@));
    }
    tables
}

/// The stage of the timetables: for every line one question, and a pause
/// after the answer.
pub struct IstTimetableSync {
    walk: Walk,
    headers: Vec<Field>,
}

impl IstTimetableSync {
    /// How far the stage has come.
    pub closed spec fn walk(&self) -> Walk {
        self.walk
    }

    /// The headers of its requests.
    pub closed spec fn headers(&self) -> Seq<FieldView> {
        self.headers.deep_view()
    }

    /// The request to make next; none when all lines are done.
    pub fn next_request(&self) -> (r: Option<HttpRequest>)
        ensures
            match r {
                Some(request) => !self.walk().finished() && request@ == ist_service_request(
                    self.headers(),
                    ist_timetable_body(
                        json_text_of(self.walk().lines()[self.walk().line()].code@),
                    ),
                ),
                None => self.walk().finished(),
            },
    {
        match self.walk.current() {
            Some(line) => {
                let quoted = json_quote(line.code.as_str());
                let body = timetable_body(quoted.as_str());
                Some(service_request(&self.headers, body))
            },
            None => None,
        }
    }

    /// Takes the answer to the last request and says what to do before the
    /// next one.
    pub fn on_response(&mut self, records: &Vec<IstTimetableResponse>) -> (effects: Vec<Effect>)
        ensures
            final(self).headers() == old(self).headers(),
            final(self).walk().follows(&old(self).walk()),
            effects.deep_view() == if old(self).walk().finished() {
                Seq::<EffectView>::empty()
            } else {
                ist_timetable_effects(records@)
            },
    {
        let mut effects: Vec<Effect> = Vec::new();
        if self.walk.is_finished() {
            self.walk.advance();
            assert(effects.deep_view() =~= Seq::<EffectView>::empty());
            return effects;
        }
        self.walk.advance();
        push_write(&mut effects, Batch::Timetables(timetable_rows(records)));
        push_pause(&mut effects, true, IST_LINE_PAUSE);
        assert(effects.deep_view() =~= ist_timetable_effects(records@));
        effects
    }
}

// ---------------------------------------------------------------------------
// Route paths
// ---------------------------------------------------------------------------

/// Where the snapshot of all route paths is published.
pub const IST_SNAPSHOT_URL: &'static str =
    "https://data.ibb.gov.tr/dataset/b48d2095-851c-413c-8d36-87d2310a22b5/resource/4ccb4d29-c2b6-414a-b324-d2c9962b18e2/download/iett-hat-guzergahlar.geojson";

/// Where the snapshot is kept once it has been downloaded.
pub const IST_SNAPSHOT_FILE: &'static str = "./data/path.geojson";

/// The directory of the snapshot.
pub const IST_SNAPSHOT_DIRECTORY: &'static str = "./data";

/// Where the geometry of a run comes from. The choice is made once, when
/// the stage starts.
#[derive(Clone, Copy, Debug, PartialEq, Eq, Structural)]
pub enum GeometrySource {
    /// The snapshot that an earlier run has kept.
    Cache,
    /// The published snapshot, which is downloaded and kept.
    Download,
}

/// The kept snapshot is preferred; it is downloaded only where none is
/// kept.
pub open spec fn geometry_source(cache_present: bool) -> GeometrySource {
    if cache_present {
        GeometrySource::Cache
    } else {
        GeometrySource::Download
    }
}

/// The request that downloads the snapshot.
pub open spec fn ist_snapshot_request() -> RequestView {
    RequestView {
        method: Method::Get,
        url: IST_SNAPSHOT_URL@,
        headers: Seq::empty(),
        query: Seq::empty(),
        body: None,
    }
}

/// Whether a route is the route of Istanbul with this code. A route of
/// another city is another route, whatever its code.
pub open spec fn is_route_of_istanbul(route: DatabaseRoute, code: Seq<char>) -> bool {
    route.route_code.deep_view() == Some(code) && route.city@ == Source::Istanbul.city()
}

/// Whether the store holds a route of Istanbul with this code.
pub open spec fn known_route(routes: Seq<DatabaseRoute>, code: Seq<char>) -> bool {
    exists|j: int| 0 <= j < routes.len() && is_route_of_istanbul(#[trigger] routes[j], code)
}

/// A route of another city excludes nothing: whether a code is known does
/// not depend on the routes of other cities.
pub proof fn lemma_other_cities_exclude_nothing(
    routes: Seq<DatabaseRoute>,
    other: DatabaseRoute,
    code: Seq<char>,
)
    requires
        other.city@ != Source::Istanbul.city(),
    ensures
        known_route(routes.push(other), code) == known_route(routes, code),
{
    let longer = routes.push(other);
    if known_route(longer, code) {
        let j = choose|j: int| 0 <= j < longer.len() && is_route_of_istanbul(
            #[trigger] longer[j],
            code,
        );
        assert(j < routes.len());
        assert(routes[j] == longer[j]);
    }
    if known_route(routes, code) {
        let j = choose|j: int| 0 <= j < routes.len() && is_route_of_istanbul(
            #[trigger] routes[j],
            code,
        );
        assert(longer[j] == routes[j]);
    }
}

/// The route codes of the features whose route the store does not hold for
/// Istanbul,
/// in order.
pub open spec fn fresh_codes(routes: Seq<DatabaseRoute>, features: Seq<IstRoutePathGeoJsonFeature>)
    -> Seq<Seq<char>>
    decreases features.len(),
{
    if features.len() == 0 {
        Seq::empty()
    } else {
        let before = fresh_codes(routes, features.drop_last());
        let code = features.last().properties.route_code@;
        if known_route(routes, code) {
            before
        } else {
            before.push(code)
        }
    }
}

/// The points of a route: those of its features, one feature after the
/// other.
pub open spec fn feature_points(features: Seq<IstRoutePathGeoJsonFeature>, code: Seq<char>) -> Seq<
    LatLngView,
>
    decreases features.len(),
{
    if features.len() == 0 {
        Seq::empty()
    } else {
        let before = feature_points(features.drop_last(), code);
        if features.last().properties.route_code@ == code {
            before + multiline_points(features.last().geometry.coordinates.deep_view())
        } else {
            before
        }
    }
}

/// The path of one route of the snapshot.
pub open spec fn ist_route_path(features: Seq<IstRoutePathGeoJsonFeature>, code: Seq<char>)
    -> RoutePathView {
    RoutePathView {
        route_code: code,
        route_path: feature_points(features, code),
        city: Source::Istanbul.city(),
    }
}

/// The route paths that the snapshot gives: one for each route that the
/// store does not hold yet for Istanbul, in the order in which the routes
/// first occur.
pub open spec fn ist_route_paths(
    routes: Seq<DatabaseRoute>,
    features: Seq<IstRoutePathGeoJsonFeature>,
) -> Seq<RoutePathView> {
    distinct(fresh_codes(routes, features)).map_values(
        |code: Seq<char>| ist_route_path(features, code),
    )
}

/// The effects of the stage of the route paths: one write of all paths.
pub open spec fn ist_route_paths_effects(
    routes: Seq<DatabaseRoute>,
    features: Seq<IstRoutePathGeoJsonFeature>,
) -> Seq<EffectView> {
    write_unless_empty(BatchView::RoutePaths(ist_route_paths(routes, features)))
}

/// The path of a route that the live service sends as well-known text.
pub open spec fn ist_wkt_route_path(route_code: Seq<char>, line: Seq<char>) -> RoutePathView {
    RoutePathView { route_code, route_path: wkt_points(line), city: Source::Istanbul.city() }
}

proof fn lemma_fresh_codes(
    routes: Seq<DatabaseRoute>,
    features: Seq<IstRoutePathGeoJsonFeature>,
    code: Seq<char>,
)
    ensures
        fresh_codes(routes, features).contains(code) <==> !known_route(routes, code) && exists|
            j: int,
        |
            0 <= j < features.len() && (#[trigger] features[j]).properties.route_code@ == code,
    decreases features.len(),
{
    if features.len() > 0 {
        let rest = features.drop_last();
        let last = features.last();
        lemma_fresh_codes(routes, rest, code);
        let before = fresh_codes(routes, rest);
        let all = fresh_codes(routes, features);
        if all.contains(code) {
            let k = choose|k: int| 0 <= k < all.len() && all[k] == code;
            if k < before.len() {
                assert(before[k] == code);
                let j = choose|j: int|
                    0 <= j < rest.len() && (#[trigger] rest[j]).properties.route_code@ == code;
                assert(features[j].properties.route_code@ == code);
            } else {
                assert(features[features.len() - 1].properties.route_code@ == code);
            }
        }
        if !known_route(routes, code) && exists|j: int|
            0 <= j < features.len() && (#[trigger] features[j]).properties.route_code@ == code {
            let j = choose|j: int|
                0 <= j < features.len() && (#[trigger] features[j]).properties.route_code@ == code;
            if j < rest.len() {
                assert(rest[j].properties.route_code@ == code);
                let k = choose|k: int| 0 <= k < before.len() && before[k] == code;
                assert(all[k] == code);
            } else {
                assert(all[all.len() - 1] == code);
            }
        }
    }
}

proof fn lemma_feature_points_absent(features: Seq<IstRoutePathGeoJsonFeature>, code: Seq<char>)
    requires
        forall|j: int|
            0 <= j < features.len() ==> (#[trigger] features[j]).properties.route_code@ != code,
    ensures
        feature_points(features, code) == Seq::<LatLngView>::empty(),
    decreases features.len(),
{
    if features.len() > 0 {
        let rest = features.drop_last();
        assert forall|j: int| 0 <= j < rest.len() implies (#[trigger] rest[j]).properties.route_code@
            != code by {
            assert(rest[j] == features[j]);
        }
        lemma_feature_points_absent(rest, code);
        assert(features[features.len() - 1].properties.route_code@ != code);
    }
}

fn is_known_route(routes: &Vec<DatabaseRoute>, code: &String) -> (r: bool)
    ensures
        r == known_route(routes@, code@),
{
    let city = Source::Istanbul.city_name();
    let mut j: usize = 0;
    while j < routes.len()
        invariant
            j <= routes.len(),
            city@ == Source::Istanbul.city(),
            forall|k: int| 0 <= k < j ==> !is_route_of_istanbul(#[trigger] routes[k], code@),
        decreases routes.len() - j,
    {
        match &routes[j].route_code {
            Some(route_code) => {
                if *route_code == *code && routes[j].city == city {
                    assert(is_route_of_istanbul(routes[j as int], code@));
                    return true;
                }
            },
            None => {},
        }
        j += 1;
    }
    false
}

/// The route paths of a snapshot.
pub fn route_path_rows(routes: &Vec<DatabaseRoute>, features: &Vec<IstRoutePathGeoJsonFeature>)
    -> (paths: Vec<RoutePath>)
    ensures
        paths.deep_view() == ist_route_paths(routes@, features@),
{
    let mut paths: Vec<RoutePath> = Vec::new();
    let mut keys: Vec<String> = Vec::new();
    let mut i: usize = 0;
    proof {
        assert(features@.take(0) =~= Seq::<IstRoutePathGeoJsonFeature>::empty());
        assert(key_texts(keys@) =~= distinct(fresh_codes(routes@, features@.take(0))));
    }
    while i < features.len()
        invariant
            i <= features.len(),
            paths.len() == keys.len(),
            key_texts(keys@) =~= distinct(fresh_codes(routes@, features@.take(i as int))),
            forall|g: int|
                0 <= g < paths.len() ==> (#[trigger] paths[g])@ == ist_route_path(
                    features@.take(i as int),
                    keys[g]@,
                ),
        decreases features.len() - i,
    {
        let feature = &features[i];
        let ghost prefix = features@.take(i as int);
        let ghost next = features@.take(i + 1);
        let ghost code = feature.properties.route_code@;
        let ghost fresh = fresh_codes(routes@, prefix);
        proof {
            assert(next.drop_last() =~= prefix);
            assert(next.last() == *feature);
            lemma_distinct_push(fresh, code);
            lemma_distinct_contains(fresh, code);
            lemma_distinct_no_duplicates(fresh);
            assert forall|g: int| 0 <= g < keys.len() implies key_texts(keys@)[g] == (
            #[trigger] keys[g])@ by {}
            assert forall|g: int| 0 <= g < keys.len() implies !known_route(
                routes@,
                (#[trigger] keys[g])@,
            ) by {
                assert(distinct(fresh).contains(key_texts(keys@)[g]));
                lemma_distinct_contains(fresh, keys[g]@);
                lemma_fresh_codes(routes@, prefix, keys[g]@);
            }
        }
        if is_known_route(routes, &feature.properties.route_code) {
            proof {
                assert forall|g: int| 0 <= g < paths.len() implies (#[trigger] paths[g])@
                    == ist_route_path(next, keys[g]@) by {
                    assert(!known_route(routes@, keys[g]@));
                }
            }
        } else {
            match position_of(&keys, &feature.properties.route_code) {
                Some(found) => {
                    let ghost before = paths@;
                    append_multiline(&mut paths[found].route_path, &feature.geometry.coordinates);
                    proof {
                        assert(fresh.contains(code)) by {
                            assert(key_texts(keys@)[found as int] == code);
                        }
                        assert forall|g: int| 0 <= g < paths.len() implies (#[trigger] paths[g])@
                            == ist_route_path(next, keys[g]@) by {
                            if g != found {
                                assert(paths[g] == before[g]);
                                assert(key_texts(keys@)[g] != key_texts(keys@)[found as int]);
                            }
                        }
                    }
                },
                None => {
                    let ghost before = paths@;
                    let ghost before_keys = keys@;
                    let mut points: Vec<LatLng> = Vec::new();
                    append_multiline(&mut points, &feature.geometry.coordinates);
                    paths.push(
                        RoutePath {
                            route_code: feature.properties.route_code.clone(),
                            route_path: points,
                            city: Source::Istanbul.city_name(),
                        },
                    );
                    keys.push(feature.properties.route_code.clone());
                    proof {
                        lemma_fresh_codes(routes@, prefix, code);
                        assert forall|j: int| 0 <= j < prefix.len() implies (
                        #[trigger] prefix[j]).properties.route_code@ != code by {}
                        lemma_feature_points_absent(prefix, code);
                        assert(key_texts(keys@) =~= key_texts(before_keys).push(code));
                        assert forall|g: int| 0 <= g < paths.len() implies (#[trigger] paths[g])@
                            == ist_route_path(next, keys[g]@) by {
                            if g < before.len() {
                                assert(paths[g] == before[g]);
                                assert(keys[g] == before_keys[g]);
                                assert(key_texts(before_keys)[g] != code);
                            } else {
                                assert(paths[g]@.route_path =~= feature_points(next, code));
                            }
                        }
                    }
                },
            }
        }
        i += 1;
    }
    proof {
        assert(features@.take(i as int) =~= features@);
        assert forall|g: int| 0 <= g < keys.len() implies key_texts(keys@)[g] == (
        #[trigger] keys[g])@ by {}
        assert(paths.deep_view() =~= ist_route_paths(routes@, features@));
    }
    paths
}

// ---------------------------------------------------------------------------
// Whole runs
// ---------------------------------------------------------------------------

/// The effects of a whole run of the stage of the routes: those of the
/// answers, in the order in which they arrive. Answers that arrive after
/// the last line have no effect.
pub open spec fn ist_routes_run(
    lines: Seq<DatabaseLine>,
    answers: Seq<Seq<IstLineRoutesResponse>>,
) -> Seq<EffectView>
    decreases answers.len(),
{
    if answers.len() == 0 {
        Seq::empty()
    } else {
        let before = answers.drop_last();
        let (line, step) = cursor_after(lines.len() as int, 2, before.len());
        ist_routes_run(lines, before) + if line >= lines.len() {
            Seq::<EffectView>::empty()
        } else {
            ist_routes_effects(answers.last(), step + 1 == 2)
        }
    }
}

/// The effects of a whole run of the stage of the stops.
pub open spec fn ist_stops_run(
    lines: Seq<DatabaseLine>,
    answers: Seq<Seq<IstLineStopsResponse>>,
) -> Seq<EffectView>
    decreases answers.len(),
{
    if answers.len() == 0 {
        Seq::empty()
    } else {
        let before = answers.drop_last();
        let (line, step) = cursor_after(lines.len() as int, 2, before.len());
        ist_stops_run(lines, before) + if line >= lines.len() {
            Seq::<EffectView>::empty()
        } else {
            ist_stops_effects(lines[line].code@, answers.last(), step + 1 == 2)
        }
    }
}

/// The effects of a whole run of the stage of the timetables.
pub open spec fn ist_timetable_run(
    lines: Seq<DatabaseLine>,
    answers: Seq<Seq<IstTimetableResponse>>,
) -> Seq<EffectView>
    decreases answers.len(),
{
    if answers.len() == 0 {
        Seq::empty()
    } else {
        let before = answers.drop_last();
        let (line, step) = cursor_after(lines.len() as int, 1, before.len());
        ist_timetable_run(lines, before) + if line >= lines.len() {
            Seq::<EffectView>::empty()
        } else {
            ist_timetable_effects(answers.last())
        }
    }
}

/// A pause writes nothing.
pub proof fn lemma_pause_leaves(last: bool, seconds: u64, table: Table)
    ensures
        leaves(pause_after(last, seconds), table),
{
}

/// No run of the stages of the routes, the stops and the timetables
/// writes a line: the lines that such a stage reads from the store are
/// after its run what they were before. A run of the stage of the route
/// paths writes no route.
pub proof fn lemma_ist_runs_leave_their_inputs(
    lines: Seq<DatabaseLine>,
    routes: Seq<Seq<IstLineRoutesResponse>>,
    stops: Seq<Seq<IstLineStopsResponse>>,
    departures: Seq<Seq<IstTimetableResponse>>,
    known: Seq<DatabaseRoute>,
    features: Seq<IstRoutePathGeoJsonFeature>,
)
    ensures
        leaves(ist_routes_run(lines, routes), Table::Lines),
        leaves(ist_stops_run(lines, stops), Table::Lines),
        leaves(ist_timetable_run(lines, departures), Table::Lines),
        leaves(ist_route_paths_effects(known, features), Table::Routes),
    decreases routes.len() + stops.len() + departures.len(),
{
    let none = Seq::<Seq<IstLineRoutesResponse>>::empty();
    let no_stops = Seq::<Seq<IstLineStopsResponse>>::empty();
    let no_departures = Seq::<Seq<IstTimetableResponse>>::empty();
    lemma_write_leaves(BatchView::RoutePaths(ist_route_paths(known, features)), Table::Routes);
    if routes.len() > 0 {
        lemma_ist_runs_leave_their_inputs(
            lines,
            routes.drop_last(),
            no_stops,
            no_departures,
            known,
            features,
        );
        let answer = routes[routes.len() - 1];
        lemma_write_leaves(BatchView::Routes(ist_route_rows(answer)), Table::Lines);
        lemma_pause_leaves(true, IST_ROUTES_PAUSE, Table::Lines);
        lemma_pause_leaves(false, IST_ROUTES_PAUSE, Table::Lines);
        lemma_leaves_both(
            write_unless_empty(BatchView::Routes(ist_route_rows(answer))),
            pause_after(true, IST_ROUTES_PAUSE),
            Table::Lines,
        );
        lemma_leaves_both(
            write_unless_empty(BatchView::Routes(ist_route_rows(answer))),
            pause_after(false, IST_ROUTES_PAUSE),
            Table::Lines,
        );
        let (line, step) = cursor_after(lines.len() as int, 2, (routes.len() - 1) as nat);
        let added = if line >= lines.len() {
            Seq::<EffectView>::empty()
        } else {
            ist_routes_effects(answer, step + 1 == 2)
        };
        lemma_leaves_both(ist_routes_run(lines, routes.drop_last()), added, Table::Lines);
    }
    if stops.len() > 0 {
        lemma_ist_runs_leave_their_inputs(
            lines,
            none,
            stops.drop_last(),
            no_departures,
            known,
            features,
        );
        let answer = stops[stops.len() - 1];
        let (line, step) = cursor_after(lines.len() as int, 2, (stops.len() - 1) as nat);
        if line < lines.len() {
            let code = lines[line].code@;
            let last = step + 1 == 2;
            lemma_write_leaves(BatchView::LineStops(ist_line_stop_rows(code, answer)), Table::Lines);
            lemma_write_leaves(BatchView::Stops(ist_stop_rows(answer)), Table::Lines);
            lemma_pause_leaves(last, IST_LINE_PAUSE, Table::Lines);
            lemma_leaves_both(
                write_unless_empty(BatchView::LineStops(ist_line_stop_rows(code, answer))),
                write_unless_empty(BatchView::Stops(ist_stop_rows(answer))),
                Table::Lines,
            );
            lemma_leaves_both(
                write_unless_empty(BatchView::LineStops(ist_line_stop_rows(code, answer)))
                    + write_unless_empty(BatchView::Stops(ist_stop_rows(answer))),
                pause_after(last, IST_LINE_PAUSE),
                Table::Lines,
            );
        }
        let added = if line >= lines.len() {
            Seq::<EffectView>::empty()
        } else {
            ist_stops_effects(lines[line].code@, answer, step + 1 == 2)
        };
        lemma_leaves_both(ist_stops_run(lines, stops.drop_last()), added, Table::Lines);
    }
    if departures.len() > 0 {
        lemma_ist_runs_leave_their_inputs(
            lines,
            none,
            no_stops,
            departures.drop_last(),
            known,
            features,
        );
        let answer = departures[departures.len() - 1];
        lemma_write_leaves(BatchView::Timetables(ist_timetables(answer)), Table::Lines);
        lemma_pause_leaves(true, IST_LINE_PAUSE, Table::Lines);
        lemma_leaves_both(
            write_unless_empty(BatchView::Timetables(ist_timetables(answer))),
            pause_after(true, IST_LINE_PAUSE),
            Table::Lines,
        );
        let (line, step) = cursor_after(lines.len() as int, 1, (departures.len() - 1) as nat);
        let added = if line >= lines.len() {
            Seq::<EffectView>::empty()
        } else {
            ist_timetable_effects(answer)
        };
        lemma_leaves_both(ist_timetable_run(lines, departures.drop_last()), added, Table::Lines);
    }
}

/// Idempotence of the stage of the routes: a second run that gets the
/// answers of the first changes nothing in the store, row for row, and so
/// leaves the number of rows as it was.
pub proof fn lemma_ist_routes_idempotent(
    rows: Rows,
    lines: Seq<DatabaseLine>,
    answers: Seq<Seq<IstLineRoutesResponse>>,
)
    ensures
        ({
            let once = upsert_all(rows, written(ist_routes_run(lines, answers)));
            let twice = upsert_all(once, written(ist_routes_run(lines, answers)));
            twice == once && twice.len() == once.len()
        }),
{
    lemma_second_run_changes_nothing(rows, ist_routes_run(lines, answers));
}

/// Idempotence of the stage of the stops: a second run that gets the
/// answers of the first changes nothing in the store.
pub proof fn lemma_ist_stops_idempotent(
    rows: Rows,
    lines: Seq<DatabaseLine>,
    answers: Seq<Seq<IstLineStopsResponse>>,
)
    ensures
        ({
            let once = upsert_all(rows, written(ist_stops_run(lines, answers)));
            let twice = upsert_all(once, written(ist_stops_run(lines, answers)));
            twice == once && twice.len() == once.len()
        }),
{
    lemma_second_run_changes_nothing(rows, ist_stops_run(lines, answers));
}

/// Idempotence of the stage of the timetables: a second run that gets the
/// answers of the first changes nothing in the store; the lists of a
/// timetable are overwritten, not added to.
pub proof fn lemma_ist_timetable_idempotent(
    rows: Rows,
    lines: Seq<DatabaseLine>,
    answers: Seq<Seq<IstTimetableResponse>>,
)
    ensures
        ({
            let once = upsert_all(rows, written(ist_timetable_run(lines, answers)));
            let twice = upsert_all(once, written(ist_timetable_run(lines, answers)));
            twice == once && twice.len() == once.len()
        }),
{
    lemma_second_run_changes_nothing(rows, ist_timetable_run(lines, answers));
}

/// Idempotence of the stages of one answer, the lines and the route paths:
/// a second run that gets the answer of the first, and finds the same
/// routes in the store, changes nothing in the store.
pub proof fn lemma_ist_single_stages_idempotent(
    rows: Rows,
    bus_lines: Seq<BusLineSoap>,
    routes: Seq<DatabaseRoute>,
    features: Seq<IstRoutePathGeoJsonFeature>,
)
    ensures
        ({
            let once = upsert_all(rows, written(ist_lines_effects(bus_lines)));
            upsert_all(once, written(ist_lines_effects(bus_lines))) == once
        }),
        ({
            let once = upsert_all(rows, written(ist_route_paths_effects(routes, features)));
            upsert_all(once, written(ist_route_paths_effects(routes, features))) == once
        }),
{
    lemma_second_run_changes_nothing(rows, ist_lines_effects(bus_lines));
    lemma_second_run_changes_nothing(rows, ist_route_paths_effects(routes, features));
}

impl IstUpdater {
    /// Runs the whole stage of the routes on answers that are at hand, in
    /// the order in which they would arrive.
    pub fn run_routes(
        &self,
        auth: &AuthContext,
        lines: Vec<DatabaseLine>,
        answers: &Vec<Vec<IstLineRoutesResponse>>,
    ) -> (effects: Vec<Effect>)
        ensures
            effects.deep_view() == ist_routes_run(lines@, lists(answers@)),
    {
        let ghost all = lines@;
        let mut stage = self.insert_routes(auth, lines);
        let mut effects: Vec<Effect> = Vec::new();
        let mut k: usize = 0;
        proof {
            assert(lists(answers@).take(0) =~= Seq::<Seq<IstLineRoutesResponse>>::empty());
            assert(effects.deep_view() =~= ist_routes_run(all, lists(answers@).take(0)));
        }
        while k < answers.len()
            invariant
                k <= answers.len(),
                stage.walk().lines() == all,
                stage.walk().steps() == 2,
                (stage.walk().line(), stage.walk().step()) == cursor_after(
                    all.len() as int,
                    2,
                    k as nat,
                ),
                effects.deep_view() == ist_routes_run(all, lists(answers@).take(k as int)),
            decreases answers.len() - k,
        {
            proof {
                let next = lists(answers@).take(k + 1);
                assert(next.drop_last() =~= lists(answers@).take(k as int));
                assert(next.last() == answers[k as int]@);
            }
            let step = stage.on_response(&answers[k]);
            append_effects(&mut effects, step);
            k += 1;
        }
        assert(lists(answers@).take(k as int) =~= lists(answers@));
        effects
    }

    /// Runs the whole stage of the stops on answers that are at hand, in
    /// the order in which they would arrive.
    pub fn run_line_stops(
        &self,
        auth: &AuthContext,
        lines: Vec<DatabaseLine>,
        answers: &Vec<Vec<IstLineStopsResponse>>,
    ) -> (effects: Vec<Effect>)
        ensures
            effects.deep_view() == ist_stops_run(lines@, lists(answers@)),
    {
        let ghost all = lines@;
        let mut stage = self.insert_line_stops(auth, lines);
        let mut effects: Vec<Effect> = Vec::new();
        let mut k: usize = 0;
        proof {
            assert(lists(answers@).take(0) =~= Seq::<Seq<IstLineStopsResponse>>::empty());
            assert(effects.deep_view() =~= ist_stops_run(all, lists(answers@).take(0)));
        }
        while k < answers.len()
            invariant
                k <= answers.len(),
                stage.walk().lines() == all,
                stage.walk().steps() == 2,
                (stage.walk().line(), stage.walk().step()) == cursor_after(
                    all.len() as int,
                    2,
                    k as nat,
                ),
                effects.deep_view() == ist_stops_run(all, lists(answers@).take(k as int)),
            decreases answers.len() - k,
        {
            proof {
                let next = lists(answers@).take(k + 1);
                assert(next.drop_last() =~= lists(answers@).take(k as int));
                assert(next.last() == answers[k as int]@);
            }
            let step = stage.on_response(&answers[k]);
            append_effects(&mut effects, step);
            k += 1;
        }
        assert(lists(answers@).take(k as int) =~= lists(answers@));
        effects
    }

    /// Runs the whole stage of the timetables on answers that are at hand,
    /// in the order in which they would arrive.
    pub fn run_timetable(
        &self,
        auth: &AuthContext,
        lines: Vec<DatabaseLine>,
        answers: &Vec<Vec<IstTimetableResponse>>,
    ) -> (effects: Vec<Effect>)
        ensures
            effects.deep_view() == ist_timetable_run(lines@, lists(answers@)),
    {
        let ghost all = lines@;
        let mut stage = self.insert_timetable(auth, lines);
        let mut effects: Vec<Effect> = Vec::new();
        let mut k: usize = 0;
        proof {
            assert(lists(answers@).take(0) =~= Seq::<Seq<IstTimetableResponse>>::empty());
            assert(effects.deep_view() =~= ist_timetable_run(all, lists(answers@).take(0)));
        }
        while k < answers.len()
            invariant
                k <= answers.len(),
                stage.walk().lines() == all,
                stage.walk().steps() == 1,
                (stage.walk().line(), stage.walk().step()) == cursor_after(
                    all.len() as int,
                    1,
                    k as nat,
                ),
                effects.deep_view() == ist_timetable_run(all, lists(answers@).take(k as int)),
            decreases answers.len() - k,
        {
            proof {
                let next = lists(answers@).take(k + 1);
                assert(next.drop_last() =~= lists(answers@).take(k as int));
                assert(next.last() == answers[k as int]@);
            }
            let step = stage.on_response(&answers[k]);
            append_effects(&mut effects, step);
            k += 1;
        }
        assert(lists(answers@).take(k as int) =~= lists(answers@));
        effects
    }
}

} // verus!
