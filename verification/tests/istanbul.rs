use transit_sync::models::database::{DatabaseLine, DatabaseRoute, TimeOfDay};
use transit_sync::models::ist::{
    DayType, IstLineRoutesResponse, IstLineStopsResponse, IstRoutePathGeoJson,
    IstRoutePathGeoJsonFeature, IstRoutePathGeoJsonGeometry, IstRoutePathGeoJsonProperties,
    IstRoutePathResponse, IstTimetableResponse, IstTokensResponse, StopGeoLocation,
};
use transit_sync::models::soap::{
    BusLineResponseBodySoap, BusLineResponseJsonSoap, BusLineResponseSoap, BusLineSoap,
};
use transit_sync::updater::{AuthContext, Batch, Effect, Field, HttpRequest, Method, Source, Updater};
use transit_sync::updaters::ist::{
    credentials_body, directed_body, timetable_body, timetable_rows, GeometrySource, IstUpdater,
};

fn pairs(fields: &[Field]) -> Vec<(String, String)> {
    fields.iter().map(|f| (f.name.clone(), f.value.clone())).collect()
}

fn pair(name: &str, value: &str) -> (String, String) {
    (name.to_string(), value.to_string())
}

fn tokens(access_token: &str) -> IstTokensResponse {
    IstTokensResponse {
        access_token: access_token.to_string(),
        token_type: "bearer".to_string(),
        expires_in: 3600,
        refresh_token: String::new(),
        expire_date: 0,
    }
}

fn auth() -> AuthContext {
    IstUpdater::new().get_credentials(&tokens("tok"))
}

fn lines(codes: &[&str]) -> Vec<DatabaseLine> {
    codes
        .iter()
        .enumerate()
        .map(|(i, code)| DatabaseLine {
            id: i as i32 + 1,
            code: code.to_string(),
            title: format!("line {}", code),
            city: "istanbul".to_string(),
        })
        .collect()
}

fn body(request: &HttpRequest) -> String {
    request.body.clone().expect("a body")
}

fn stop(route_code: &str, order: i32, name: &str, code: i32) -> IstLineStopsResponse {
    IstLineStopsResponse {
        route_code: route_code.to_string(),
        stop_order: order,
        stop_name: name.to_string(),
        stop_code: code,
        stop_geo: StopGeoLocation { x: format!("29.{}", order), y: format!("41.{}", order) },
        province: "Fatih".to_string(),
    }
}

fn departure(route_code: &str, time: &str, day_type: DayType) -> IstTimetableResponse {
    IstTimetableResponse { route_code: route_code.to_string(), time: time.to_string(), day_type }
}

fn at(hours: u32, minutes: u32) -> TimeOfDay {
    TimeOfDay { secs: hours * 3600 + minutes * 60, nanos: 0 }
}

fn feature(route_code: &str, lines: &[&[(&str, &str)]]) -> IstRoutePathGeoJsonFeature {
    IstRoutePathGeoJsonFeature {
        properties: IstRoutePathGeoJsonProperties { route_code: route_code.to_string() },
        geometry: IstRoutePathGeoJsonGeometry {
            coordinates: lines
                .iter()
                .map(|line| line.iter().map(|(x, y)| vec![x.to_string(), y.to_string()]).collect())
                .collect(),
        },
    }
}

fn known_route(code: Option<&str>) -> DatabaseRoute {
    DatabaseRoute {
        agency_id: Some(1),
        route_short_name: None,
        route_long_name: None,
        route_type: Some(3),
        route_desc: None,
        route_code: code.map(|c| c.to_string()),
        city: "istanbul".to_string(),
    }
}

#[test]
fn the_updater_starts_with_the_headers_of_the_service() {
    let updater = IstUpdater::new();
    assert_eq!(
        pairs(&updater.headers),
        vec![
            pair("Host", "ntcapi.iett.istanbul"),
            pair("Content-Type", "application/json; charset=UTF-8"),
        ]
    );
    assert_eq!(updater.source(), Source::Istanbul);
}

#[test]
fn credentials_are_asked_for_with_the_client_credentials_grant() {
    let request = IstUpdater::new().credentials_request("id", "se\"cr\\et", "scope\n1");
    assert_eq!(request.method, Method::Post);
    assert_eq!(request.url, "https://ntcapi.iett.istanbul/oauth2/v2/auth");
    assert_eq!(
        body(&request),
        r#"{"client_id":"id","client_secret":"se\"cr\\et","grant_type":"client_credentials","scope":"scope\n1"}"#
    );
    assert_eq!(pairs(&request.headers), pairs(&IstUpdater::new().headers));
    assert!(request.query.is_empty());
}

#[test]
fn the_context_carries_the_bearer_token() {
    let context = IstUpdater::new().get_credentials(&tokens("abc.def"));
    assert_eq!(
        pairs(&context.headers()),
        vec![
            pair("Host", "ntcapi.iett.istanbul"),
            pair("Content-Type", "application/json; charset=UTF-8"),
            pair("Authorization", "Bearer abc.def"),
        ]
    );
}

#[test]
fn the_lines_are_asked_for_in_an_envelope() {
    let request = IstUpdater::new().lines_request();
    assert_eq!(request.method, Method::Post);
    assert_eq!(request.url, "https://api.ibb.gov.tr/iett/UlasimAnaVeri/HatDurakGuzergah.asmx");
    assert_eq!(
        pairs(&request.headers),
        vec![
            pair("Content-Type", "text/xml; charset=UTF-8"),
            pair("SOAPAction", "\"http://tempuri.org/GetHat_json\""),
        ]
    );
    let envelope = body(&request);
    assert!(envelope.starts_with("<soap:Envelope"));
    assert!(envelope.contains("<GetHat_json xmlns=\"http://tempuri.org/\"><HatKodu></HatKodu></GetHat_json>"));
    assert!(envelope.ends_with("</soap:Envelope>"));
}

#[test]
fn the_envelope_hands_out_its_payload() {
    let envelope = BusLineResponseSoap {
        content: BusLineResponseBodySoap {
            content: BusLineResponseJsonSoap { content: "[{\"SHATKODU\":\"1\"}]".to_string() },
        },
    };
    assert_eq!(envelope.payload(), "[{\"SHATKODU\":\"1\"}]");
}

#[test]
fn every_line_of_the_list_becomes_a_row() {
    let list = vec![
        BusLineSoap {
            line_code: "34A".to_string(),
            line_name: "SÖĞÜTLÜÇEŞME - CEVİZLİBAĞ".to_string(),
            line_length: "11.5".to_string(),
            duration: "35".to_string(),
        },
        BusLineSoap {
            line_code: "500T".to_string(),
            line_name: "TUZLA - CEVİZLİBAĞ".to_string(),
            line_length: "70".to_string(),
            duration: "150".to_string(),
        },
    ];
    let effects = IstUpdater::new().insert_lines(&list);
    assert_eq!(effects.len(), 1);
    match &effects[0] {
        Effect::Write(Batch::Lines(rows)) => {
            assert_eq!(rows.len(), 2);
            assert_eq!(rows[0].code, "34A");
            assert_eq!(rows[0].title, "SÖĞÜTLÜÇEŞME - CEVİZLİBAĞ");
            assert_eq!(rows[0].city, "istanbul");
            assert_eq!(rows[1].code, "500T");
        }
        other => panic!("unexpected {:?}", other),
    }
    assert!(IstUpdater::new().insert_lines(&Vec::new()).is_empty());
}

#[test]
fn routes_are_asked_for_in_both_directions_of_every_line() {
    let updater = IstUpdater::new();
    let mut stage = updater.insert_routes(&auth(), lines(&["34A", "5\"0"]));
    let mut bodies = Vec::new();
    let mut effects = Vec::new();
    while let Some(request) = stage.next_request() {
        assert_eq!(request.method, Method::Post);
        assert_eq!(request.url, "https://ntcapi.iett.istanbul/service");
        assert_eq!(pairs(&request.headers), pairs(&auth().headers()));
        bodies.push(body(&request));
        let answer = vec![IstLineRoutesResponse {
            line_code: "34A".to_string(),
            route_name: "  AVCILAR - ZİNCİRLİKUYU \t".to_string(),
            route_code: format!("R{}", bodies.len()),
        }];
        effects.push(stage.on_response(&answer));
    }
    assert_eq!(
        bodies,
        vec![
            r#"{"alias":"mainGetLine_basic","data":{"HATYONETIM.GUZERGAH.YON":119,"HATYONETIM.HAT.HAT_KODU":"34A"}}"#,
            r#"{"alias":"mainGetLine_basic","data":{"HATYONETIM.GUZERGAH.YON":120,"HATYONETIM.HAT.HAT_KODU":"34A"}}"#,
            r#"{"alias":"mainGetLine_basic","data":{"HATYONETIM.GUZERGAH.YON":119,"HATYONETIM.HAT.HAT_KODU":"5\"0"}}"#,
            r#"{"alias":"mainGetLine_basic","data":{"HATYONETIM.GUZERGAH.YON":120,"HATYONETIM.HAT.HAT_KODU":"5\"0"}}"#,
        ]
    );
    assert_eq!(effects.len(), 4);
    for (i, step) in effects.iter().enumerate() {
        match &step[0] {
            Effect::Write(Batch::Routes(rows)) => {
                assert_eq!(rows.len(), 1);
                assert_eq!(rows[0].agency_id, Some(1));
                assert_eq!(rows[0].route_short_name.as_deref(), Some("34A"));
                assert_eq!(rows[0].route_long_name.as_deref(), Some("AVCILAR - ZİNCİRLİKUYU"));
                assert_eq!(rows[0].route_type, Some(3));
                assert_eq!(rows[0].route_desc, None);
                assert_eq!(rows[0].route_code, Some(format!("R{}", i + 1)));
                assert_eq!(rows[0].city, "istanbul");
            }
            other => panic!("unexpected {:?}", other),
        }
        if i % 2 == 1 {
            assert_eq!(step.len(), 2);
            assert!(matches!(step[1], Effect::Sleep(5)));
        } else {
            assert_eq!(step.len(), 1);
        }
    }
    assert!(stage.next_request().is_none());
    assert!(stage.on_response(&Vec::new()).is_empty());
}

#[test]
fn a_direction_without_routes_writes_nothing() {
    let updater = IstUpdater::new();
    let mut stage = updater.insert_routes(&auth(), lines(&["1"]));
    assert!(stage.on_response(&Vec::new()).is_empty());
    let second = stage.on_response(&Vec::new());
    assert_eq!(second.len(), 1);
    assert!(matches!(second[0], Effect::Sleep(5)));
    assert!(stage.next_request().is_none());
}

#[test]
fn no_lines_no_requests() {
    let updater = IstUpdater::new();
    assert!(updater.insert_routes(&auth(), Vec::new()).next_request().is_none());
    assert!(updater.insert_line_stops(&auth(), Vec::new()).next_request().is_none());
    assert!(updater.insert_timetable(&auth(), Vec::new()).next_request().is_none());
}

#[test]
fn repeated_stops_are_written_once_as_first_seen() {
    let updater = IstUpdater::new();
    let mut stage = updater.insert_line_stops(&auth(), lines(&["34A"]));
    let request = stage.next_request().expect("a request");
    assert_eq!(
        body(&request),
        r#"{"alias":"mainGetRoute","data":{"HATYONETIM.GUZERGAH.YON":119,"HATYONETIM.HAT.HAT_KODU":"34A"}}"#
    );
    let answer = vec![
        stop("34A_G_D0", 1, "first", 100),
        stop("34A_G_D0", 2, "second", 200),
        stop("34A_G_D0", 3, "first again", 100),
        stop("34A_G_D0", 4, "third", 300),
        stop("34A_G_D0", 5, "second again", 200),
        stop("34A_G_D0", 6, "first once more", 100),
    ];
    let effects = stage.on_response(&answer);
    assert_eq!(effects.len(), 2);
    match &effects[0] {
        Effect::Write(Batch::LineStops(rows)) => {
            let seen: Vec<(i32, Option<i32>)> = rows.iter().map(|r| (r.stop_code, r.stop_order)).collect();
            assert_eq!(seen, vec![(100, Some(1)), (200, Some(2)), (300, Some(4))]);
            assert!(rows.iter().all(|r| r.line_code == "34A" && r.route_code == "34A_G_D0" && r.city == "istanbul"));
        }
        other => panic!("unexpected {:?}", other),
    }
    match &effects[1] {
        Effect::Write(Batch::Stops(rows)) => {
            let seen: Vec<(i32, &str)> = rows.iter().map(|r| (r.stop_code, r.stop_name.as_str())).collect();
            assert_eq!(seen, vec![(100, "first"), (200, "second"), (300, "third")]);
            assert_eq!(rows[2].x_coord, "29.4");
            assert_eq!(rows[2].y_coord, "41.4");
            assert_eq!(rows[0].province.as_deref(), Some("Fatih"));
            assert!(rows.iter().all(|r| r.city == "istanbul"));
        }
        other => panic!("unexpected {:?}", other),
    }
    let request = stage.next_request().expect("a request");
    assert!(body(&request).contains("\"HATYONETIM.GUZERGAH.YON\":120"));
    let effects = stage.on_response(&Vec::new());
    assert_eq!(effects.len(), 1);
    assert!(matches!(effects[0], Effect::Sleep(10)));
    assert!(stage.next_request().is_none());
}

#[test]
fn timetables_are_grouped_by_route_in_order_of_first_occurrence() {
    let records = vec![
        departure("B", "2023-01-02 08:15:00", DayType::I),
        departure("A", "06:00:00", DayType::C),
        departure("B", "not a time", DayType::I),
        departure("B", "09:30:00", DayType::P),
        departure("A", "07:00:00", DayType::I),
        departure("B", "10:00:00", DayType::I),
    ];
    let tables = timetable_rows(&records);
    assert_eq!(tables.len(), 2);
    assert_eq!(tables[0].route_code, "B");
    assert_eq!(tables[0].city, "istanbul");
    assert_eq!(tables[0].monday, vec![at(8, 15), at(10, 0)]);
    assert_eq!(tables[0].friday, vec![at(8, 15), at(10, 0)]);
    assert_eq!(tables[0].sunday, vec![at(9, 30)]);
    assert!(tables[0].saturday.is_empty());
    assert_eq!(tables[1].route_code, "A");
    assert_eq!(tables[1].saturday, vec![at(6, 0)]);
    assert_eq!(tables[1].tuesday, vec![at(7, 0)]);
    assert!(tables[1].sunday.is_empty());
    assert!(timetable_rows(&Vec::new()).is_empty());
}

#[test]
fn the_timetable_of_every_line_is_asked_for_once() {
    let updater = IstUpdater::new();
    let mut stage = updater.insert_timetable(&auth(), lines(&["34A", "11"]));
    let request = stage.next_request().expect("a request");
    assert_eq!(
        body(&request),
        r#"{"alias":"akyolbilGetTimeTable","data":{"HATYONETIM.GUZERGAH.HAT_KODU":"34A"}}"#
    );
    let effects = stage.on_response(&vec![departure("34A_G_D0", "08:15:00", DayType::I)]);
    assert_eq!(effects.len(), 2);
    match &effects[0] {
        Effect::Write(Batch::Timetables(rows)) => {
            assert_eq!(rows.len(), 1);
            assert_eq!(rows[0].route_code, "34A_G_D0");
            assert_eq!(rows[0].wednesday, vec![at(8, 15)]);
        }
        other => panic!("unexpected {:?}", other),
    }
    assert!(matches!(effects[1], Effect::Sleep(10)));
    let request = stage.next_request().expect("a request");
    assert!(body(&request).ends_with("\"HATYONETIM.GUZERGAH.HAT_KODU\":\"11\"}}"));
    let effects = stage.on_response(&Vec::new());
    assert_eq!(effects.len(), 1);
    assert!(matches!(effects[0], Effect::Sleep(10)));
    assert!(stage.next_request().is_none());
}

#[test]
fn the_kept_snapshot_is_preferred() {
    let updater = IstUpdater::new();
    assert_eq!(updater.route_paths_source(true), GeometrySource::Cache);
    assert_eq!(updater.route_paths_source(false), GeometrySource::Download);
    let request = updater.snapshot_request();
    assert_eq!(request.method, Method::Get);
    assert!(request.url.ends_with("/download/iett-hat-guzergahlar.geojson"));
    assert!(request.headers.is_empty());
    assert!(request.body.is_none());
}

#[test]
fn route_paths_skip_known_routes_and_join_fragments() {
    let geojson = IstRoutePathGeoJson {
        features: vec![
            feature("A", &[&[("1", "2"), ("3", "4")]]),
            feature("KNOWN", &[&[("9", "9")]]),
            feature("B", &[&[("5", "6")], &[("7", "8")]]),
            feature("A", &[&[("10", "11")]]),
        ],
    };
    let routes = vec![known_route(Some("KNOWN")), known_route(None), known_route(Some("OTHER"))];
    let effects = IstUpdater::new().insert_route_paths(&routes, &geojson);
    assert_eq!(effects.len(), 1);
    match &effects[0] {
        Effect::Write(Batch::RoutePaths(rows)) => {
            assert_eq!(rows.len(), 2);
            assert_eq!(rows[0].route_code, "A");
            assert_eq!(rows[0].city, "istanbul");
            let a: Vec<(&str, &str)> =
                rows[0].route_path.iter().map(|p| (p.lng.as_str(), p.lat.as_str())).collect();
            assert_eq!(a, vec![("1", "2"), ("3", "4"), ("10", "11")]);
            assert_eq!(rows[1].route_code, "B");
            let b: Vec<(&str, &str)> =
                rows[1].route_path.iter().map(|p| (p.lng.as_str(), p.lat.as_str())).collect();
            assert_eq!(b, vec![("5", "6"), ("7", "8")]);
        }
        other => panic!("unexpected {:?}", other),
    }
    let all_known = vec![known_route(Some("A")), known_route(Some("B")), known_route(Some("KNOWN"))];
    assert!(IstUpdater::new().insert_route_paths(&all_known, &geojson).is_empty());
}

#[test]
fn a_live_path_is_read_from_well_known_text() {
    let response = IstRoutePathResponse {
        line: "LINESTRING (10.0 20.0, 11.5 21.5)|LINESTRING (12.0 22.0)".to_string(),
    };
    let path = IstUpdater::new().route_path_of("34A_G_D0", &response);
    assert_eq!(path.route_code, "34A_G_D0");
    assert_eq!(path.city, "istanbul");
    let points: Vec<(f64, f64)> = path
        .route_path
        .iter()
        .map(|p| (p.lat.parse().unwrap(), p.lng.parse().unwrap()))
        .collect();
    assert_eq!(points, vec![(20.0, 10.0), (21.5, 11.5), (22.0, 12.0)]);
}

#[test]
fn bodies_are_written_around_json_texts() {
    assert_eq!(
        directed_body("mainGetRoute", 0, "\"1\""),
        r#"{"alias":"mainGetRoute","data":{"HATYONETIM.GUZERGAH.YON":119,"HATYONETIM.HAT.HAT_KODU":"1"}}"#
    );
    assert_eq!(
        directed_body("x", 1, "null"),
        r#"{"alias":"x","data":{"HATYONETIM.GUZERGAH.YON":120,"HATYONETIM.HAT.HAT_KODU":null}}"#
    );
    assert_eq!(
        timetable_body("\"9\""),
        r#"{"alias":"akyolbilGetTimeTable","data":{"HATYONETIM.GUZERGAH.HAT_KODU":"9"}}"#
    );
    assert_eq!(
        credentials_body("1", "2", "3"),
        r#"{"client_id":1,"client_secret":2,"grant_type":"client_credentials","scope":3}"#
    );
}

#[test]
fn a_route_of_another_city_excludes_nothing() {
    let geojson = IstRoutePathGeoJson { features: vec![feature("R1", &[&[("29.0", "41.0")]])] };
    let mut of_izmir = known_route(Some("R1"));
    of_izmir.city = "izmir".to_string();
    let effects = IstUpdater::new().insert_route_paths(&vec![of_izmir], &geojson);
    assert_eq!(effects.len(), 1);
    match &effects[0] {
        Effect::Write(Batch::RoutePaths(rows)) => {
            assert_eq!(rows.len(), 1);
            assert_eq!(rows[0].route_code, "R1");
            assert_eq!(rows[0].city, "istanbul");
            assert_eq!(rows[0].route_path.len(), 1);
            assert_eq!(rows[0].route_path[0].lat, "41.0");
            assert_eq!(rows[0].route_path[0].lng, "29.0");
        }
        other => panic!("unexpected {:?}", other),
    }
    let mut both = vec![known_route(Some("R1"))];
    both[0].city = "izmir".to_string();
    both.push(known_route(Some("R1")));
    assert!(IstUpdater::new().insert_route_paths(&both, &geojson).is_empty());
}
