use transit_sync::models::database::{DatabaseLine, TimeOfDay};
use transit_sync::models::izm::{
    Direction, EShotLineData, EshotLineResponse, EshotLineStation, EshotTimetable, IzmLine,
    IzmLinesResponse, IzmLinesResult, IzmLoginBodyData, IzmLoginBodyResponse, IzmSearchResponse,
    IzmSearchResult,
};
use transit_sync::updater::{AuthContext, Batch, Effect, Field, HttpRequest, Method, Source, Updater};
use transit_sync::updaters::izm::{login_body, route_code_of, IzmStopsRequest, IzmUpdater};

fn pairs(fields: &[Field]) -> Vec<(String, String)> {
    fields.iter().map(|f| (f.name.clone(), f.value.clone())).collect()
}

fn pair(name: &str, value: &str) -> (String, String) {
    (name.to_string(), value.to_string())
}

fn token(value: &str) -> IzmLoginBodyResponse {
    IzmLoginBodyResponse { data: IzmLoginBodyData { token: value.to_string() } }
}

fn auth() -> AuthContext {
    let mut login = IzmUpdater::new().get_credentials();
    assert!(login.on_response(&token("first")).is_none());
    login.on_response(&token("second")).expect("a context")
}

fn page(codes: std::ops::Range<u32>, total: u32) -> IzmLinesResponse {
    IzmLinesResponse {
        result: IzmLinesResult {
            records: codes
                .map(|code| IzmLine {
                    line_code: code,
                    line_name: format!("LINE {}", code),
                    line_start: format!("START {}", code),
                    line_end: format!("END {}", code),
                })
                .collect(),
            total,
        },
    }
}

fn lines(codes: &[&str]) -> Vec<DatabaseLine> {
    codes
        .iter()
        .enumerate()
        .map(|(i, code)| DatabaseLine {
            id: i as i32,
            code: code.to_string(),
            title: String::new(),
            city: "izmir".to_string(),
        })
        .collect()
}

fn hit(id: i32, code: &str) -> IzmSearchResult {
    IzmSearchResult { id, name: format!("name of {}", code), code: code.to_string() }
}

fn station(code: &str, name: &str) -> EshotLineStation {
    EshotLineStation {
        lat: "38.4".to_string(),
        lng: "27.1".to_string(),
        id: 999,
        name: name.to_string(),
        code: code.to_string(),
    }
}

fn search(stage_request: Option<IzmStopsRequest>) -> HttpRequest {
    match stage_request {
        Some(IzmStopsRequest::Search(request)) => request,
        other => panic!("unexpected {:?}", other),
    }
}

fn details(stage_request: Option<IzmStopsRequest>) -> HttpRequest {
    match stage_request {
        Some(IzmStopsRequest::Line(request)) => request,
        other => panic!("unexpected {:?}", other),
    }
}

fn at(hours: u32, minutes: u32) -> TimeOfDay {
    TimeOfDay { secs: hours * 3600 + minutes * 60, nanos: 0 }
}

#[test]
fn directions_are_numbered_from_one_to_three() {
    assert_eq!(Direction::try_from(1), Ok(Direction::G));
    assert_eq!(Direction::try_from(2), Ok(Direction::D));
    assert_eq!(Direction::try_from(3), Ok(Direction::R));
    assert_eq!(Direction::try_from(0), Err(()));
    assert_eq!(Direction::try_from(4), Err(()));
    assert_eq!(Direction::try_from(-1), Err(()));
    assert_eq!(Direction::G.to_letter(), 'G');
    assert_eq!(Direction::D.to_letter(), 'D');
    assert_eq!(Direction::R.to_letter(), 'R');
}

#[test]
fn route_codes_carry_the_direction() {
    assert_eq!(route_code_of("302", Direction::G), "302_G_D0");
    assert_eq!(route_code_of("302", Direction::D), "302_D_D0");
    assert_eq!(route_code_of("5", Direction::R), "5_R_D0");
}

#[test]
fn credentials_take_two_hops() {
    let updater = IzmUpdater::new();
    assert_eq!(updater.source(), Source::Izmir);
    assert_eq!(pairs(&updater.headers), vec![pair("Content-Type", "application/json; charset=UTF-8")]);
    let mut login = updater.get_credentials();
    let first = login.next_request();
    assert_eq!(first.method, Method::Post);
    assert_eq!(first.url, "https://appapi.eshot.gov.tr/api/Transportation/Login");
    assert_eq!(first.body.as_deref(), Some(r#"{"userName":"tur","password":"t@r!"}"#));
    assert_eq!(pairs(&first.headers), pairs(&updater.headers));
    assert!(login.on_response(&token("login-token")).is_none());
    let second = login.next_request();
    assert_eq!(second.method, Method::Get);
    assert_eq!(second.url, "https://appapi.eshot.gov.tr/api/TransportationUser/getAnonymousUser");
    assert_eq!(second.body, None);
    assert_eq!(
        pairs(&second.headers),
        vec![
            pair("Content-Type", "application/json; charset=UTF-8"),
            pair("Authorization", "Bearer login-token"),
        ]
    );
    let context = login.on_response(&token("anonymous-token")).expect("a context");
    assert_eq!(
        pairs(&context.headers()),
        vec![
            pair("Content-Type", "application/json; charset=UTF-8"),
            pair("Authorization", "Bearer anonymous-token"),
        ]
    );
}

#[test]
fn a_datastore_of_250_records_is_read_in_three_pages() {
    let mut stage = IzmUpdater::new().insert_lines();
    let mut offsets = Vec::new();
    let mut last = Vec::new();
    while let Some(request) = stage.next_request() {
        assert_eq!(request.method, Method::Get);
        assert_eq!(request.url, "https://acikveri.bizizmir.com/api/3/action/datastore_search");
        assert_eq!(request.query[0].name, "resource_id");
        assert_eq!(request.query[0].value, "bd6c84f8-49ba-4cf4-81f8-81a0fbb5caa3");
        assert_eq!(request.query[1].name, "offset");
        let offset: u32 = request.query[1].value.parse().unwrap();
        offsets.push(offset);
        let end = (offset + 100).min(250);
        last = stage.on_response(&page(offset..end, 250));
        if offsets.len() < 3 {
            assert!(last.is_empty());
        }
    }
    assert_eq!(offsets, vec![0, 100, 200]);
    assert_eq!(last.len(), 2);
    match &last[0] {
        Effect::Write(Batch::Lines(rows)) => {
            assert_eq!(rows.len(), 250);
            assert_eq!(rows[0].code, "0");
            assert_eq!(rows[0].title, "LINE 0");
            assert_eq!(rows[249].code, "249");
            assert!(rows.iter().all(|r| r.city == "izmir"));
        }
        other => panic!("unexpected {:?}", other),
    }
    match &last[1] {
        Effect::Write(Batch::Routes(rows)) => {
            assert_eq!(rows.len(), 500);
            assert_eq!(rows[0].route_code.as_deref(), Some("0_G_D0"));
            assert_eq!(rows[1].route_code.as_deref(), Some("0_D_D0"));
            assert_eq!(rows[498].route_code.as_deref(), Some("249_G_D0"));
            assert_eq!(rows[499].route_code.as_deref(), Some("249_D_D0"));
            assert_eq!(rows[499].route_short_name.as_deref(), Some("249"));
            assert_eq!(rows[499].route_long_name.as_deref(), Some("START 249 - END 249"));
            assert_eq!(rows[499].agency_id, Some(1));
            assert_eq!(rows[499].route_type, Some(3));
            assert_eq!(rows[499].route_desc, None);
            assert_eq!(rows[499].city, "izmir");
        }
        other => panic!("unexpected {:?}", other),
    }
    assert!(stage.on_response(&page(0..1, 250)).is_empty());
    assert!(stage.next_request().is_none());
}

#[test]
fn reading_ends_when_the_offset_passes_the_total() {
    let count = |total: u32| {
        let mut stage = IzmUpdater::new().insert_lines();
        let mut pages = 0;
        while stage.next_request().is_some() {
            pages += 1;
            stage.on_response(&page(0..0, total));
        }
        pages
    };
    assert_eq!(count(0), 1);
    assert_eq!(count(99), 1);
    assert_eq!(count(100), 2);
    assert_eq!(count(101), 2);
    assert_eq!(count(199), 2);
    assert_eq!(count(200), 3);
    assert_eq!(count(250), 3);
    assert_eq!(count(1000), 11);
}

#[test]
fn an_empty_datastore_writes_nothing() {
    let mut stage = IzmUpdater::new().insert_lines();
    assert!(stage.next_request().is_some());
    assert!(stage.on_response(&page(0..0, 0)).is_empty());
    assert!(stage.next_request().is_none());
}

#[test]
fn a_line_that_is_not_found_is_skipped_and_the_next_goes_on() {
    let mut stage = IzmUpdater::new().insert_line_stops(&auth(), lines(&["1", "2"]));
    let request = search(stage.next_request());
    assert_eq!(request.method, Method::Post);
    assert_eq!(request.url, "https://appapi.eshot.gov.tr/api/Assistant/getLineOrStationByName");
    assert_eq!(request.body.as_deref(), Some("\"1\""));
    assert_eq!(pairs(&request.headers), pairs(&auth().headers()));
    let effects = stage.on_search(&IzmSearchResponse { data: vec![hit(70, "10"), hit(71, "11")] });
    assert_eq!(effects.len(), 1);
    assert!(matches!(effects[0], Effect::Sleep(5)));
    let request = search(stage.next_request());
    assert_eq!(request.body.as_deref(), Some("\"2\""));
    let effects = stage.on_search(&IzmSearchResponse { data: vec![hit(72, "2")] });
    assert!(effects.is_empty());
    let request = details(stage.next_request());
    assert_eq!(request.url, "https://appapi.eshot.gov.tr/api/Assistant/getLine");
    assert_eq!(request.body.as_deref(), Some("72"));
    let effects = stage.on_line(&EshotLineResponse { data: Vec::new() });
    assert_eq!(effects.len(), 1);
    assert!(matches!(effects[0], Effect::Sleep(10)));
    assert!(stage.next_request().is_none());
    assert!(stage.on_search(&IzmSearchResponse { data: vec![hit(1, "1")] }).is_empty());
    assert!(stage.on_line(&EshotLineResponse { data: Vec::new() }).is_empty());
}

#[test]
fn what_a_search_has_found_is_not_searched_again() {
    let mut stage = IzmUpdater::new().insert_line_stops(&auth(), lines(&["10", "11", "12"]));
    search(stage.next_request());
    let found = IzmSearchResponse { data: vec![hit(-5, "11"), hit(6, "10"), hit(7, "11"), hit(6, "10")] };
    assert!(stage.on_search(&found).is_empty());
    assert_eq!(details(stage.next_request()).body.as_deref(), Some("6"));
    stage.on_line(&EshotLineResponse { data: Vec::new() });
    assert_eq!(details(stage.next_request()).body.as_deref(), Some("-5"));
    stage.on_line(&EshotLineResponse { data: Vec::new() });
    assert_eq!(search(stage.next_request()).body.as_deref(), Some("\"12\""));
}

#[test]
fn the_details_of_a_line_are_written_direction_by_direction() {
    let mut stage = IzmUpdater::new().insert_line_stops(&auth(), lines(&["302"]));
    stage.on_search(&IzmSearchResponse { data: vec![hit(41, "302")] });
    let response = EshotLineResponse {
        data: vec![
            EShotLineData {
                direction: 1,
                tracks: vec!["38.1,27.1 38.2,27.2".to_string(), "bad 38.3,27.3".to_string()],
                stations: vec![
                    station("10", "first"),
                    station("x", "unreadable"),
                    station("20", "second"),
                    station("10", "first again"),
                ],
                times: vec![
                    EshotTimetable { time: "06:00".to_string(), day: 0b0011111 },
                    EshotTimetable { time: "late".to_string(), day: 0b1111111 },
                    EshotTimetable { time: "07:30:00".to_string(), day: 0b1100000 },
                ],
            },
            EShotLineData { direction: 9, tracks: Vec::new(), stations: vec![station("1", "a")], times: Vec::new() },
            EShotLineData { direction: 2, tracks: Vec::new(), stations: Vec::new(), times: Vec::new() },
        ],
    };
    let effects = stage.on_line(&response);
    assert_eq!(effects.len(), 7);
    match &effects[0] {
        Effect::Write(Batch::Stops(rows)) => {
            let seen: Vec<(i32, &str)> = rows.iter().map(|r| (r.stop_code, r.stop_name.as_str())).collect();
            assert_eq!(seen, vec![(10, "first"), (20, "second")]);
            assert_eq!(rows[0].x_coord, "27.1");
            assert_eq!(rows[0].y_coord, "38.4");
            assert_eq!(rows[0].province, None);
            assert_eq!(rows[0].city, "izmir");
        }
        other => panic!("unexpected {:?}", other),
    }
    match &effects[1] {
        Effect::Write(Batch::LineStops(rows)) => {
            let seen: Vec<i32> = rows.iter().map(|r| r.stop_code).collect();
            assert_eq!(seen, vec![10, 20]);
            assert!(rows.iter().all(|r| r.line_code == "302"
                && r.route_code == "302_G_D0"
                && r.stop_order.is_none()
                && r.city == "izmir"));
        }
        other => panic!("unexpected {:?}", other),
    }
    match &effects[2] {
        Effect::Write(Batch::RoutePaths(rows)) => {
            assert_eq!(rows.len(), 1);
            assert_eq!(rows[0].route_code, "302_G_D0");
            assert_eq!(rows[0].city, "izmir");
            let points: Vec<(&str, &str)> =
                rows[0].route_path.iter().map(|p| (p.lat.as_str(), p.lng.as_str())).collect();
            assert_eq!(points, vec![("38.1", "27.1"), ("38.2", "27.2"), ("38.3", "27.3")]);
        }
        other => panic!("unexpected {:?}", other),
    }
    match &effects[3] {
        Effect::Write(Batch::Timetables(rows)) => {
            assert_eq!(rows.len(), 1);
            assert_eq!(rows[0].route_code, "302_G_D0");
            assert_eq!(rows[0].city, "izmir");
            assert_eq!(rows[0].monday, vec![at(6, 0)]);
            assert_eq!(rows[0].friday, vec![at(6, 0)]);
            assert_eq!(rows[0].saturday, vec![at(7, 30)]);
            assert_eq!(rows[0].sunday, vec![at(7, 30)]);
        }
        other => panic!("unexpected {:?}", other),
    }
    match &effects[4] {
        Effect::Write(Batch::RoutePaths(rows)) => {
            assert_eq!(rows[0].route_code, "302_D_D0");
            assert!(rows[0].route_path.is_empty());
        }
        other => panic!("unexpected {:?}", other),
    }
    match &effects[5] {
        Effect::Write(Batch::Timetables(rows)) => {
            assert_eq!(rows[0].route_code, "302_D_D0");
            assert!(rows[0].monday.is_empty());
        }
        other => panic!("unexpected {:?}", other),
    }
    assert!(matches!(effects[6], Effect::Sleep(10)));
    assert!(stage.next_request().is_none());
}

#[test]
fn the_login_body_is_written_around_json_texts() {
    assert_eq!(login_body("\"a\"", "\"b\""), r#"{"userName":"a","password":"b"}"#);
}
