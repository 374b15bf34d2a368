use transit_sync::models::database::DatabaseLine;
use transit_sync::models::ist::{
    DayType, IstLineRoutesResponse, IstLineStopsResponse, IstTimetableResponse, IstTokensResponse,
    StopGeoLocation,
};
use transit_sync::models::izm::{
    EShotLineData, EshotLineResponse, EshotLineStation, EshotTimetable, IzmLine, IzmLinesResponse,
    IzmLinesResult, IzmLoginBodyData, IzmLoginBodyResponse, IzmSearchResponse, IzmSearchResult,
};
use transit_sync::store::Store;
use transit_sync::updater::{perform, AuthContext, Effect};
use transit_sync::updaters::ist::IstUpdater;
use transit_sync::updaters::izm::{IzmStopsAnswer, IzmUpdater};

fn ist_auth() -> AuthContext {
    IstUpdater::new().get_credentials(&IstTokensResponse {
        access_token: "tok".to_string(),
        token_type: String::new(),
        expires_in: 0,
        refresh_token: String::new(),
        expire_date: 0,
    })
}

fn izm_auth() -> AuthContext {
    let token = |t: &str| IzmLoginBodyResponse { data: IzmLoginBodyData { token: t.to_string() } };
    let mut login = IzmUpdater::new().get_credentials();
    assert!(login.on_response(&token("a")).is_none());
    login.on_response(&token("b")).expect("a context")
}

fn lines(city: &str, codes: &[&str]) -> Vec<DatabaseLine> {
    codes
        .iter()
        .map(|code| DatabaseLine {
            id: 0,
            code: code.to_string(),
            title: String::new(),
            city: city.to_string(),
        })
        .collect()
}

fn shape(effects: &[Effect]) -> Vec<String> {
    effects.iter().map(|e| format!("{:?}", e)).collect()
}

/// Performs the effects twice and says how many rows there were after each
/// time.
fn counts(first: &Vec<Effect>, second: &Vec<Effect>) -> (usize, usize) {
    let mut store = Store::new();
    perform(&mut store, first);
    let once = store.count();
    perform(&mut store, second);
    (once, store.count())
}

fn route(code: &str) -> IstLineRoutesResponse {
    IstLineRoutesResponse {
        line_code: "1".to_string(),
        route_name: " name ".to_string(),
        route_code: code.to_string(),
    }
}

fn stop(route_code: &str, code: i32) -> IstLineStopsResponse {
    IstLineStopsResponse {
        route_code: route_code.to_string(),
        stop_order: code,
        stop_name: format!("stop {}", code),
        stop_code: code,
        stop_geo: StopGeoLocation { x: "29".to_string(), y: "41".to_string() },
        province: "p".to_string(),
    }
}

#[test]
fn a_second_run_of_the_routes_changes_nothing() {
    let answers = vec![vec![route("A"), route("B")], vec![], vec![route("A")], vec![route("C")]];
    let run = || IstUpdater::new().run_routes(&ist_auth(), lines("istanbul", &["1", "2"]), &answers);
    let first = run();
    let second = run();
    assert_eq!(shape(&first), shape(&second));
    assert_eq!(first.len(), 5);
    assert!(matches!(first[1], Effect::Sleep(5)));
    assert!(matches!(first[4], Effect::Sleep(5)));
    assert_eq!(counts(&first, &second), (3, 3));
}

#[test]
fn a_run_of_the_routes_is_its_steps_in_order() {
    let answers = vec![vec![route("A")], vec![route("B")], vec![route("C")]];
    let whole = IstUpdater::new().run_routes(&ist_auth(), lines("istanbul", &["1"]), &answers);
    let mut stage = IstUpdater::new().insert_routes(&ist_auth(), lines("istanbul", &["1"]));
    let mut steps = Vec::new();
    for answer in &answers {
        steps.extend(stage.on_response(answer));
    }
    assert_eq!(shape(&whole), shape(&steps));
    assert_eq!(whole.len(), 3);
}

#[test]
fn a_second_run_of_the_stops_changes_nothing() {
    let answers = vec![
        vec![stop("1_G", 10), stop("1_G", 20), stop("1_G", 10)],
        vec![stop("1_D", 20), stop("1_D", 30)],
    ];
    let run =
        || IstUpdater::new().run_line_stops(&ist_auth(), lines("istanbul", &["1"]), &answers);
    let first = run();
    let second = run();
    assert_eq!(shape(&first), shape(&second));
    assert_eq!(first.len(), 5);
    // Four line stops on two routes, and three stops.
    assert_eq!(counts(&first, &second), (7, 7));
}

#[test]
fn a_second_run_of_the_timetables_changes_nothing() {
    let departure = |route: &str, time: &str| IstTimetableResponse {
        route_code: route.to_string(),
        time: time.to_string(),
        day_type: DayType::I,
    };
    let answers = vec![
        vec![departure("A", "08:00:00"), departure("B", "09:00:00"), departure("A", "10:00:00")],
        vec![departure("A", "11:00:00")],
    ];
    let run = || {
        IstUpdater::new().run_timetable(&ist_auth(), lines("istanbul", &["1", "2"]), &answers)
    };
    let first = run();
    let second = run();
    assert_eq!(shape(&first), shape(&second));
    assert_eq!(first.len(), 4);
    assert_eq!(counts(&first, &second), (2, 2));
    let mut store = Store::new();
    perform(&mut store, &first);
    perform(&mut store, &second);
    let probe = transit_sync::store::Entity::Timetable(
        transit_sync::models::database::DatabaseTimetable::new("A".to_string(), "istanbul".to_string()),
    );
    match store.lookup(&probe) {
        Some(transit_sync::store::Entity::Timetable(found)) => assert_eq!(found.monday.len(), 1),
        other => panic!("unexpected {:?}", other),
    }
}

#[test]
fn a_second_run_of_the_izmir_lines_changes_nothing() {
    let page = |codes: std::ops::Range<u32>| IzmLinesResponse {
        result: IzmLinesResult {
            records: codes
                .map(|code| IzmLine {
                    line_code: code,
                    line_name: format!("LINE {}", code),
                    line_start: "a".to_string(),
                    line_end: "b".to_string(),
                })
                .collect(),
            total: 150,
        },
    };
    let pages = vec![page(0..100), page(100..150), page(0..7)];
    let first = IzmUpdater::new().run_lines(&pages);
    let second = IzmUpdater::new().run_lines(&pages);
    assert_eq!(shape(&first), shape(&second));
    assert_eq!(first.len(), 2);
    // 150 lines and two routes for each.
    assert_eq!(counts(&first, &second), (450, 450));
    assert!(IzmUpdater::new().run_lines(&vec![page(0..100)]).is_empty());
    assert!(IzmUpdater::new().run_lines(&Vec::new()).is_empty());
}

#[test]
fn a_second_run_of_the_izmir_stops_changes_nothing() {
    let station = |code: &str| EshotLineStation {
        lat: "38.4".to_string(),
        lng: "27.1".to_string(),
        id: 1,
        name: format!("station {}", code),
        code: code.to_string(),
    };
    let details = || {
        IzmStopsAnswer::Line(EshotLineResponse {
            data: vec![EShotLineData {
                direction: 1,
                tracks: vec!["38.1,27.1 38.2,27.2".to_string()],
                stations: vec![station("10"), station("20"), station("10")],
                times: vec![EshotTimetable { time: "06:00:00".to_string(), day: 0b1111111 }],
            }],
        })
    };
    let found = |id: i32, code: &str| {
        IzmStopsAnswer::Search(IzmSearchResponse {
            data: vec![IzmSearchResult { id, name: String::new(), code: code.to_string() }],
        })
    };
    let answers = vec![found(5, "1"), details(), found(9, "other"), found(6, "3"), details()];
    let run = || {
        IzmUpdater::new().run_line_stops(&izm_auth(), lines("izmir", &["1", "2", "3"]), &answers)
    };
    let first = run();
    let second = run();
    assert_eq!(shape(&first), shape(&second));
    // Line 1: four writes and a pause; line 2: a pause; line 3: four writes
    // and a pause.
    assert_eq!(first.len(), 11);
    assert!(matches!(first[4], Effect::Sleep(10)));
    assert!(matches!(first[5], Effect::Sleep(5)));
    // Two stops shared by both lines; for each of the two routes two line
    // stops, one path and one timetable.
    assert_eq!(counts(&first, &second), (10, 10));
    let mut store = Store::new();
    perform(&mut store, &first);
    perform(&mut store, &second);
    let probe = transit_sync::store::Entity::RoutePath(transit_sync::models::database::RoutePath {
        route_code: "1_G_D0".to_string(),
        route_path: Vec::new(),
        city: "izmir".to_string(),
    });
    match store.lookup(&probe) {
        Some(transit_sync::store::Entity::RoutePath(found)) => {
            assert_eq!(found.route_path.len(), 2)
        }
        other => panic!("unexpected {:?}", other),
    }
}
