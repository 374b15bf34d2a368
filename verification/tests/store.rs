use transit_sync::dedup::{first_occurrences, position_of};
use transit_sync::models::database::{DatabaseRoute, Line, LineStop, Stop};
use transit_sync::store::{Entity, Store, Table};
use transit_sync::updater::{perform, Batch, Effect};

fn line(code: &str, title: &str, city: &str) -> Line {
    Line { code: code.to_string(), title: title.to_string(), city: city.to_string() }
}

fn stop(code: i32, name: &str, city: &str) -> Stop {
    Stop {
        stop_code: code,
        stop_name: name.to_string(),
        x_coord: "29.0".to_string(),
        y_coord: "41.0".to_string(),
        province: None,
        city: city.to_string(),
    }
}

fn route(code: Option<&str>, name: &str) -> DatabaseRoute {
    DatabaseRoute {
        agency_id: Some(1),
        route_short_name: Some(name.to_string()),
        route_long_name: None,
        route_type: Some(3),
        route_desc: None,
        route_code: code.map(|c| c.to_string()),
        city: "istanbul".to_string(),
    }
}

#[test]
fn first_occurrences_are_kept_in_order() {
    assert_eq!(first_occurrences(&vec![]), Vec::<usize>::new());
    assert_eq!(first_occurrences(&vec![5]), vec![0]);
    assert_eq!(first_occurrences(&vec![5, 7, 5, 9, 7, 5]), vec![0, 1, 3]);
    assert_eq!(first_occurrences(&vec![1, 1, 1, 1]), vec![0]);
    assert_eq!(first_occurrences(&vec![3, 2, 1]), vec![0, 1, 2]);
    assert_eq!(first_occurrences(&vec![i32::MIN, -1, i32::MIN, i32::MAX]), vec![0, 1, 3]);
}

#[test]
fn keys_are_found_at_their_first_position() {
    let keys = vec!["a".to_string(), "b".to_string(), "a".to_string()];
    assert_eq!(position_of(&keys, &"a".to_string()), Some(0));
    assert_eq!(position_of(&keys, &"b".to_string()), Some(1));
    assert_eq!(position_of(&keys, &"c".to_string()), None);
    assert_eq!(position_of(&Vec::new(), &"a".to_string()), None);
}

#[test]
fn a_conflicting_write_overwrites() {
    let mut store = Store::new();
    assert_eq!(store.count(), 0);
    store.upsert(Entity::Line(line("34A", "Old", "istanbul")));
    assert_eq!(store.count(), 1);
    store.upsert(Entity::Line(line("34A", "New", "istanbul")));
    assert_eq!(store.count(), 1);
    match store.lookup(&Entity::Line(line("34A", "", "istanbul"))) {
        Some(Entity::Line(found)) => assert_eq!(found.title, "New"),
        other => panic!("unexpected {:?}", other),
    }
}

#[test]
fn codes_are_unique_within_a_city_only() {
    let mut store = Store::new();
    store.upsert(Entity::Line(line("10", "Istanbul ten", "istanbul")));
    store.upsert(Entity::Line(line("10", "Izmir ten", "izmir")));
    store.upsert(Entity::Stop(stop(10, "Stop ten", "izmir")));
    assert_eq!(store.count(), 3);
    match store.lookup(&Entity::Line(line("10", "", "izmir"))) {
        Some(Entity::Line(found)) => assert_eq!(found.title, "Izmir ten"),
        other => panic!("unexpected {:?}", other),
    }
    assert!(store.lookup(&Entity::Line(line("11", "", "izmir"))).is_none());
    assert!(store.lookup(&Entity::Stop(stop(10, "", "istanbul"))).is_none());
}

#[test]
fn rows_of_different_tables_do_not_conflict() {
    let a = Entity::Route(route(Some("34A_G_D0"), "a"));
    let b = Entity::Line(line("34A_G_D0", "b", "istanbul"));
    assert!(!a.same_key(&b));
    assert!(a.same_key(&Entity::Route(route(Some("34A_G_D0"), "other"))));
    assert!(!a.same_key(&Entity::Route(route(Some("34A_D_D0"), "a"))));
    assert!(Entity::Route(route(None, "x")).same_key(&Entity::Route(route(Some(""), "y"))));
    assert_eq!(a.table(), Table::Routes);
    assert_eq!(b.table(), Table::Lines);
    let place = |route_code: &str, stop_code: i32| {
        Entity::LineStop(LineStop {
            line_code: "34A".to_string(),
            stop_code,
            stop_order: Some(1),
            route_code: route_code.to_string(),
            city: "istanbul".to_string(),
        })
    };
    assert!(place("r", 1).same_key(&place("r", 1)));
    assert!(!place("r", 1).same_key(&place("r", 2)));
    assert!(!place("r", 1).same_key(&place("q", 1)));
}

#[test]
fn a_second_run_changes_no_row_count() {
    let effects = || {
        vec![
            Effect::Write(Batch::Lines(vec![
                line("1", "one", "izmir"),
                line("2", "two", "izmir"),
                line("1", "one again", "izmir"),
            ])),
            Effect::Sleep(5),
            Effect::Write(Batch::Stops(vec![stop(7, "seven", "izmir"), stop(8, "eight", "izmir")])),
            Effect::Write(Batch::Lines(vec![line("2", "two, later", "izmir")])),
        ]
    };
    let mut store = Store::new();
    store.upsert(Entity::Line(line("9", "kept", "izmir")));
    perform(&mut store, &effects());
    assert_eq!(store.count(), 5);
    let title_of = |store: &Store, code: &str| match store.lookup(&Entity::Line(line(code, "", "izmir")))
    {
        Some(Entity::Line(found)) => found.title.clone(),
        other => panic!("unexpected {:?}", other),
    };
    assert_eq!(title_of(&store, "1"), "one again");
    assert_eq!(title_of(&store, "2"), "two, later");
    assert_eq!(title_of(&store, "9"), "kept");
    perform(&mut store, &effects());
    assert_eq!(store.count(), 5);
    assert_eq!(title_of(&store, "1"), "one again");
    assert_eq!(title_of(&store, "2"), "two, later");
    assert_eq!(title_of(&store, "9"), "kept");
}

#[test]
fn batches_know_their_table_and_rows() {
    let batch = Batch::Stops(vec![stop(1, "a", "izmir"), stop(2, "b", "izmir")]);
    assert_eq!(batch.table(), Table::Stops);
    assert_eq!(batch.len(), 2);
    let rows = batch.entities();
    assert_eq!(rows.len(), 2);
    match &rows[1] {
        Entity::Stop(s) => assert_eq!(s.stop_code, 2),
        other => panic!("unexpected {:?}", other),
    }
    assert_eq!(Batch::Lines(Vec::new()).len(), 0);
}
