use transit_sync::schema::list;
use transit_sync::store::Table;

const TABLES: [Table; 6] = [
    Table::Lines,
    Table::Routes,
    Table::Stops,
    Table::LineStops,
    Table::RoutePaths,
    Table::Timetables,
];

#[test]
fn texts_are_listed_with_commas() {
    assert_eq!(list(&Vec::new()), "");
    assert_eq!(list(&vec!["a".to_string()]), "a");
    assert_eq!(list(&vec!["a".to_string(), "b".to_string(), "c".to_string()]), "a, b, c");
}

#[test]
fn the_statement_of_the_lines() {
    assert_eq!(Table::Lines.name(), "lines");
    assert_eq!(Table::Lines.insert_head(), "INSERT INTO lines (code, title, city) ");
    assert_eq!(
        Table::Lines.conflict_tail(),
        " ON CONFLICT (code, city) DO UPDATE SET title=EXCLUDED.title"
    );
}

#[test]
fn the_statement_of_the_routes() {
    assert_eq!(
        Table::Routes.insert_head(),
        "INSERT INTO routes (agency_id, route_short_name, route_long_name, route_type, route_desc, route_code, city) "
    );
    assert_eq!(
        Table::Routes.conflict_tail(),
        " ON CONFLICT (route_code, city) DO UPDATE SET agency_id=EXCLUDED.agency_id, route_short_name=EXCLUDED.route_short_name, route_long_name=EXCLUDED.route_long_name, route_type=EXCLUDED.route_type, route_desc=EXCLUDED.route_desc"
    );
}

#[test]
fn the_statement_of_the_stops() {
    assert_eq!(
        Table::Stops.insert_head(),
        "INSERT INTO stops (stop_code, stop_name, x_coord, y_coord, province, city) "
    );
    assert_eq!(
        Table::Stops.conflict_tail(),
        " ON CONFLICT (stop_code, city) DO UPDATE SET stop_name=EXCLUDED.stop_name, x_coord=EXCLUDED.x_coord, y_coord=EXCLUDED.y_coord, province=EXCLUDED.province"
    );
}

#[test]
fn the_statement_of_the_line_stops() {
    assert_eq!(
        Table::LineStops.insert_head(),
        "INSERT INTO line_stops (line_code, stop_code, stop_order, city, route_code) "
    );
    assert_eq!(
        Table::LineStops.conflict_tail(),
        " ON CONFLICT (route_code, stop_code, city) DO UPDATE SET line_code=EXCLUDED.line_code, stop_order=EXCLUDED.stop_order"
    );
}

#[test]
fn the_statement_of_the_route_paths() {
    assert_eq!(
        Table::RoutePaths.insert_head(),
        "INSERT INTO route_paths (route_code, route_path, city) "
    );
    assert_eq!(
        Table::RoutePaths.conflict_tail(),
        " ON CONFLICT (route_code, city) DO UPDATE SET route_path=EXCLUDED.route_path"
    );
}

#[test]
fn the_statement_of_the_timetables() {
    assert_eq!(
        Table::Timetables.insert_head(),
        "INSERT INTO timetable (route_code, city, sunday, monday, tuesday, wednesday, thursday, friday, saturday) "
    );
    assert_eq!(
        Table::Timetables.conflict_tail(),
        " ON CONFLICT (route_code, city) DO UPDATE SET sunday=EXCLUDED.sunday, monday=EXCLUDED.monday, tuesday=EXCLUDED.tuesday, wednesday=EXCLUDED.wednesday, thursday=EXCLUDED.thursday, friday=EXCLUDED.friday, saturday=EXCLUDED.saturday"
    );
}

#[test]
fn every_column_is_part_of_the_key_or_overwritten() {
    for table in TABLES {
        let columns = table.columns();
        let key = table.key();
        let updated = table.updated();
        assert_eq!(key.len() + updated.len(), columns.len());
        for column in &columns {
            assert_ne!(key.contains(column), updated.contains(column), "{}", column);
        }
        for column in key.iter().chain(updated.iter()) {
            assert!(columns.contains(column), "{}", column);
        }
        assert!(key.contains(&"city".to_string()));
    }
}
