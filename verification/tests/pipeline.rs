use transit_sync::updater::{Source, Stage, Support};

fn walk(source: Source) -> Vec<Stage> {
    let mut stages = Vec::new();
    let mut done = None;
    while let Some(next) = source.next_stage(done) {
        stages.push(next);
        done = Some(next);
    }
    stages
}

#[test]
fn istanbul_runs_all_stages_in_order() {
    assert_eq!(
        walk(Source::Istanbul),
        vec![Stage::Lines, Stage::Routes, Stage::Stops, Stage::RoutePaths, Stage::Timetable]
    );
    for stage in walk(Source::Istanbul) {
        assert_eq!(Source::Istanbul.supports(stage), Support::Runs);
    }
}

#[test]
fn izmir_runs_lines_and_stops() {
    assert_eq!(walk(Source::Izmir), vec![Stage::Lines, Stage::Stops]);
    assert_eq!(Source::Izmir.supports(Stage::Lines), Support::Runs);
    assert_eq!(Source::Izmir.supports(Stage::Routes), Support::NotApplicable);
    assert_eq!(Source::Izmir.supports(Stage::Stops), Support::Runs);
    assert_eq!(Source::Izmir.supports(Stage::RoutePaths), Support::NotApplicable);
    assert_eq!(Source::Izmir.supports(Stage::Timetable), Support::NotApplicable);
}

#[test]
fn stages_have_their_places() {
    let order: Vec<u8> = walk(Source::Istanbul).iter().map(|s| s.position()).collect();
    assert_eq!(order, vec![0, 1, 2, 3, 4]);
    assert_eq!(Source::Izmir.next_stage(Some(Stage::Routes)), Some(Stage::Stops));
    assert_eq!(Source::Izmir.next_stage(Some(Stage::Timetable)), None);
    assert_eq!(Source::Istanbul.next_stage(Some(Stage::Timetable)), None);
}

#[test]
fn cities_are_named_in_lower_case() {
    assert_eq!(Source::Istanbul.city_name(), "istanbul");
    assert_eq!(Source::Izmir.city_name(), "izmir");
}
