use flight_radar::selection::{hit_test, linear_search, refresh, select};

fn project(lon: f64, lat: f64, origin: [f64; 2], zoom: f64) -> (f64, f64) {
    let nx = (lon + 180.0) * (1.0 / 360.0);
    let ny = ((lat * -1.0) + 90.0) * (1.0 / 180.0);
    ((nx - origin[0]) * zoom, (ny - origin[1]) * zoom)
}

fn distance_code(position: Option<(f64, f64)>, click: (f64, f64), origin: [f64; 2], zoom: f64) -> Option<u64> {
    position.map(|(lon, lat)| {
        let pos = project(lon, lat, origin, zoom);
        let (dx, dy) = ((pos.0 - click.0).abs(), (pos.1 - click.1).abs());
        (dx * dx + dy * dy).to_bits()
    })
}

fn threshold() -> u64 {
    (2.0f64 * 2.0).to_bits()
}

fn ids(names: &[&str]) -> Vec<String> {
    names.iter().map(|n| n.to_string()).collect()
}

#[test]
fn refresh_keeps_a_selection_that_is_still_there() {
    let s1 = ids(&["B7", "A1", "C3"]);
    let s2 = ids(&["B7", "C3"]);
    assert_eq!(refresh(Some("A1".to_string()), &s1), Some("A1".to_string()));
    assert_eq!(refresh(Some("A1".to_string()), &s2), None);
}

#[test]
fn refresh_of_an_empty_selection_is_empty() {
    assert_eq!(refresh(None, &ids(&["A1"])), None);
    assert_eq!(refresh(Some("A1".to_string()), &ids(&[])), None);
}

#[test]
fn click_on_an_entity_selects_it() {
    let origin = [0.25, 0.1];
    let zoom = 100.0;
    let positions = vec![Some((10.0, 50.0)), None, Some((-120.5, -33.25))];
    let names = ids(&["A1", "B2", "C3"]);
    let click = project(-120.5, -33.25, origin, zoom);
    let codes: Vec<Option<u64>> =
        positions.iter().map(|p| distance_code(*p, click, origin, zoom)).collect();
    assert_eq!(codes[2], Some(0));
    assert_eq!(hit_test(&codes, threshold()), Some(2));
    assert_eq!(select(Some("A1".to_string()), &names, &codes, threshold()), Some("C3".to_string()));
}

#[test]
fn click_far_from_every_entity_leaves_the_selection() {
    let origin = [0.0, 0.0];
    let zoom = 100.0;
    let positions = vec![Some((10.0, 50.0)), None, Some((-120.5, -33.25))];
    let names = ids(&["A1", "B2", "C3"]);
    let click = (90.0, 90.0);
    let codes: Vec<Option<u64>> =
        positions.iter().map(|p| distance_code(*p, click, origin, zoom)).collect();
    assert_eq!(hit_test(&codes, threshold()), None);
    assert_eq!(select(Some("A1".to_string()), &names, &codes, threshold()), Some("A1".to_string()));
    assert_eq!(select(None, &names, &codes, threshold()), None);
}

#[test]
fn of_two_entities_at_the_same_distance_the_earlier_is_selected() {
    let origin = [0.0, 0.0];
    let zoom = 1.0;
    let click = project(0.0, 0.0, origin, zoom);
    let positions = vec![Some((40.0, 0.0)), Some((-10.0, 5.0)), Some((-10.0, 5.0)), Some((-10.0, 5.0))];
    let codes: Vec<Option<u64>> =
        positions.iter().map(|p| distance_code(*p, click, origin, zoom)).collect();
    assert_eq!(codes[1], codes[2]);
    assert_eq!(hit_test(&codes, threshold()), Some(1));
    let names = ids(&["far", "west", "west-twin", "west-triplet"]);
    assert_eq!(select(None, &names, &codes, threshold()), Some("west".to_string()));
}

#[test]
fn nearest_admitted_entity_wins_whatever_its_place() {
    assert_eq!(hit_test(&vec![Some(30), Some(10), Some(20)], 25), Some(1));
    assert_eq!(hit_test(&vec![Some(30), None, Some(20)], 25), Some(2));
    assert_eq!(hit_test(&vec![Some(5), Some(5), Some(4)], 25), Some(2));
}

#[test]
fn threshold_itself_is_admitted() {
    assert_eq!(hit_test(&vec![Some(26), Some(25)], 25), Some(1));
    assert_eq!(hit_test(&vec![Some(26)], 25), None);
    assert_eq!(hit_test(&vec![Some(u64::MAX)], u64::MAX), Some(0));
}

#[test]
fn entities_without_position_are_never_hit() {
    assert_eq!(hit_test(&vec![None, None], u64::MAX), None);
    assert_eq!(hit_test(&vec![], u64::MAX), None);
}

#[test]
fn undefined_distance_is_not_admitted() {
    let codes = vec![Some(f64::NAN.to_bits()), Some(f64::INFINITY.to_bits())];
    assert_eq!(hit_test(&codes, threshold()), None);
}

#[test]
fn linear_search_finds_the_first_match() {
    let names = ids(&["x", "y", "x"]);
    assert_eq!(linear_search(&names, &"x".to_string()), Some(0));
    assert_eq!(linear_search(&names, &"y".to_string()), Some(1));
    assert_eq!(linear_search(&names, &"z".to_string()), None);
}
