use mapgame::geo_drawable::{to_vector, FeatureRecord, GeoGeometry, GeoPoint, Rect};
use mapgame::math::Point;
use mapgame::world_map::WorldMap;

fn gp(lon: i64, lat: i64) -> GeoPoint {
    GeoPoint { lon, lat }
}

/// A closed square ring in microdegrees with its south-west corner at
/// (lon0, lat0) microdegrees and the given side, closing point included.
fn closed_square(lon0: i64, lat0: i64, side: i64) -> Vec<GeoPoint> {
    vec![
        gp(lon0, lat0),
        gp(lon0 + side, lat0),
        gp(lon0 + side, lat0 + side),
        gp(lon0, lat0 + side),
        gp(lon0, lat0),
    ]
}

fn nation_record(id: &str, name: &str, lon0: i64, lat0: i64, side: i64) -> FeatureRecord {
    FeatureRecord {
        embedded_id: None,
        properties: vec![
            ("ISO_A3".to_string(), id.to_string()),
            ("ADMIN".to_string(), name.to_string()),
        ],
        geometry: Some(GeoGeometry::Polygon(vec![closed_square(lon0, lat0, side)])),
    }
}

/// The whole world drawn into a square rectangle, large enough that a
/// one-degree square clears the minimum-area filter.
const WORLD: Rect = Rect { x: 0, y: 0, width: 134_217_728, height: 134_217_728 };

const DEG: i64 = 1_000_000;

fn two_square_world() -> WorldMap {
    let records = vec![
        nation_record("A", "Avalon", 0, 0, DEG),
        nation_record("B", "Borduria", DEG, 0, DEG),
    ];
    WorldMap::new(records, &WORLD).unwrap()
}

fn center_of(lon0: i64, lat0: i64, side: i64, rect: &Rect) -> Point {
    to_vector(gp(lon0 + side / 2, lat0 + side / 2), rect)
}

/// The invariant the collection promises: at most one nation highlighted,
/// and the recorded id names exactly that nation; same for selection.
fn assert_flag_invariants(map: &WorldMap) {
    let highlighted: Vec<&str> = map
        .nations
        .iter()
        .filter(|n| n.is_highlighted())
        .map(|n| n.id().as_str())
        .collect();
    assert!(highlighted.len() <= 1);
    match &map.highlighted_nation_id {
        Some(id) => assert_eq!(highlighted, vec![id.as_str()]),
        None => assert!(highlighted.is_empty()),
    }
    let selected: Vec<&str> = map
        .nations
        .iter()
        .filter(|n| n.is_selected())
        .map(|n| n.id().as_str())
        .collect();
    assert!(selected.len() <= 1);
    match &map.selected_nation_id {
        Some(id) => assert_eq!(selected, vec![id.as_str()]),
        None => assert!(selected.is_empty()),
    }
}

#[test]
fn hit_testing_two_adjacent_nations() {
    let map = two_square_world();
    assert_eq!(map.nations.len(), 2);
    let in_a = center_of(0, 0, DEG, &WORLD);
    let in_b = center_of(DEG, 0, DEG, &WORLD);
    let far = Point { x: 120_000_000, y: 120_000_000 };
    assert_eq!(map.find_nation_id_at(in_a), Some("A".to_string()));
    assert_eq!(map.find_nation_id_at(in_b), Some("B".to_string()));
    assert_eq!(map.find_nation_id_at(far), None);
}

#[test]
fn highlight_keeps_at_most_one_nation_highlighted() {
    let mut map = two_square_world();
    assert_flag_invariants(&map);
    let in_a = center_of(0, 0, DEG, &WORLD);
    let in_b = center_of(DEG, 0, DEG, &WORLD);
    let far = Point { x: 120_000_000, y: 120_000_000 };

    assert_eq!(map.set_highlighted_nation_at(in_a), Some("A".to_string()));
    assert_flag_invariants(&map);
    assert_eq!(map.highlighted_nation_id, Some("A".to_string()));

    assert_eq!(map.set_highlighted_nation_at(in_b), Some("B".to_string()));
    assert_flag_invariants(&map);
    assert_eq!(map.highlighted_nation_id, Some("B".to_string()));

    assert_eq!(map.set_highlighted_nation_at(far), None);
    assert_flag_invariants(&map);
    assert_eq!(map.highlighted_nation_id, None);

    let highlighted = map.get_highlighted_nation();
    assert!(highlighted.is_none());
    map.set_highlighted_nation_at(in_a);
    assert_eq!(map.get_highlighted_nation().unwrap().id(), "A");
}

#[test]
fn selection_unmarks_exactly_the_previous_nation() {
    let mut map = two_square_world();
    let in_a = center_of(0, 0, DEG, &WORLD);
    let in_b = center_of(DEG, 0, DEG, &WORLD);
    let far = Point { x: 120_000_000, y: 120_000_000 };

    assert_eq!(map.set_selected_nation_at(in_a), Some("A".to_string()));
    assert_flag_invariants(&map);
    assert_eq!(map.selected_nation_id, Some("A".to_string()));

    assert_eq!(map.set_selected_nation_at(in_b), Some("B".to_string()));
    assert_flag_invariants(&map);
    assert_eq!(map.selected_nation_id, Some("B".to_string()));
    assert!(!map.nations.iter().any(|n| n.id() == "A" && n.is_selected()));

    // A click on empty water leaves the selection unchanged.
    assert_eq!(map.set_selected_nation_at(far), None);
    assert_flag_invariants(&map);
    assert_eq!(map.selected_nation_id, Some("B".to_string()));

    map.set_selected_nation(&"A".to_string());
    assert_flag_invariants(&map);
    assert_eq!(map.selected_nation_id, Some("A".to_string()));

    map.set_selected_nation(&"ZZZ".to_string());
    assert_flag_invariants(&map);
    assert_eq!(map.selected_nation_id, None);
}

#[test]
fn nations_below_the_minimum_area_are_dropped_at_load_time() {
    let records = vec![
        nation_record("BIG", "Bigland", 0, 0, DEG),
        nation_record("TINY", "Speckle", 10 * DEG, 10 * DEG, DEG / 10),
    ];
    let map = WorldMap::new(records, &WORLD).unwrap();
    assert_eq!(map.nations.len(), 1);
    assert_eq!(map.nations[0].id(), "BIG");
    assert!(!map.nations.iter().any(|n| n.id() == "TINY"));
}

#[test]
fn one_bad_record_fails_the_whole_load() {
    let bad = FeatureRecord {
        embedded_id: None,
        properties: vec![("ISO_A3".to_string(), "BAD".to_string())],
        geometry: Some(GeoGeometry::Polygon(vec![closed_square(0, 0, DEG)])),
    };
    let records = vec![nation_record("A", "Avalon", 0, 0, DEG), bad];
    assert!(WorldMap::new(records, &WORLD).is_err());
}

#[test]
fn resize_preserves_identity_and_flags() {
    let mut map = two_square_world();
    let in_a = center_of(0, 0, DEG, &WORLD);
    map.set_highlighted_nation_at(in_a);
    map.set_selected_nation_at(in_a);

    let half = Rect { x: 0, y: 0, width: 67_108_864, height: 67_108_864 };
    map.on_resize(&half);
    assert_flag_invariants(&map);
    assert_eq!(map.highlighted_nation_id, Some("A".to_string()));
    assert_eq!(map.selected_nation_id, Some("A".to_string()));

    // Hit testing works against the new projection.
    let in_a_half = center_of(0, 0, DEG, &half);
    assert_eq!(map.find_nation_id_at(in_a_half), Some("A".to_string()));
}

#[test]
fn provinces_attach_to_their_nation_and_absence_differs_from_emptiness() {
    let mut map = two_square_world();
    assert!(map.nations.iter().all(|n| n.provinces.is_none()));

    let province_records = vec![FeatureRecord {
        embedded_id: Some("A1".to_string()),
        properties: vec![("name".to_string(), "Alpha Province".to_string())],
        geometry: Some(GeoGeometry::Polygon(vec![closed_square(0, 0, DEG / 2)])),
    }];
    let attached = map
        .attach_provinces(&"A".to_string(), province_records, None)
        .unwrap();
    assert!(attached);
    let a = map.nations.iter().find(|n| n.id() == "A").unwrap();
    let provinces = a.provinces.as_ref().unwrap();
    assert_eq!(provinces.len(), 1);
    assert_eq!(provinces[0].geo_drawable.id, "A1");

    // An empty province set is still a present province set.
    let attached = map.attach_provinces(&"B".to_string(), vec![], None).unwrap();
    assert!(attached);
    let b = map.nations.iter().find(|n| n.id() == "B").unwrap();
    assert_eq!(b.provinces.as_ref().unwrap().len(), 0);

    // A nation the map does not hold leaves the map untouched.
    let attached = map.attach_provinces(&"ZZZ".to_string(), vec![], None).unwrap();
    assert!(!attached);
}

#[test]
fn later_records_with_the_same_id_replace_earlier_ones() {
    let records = vec![
        nation_record("A", "First", 0, 0, DEG),
        nation_record("A", "Second", 3 * DEG, 0, DEG),
    ];
    let map = WorldMap::new(records, &WORLD).unwrap();
    assert_eq!(map.nations.len(), 1);
    assert_eq!(map.nations[0].geo_drawable.name, "Second");
}
