use mapgame::config::{select_map, MapConfig};
use mapgame::errors::{LoadErrorKind, MapLoadError};
use mapgame::geo_drawable::{
    get_feature_property, to_vector, FeatureRecord, GeoDrawable, GeoGeometry, GeoPoint, Rect,
};
use mapgame::math::Point;
use mapgame::player::Player;
use mapgame::province::{Province, ProvinceMapping};

fn gp(lon: i64, lat: i64) -> GeoPoint {
    GeoPoint { lon, lat }
}

/// A closed unit-square ring in microdegrees, closing point included, with
/// its south-west corner at (lon0, lat0) degrees.
fn closed_square(lon0: i64, lat0: i64) -> Vec<GeoPoint> {
    let a = 1_000_000;
    vec![
        gp(lon0 * a, lat0 * a),
        gp((lon0 + 1) * a, lat0 * a),
        gp((lon0 + 1) * a, (lat0 + 1) * a),
        gp(lon0 * a, (lat0 + 1) * a),
        gp(lon0 * a, lat0 * a),
    ]
}

fn square_record(id: &str, name: &str, lon0: i64, lat0: i64) -> FeatureRecord {
    FeatureRecord {
        embedded_id: None,
        properties: vec![
            ("ISO_A3".to_string(), id.to_string()),
            ("ADMIN".to_string(), name.to_string()),
        ],
        geometry: Some(GeoGeometry::Polygon(vec![closed_square(lon0, lat0)])),
    }
}

const RECT: Rect = Rect { x: 0, y: 0, width: 36_000_000, height: 18_000_000 };

#[test]
fn projection_maps_domain_corners_to_rect_corners() {
    let r = Rect { x: 0, y: 0, width: 360, height: 180 };
    assert_eq!(to_vector(gp(-180_000_000, -90_000_000), &r), Point { x: 0, y: 180 });
    assert_eq!(to_vector(gp(180_000_000, -90_000_000), &r), Point { x: 360, y: 180 });
    assert_eq!(to_vector(gp(-180_000_000, 90_000_000), &r), Point { x: 0, y: 0 });
    assert_eq!(to_vector(gp(180_000_000, 90_000_000), &r), Point { x: 360, y: 0 });
}

#[test]
fn projection_is_deterministic_and_respects_the_origin_offset() {
    let r = Rect { x: 50, y: 70, width: 360, height: 180 };
    let first = to_vector(gp(12_345_678, -23_456_789), &r);
    let second = to_vector(gp(12_345_678, -23_456_789), &r);
    assert_eq!(first, second);
    assert_eq!(to_vector(gp(0, 0), &r), Point { x: 50 + 180, y: 70 + 90 });
}

#[test]
fn geo_drawable_resolves_id_name_and_drops_closing_points() {
    let record = square_record("TST", "Testland", 0, 0);
    let name_key = "ADMIN".to_string();
    let id_key = "ISO_A3".to_string();
    let d = GeoDrawable::new(record, &RECT, &name_key, Some(&id_key)).unwrap();
    assert_eq!(d.id, "TST");
    assert_eq!(d.name, "Testland");
    assert_eq!(d.geo_polygons.len(), 1);
    assert_eq!(d.geo_polygons[0].len(), 4);
    assert_eq!(d.vector_polygons.len(), 1);
    assert_eq!(d.vector_polygons[0].len(), 4);
    // One degree spans 100_000 microunits in this rectangle, both axes.
    assert_eq!(d.vector_polygons[0][0], Point { x: 18_000_000, y: 9_000_000 });
    assert_eq!(d.vector_total_area2, 2 * 100_000u128 * 100_000u128);
    assert!(d.includes(Point { x: 18_050_000, y: 8_950_000 }));
    assert!(!d.includes(Point { x: 17_950_000, y: 8_950_000 }));
}

#[test]
fn geo_drawable_takes_the_embedded_id_when_no_property_is_named() {
    let record = FeatureRecord {
        embedded_id: Some("E1".to_string()),
        properties: vec![("name".to_string(), "Embedded".to_string())],
        geometry: Some(GeoGeometry::Polygon(vec![closed_square(0, 0)])),
    };
    let name_key = "name".to_string();
    let d = GeoDrawable::new(record, &RECT, &name_key, None).unwrap();
    assert_eq!(d.id, "E1");
    assert_eq!(d.name, "Embedded");
}

#[test]
fn missing_id_is_reported() {
    let record = FeatureRecord {
        embedded_id: None,
        properties: vec![("ADMIN".to_string(), "Nameful".to_string())],
        geometry: Some(GeoGeometry::Polygon(vec![closed_square(0, 0)])),
    };
    let name_key = "ADMIN".to_string();
    let id_key = "ISO_A3".to_string();
    let e = GeoDrawable::new(record, &RECT, &name_key, Some(&id_key)).unwrap_err();
    assert_eq!(e.kind, LoadErrorKind::MissingId);
}

#[test]
fn missing_name_is_reported() {
    let record = FeatureRecord {
        embedded_id: None,
        properties: vec![("ISO_A3".to_string(), "TST".to_string())],
        geometry: Some(GeoGeometry::Polygon(vec![closed_square(0, 0)])),
    };
    let name_key = "ADMIN".to_string();
    let id_key = "ISO_A3".to_string();
    let e = GeoDrawable::new(record, &RECT, &name_key, Some(&id_key)).unwrap_err();
    assert_eq!(e.kind, LoadErrorKind::MissingName);
}

#[test]
fn missing_or_unsupported_geometry_is_reported() {
    let mut record = square_record("TST", "Testland", 0, 0);
    record.geometry = None;
    let name_key = "ADMIN".to_string();
    let id_key = "ISO_A3".to_string();
    let e = GeoDrawable::new(record, &RECT, &name_key, Some(&id_key)).unwrap_err();
    assert_eq!(e.kind, LoadErrorKind::MissingOrInvalidGeometry);

    let mut record = square_record("TST", "Testland", 0, 0);
    record.geometry = Some(GeoGeometry::Unsupported);
    let e = GeoDrawable::new(record, &RECT, &name_key, Some(&id_key)).unwrap_err();
    assert_eq!(e.kind, LoadErrorKind::MissingOrInvalidGeometry);
}

#[test]
fn multi_polygon_rings_are_collected_in_order() {
    let record = FeatureRecord {
        embedded_id: None,
        properties: vec![
            ("ISO_A3".to_string(), "TWO".to_string()),
            ("ADMIN".to_string(), "Two Islands".to_string()),
        ],
        geometry: Some(GeoGeometry::MultiPolygon(vec![
            vec![closed_square(0, 0)],
            vec![closed_square(3, 0)],
        ])),
    };
    let name_key = "ADMIN".to_string();
    let id_key = "ISO_A3".to_string();
    let d = GeoDrawable::new(record, &RECT, &name_key, Some(&id_key)).unwrap();
    assert_eq!(d.vector_polygons.len(), 2);
    assert_eq!(d.bounds.len(), 2);
    assert_eq!(d.vector_total_area2, 2 * 2 * 100_000u128 * 100_000u128);
}

#[test]
fn resize_twice_equals_constructing_fresh_against_the_last_rectangle() {
    let r2 = Rect { x: 10, y: 20, width: 72_000_000, height: 36_000_000 };
    let name_key = "ADMIN".to_string();
    let id_key = "ISO_A3".to_string();
    let mut resized =
        GeoDrawable::new(square_record("TST", "Testland", 2, 3), &RECT, &name_key, Some(&id_key))
            .unwrap();
    resized.on_resize(&Rect { x: -5, y: 0, width: 1000, height: 1000 });
    resized.on_resize(&r2);
    let fresh =
        GeoDrawable::new(square_record("TST", "Testland", 2, 3), &r2, &name_key, Some(&id_key))
            .unwrap();
    assert_eq!(resized.vector_polygons, fresh.vector_polygons);
    assert_eq!(resized.bounds, fresh.bounds);
    assert_eq!(resized.vector_total_area2, fresh.vector_total_area2);
    assert_eq!(resized.geo_polygons, fresh.geo_polygons);
}

#[test]
fn property_lookup_finds_the_first_match() {
    let record = FeatureRecord {
        embedded_id: None,
        properties: vec![
            ("a".to_string(), "first".to_string()),
            ("b".to_string(), "second".to_string()),
            ("a".to_string(), "shadowed".to_string()),
        ],
        geometry: None,
    };
    assert_eq!(get_feature_property(&record, &"a".to_string()), Some("first".to_string()));
    assert_eq!(get_feature_property(&record, &"b".to_string()), Some("second".to_string()));
    assert_eq!(get_feature_property(&record, &"c".to_string()), None);
}

#[test]
fn province_uses_mapping_overrides_and_default_name_key() {
    let record = FeatureRecord {
        embedded_id: Some("P9".to_string()),
        properties: vec![("name".to_string(), "Plain Province".to_string())],
        geometry: Some(GeoGeometry::Polygon(vec![closed_square(0, 0)])),
    };
    let p = Province::new(record, &RECT, None).unwrap();
    assert_eq!(p.geo_drawable.id, "P9");
    assert_eq!(p.geo_drawable.name, "Plain Province");

    let mapping = ProvinceMapping { name: Some("title".to_string()), id: Some("code".to_string()) };
    let record = FeatureRecord {
        embedded_id: None,
        properties: vec![
            ("code".to_string(), "C7".to_string()),
            ("title".to_string(), "Mapped Province".to_string()),
        ],
        geometry: Some(GeoGeometry::Polygon(vec![closed_square(0, 0)])),
    };
    let p = Province::new(record, &RECT, Some(&mapping)).unwrap();
    assert_eq!(p.geo_drawable.id, "C7");
    assert_eq!(p.geo_drawable.name, "Mapped Province");
}

#[test]
fn map_load_error_message_names_the_reason() {
    let e = MapLoadError::new(LoadErrorKind::MapParseFailure, "bad document".to_string());
    assert_eq!(e.kind, LoadErrorKind::MapParseFailure);
    assert_eq!(e.message(), "failed to load map: bad document");
}

#[test]
fn map_config_lays_out_the_data_paths() {
    let c = MapConfig::for_map(&"maps".to_string(), &"europe".to_string());
    assert_eq!(c.name, "europe");
    assert_eq!(c.nations_path, "maps/europe/nations.geojson");
    assert_eq!(c.province_mappings_path, "maps/europe/provinces.json");
    assert_eq!(c.provinces_dir, "maps/europe/provinces");
}

#[test]
fn select_map_picks_by_name_and_rejects_unknown_names() {
    let maps = vec![
        MapConfig::for_map(&"maps".to_string(), &"europe".to_string()),
        MapConfig::for_map(&"maps".to_string(), &"asia".to_string()),
    ];
    let m = select_map(maps, &"asia".to_string()).unwrap();
    assert_eq!(m.name, "asia");

    let maps = vec![MapConfig::for_map(&"maps".to_string(), &"europe".to_string())];
    let e = select_map(maps, &"atlantis".to_string()).unwrap_err();
    assert_eq!(e.kind, LoadErrorKind::MapReadFailure);
}

#[test]
fn new_player_has_no_nation() {
    let p = Player::new();
    assert!(p.nation_id.is_none());
}
