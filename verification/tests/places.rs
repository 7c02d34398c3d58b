use nameforge::batch::{location_request, resolve_gps_location};
use nameforge::cache::GPSCache;
use nameforge::gps::{
    build_nominatim_url, cached_place, extract_place_name, gps_to_place, to_cache_key, to_key,
    Angle, Coordinate, NominatimResponse, Rational,
};

fn r(num: u32, denom: u32) -> Rational {
    Rational { num, denom }
}

fn angle(d: u32, m: u32, s: u32, negative: bool) -> Angle {
    Angle { degrees: r(d, 1), minutes: r(m, 1), seconds: r(s, 1), negative }
}

fn pittsburgh() -> Coordinate {
    Coordinate { lat: angle(40, 26, 46, false), lon: angle(79, 58, 56, true) }
}

fn answer(text: &str) -> Option<NominatimResponse> {
    Some(NominatimResponse { display_name: text.to_string() })
}

#[test]
fn degrees_minutes_seconds_north_and_south() {
    let north = angle(40, 26, 46, false).to_micro_degrees();
    assert_eq!(north, 40_446_111);
    assert!((north as f64 / 1e6 - 40.446111).abs() < 1e-5);
    let south = angle(40, 26, 46, true).to_micro_degrees();
    assert_eq!(south, -40_446_111);
    assert!((south as f64 / 1e6 + 40.446111).abs() < 1e-5);
}

#[test]
fn fractions_are_taken_exactly() {
    let a = Angle { degrees: r(0, 1), minutes: r(0, 1), seconds: r(36, 10), negative: false };
    assert_eq!(a.to_micro_degrees(), 1000);
    let b = Angle { degrees: r(3, 2), minutes: r(30, 1), seconds: r(0, 7), negative: false };
    assert_eq!(b.to_micro_degrees(), 2_000_000);
    let c = Angle { degrees: r(0, 1), minutes: r(0, 1), seconds: r(1, 1), negative: true };
    assert_eq!(c.to_micro_degrees(), -277);
    let big = Angle {
        degrees: r(u32::MAX, 1),
        minutes: r(u32::MAX, 1),
        seconds: r(u32::MAX, 1),
        negative: false,
    };
    assert_eq!(big.to_micro_degrees(), 4_367_743_129_720_833);
    let fine = Angle {
        degrees: r(u32::MAX, u32::MAX),
        minutes: r(u32::MAX, u32::MAX),
        seconds: r(u32::MAX, u32::MAX),
        negative: false,
    };
    assert_eq!(fine.to_micro_degrees(), 1_016_944);
}

#[test]
fn validity_of_angles() {
    assert!(angle(1, 2, 3, false).is_valid());
    assert!(!Angle { degrees: r(1, 0), minutes: r(1, 1), seconds: r(1, 1), negative: false }.is_valid());
    assert!(!Angle { degrees: r(1, 1), minutes: r(1, 0), seconds: r(1, 1), negative: false }.is_valid());
    assert!(!Angle { degrees: r(1, 1), minutes: r(1, 1), seconds: r(1, 0), negative: false }.is_valid());
}

#[test]
fn keys_and_their_text() {
    let c = pittsburgh();
    assert_eq!(to_key(&c), (40_446_111, -79_982_222));
    assert_eq!(to_cache_key(&c), "40446111_-79982222");
    let zero = Coordinate { lat: angle(0, 0, 0, true), lon: angle(0, 0, 0, false) };
    assert_eq!(to_cache_key(&zero), "0_0");
}

#[test]
fn nearby_positions_share_a_key() {
    let a = Coordinate {
        lat: Angle { degrees: r(40, 1), minutes: r(26, 1), seconds: r(46000, 1000), negative: false },
        lon: angle(79, 58, 56, true),
    };
    let b = Coordinate {
        lat: Angle { degrees: r(40, 1), minutes: r(26, 1), seconds: r(46001, 1000), negative: false },
        lon: angle(79, 58, 56, true),
    };
    assert_eq!(to_cache_key(&a), to_cache_key(&b));
    let far = Coordinate { lat: angle(40, 26, 47, false), lon: angle(79, 58, 56, true) };
    assert_ne!(to_cache_key(&a), to_cache_key(&far));
}

#[test]
fn geocoder_address() {
    assert_eq!(
        build_nominatim_url(&pittsburgh()),
        "https://nominatim.openstreetmap.org/reverse?format=json&lat=40.446111&lon=-79.982222&zoom=10&addressdetails=0"
    );
    let small = Coordinate { lat: angle(0, 0, 1, true), lon: angle(5, 0, 0, false) };
    assert_eq!(
        build_nominatim_url(&small),
        "https://nominatim.openstreetmap.org/reverse?format=json&lat=-0.000277&lon=5.000000&zoom=10&addressdetails=0"
    );
}

#[test]
fn place_names() {
    assert_eq!(extract_place_name("New York, New York, United States"), "New_York");
    assert_eq!(extract_place_name("  Paris , France"), "Paris");
    assert_eq!(extract_place_name("Rio de Janeiro"), "Rio_de_Janeiro");
    assert_eq!(extract_place_name(",France"), "");
    assert_eq!(extract_place_name(""), "");
    assert_eq!(extract_place_name(" \t\u{a0}Köln\u{3000}\n, DE"), "Köln");
    assert_eq!(extract_place_name("a  b,c"), "a__b");
    assert_eq!(extract_place_name("a\tb"), "a\tb");
}

#[test]
fn a_miss_asks_and_stores() {
    let c = pittsburgh();
    let mut cache = GPSCache::new();
    assert_eq!(cached_place(&c, &cache), None);
    assert!(location_request(&Some(c), &cache).is_some());
    let (place, changed) = gps_to_place(&c, &mut cache, answer("Pittsburgh, Allegheny County"));
    assert_eq!(place, Some("Pittsburgh".to_string()));
    assert!(changed);
    assert_eq!(cache.get("40446111_-79982222"), Some(&"Pittsburgh".to_string()));
    assert_eq!(cached_place(&c, &cache), Some("Pittsburgh".to_string()));
}

#[test]
fn a_hit_does_not_ask_nor_store() {
    let c = pittsburgh();
    let mut cache = GPSCache::new();
    cache.insert("40446111_-79982222".to_string(), "Steel_City".to_string());
    assert_eq!(location_request(&Some(c), &cache), None);
    let (place, changed) = gps_to_place(&c, &mut cache, answer("Elsewhere, X"));
    assert_eq!(place, Some("Steel_City".to_string()));
    assert!(!changed);
    assert_eq!(cache.len(), 1);
    assert_eq!(cache.get("40446111_-79982222"), Some(&"Steel_City".to_string()));
}

#[test]
fn a_failed_lookup_is_stored_as_unknown() {
    let c = pittsburgh();
    let mut cache = GPSCache::new();
    let (place, changed) = gps_to_place(&c, &mut cache, None);
    assert_eq!(place, Some("UnknownPlace".to_string()));
    assert!(changed);
    let (again, changed_again) = gps_to_place(&c, &mut cache, answer("Pittsburgh"));
    assert_eq!(again, Some("UnknownPlace".to_string()));
    assert!(!changed_again);
}

#[test]
fn files_without_position() {
    let mut cache = GPSCache::new();
    assert_eq!(location_request(&None, &cache), None);
    let (place, changed) = resolve_gps_location(&None, &mut cache, answer("Paris"));
    assert_eq!(place, "NoGPS");
    assert!(!changed);
    assert_eq!(cache.len(), 0);
    let (place, changed) = resolve_gps_location(&Some(pittsburgh()), &mut cache, answer("Paris, F"));
    assert_eq!(place, "Paris");
    assert!(changed);
}

#[test]
fn cache_holds_what_is_inserted() {
    let mut cache = GPSCache::new();
    assert_eq!(cache.len(), 0);
    assert_eq!(cache.get("a"), None);
    cache.insert("a".to_string(), "1".to_string());
    cache.insert("b".to_string(), "2".to_string());
    cache.insert("a".to_string(), "3".to_string());
    assert_eq!(cache.get("a"), Some(&"3".to_string()));
    assert_eq!(cache.get("b"), Some(&"2".to_string()));
    assert_eq!(cache.get("c"), None);
    assert_eq!(cache.len(), 2);
}

#[test]
fn cache_is_stored_and_loaded() {
    let empty = GPSCache::load(None);
    assert_eq!(empty.len(), 0);
    assert!(empty.save().is_empty());
    let pairs = vec![
        ("k1".to_string(), "v1".to_string()),
        ("k2".to_string(), "v2".to_string()),
        ("k1".to_string(), "v3".to_string()),
    ];
    let cache = GPSCache::load(Some(pairs));
    assert_eq!(cache.get("k1"), Some(&"v3".to_string()));
    assert_eq!(cache.get("k2"), Some(&"v2".to_string()));
    let mut saved = cache.save();
    saved.sort();
    assert_eq!(saved, vec![("k1".to_string(), "v3".to_string()), ("k2".to_string(), "v2".to_string())]);
    let again = GPSCache::load(Some(saved));
    assert_eq!(again.get("k1"), Some(&"v3".to_string()));
    assert_eq!(again.len(), 2);
}

#[test]
fn the_cache_counts_its_keys() {
    let mut cache = GPSCache::new();
    for k in 0..20 {
        cache.insert(format!("key{}", k % 7), format!("v{}", k));
        assert_eq!(cache.len(), (k + 1).min(7));
    }
    assert_eq!(cache.save().len(), 7);
}
