//! Offline verification tests: confidence scale, lookup tables, bundles.

use geotruth_core::geomath::{angle_diff_e6, is_in_fov};
use geotruth_core::gps::GpsPoint;
use geotruth_core::truth::{LocalTruthEngine, VerificationConfidence};

fn point(lat_e6: i64, lon_e6: i64) -> GpsPoint {
    GpsPoint {
        timestamp_ms: 0,
        lat_e6,
        lon_e6,
        elevation_e6: None,
        speed_kmh_e6: None,
        heading_e6: Some(90_000_000),
        accuracy_e6: None,
    }
}

#[test]
fn confidence_boundaries() {
    // a score of 0.9 (in millionths) belongs to the higher tier
    assert_eq!(VerificationConfidence::from_score_e6(900_000), VerificationConfidence::High);
    assert_eq!(VerificationConfidence::from_score_e6(899_900), VerificationConfidence::Medium);
    assert_eq!(VerificationConfidence::from_score_e6(600_000), VerificationConfidence::Medium);
    assert_eq!(VerificationConfidence::from_score_e6(300_000), VerificationConfidence::Low);
    assert_eq!(VerificationConfidence::from_score_e6(0), VerificationConfidence::Unverified);
}

#[test]
fn confidence_midpoints_round_trip() {
    for c in [
        VerificationConfidence::High,
        VerificationConfidence::Medium,
        VerificationConfidence::Low,
        VerificationConfidence::Unverified,
    ] {
        assert_eq!(VerificationConfidence::from_score_e6(c.as_score_e6()), c);
    }
    assert_eq!(VerificationConfidence::High.as_score_e6(), 950_000);
    assert_eq!(VerificationConfidence::Medium.as_score_e6(), 750_000);
    assert_eq!(VerificationConfidence::Low.as_score_e6(), 450_000);
    assert_eq!(VerificationConfidence::Unverified.as_score_e6(), 150_000);
}

#[test]
fn engine_availability() {
    let engine = LocalTruthEngine::new();
    assert!(!engine.is_available());
    let engine = engine.with_tiles("/maps/region.pmtiles".to_string(), false);
    assert!(!engine.is_available());
    let engine = engine.with_tiles("/maps/region.pmtiles".to_string(), true);
    assert!(engine.is_available());
    let engine = LocalTruthEngine::new().with_poi_db("/maps/pois.db".to_string(), true);
    assert!(engine.is_available());
}

#[test]
fn verify_point_in_the_united_states() {
    let engine = LocalTruthEngine::new();
    // Grand Canyon: latitude 36.1, longitude -112.1
    let b = engine.verify_point(&point(36_100_000, -112_100_000), 60_000_000).unwrap();
    assert_eq!(b.location.lat_e6, 36_100_000);
    assert_eq!(b.location.lon_e6, -112_100_000);
    assert_eq!(b.location.country.as_deref(), Some("United States"));
    assert_eq!(b.location.timezone.as_deref(), Some("America/Denver"));
    assert!(b.pois.is_empty());
    assert_eq!(b.facts.len(), 2);
    assert_eq!(b.facts[0].fact_type, "country");
    assert_eq!(b.facts[0].name, "Country");
    assert_eq!(b.facts[0].value, "United States");
    assert_eq!(b.facts[0].confidence, VerificationConfidence::Medium);
    assert_eq!(b.facts[0].source, "local");
    assert_eq!(b.facts[1].fact_type, "timezone");
    assert_eq!(b.facts[1].value, "America/Denver");
    assert_eq!(b.facts[1].confidence, VerificationConfidence::High);
    assert_eq!(b.verification_mode, "offline");
    assert_eq!(b.confidence, VerificationConfidence::Medium);
}

#[test]
fn verify_point_with_nothing_found_is_low_confidence() {
    let engine = LocalTruthEngine::new();
    // the open ocean at the equator matches no lookup table
    let b = engine.verify_point(&point(0, 0), 60_000_000).unwrap();
    assert_eq!(b.location.country, None);
    assert_eq!(b.location.timezone, None);
    assert!(b.facts.is_empty());
    assert!(b.pois.is_empty());
    assert_eq!(b.confidence, VerificationConfidence::Low);
}

#[test]
fn timezone_bands() {
    let engine = LocalTruthEngine::new();
    assert_eq!(
        engine.estimate_timezone(40_000_000, -120_000_000).as_deref(),
        Some("America/Los_Angeles")
    );
    assert_eq!(
        engine.estimate_timezone(40_000_000, -105_000_000).as_deref(),
        Some("America/Denver")
    );
    assert_eq!(
        engine.estimate_timezone(40_000_000, -90_000_000).as_deref(),
        Some("America/Chicago")
    );
    assert_eq!(
        engine.estimate_timezone(40_000_000, -75_000_000).as_deref(),
        Some("America/New_York")
    );
    assert_eq!(engine.estimate_timezone(40_000_000, 10_000_000), None);
}

#[test]
fn country_boxes() {
    let engine = LocalTruthEngine::new();
    assert_eq!(
        engine.estimate_country(36_000_000, -112_000_000).as_deref(),
        Some("United States")
    );
    assert_eq!(engine.estimate_country(55_000_000, -100_000_000).as_deref(), Some("Canada"));
    assert_eq!(engine.estimate_country(20_000_000, -100_000_000).as_deref(), Some("Mexico"));
    assert_eq!(engine.estimate_country(48_000_000, 11_000_000), None);
}

#[test]
fn angular_difference_wraps_around_north() {
    // 350 and 10 degrees are 20 degrees apart, not 340
    assert_eq!(angle_diff_e6(350_000_000, 10_000_000), 20_000_000);
    assert_eq!(angle_diff_e6(10_000_000, 350_000_000), 20_000_000);
    assert_eq!(angle_diff_e6(90_000_000, 90_000_000), 0);
    assert_eq!(angle_diff_e6(0, 180_000_000), 180_000_000);
}

#[test]
fn field_of_view_membership() {
    // a 30-degree view reaches 15 degrees to each side
    assert!(is_in_fov(90_000_000, 100_000_000, 30_000_000));
    assert!(is_in_fov(90_000_000, 105_000_000, 30_000_000));
    assert!(!is_in_fov(90_000_000, 106_000_000, 30_000_000));
    assert!(is_in_fov(350_000_000, 5_000_000, 40_000_000));
}
