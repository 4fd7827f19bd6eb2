//! Alignment engine tests: strategy choice, windowing, nearest point and
//! interpolation.

use geotruth_core::gps::{GpsBounds, GpsPoint, GpsTrack};
use geotruth_core::sync::{SyncError, SyncMethod, TimeSyncEngine};

const BASE: i64 = 1_700_000_000_000;

fn point(ts_ms: i64, lat_e6: i64, lon_e6: i64, heading_e6: Option<i64>) -> GpsPoint {
    GpsPoint {
        timestamp_ms: ts_ms,
        lat_e6,
        lon_e6,
        elevation_e6: None,
        speed_kmh_e6: None,
        heading_e6,
        accuracy_e6: None,
    }
}

fn track_of(points: Vec<GpsPoint>) -> GpsTrack {
    let n = points.len();
    let min_lat = points.iter().map(|p| p.lat_e6).min().unwrap();
    let max_lat = points.iter().map(|p| p.lat_e6).max().unwrap();
    let min_lon = points.iter().map(|p| p.lon_e6).min().unwrap();
    let max_lon = points.iter().map(|p| p.lon_e6).max().unwrap();
    GpsTrack {
        name: None,
        source_file: "test.gpx".to_string(),
        track_type: "gpx".to_string(),
        point_count: n,
        start_time_ms: Some(points[0].timestamp_ms),
        end_time_ms: Some(points[n - 1].timestamp_ms),
        bounds: Some(GpsBounds {
            min_lat_e6: min_lat,
            max_lat_e6: max_lat,
            min_lon_e6: min_lon,
            max_lon_e6: max_lon,
        }),
        points,
    }
}

#[test]
fn test_interpolation() {
    let points = vec![
        point(BASE, 36_000_000, -112_000_000, Some(90_000_000)),
        point(BASE + 10_000, 36_100_000, -112_100_000, Some(180_000_000)),
    ];
    let track = track_of(points);
    let engine = TimeSyncEngine::new(track, 10_000, Some(BASE));
    let result = engine.synchronize();
    assert!(result.is_ok());
}

#[test]
fn empty_track_fails_with_no_gps_points() {
    let track = GpsTrack {
        name: None,
        source_file: "empty.gpx".to_string(),
        track_type: "gpx".to_string(),
        point_count: 0,
        start_time_ms: None,
        end_time_ms: None,
        bounds: None,
        points: vec![],
    };
    let engine = TimeSyncEngine::new(track, 60_000, Some(BASE));
    let r = engine.synchronize();
    assert!(matches!(r, Err(SyncError::NoGpsPoints)));
}

#[test]
fn known_video_start_uses_metadata_method() {
    let points = vec![
        point(BASE + 2_000, 10_000_000, 20_000_000, None),
        point(BASE + 8_000, 10_500_000, 20_500_000, None),
    ];
    let engine = TimeSyncEngine::new(track_of(points), 60_000, Some(BASE));
    let s = engine.synchronize().unwrap();
    assert_eq!(s.method, SyncMethod::VideoMetadata);
    assert_eq!(s.confidence_e6, 900_000);
    // offset is GPS start minus video start
    assert_eq!(s.offset_ms, 2_000);
    assert_eq!(s.aligned_points.len(), 2);
    assert_eq!(s.aligned_points[0].video_time_ms, 0);
    assert_eq!(s.aligned_points[1].video_time_ms, 6_000);
}

#[test]
fn unknown_video_start_falls_back_to_first_point() {
    let points = vec![
        point(BASE, 10_000_000, 20_000_000, None),
        point(BASE + 5_000, 10_500_000, 20_500_000, None),
    ];
    let engine = TimeSyncEngine::new(track_of(points), 60_000, None);
    let s = engine.synchronize().unwrap();
    assert_eq!(s.method, SyncMethod::FirstGpsPoint);
    assert_eq!(s.confidence_e6, 500_000);
    assert_eq!(s.offset_ms, 0);
    assert_eq!(s.aligned_points.len(), 2);
}

#[test]
fn points_outside_the_video_window_are_dropped() {
    let points = vec![
        point(BASE, 1_000_000, 1_000_000, None),
        point(BASE + 5_000, 2_000_000, 2_000_000, None),
        point(BASE + 120_000, 3_000_000, 3_000_000, None),
    ];
    let engine = TimeSyncEngine::new(track_of(points), 10_000, Some(BASE));
    let s = engine.synchronize().unwrap();
    assert_eq!(s.aligned_points.len(), 2);
}

#[test]
fn empty_video_window_fails_with_no_overlap() {
    // a window of negative length admits no fix at all
    let points = vec![point(BASE, 1_000_000, 1_000_000, None)];
    let engine = TimeSyncEngine::new(track_of(points), -1, Some(BASE));
    let r = engine.synchronize();
    assert!(matches!(r, Err(SyncError::NoOverlap)));
}

#[test]
fn nearest_point_prefers_earliest_on_ties() {
    let points = vec![
        point(BASE, 1_000_000, 1_000_000, None),
        point(BASE + 2_000, 2_000_000, 2_000_000, None),
        point(BASE + 4_000, 3_000_000, 3_000_000, None),
    ];
    let engine = TimeSyncEngine::new(track_of(points), 60_000, Some(BASE));
    let s = engine.synchronize().unwrap();
    // query time 1000 is equally near the fixes at 0 and 2000: earliest wins
    let p = engine.get_point_at_time(&s, 1_000).unwrap();
    assert_eq!(p.lat_e6, 1_000_000);
    // query time 3900 is nearest the fix at 4000
    let p = engine.get_point_at_time(&s, 3_900).unwrap();
    assert_eq!(p.lat_e6, 3_000_000);
}

#[test]
fn interpolation_halfway_between_fixes() {
    let points = vec![
        point(BASE, 36_000_000, -112_000_000, Some(90_000_000)),
        point(BASE + 10_000, 36_100_000, -112_100_000, Some(180_000_000)),
    ];
    let engine = TimeSyncEngine::new(track_of(points), 10_000, Some(BASE));
    let s = engine.synchronize().unwrap();
    let (lat, lon, heading) = engine.interpolate_position(&s, 5_000).unwrap();
    assert_eq!(lat, 36_050_000);
    assert_eq!(lon, -112_050_000);
    assert_eq!(heading, Some(135_000_000));
}

#[test]
fn interpolation_at_aligned_time_returns_point_unchanged() {
    let points = vec![
        point(BASE, 36_000_000, -112_000_000, Some(90_000_000)),
        point(BASE + 10_000, 36_100_000, -112_100_000, Some(180_000_000)),
    ];
    let engine = TimeSyncEngine::new(track_of(points), 10_000, Some(BASE));
    let s = engine.synchronize().unwrap();
    let (lat, lon, _) = engine.interpolate_position(&s, 0).unwrap();
    assert_eq!(lat, 36_000_000);
    assert_eq!(lon, -112_000_000);
    let (lat, lon, _) = engine.interpolate_position(&s, 10_000).unwrap();
    assert_eq!(lat, 36_100_000);
    assert_eq!(lon, -112_100_000);
}

#[test]
fn interpolation_does_not_extrapolate() {
    let points = vec![
        point(BASE + 2_000, 36_000_000, -112_000_000, Some(45_000_000)),
        point(BASE + 8_000, 36_100_000, -112_100_000, None),
    ];
    let engine = TimeSyncEngine::new(track_of(points), 60_000, Some(BASE));
    let s = engine.synchronize().unwrap();
    // before the first aligned fix: its coordinates verbatim
    let (lat, lon, heading) = engine.interpolate_position(&s, 0).unwrap();
    assert_eq!(lat, 36_000_000);
    assert_eq!(lon, -112_000_000);
    assert_eq!(heading, Some(45_000_000));
    // after the last aligned fix: its coordinates verbatim
    let (lat, lon, heading) = engine.interpolate_position(&s, 30_000).unwrap();
    assert_eq!(lat, 36_100_000);
    assert_eq!(lon, -112_100_000);
    assert_eq!(heading, None);
}

#[test]
fn single_heading_is_carried_through_interpolation() {
    let points = vec![
        point(BASE, 1_000_000, 1_000_000, Some(70_000_000)),
        point(BASE + 10_000, 2_000_000, 2_000_000, None),
    ];
    let engine = TimeSyncEngine::new(track_of(points), 10_000, Some(BASE));
    let s = engine.synchronize().unwrap();
    let (_, _, heading) = engine.interpolate_position(&s, 5_000).unwrap();
    assert_eq!(heading, Some(70_000_000));
}
