//! Track parser tests: GPX and NMEA parsing, format detection, bounds.

use geotruth_core::format::{detect_format, parse_gps_data, TrackFormat};
use geotruth_core::gps::GpsError;
use geotruth_core::gpx::parse_gpx_at;
use geotruth_core::nmea::parse_nmea_at;

const NOW: i64 = 1_700_000_000_000;

#[test]
fn gpx_points_counted_and_sorted() {
    let content = b"<gpx><name>Morning Ride</name><trk><trkseg>\
<trkpt lat=\"36.2\" lon=\"-112.2\"><time>2023-05-01T10:00:20Z</time></trkpt>\
<trkpt lat=\"36.0\" lon=\"-112.0\"><ele>1200.5</ele><time>2023-05-01T10:00:00Z</time></trkpt>\
<trkpt lat=\"bad\" lon=\"-112.1\"></trkpt>\
</trkseg></trk>\
<wpt lat=\"36.1\" lon=\"-112.1\"><time>2023-05-01T10:00:10Z</time></wpt>\
</gpx>";
    let track = parse_gpx_at(content, "ride.gpx".to_string(), NOW).unwrap();
    // three elements parse (the one with a bad latitude is skipped)
    assert_eq!(track.point_count, 3);
    assert_eq!(track.points.len(), 3);
    // sorted by timestamp even though the document is out of order
    for w in track.points.windows(2) {
        assert!(w[0].timestamp_ms <= w[1].timestamp_ms);
    }
    // 2023-05-01T10:00:00Z
    assert_eq!(track.points[0].timestamp_ms, 1_682_935_200_000);
    assert_eq!(track.points[0].lat_e6, 36_000_000);
    assert_eq!(track.points[0].lon_e6, -112_000_000);
    assert_eq!(track.points[0].elevation_e6, Some(1_200_500_000));
    assert_eq!(track.name, Some(b"Morning Ride".to_vec()));
    assert_eq!(track.track_type, "gpx");
    assert_eq!(track.source_file, "ride.gpx");
    assert_eq!(track.start_time_ms, Some(track.points[0].timestamp_ms));
    assert_eq!(track.end_time_ms, Some(track.points[2].timestamp_ms));
}

#[test]
fn gpx_missing_time_uses_clock() {
    let content = b"<gpx><trkpt lat=\"1.5\" lon=\"2.5\"></trkpt></gpx>";
    let track = parse_gpx_at(content, "t.gpx".to_string(), NOW).unwrap();
    assert_eq!(track.points[0].timestamp_ms, NOW);
}

#[test]
fn gpx_no_points_is_error() {
    let content = b"<gpx><trk></trk></gpx>";
    let r = parse_gpx_at(content, "empty.gpx".to_string(), NOW);
    assert!(matches!(r, Err(GpsError::NoPoints)));
}

#[test]
fn single_point_track_has_degenerate_bounds() {
    let content = b"<gpx><trkpt lat=\"47.5\" lon=\"-122.25\"></trkpt></gpx>";
    let track = parse_gpx_at(content, "one.gpx".to_string(), NOW).unwrap();
    let b = track.bounds.unwrap();
    assert_eq!(b.min_lat_e6, b.max_lat_e6);
    assert_eq!(b.min_lon_e6, b.max_lon_e6);
    assert_eq!(b.min_lat_e6, 47_500_000);
    assert_eq!(b.min_lon_e6, -122_250_000);
}

#[test]
fn bounds_cover_all_points() {
    let content = b"<gpx>\
<trkpt lat=\"10.0\" lon=\"20.0\"><time>2023-01-01T00:00:00Z</time></trkpt>\
<trkpt lat=\"-5.0\" lon=\"25.0\"><time>2023-01-01T00:00:01Z</time></trkpt>\
<trkpt lat=\"7.0\" lon=\"15.0\"><time>2023-01-01T00:00:02Z</time></trkpt>\
</gpx>";
    let track = parse_gpx_at(content, "b.gpx".to_string(), NOW).unwrap();
    let b = track.bounds.unwrap();
    assert_eq!(b.min_lat_e6, -5_000_000);
    assert_eq!(b.max_lat_e6, 10_000_000);
    assert_eq!(b.min_lon_e6, 15_000_000);
    assert_eq!(b.max_lon_e6, 25_000_000);
}

#[test]
fn nmea_rmc_sentence_parses() {
    let line = b"$GPRMC,123519,A,4807.038,N,01131.000,E,022.4,084.4,230394,003.1,W*6A\n";
    let track = parse_nmea_at(line, "log.nmea".to_string(), 0).unwrap();
    assert_eq!(track.point_count, 1);
    let p = &track.points[0];
    // 48 degrees 7.038 minutes = 48.1173 degrees (within a thousandth)
    assert!((p.lat_e6 - 48_117_300).abs() < 1_000);
    // 11 degrees 31.000 minutes = 11.516666 degrees
    assert!((p.lon_e6 - 11_516_700).abs() < 1_000);
    // 22.4 knots times 1.852 = 41.4848 km/h
    assert_eq!(p.speed_kmh_e6, Some(41_484_800));
    assert_eq!(p.heading_e6, Some(84_400_000));
    // 1994-03-23 12:35:19 UTC
    assert_eq!(p.timestamp_ms, 764_426_119_000);
    assert_eq!(track.track_type, "nmea");
}

#[test]
fn nmea_rmc_void_status_is_skipped() {
    let line = b"$GPRMC,123519,V,4807.038,N,01131.000,E,022.4,084.4,230394,003.1,W*6A\n";
    let r = parse_nmea_at(line, "log.nmea".to_string(), 0);
    assert!(matches!(r, Err(GpsError::NoPoints)));
}

#[test]
fn nmea_gga_fix_quality_gates_the_point() {
    let no_fix = b"$GPGGA,123519,4807.038,N,01131.000,E,0,08,0.9,545.4,M,46.9,M,,*47\n";
    let r = parse_nmea_at(no_fix, "g.nmea".to_string(), 0);
    assert!(matches!(r, Err(GpsError::NoPoints)));

    let fix = b"$GPGGA,123519,4807.038,N,01131.000,E,1,08,0.9,545.4,M,46.9,M,,*47\n";
    let track = parse_nmea_at(fix, "g.nmea".to_string(), 0).unwrap();
    assert_eq!(track.point_count, 1);
    let p = &track.points[0];
    assert!((p.lat_e6 - 48_117_300).abs() < 1_000);
    assert_eq!(p.elevation_e6, Some(545_400_000));
    // dated on the clock's calendar day: 12:35:19 after the epoch day start
    assert_eq!(p.timestamp_ms, 45_319_000);
}

#[test]
fn nmea_southern_western_hemispheres_negate() {
    let line = b"$GPRMC,123519,A,4807.038,S,01131.000,W,,,230394,,*6A\n";
    let track = parse_nmea_at(line, "log.nmea".to_string(), 0).unwrap();
    let p = &track.points[0];
    assert!(p.lat_e6 < 0);
    assert!(p.lon_e6 < 0);
    assert_eq!(p.speed_kmh_e6, None);
    assert_eq!(p.heading_e6, None);
}

#[test]
fn format_detection_by_extension_and_content() {
    assert_eq!(detect_format(b"anything", Some(b"GPX")), Some(TrackFormat::Gpx));
    assert_eq!(detect_format(b"anything", Some(b"nmea")), Some(TrackFormat::Nmea));
    assert_eq!(detect_format(b"anything", Some(b"LOG")), Some(TrackFormat::Nmea));
    assert_eq!(detect_format(b"anything", Some(b"txt")), Some(TrackFormat::Nmea));
    assert_eq!(detect_format(b"<gpx version=\"1.1\">", None), Some(TrackFormat::Gpx));
    assert_eq!(detect_format(b"$GPRMC,123519,A", None), Some(TrackFormat::Nmea));
    assert_eq!(detect_format(b"$GPGGA,123519", Some(b"dat")), Some(TrackFormat::Nmea));
    assert_eq!(detect_format(b"hello world", None), None);
}

#[test]
fn unknown_format_is_refused() {
    let r = parse_gps_data(b"plain prose, no fixes", None, "x.bin".to_string());
    assert!(matches!(r, Err(GpsError::UnknownFormat)));
}

#[test]
fn parse_gps_data_routes_gpx() {
    let content = b"<gpx><trkpt lat=\"1.0\" lon=\"2.0\"><time>2023-01-01T00:00:00Z</time></trkpt></gpx>";
    let track = parse_gps_data(content, Some(b"gpx"), "a.gpx".to_string()).unwrap();
    assert_eq!(track.track_type, "gpx");
    assert_eq!(track.point_count, 1);
}
