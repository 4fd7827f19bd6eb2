//! NMEA 0183 parsing: `$GPRMC`/`$GNRMC` sentences carry date, time,
//! position, speed and heading, and count only when their status field is
//! `A`; `$GPGGA`/`$GNGGA` sentences carry time, position and elevation, and
//! count only when their fix quality is nonzero.  GGA sentences carry no
//! date, so the parse-time calendar day stands in: a GGA-only log is only
//! time-correct when parsed on the day it was recorded.

use vstd::prelude::*;
use crate::bytes::{match_at, matches_at, split_at, split_by};
use crate::clock::{civil_millis, civil_to_millis, now_millis, TS_LIMIT_MS};
use crate::fixed::{
    floor_div, floor_mod, lemma_digits_val_bounds, parse_scaled_micro, parse_u32, pow10,
    spec_parse_scaled_micro, spec_parse_u32,
};
use crate::gps::{build_track, sort_by_ts, GpsError, GpsPoint, GpsTrack};
use crate::pat::{gngga, gngga_bytes, gnrmc, gnrmc_bytes, gpgga, gpgga_bytes, gprmc, gprmc_bytes};
use crate::SCALED_LIMIT;

verus! {

/// Latest clock reading that the GGA date synthesis accepts: one calendar
/// day below the carried timestamp limit.
pub const NOW_LIMIT_MS: i64 = TS_LIMIT_MS - 86_400_000;

/// Decode a `DDMM.MMMM` coordinate (in millionths) into millionths of a
/// degree: whole degrees are the value divided by one hundred, rounded down,
/// and the remaining minutes count for a sixtieth of a degree each.
pub open spec fn nmea_coord(raw: int) -> int {
    let deg = raw / 100_000_000;
    let min_e6 = raw - deg * 100_000_000;
    deg * 1_000_000 + min_e6 / 60
}

/// Knots (in millionths) to km/h (in millionths): multiply by 1.852.
pub open spec fn knots_to_kmh(k: int) -> int {
    if k >= 0 {
        k * 1852 / 1000
    } else {
        -((-k) * 1852 / 1000)
    }
}

/// The two-digit number at position `at` of `s`.
pub open spec fn two_digits(s: Seq<u8>, at: int) -> Option<u32> {
    spec_parse_u32(s.subrange(at, at + 2))
}

/// The point of a recommended-minimum sentence: valid only when the status
/// field is `A`, with the date and time checked by the calendar.  The
/// two-digit year is pivoted the usual way: seventy and above belongs to
/// the nineteen hundreds, the rest to the two thousands.
pub open spec fn spec_rmc_point(line: Seq<u8>) -> Option<GpsPoint> {
    let parts = split_at(line, 0, seq![44u8]);
    if parts.len() < 10 {
        None
    } else if parts[2] != seq![65u8] {
        None
    } else if parts[1].len() < 6 || parts[9].len() < 6 {
        None
    } else {
        match two_digits(parts[1], 0) {
            None => None,
            Some(h) => match two_digits(parts[1], 2) {
                None => None,
                Some(mi) => match two_digits(parts[1], 4) {
                    None => None,
                    Some(se) => match two_digits(parts[9], 0) {
                        None => None,
                        Some(d) => match two_digits(parts[9], 2) {
                            None => None,
                            Some(mo) => match two_digits(parts[9], 4) {
                                None => None,
                                Some(y) => match civil_millis(
                                    (if y >= 70 { 1900 + y } else { 2000 + y }) as i32,
                                    mo,
                                    d,
                                    h,
                                    mi,
                                    se,
                                ) {
                                    None => None,
                                    Some(ts) => spec_rmc_position(parts, ts),
                                },
                            },
                        },
                    },
                },
            },
        }
    }
}

/// Position, speed and heading fields of a recommended-minimum sentence.
pub open spec fn spec_rmc_position(parts: Seq<Seq<u8>>, ts: i64) -> Option<GpsPoint> {
    match spec_parse_scaled_micro(parts[3]) {
        None => None,
        Some(lat_raw) => match spec_parse_scaled_micro(parts[5]) {
            None => None,
            Some(lon_raw) => {
                let lat = if parts[4] == seq![83u8] {
                    -nmea_coord(lat_raw)
                } else {
                    nmea_coord(lat_raw)
                };
                let lon = if parts[6] == seq![87u8] {
                    -nmea_coord(lon_raw)
                } else {
                    nmea_coord(lon_raw)
                };
                Some(
                    GpsPoint {
                        timestamp_ms: ts,
                        lat_e6: lat as i64,
                        lon_e6: lon as i64,
                        elevation_e6: None,
                        speed_kmh_e6: match spec_parse_scaled_micro(parts[7]) {
                            Some(k) => Some(knots_to_kmh(k) as i64),
                            None => None,
                        },
                        heading_e6: match spec_parse_scaled_micro(parts[8]) {
                            Some(h) => Some(h as i64),
                            None => None,
                        },
                        accuracy_e6: None,
                    },
                )
            },
        },
    }
}

/// The point of a fix-data sentence: valid only when the fix quality is
/// nonzero, dated on the calendar day of the given clock reading.
pub open spec fn spec_gga_point(line: Seq<u8>, now_ms: i64) -> Option<GpsPoint> {
    let parts = split_at(line, 0, seq![44u8]);
    if parts.len() < 10 {
        None
    } else {
        match spec_parse_u32(parts[6]) {
            None => None,
            Some(quality) => if quality == 0 {
                None
            } else if parts[1].len() < 6 {
                None
            } else {
                match two_digits(parts[1], 0) {
                    None => None,
                    Some(h) => match two_digits(parts[1], 2) {
                        None => None,
                        Some(mi) => match two_digits(parts[1], 4) {
                            None => None,
                            Some(se) => if h > 23 || mi > 59 || se > 59 {
                                None
                            } else {
                                spec_gga_position(
                                    parts,
                                    (now_ms - now_ms % 86_400_000 + (h * 3600 + mi * 60 + se)
                                        * 1000) as i64,
                                )
                            },
                        },
                    },
                }
            },
        }
    }
}

/// Position and elevation fields of a fix-data sentence.
pub open spec fn spec_gga_position(parts: Seq<Seq<u8>>, ts: i64) -> Option<GpsPoint> {
    match spec_parse_scaled_micro(parts[2]) {
        None => None,
        Some(lat_raw) => match spec_parse_scaled_micro(parts[4]) {
            None => None,
            Some(lon_raw) => {
                let lat = if parts[3] == seq![83u8] {
                    -nmea_coord(lat_raw)
                } else {
                    nmea_coord(lat_raw)
                };
                let lon = if parts[5] == seq![87u8] {
                    -nmea_coord(lon_raw)
                } else {
                    nmea_coord(lon_raw)
                };
                Some(
                    GpsPoint {
                        timestamp_ms: ts,
                        lat_e6: lat as i64,
                        lon_e6: lon as i64,
                        elevation_e6: match spec_parse_scaled_micro(parts[9]) {
                            Some(e) => Some(e as i64),
                            None => None,
                        },
                        speed_kmh_e6: None,
                        heading_e6: None,
                        accuracy_e6: None,
                    },
                )
            },
        },
    }
}

/// The point of one line, after stripping a trailing carriage return.
pub open spec fn spec_nmea_line_point(line: Seq<u8>, now_ms: i64) -> Option<GpsPoint> {
    let l = crate::bytes::strip_cr(line);
    if match_at(l, 0, gprmc()) || match_at(l, 0, gnrmc()) {
        spec_rmc_point(l)
    } else if match_at(l, 0, gpgga()) || match_at(l, 0, gngga()) {
        spec_gga_point(l, now_ms)
    } else {
        None
    }
}

/// Points of a run of lines, in order, skipping invalid sentences.
pub open spec fn spec_nmea_points(lines: Seq<Seq<u8>>, now_ms: i64) -> Seq<GpsPoint>
    decreases lines.len(),
{
    if lines.len() == 0 {
        Seq::empty()
    } else {
        spec_nmea_points(lines.drop_last(), now_ms) + crate::gpx::opt_point_seq(
            spec_nmea_line_point(lines.last(), now_ms),
        )
    }
}

/// Every point of an NMEA stream, line by line.
pub open spec fn spec_nmea_raw(data: Seq<u8>, now_ms: i64) -> Seq<GpsPoint> {
    spec_nmea_points(split_at(data, 0, seq![10u8]), now_ms)
}

/// What a finished NMEA parse looks like for a given clock reading.
pub open spec fn nmea_outcome(
    r: Result<GpsTrack, GpsError>,
    data: Seq<u8>,
    source_file: Seq<char>,
    now_ms: i64,
) -> bool {
    &&& (spec_nmea_raw(data, now_ms).len() == 0 <==> r is Err)
    &&& match r {
        Ok(t) => {
            &&& t.inv()
            &&& t.points@ == sort_by_ts(spec_nmea_raw(data, now_ms))
            &&& t.name is None
            &&& t.source_file@ == source_file
            &&& t.track_type@ == "nmea"@
        },
        Err(e) => e is NoPoints,
    }
}

/// Whether the field holds exactly the one byte `b`.
fn eq_byte1(s: &[u8], b: u8) -> (r: bool)
    ensures
        r == (s@ == seq![b]),
{
    proof {
        assert(seq![b].len() == 1);
        assert(seq![b][0] == b);
    }
    if s.len() == 1 && s[0] == b {
        proof {
            assert(s@ =~= seq![b]);
        }
        true
    } else {
        false
    }
}

/// Decode a `DDMM.MMMM` coordinate into millionths of a degree.
fn nmea_coord_exec(raw: i64) -> (r: i64)
    requires
        -SCALED_LIMIT < raw < SCALED_LIMIT,
    ensures
        r == nmea_coord(raw as int),
        -SCALED_LIMIT < r < SCALED_LIMIT,
{
    proof {
        vstd::arithmetic::div_mod::lemma_fundamental_div_mod(raw as int, 100_000_000);
        vstd::arithmetic::div_mod::lemma_mod_bound(raw as int, 100_000_000);
    }
    let deg = floor_div(raw, 100_000_000);
    let min_e6 = raw - deg * 100_000_000;
    deg * 1_000_000 + floor_div(min_e6, 60)
}

/// Knots in millionths to km/h in millionths.
fn knots_to_kmh_exec(k: i64) -> (r: i64)
    requires
        -SCALED_LIMIT < k < SCALED_LIMIT,
    ensures
        r == knots_to_kmh(k as int),
{
    if k >= 0 {
        let prod: i128 = (k as i128) * 1852;
        proof {
            vstd::arithmetic::div_mod::lemma_fundamental_div_mod(prod as int, 1000);
            vstd::arithmetic::div_mod::lemma_mod_bound(prod as int, 1000);
        }
        match prod.checked_div_euclid(1000) {
            Some(q) => q as i64,
            None => vstd::pervasive::unreached(),
        }
    } else {
        let prod: i128 = (-(k as i128)) * 1852;
        proof {
            vstd::arithmetic::div_mod::lemma_fundamental_div_mod(prod as int, 1000);
            vstd::arithmetic::div_mod::lemma_mod_bound(prod as int, 1000);
        }
        match prod.checked_div_euclid(1000) {
            Some(q) => -(q as i64),
            None => vstd::pervasive::unreached(),
        }
    }
}

/// The two-digit number at position `at` of `s`.
fn two_digits_exec(s: &[u8], at: usize) -> (r: Option<u32>)
    requires
        at + 2 <= s@.len(),
    ensures
        r == two_digits(s@, at as int),
        r matches Some(v) ==> v < 100,
{
    let n = s.len();
    assert(at + 2 <= n);
    let r = parse_u32(&s[at..at + 2]);
    proof {
        if r is Some {
            lemma_digits_val_bounds(s@.subrange(at as int, at + 2));
            assert(pow10(2) == 100) by {
                reveal_with_fuel(pow10, 3);
            }
        }
    }
    r
}

/// Parse a recommended-minimum sentence.
fn parse_nmea_rmc(line: &[u8]) -> (r: Option<GpsPoint>)
    ensures
        r == spec_rmc_point(line@),
        r matches Some(p) ==> p.inv(),
{
    let comma: [u8; 1] = [44];
    proof {
        assert(comma@ =~= seq![44u8]);
    }
    let parts = split_by(line, comma.as_slice());
    let ghost pp = split_at(line@, 0, seq![44u8]);
    if parts.len() < 10 {
        return None;
    }
    if !eq_byte1(parts[2].as_slice(), 65) {
        return None;
    }
    let time = parts[1].as_slice();
    let date = parts[9].as_slice();
    if time.len() < 6 || date.len() < 6 {
        return None;
    }
    let h = match two_digits_exec(time, 0) {
        Some(v) => v,
        None => {
            return None;
        }
    };
    let mi = match two_digits_exec(time, 2) {
        Some(v) => v,
        None => {
            return None;
        }
    };
    let se = match two_digits_exec(time, 4) {
        Some(v) => v,
        None => {
            return None;
        }
    };
    let d = match two_digits_exec(date, 0) {
        Some(v) => v,
        None => {
            return None;
        }
    };
    let mo = match two_digits_exec(date, 2) {
        Some(v) => v,
        None => {
            return None;
        }
    };
    let y = match two_digits_exec(date, 4) {
        Some(v) => v,
        None => {
            return None;
        }
    };
    let year: i32 = if y >= 70 { 1900 + y as i32 } else { 2000 + y as i32 };
    let ts = match civil_to_millis(year, mo, d, h, mi, se) {
        Some(v) => v,
        None => {
            return None;
        }
    };
    let lat_raw = match parse_scaled_micro(parts[3].as_slice()) {
        Some(v) => v,
        None => {
            return None;
        }
    };
    let lon_raw = match parse_scaled_micro(parts[5].as_slice()) {
        Some(v) => v,
        None => {
            return None;
        }
    };
    let lat0 = nmea_coord_exec(lat_raw);
    let lat = if eq_byte1(parts[4].as_slice(), 83) {
        -lat0
    } else {
        lat0
    };
    let lon0 = nmea_coord_exec(lon_raw);
    let lon = if eq_byte1(parts[6].as_slice(), 87) {
        -lon0
    } else {
        lon0
    };
    let speed = match parse_scaled_micro(parts[7].as_slice()) {
        Some(k) => Some(knots_to_kmh_exec(k)),
        None => None,
    };
    let heading = match parse_scaled_micro(parts[8].as_slice()) {
        Some(v) => Some(v),
        None => None,
    };
    Some(
        GpsPoint {
            timestamp_ms: ts,
            lat_e6: lat,
            lon_e6: lon,
            elevation_e6: None,
            speed_kmh_e6: speed,
            heading_e6: heading,
            accuracy_e6: None,
        },
    )
}

/// Parse a fix-data sentence against the given clock reading.
fn parse_nmea_gga(line: &[u8], now_ms: i64) -> (r: Option<GpsPoint>)
    requires
        0 <= now_ms <= NOW_LIMIT_MS,
    ensures
        r == spec_gga_point(line@, now_ms),
        r matches Some(p) ==> p.inv(),
{
    let comma: [u8; 1] = [44];
    proof {
        assert(comma@ =~= seq![44u8]);
    }
    let parts = split_by(line, comma.as_slice());
    let ghost pp = split_at(line@, 0, seq![44u8]);
    if parts.len() < 10 {
        return None;
    }
    let quality = match parse_u32(parts[6].as_slice()) {
        Some(v) => v,
        None => {
            return None;
        }
    };
    if quality == 0 {
        return None;
    }
    let time = parts[1].as_slice();
    if time.len() < 6 {
        return None;
    }
    let h = match two_digits_exec(time, 0) {
        Some(v) => v,
        None => {
            return None;
        }
    };
    let mi = match two_digits_exec(time, 2) {
        Some(v) => v,
        None => {
            return None;
        }
    };
    let se = match two_digits_exec(time, 4) {
        Some(v) => v,
        None => {
            return None;
        }
    };
    if h > 23 || mi > 59 || se > 59 {
        return None;
    }
    let day_start = now_ms - floor_mod(now_ms, 86_400_000);
    let ts = day_start + ((h as i64) * 3600 + (mi as i64) * 60 + (se as i64)) * 1000;
    let lat_raw = match parse_scaled_micro(parts[2].as_slice()) {
        Some(v) => v,
        None => {
            return None;
        }
    };
    let lon_raw = match parse_scaled_micro(parts[4].as_slice()) {
        Some(v) => v,
        None => {
            return None;
        }
    };
    let lat0 = nmea_coord_exec(lat_raw);
    let lat = if eq_byte1(parts[3].as_slice(), 83) {
        -lat0
    } else {
        lat0
    };
    let lon0 = nmea_coord_exec(lon_raw);
    let lon = if eq_byte1(parts[5].as_slice(), 87) {
        -lon0
    } else {
        lon0
    };
    let ele = match parse_scaled_micro(parts[9].as_slice()) {
        Some(v) => Some(v),
        None => None,
    };
    Some(
        GpsPoint {
            timestamp_ms: ts,
            lat_e6: lat,
            lon_e6: lon,
            elevation_e6: ele,
            speed_kmh_e6: None,
            heading_e6: None,
            accuracy_e6: None,
        },
    )
}

/// Parse one line, after stripping a trailing carriage return.
fn nmea_line_point(line: &[u8], now_ms: i64) -> (r: Option<GpsPoint>)
    requires
        0 <= now_ms <= NOW_LIMIT_MS,
    ensures
        r == spec_nmea_line_point(line@, now_ms),
        r matches Some(p) ==> p.inv(),
{
    let n = line.len();
    let stripped: &[u8] = if n > 0 && line[n - 1] == 13 {
        &line[0..n - 1]
    } else {
        line
    };
    proof {
        assert(stripped@ =~= crate::bytes::strip_cr(line@));
    }
    let rmc1 = gprmc_bytes();
    let rmc2 = gnrmc_bytes();
    let gga1 = gpgga_bytes();
    let gga2 = gngga_bytes();
    if matches_at(stripped, 0, rmc1.as_slice()) || matches_at(stripped, 0, rmc2.as_slice()) {
        parse_nmea_rmc(stripped)
    } else if matches_at(stripped, 0, gga1.as_slice()) || matches_at(
        stripped,
        0,
        gga2.as_slice(),
    ) {
        parse_nmea_gga(stripped, now_ms)
    } else {
        None
    }
}

/// Collect the points of every line of the stream.
fn collect_nmea_points(data: &[u8], now_ms: i64) -> (r: Vec<GpsPoint>)
    requires
        0 <= now_ms <= NOW_LIMIT_MS,
    ensures
        r@ == spec_nmea_raw(data@, now_ms),
        forall|i: int| 0 <= i < r@.len() ==> (#[trigger] r@[i]).inv(),
{
    let newline: [u8; 1] = [10];
    proof {
        assert(newline@ =~= seq![10u8]);
    }
    let ghost pieces = split_at(data@, 0, seq![10u8]);
    let lines = split_by(data, newline.as_slice());
    let mut out: Vec<GpsPoint> = Vec::new();
    let mut i: usize = 0;
    proof {
        assert(pieces.take(0) =~= Seq::<Seq<u8>>::empty());
    }
    while i < lines.len()
        invariant
            i <= lines@.len(),
            lines@.len() == pieces.len(),
            forall|j: int| 0 <= j < lines@.len() ==> #[trigger] lines@[j]@ == pieces[j],
            out@ == spec_nmea_points(pieces.take(i as int), now_ms),
            forall|k: int| 0 <= k < out@.len() ==> (#[trigger] out@[k]).inv(),
        decreases lines@.len() - i,
    {
        proof {
            assert(pieces.take(i + 1).drop_last() =~= pieces.take(i as int));
            assert(pieces.take(i + 1).last() == pieces[i as int]);
        }
        match nmea_line_point(lines[i].as_slice(), now_ms) {
            Some(p) => {
                out.push(p);
            }
            None => {}
        }
        i += 1;
    }
    proof {
        assert(pieces.take(pieces.len() as int) =~= pieces);
    }
    out
}

/// Parse an NMEA stream against a given clock reading: the deterministic
/// core of the NMEA path.
pub fn parse_nmea_at(data: &[u8], source_file: String, now_ms: i64) -> (r: Result<
    GpsTrack,
    GpsError,
>)
    requires
        0 <= now_ms <= NOW_LIMIT_MS,
    ensures
        nmea_outcome(r, data@, source_file@, now_ms),
{
    let points = collect_nmea_points(data, now_ms);
    if points.len() == 0 {
        return Err(GpsError::NoPoints);
    }
    let track = build_track(points, None, source_file, "nmea".to_owned());
    Ok(track)
}

/// Parse an NMEA stream, reading the clock for the GGA date synthesis; a
/// clock outside the calendar range is pinned to it.
pub fn parse_nmea(data: &[u8], source_file: String) -> (r: Result<GpsTrack, GpsError>)
    ensures
        exists|now_ms: i64|
            0 <= now_ms <= NOW_LIMIT_MS && #[trigger] nmea_outcome(
                r,
                data@,
                source_file@,
                now_ms,
            ),
{
    let mut now = now_millis();
    if now < 0 {
        now = 0;
    }
    if now > NOW_LIMIT_MS {
        now = NOW_LIMIT_MS;
    }
    let ghost now_ms = now;
    let ghost sf = source_file@;
    let r = parse_nmea_at(data, source_file, now);
    proof {
        assert(nmea_outcome(r, data@, sf, now_ms));
    }
    r
}

} // verus!
