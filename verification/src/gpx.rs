//! GPX parsing: every `<trkpt>` and `<wpt>` element becomes a point when its
//! `lat` and `lon` attributes parse; an optional `<ele>` child carries the
//! elevation and an optional `<time>` child the RFC 3339 timestamp, with the
//! parse-time clock as the fallback.

use vstd::prelude::*;
use crate::bytes::{find_at, find_byte, find_from, lemma_find_at_props, split_at, split_by, subvec};
use crate::clock::{rfc3339_millis, rfc3339_to_millis, now_millis, TS_LIMIT_MS};
use crate::fixed::{parse_scaled_micro, spec_parse_scaled_micro};
use crate::gps::{
    build_track, opt_bytes, sort_by_ts, GpsError, GpsPoint, GpsTrack,
};
use crate::pat::{
    ele_close, ele_close_bytes, ele_open, ele_open_bytes, lat_attr, lat_attr_bytes, lon_attr,
    lon_attr_bytes, name_close, name_close_bytes, name_open, name_open_bytes, time_close,
    time_close_bytes, time_open, time_open_bytes, trkpt_open, trkpt_open_bytes, wpt_open,
    wpt_open_bytes,
};

verus! {

/// Millionths value of the first `key`-opened quoted attribute in `seg`.
pub open spec fn spec_attr(seg: Seq<u8>, key: Seq<u8>) -> Option<int> {
    match find_at(seg, 0, key) {
        Some(p) => match find_at(seg, p + key.len(), seq![34u8]) {
            Some(q) => spec_parse_scaled_micro(seg.subrange(p + key.len(), q)),
            None => None,
        },
        None => None,
    }
}

/// Content between the first `open` marker and the first `close` marker at
/// or after it; nothing when the closer would overlap the opener.
pub open spec fn spec_tag_content(seg: Seq<u8>, open: Seq<u8>, close: Seq<u8>) -> Option<Seq<u8>> {
    match find_at(seg, 0, open) {
        Some(p) => match find_at(seg, p, close) {
            Some(q) => if p + open.len() <= q {
                Some(seg.subrange(p + open.len(), q))
            } else {
                None
            },
            None => None,
        },
        None => None,
    }
}

/// Timestamp of a point segment: its `<time>` child when it parses as
/// RFC 3339, the parse-time clock otherwise.
pub open spec fn spec_gpx_time(seg: Seq<u8>, now_ms: i64) -> i64 {
    match spec_tag_content(seg, time_open(), time_close()) {
        Some(t) => match rfc3339_millis(t) {
            Some(ms) => ms,
            None => now_ms,
        },
        None => now_ms,
    }
}

/// Elevation of a point segment, when an `<ele>` child parses.
pub open spec fn spec_gpx_ele(seg: Seq<u8>) -> Option<i64> {
    match spec_tag_content(seg, ele_open(), ele_close()) {
        Some(e) => match spec_parse_scaled_micro(e) {
            Some(v) => Some(v as i64),
            None => None,
        },
        None => None,
    }
}

/// The point of one element segment, when both coordinates parse.
pub open spec fn spec_gpx_point(seg: Seq<u8>, now_ms: i64) -> Option<GpsPoint> {
    match spec_attr(seg, lat_attr()) {
        Some(lat) => match spec_attr(seg, lon_attr()) {
            Some(lon) => Some(
                GpsPoint {
                    timestamp_ms: spec_gpx_time(seg, now_ms),
                    lat_e6: lat as i64,
                    lon_e6: lon as i64,
                    elevation_e6: spec_gpx_ele(seg),
                    speed_kmh_e6: None,
                    heading_e6: None,
                    accuracy_e6: None,
                },
            ),
            None => None,
        },
        None => None,
    }
}

/// A point as a sequence of zero or one elements.
pub open spec fn opt_point_seq(o: Option<GpsPoint>) -> Seq<GpsPoint> {
    match o {
        Some(p) => seq![p],
        None => Seq::empty(),
    }
}

/// Points of a run of element segments, in order, skipping the malformed.
pub open spec fn spec_gpx_points(segs: Seq<Seq<u8>>, now_ms: i64) -> Seq<GpsPoint>
    decreases segs.len(),
{
    if segs.len() == 0 {
        Seq::empty()
    } else {
        spec_gpx_points(segs.drop_last(), now_ms) + opt_point_seq(
            spec_gpx_point(segs.last(), now_ms),
        )
    }
}

/// Every point of the document: the track points, then the waypoints, each
/// in document order.
pub open spec fn spec_gpx_raw(data: Seq<u8>, now_ms: i64) -> Seq<GpsPoint> {
    spec_gpx_points(split_at(data, 0, trkpt_open()).skip(1), now_ms) + spec_gpx_points(
        split_at(data, 0, wpt_open()).skip(1),
        now_ms,
    )
}

/// The document's name: the content of the first `<name>` element.
pub open spec fn spec_gpx_name(data: Seq<u8>) -> Option<Seq<u8>> {
    spec_tag_content(data, name_open(), name_close())
}

/// What a finished GPX parse looks like for a given clock reading: a track
/// holding exactly the document's points sorted by time, or the no-points
/// error.
pub open spec fn gpx_outcome(
    r: Result<GpsTrack, GpsError>,
    data: Seq<u8>,
    source_file: Seq<char>,
    now_ms: i64,
) -> bool {
    &&& (spec_gpx_raw(data, now_ms).len() == 0 <==> r is Err)
    &&& match r {
        Ok(t) => {
            &&& t.inv()
            &&& t.points@ == sort_by_ts(spec_gpx_raw(data, now_ms))
            &&& opt_bytes(t.name) == spec_gpx_name(data)
            &&& t.source_file@ == source_file
            &&& t.track_type@ == "gpx"@
        },
        Err(e) => e is NoPoints,
    }
}

/// Millionths value of the first `key`-opened quoted attribute in `seg`.
fn attr_value(seg: &[u8], key: &[u8]) -> (r: Option<i64>)
    requires
        key@.len() >= 1,
    ensures
        match r {
            Some(v) => spec_attr(seg@, key@) == Some(v as int)
                && -crate::SCALED_LIMIT < v < crate::SCALED_LIMIT,
            None => spec_attr(seg@, key@) is None,
        },
{
    let n = seg.len();
    match find_from(seg, 0, key) {
        Some(p) => {
            proof {
                lemma_find_at_props(seg@, 0, key@);
                assert(p + key@.len() <= n);
            }
            match find_byte(seg, p + key.len(), 34) {
                Some(q) => {
                    proof {
                        lemma_find_at_props(seg@, p + key@.len(), seq![34u8]);
                    }
                    parse_scaled_micro(&seg[p + key.len()..q])
                }
                None => None,
            }
        }
        None => None,
    }
}

/// Positions of the content between `open` and the first `close` after it.
fn tag_content_range(seg: &[u8], open: &[u8], close: &[u8]) -> (r: Option<(usize, usize)>)
    requires
        open@.len() >= 1,
        close@.len() >= 1,
    ensures
        match r {
            Some(range) => range.0 <= range.1 <= seg@.len()
                && spec_tag_content(seg@, open@, close@)
                    == Some(seg@.subrange(range.0 as int, range.1 as int)),
            None => spec_tag_content(seg@, open@, close@) is None,
        },
{
    let n = seg.len();
    match find_from(seg, 0, open) {
        Some(p) => {
            proof {
                lemma_find_at_props(seg@, 0, open@);
                assert(p + open@.len() <= n);
            }
            match find_from(seg, p, close) {
                Some(q) => {
                    proof {
                        lemma_find_at_props(seg@, p as int, close@);
                    }
                    if p + open.len() <= q {
                        Some((p + open.len(), q))
                    } else {
                        None
                    }
                }
                None => None,
            }
        }
        None => None,
    }
}

/// Parse one element segment into a point.
fn parse_gpx_point(seg: &[u8], now_ms: i64) -> (r: Option<GpsPoint>)
    requires
        -TS_LIMIT_MS <= now_ms <= TS_LIMIT_MS,
    ensures
        r == spec_gpx_point(seg@, now_ms),
        r matches Some(p) ==> p.inv(),
{
    let lat_key = lat_attr_bytes();
    let lat = match attr_value(seg, lat_key.as_slice()) {
        Some(v) => v,
        None => {
            return None;
        }
    };
    let lon_key = lon_attr_bytes();
    let lon = match attr_value(seg, lon_key.as_slice()) {
        Some(v) => v,
        None => {
            return None;
        }
    };
    let t_open = time_open_bytes();
    let t_close = time_close_bytes();
    let ts = match tag_content_range(seg, t_open.as_slice(), t_close.as_slice()) {
        Some(range) => match rfc3339_to_millis(&seg[range.0..range.1]) {
            Some(ms) => ms,
            None => now_ms,
        },
        None => now_ms,
    };
    let e_open = ele_open_bytes();
    let e_close = ele_close_bytes();
    let ele = match tag_content_range(seg, e_open.as_slice(), e_close.as_slice()) {
        Some(range) => parse_scaled_micro(&seg[range.0..range.1]),
        None => None,
    };
    Some(
        GpsPoint {
            timestamp_ms: ts,
            lat_e6: lat,
            lon_e6: lon,
            elevation_e6: ele,
            speed_kmh_e6: None,
            heading_e6: None,
            accuracy_e6: None,
        },
    )
}

/// Collect the points of every segment after the first marker occurrence.
fn collect_points(data: &[u8], marker: &[u8], now_ms: i64) -> (r: Vec<GpsPoint>)
    requires
        marker@.len() >= 1,
        -TS_LIMIT_MS <= now_ms <= TS_LIMIT_MS,
    ensures
        r@ == spec_gpx_points(split_at(data@, 0, marker@).skip(1), now_ms),
        forall|i: int| 0 <= i < r@.len() ==> (#[trigger] r@[i]).inv(),
{
    let ghost pieces = split_at(data@, 0, marker@);
    let ghost rest = pieces.skip(1);
    let segs = split_by(data, marker);
    proof {
        crate::bytes::lemma_split_at_len(data@, 0, marker@);
    }
    let mut out: Vec<GpsPoint> = Vec::new();
    let mut i: usize = 1;
    proof {
        assert(rest.take(0) =~= Seq::<Seq<u8>>::empty());
    }
    while i < segs.len()
        invariant
            1 <= i <= segs@.len(),
            segs@.len() == pieces.len(),
            rest == pieces.skip(1),
            forall|j: int| 0 <= j < segs@.len() ==> #[trigger] segs@[j]@ == pieces[j],
            out@ == spec_gpx_points(rest.take(i - 1), now_ms),
            forall|k: int| 0 <= k < out@.len() ==> (#[trigger] out@[k]).inv(),
        decreases segs@.len() - i,
    {
        proof {
            assert(rest.take(i as int).drop_last() =~= rest.take(i - 1));
            assert(rest.take(i as int).last() == pieces[i as int]);
        }
        match parse_gpx_point(segs[i].as_slice(), now_ms) {
            Some(p) => {
                out.push(p);
            }
            None => {}
        }
        i += 1;
    }
    proof {
        assert(rest.take(segs@.len() - 1) =~= rest);
    }
    out
}

/// Parse a GPX document against a given clock reading: the deterministic
/// core of the GPX path.
pub fn parse_gpx_at(data: &[u8], source_file: String, now_ms: i64) -> (r: Result<
    GpsTrack,
    GpsError,
>)
    requires
        -TS_LIMIT_MS <= now_ms <= TS_LIMIT_MS,
    ensures
        gpx_outcome(r, data@, source_file@, now_ms),
{
    let trk = trkpt_open_bytes();
    let mut points = collect_points(data, trk.as_slice(), now_ms);
    let wpt = wpt_open_bytes();
    let mut wpt_points = collect_points(data, wpt.as_slice(), now_ms);
    points.append(&mut wpt_points);
    if points.len() == 0 {
        return Err(GpsError::NoPoints);
    }
    let n_open = name_open_bytes();
    let n_close = name_close_bytes();
    let name = match tag_content_range(data, n_open.as_slice(), n_close.as_slice()) {
        Some(range) => Some(subvec(data, range.0, range.1)),
        None => None,
    };
    let track = build_track(points, name, source_file, "gpx".to_owned());
    Ok(track)
}

/// A parsed GPX track counts exactly the point elements whose coordinates
/// parse, and its points never step back in time.
pub proof fn lemma_gpx_track_shape(
    r: Result<GpsTrack, GpsError>,
    data: Seq<u8>,
    source_file: Seq<char>,
    now_ms: i64,
)
    requires
        gpx_outcome(r, data, source_file, now_ms),
        r is Ok,
    ensures
        r matches Ok(t) && t.point_count == spec_gpx_raw(data, now_ms).len()
            && crate::gps::sorted_by_ts(t.points@),
{
    crate::gps::lemma_sort_by_ts_props(spec_gpx_raw(data, now_ms));
}

/// Parse a GPX document, reading the clock for the timestamp fallback.
pub fn parse_gpx(data: &[u8], source_file: String) -> (r: Result<GpsTrack, GpsError>)
    ensures
        exists|now_ms: i64|
            -TS_LIMIT_MS <= now_ms <= TS_LIMIT_MS && #[trigger] gpx_outcome(
                r,
                data@,
                source_file@,
                now_ms,
            ),
{
    let now = now_millis();
    let ghost now_ms = now;
    let r = parse_gpx_at(data, source_file, now);
    proof {
        assert(gpx_outcome(r, data@, source_file@, now_ms));
    }
    r
}

} // verus!
