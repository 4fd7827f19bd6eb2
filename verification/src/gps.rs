//! GPS track model: points, tracks, bounding boxes and the parser's error
//! taxonomy, together with the timestamp ordering used to normalize a parsed
//! point sequence.

use vstd::prelude::*;
use crate::clock::TS_LIMIT_MS;
use crate::SCALED_LIMIT;

verus! {

/// Why a raw track file could not be turned into a track.
#[derive(Debug, Clone)]
pub enum GpsError {
    /// The raw bytes could not be read (reported by the surrounding I/O).
    IoError(String),
    /// A GPX document was malformed as a whole.
    GpxParseError(String),
    /// An NMEA stream was malformed as a whole.
    NmeaParseError(String),
    /// Neither the extension nor the content identified a known format.
    UnknownFormat,
    /// No point survived parsing.
    NoPoints,
}

/// One GPS fix.  Coordinates and angles are in millionths of a degree,
/// elevation in millionths of a meter, speed in millionths of a km/h,
/// accuracy in millionths of a meter, and the timestamp in milliseconds
/// since the Unix epoch.
#[derive(Debug, Clone, Copy)]
pub struct GpsPoint {
    pub timestamp_ms: i64,
    pub lat_e6: i64,
    pub lon_e6: i64,
    pub elevation_e6: Option<i64>,
    pub speed_kmh_e6: Option<i64>,
    pub heading_e6: Option<i64>,
    pub accuracy_e6: Option<i64>,
}

impl GpsPoint {
    /// The fields that enter later arithmetic stay within the fixed-point
    /// and calendar limits.
    pub open spec fn inv(self) -> bool {
        &&& -TS_LIMIT_MS <= self.timestamp_ms <= TS_LIMIT_MS
        &&& -SCALED_LIMIT < self.lat_e6 < SCALED_LIMIT
        &&& -SCALED_LIMIT < self.lon_e6 < SCALED_LIMIT
        &&& (self.heading_e6 matches Some(h) ==> -SCALED_LIMIT < h < SCALED_LIMIT)
    }
}

/// Componentwise bounding box of a track, in millionths of a degree.
#[derive(Debug, Clone, Copy, PartialEq, Eq, Structural)]
pub struct GpsBounds {
    pub min_lat_e6: i64,
    pub max_lat_e6: i64,
    pub min_lon_e6: i64,
    pub max_lon_e6: i64,
}

/// A parsed track: a time-ordered point sequence with derived metadata.
#[derive(Debug, Clone)]
pub struct GpsTrack {
    pub name: Option<Vec<u8>>,
    pub source_file: String,
    pub track_type: String,
    pub point_count: usize,
    pub start_time_ms: Option<i64>,
    pub end_time_ms: Option<i64>,
    pub bounds: Option<GpsBounds>,
    pub points: Vec<GpsPoint>,
}

/// The byte contents of an optional byte buffer.
pub open spec fn opt_bytes(o: Option<Vec<u8>>) -> Option<Seq<u8>> {
    match o {
        Some(v) => Some(v@),
        None => None,
    }
}

/// Timestamps never decrease along the sequence.
pub open spec fn sorted_by_ts(s: Seq<GpsPoint>) -> bool {
    forall|i: int, j: int| 0 <= i <= j < s.len() ==> s[i].timestamp_ms <= s[j].timestamp_ms
}

/// The smaller of two values.
pub open spec fn min64(a: i64, b: i64) -> i64 {
    if a <= b { a } else { b }
}

/// The larger of two values.
pub open spec fn max64(a: i64, b: i64) -> i64 {
    if a >= b { a } else { b }
}

/// Componentwise minimum and maximum of latitude and longitude over a
/// nonempty point sequence.
pub open spec fn bounds_of(s: Seq<GpsPoint>) -> GpsBounds
    decreases s.len(),
{
    if s.len() <= 1 {
        GpsBounds {
            min_lat_e6: s[0].lat_e6,
            max_lat_e6: s[0].lat_e6,
            min_lon_e6: s[0].lon_e6,
            max_lon_e6: s[0].lon_e6,
        }
    } else {
        let b = bounds_of(s.drop_last());
        let p = s.last();
        GpsBounds {
            min_lat_e6: min64(b.min_lat_e6, p.lat_e6),
            max_lat_e6: max64(b.max_lat_e6, p.lat_e6),
            min_lon_e6: min64(b.min_lon_e6, p.lon_e6),
            max_lon_e6: max64(b.max_lon_e6, p.lon_e6),
        }
    }
}

/// Each bound is attained by some point and bounds every point.
pub proof fn lemma_bounds_of_props(s: Seq<GpsPoint>)
    requires
        s.len() >= 1,
    ensures
        forall|i: int| 0 <= i < s.len()
            ==> bounds_of(s).min_lat_e6 <= (#[trigger] s[i]).lat_e6 <= bounds_of(s).max_lat_e6
                && bounds_of(s).min_lon_e6 <= s[i].lon_e6 <= bounds_of(s).max_lon_e6,
        exists|i: int| 0 <= i < s.len() && bounds_of(s).min_lat_e6 == (#[trigger] s[i]).lat_e6,
        exists|i: int| 0 <= i < s.len() && bounds_of(s).max_lat_e6 == (#[trigger] s[i]).lat_e6,
        exists|i: int| 0 <= i < s.len() && bounds_of(s).min_lon_e6 == (#[trigger] s[i]).lon_e6,
        exists|i: int| 0 <= i < s.len() && bounds_of(s).max_lon_e6 == (#[trigger] s[i]).lon_e6,
    decreases s.len(),
{
    if s.len() > 1 {
        lemma_bounds_of_props(s.drop_last());
        assert(forall|i: int| 0 <= i < s.len() - 1 ==> s.drop_last()[i] == s[i]);
        assert(s.last() == s[s.len() - 1]);
    }
}

/// Metadata agrees with the point sequence: counts, order, end points and
/// bounding box.
impl GpsTrack {
    pub open spec fn inv(self) -> bool {
        &&& self.point_count == self.points@.len()
        &&& sorted_by_ts(self.points@)
        &&& (forall|i: int| 0 <= i < self.points@.len() ==> (#[trigger] self.points@[i]).inv())
        &&& self.start_time_ms == (if self.points@.len() == 0 {
            None::<i64>
        } else {
            Some(self.points@[0].timestamp_ms)
        })
        &&& self.end_time_ms == (if self.points@.len() == 0 {
            None::<i64>
        } else {
            Some(self.points@[self.points@.len() - 1].timestamp_ms)
        })
        &&& self.bounds == (if self.points@.len() == 0 {
            None::<GpsBounds>
        } else {
            Some(bounds_of(self.points@))
        })
    }
}

/// `p` inserted after every element whose timestamp is not larger, so that
/// inserting keeps both order and the stability of equal timestamps.
pub open spec fn insert_sorted(s: Seq<GpsPoint>, p: GpsPoint) -> Seq<GpsPoint>
    decreases s.len(),
{
    if s.len() == 0 {
        seq![p]
    } else if s.last().timestamp_ms <= p.timestamp_ms {
        s.push(p)
    } else {
        insert_sorted(s.drop_last(), p).push(s.last())
    }
}

/// Stable sort by timestamp: each element inserted, in order, into the
/// sorted sequence of those before it.
pub open spec fn sort_by_ts(s: Seq<GpsPoint>) -> Seq<GpsPoint>
    decreases s.len(),
{
    if s.len() == 0 {
        Seq::empty()
    } else {
        insert_sorted(sort_by_ts(s.drop_last()), s.last())
    }
}

/// Inserting grows the length by one, keeps the order, and adds no element
/// beyond `p` and those of `s`.
pub proof fn lemma_insert_sorted_props(s: Seq<GpsPoint>, p: GpsPoint)
    requires
        sorted_by_ts(s),
    ensures
        insert_sorted(s, p).len() == s.len() + 1,
        sorted_by_ts(insert_sorted(s, p)),
        forall|i: int| 0 <= i < insert_sorted(s, p).len()
            ==> #[trigger] insert_sorted(s, p)[i] == p || s.contains(insert_sorted(s, p)[i]),
    decreases s.len(),
{
    if s.len() == 0 {
    } else if s.last().timestamp_ms <= p.timestamp_ms {
        assert forall|i: int| 0 <= i < s.push(p).len()
            implies #[trigger] s.push(p)[i] == p || s.contains(s.push(p)[i]) by {
            if i < s.len() {
                assert(s.push(p)[i] == s[i]);
            }
        }
    } else {
        let dl = s.drop_last();
        assert(sorted_by_ts(dl));
        lemma_insert_sorted_props(dl, p);
        let ins = insert_sorted(dl, p);
        assert forall|i: int| 0 <= i < ins.push(s.last()).len()
            implies (#[trigger] ins.push(s.last())[i]) == p
                || s.contains(ins.push(s.last())[i]) by {
            if i < ins.len() {
                assert(ins.push(s.last())[i] == ins[i]);
                if ins[i] != p {
                    assert(dl.contains(ins[i]));
                    let j = choose|j: int| 0 <= j < dl.len() && dl[j] == ins[i];
                    assert(s[j] == ins[i]);
                }
            } else {
                assert(ins.push(s.last())[i] == s.last());
                assert(s.contains(s.last()));
            }
        }
        assert forall|i: int, j: int| 0 <= i <= j < ins.push(s.last()).len()
            implies ins.push(s.last())[i].timestamp_ms
                <= ins.push(s.last())[j].timestamp_ms by {
            if j == ins.len() && i < ins.len() {
                if ins[i] == p {
                } else {
                    assert(dl.contains(ins[i]));
                    let k = choose|k: int| 0 <= k < dl.len() && dl[k] == ins[i];
                    assert(s[k].timestamp_ms <= s.last().timestamp_ms);
                }
            }
        }
    }
}

/// The sorted sequence has the same length, is ordered, and draws every
/// element from the original.
pub proof fn lemma_sort_by_ts_props(s: Seq<GpsPoint>)
    ensures
        sort_by_ts(s).len() == s.len(),
        sorted_by_ts(sort_by_ts(s)),
        forall|i: int| 0 <= i < sort_by_ts(s).len()
            ==> s.contains(#[trigger] sort_by_ts(s)[i]),
    decreases s.len(),
{
    if s.len() > 0 {
        let dl = s.drop_last();
        lemma_sort_by_ts_props(dl);
        lemma_insert_sorted_props(sort_by_ts(dl), s.last());
        assert forall|i: int| 0 <= i < sort_by_ts(s).len()
            implies s.contains(#[trigger] sort_by_ts(s)[i]) by {
            let x = sort_by_ts(s)[i];
            if x == s.last() {
                assert(s[s.len() - 1] == x);
            } else {
                assert(sort_by_ts(dl).contains(x));
                let j = choose|j: int| 0 <= j < sort_by_ts(dl).len() && sort_by_ts(dl)[j] == x;
                assert(dl.contains(x));
                let k = choose|k: int| 0 <= k < dl.len() && dl[k] == x;
                assert(s[k] == x);
            }
        }
    }
}

/// Where the scan stopped is exactly where the specification inserts.
proof fn lemma_insert_sorted_at(s: Seq<GpsPoint>, p: GpsPoint, k: int)
    requires
        0 <= k <= s.len(),
        forall|j: int| k <= j < s.len() ==> (#[trigger] s[j]).timestamp_ms > p.timestamp_ms,
        k > 0 ==> s[k - 1].timestamp_ms <= p.timestamp_ms,
    ensures
        insert_sorted(s, p) == s.take(k) + seq![p] + s.skip(k),
    decreases s.len(),
{
    if s.len() == 0 {
        assert(insert_sorted(s, p) =~= s.take(k) + seq![p] + s.skip(k));
    } else if s.last().timestamp_ms <= p.timestamp_ms {
        assert(k == s.len());
        assert(insert_sorted(s, p) =~= s.take(k) + seq![p] + s.skip(k));
    } else {
        assert(k < s.len());
        let dl = s.drop_last();
        lemma_insert_sorted_at(dl, p, k);
        assert(dl.take(k) =~= s.take(k));
        assert(insert_sorted(s, p) =~= s.take(k) + seq![p] + s.skip(k));
    }
}

/// Insert `p` into the timestamp-ordered vector `out`, after any element
/// with the same timestamp.
fn insert_point(out: &mut Vec<GpsPoint>, p: GpsPoint)
    requires
        sorted_by_ts(old(out)@),
    ensures
        final(out)@ == insert_sorted(old(out)@, p),
{
    let mut k: usize = out.len();
    while k > 0 && out[k - 1].timestamp_ms > p.timestamp_ms
        invariant
            k <= out@.len(),
            forall|j: int| k <= j < out@.len()
                ==> (#[trigger] out@[j]).timestamp_ms > p.timestamp_ms,
        decreases k,
    {
        k -= 1;
    }
    proof {
        lemma_insert_sorted_at(out@, p, k as int);
    }
    out.insert(k, p);
    proof {
        assert(out@ =~= old(out)@.take(k as int) + seq![p] + old(out)@.skip(k as int));
    }
}

/// Sort points by timestamp, keeping the original order of equal timestamps.
pub fn sort_points(points: Vec<GpsPoint>) -> (r: Vec<GpsPoint>)
    ensures
        r@ == sort_by_ts(points@),
{
    let mut out: Vec<GpsPoint> = Vec::new();
    let mut i: usize = 0;
    while i < points.len()
        invariant
            i <= points@.len(),
            out@ == sort_by_ts(points@.take(i as int)),
        decreases points@.len() - i,
    {
        proof {
            lemma_sort_by_ts_props(points@.take(i as int));
            assert(points@.take(i + 1).drop_last() =~= points@.take(i as int));
            assert(points@.take(i + 1).last() == points@[i as int]);
        }
        insert_point(&mut out, points[i]);
        i += 1;
    }
    proof {
        assert(points@.take(points@.len() as int) =~= points@);
    }
    out
}

/// Componentwise min/max of latitude and longitude over the points.
pub fn calculate_bounds(points: &Vec<GpsPoint>) -> (r: GpsBounds)
    requires
        points@.len() >= 1,
    ensures
        r == bounds_of(points@),
{
    let first = points[0];
    let mut b = GpsBounds {
        min_lat_e6: first.lat_e6,
        max_lat_e6: first.lat_e6,
        min_lon_e6: first.lon_e6,
        max_lon_e6: first.lon_e6,
    };
    let mut i: usize = 1;
    proof {
        assert(points@.take(1).len() == 1);
        assert(points@.take(1)[0] == points@[0]);
    }
    while i < points.len()
        invariant
            1 <= i <= points@.len(),
            b == bounds_of(points@.take(i as int)),
        decreases points@.len() - i,
    {
        let p = points[i];
        proof {
            assert(points@.take(i + 1).drop_last() =~= points@.take(i as int));
            assert(points@.take(i + 1).last() == points@[i as int]);
        }
        b = GpsBounds {
            min_lat_e6: if p.lat_e6 < b.min_lat_e6 { p.lat_e6 } else { b.min_lat_e6 },
            max_lat_e6: if p.lat_e6 > b.max_lat_e6 { p.lat_e6 } else { b.max_lat_e6 },
            min_lon_e6: if p.lon_e6 < b.min_lon_e6 { p.lon_e6 } else { b.min_lon_e6 },
            max_lon_e6: if p.lon_e6 > b.max_lon_e6 { p.lon_e6 } else { b.max_lon_e6 },
        };
        i += 1;
    }
    proof {
        assert(points@.take(points@.len() as int) =~= points@);
    }
    b
}

/// A track whose bounding box collapses to a single coordinate: with one
/// point, each minimum equals its maximum and both equal that point.
pub proof fn lemma_single_point_track_bounds(t: GpsTrack)
    requires
        t.inv(),
        t.points@.len() == 1,
    ensures
        t.bounds matches Some(b)
            && b.min_lat_e6 == b.max_lat_e6 && b.min_lat_e6 == t.points@[0].lat_e6
            && b.min_lon_e6 == b.max_lon_e6 && b.min_lon_e6 == t.points@[0].lon_e6,
{
}

/// Assemble a track from parsed points: sort them, then derive the count,
/// the end points and the bounding box.
pub fn build_track(
    points: Vec<GpsPoint>,
    name: Option<Vec<u8>>,
    source_file: String,
    track_type: String,
) -> (r: GpsTrack)
    requires
        points@.len() >= 1,
        forall|i: int| 0 <= i < points@.len() ==> (#[trigger] points@[i]).inv(),
    ensures
        r.inv(),
        r.points@ == sort_by_ts(points@),
        opt_bytes(r.name) == opt_bytes(name),
        r.source_file@ == source_file@,
        r.track_type@ == track_type@,
{
    proof {
        lemma_sort_by_ts_props(points@);
    }
    let sorted = sort_points(points);
    let bounds = calculate_bounds(&sorted);
    let n = sorted.len();
    proof {
        assert forall|i: int| 0 <= i < sorted@.len()
            implies (#[trigger] sorted@[i]).inv() by {
            assert(points@.contains(sorted@[i]));
            let j = choose|j: int| 0 <= j < points@.len() && points@[j] == sorted@[i];
        }
    }
    GpsTrack {
        name,
        source_file,
        track_type,
        point_count: n,
        start_time_ms: Some(sorted[0].timestamp_ms),
        end_time_ms: Some(sorted[n - 1].timestamp_ms),
        bounds: Some(bounds),
        points: sorted,
    }
}

} // verus!
