//! Temporal alignment: map absolute GPS time onto a video's relative
//! timeline.  The engine first tries the video's own start timestamp
//! (high confidence), then assumes the first fix marks the start of the
//! video (low confidence); either way only fixes that land inside the video
//! window are kept.  Video times are in milliseconds, confidence scores in
//! millionths.

use vstd::prelude::*;
use crate::clock::TS_LIMIT_MS;
use crate::geomath::{lerp, lerp_e6};
use crate::gps::{sorted_by_ts, GpsPoint, GpsTrack};

verus! {

/// Why alignment could not produce a result.
#[derive(Debug, Clone)]
pub enum SyncError {
    /// The track holds no points.
    NoGpsPoints,
    /// The video carried no usable metadata.
    NoVideoMetadata,
    /// No fix lands inside the video window.
    NoOverlap,
    /// Any other failure.
    SyncFailed(String),
}

/// How an offset was obtained.
#[derive(Debug, Clone, Copy, PartialEq, Eq, Structural)]
pub enum SyncMethod {
    /// From the video's creation-time metadata.
    VideoMetadata,
    /// By assuming the first fix marks the start of the video.
    FirstGpsPoint,
    /// Supplied by the caller.
    Manual,
    /// Detected automatically (reserved).
    AutoDetect,
}

/// A fix bound to a video-relative time in milliseconds.
#[derive(Debug, Clone, Copy)]
pub struct AlignedPoint {
    pub video_time_ms: i64,
    pub gps: GpsPoint,
}

/// The outcome of alignment: a signed offset in milliseconds (GPS absolute
/// time minus video absolute start), a confidence score in millionths, the
/// method, and every fix mapped into the video window, in time order.
#[derive(Debug, Clone)]
pub struct SyncResult {
    pub offset_ms: i64,
    pub confidence_e6: u32,
    pub method: SyncMethod,
    pub aligned_points: Vec<AlignedPoint>,
}

/// Video times never decrease along the aligned list.
pub open spec fn sorted_by_vt(s: Seq<AlignedPoint>) -> bool {
    forall|i: int, j: int| 0 <= i <= j < s.len() ==> s[i].video_time_ms <= s[j].video_time_ms
}

impl SyncResult {
    /// Aligned video times are non-negative and in order, and each fix is
    /// within the fixed-point limits.
    pub open spec fn inv(self) -> bool {
        &&& sorted_by_vt(self.aligned_points@)
        &&& forall|i: int| 0 <= i < self.aligned_points@.len()
            ==> 0 <= (#[trigger] self.aligned_points@[i]).video_time_ms
                && self.aligned_points@[i].gps.inv()
    }
}

/// The engine: an immutable track, the video's length, and optionally its
/// absolute start time, all in milliseconds.
pub struct TimeSyncEngine {
    pub gps_track: GpsTrack,
    pub video_duration_ms: i64,
    pub video_start_ms: Option<i64>,
}

impl TimeSyncEngine {
    /// The track is well formed and a known video start lies within the
    /// calendar range.
    pub open spec fn inv(self) -> bool {
        &&& self.gps_track.inv()
        &&& (self.video_start_ms matches Some(v) ==> -TS_LIMIT_MS <= v <= TS_LIMIT_MS)
    }

    /// Bind a track to a video timeline.
    pub fn new(
        gps_track: GpsTrack,
        video_duration_ms: i64,
        video_start_ms: Option<i64>,
    ) -> (r: TimeSyncEngine)
        requires
            gps_track.inv(),
            video_start_ms matches Some(v) ==> -TS_LIMIT_MS <= v <= TS_LIMIT_MS,
        ensures
            r.inv(),
            r.gps_track == gps_track,
            r.video_duration_ms == video_duration_ms,
            r.video_start_ms == video_start_ms,
    {
        TimeSyncEngine { gps_track, video_duration_ms, video_start_ms }
    }
}

/// The fixes whose video time `timestamp - base` lands inside the video
/// window, each bound to that time, in track order.
pub open spec fn spec_aligned(points: Seq<GpsPoint>, base: int, duration_ms: i64) -> Seq<
    AlignedPoint,
>
    decreases points.len(),
{
    if points.len() == 0 {
        Seq::empty()
    } else {
        let rest = spec_aligned(points.drop_last(), base, duration_ms);
        let p = points.last();
        let vt = p.timestamp_ms - base;
        if 0 <= vt <= duration_ms {
            rest + seq![AlignedPoint { video_time_ms: vt as i64, gps: p }]
        } else {
            rest
        }
    }
}

/// Alignment of an ordered, well-formed track keeps order, keeps the fixes'
/// limits, lands every video time inside the window, and binds each aligned
/// entry to a track point.
pub proof fn lemma_spec_aligned_props(points: Seq<GpsPoint>, base: int, duration_ms: i64)
    requires
        sorted_by_ts(points),
        forall|i: int| 0 <= i < points.len() ==> (#[trigger] points[i]).inv(),
    ensures
        spec_aligned(points, base, duration_ms).len() <= points.len(),
        sorted_by_vt(spec_aligned(points, base, duration_ms)),
        forall|i: int| 0 <= i < spec_aligned(points, base, duration_ms).len()
            ==> 0 <= (#[trigger] spec_aligned(points, base, duration_ms)[i]).video_time_ms
                <= duration_ms && spec_aligned(points, base, duration_ms)[i].gps.inv(),
        forall|i: int| 0 <= i < spec_aligned(points, base, duration_ms).len()
            ==> exists|j: int|
                0 <= j < points.len()
                    && (#[trigger] spec_aligned(points, base, duration_ms)[i]).gps == points[j]
                    && spec_aligned(points, base, duration_ms)[i].video_time_ms
                        == points[j].timestamp_ms - base,
    decreases points.len(),
{
    if points.len() > 0 {
        let dl = points.drop_last();
        assert(sorted_by_ts(dl));
        lemma_spec_aligned_props(dl, base, duration_ms);
        let rest = spec_aligned(dl, base, duration_ms);
        let s = spec_aligned(points, base, duration_ms);
        assert forall|i: int| 0 <= i < s.len() implies exists|j: int|
            0 <= j < points.len() && (#[trigger] s[i]).gps == points[j]
                && s[i].video_time_ms == points[j].timestamp_ms - base by {
            if i < rest.len() {
                assert(s[i] == rest[i]);
                let j = choose|j: int|
                    0 <= j < dl.len() && (#[trigger] rest[i]).gps == dl[j]
                        && rest[i].video_time_ms == dl[j].timestamp_ms - base;
                assert(points[j] == dl[j]);
            } else {
                assert(s[i].gps == points[points.len() - 1]);
            }
        }
        assert forall|i: int, j: int| 0 <= i <= j < s.len() implies s[i].video_time_ms
            <= s[j].video_time_ms by {
            if j >= rest.len() && i < rest.len() {
                let k = choose|k: int|
                    0 <= k < dl.len() && (#[trigger] rest[i]).gps == dl[k]
                        && rest[i].video_time_ms == dl[k].timestamp_ms - base;
                assert(dl[k].timestamp_ms <= points.last().timestamp_ms);
            }
        }
    }
}

/// What a finished alignment looks like: the empty-track error, a
/// video-metadata result when the video start is known and some fix lands
/// in the window, the first-point fallback when the start is unknown, and
/// the no-overlap error when nothing lands.
pub open spec fn sync_outcome(r: Result<SyncResult, SyncError>, e: TimeSyncEngine) -> bool {
    let pts = e.gps_track.points@;
    if pts.len() == 0 {
        r matches Err(err) && err is NoGpsPoints
    } else {
        let aligned = spec_aligned(pts, pts[0].timestamp_ms as int, e.video_duration_ms);
        if aligned.len() == 0 {
            r matches Err(err) && err is NoOverlap
        } else {
            match e.video_start_ms {
                Some(vs) => r matches Ok(s) && s.inv() && s.method is VideoMetadata
                    && s.confidence_e6 == 900_000
                    && s.offset_ms == pts[0].timestamp_ms - vs
                    && s.aligned_points@ == aligned,
                None => r matches Ok(s) && s.inv() && s.method is FirstGpsPoint
                    && s.confidence_e6 == 500_000 && s.offset_ms == 0
                    && s.aligned_points@ == aligned,
            }
        }
    }
}

/// Bind each fix inside the video window to its video time.
fn align_points_base(points: &Vec<GpsPoint>, base: i64, duration_ms: i64) -> (r: Vec<
    AlignedPoint,
>)
    requires
        sorted_by_ts(points@),
        forall|i: int| 0 <= i < points@.len() ==> (#[trigger] points@[i]).inv(),
        -TS_LIMIT_MS <= base <= TS_LIMIT_MS,
    ensures
        r@ == spec_aligned(points@, base as int, duration_ms),
{
    let mut out: Vec<AlignedPoint> = Vec::new();
    let mut i: usize = 0;
    proof {
        assert(points@.take(0) =~= Seq::<GpsPoint>::empty());
    }
    while i < points.len()
        invariant
            i <= points@.len(),
            out@ == spec_aligned(points@.take(i as int), base as int, duration_ms),
        decreases points@.len() - i,
    {
        proof {
            assert(points@.take(i + 1).drop_last() =~= points@.take(i as int));
            assert(points@.take(i + 1).last() == points@[i as int]);
        }
        let p = points[i];
        let vt = p.timestamp_ms - base;
        if 0 <= vt && vt <= duration_ms {
            out.push(AlignedPoint { video_time_ms: vt, gps: p });
        }
        i += 1;
    }
    proof {
        assert(points@.take(points@.len() as int) =~= points@);
    }
    out
}

impl TimeSyncEngine {
    /// Align the track to the video timeline: by video metadata when the
    /// video's start time is known, else by assuming the first fix starts
    /// the video; an empty track or an empty window is a recoverable error.
    pub fn synchronize(&self) -> (r: Result<SyncResult, SyncError>)
        requires
            self.inv(),
        ensures
            sync_outcome(r, *self),
    {
        let n = self.gps_track.points.len();
        if n == 0 {
            return Err(SyncError::NoGpsPoints);
        }
        let first_ts = self.gps_track.points[0].timestamp_ms;
        let aligned = align_points_base(
            &self.gps_track.points,
            first_ts,
            self.video_duration_ms,
        );
        proof {
            lemma_spec_aligned_props(
                self.gps_track.points@,
                first_ts as int,
                self.video_duration_ms,
            );
        }
        if aligned.len() == 0 {
            return Err(SyncError::NoOverlap);
        }
        match self.video_start_ms {
            Some(vs) => Ok(
                SyncResult {
                    offset_ms: first_ts - vs,
                    confidence_e6: 900_000,
                    method: SyncMethod::VideoMetadata,
                    aligned_points: aligned,
                },
            ),
            None => Ok(
                SyncResult {
                    offset_ms: 0,
                    confidence_e6: 500_000,
                    method: SyncMethod::FirstGpsPoint,
                    aligned_points: aligned,
                },
            ),
        }
    }
}

/// Distance between a video time and a query time.
pub open spec fn vt_dist(vt: i64, t: i64) -> int {
    if vt >= t {
        vt - t
    } else {
        t - vt
    }
}

/// Index of the aligned point whose video time is nearest to `t`; on ties
/// the earliest index in the list wins.
pub open spec fn spec_nearest(s: Seq<AlignedPoint>, t: i64) -> Option<int>
    decreases s.len(),
{
    if s.len() == 0 {
        None
    } else {
        match spec_nearest(s.drop_last(), t) {
            None => Some(0),
            Some(j) => if vt_dist(s.last().video_time_ms, t) < vt_dist(s[j].video_time_ms, t) {
                Some(s.len() - 1)
            } else {
                Some(j)
            },
        }
    }
}

/// The nearest index is in range, no point is nearer, and no earlier point
/// is as near.
pub proof fn lemma_nearest_props(s: Seq<AlignedPoint>, t: i64)
    ensures
        match spec_nearest(s, t) {
            Some(i) => 0 <= i < s.len()
                && (forall|j: int| 0 <= j < s.len()
                    ==> vt_dist(s[i].video_time_ms, t)
                        <= vt_dist((#[trigger] s[j]).video_time_ms, t))
                && (forall|j: int| 0 <= j < i
                    ==> vt_dist((#[trigger] s[j]).video_time_ms, t)
                        > vt_dist(s[i].video_time_ms, t)),
            None => s.len() == 0,
        },
    decreases s.len(),
{
    if s.len() > 0 {
        lemma_nearest_props(s.drop_last(), t);
        assert(forall|j: int| 0 <= j < s.len() - 1 ==> s.drop_last()[j] == s[j]);
    }
}

/// Largest index whose video time is at or before `t`.
pub open spec fn spec_before(s: Seq<AlignedPoint>, t: i64) -> Option<int>
    decreases s.len(),
{
    if s.len() == 0 {
        None
    } else if s.last().video_time_ms <= t {
        Some(s.len() - 1)
    } else {
        spec_before(s.drop_last(), t)
    }
}

/// Smallest index whose video time is after `t`.
pub open spec fn spec_after(s: Seq<AlignedPoint>, t: i64) -> Option<int>
    decreases s.len(),
{
    if s.len() == 0 {
        None
    } else if s[0].video_time_ms > t {
        Some(0)
    } else {
        match spec_after(s.skip(1), t) {
            Some(j) => Some(j + 1),
            None => None,
        }
    }
}

/// Coordinates interpolated between a bracketing pair at query time `t`;
/// the heading interpolates only when both fixes carry one, and otherwise
/// falls back to whichever single heading is present.
pub open spec fn spec_lerp_pair(b: AlignedPoint, a: AlignedPoint, t: i64) -> (i64, i64, Option<
    i64,
>) {
    let lat = lerp(
        b.gps.lat_e6 as int,
        a.gps.lat_e6 as int,
        b.video_time_ms as int,
        t as int,
        a.video_time_ms as int,
    );
    let lon = lerp(
        b.gps.lon_e6 as int,
        a.gps.lon_e6 as int,
        b.video_time_ms as int,
        t as int,
        a.video_time_ms as int,
    );
    let heading = match (b.gps.heading_e6, a.gps.heading_e6) {
        (Some(h1), Some(h2)) => Some(
            lerp(
                h1 as int,
                h2 as int,
                b.video_time_ms as int,
                t as int,
                a.video_time_ms as int,
            ) as i64,
        ),
        (Some(h), None) => Some(h),
        (None, Some(h)) => Some(h),
        (None, None) => None,
    };
    (lat as i64, lon as i64, heading)
}

/// Interpolated position at query time `t`: between the bracketing pair
/// when both sides exist, the single side's coordinates verbatim when only
/// one exists, nothing when the list is empty.
pub open spec fn spec_interpolate(s: Seq<AlignedPoint>, t: i64) -> Option<(i64, i64, Option<i64>)> {
    match (spec_before(s, t), spec_after(s, t)) {
        (Some(b), Some(a)) => Some(spec_lerp_pair(s[b], s[a], t)),
        (Some(b), None) => Some((s[b].gps.lat_e6, s[b].gps.lon_e6, s[b].gps.heading_e6)),
        (None, Some(a)) => Some((s[a].gps.lat_e6, s[a].gps.lon_e6, s[a].gps.heading_e6)),
        (None, None) => None,
    }
}

/// In an ordered list cut at `i` (everything before is at or under `t`,
/// everything from `i` on is over `t`), `i` fixes both brackets.
proof fn lemma_before_at(s: Seq<AlignedPoint>, t: i64, i: int)
    requires
        0 <= i <= s.len(),
        forall|j: int| 0 <= j < i ==> (#[trigger] s[j]).video_time_ms <= t,
        forall|j: int| i <= j < s.len() ==> (#[trigger] s[j]).video_time_ms > t,
    ensures
        spec_before(s, t) == (if i == 0 {
            None::<int>
        } else {
            Some(i - 1)
        }),
    decreases s.len(),
{
    if s.len() > 0 {
        if s.last().video_time_ms <= t {
            assert(i == s.len());
        } else {
            assert(i < s.len());
            lemma_before_at(s.drop_last(), t, i);
        }
    }
}

proof fn lemma_after_at(s: Seq<AlignedPoint>, t: i64, i: int)
    requires
        0 <= i <= s.len(),
        forall|j: int| 0 <= j < i ==> (#[trigger] s[j]).video_time_ms <= t,
        forall|j: int| i <= j < s.len() ==> (#[trigger] s[j]).video_time_ms > t,
    ensures
        spec_after(s, t) == (if i == s.len() {
            None::<int>
        } else {
            Some(i)
        }),
    decreases s.len(),
{
    if s.len() > 0 {
        if s[0].video_time_ms > t {
            assert(i == 0);
        } else {
            assert(i >= 1);
            let tail = s.skip(1);
            assert(forall|j: int| 0 <= j < i - 1 ==> (#[trigger] tail[j]).video_time_ms <= t);
            assert(forall|j: int| i - 1 <= j < tail.len()
                ==> (#[trigger] tail[j]).video_time_ms > t);
            lemma_after_at(tail, t, i - 1);
        }
    }
}

impl TimeSyncEngine {
    /// The aligned fix whose video time is nearest to the query time, ties
    /// broken by the earliest point in the list.
    pub fn get_point_at_time(&self, sync_result: &SyncResult, video_time_ms: i64) -> (r: Option<
        GpsPoint,
    >)
        ensures
            r == (match spec_nearest(sync_result.aligned_points@, video_time_ms) {
                Some(i) => Some(sync_result.aligned_points@[i].gps),
                None => None::<GpsPoint>,
            }),
    {
        let s = &sync_result.aligned_points;
        if s.len() == 0 {
            return None;
        }
        let mut best: usize = 0;
        let mut i: usize = 1;
        proof {
            reveal_with_fuel(spec_nearest, 2);
            assert(s@.take(1).drop_last() =~= Seq::<AlignedPoint>::empty());
            assert(s@.take(1).last() == s@[0]);
            assert(spec_nearest(s@.take(1), video_time_ms) == Some(0int));
        }
        while i < s.len()
            invariant
                1 <= i <= s@.len(),
                best < i,
                spec_nearest(s@.take(i as int), video_time_ms) == Some(best as int),
            decreases s@.len() - i,
        {
            proof {
                assert(s@.take(i + 1).drop_last() =~= s@.take(i as int));
                assert(s@.take(i + 1).last() == s@[i as int]);
            }
            let di = dist_exec(s[i].video_time_ms, video_time_ms);
            let db = dist_exec(s[best].video_time_ms, video_time_ms);
            if di < db {
                best = i;
            }
            i += 1;
        }
        proof {
            assert(s@.take(s@.len() as int) =~= s@);
        }
        Some(s[best].gps)
    }

    /// Interpolated position at the query time: linear between the
    /// bracketing fixes, the nearest side verbatim past either end, nothing
    /// when no fix was aligned.
    pub fn interpolate_position(&self, sync_result: &SyncResult, video_time_ms: i64) -> (r:
        Option<(i64, i64, Option<i64>)>)
        requires
            sync_result.inv(),
        ensures
            r == spec_interpolate(sync_result.aligned_points@, video_time_ms),
    {
        let s = &sync_result.aligned_points;
        let n = s.len();
        let mut i: usize = 0;
        while i < n && s[i].video_time_ms <= video_time_ms
            invariant
                i <= n == s@.len(),
                forall|j: int| 0 <= j < i ==> (#[trigger] s@[j]).video_time_ms <= video_time_ms,
            decreases n - i,
        {
            i += 1;
        }
        proof {
            assert forall|j: int| i <= j < s@.len() implies (#[trigger] s@[j]).video_time_ms
                > video_time_ms by {
                if i < s@.len() {
                    assert(s@[i as int].video_time_ms <= s@[j].video_time_ms);
                }
            }
            lemma_before_at(s@, video_time_ms, i as int);
            lemma_after_at(s@, video_time_ms, i as int);
        }
        if i == 0 && i == n {
            return None;
        }
        if i == 0 {
            // only a later fix exists
            let a = s[0];
            return Some((a.gps.lat_e6, a.gps.lon_e6, a.gps.heading_e6));
        }
        if i == n {
            // only an earlier fix exists
            let b = s[n - 1];
            return Some((b.gps.lat_e6, b.gps.lon_e6, b.gps.heading_e6));
        }
        let b = s[i - 1];
        let a = s[i];
        let lat = lerp_e6(
            b.gps.lat_e6,
            a.gps.lat_e6,
            b.video_time_ms,
            video_time_ms,
            a.video_time_ms,
        );
        let lon = lerp_e6(
            b.gps.lon_e6,
            a.gps.lon_e6,
            b.video_time_ms,
            video_time_ms,
            a.video_time_ms,
        );
        let heading = match (b.gps.heading_e6, a.gps.heading_e6) {
            (Some(h1), Some(h2)) => Some(
                lerp_e6(h1, h2, b.video_time_ms, video_time_ms, a.video_time_ms),
            ),
            (Some(h), None) => Some(h),
            (None, Some(h)) => Some(h),
            (None, None) => None,
        };
        Some((lat, lon, heading))
    }
}

/// Distance between a video time and a query time.
fn dist_exec(vt: i64, t: i64) -> (r: i128)
    ensures
        r == vt_dist(vt, t),
{
    if vt >= t {
        (vt as i128) - (t as i128)
    } else {
        (t as i128) - (vt as i128)
    }
}

/// An empty track is refused outright: alignment never returns a result
/// with an empty point list for it.
pub proof fn lemma_sync_empty_track(e: TimeSyncEngine, r: Result<SyncResult, SyncError>)
    requires
        e.gps_track.points@.len() == 0,
        sync_outcome(r, e),
    ensures
        r matches Err(err) && err is NoGpsPoints,
{
}

/// When the video start is known and some fix overlaps the video window,
/// the result uses the video-metadata method at its confidence, never the
/// first-point fallback.
pub proof fn lemma_sync_metadata_priority(e: TimeSyncEngine, r: Result<SyncResult, SyncError>)
    requires
        sync_outcome(r, e),
        e.gps_track.points@.len() > 0,
        e.video_start_ms is Some,
        spec_aligned(
            e.gps_track.points@,
            e.gps_track.points@[0].timestamp_ms as int,
            e.video_duration_ms,
        ).len() > 0,
    ensures
        r matches Ok(s) && s.method is VideoMetadata && s.confidence_e6 == 900_000,
{
}

/// Interpolating exactly at an aligned fix's own video time returns
/// coordinates unchanged: the one at the last aligned index carrying that
/// video time.
pub proof fn lemma_interpolate_at_aligned_time(s: Seq<AlignedPoint>, i: int, t: i64)
    requires
        sorted_by_vt(s),
        0 <= i < s.len(),
        s[i].video_time_ms == t,
    ensures
        spec_interpolate(s, t) matches Some(r) && exists|j: int|
            0 <= j < s.len() && (#[trigger] s[j]).video_time_ms == t && r.0 == s[j].gps.lat_e6
                && r.1 == s[j].gps.lon_e6,
{
    lemma_spec_before_props(s, t);
    match spec_before(s, t) {
        Some(bi) => {
            assert(s[bi].video_time_ms <= t);
            if bi < i {
                assert(s[i].video_time_ms > t);
            }
            assert(bi >= i);
            assert(s[i].video_time_ms <= s[bi].video_time_ms);
            assert(s[bi].video_time_ms == t);
            match spec_after(s, t) {
                Some(ai) => {
                    lemma_spec_after_props(s, t);
                    assert(s[ai].video_time_ms > t);
                    crate::geomath::lemma_lerp_at_left(
                        s[bi].gps.lat_e6 as int,
                        s[ai].gps.lat_e6 as int,
                        s[bi].video_time_ms as int,
                        s[ai].video_time_ms as int,
                    );
                    crate::geomath::lemma_lerp_at_left(
                        s[bi].gps.lon_e6 as int,
                        s[ai].gps.lon_e6 as int,
                        s[bi].video_time_ms as int,
                        s[ai].video_time_ms as int,
                    );
                    assert(spec_interpolate(s, t) matches Some(r) && r.0 == s[bi].gps.lat_e6
                        && r.1 == s[bi].gps.lon_e6);
                }
                None => {
                    assert(spec_interpolate(s, t) matches Some(r) && r.0 == s[bi].gps.lat_e6
                        && r.1 == s[bi].gps.lon_e6);
                }
            }
        }
        None => {
            assert(false);
        }
    }
}

/// A found "before" index carries a video time at or under `t`, and every
/// later index is over `t`; when none is found the whole list is over `t`.
pub proof fn lemma_spec_before_props(s: Seq<AlignedPoint>, t: i64)
    ensures
        match spec_before(s, t) {
            Some(b) => 0 <= b < s.len() && s[b].video_time_ms <= t && (forall|j: int|
                b < j < s.len() ==> (#[trigger] s[j]).video_time_ms > t),
            None => forall|j: int| 0 <= j < s.len() ==> (#[trigger] s[j]).video_time_ms > t,
        },
    decreases s.len(),
{
    if s.len() > 0 && s.last().video_time_ms > t {
        lemma_spec_before_props(s.drop_last(), t);
        assert(forall|j: int| 0 <= j < s.len() - 1 ==> s.drop_last()[j] == s[j]);
    }
}

/// A found "after" index carries a video time over `t`, and every earlier
/// index is at or under `t`; when none is found the whole list is at or
/// under `t`.
pub proof fn lemma_spec_after_props(s: Seq<AlignedPoint>, t: i64)
    ensures
        match spec_after(s, t) {
            Some(a) => 0 <= a < s.len() && s[a].video_time_ms > t && (forall|j: int|
                0 <= j < a ==> (#[trigger] s[j]).video_time_ms <= t),
            None => forall|j: int| 0 <= j < s.len() ==> (#[trigger] s[j]).video_time_ms <= t,
        },
    decreases s.len(),
{
    if s.len() > 0 && !(s[0].video_time_ms > t) {
        let tail = s.skip(1);
        lemma_spec_after_props(tail, t);
        match spec_after(tail, t) {
            Some(j2) => {
                assert(spec_after(s, t) == Some(j2 + 1));
                assert(tail[j2] == s[j2 + 1]);
                assert forall|j: int| 0 <= j < j2 + 1 implies (#[trigger] s[j]).video_time_ms
                    <= t by {
                    if j >= 1 {
                        assert(tail[j - 1] == s[j]);
                        assert(tail[j - 1].video_time_ms <= t);
                    }
                }
            }
            None => {
                assert forall|j: int| 0 <= j < s.len() implies (#[trigger] s[j]).video_time_ms
                    <= t by {
                    if j >= 1 {
                        assert(tail[j - 1] == s[j]);
                        assert(tail[j - 1].video_time_ms <= t);
                    }
                }
            }
        }
    }
}

} // verus!
