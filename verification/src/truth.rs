//! Offline verification: derive named, confidence-scored facts about a
//! queried fix.  Country and timezone come from static bounding-box lookup
//! tables; the nearby point-of-interest query is an explicit extension
//! point that yields nothing until a real spatial index stands behind it.
//! Confidence scores are in millionths.

use vstd::prelude::*;
use crate::gps::GpsPoint;

verus! {

/// Why a verification query failed outright (a missing fact is a normal
/// empty result, not an error).
#[derive(Debug, Clone)]
pub enum TruthEngineError {
    /// The configured map tiles were not found.
    TilesNotFound(String),
    /// Any other failure.
    VerificationFailed(String),
    /// An input or output fault from the tile or index store.
    IoError(String),
}

/// An ordered four-level confidence scale.
#[derive(Debug, Clone, Copy, PartialEq, Eq, Structural)]
pub enum VerificationConfidence {
    High,
    Medium,
    Low,
    Unverified,
}

impl VerificationConfidence {
    /// Canonical midpoint score of each level, in millionths.
    pub open spec fn spec_score(self) -> u32 {
        match self {
            VerificationConfidence::High => 950_000,
            VerificationConfidence::Medium => 750_000,
            VerificationConfidence::Low => 450_000,
            VerificationConfidence::Unverified => 150_000,
        }
    }

    /// The level whose band a score falls in: a boundary score belongs to
    /// the higher tier.
    pub open spec fn spec_from_score(v: u32) -> VerificationConfidence {
        if v >= 900_000 {
            VerificationConfidence::High
        } else if v >= 600_000 {
            VerificationConfidence::Medium
        } else if v >= 300_000 {
            VerificationConfidence::Low
        } else {
            VerificationConfidence::Unverified
        }
    }

    /// Canonical midpoint score of the level, in millionths.
    pub fn as_score_e6(&self) -> (r: u32)
        ensures
            r == self.spec_score(),
    {
        match self {
            VerificationConfidence::High => 950_000,
            VerificationConfidence::Medium => 750_000,
            VerificationConfidence::Low => 450_000,
            VerificationConfidence::Unverified => 150_000,
        }
    }

    /// Bucket a score in millionths into a level.
    pub fn from_score_e6(v: u32) -> (r: VerificationConfidence)
        ensures
            r == VerificationConfidence::spec_from_score(v),
    {
        if v >= 900_000 {
            VerificationConfidence::High
        } else if v >= 600_000 {
            VerificationConfidence::Medium
        } else if v >= 300_000 {
            VerificationConfidence::Low
        } else {
            VerificationConfidence::Unverified
        }
    }
}

/// The two directions of the confidence scale agree: bucketing a level's
/// canonical score returns that level.
pub proof fn lemma_confidence_round_trip(c: VerificationConfidence)
    ensures
        VerificationConfidence::spec_from_score(c.spec_score()) == c,
{
}

/// A named, typed claim with a confidence tier and a source tag.
#[derive(Debug, Clone)]
pub struct VerifiedFact {
    pub fact_type: String,
    pub name: String,
    pub value: String,
    pub confidence: VerificationConfidence,
    pub source: String,
}

/// A point of interest near the queried fix.  Coordinates and bearings are
/// in millionths of a degree, the distance in millionths of a meter.
#[derive(Debug, Clone)]
pub struct LocalPOI {
    pub id: String,
    pub name: String,
    pub category: String,
    pub lat_e6: i64,
    pub lon_e6: i64,
    pub distance_m_e6: i64,
    pub bearing_e6: i64,
    pub in_fov: bool,
    pub facts: Vec<VerifiedFact>,
}

/// The location context of a queried fix; the matched-road fields are
/// reserved for a future road-network matcher.
#[derive(Debug, Clone)]
pub struct VerifiedLocation {
    pub lat_e6: i64,
    pub lon_e6: i64,
    pub matched_lat_e6: Option<i64>,
    pub matched_lon_e6: Option<i64>,
    pub road_name: Option<String>,
    pub country: Option<String>,
    pub state: Option<String>,
    pub timezone: Option<String>,
}

/// The terminal artifact of one verification query.
#[derive(Debug, Clone)]
pub struct TruthBundle {
    pub location: VerifiedLocation,
    pub pois: Vec<LocalPOI>,
    pub facts: Vec<VerifiedFact>,
    pub verification_mode: String,
    pub confidence: VerificationConfidence,
}

/// The character contents of an optional string.
pub open spec fn opt_string_view(o: Option<String>) -> Option<Seq<char>> {
    match o {
        Some(s) => Some(s@),
        None => None,
    }
}

/// Country of a coordinate by rough bounding boxes, checked in order.
pub open spec fn spec_country(lat_e6: int, lon_e6: int) -> Option<Seq<char>> {
    if 24_000_000 <= lat_e6 <= 50_000_000 && -125_000_000 <= lon_e6 <= -66_000_000 {
        Some("United States"@)
    } else if 41_000_000 <= lat_e6 <= 84_000_000 && -141_000_000 <= lon_e6 <= -52_000_000 {
        Some("Canada"@)
    } else if 14_000_000 <= lat_e6 <= 33_000_000 && -118_000_000 <= lon_e6 <= -86_000_000 {
        Some("Mexico"@)
    } else {
        None
    }
}

/// Timezone of a coordinate by longitude bands over the contiguous United
/// States.
pub open spec fn spec_timezone(lon_e6: int) -> Option<Seq<char>> {
    if -125_000_000 <= lon_e6 < -115_000_000 {
        Some("America/Los_Angeles"@)
    } else if -115_000_000 <= lon_e6 < -100_000_000 {
        Some("America/Denver"@)
    } else if -100_000_000 <= lon_e6 < -85_000_000 {
        Some("America/Chicago"@)
    } else if -85_000_000 <= lon_e6 < -66_000_000 {
        Some("America/New_York"@)
    } else {
        None
    }
}

/// Aggregate confidence policy: low with nothing found, high with more than
/// two points of interest, medium otherwise.
pub open spec fn spec_aggregate(n_pois: int, n_facts: int) -> VerificationConfidence {
    if n_pois == 0 && n_facts == 0 {
        VerificationConfidence::Low
    } else if n_pois > 2 {
        VerificationConfidence::High
    } else {
        VerificationConfidence::Medium
    }
}

/// One fact carries the given type, display name, value, confidence and the
/// local source tag.
pub open spec fn spec_fact(
    f: VerifiedFact,
    fact_type: Seq<char>,
    name: Seq<char>,
    value: Seq<char>,
    confidence: VerificationConfidence,
) -> bool {
    &&& f.fact_type@ == fact_type
    &&& f.name@ == name
    &&& f.value@ == value
    &&& f.confidence == confidence
    &&& f.source@ == "local"@
}

/// The fact list of a bundle: a medium-confidence country fact when a
/// country was derived, then a high-confidence timezone fact when a
/// timezone was.
pub open spec fn spec_facts(
    facts: Seq<VerifiedFact>,
    country: Option<Seq<char>>,
    timezone: Option<Seq<char>>,
) -> bool {
    match (country, timezone) {
        (Some(c), Some(z)) => facts.len() == 2 && spec_fact(
            facts[0],
            "country"@,
            "Country"@,
            c,
            VerificationConfidence::Medium,
        ) && spec_fact(facts[1], "timezone"@, "Timezone"@, z, VerificationConfidence::High),
        (Some(c), None) => facts.len() == 1 && spec_fact(
            facts[0],
            "country"@,
            "Country"@,
            c,
            VerificationConfidence::Medium,
        ),
        (None, Some(z)) => facts.len() == 1 && spec_fact(
            facts[0],
            "timezone"@,
            "Timezone"@,
            z,
            VerificationConfidence::High,
        ),
        (None, None) => facts.len() == 0,
    }
}

/// What a finished verification of `point` looks like: the raw coordinates
/// carried over, country and timezone from the lookup tables, no points of
/// interest yet, the matching facts, and the aggregate confidence.
pub open spec fn bundle_outcome(b: TruthBundle, point: GpsPoint) -> bool {
    &&& b.location.lat_e6 == point.lat_e6
    &&& b.location.lon_e6 == point.lon_e6
    &&& b.location.matched_lat_e6 is None
    &&& b.location.matched_lon_e6 is None
    &&& b.location.road_name is None
    &&& b.location.state is None
    &&& opt_string_view(b.location.country) == spec_country(
        point.lat_e6 as int,
        point.lon_e6 as int,
    )
    &&& opt_string_view(b.location.timezone) == spec_timezone(point.lon_e6 as int)
    &&& b.pois@.len() == 0
    &&& spec_facts(
        b.facts@,
        spec_country(point.lat_e6 as int, point.lon_e6 as int),
        spec_timezone(point.lon_e6 as int),
    )
    &&& b.verification_mode@ == "offline"@
    &&& b.confidence == spec_aggregate(b.pois@.len() as int, b.facts@.len() as int)
}

/// The offline verification engine: optional paths to map tiles and to a
/// local point-of-interest index.
pub struct LocalTruthEngine {
    pub tiles_path: Option<String>,
    pub poi_db_path: Option<String>,
    pub initialized: bool,
}

impl LocalTruthEngine {
    /// An engine with nothing configured.
    pub fn new() -> (r: LocalTruthEngine)
        ensures
            r.tiles_path is None,
            r.poi_db_path is None,
            !r.initialized,
    {
        LocalTruthEngine { tiles_path: None, poi_db_path: None, initialized: false }
    }

    /// Configure map tiles; a path that is not present on disk (as the
    /// caller found) is ignored.
    pub fn with_tiles(self, tiles_path: String, present: bool) -> (r: LocalTruthEngine)
        ensures
            opt_string_view(r.tiles_path) == (if present {
                Some(tiles_path@)
            } else {
                opt_string_view(self.tiles_path)
            }),
            r.poi_db_path == self.poi_db_path,
            r.initialized == self.initialized,
    {
        if present {
            LocalTruthEngine { tiles_path: Some(tiles_path), ..self }
        } else {
            self
        }
    }

    /// Configure a point-of-interest index; a path that is not present on
    /// disk (as the caller found) is ignored.
    pub fn with_poi_db(self, db_path: String, present: bool) -> (r: LocalTruthEngine)
        ensures
            opt_string_view(r.poi_db_path) == (if present {
                Some(db_path@)
            } else {
                opt_string_view(self.poi_db_path)
            }),
            r.tiles_path == self.tiles_path,
            r.initialized == self.initialized,
    {
        if present {
            LocalTruthEngine { poi_db_path: Some(db_path), ..self }
        } else {
            self
        }
    }

    /// The engine can work offline when tiles or an index are configured.
    pub fn is_available(&self) -> (r: bool)
        ensures
            r == (self.tiles_path is Some || self.poi_db_path is Some),
    {
        self.tiles_path.is_some() || self.poi_db_path.is_some()
    }

    /// Country of a coordinate by rough bounding boxes.
    pub fn estimate_country(&self, lat_e6: i64, lon_e6: i64) -> (r: Option<String>)
        ensures
            opt_string_view(r) == spec_country(lat_e6 as int, lon_e6 as int),
    {
        if 24_000_000 <= lat_e6 && lat_e6 <= 50_000_000 && -125_000_000 <= lon_e6 && lon_e6
            <= -66_000_000 {
            Some("United States".to_owned())
        } else if 41_000_000 <= lat_e6 && lat_e6 <= 84_000_000 && -141_000_000 <= lon_e6
            && lon_e6 <= -52_000_000 {
            Some("Canada".to_owned())
        } else if 14_000_000 <= lat_e6 && lat_e6 <= 33_000_000 && -118_000_000 <= lon_e6
            && lon_e6 <= -86_000_000 {
            Some("Mexico".to_owned())
        } else {
            None
        }
    }

    /// Timezone of a coordinate by longitude bands.
    pub fn estimate_timezone(&self, lat_e6: i64, lon_e6: i64) -> (r: Option<String>)
        ensures
            opt_string_view(r) == spec_timezone(lon_e6 as int),
    {
        if -125_000_000 <= lon_e6 && lon_e6 < -115_000_000 {
            Some("America/Los_Angeles".to_owned())
        } else if -115_000_000 <= lon_e6 && lon_e6 < -100_000_000 {
            Some("America/Denver".to_owned())
        } else if -100_000_000 <= lon_e6 && lon_e6 < -85_000_000 {
            Some("America/Chicago".to_owned())
        } else if -85_000_000 <= lon_e6 && lon_e6 < -66_000_000 {
            Some("America/New_York".to_owned())
        } else {
            None
        }
    }

    /// Nearby points of interest within a radius and field of view.  An
    /// extension point: until a spatial index stands behind it, the answer
    /// is empty, and callers must not assume it will be populated.
    fn query_nearby_pois(
        &self,
        _lat_e6: i64,
        _lon_e6: i64,
        _radius_m_e6: i64,
        _heading_e6: Option<i64>,
        _fov_e6: i64,
    ) -> (r: Result<Vec<LocalPOI>, TruthEngineError>)
        ensures
            r matches Ok(v) && v@.len() == 0,
    {
        Ok(Vec::new())
    }

    /// Verify a fix: carry its coordinates over, derive country and
    /// timezone, query nearby points of interest, and aggregate the
    /// confidence.
    pub fn verify_point(&self, point: &GpsPoint, _fov_e6: i64) -> (r: Result<
        TruthBundle,
        TruthEngineError,
    >)
        ensures
            r matches Ok(b) && bundle_outcome(b, *point),
    {
        let country = self.estimate_country(point.lat_e6, point.lon_e6);
        let timezone = self.estimate_timezone(point.lat_e6, point.lon_e6);
        let location = VerifiedLocation {
            lat_e6: point.lat_e6,
            lon_e6: point.lon_e6,
            matched_lat_e6: None,
            matched_lon_e6: None,
            road_name: None,
            country,
            state: None,
            timezone,
        };
        let pois = match self.query_nearby_pois(
            point.lat_e6,
            point.lon_e6,
            500_000_000,
            point.heading_e6,
            _fov_e6,
        ) {
            Ok(v) => v,
            Err(e) => {
                return Err(e);
            }
        };
        let mut facts: Vec<VerifiedFact> = Vec::new();
        match &location.country {
            Some(c) => {
                facts.push(
                    VerifiedFact {
                        fact_type: "country".to_owned(),
                        name: "Country".to_owned(),
                        value: c.clone(),
                        confidence: VerificationConfidence::Medium,
                        source: "local".to_owned(),
                    },
                );
            }
            None => {}
        }
        match &location.timezone {
            Some(z) => {
                facts.push(
                    VerifiedFact {
                        fact_type: "timezone".to_owned(),
                        name: "Timezone".to_owned(),
                        value: z.clone(),
                        confidence: VerificationConfidence::High,
                        source: "local".to_owned(),
                    },
                );
            }
            None => {}
        }
        let confidence = if pois.len() == 0 && facts.len() == 0 {
            VerificationConfidence::Low
        } else if pois.len() > 2 {
            VerificationConfidence::High
        } else {
            VerificationConfidence::Medium
        };
        Ok(
            TruthBundle {
                location,
                pois,
                facts,
                verification_mode: "offline".to_owned(),
                confidence,
            },
        )
    }
}

impl Default for LocalTruthEngine {
    /// An engine with nothing configured.
    fn default() -> (r: LocalTruthEngine)
        ensures
            r.tiles_path is None,
            r.poi_db_path is None,
            !r.initialized,
    {
        LocalTruthEngine::new()
    }
}

} // verus!
