//! Track format selection: a recognized file extension decides, otherwise
//! the content is sniffed for a GPX document marker or an NMEA sentence
//! header; a file matching neither is refused.

use vstd::prelude::*;
use crate::bytes::{eq_bytes, find_at, find_from};
use crate::clock::TS_LIMIT_MS;
use crate::gps::{GpsError, GpsTrack};
use crate::gpx::{gpx_outcome, parse_gpx};
use crate::nmea::{nmea_outcome, parse_nmea, NOW_LIMIT_MS};
use crate::pat::{
    ext_gpx, ext_gpx_bytes, ext_log, ext_log_bytes, ext_nmea, ext_nmea_bytes, ext_txt,
    ext_txt_bytes, gpgga, gpgga_bytes, gprmc, gprmc_bytes, gpx_open, gpx_open_bytes,
};

verus! {

/// The raw formats the track parser understands.
#[derive(Debug, Clone, Copy, PartialEq, Eq, Structural)]
pub enum TrackFormat {
    Gpx,
    Nmea,
}

/// ASCII letters lowered, other bytes kept.
pub open spec fn to_lower(s: Seq<u8>) -> Seq<u8> {
    s.map_values(|b: u8| if 65 <= b && b <= 90 { (b + 32) as u8 } else { b })
}

/// The format chosen for a file: by its extension when recognized, else by
/// content sniffing, else nothing.
pub open spec fn spec_format(data: Seq<u8>, ext: Option<Seq<u8>>) -> Option<TrackFormat> {
    let lowered = match ext {
        Some(e) => Some(to_lower(e)),
        None => None::<Seq<u8>>,
    };
    if lowered == Some(ext_gpx()) {
        Some(TrackFormat::Gpx)
    } else if lowered == Some(ext_nmea()) || lowered == Some(ext_log()) || lowered == Some(
        ext_txt(),
    ) {
        Some(TrackFormat::Nmea)
    } else if find_at(data, 0, gpx_open()) is Some {
        Some(TrackFormat::Gpx)
    } else if find_at(data, 0, gprmc()) is Some || find_at(data, 0, gpgga()) is Some {
        Some(TrackFormat::Nmea)
    } else {
        None
    }
}

/// ASCII letters lowered, other bytes kept.
fn to_lower_exec(s: &[u8]) -> (r: Vec<u8>)
    ensures
        r@ == to_lower(s@),
{
    let mut out: Vec<u8> = Vec::new();
    let mut i: usize = 0;
    while i < s.len()
        invariant
            i <= s@.len(),
            out@.len() == i,
            forall|j: int| 0 <= j < i ==> out@[j] == to_lower(s@)[j],
        decreases s@.len() - i,
    {
        let b = s[i];
        if 65 <= b && b <= 90 {
            out.push(b + 32);
        } else {
            out.push(b);
        }
        i += 1;
    }
    proof {
        assert(out@ =~= to_lower(s@));
    }
    out
}

/// Choose a format by extension or content.
pub fn detect_format(data: &[u8], extension: Option<&[u8]>) -> (r: Option<TrackFormat>)
    ensures
        match extension {
            Some(e) => r == spec_format(data@, Some(e@)),
            None => r == spec_format(data@, None::<Seq<u8>>),
        },
{
    let by_ext: Option<TrackFormat> = match extension {
        Some(e) => {
            let lowered = to_lower_exec(e);
            let g = ext_gpx_bytes();
            let n = ext_nmea_bytes();
            let l = ext_log_bytes();
            let t = ext_txt_bytes();
            if eq_bytes(lowered.as_slice(), g.as_slice()) {
                Some(TrackFormat::Gpx)
            } else if eq_bytes(lowered.as_slice(), n.as_slice())
                || eq_bytes(lowered.as_slice(), l.as_slice())
                || eq_bytes(lowered.as_slice(), t.as_slice()) {
                Some(TrackFormat::Nmea)
            } else {
                None
            }
        }
        None => None,
    };
    match by_ext {
        Some(f) => Some(f),
        None => {
            let g = gpx_open_bytes();
            if find_from(data, 0, g.as_slice()).is_some() {
                return Some(TrackFormat::Gpx);
            }
            let rmc = gprmc_bytes();
            let gga = gpgga_bytes();
            if find_from(data, 0, rmc.as_slice()).is_some() || find_from(
                data,
                0,
                gga.as_slice(),
            ).is_some() {
                return Some(TrackFormat::Nmea);
            }
            None
        }
    }
}

/// What a finished parse of a raw track file looks like: the format chosen
/// as `spec_format` says, the chosen parser's outcome for some clock
/// reading, and the unknown-format error when nothing matched.
pub open spec fn track_outcome(
    r: Result<GpsTrack, GpsError>,
    data: Seq<u8>,
    ext: Option<Seq<u8>>,
    source_file: Seq<char>,
) -> bool {
    match spec_format(data, ext) {
        Some(TrackFormat::Gpx) => exists|now_ms: i64|
            -TS_LIMIT_MS <= now_ms <= TS_LIMIT_MS && #[trigger] gpx_outcome(
                r,
                data,
                source_file,
                now_ms,
            ),
        Some(TrackFormat::Nmea) => exists|now_ms: i64|
            0 <= now_ms <= NOW_LIMIT_MS && #[trigger] nmea_outcome(r, data, source_file, now_ms),
        None => r matches Err(e) && e is UnknownFormat,
    }
}

/// Parse a raw track file: pick the format by extension or content, then
/// run the matching parser.
pub fn parse_gps_data(data: &[u8], extension: Option<&[u8]>, source_file: String) -> (r: Result<
    GpsTrack,
    GpsError,
>)
    ensures
        match extension {
            Some(e) => track_outcome(r, data@, Some(e@), source_file@),
            None => track_outcome(r, data@, None::<Seq<u8>>, source_file@),
        },
{
    match detect_format(data, extension) {
        Some(TrackFormat::Gpx) => parse_gpx(data, source_file),
        Some(TrackFormat::Nmea) => parse_nmea(data, source_file),
        None => Err(GpsError::UnknownFormat),
    }
}

} // verus!
