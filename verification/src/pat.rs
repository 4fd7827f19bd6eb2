//! The byte patterns that the parsers look for, each as a specification
//! sequence with a matching executable array.

use vstd::prelude::*;

verus! {

/// Bytes of `<trkpt`, the GPX track-point element opener.
pub open spec fn trkpt_open() -> Seq<u8> {
    seq![60u8, 116u8, 114u8, 107u8, 112u8, 116u8]
}

/// Bytes of `<trkpt`, the GPX track-point element opener.
pub fn trkpt_open_bytes() -> (r: [u8; 6])
    ensures
        r@ == trkpt_open(),
{
    let r: [u8; 6] = [60, 116, 114, 107, 112, 116];
    proof {
        assert(r@ =~= trkpt_open());
    }
    r
}

/// Bytes of `<wpt`, the GPX waypoint element opener.
pub open spec fn wpt_open() -> Seq<u8> {
    seq![60u8, 119u8, 112u8, 116u8]
}

/// Bytes of `<wpt`, the GPX waypoint element opener.
pub fn wpt_open_bytes() -> (r: [u8; 4])
    ensures
        r@ == wpt_open(),
{
    let r: [u8; 4] = [60, 119, 112, 116];
    proof {
        assert(r@ =~= wpt_open());
    }
    r
}

/// Bytes of `lat=\"`, the GPX latitude attribute opener.
pub open spec fn lat_attr() -> Seq<u8> {
    seq![108u8, 97u8, 116u8, 61u8, 34u8]
}

/// Bytes of `lat=\"`, the GPX latitude attribute opener.
pub fn lat_attr_bytes() -> (r: [u8; 5])
    ensures
        r@ == lat_attr(),
{
    let r: [u8; 5] = [108, 97, 116, 61, 34];
    proof {
        assert(r@ =~= lat_attr());
    }
    r
}

/// Bytes of `lon=\"`, the GPX longitude attribute opener.
pub open spec fn lon_attr() -> Seq<u8> {
    seq![108u8, 111u8, 110u8, 61u8, 34u8]
}

/// Bytes of `lon=\"`, the GPX longitude attribute opener.
pub fn lon_attr_bytes() -> (r: [u8; 5])
    ensures
        r@ == lon_attr(),
{
    let r: [u8; 5] = [108, 111, 110, 61, 34];
    proof {
        assert(r@ =~= lon_attr());
    }
    r
}

/// Bytes of `<ele>`, the GPX elevation element opener.
pub open spec fn ele_open() -> Seq<u8> {
    seq![60u8, 101u8, 108u8, 101u8, 62u8]
}

/// Bytes of `<ele>`, the GPX elevation element opener.
pub fn ele_open_bytes() -> (r: [u8; 5])
    ensures
        r@ == ele_open(),
{
    let r: [u8; 5] = [60, 101, 108, 101, 62];
    proof {
        assert(r@ =~= ele_open());
    }
    r
}

/// Bytes of `</ele>`, the GPX elevation element closer.
pub open spec fn ele_close() -> Seq<u8> {
    seq![60u8, 47u8, 101u8, 108u8, 101u8, 62u8]
}

/// Bytes of `</ele>`, the GPX elevation element closer.
pub fn ele_close_bytes() -> (r: [u8; 6])
    ensures
        r@ == ele_close(),
{
    let r: [u8; 6] = [60, 47, 101, 108, 101, 62];
    proof {
        assert(r@ =~= ele_close());
    }
    r
}

/// Bytes of `<time>`, the GPX time element opener.
pub open spec fn time_open() -> Seq<u8> {
    seq![60u8, 116u8, 105u8, 109u8, 101u8, 62u8]
}

/// Bytes of `<time>`, the GPX time element opener.
pub fn time_open_bytes() -> (r: [u8; 6])
    ensures
        r@ == time_open(),
{
    let r: [u8; 6] = [60, 116, 105, 109, 101, 62];
    proof {
        assert(r@ =~= time_open());
    }
    r
}

/// Bytes of `</time>`, the GPX time element closer.
pub open spec fn time_close() -> Seq<u8> {
    seq![60u8, 47u8, 116u8, 105u8, 109u8, 101u8, 62u8]
}

/// Bytes of `</time>`, the GPX time element closer.
pub fn time_close_bytes() -> (r: [u8; 7])
    ensures
        r@ == time_close(),
{
    let r: [u8; 7] = [60, 47, 116, 105, 109, 101, 62];
    proof {
        assert(r@ =~= time_close());
    }
    r
}

/// Bytes of `<name>`, the GPX name element opener.
pub open spec fn name_open() -> Seq<u8> {
    seq![60u8, 110u8, 97u8, 109u8, 101u8, 62u8]
}

/// Bytes of `<name>`, the GPX name element opener.
pub fn name_open_bytes() -> (r: [u8; 6])
    ensures
        r@ == name_open(),
{
    let r: [u8; 6] = [60, 110, 97, 109, 101, 62];
    proof {
        assert(r@ =~= name_open());
    }
    r
}

/// Bytes of `</name>`, the GPX name element closer.
pub open spec fn name_close() -> Seq<u8> {
    seq![60u8, 47u8, 110u8, 97u8, 109u8, 101u8, 62u8]
}

/// Bytes of `</name>`, the GPX name element closer.
pub fn name_close_bytes() -> (r: [u8; 7])
    ensures
        r@ == name_close(),
{
    let r: [u8; 7] = [60, 47, 110, 97, 109, 101, 62];
    proof {
        assert(r@ =~= name_close());
    }
    r
}

/// Bytes of `<gpx`, the GPX document marker.
pub open spec fn gpx_open() -> Seq<u8> {
    seq![60u8, 103u8, 112u8, 120u8]
}

/// Bytes of `<gpx`, the GPX document marker.
pub fn gpx_open_bytes() -> (r: [u8; 4])
    ensures
        r@ == gpx_open(),
{
    let r: [u8; 4] = [60, 103, 112, 120];
    proof {
        assert(r@ =~= gpx_open());
    }
    r
}

/// Bytes of `$GPRMC`, the NMEA recommended-minimum sentence header.
pub open spec fn gprmc() -> Seq<u8> {
    seq![36u8, 71u8, 80u8, 82u8, 77u8, 67u8]
}

/// Bytes of `$GPRMC`, the NMEA recommended-minimum sentence header.
pub fn gprmc_bytes() -> (r: [u8; 6])
    ensures
        r@ == gprmc(),
{
    let r: [u8; 6] = [36, 71, 80, 82, 77, 67];
    proof {
        assert(r@ =~= gprmc());
    }
    r
}

/// Bytes of `$GNRMC`, the multi-constellation recommended-minimum header.
pub open spec fn gnrmc() -> Seq<u8> {
    seq![36u8, 71u8, 78u8, 82u8, 77u8, 67u8]
}

/// Bytes of `$GNRMC`, the multi-constellation recommended-minimum header.
pub fn gnrmc_bytes() -> (r: [u8; 6])
    ensures
        r@ == gnrmc(),
{
    let r: [u8; 6] = [36, 71, 78, 82, 77, 67];
    proof {
        assert(r@ =~= gnrmc());
    }
    r
}

/// Bytes of `$GPGGA`, the NMEA fix-data sentence header.
pub open spec fn gpgga() -> Seq<u8> {
    seq![36u8, 71u8, 80u8, 71u8, 71u8, 65u8]
}

/// Bytes of `$GPGGA`, the NMEA fix-data sentence header.
pub fn gpgga_bytes() -> (r: [u8; 6])
    ensures
        r@ == gpgga(),
{
    let r: [u8; 6] = [36, 71, 80, 71, 71, 65];
    proof {
        assert(r@ =~= gpgga());
    }
    r
}

/// Bytes of `$GNGGA`, the multi-constellation fix-data header.
pub open spec fn gngga() -> Seq<u8> {
    seq![36u8, 71u8, 78u8, 71u8, 71u8, 65u8]
}

/// Bytes of `$GNGGA`, the multi-constellation fix-data header.
pub fn gngga_bytes() -> (r: [u8; 6])
    ensures
        r@ == gngga(),
{
    let r: [u8; 6] = [36, 71, 78, 71, 71, 65];
    proof {
        assert(r@ =~= gngga());
    }
    r
}

/// Bytes of `gpx`, the GPX file extension.
pub open spec fn ext_gpx() -> Seq<u8> {
    seq![103u8, 112u8, 120u8]
}

/// Bytes of `gpx`, the GPX file extension.
pub fn ext_gpx_bytes() -> (r: [u8; 3])
    ensures
        r@ == ext_gpx(),
{
    let r: [u8; 3] = [103, 112, 120];
    proof {
        assert(r@ =~= ext_gpx());
    }
    r
}

/// Bytes of `nmea`, the NMEA file extension.
pub open spec fn ext_nmea() -> Seq<u8> {
    seq![110u8, 109u8, 101u8, 97u8]
}

/// Bytes of `nmea`, the NMEA file extension.
pub fn ext_nmea_bytes() -> (r: [u8; 4])
    ensures
        r@ == ext_nmea(),
{
    let r: [u8; 4] = [110, 109, 101, 97];
    proof {
        assert(r@ =~= ext_nmea());
    }
    r
}

/// Bytes of `log`, the log file extension.
pub open spec fn ext_log() -> Seq<u8> {
    seq![108u8, 111u8, 103u8]
}

/// Bytes of `log`, the log file extension.
pub fn ext_log_bytes() -> (r: [u8; 3])
    ensures
        r@ == ext_log(),
{
    let r: [u8; 3] = [108, 111, 103];
    proof {
        assert(r@ =~= ext_log());
    }
    r
}

/// Bytes of `txt`, the plain-text file extension.
pub open spec fn ext_txt() -> Seq<u8> {
    seq![116u8, 120u8, 116u8]
}

/// Bytes of `txt`, the plain-text file extension.
pub fn ext_txt_bytes() -> (r: [u8; 3])
    ensures
        r@ == ext_txt(),
{
    let r: [u8; 3] = [116, 120, 116];
    proof {
        assert(r@ =~= ext_txt());
    }
    r
}

/// Bytes of ` --> `, the SubRip timestamp range separator.
pub open spec fn srt_arrow() -> Seq<u8> {
    seq![32u8, 45u8, 45u8, 62u8, 32u8]
}

/// Bytes of ` --> `, the SubRip timestamp range separator.
pub fn srt_arrow_bytes() -> (r: [u8; 5])
    ensures
        r@ == srt_arrow(),
{
    let r: [u8; 5] = [32, 45, 45, 62, 32];
    proof {
        assert(r@ =~= srt_arrow());
    }
    r
}

/// Bytes of ````json`, a JSON-tagged Markdown code fence.
pub open spec fn fence_json() -> Seq<u8> {
    seq![96u8, 96u8, 96u8, 106u8, 115u8, 111u8, 110u8]
}

/// Bytes of ````json`, a JSON-tagged Markdown code fence.
pub fn fence_json_bytes() -> (r: [u8; 7])
    ensures
        r@ == fence_json(),
{
    let r: [u8; 7] = [96, 96, 96, 106, 115, 111, 110];
    proof {
        assert(r@ =~= fence_json());
    }
    r
}

/// Bytes of `````, a Markdown code fence.
pub open spec fn fence() -> Seq<u8> {
    seq![96u8, 96u8, 96u8]
}

/// Bytes of `````, a Markdown code fence.
pub fn fence_bytes() -> (r: [u8; 3])
    ensures
        r@ == fence(),
{
    let r: [u8; 3] = [96, 96, 96];
    proof {
        assert(r@ =~= fence());
    }
    r
}

} // verus!
