//! Cleanup of generated narration text: a reply wrapped in a Markdown code
//! fence (tagged `json` or bare) is unwrapped before being read as data.

use vstd::prelude::*;
use crate::bytes::{match_at, matches_at, trim, trimmed};
use crate::pat::{fence, fence_bytes, fence_json, fence_json_bytes};

verus! {

/// The fenced body, trimmed, when the trimmed text starts with `open` and
/// ends with a closing fence after it.
pub open spec fn spec_unfence(t: Seq<u8>, open: Seq<u8>) -> Option<Seq<u8>> {
    if match_at(t, 0, open) {
        let end = t.skip(open.len() as int);
        if end.len() >= fence().len() && match_at(end, end.len() - fence().len(), fence()) {
            Some(trimmed(end.take(end.len() - fence().len())))
        } else {
            None
        }
    } else {
        None
    }
}

/// The trimmed text with a surrounding Markdown code fence (tagged `json`
/// or bare) removed; text not wrapped in a complete fence is only trimmed.
pub open spec fn spec_strip_markdown(text: Seq<u8>) -> Seq<u8> {
    let t = trimmed(text);
    match spec_unfence(t, fence_json()) {
        Some(r) => r,
        None => match spec_unfence(t, fence()) {
            Some(r) => r,
            None => t,
        },
    }
}

/// The fenced body, trimmed, when `t` starts with `open` and ends with a
/// closing fence.
fn unfence(t: &[u8], open: &[u8]) -> (r: Option<Vec<u8>>)
    requires
        open@.len() >= 1,
    ensures
        match r {
            Some(v) => spec_unfence(t@, open@) == Some(v@),
            None => spec_unfence(t@, open@) is None,
        },
{
    let n = t.len();
    if !matches_at(t, 0, open) {
        return None;
    }
    let close = fence_bytes();
    let end_len = n - open.len();
    if end_len < 3 {
        proof {
            assert(t@.skip(open@.len() as int).len() < fence().len());
        }
        return None;
    }
    proof {
        assert(t@.skip(open@.len() as int) =~= t@.subrange(open@.len() as int, n as int));
    }
    if matches_at(&t[open.len()..n], end_len - 3, close.as_slice()) {
        let body = trim(&t[open.len()..n - 3]);
        proof {
            let endseq = t@.skip(open@.len() as int);
            assert(endseq.take(endseq.len() - 3) =~= t@.subrange(open@.len() as int, n - 3));
        }
        Some(body)
    } else {
        None
    }
}

/// Strip a surrounding Markdown code fence (tagged `json` or bare) from
/// generated text; unfenced text is returned trimmed.
pub fn strip_markdown(text: &[u8]) -> (r: Vec<u8>)
    ensures
        r@ == spec_strip_markdown(text@),
{
    let t = trim(text);
    let open_json = fence_json_bytes();
    match unfence(t.as_slice(), open_json.as_slice()) {
        Some(v) => v,
        None => {
            let open = fence_bytes();
            match unfence(t.as_slice(), open.as_slice()) {
                Some(v) => v,
                None => t,
            }
        }
    }
}

} // verus!
