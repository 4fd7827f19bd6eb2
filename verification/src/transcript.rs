//! Transcription model and SubRip parsing.  The sidecar speech recognizer
//! reports subtitles as numbered blocks: an index line, a timestamp range
//! line `HH:MM:SS,mmm --> HH:MM:SS,mmm`, then text lines up to a blank
//! line.  Times are carried in milliseconds.

use vstd::prelude::*;
use crate::bytes::{split_at, split_by, strip_cr, trim, trimmed};
use crate::fixed::{
    parse_int12, parse_scaled_micro, parse_u32, spec_parse_int12, spec_parse_scaled_micro,
    spec_parse_u32,
};
use crate::pat::{srt_arrow, srt_arrow_bytes};

verus! {

/// Why transcription failed.
#[derive(Debug, Clone)]
pub enum WhisperError {
    /// The recognizer binary was not found.
    BinaryNotFound(String),
    /// The requested model file was not found.
    ModelNotFound(String),
    /// The recognizer ran and failed.
    ExecutionFailed(String),
    /// Its output could not be read.
    ParseError(String),
    /// An input or output fault around the recognizer.
    IoError(String),
}

/// The recognizer's model sizes.
#[derive(Debug, Clone, Copy, PartialEq, Eq, Structural)]
pub enum WhisperModel {
    Tiny,
    TinyEn,
    Base,
    BaseEn,
    Small,
    SmallEn,
    Medium,
    MediumEn,
    Large,
}

impl WhisperModel {
    /// The model's file name.
    pub open spec fn spec_filename(self) -> Seq<char> {
        match self {
            WhisperModel::Tiny => "ggml-tiny.bin"@,
            WhisperModel::TinyEn => "ggml-tiny.en.bin"@,
            WhisperModel::Base => "ggml-base.bin"@,
            WhisperModel::BaseEn => "ggml-base.en.bin"@,
            WhisperModel::Small => "ggml-small.bin"@,
            WhisperModel::SmallEn => "ggml-small.en.bin"@,
            WhisperModel::Medium => "ggml-medium.bin"@,
            WhisperModel::MediumEn => "ggml-medium.en.bin"@,
            WhisperModel::Large => "ggml-large-v3.bin"@,
        }
    }

    /// The model's file name.
    pub fn filename(&self) -> (r: &'static str)
        ensures
            r@ == self.spec_filename(),
    {
        match self {
            WhisperModel::Tiny => "ggml-tiny.bin",
            WhisperModel::TinyEn => "ggml-tiny.en.bin",
            WhisperModel::Base => "ggml-base.bin",
            WhisperModel::BaseEn => "ggml-base.en.bin",
            WhisperModel::Small => "ggml-small.bin",
            WhisperModel::SmallEn => "ggml-small.en.bin",
            WhisperModel::Medium => "ggml-medium.bin",
            WhisperModel::MediumEn => "ggml-medium.en.bin",
            WhisperModel::Large => "ggml-large-v3.bin",
        }
    }

    /// The model's approximate download size in megabytes.
    pub open spec fn spec_size_mb(self) -> u32 {
        match self {
            WhisperModel::Tiny => 75,
            WhisperModel::TinyEn => 75,
            WhisperModel::Base => 142,
            WhisperModel::BaseEn => 142,
            WhisperModel::Small => 466,
            WhisperModel::SmallEn => 466,
            WhisperModel::Medium => 1500,
            WhisperModel::MediumEn => 1500,
            WhisperModel::Large => 3100,
        }
    }

    /// The model's approximate download size in megabytes.
    pub fn size_mb(&self) -> (r: u32)
        ensures
            r == self.spec_size_mb(),
    {
        match self {
            WhisperModel::Tiny | WhisperModel::TinyEn => 75,
            WhisperModel::Base | WhisperModel::BaseEn => 142,
            WhisperModel::Small | WhisperModel::SmallEn => 466,
            WhisperModel::Medium | WhisperModel::MediumEn => 1500,
            WhisperModel::Large => 3100,
        }
    }
}

/// One subtitle block: start and end in milliseconds and the text bytes.
#[derive(Debug, Clone)]
pub struct TranscriptionSegment {
    pub start_ms: i64,
    pub end_ms: i64,
    pub text: Vec<u8>,
}

/// A complete transcription.
#[derive(Debug, Clone)]
pub struct Transcription {
    pub segments: Vec<TranscriptionSegment>,
    pub language: Option<String>,
    pub full_text: Vec<u8>,
}

/// Every model, in canonical order.
pub open spec fn all_models() -> Seq<WhisperModel> {
    seq![
        WhisperModel::Tiny,
        WhisperModel::TinyEn,
        WhisperModel::Base,
        WhisperModel::BaseEn,
        WhisperModel::Small,
        WhisperModel::SmallEn,
        WhisperModel::Medium,
        WhisperModel::MediumEn,
        WhisperModel::Large,
    ]
}

/// The models of `all` that are present, in the order of `all`.
pub open spec fn spec_present_models(all: Seq<WhisperModel>, present: Seq<WhisperModel>) -> Seq<
    WhisperModel,
>
    decreases all.len(),
{
    if all.len() == 0 {
        Seq::empty()
    } else {
        let rest = spec_present_models(all.drop_last(), present);
        if present.contains(all.last()) {
            rest + seq![all.last()]
        } else {
            rest
        }
    }
}

/// The recognizer's local model inventory: which model files the caller
/// found on disk.
pub struct Whisper {
    pub models_present: Vec<WhisperModel>,
}

impl Whisper {
    /// An inventory of the model files found on disk.
    pub fn new(models_present: Vec<WhisperModel>) -> (r: Whisper)
        ensures
            r.models_present@ == models_present@,
    {
        Whisper { models_present }
    }

    /// Whether a model is available.
    pub fn has_model(&self, model: WhisperModel) -> (r: bool)
        ensures
            r == self.models_present@.contains(model),
    {
        let mut i: usize = 0;
        while i < self.models_present.len()
            invariant
                i <= self.models_present@.len(),
                forall|j: int| 0 <= j < i ==> self.models_present@[j] != model,
            decreases self.models_present@.len() - i,
        {
            if self.models_present[i] == model {
                return true;
            }
            i += 1;
        }
        false
    }

    /// The available models, in canonical order.
    pub fn available_models(&self) -> (r: Vec<WhisperModel>)
        ensures
            r@ == spec_present_models(all_models(), self.models_present@),
    {
        let candidates: [WhisperModel; 9] = [
            WhisperModel::Tiny,
            WhisperModel::TinyEn,
            WhisperModel::Base,
            WhisperModel::BaseEn,
            WhisperModel::Small,
            WhisperModel::SmallEn,
            WhisperModel::Medium,
            WhisperModel::MediumEn,
            WhisperModel::Large,
        ];
        proof {
            assert(candidates@ =~= all_models());
        }
        let mut out: Vec<WhisperModel> = Vec::new();
        let mut i: usize = 0;
        proof {
            assert(all_models().take(0) =~= Seq::<WhisperModel>::empty());
        }
        while i < 9
            invariant
                i <= 9,
                candidates@ == all_models(),
                out@ == spec_present_models(all_models().take(i as int), self.models_present@),
            decreases 9 - i,
        {
            proof {
                assert(all_models().take(i + 1).drop_last() =~= all_models().take(i as int));
                assert(all_models().take(i + 1).last() == all_models()[i as int]);
            }
            let m = candidates[i];
            if self.has_model(m) {
                out.push(m);
            }
            i += 1;
        }
        proof {
            assert(all_models().take(9) =~= all_models());
        }
        out
    }
}

/// The lines of the recognizer's output, each without a trailing carriage
/// return.
pub open spec fn spec_lines(data: Seq<u8>) -> Seq<Seq<u8>> {
    split_at(data, 0, seq![10u8]).map_values(|l: Seq<u8>| strip_cr(l))
}

/// Milliseconds of one `HH:MM:SS,mmm` timestamp: a comma counts as the
/// decimal point, and the fraction is cut off at the millisecond.
pub open spec fn spec_timestamp(ts: Seq<u8>) -> Option<i64> {
    let replaced = ts.map_values(|b: u8| if b == 44 { 46u8 } else { b });
    let parts = split_at(replaced, 0, seq![58u8]);
    if parts.len() != 3 {
        None
    } else {
        match spec_parse_int12(parts[0]) {
            None => None,
            Some(h) => match spec_parse_int12(parts[1]) {
                None => None,
                Some(m) => match spec_parse_scaled_micro(parts[2]) {
                    None => None,
                    Some(se6) => {
                        let sms = if se6 >= 0 {
                            se6 / 1000
                        } else {
                            -((-se6) / 1000)
                        };
                        Some(((h * 3600 + m * 60) * 1000 + sms) as i64)
                    },
                },
            },
        }
    }
}

/// The two timestamps of a `start --> end` range line.
pub open spec fn spec_timestamp_line(line: Seq<u8>) -> Option<(i64, i64)> {
    let parts = split_at(line, 0, srt_arrow());
    if parts.len() != 2 {
        None
    } else {
        match (spec_timestamp(parts[0]), spec_timestamp(parts[1])) {
            (Some(start), Some(end)) => Some((start, end)),
            _ => None,
        }
    }
}

/// Text lines collected from position `i` up to a blank line (which is
/// consumed) or the end, with the position after the collection.
pub open spec fn spec_collect_text(lines: Seq<Seq<u8>>, i: int) -> (Seq<Seq<u8>>, int)
    decreases lines.len() - i,
{
    if i < 0 || i >= lines.len() {
        (Seq::empty(), i)
    } else if trimmed(lines[i]).len() == 0 {
        (Seq::empty(), i + 1)
    } else {
        let rest = spec_collect_text(lines, i + 1);
        (seq![lines[i]] + rest.0, rest.1)
    }
}

/// The collected text ends at or after where it began, within the lines.
pub proof fn lemma_collect_text_bounds(lines: Seq<Seq<u8>>, i: int)
    requires
        0 <= i <= lines.len(),
    ensures
        i <= spec_collect_text(lines, i).1 <= lines.len(),
    decreases lines.len() - i,
{
    if i < lines.len() && trimmed(lines[i]).len() != 0 {
        lemma_collect_text_bounds(lines, i + 1);
    }
}

/// Text lines joined with single spaces.
pub open spec fn join_spaced(texts: Seq<Seq<u8>>) -> Seq<u8>
    decreases texts.len(),
{
    if texts.len() == 0 {
        Seq::empty()
    } else if texts.len() == 1 {
        texts[0]
    } else {
        join_spaced(texts.drop_last()) + seq![32u8] + texts.last()
    }
}

/// The subtitle blocks from position `i` on: a line that reads as a number
/// opens a block; the next line must carry the timestamp range; the text
/// follows up to a blank line, joined with spaces and trimmed.
pub open spec fn spec_srt(lines: Seq<Seq<u8>>, i: int) -> Seq<(i64, i64, Seq<u8>)>
    decreases lines.len() - i,
        via spec_srt_decreases
{
    if i < 0 || i >= lines.len() {
        Seq::empty()
    } else if spec_parse_u32(lines[i]) is Some {
        if i + 1 < lines.len() {
            match spec_timestamp_line(lines[i + 1]) {
                Some(range) => {
                    let collected = spec_collect_text(lines, i + 2);
                    seq![(range.0, range.1, trimmed(join_spaced(collected.0)))] + spec_srt(
                        lines,
                        collected.1,
                    )
                },
                None => spec_srt(lines, i + 2),
            }
        } else {
            Seq::empty()
        }
    } else {
        spec_srt(lines, i + 1)
    }
}

#[via_fn]
proof fn spec_srt_decreases(lines: Seq<Seq<u8>>, i: int) {
    if 0 <= i && i + 2 <= lines.len() {
        lemma_collect_text_bounds(lines, i + 2);
    }
}

/// The subtitle blocks of a whole SubRip document.
pub open spec fn spec_transcript(data: Seq<u8>) -> Seq<(i64, i64, Seq<u8>)> {
    spec_srt(spec_lines(data), 0)
}

/// Whether a line is blank after trimming ASCII whitespace.
fn is_blank(l: &[u8]) -> (r: bool)
    ensures
        r == (trimmed(l@).len() == 0),
{
    let t = trim(l);
    t.len() == 0
}

/// Append the bytes of `src` to `dst`.
fn push_all(dst: &mut Vec<u8>, src: &[u8])
    ensures
        final(dst)@ == old(dst)@ + src@,
{
    let mut k: usize = 0;
    while k < src.len()
        invariant
            k <= src@.len(),
            dst@ == old(dst)@ + src@.take(k as int),
        decreases src@.len() - k,
    {
        proof {
            assert(src@.take(k + 1) =~= src@.take(k as int).push(src@[k as int]));
            assert(old(dst)@ + src@.take(k + 1) =~= (old(dst)@ + src@.take(k as int)).push(
                src@[k as int],
            ));
        }
        dst.push(src[k]);
        k += 1;
    }
    proof {
        assert(src@.take(src@.len() as int) =~= src@);
    }
}

/// Split the document into lines, stripping trailing carriage returns.
fn split_lines(data: &[u8]) -> (r: Vec<Vec<u8>>)
    ensures
        r@.len() == spec_lines(data@).len(),
        forall|i: int| 0 <= i < r@.len() ==> #[trigger] r@[i]@ == spec_lines(data@)[i],
{
    let newline: [u8; 1] = [10];
    proof {
        assert(newline@ =~= seq![10u8]);
    }
    let raw = split_by(data, newline.as_slice());
    let mut out: Vec<Vec<u8>> = Vec::new();
    let mut i: usize = 0;
    while i < raw.len()
        invariant
            i <= raw@.len(),
            raw@.len() == split_at(data@, 0, seq![10u8]).len(),
            forall|j: int|
                0 <= j < raw@.len() ==> #[trigger] raw@[j]@ == split_at(data@, 0, seq![10u8])[j],
            out@.len() == i,
            forall|j: int| 0 <= j < i ==> #[trigger] out@[j]@ == spec_lines(data@)[j],
        decreases raw@.len() - i,
    {
        let line = raw[i].as_slice();
        let n = line.len();
        if n > 0 && line[n - 1] == 13 {
            out.push(crate::bytes::subvec(line, 0, n - 1));
            proof {
                assert(line@.subrange(0, n - 1) =~= strip_cr(line@));
            }
        } else {
            out.push(crate::bytes::subvec(line, 0, n));
            proof {
                assert(line@.subrange(0, n as int) =~= strip_cr(line@));
            }
        }
        i += 1;
    }
    out
}

/// The text bytes of each segment.
pub open spec fn texts_of(segments: Seq<TranscriptionSegment>) -> Seq<Seq<u8>> {
    segments.map_values(|seg: TranscriptionSegment| seg.text@)
}

/// The segments' texts joined with single spaces: the transcript as one
/// string.
pub fn full_text_of(segments: &Vec<TranscriptionSegment>) -> (r: Vec<u8>)
    ensures
        r@ == join_spaced(texts_of(segments@)),
{
    let mut out: Vec<u8> = Vec::new();
    let mut i: usize = 0;
    proof {
        assert(texts_of(segments@.take(0)) =~= Seq::<Seq<u8>>::empty());
    }
    while i < segments.len()
        invariant
            i <= segments@.len(),
            out@ == join_spaced(texts_of(segments@.take(i as int))),
        decreases segments@.len() - i,
    {
        proof {
            let prev = texts_of(segments@.take(i as int));
            let next = texts_of(segments@.take(i + 1));
            assert(next.drop_last() =~= prev);
            assert(next.last() == segments@[i as int].text@);
        }
        if i > 0 {
            out.push(32);
        }
        push_all(&mut out, segments[i].text.as_slice());
        i += 1;
    }
    proof {
        assert(segments@.take(segments@.len() as int) =~= segments@);
    }
    out
}

impl Whisper {
    /// Milliseconds of one `HH:MM:SS,mmm` timestamp.
    pub fn parse_timestamp(&self, ts: &[u8]) -> (r: Option<i64>)
        ensures
            r == spec_timestamp(ts@),
    {
        let mut replaced: Vec<u8> = Vec::new();
        let mut i: usize = 0;
        while i < ts.len()
            invariant
                i <= ts@.len(),
                replaced@.len() == i,
                forall|j: int|
                    0 <= j < i ==> replaced@[j] == ts@.map_values(
                        |b: u8| if b == 44 { 46u8 } else { b },
                    )[j],
            decreases ts@.len() - i,
        {
            let b = ts[i];
            if b == 44 {
                replaced.push(46);
            } else {
                replaced.push(b);
            }
            i += 1;
        }
        proof {
            assert(replaced@ =~= ts@.map_values(|b: u8| if b == 44 { 46u8 } else { b }));
        }
        let colon: [u8; 1] = [58];
        proof {
            assert(colon@ =~= seq![58u8]);
        }
        let parts = split_by(replaced.as_slice(), colon.as_slice());
        if parts.len() != 3 {
            return None;
        }
        let h = match parse_int12(parts[0].as_slice()) {
            Some(v) => v,
            None => {
                return None;
            }
        };
        let m = match parse_int12(parts[1].as_slice()) {
            Some(v) => v,
            None => {
                return None;
            }
        };
        let se6 = match parse_scaled_micro(parts[2].as_slice()) {
            Some(v) => v,
            None => {
                return None;
            }
        };
        let sms = if se6 >= 0 {
            crate::fixed::floor_div(se6, 1000)
        } else {
            -crate::fixed::floor_div(-se6, 1000)
        };
        proof {
            let mag = if se6 >= 0 { se6 as int } else { -(se6 as int) };
            vstd::arithmetic::div_mod::lemma_fundamental_div_mod(mag, 1000);
            vstd::arithmetic::div_mod::lemma_mod_bound(mag, 1000);
            assert(0 <= mag / 1000 <= mag) by (nonlinear_arith)
                requires
                    mag >= 0,
                    mag == 1000 * (mag / 1000) + mag % 1000,
                    0 <= mag % 1000 < 1000,
            ;
        }
        Some((h * 3600 + m * 60) * 1000 + sms)
    }

    /// The two timestamps of a `start --> end` range line.
    pub fn parse_timestamp_line(&self, line: &[u8]) -> (r: Option<(i64, i64)>)
        ensures
            r == spec_timestamp_line(line@),
    {
        let arrow = srt_arrow_bytes();
        let parts = split_by(line, arrow.as_slice());
        if parts.len() != 2 {
            return None;
        }
        let start = match self.parse_timestamp(parts[0].as_slice()) {
            Some(v) => v,
            None => {
                return None;
            }
        };
        let end = match self.parse_timestamp(parts[1].as_slice()) {
            Some(v) => v,
            None => {
                return None;
            }
        };
        Some((start, end))
    }

    /// Parse the recognizer's SubRip output into subtitle blocks.
    pub fn parse_srt(&self, content: &[u8]) -> (r: Result<Vec<TranscriptionSegment>, WhisperError>)
        ensures
            r matches Ok(v) && v@.len() == spec_transcript(content@).len() && (forall|k: int|
                0 <= k < v@.len() ==> (#[trigger] v@[k]).start_ms == spec_transcript(content@)[k].0
                    && v@[k].end_ms == spec_transcript(content@)[k].1
                    && v@[k].text@ == spec_transcript(content@)[k].2),
    {
        let lines = split_lines(content);
        let ghost ls = spec_lines(content@);
        let ghost model = spec_srt(ls, 0);
        let n = lines.len();
        let mut segments: Vec<TranscriptionSegment> = Vec::new();
        let mut i: usize = 0;
        let ghost mut done_model: Seq<(i64, i64, Seq<u8>)> = Seq::empty();
        proof {
            assert(Seq::<(i64, i64, Seq<u8>)>::empty() + spec_srt(ls, 0) =~= spec_srt(ls, 0));
        }
        while i < n
            invariant
                i <= n == lines@.len(),
                lines@.len() == ls.len(),
                forall|j: int| 0 <= j < lines@.len() ==> #[trigger] lines@[j]@ == ls[j],
                model == done_model + spec_srt(ls, i as int),
                segments@.len() == done_model.len(),
                forall|k: int|
                    0 <= k < segments@.len() ==> (#[trigger] segments@[k]).start_ms
                        == done_model[k].0 && segments@[k].end_ms == done_model[k].1
                        && segments@[k].text@ == done_model[k].2,
            decreases n - i,
        {
            let number_ok = parse_u32(lines[i].as_slice()).is_some();
            if !number_ok {
                i += 1;
                continue;
            }
            if i + 1 >= n {
                proof {
                    assert(spec_srt(ls, i as int) =~= Seq::<(i64, i64, Seq<u8>)>::empty());
                    assert(model =~= done_model);
                }
                i = n;
                continue;
            }
            let range = self.parse_timestamp_line(lines[i + 1].as_slice());
            match range {
                None => {
                    i += 2;
                }
                Some(range) => {
                    let ghost entry_i = i as int;
                    let mut text: Vec<u8> = Vec::new();
                    let ghost mut texts: Seq<Seq<u8>> = Seq::empty();
                    let mut count: usize = 0;
                    i += 2;
                    proof {
                        assert(texts + spec_collect_text(ls, i as int).0
                            =~= spec_collect_text(ls, i as int).0);
                    }
                    while i < n && !is_blank(lines[i].as_slice())
                        invariant
                            entry_i + 2 <= i <= n == lines@.len(),
                            lines@.len() == ls.len(),
                            forall|j: int| 0 <= j < lines@.len() ==> #[trigger] lines@[j]@ == ls[j],
                            text@ == join_spaced(texts),
                            count == texts.len(),
                            count <= i,
                            spec_collect_text(ls, entry_i + 2).0 == texts + spec_collect_text(
                                ls,
                                i as int,
                            ).0,
                            spec_collect_text(ls, entry_i + 2).1 == spec_collect_text(
                                ls,
                                i as int,
                            ).1,
                        decreases n - i,
                    {
                        proof {
                            assert(trimmed(ls[i as int]).len() != 0);
                        }
                        if count > 0 {
                            text.push(32);
                        }
                        push_all(&mut text, lines[i].as_slice());
                        count += 1;
                        proof {
                            let l = ls[i as int];
                            let texts2 = texts.push(l);
                            assert(texts2.drop_last() =~= texts);
                            assert(texts2.last() == l);
                            if texts.len() == 0 {
                                assert(join_spaced(texts) + l =~= l);
                                assert(text@ =~= join_spaced(texts2));
                            } else {
                                assert(join_spaced(texts2) == join_spaced(texts) + seq![32u8] + l);
                            }
                            let after1 = spec_collect_text(ls, i + 1);
                            assert(spec_collect_text(ls, i as int).0 =~= seq![l] + after1.0);
                            assert(texts + spec_collect_text(ls, i as int).0 =~= texts2 + after1.0);
                            texts = texts2;
                        }
                        i += 1;
                    }
                    let ghost next_i = spec_collect_text(ls, entry_i + 2).1;
                    proof {
                        if i < n {
                            assert(trimmed(ls[i as int]).len() == 0);
                            assert(spec_collect_text(ls, i as int).0 =~= Seq::<Seq<u8>>::empty());
                            assert(spec_collect_text(ls, i as int).1 == i + 1);
                        } else {
                            assert(spec_collect_text(ls, i as int).0 =~= Seq::<Seq<u8>>::empty());
                            assert(spec_collect_text(ls, i as int).1 == i as int);
                        }
                        assert(spec_collect_text(ls, entry_i + 2).0 =~= texts);
                    }
                    if i < n {
                        i += 1;
                    }
                    proof {
                        assert(i as int == next_i);
                    }
                    let final_text = trim(text.as_slice());
                    segments.push(
                        TranscriptionSegment {
                            start_ms: range.0,
                            end_ms: range.1,
                            text: final_text,
                        },
                    );
                    proof {
                        let entry = (range.0, range.1, trimmed(join_spaced(texts)));
                        assert(spec_srt(ls, entry_i) =~= seq![entry] + spec_srt(ls, next_i));
                        assert(done_model + spec_srt(ls, entry_i) =~= done_model.push(entry)
                            + spec_srt(ls, next_i));
                        done_model = done_model.push(entry);
                    }
                }
            }
        }
        proof {
            assert(spec_srt(ls, i as int) =~= Seq::<(i64, i64, Seq<u8>)>::empty());
            assert(model =~= done_model);
        }
        Ok(segments)
    }
}

} // verus!
