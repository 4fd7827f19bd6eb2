//! Transcript and narrative-cleanup tests: SubRip parsing, model
//! inventory, Markdown fence stripping.

use geotruth_core::narrative::strip_markdown;
use geotruth_core::transcript::{Whisper, WhisperModel};

#[test]
fn parse_srt_blocks() {
    let whisper = Whisper::new(vec![]);
    let content = b"1\n00:00:01,000 --> 00:00:03,500\nHello world\n\n\
2\n00:00:04,000 --> 00:00:05,250\nSecond line\nmore text\n\n";
    let segments = whisper.parse_srt(content).unwrap();
    assert_eq!(segments.len(), 2);
    assert_eq!(segments[0].start_ms, 1_000);
    assert_eq!(segments[0].end_ms, 3_500);
    assert_eq!(segments[0].text, b"Hello world".to_vec());
    assert_eq!(segments[1].start_ms, 4_000);
    assert_eq!(segments[1].end_ms, 5_250);
    assert_eq!(segments[1].text, b"Second line more text".to_vec());
}

#[test]
fn parse_srt_skips_malformed_blocks() {
    let whisper = Whisper::new(vec![]);
    let content = b"not a number\n1\nnot a timestamp\n2\n00:00:01,000 --> 00:00:02,000\nOk\n\n";
    let segments = whisper.parse_srt(content).unwrap();
    assert_eq!(segments.len(), 1);
    assert_eq!(segments[0].text, b"Ok".to_vec());
}

#[test]
fn parse_srt_with_carriage_returns() {
    let whisper = Whisper::new(vec![]);
    let content = b"1\r\n00:01:00,000 --> 00:01:02,000\r\nWindows line\r\n\r\n";
    let segments = whisper.parse_srt(content).unwrap();
    assert_eq!(segments.len(), 1);
    assert_eq!(segments[0].start_ms, 60_000);
    assert_eq!(segments[0].text, b"Windows line".to_vec());
}

#[test]
fn parse_timestamp_milliseconds() {
    let whisper = Whisper::new(vec![]);
    assert_eq!(whisper.parse_timestamp(b"00:00:01,234"), Some(1_234));
    assert_eq!(whisper.parse_timestamp(b"01:02:03,456"), Some(3_723_456));
    assert_eq!(whisper.parse_timestamp(b"00:00"), None);
    assert_eq!(whisper.parse_timestamp(b"aa:bb:cc,dd"), None);
}

#[test]
fn parse_timestamp_line_range() {
    let whisper = Whisper::new(vec![]);
    assert_eq!(
        whisper.parse_timestamp_line(b"00:00:01,234 --> 00:00:03,456"),
        Some((1_234, 3_456))
    );
    assert_eq!(whisper.parse_timestamp_line(b"00:00:01,234"), None);
}

#[test]
fn full_text_joins_segments() {
    let whisper = Whisper::new(vec![]);
    let content = b"1\n00:00:01,000 --> 00:00:02,000\nHello\n\n2\n00:00:03,000 --> 00:00:04,000\nworld\n\n";
    let segments = whisper.parse_srt(content).unwrap();
    let full = geotruth_core::transcript::full_text_of(&segments);
    assert_eq!(full, b"Hello world".to_vec());
}

#[test]
fn model_filenames_and_sizes() {
    assert_eq!(WhisperModel::Tiny.filename(), "ggml-tiny.bin");
    assert_eq!(WhisperModel::BaseEn.filename(), "ggml-base.en.bin");
    assert_eq!(WhisperModel::Large.filename(), "ggml-large-v3.bin");
    assert_eq!(WhisperModel::Tiny.size_mb(), 75);
    assert_eq!(WhisperModel::Medium.size_mb(), 1500);
    assert_eq!(WhisperModel::Large.size_mb(), 3100);
}

#[test]
fn available_models_keep_canonical_order() {
    let whisper = Whisper::new(vec![WhisperModel::Large, WhisperModel::Tiny]);
    assert!(whisper.has_model(WhisperModel::Tiny));
    assert!(whisper.has_model(WhisperModel::Large));
    assert!(!whisper.has_model(WhisperModel::Base));
    let available = whisper.available_models();
    assert_eq!(available, vec![WhisperModel::Tiny, WhisperModel::Large]);
}

#[test]
fn strip_markdown_unwraps_json_fences() {
    assert_eq!(
        strip_markdown(b"```json\n{\"chapters\":[]}\n```"),
        b"{\"chapters\":[]}".to_vec()
    );
    assert_eq!(strip_markdown(b"```\nplain fence\n```"), b"plain fence".to_vec());
    assert_eq!(strip_markdown(b"  no fences here  "), b"no fences here".to_vec());
    // an opening fence without a closing one is left as it stands
    assert_eq!(strip_markdown(b"```json\nunclosed"), b"```json\nunclosed".to_vec());
}
