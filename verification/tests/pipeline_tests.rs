use subgen::pcm::{PcmError, PcmSink};
use subgen::srt::{format_srt_document, format_srt_time, Segment};
use subgen::wav::{encode_wav, parse_wav, WavError};

#[test]
fn srt_time_zero() {
    assert_eq!(format_srt_time(0), "00:00:00,000");
}

#[test]
fn srt_time_one_second() {
    assert_eq!(format_srt_time(100), "00:00:01,000");
}

#[test]
fn srt_time_one_hour() {
    assert_eq!(format_srt_time(360000), "01:00:00,000");
}

#[test]
fn srt_time_just_under_minute() {
    assert_eq!(format_srt_time(5999), "00:00:59,990");
}

#[test]
fn srt_time_hours_widen_past_two_digits() {
    assert_eq!(format_srt_time(36000000), "100:00:00,000");
    assert_eq!(format_srt_time(36000000 + 123), "100:00:01,230");
}

#[test]
fn document_cues_numbered_in_input_order() {
    let segs = vec![
        Segment { start_ticks: 0, end_ticks: 100, text: "  こんにちは ".to_string() },
        Segment { start_ticks: 100, end_ticks: 250, text: "".to_string() },
        Segment { start_ticks: 250, end_ticks: 5999, text: "さよう なら".to_string() },
    ];
    let doc = format_srt_document(&segs);
    let expected = "1\n00:00:00,000 --> 00:00:01,000\nこんにちは\n\n\
                    2\n00:00:01,000 --> 00:00:02,500\n\n\n\
                    3\n00:00:02,500 --> 00:00:59,990\nさよう なら\n\n";
    assert_eq!(doc, expected);
    assert_eq!(doc.matches(" --> ").count(), segs.len());
}

#[test]
fn document_of_no_segments_is_empty() {
    let segs: Vec<Segment> = Vec::new();
    assert_eq!(format_srt_document(&segs), "");
}

#[test]
fn document_keeps_interior_whitespace_and_trims_ideographic_space() {
    let segs = vec![Segment {
        start_ticks: 0,
        end_ticks: 1,
        text: "\u{3000}\tある\n日の テスト \u{3000}".to_string(),
    }];
    let doc = format_srt_document(&segs);
    assert_eq!(doc, "1\n00:00:00,000 --> 00:00:00,010\nある\n日の テスト\n\n");
}

#[test]
fn formatting_twice_is_byte_identical() {
    let segs = vec![
        Segment { start_ticks: 12, end_ticks: 345, text: " echo ".to_string() },
        Segment { start_ticks: 345, end_ticks: 678, text: "twice".to_string() },
    ];
    let first = format_srt_document(&segs);
    let second = format_srt_document(&segs);
    assert_eq!(first.as_bytes(), second.as_bytes());
}

#[test]
fn truncated_stream_is_an_error() {
    let mut sink = PcmSink::new();
    sink.write_chunk(&[0x01, 0x02, 0x03]);
    assert_eq!(sink.finalize(), Err(PcmError::TruncatedStream));
}

#[test]
fn truncation_detected_across_chunks() {
    let mut sink = PcmSink::new();
    sink.write_chunk(&[0x01, 0x02]);
    sink.write_chunk(&[0x03]);
    assert_eq!(sink.finalize(), Err(PcmError::TruncatedStream));
}

#[test]
fn empty_stream_finalizes_to_no_samples() {
    let sink = PcmSink::new();
    assert_eq!(sink.finalize(), Ok(Vec::new()));
}

#[test]
fn samples_reassembled_across_chunk_boundaries() {
    let mut sink = PcmSink::new();
    sink.write_chunk(&[0x34]);
    sink.write_chunk(&[0x12, 0xFF]);
    sink.write_chunk(&[0x7F]);
    assert_eq!(sink.finalize(), Ok(vec![0x1234, 0x7FFF]));
}

#[test]
fn sample_extremes_decode_exactly() {
    let mut sink = PcmSink::new();
    sink.write_chunk(&[0x00, 0x80, 0xFF, 0x7F, 0x00, 0x00]);
    let samples = sink.finalize().unwrap();
    assert_eq!(samples, vec![-32768, 32767, 0]);
    // The normalization the recognition stage applies: s / 32768.0,
    // asymmetric by design — the minimum reaches -1.0, the maximum does not.
    let normalized: Vec<f32> = samples.iter().map(|s| *s as f32 / 32768.0).collect();
    assert_eq!(normalized[0], -1.0f32);
    assert_eq!(normalized[1], 0.999969482421875f32);
    assert!(normalized[1] < 1.0f32);
    assert_eq!(normalized[2], 0.0f32);
}

#[test]
fn wav_round_trip_preserves_samples() {
    let samples: Vec<i16> = vec![0, -1, 1, 32767, -32768, 1234, -4321];
    let bytes = encode_wav(&samples);
    assert_eq!(parse_wav(&bytes), Ok(samples));
}

#[test]
fn wav_header_is_canonical() {
    let samples: Vec<i16> = vec![0x1234, -2];
    let bytes = encode_wav(&samples);
    let expected: Vec<u8> = vec![
        0x52, 0x49, 0x46, 0x46, // RIFF
        40, 0, 0, 0, // riff chunk size: 36 + 4
        0x57, 0x41, 0x56, 0x45, // WAVE
        0x66, 0x6D, 0x74, 0x20, // fmt_
        16, 0, 0, 0, // fmt chunk size
        1, 0, // PCM
        1, 0, // mono
        0x80, 0x3E, 0, 0, // 16000 Hz
        0x00, 0x7D, 0, 0, // 32000 bytes per second
        2, 0, // block align
        16, 0, // bits per sample
        0x64, 0x61, 0x74, 0x61, // data
        4, 0, 0, 0, // data size
        0x34, 0x12, 0xFE, 0xFF, // the two samples, little endian
    ];
    assert_eq!(bytes, expected);
}

#[test]
fn wav_format_mismatch_is_detected() {
    let samples: Vec<i16> = vec![5, 6, 7];
    let mut bytes = encode_wav(&samples);
    bytes[24] = 0x44; // declare 44100 Hz instead of 16000
    bytes[25] = 0xAC;
    assert_eq!(parse_wav(&bytes), Err(WavError::FormatMismatch));
}

#[test]
fn wav_wrong_channel_count_is_detected() {
    let samples: Vec<i16> = vec![9];
    let mut bytes = encode_wav(&samples);
    bytes[22] = 2; // stereo
    assert_eq!(parse_wav(&bytes), Err(WavError::FormatMismatch));
}

#[test]
fn wav_malformed_containers_are_rejected() {
    assert_eq!(parse_wav(&[]), Err(WavError::MalformedHeader));
    assert_eq!(parse_wav(&[0x52, 0x49, 0x46, 0x46]), Err(WavError::MalformedHeader));

    let samples: Vec<i16> = vec![1, 2];
    let mut bad_magic = encode_wav(&samples);
    bad_magic[0] = 0x53;
    assert_eq!(parse_wav(&bad_magic), Err(WavError::MalformedHeader));

    // A container whose data section lost its final byte.
    let mut odd = encode_wav(&samples);
    odd.pop();
    assert_eq!(parse_wav(&odd), Err(WavError::MalformedHeader));
}
