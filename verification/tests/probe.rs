use mkv_cruncher::ffprobe::error::ProbeError;
use mkv_cruncher::ffprobe::mkv::{CodecType, MkvFile, Stream, StreamKind};
use mkv_cruncher::ffprobe::{FFProbeFormat, FFProbeResult, FFProbeStream, FFProbeStreamTags};

fn no_tags() -> FFProbeStreamTags {
    FFProbeStreamTags { language: None, title: None, filename: None, mimetype: None }
}

fn reported(codec: &str, kind: &str, channels: u64, tags: FFProbeStreamTags) -> FFProbeStream {
    FFProbeStream {
        codec_name: codec.to_string(),
        codec_type: kind.to_string(),
        channels,
        tags,
    }
}

fn report(size: &str, duration: &str, streams: Vec<FFProbeStream>) -> FFProbeResult {
    FFProbeResult {
        format: FFProbeFormat { duration: duration.to_string(), size: size.to_string() },
        streams,
    }
}

#[test]
fn audio_stream_takes_language_title_and_channels() {
    let tags = FFProbeStreamTags {
        language: Some("jpn".to_string()),
        title: Some("Main".to_string()),
        filename: None,
        mimetype: None,
    };
    let s = Stream::parse_result(reported("flac", "audio", 6, tags)).unwrap();
    assert_eq!(s.codec(), "flac");
    assert_eq!(s.channels(), 6);
    assert_eq!(s.stream_title(), "Main");
    assert_eq!(s.stream_language(), "jpn");
    assert_eq!(
        s.codec_type,
        CodecType::Audio { language: "jpn".to_string(), title: "Main".to_string(), channels: 6 }
    );
}

#[test]
fn missing_tags_default_to_und_and_empty() {
    let s = Stream::parse_result(reported("h264", "video", 0, no_tags())).unwrap();
    assert_eq!(s.stream_language(), "und");
    assert_eq!(s.stream_title(), "");
    assert_eq!(s.channels(), 0);
    assert_eq!(
        s.codec_type,
        CodecType::Video { language: "und".to_string(), title: String::new() }
    );
}

#[test]
fn subtitle_stream_is_a_subtitle() {
    let tags = FFProbeStreamTags {
        language: Some("eng".to_string()),
        title: None,
        filename: None,
        mimetype: None,
    };
    let s = Stream::parse_result(reported("ass", "subtitle", 0, tags)).unwrap();
    assert_eq!(
        s.codec_type,
        CodecType::Subtitle { language: "eng".to_string(), title: String::new() }
    );
    assert_eq!(s.channels(), 0);
}

#[test]
fn attachment_shows_its_file_name_as_title_and_no_language() {
    let tags = FFProbeStreamTags {
        language: Some("eng".to_string()),
        title: Some("ignored".to_string()),
        filename: Some("font.ttf".to_string()),
        mimetype: Some("font/ttf".to_string()),
    };
    let s = Stream::parse_result(reported("ttf", "attachment", 0, tags)).unwrap();
    assert_eq!(s.stream_title(), "font.ttf");
    assert_eq!(s.stream_language(), "");
    assert_eq!(
        s.codec_type,
        CodecType::Attachment { filename: "font.ttf".to_string(), mime_type: "font/ttf".to_string() }
    );
}

#[test]
fn each_kind_of_stream_is_told_apart() {
    for (text, kind) in [
        ("audio", StreamKind::Audio),
        ("video", StreamKind::Video),
        ("subtitle", StreamKind::Subtitle),
        ("attachment", StreamKind::Attachment),
    ] {
        let s = Stream::parse_result(reported("x", text, 0, no_tags())).unwrap();
        assert_eq!(s.kind(), kind);
    }
}

#[test]
fn unknown_kind_is_refused_with_its_text() {
    let r = Stream::parse_result(reported("bin", "data", 0, no_tags()));
    assert_eq!(r, Err(ProbeError::UnknownCodecType("data".to_string())));
}

#[test]
fn kind_is_matched_exactly() {
    let r = Stream::parse_result(reported("aac", "Audio", 2, no_tags()));
    assert_eq!(r, Err(ProbeError::UnknownCodecType("Audio".to_string())));
}

#[test]
fn file_is_built_from_report() {
    let probe = report(
        "734003200",
        "1440.5",
        vec![
            reported("h264", "video", 0, no_tags()),
            reported("aac", "audio", 2, no_tags()),
            reported("ass", "subtitle", 0, no_tags()),
        ],
    );
    let file = MkvFile::parse_result(probe, Some(1440)).unwrap();
    assert_eq!(file.size(), 734003200);
    assert_eq!(file.duration(), 1440);
    assert_eq!(file.streams.len(), 3);
    assert_eq!(file.video_streams().len(), 1);
    assert_eq!(file.audio_streams().len(), 1);
    assert_eq!(file.subtitles_streams().len(), 1);
    assert_eq!(file.attachments().len(), 0);
    assert_eq!(file.audio_streams()[0].codec(), "aac");
}

#[test]
fn size_with_plus_sign_is_a_number() {
    let file = MkvFile::parse_result(report("+42", "1.0", vec![]), Some(1)).unwrap();
    assert_eq!(file.size(), 42);
}

#[test]
fn largest_size_is_accepted_and_one_more_is_not() {
    let file = MkvFile::parse_result(report("18446744073709551615", "1", vec![]), Some(1)).unwrap();
    assert_eq!(file.size(), u64::MAX);
    let r = MkvFile::parse_result(report("18446744073709551616", "1", vec![]), Some(1));
    assert_eq!(r, Err(ProbeError::NumParseError("18446744073709551616".to_string())));
}

#[test]
fn malformed_size_is_a_number_error() {
    for bad in ["", "+", "12x", " 12", "-5", "1_000", "1.5"] {
        let r = MkvFile::parse_result(report(bad, "10", vec![]), Some(10));
        assert_eq!(r, Err(ProbeError::NumParseError(bad.to_string())));
    }
}

#[test]
fn malformed_duration_is_a_number_error() {
    let r = MkvFile::parse_result(report("10", "soon", vec![]), None);
    assert_eq!(r, Err(ProbeError::NumParseError("soon".to_string())));
}

#[test]
fn size_error_comes_before_duration_and_streams() {
    let probe = report("x", "y", vec![reported("bin", "data", 0, no_tags())]);
    let r = MkvFile::parse_result(probe, None);
    assert_eq!(r, Err(ProbeError::NumParseError("x".to_string())));
}

#[test]
fn first_unknown_stream_decides_the_error() {
    let probe = report(
        "1",
        "1",
        vec![
            reported("h264", "video", 0, no_tags()),
            reported("bin", "data", 0, no_tags()),
            reported("bin", "other", 0, no_tags()),
        ],
    );
    let r = MkvFile::parse_result(probe, Some(1));
    assert_eq!(r, Err(ProbeError::UnknownCodecType("data".to_string())));
}

#[test]
fn tracks_are_grouped_by_kind_in_container_order() {
    let title = |t: &str| FFProbeStreamTags {
        language: None,
        title: Some(t.to_string()),
        filename: Some(t.to_string()),
        mimetype: None,
    };
    let probe = report(
        "1",
        "1",
        vec![
            reported("aac", "audio", 2, title("a0")),
            reported("h264", "video", 0, title("v0")),
            reported("ttf", "attachment", 0, title("t0")),
            reported("aac", "audio", 6, title("a1")),
            reported("ass", "subtitle", 0, title("s0")),
            reported("ttf", "attachment", 0, title("t1")),
        ],
    );
    let file = MkvFile::parse_result(probe, Some(1)).unwrap();
    let names = |v: Vec<&Stream>| v.iter().map(|s| s.stream_title()).collect::<Vec<String>>();
    assert_eq!(names(file.audio_streams()), vec!["a0", "a1"]);
    assert_eq!(names(file.video_streams()), vec!["v0"]);
    assert_eq!(names(file.subtitles_streams()), vec!["s0"]);
    assert_eq!(names(file.attachments()), vec!["t0", "t1"]);
}

#[test]
fn error_messages_are_worded() {
    assert_eq!(
        ProbeError::NumParseError("12x".to_string()).message(),
        "Failed to parse '12x as a number.'"
    );
    assert_eq!(
        ProbeError::UnknownCodecType("data".to_string()).message(),
        "Unknown codec name 'data.'"
    );
    assert_eq!(
        ProbeError::ExecError("not found".to_string()).message(),
        "ffprobe subprocess failed to run: not found"
    );
    assert_eq!(
        ProbeError::SerdeError("eof".to_string()).message(),
        "Serde failed to deserialize the result: eof"
    );
}
