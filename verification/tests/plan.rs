use mkv_cruncher::args::{AppArgs, PreloadMode, TranscodeMode};
use mkv_cruncher::command::InputMode;
use mkv_cruncher::cruncher::{Cruncher, DirEntry, SourceFile};
use mkv_cruncher::ffprobe::mkv::{CodecType, MkvFile, Stream};
use mkv_cruncher::policy::Policy;

fn stream(codec: &str, codec_type: CodecType) -> Stream {
    Stream { codec: codec.to_string(), codec_type }
}

fn video(codec: &str) -> Stream {
    stream(codec, CodecType::Video { language: "und".to_string(), title: String::new() })
}

fn audio(codec: &str, language: &str, channels: u64) -> Stream {
    stream(
        codec,
        CodecType::Audio { language: language.to_string(), title: String::new(), channels },
    )
}

fn sub(codec: &str, language: &str, title: &str) -> Stream {
    stream(codec, CodecType::Subtitle { language: language.to_string(), title: title.to_string() })
}

fn font(name: &str) -> Stream {
    stream("ttf", CodecType::Attachment { filename: name.to_string(), mime_type: String::new() })
}

fn cruncher(
    intermediate: Option<&str>,
    preload_mode: PreloadMode,
    transcode_mode: TranscodeMode,
) -> Cruncher {
    let args = AppArgs {
        input_dir: "/in".to_string(),
        output_dir: "/out".to_string(),
        intermediate_dir: intermediate.map(|s| s.to_string()),
        preload_mode,
        transcode_mode,
        dry_run: false,
        recursive: false,
    };
    let entries =
        vec![DirEntry { path: "/in/show.mkv".to_string(), name: "show.mkv".to_string(), is_file: true }];
    Cruncher::init(&args, &entries)
}

fn show() -> MkvFile {
    MkvFile {
        size: 900 * 1024 * 1024,
        duration: 24 * 60,
        streams: vec![
            video("av1"),
            audio("flac", "jpn", 6),
            audio("aac", "jpn", 2),
            audio("aac", "eng", 2),
            sub("ass", "eng", "Full"),
            sub("ass", "eng", "Signs"),
            font("a.ttf"),
            font("cover.jpg"),
        ],
    }
}

fn indices(kept: &Vec<(usize, &Stream)>) -> Vec<usize> {
    kept.iter().map(|(i, _)| *i).collect()
}

#[test]
fn plan_gathers_the_decisions_for_a_file() {
    let c = cruncher(None, PreloadMode::Auto, TranscodeMode::Auto);
    let mkv = show();
    let plan = c.plan_file(&mkv, &Policy::standard());
    assert!(plan.transcode_video);
    assert!(plan.preload);
    assert_eq!(indices(&plan.kept_subs), vec![0]);
    assert_eq!(plan.total_subs, 2);
    assert_eq!(indices(&plan.kept_audio), vec![1]);
    assert_eq!(plan.total_audio, 3);
    assert_eq!(indices(&plan.kept_attachments), vec![0]);
    assert_eq!(plan.total_attachments, 2);
}

#[test]
fn plan_follows_the_modes() {
    let mkv = show();
    let p = Policy::standard();
    let never = cruncher(None, PreloadMode::Force, TranscodeMode::Never).plan_file(&mkv, &p);
    assert!(!never.transcode_video);
    assert!(never.preload);
    let forced = cruncher(None, PreloadMode::Never, TranscodeMode::Force).plan_file(&mkv, &p);
    assert!(forced.transcode_video);
    assert!(!forced.preload);
    let small = MkvFile { size: 1, duration: 60, streams: vec![video("av1")] };
    let auto = cruncher(None, PreloadMode::Auto, TranscodeMode::Auto).plan_file(&small, &p);
    assert!(!auto.transcode_video);
    assert!(auto.preload);
}

#[test]
fn preload_is_planned_by_size_whether_or_not_the_video_is_transcoded() {
    let p = Policy::standard();
    for mode in [TranscodeMode::Auto, TranscodeMode::Force, TranscodeMode::Never] {
        let c = cruncher(None, PreloadMode::Auto, mode);
        let below = MkvFile { size: 2_999_999_999, duration: 60, streams: vec![video("av1")] };
        let at = MkvFile { size: 3_000_000_000, duration: 60, streams: vec![video("av1")] };
        assert!(c.plan_file(&below, &p).preload);
        assert!(!c.plan_file(&at, &p).preload);
    }
}

#[test]
fn small_file_reaches_the_encoder_inline_and_a_large_one_by_its_path() {
    let p = Policy::standard();
    let c = cruncher(None, PreloadMode::Auto, TranscodeMode::Never);
    let file = SourceFile { path: "/in/show.mkv".to_string(), name: "show.mkv".to_string() };
    let count = |args: &Vec<String>, word: &str| args.iter().filter(|a| *a == word).count();

    let small = MkvFile { size: 2_999_999_999, duration: 60, streams: vec![video("av1")] };
    let plan = c.plan_file(&small, &p);
    let command = c.encode_command(&file, &plan, Some(vec![1, 2, 3]), &p);
    assert_eq!(command.input, InputMode::Inline(vec![1, 2, 3]));
    assert_eq!(command.args[6..8], ["-i".to_string(), "pipe:0".to_string()]);
    assert_eq!(count(&command.args, "-i"), 1);
    assert_eq!(count(&command.args, "/in/show.mkv"), 0);

    let large = MkvFile { size: 3_000_000_000, duration: 60, streams: vec![video("av1")] };
    let plan = c.plan_file(&large, &p);
    let command = c.encode_command(&file, &plan, Some(vec![1, 2, 3]), &p);
    assert_eq!(command.input, InputMode::PathReference);
    assert_eq!(command.args[6..8], ["-i".to_string(), "/in/show.mkv".to_string()]);
    assert_eq!(count(&command.args, "-i"), 1);
    assert_eq!(count(&command.args, "pipe:0"), 0);
}

#[test]
fn file_that_could_not_be_read_is_named_by_its_path() {
    let p = Policy::standard();
    let c = cruncher(None, PreloadMode::Auto, TranscodeMode::Never);
    let file = SourceFile { path: "/in/show.mkv".to_string(), name: "show.mkv".to_string() };
    let small = MkvFile { size: 5, duration: 60, streams: vec![video("av1")] };
    let plan = c.plan_file(&small, &p);
    assert!(plan.preload);
    let command = c.encode_command(&file, &plan, None, &p);
    assert_eq!(command.input, InputMode::PathReference);
    assert_eq!(command.args[6..8], ["-i".to_string(), "/in/show.mkv".to_string()]);
}

#[test]
fn forbidden_preload_names_the_path_even_with_the_bytes_at_hand() {
    let p = Policy::standard();
    let c = cruncher(None, PreloadMode::Never, TranscodeMode::Force);
    let file = SourceFile { path: "/in/show.mkv".to_string(), name: "show.mkv".to_string() };
    let small = MkvFile { size: 5, duration: 60, streams: vec![video("av1")] };
    let plan = c.plan_file(&small, &p);
    let command = c.encode_command(&file, &plan, Some(vec![9]), &p);
    assert_eq!(command.input, InputMode::PathReference);
    assert_eq!(command.args[6..8], ["-i".to_string(), "/in/show.mkv".to_string()]);
}

#[test]
fn plan_is_worded_for_the_operator() {
    let c = cruncher(None, PreloadMode::Auto, TranscodeMode::Auto);
    let mkv = show();
    let plan = c.plan_file(&mkv, &Policy::standard());
    assert_eq!(
        plan.summary_text(),
        vec![
            "  Keeping 1/2 subs.",
            "      Full (ass)",
            "  Keeping 1/3 audio tracks.",
            "      Untitled track (aac)",
            "  Keeping 1/2 attachments.",
            "      a.ttf (ttf)",
        ]
    );
}

#[test]
fn planned_command_writes_to_the_intermediate_directory() {
    let c = cruncher(Some("/stage"), PreloadMode::Auto, TranscodeMode::Auto);
    let mkv = show();
    let p = Policy::standard();
    let plan = c.plan_file(&mkv, &p);
    let file = SourceFile { path: "/in/show.mkv".to_string(), name: "show.mkv".to_string() };
    let command = c.encode_command(&file, &plan, Some(vec![7, 7]), &p);
    assert_eq!(command.input, InputMode::Inline(vec![7, 7]));
    let expected: Vec<String> = [
        "-hide_banner", "-loglevel", "error", "-progress", "pipe:1", "-y",
        "-i", "pipe:0",
        "-map", "0:v:0",
        "-map", "0:s:0",
        "-map", "0:a:1", "-c:a", "copy",
        "-map", "0:t:0",
        "-c:v", "libsvtav1", "-crf", "30", "-preset", "7", "-g", "120",
        "-pix_fmt", "yuv420p10le",
        "-c:s", "copy",
        "-metadata", "title=",
        "-metadata:s:v", "title=",
        "-metadata:s:a", "title=",
        "-metadata:s:v", "language=und",
        "/stage/show.mkv",
    ]
    .iter()
    .map(|s| s.to_string())
    .collect();
    assert_eq!(command.args, expected);
}

#[test]
fn planned_command_names_the_path_when_nothing_is_preloaded() {
    let c = cruncher(None, PreloadMode::Never, TranscodeMode::Never);
    let mkv = MkvFile {
        size: 1,
        duration: 1,
        streams: vec![video("h264"), audio("dts", "jpn", 6), sub("subrip", "und", "")],
    };
    let p = Policy::standard();
    let plan = c.plan_file(&mkv, &p);
    let file = SourceFile { path: "/in/show.mkv".to_string(), name: "show.mkv".to_string() };
    let command = c.encode_command(&file, &plan, None, &p);
    assert_eq!(command.input, InputMode::PathReference);
    let expected: Vec<String> = [
        "-hide_banner", "-loglevel", "error", "-progress", "pipe:1", "-y",
        "-i", "/in/show.mkv",
        "-map", "0:v:0",
        "-map", "0:s",
        "-map", "0:a", "-c:a", "libopus", "-ac", "2",
        "-c:v", "copy",
        "-c:s", "copy",
        "-metadata", "title=",
        "-metadata:s:v", "title=",
        "-metadata:s:a", "title=",
        "-metadata:s:v", "language=und",
        "/out/show.mkv",
    ]
    .iter()
    .map(|s| s.to_string())
    .collect();
    assert_eq!(command.args, expected);
}
