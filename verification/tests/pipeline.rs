use mkv_cruncher::args::{AppArgs, PreloadMode, TranscodeMode};
use mkv_cruncher::cruncher::{
    elapsed_summary, encode_event, finalize_event, probe_event, purge_list, BatchAction,
    BatchEvent, BatchState, Cruncher, DirEntry, SourceFile,
};
use mkv_cruncher::executor::{
    parse_progress_line, progress_span, read_record, EncodeAction, EncodeEvent, EncodeState,
    ProgressEvent,
};
use mkv_cruncher::finalize::{
    check_checksums, check_contents, check_copy_size, FinalizeAction, FinalizeError, FinalizeState,
};

fn entry(path: &str, name: &str, is_file: bool) -> DirEntry {
    DirEntry { path: path.to_string(), name: name.to_string(), is_file }
}

fn args(intermediate: Option<&str>, dry_run: bool) -> AppArgs {
    AppArgs {
        input_dir: "/in".to_string(),
        output_dir: "/out".to_string(),
        intermediate_dir: intermediate.map(|s| s.to_string()),
        preload_mode: PreloadMode::Auto,
        transcode_mode: TranscodeMode::Never,
        dry_run,
        recursive: false,
    }
}

fn batch(n: usize, intermediate: Option<&str>, dry_run: bool) -> Cruncher {
    let entries: Vec<DirEntry> =
        (0..n).map(|i| entry(&format!("/in/{i}.mkv"), &format!("{i}.mkv"), true)).collect();
    Cruncher::init(&args(intermediate, dry_run), &entries)
}

#[test]
fn getters_hand_back_the_arguments() {
    let a = args(Some("/stage"), true);
    assert_eq!(a.input_dir(), "/in");
    assert_eq!(a.output_dir(), "/out");
    assert_eq!(a.intermediate_dir(), Some("/stage".to_string()));
    assert_eq!(args(None, false).intermediate_dir(), None);
    assert_eq!(a.preload_mode(), PreloadMode::Auto);
    assert_eq!(a.transcode_mode(), TranscodeMode::Never);
    assert!(a.dry_run());
    assert!(!a.recursive());
    assert_eq!(a.listing_depth(), Some(1));
    let mut deep = args(None, false);
    deep.recursive = true;
    assert_eq!(deep.listing_depth(), None);
}

fn paths(c: &Cruncher) -> Vec<String> {
    c.files.iter().map(|f| f.path.clone()).collect()
}

#[test]
fn batch_takes_the_container_files_only() {
    let entries = vec![
        entry("/in/a.mkv", "a.mkv", true),
        entry("/in/notes.txt", "notes.txt", true),
        entry("/in/dir.mkv", "dir.mkv", false),
        entry("/in/b.mkv.part", "b.mkv.part", true),
        entry("/in/C.MKV", "C.MKV", true),
        entry("/in/mkv", "mkv", true),
    ];
    let c = Cruncher::init(&args(Some("/stage"), false), &entries);
    assert_eq!(paths(&c), vec!["/in/a.mkv", "/in/b.mkv.part"]);
    assert_eq!(c.files[1], SourceFile { path: "/in/b.mkv.part".to_string(), name: "b.mkv.part".to_string() });
    assert_eq!(c.output, "/out");
    assert_eq!(c.intermediate, Some("/stage".to_string()));
    assert_eq!(c.preload_mode, PreloadMode::Auto);
    assert_eq!(c.transcode_mode, TranscodeMode::Never);
    assert!(!c.dry_run);
}

#[test]
fn batch_runs_in_name_order() {
    let entries = vec![
        entry("/in/z/b.mkv", "b.mkv", true),
        entry("/in/c.mkv", "c.mkv", true),
        entry("/in/a.mkv", "a.mkv", true),
        entry("/in/y/b.mkv", "b.mkv", true),
        entry("/in/B.mkv", "B.mkv", true),
        entry("/in/ab.mkv", "ab.mkv", true),
        entry("/in/x/b.mkv", "b.mkv", true),
    ];
    let c = Cruncher::init(&args(None, false), &entries);
    assert_eq!(
        paths(&c),
        vec![
            "/in/B.mkv",
            "/in/a.mkv",
            "/in/ab.mkv",
            "/in/z/b.mkv",
            "/in/y/b.mkv",
            "/in/x/b.mkv",
            "/in/c.mkv",
        ]
    );
}

#[test]
fn purge_takes_files_named_after_the_container_whatever_the_case() {
    let entries = vec![
        entry("/stage/a.mkv", "a.mkv", true),
        entry("/stage/B.MKV", "B.MKV", true),
        entry("/stage/mkv", "mkv", true),
        entry("/stage/sub.mkv", "sub.mkv", false),
        entry("/stage/a.mp4", "a.mp4", true),
    ];
    assert_eq!(purge_list(&entries), vec!["/stage/a.mkv", "/stage/B.MKV", "/stage/mkv"]);
}

#[test]
fn batch_walks_each_file_through_its_stages() {
    let c = batch(2, Some("/stage"), false);
    let mut s = c.start();
    assert_eq!(s, BatchState::Probing(0));
    assert_eq!(c.action(s), BatchAction::Probe(0));
    s = c.advance(s, BatchEvent::Probed);
    assert_eq!(c.action(s), BatchAction::Encode(0));
    s = c.advance(s, BatchEvent::Encoded);
    assert_eq!(c.action(s), BatchAction::Finalize(0));
    s = c.advance(s, BatchEvent::Finalized);
    assert_eq!(c.action(s), BatchAction::Probe(1));
    s = c.advance(s, BatchEvent::Probed);
    s = c.advance(s, BatchEvent::Encoded);
    s = c.advance(s, BatchEvent::Finalized);
    assert_eq!(s, BatchState::Finished);
    assert_eq!(c.action(s), BatchAction::Stop { report_total: true });
}

#[test]
fn without_intermediate_directory_nothing_is_finalized() {
    let c = batch(1, None, false);
    let mut s = c.start();
    s = c.advance(s, BatchEvent::Probed);
    s = c.advance(s, BatchEvent::Encoded);
    assert_eq!(s, BatchState::Finished);
    assert_eq!(c.action(s), BatchAction::Stop { report_total: false });
}

#[test]
fn unreadable_file_is_passed_over() {
    let c = batch(2, Some("/stage"), false);
    let s = c.advance(c.start(), BatchEvent::ProbeFailed);
    assert_eq!(s, BatchState::Probing(1));
    assert_eq!(c.advance(s, BatchEvent::ProbeFailed), BatchState::Finished);
}

#[test]
fn dry_run_stops_after_the_choice_of_tracks() {
    let c = batch(2, Some("/stage"), true);
    let s = c.advance(c.start(), BatchEvent::Probed);
    assert_eq!(s, BatchState::Probing(1));
    assert_eq!(c.action(BatchState::Aborted), BatchAction::Stop { report_total: false });
}

#[test]
fn failed_encode_stops_the_batch_and_purges() {
    let c = batch(3, Some("/stage"), false);
    let s = c.advance(BatchState::Encoding(0), BatchEvent::EncodeFailed);
    assert_eq!(s, BatchState::Aborted);
    assert_eq!(c.action(s), BatchAction::PurgeAndStop);
    assert_eq!(c.advance(s, BatchEvent::Probed), BatchState::Aborted);
    let direct = batch(3, None, false);
    assert_eq!(direct.action(BatchState::Aborted), BatchAction::Stop { report_total: false });
}

#[test]
fn wrong_byte_count_aborts_the_batch_and_purges_the_stage() {
    let c = batch(2, Some("/stage"), false);
    let mut s = c.start();
    s = c.advance(s, BatchEvent::Probed);
    s = c.advance(s, BatchEvent::Encoded);
    let f = FinalizeState::Start.size_read(1000).copy_done(true, 999);
    assert_eq!(f, FinalizeState::Failed(FinalizeError::SizeMismatch { staged: 1000, copied: 999 }));
    assert_eq!(f.action(), FinalizeAction::Rest);
    assert!(f.has_ended());
    s = c.advance(s, finalize_event(f));
    assert_eq!(s, BatchState::Aborted);
    assert_eq!(c.action(s), BatchAction::PurgeAndStop);
    let stage = vec![
        entry("/stage/0.mkv", "0.mkv", true),
        entry("/stage/keep.log", "keep.log", true),
    ];
    assert_eq!(purge_list(&stage), vec!["/stage/0.mkv"]);
}

#[test]
fn ended_runs_become_the_batch_events() {
    assert_eq!(probe_event(true), BatchEvent::Probed);
    assert_eq!(probe_event(false), BatchEvent::ProbeFailed);
    assert_eq!(encode_event(EncodeState::Succeeded), BatchEvent::Encoded);
    assert_eq!(encode_event(EncodeState::Failed(Some(1))), BatchEvent::EncodeFailed);
    assert_eq!(encode_event(EncodeState::Failed(None)), BatchEvent::EncodeFailed);
    assert_eq!(finalize_event(FinalizeState::Done), BatchEvent::Finalized);
    assert_eq!(
        finalize_event(FinalizeState::Failed(FinalizeError::DeleteFailed)),
        BatchEvent::FinalizeFailed
    );
    assert!(EncodeState::Succeeded.has_ended());
    assert!(EncodeState::Failed(None).has_ended());
    assert!(!EncodeState::NotStarted.has_ended());
    assert!(!EncodeState::Running.has_ended());
    assert!(FinalizeState::Done.has_ended());
    assert!(FinalizeState::Failed(FinalizeError::CopyFailed).has_ended());
    assert!(!FinalizeState::Start.has_ended());
    assert!(!FinalizeState::Sized { staged: 1 }.has_ended());
    assert!(!FinalizeState::Copied.has_ended());
    assert!(!FinalizeState::Verified.has_ended());
}

#[test]
fn failed_encoder_run_aborts_the_batch_through_its_event() {
    let c = batch(2, Some("/stage"), false);
    let ended = EncodeState::Running.advance(EncodeEvent::Exited(Some(2)));
    let s = c.advance(BatchState::Encoding(0), encode_event(ended));
    assert_eq!(s, BatchState::Aborted);
    let ended = EncodeState::Running.advance(EncodeEvent::Exited(Some(0)));
    let s = c.advance(BatchState::Encoding(0), encode_event(ended));
    assert_eq!(s, BatchState::Finalizing(0));
}

#[test]
fn events_of_another_stage_change_nothing() {
    let c = batch(2, Some("/stage"), false);
    for state in [
        BatchState::Probing(0),
        BatchState::Encoding(1),
        BatchState::Finalizing(0),
        BatchState::Finished,
        BatchState::Aborted,
    ] {
        let foreign = match state {
            BatchState::Probing(_) => BatchEvent::Encoded,
            BatchState::Encoding(_) => BatchEvent::Finalized,
            _ => BatchEvent::Probed,
        };
        assert_eq!(c.advance(state, foreign), state);
    }
    assert_eq!(c.advance(BatchState::Probing(7), BatchEvent::ProbeFailed), BatchState::Finished);
}

#[test]
fn empty_batch_is_finished_at_once() {
    let c = batch(0, None, false);
    assert_eq!(c.start(), BatchState::Finished);
    assert_eq!(c.action(c.start()), BatchAction::Stop { report_total: false });
}

#[test]
fn elapsed_time_is_worded_in_minutes_and_seconds() {
    assert_eq!(elapsed_summary(125), "Finished processing all files in 2m5s");
    assert_eq!(elapsed_summary(0), "Finished processing all files in 0m0s");
    assert_eq!(elapsed_summary(3600), "Finished processing all files in 60m0s");
}

#[test]
fn progress_records_are_read() {
    assert_eq!(parse_progress_line("speed=1.5x"), ProgressEvent::Speed("1.5x".to_string()));
    assert_eq!(parse_progress_line("out_time_ms=123456"), ProgressEvent::Position(123456));
    assert_eq!(parse_progress_line("out_time_ms=N/A"), ProgressEvent::Position(0));
    assert_eq!(parse_progress_line("out_time_ms=-5"), ProgressEvent::Position(0));
    assert_eq!(parse_progress_line("out_time_ms="), ProgressEvent::Position(0));
    assert_eq!(parse_progress_line("frame=12"), ProgressEvent::Other);
    assert_eq!(parse_progress_line("speed"), ProgressEvent::Other);
    assert_eq!(parse_progress_line(""), ProgressEvent::Other);
    assert_eq!(parse_progress_line("=speed"), ProgressEvent::Other);
}

#[test]
fn record_is_split_at_the_first_equals_sign() {
    assert_eq!(parse_progress_line("speed=a=b"), ProgressEvent::Speed("a=b".to_string()));
    assert_eq!(parse_progress_line("speed="), ProgressEvent::Speed(String::new()));
    assert_eq!(parse_progress_line("Speed=1x"), ProgressEvent::Other);
    assert_eq!(parse_progress_line(" speed=1x"), ProgressEvent::Other);
}

#[test]
fn split_records_are_read() {
    assert_eq!(read_record("speed", "2x".to_string()), ProgressEvent::Speed("2x".to_string()));
    assert_eq!(read_record("out_time_ms", "+7".to_string()), ProgressEvent::Position(7));
    assert_eq!(read_record("bitrate", "7".to_string()), ProgressEvent::Other);
}

#[test]
fn progress_scale_is_in_microseconds() {
    assert_eq!(progress_span(0), 0);
    assert_eq!(progress_span(1440), 1_440_000_000);
}

#[test]
fn encoder_run_succeeds_on_exit_code_zero() {
    let s = EncodeState::NotStarted;
    assert_eq!(s.action(true), EncodeAction::Launch { feed_input: true });
    assert_eq!(s.action(false), EncodeAction::Launch { feed_input: false });
    let s = s.advance(EncodeEvent::Launched);
    assert_eq!(s, EncodeState::Running);
    assert_eq!(s.action(true), EncodeAction::Follow);
    let s = s.advance(EncodeEvent::Exited(Some(0)));
    assert_eq!(s, EncodeState::Succeeded);
    assert_eq!(s.action(true), EncodeAction::Rest);
    assert_eq!(s.advance(EncodeEvent::IoFailed), EncodeState::Succeeded);
}

#[test]
fn encoder_run_fails_with_the_exit_code_where_there_is_one() {
    let running = EncodeState::Running;
    assert_eq!(running.advance(EncodeEvent::Exited(Some(1))), EncodeState::Failed(Some(1)));
    assert_eq!(running.advance(EncodeEvent::Exited(Some(-9))), EncodeState::Failed(Some(-9)));
    assert_eq!(running.advance(EncodeEvent::Exited(None)), EncodeState::Failed(None));
    assert_eq!(running.advance(EncodeEvent::IoFailed), EncodeState::Failed(None));
    assert_eq!(running.advance(EncodeEvent::Launched), EncodeState::Running);
    assert_eq!(EncodeState::NotStarted.advance(EncodeEvent::IoFailed), EncodeState::Failed(None));
    assert_eq!(
        EncodeState::NotStarted.advance(EncodeEvent::Exited(Some(0))),
        EncodeState::NotStarted
    );
    assert_eq!(
        EncodeState::Failed(Some(1)).advance(EncodeEvent::Exited(Some(0))),
        EncodeState::Failed(Some(1))
    );
}

#[test]
fn copy_size_is_checked() {
    assert_eq!(check_copy_size(10, 10), Ok(()));
    assert_eq!(check_copy_size(10, 9), Err(FinalizeError::SizeMismatch { staged: 10, copied: 9 }));
}

#[test]
fn checksums_are_checked() {
    assert_eq!(check_checksums(5, 5), Ok(()));
    assert_eq!(
        check_checksums(5, 6),
        Err(FinalizeError::ChecksumMismatch { staged: 5, copied: 6 })
    );
}

#[test]
fn contents_are_checked_by_seahash() {
    assert_eq!(check_contents(b"to be or not to be", b"to be or not to be"), Ok(()));
    assert_eq!(check_contents(b"", b""), Ok(()));
    assert_eq!(
        check_contents(b"to be or not to be", b"to be or not to bf"),
        Err(FinalizeError::ChecksumMismatch {
            staged: seahash::hash(b"to be or not to be"),
            copied: seahash::hash(b"to be or not to bf"),
        })
    );
    assert_eq!(seahash::hash(b"to be or not to be"), 1988685042348123509);
}

#[test]
fn finalizer_checks_the_checksum_only_after_a_transcode() {
    let sized = FinalizeState::Start.size_read(4);
    assert_eq!(FinalizeState::Start.action(), FinalizeAction::ReadStagedSize);
    assert_eq!(sized, FinalizeState::Sized { staged: 4 });
    assert_eq!(sized.action(), FinalizeAction::Copy);
    let plain = sized.copy_done(false, 4);
    assert_eq!(plain, FinalizeState::Verified);
    assert_eq!(plain.action(), FinalizeAction::DeleteStaged);
    let coded = sized.copy_done(true, 4);
    assert_eq!(coded, FinalizeState::Copied);
    assert_eq!(coded.action(), FinalizeAction::ReadBoth);
    assert_eq!(coded.contents_read(b"abcd", b"abcd"), FinalizeState::Verified);
    assert_eq!(
        coded.contents_read(b"abcd", b"abce"),
        FinalizeState::Failed(FinalizeError::ChecksumMismatch {
            staged: seahash::hash(b"abcd"),
            copied: seahash::hash(b"abce"),
        })
    );
    assert_eq!(coded.checksums_known(1, 1), FinalizeState::Verified);
    assert_eq!(plain.deleted(), FinalizeState::Done);
    assert_eq!(FinalizeState::Done.action(), FinalizeAction::Rest);
}

#[test]
fn finalizer_failures_are_named_by_their_stage() {
    assert_eq!(
        FinalizeState::Start.io_failed(),
        FinalizeState::Failed(FinalizeError::CopyFailed)
    );
    assert_eq!(
        FinalizeState::Sized { staged: 1 }.io_failed(),
        FinalizeState::Failed(FinalizeError::CopyFailed)
    );
    assert_eq!(
        FinalizeState::Copied.io_failed(),
        FinalizeState::Failed(FinalizeError::CopyFailed)
    );
    assert_eq!(
        FinalizeState::Verified.io_failed(),
        FinalizeState::Failed(FinalizeError::DeleteFailed)
    );
    assert_eq!(FinalizeState::Done.io_failed(), FinalizeState::Done);
}

#[test]
fn finalizer_ignores_what_does_not_belong_to_its_stage() {
    assert_eq!(FinalizeState::Start.copy_done(true, 1), FinalizeState::Start);
    assert_eq!(FinalizeState::Start.deleted(), FinalizeState::Start);
    assert_eq!(FinalizeState::Copied.size_read(3), FinalizeState::Copied);
    assert_eq!(FinalizeState::Verified.contents_read(b"a", b"b"), FinalizeState::Verified);
    assert_eq!(FinalizeState::Done.checksums_known(1, 2), FinalizeState::Done);
}
