//! The encoder's argument list and the way the file reaches the encoder.

use crate::args::PreloadMode;
use crate::ffprobe::mkv::Stream;
use crate::policy::{texts, Policy};
use crate::select::{is_in_list, is_listed};
use crate::text::{decimal_string, decimal_text, join_path, joined_path};
use vstd::prelude::*;
use vstd::string::StringExecFns;

verus! {

/// How the encoder gets the file.
#[derive(Debug, PartialEq, Eq)]
pub enum InputMode {
    /// The file's bytes, fed to the encoder's standard input.
    Inline(Vec<u8>),
    /// The encoder opens the file by its path.
    PathReference,
}

/// One encoder run: the arguments in order and the input mode.
#[derive(Debug, PartialEq, Eq)]
pub struct EncodeCommand {
    pub args: Vec<String>,
    pub input: InputMode,
}

/// The preload threshold that is in force: the policy's limit, or zero,
/// below which no file is, where the operator has switched preloading
/// off with the mode `Never`. The modes `Auto` and `Force` leave the
/// policy's limit in force.
pub open spec fn preload_threshold_of(mode: PreloadMode, policy: Policy) -> u64 {
    if mode == PreloadMode::Never {
        0
    } else {
        policy.preload_limit
    }
}

/// Gives the preload threshold that is in force under a mode.
pub fn preload_threshold(mode: PreloadMode, policy: &Policy) -> (threshold: u64)
    ensures
        threshold == preload_threshold_of(mode, *policy),
{
    match mode {
        PreloadMode::Never => 0,
        _ => policy.preload_limit,
    }
}

/// Whether the file is to be read into memory and fed to the encoder's
/// standard input: exactly where its size is below the preload
/// threshold. Whether the video is re-encoded plays no part.
pub open spec fn wants_preload(size: u64, threshold: u64) -> bool {
    size < threshold
}

/// Decides by its size whether the file is read into memory before the
/// encoder starts.
pub fn should_preload(size: u64, threshold: u64) -> (preload: bool)
    ensures
        preload == wants_preload(size, threshold),
{
    size < threshold
}

/// The arguments that quieten the encoder, ask for progress records on its
/// standard output and let it overwrite.
pub open spec fn leading_args() -> Seq<Seq<char>> {
    seq!["-hide_banner"@, "-loglevel"@, "error"@, "-progress"@, "pipe:1"@, "-y"@]
}

/// The input argument pair: standard input for an inline file, else its path.
pub open spec fn input_args(inline: bool, path: Seq<char>) -> Seq<Seq<char>> {
    if inline {
        seq!["-i"@, "pipe:0"@]
    } else {
        seq!["-i"@, path]
    }
}

/// One map argument pair per kept track, `prefix` followed by the track's
/// position within its category.
pub open spec fn single_maps(prefix: Seq<char>, kept: Seq<(usize, &Stream)>) -> Seq<Seq<char>>
    decreases kept.len(),
{
    if kept.len() == 0 {
        Seq::empty()
    } else {
        single_maps(prefix, kept.drop_last()) + seq![
            "-map"@,
            prefix + decimal_text(kept.last().0 as nat),
        ]
    }
}

/// The map arguments of one category: the whole category in one pair where
/// every track of it is kept and there is at least one, else one pair per
/// kept track.
pub open spec fn category_maps(
    whole: Seq<char>,
    prefix: Seq<char>,
    kept: Seq<(usize, &Stream)>,
    total: nat,
) -> Seq<Seq<char>> {
    if kept.len() > 0 && kept.len() == total {
        seq!["-map"@, whole]
    } else {
        single_maps(prefix, kept)
    }
}

/// The codec arguments for one audio track: a re-encode to two channels
/// with the configured audio encoder for a lossless codec, and a plain
/// copy for any other.
pub open spec fn audio_codec_args(policy: Policy, s: Stream) -> Seq<Seq<char>> {
    if is_listed(s.codec_text(), policy.lossless_audio_codecs@) {
        seq!["-c:a"@, policy.audio_encoder@, "-ac"@, "2"@]
    } else {
        seq!["-c:a"@, "copy"@]
    }
}

/// The arguments for one kept audio track: with `mapped`, its own map
/// pair; then its codec arguments.
pub open spec fn one_audio_args(policy: Policy, entry: (usize, &Stream), mapped: bool) -> Seq<
    Seq<char>,
> {
    (if mapped {
        seq!["-map"@, "0:a:"@ + decimal_text(entry.0 as nat)]
    } else {
        Seq::empty()
    }) + audio_codec_args(policy, *entry.1)
}

/// The arguments for the kept audio tracks one after the other, in their order.
pub open spec fn each_audio_args(
    policy: Policy,
    kept: Seq<(usize, &Stream)>,
    mapped: bool,
) -> Seq<Seq<char>>
    decreases kept.len(),
{
    if kept.len() == 0 {
        Seq::empty()
    } else {
        each_audio_args(policy, kept.drop_last(), mapped) + one_audio_args(
            policy,
            kept.last(),
            mapped,
        )
    }
}

/// The arguments for the audio category: the whole category in one map
/// pair where every track of it is kept and there is at least one, else
/// one map pair per kept track; either way each kept track's codec
/// arguments.
pub open spec fn audio_args(policy: Policy, kept: Seq<(usize, &Stream)>, total: nat) -> Seq<
    Seq<char>,
> {
    if kept.len() > 0 && kept.len() == total {
        seq!["-map"@, "0:a"@] + each_audio_args(policy, kept, false)
    } else {
        each_audio_args(policy, kept, true)
    }
}

/// The video codec arguments: the configured video encoder with its fixed
/// quality, preset, key-frame and pixel-format settings when re-encoding,
/// else a copy.
pub open spec fn video_codec_args(policy: Policy, transcode: bool) -> Seq<Seq<char>> {
    if transcode {
        seq![
            "-c:v"@,
            policy.video_encoder@,
            "-crf"@,
            "30"@,
            "-preset"@,
            "7"@,
            "-g"@,
            "120"@,
            "-pix_fmt"@,
            "yuv420p10le"@,
        ]
    } else {
        seq!["-c:v"@, "copy"@]
    }
}

/// The closing arguments: subtitles are copied, the titles of the file,
/// of the video and of the audio tracks are cleared, and the video's
/// language is set to undefined.
pub open spec fn trailing_args() -> Seq<Seq<char>> {
    seq![
        "-c:s"@,
        "copy"@,
        "-metadata"@,
        "title="@,
        "-metadata:s:v"@,
        "title="@,
        "-metadata:s:a"@,
        "title="@,
        "-metadata:s:v"@,
        "language=und"@,
    ]
}

/// What the command builder is given for one file.
pub struct CommandInput<'a> {
    /// The path of the source file.
    pub file_path: &'a str,
    /// The base name of the source file.
    pub file_name: &'a str,
    pub transcode_video: bool,
    pub kept_subs: &'a Vec<(usize, &'a Stream)>,
    /// How many subtitle tracks the file has.
    pub total_subs: usize,
    pub kept_audio: &'a Vec<(usize, &'a Stream)>,
    /// How many audio tracks the file has.
    pub total_audio: usize,
    pub kept_attachments: &'a Vec<(usize, &'a Stream)>,
    /// How many attachments the file has.
    pub total_attachments: usize,
    pub output_dir: &'a str,
    pub intermediate_dir: Option<&'a str>,
}

/// What the command builder is given, as plain values.
pub struct CommandModel<'a> {
    pub file_path: Seq<char>,
    pub file_name: Seq<char>,
    pub transcode_video: bool,
    pub kept_subs: Seq<(usize, &'a Stream)>,
    pub total_subs: nat,
    pub kept_audio: Seq<(usize, &'a Stream)>,
    pub total_audio: nat,
    pub kept_attachments: Seq<(usize, &'a Stream)>,
    pub total_attachments: nat,
    pub output_dir: Seq<char>,
    pub intermediate_dir: Option<Seq<char>>,
}

impl<'a> CommandModel<'a> {
    /// The directory that the encoder writes to: the intermediate one
    /// where there is one, else the output directory.
    pub open spec fn target_dir(self) -> Seq<char> {
        match self.intermediate_dir {
            Some(dir) => dir,
            None => self.output_dir,
        }
    }
}

impl<'a> View for CommandInput<'a> {
    type V = CommandModel<'a>;

    open spec fn view(&self) -> CommandModel<'a> {
        CommandModel {
            file_path: self.file_path@,
            file_name: self.file_name@,
            transcode_video: self.transcode_video,
            kept_subs: self.kept_subs@,
            total_subs: self.total_subs as nat,
            kept_audio: self.kept_audio@,
            total_audio: self.total_audio as nat,
            kept_attachments: self.kept_attachments@,
            total_attachments: self.total_attachments as nat,
            output_dir: self.output_dir@,
            intermediate_dir: match self.intermediate_dir {
                Some(dir) => Some(dir@),
                None => None,
            },
        }
    }
}

/// The whole argument list for one file, with `target` as the path that
/// the encoder writes to.
pub open spec fn command_args_to(
    policy: Policy,
    input: CommandModel,
    inline: bool,
    target: Seq<char>,
) -> Seq<Seq<char>> {
    leading_args() + input_args(inline, input.file_path) + seq!["-map"@, "0:v:0"@] + category_maps(
        "0:s"@,
        "0:s:"@,
        input.kept_subs,
        input.total_subs,
    ) + audio_args(policy, input.kept_audio, input.total_audio) + category_maps(
        "0:t"@,
        "0:t:"@,
        input.kept_attachments,
        input.total_attachments,
    ) + video_codec_args(policy, input.transcode_video) + trailing_args() + seq![target]
}

/// The whole argument list for one file: the encoder writes to the file's
/// name under the target directory.
pub open spec fn command_args(policy: Policy, input: CommandModel, inline: bool) -> Seq<Seq<char>> {
    command_args_to(policy, input, inline, joined_path(input.target_dir(), input.file_name))
}

fn push_text(args: &mut Vec<String>, word: &str)
    ensures
        texts(final(args)@) == texts(old(args)@).push(word@),
{
    args.push(String::from_str(word));
    assert(texts(args@) =~= texts(old(args)@).push(word@));
}

fn push_owned(args: &mut Vec<String>, word: String)
    ensures
        texts(final(args)@) == texts(old(args)@).push(word@),
{
    args.push(word);
    assert(texts(args@) =~= texts(old(args)@).push(word@));
}

fn push_pair(args: &mut Vec<String>, flag: &str, value: &str)
    ensures
        texts(final(args)@) == texts(old(args)@) + seq![flag@, value@],
{
    push_text(args, flag);
    push_text(args, value);
    assert(texts(args@) =~= texts(old(args)@) + seq![flag@, value@]);
}

fn push_single_maps(args: &mut Vec<String>, prefix: &str, kept: &Vec<(usize, &Stream)>)
    ensures
        texts(final(args)@) == texts(old(args)@) + single_maps(prefix@, kept@),
{
    let n: usize = kept.len();
    let mut i: usize = 0;
    assert(texts(args@) =~= texts(old(args)@) + single_maps(prefix@, kept@.take(0)));
    while i < n
        invariant
            n == kept@.len(),
            i <= n,
            texts(args@) == texts(old(args)@) + single_maps(prefix@, kept@.take(i as int)),
        decreases n - i,
    {
        let ghost before = texts(args@);
        let number = decimal_string(kept[i].0 as u64);
        let target = String::from_str(prefix).concat(number.as_str());
        push_text(args, "-map");
        push_owned(args, target);
        proof {
            assert(kept@.take(i + 1).drop_last() =~= kept@.take(i as int));
            assert(kept@.take(i + 1).last() == kept@[i as int]);
            assert(texts(args@) =~= texts(old(args)@) + single_maps(
                prefix@,
                kept@.take(i + 1),
            ));
        }
        i += 1;
    }
    assert(kept@.take(n as int) =~= kept@);
}

fn push_category_maps(
    args: &mut Vec<String>,
    whole: &str,
    prefix: &str,
    kept: &Vec<(usize, &Stream)>,
    total: usize,
)
    ensures
        texts(final(args)@) == texts(old(args)@) + category_maps(
            whole@,
            prefix@,
            kept@,
            total as nat,
        ),
{
    if kept.len() > 0 && kept.len() == total {
        push_pair(args, "-map", whole);
    } else {
        push_single_maps(args, prefix, kept);
    }
}

fn push_each_audio_args(
    args: &mut Vec<String>,
    policy: &Policy,
    kept: &Vec<(usize, &Stream)>,
    mapped: bool,
)
    ensures
        texts(final(args)@) == texts(old(args)@) + each_audio_args(*policy, kept@, mapped),
{
    let n: usize = kept.len();
    let mut i: usize = 0;
    assert(texts(args@) =~= texts(old(args)@) + each_audio_args(*policy, kept@.take(0), mapped));
    while i < n
        invariant
            n == kept@.len(),
            i <= n,
            texts(args@) == texts(old(args)@) + each_audio_args(
                *policy,
                kept@.take(i as int),
                mapped,
            ),
        decreases n - i,
    {
        if mapped {
            let number = decimal_string(kept[i].0 as u64);
            let target = String::from_str("0:a:").concat(number.as_str());
            push_text(args, "-map");
            push_owned(args, target);
        }
        if is_in_list(kept[i].1.codec(), &policy.lossless_audio_codecs) {
            push_pair(args, "-c:a", policy.audio_encoder.as_str());
            push_pair(args, "-ac", "2");
        } else {
            push_pair(args, "-c:a", "copy");
        }
        proof {
            assert(kept@.take(i + 1).drop_last() =~= kept@.take(i as int));
            assert(kept@.take(i + 1).last() == kept@[i as int]);
            assert(texts(args@) =~= texts(old(args)@) + each_audio_args(
                *policy,
                kept@.take(i + 1),
                mapped,
            ));
        }
        i += 1;
    }
    assert(kept@.take(n as int) =~= kept@);
}

fn push_audio_args(
    args: &mut Vec<String>,
    policy: &Policy,
    kept: &Vec<(usize, &Stream)>,
    total: usize,
)
    ensures
        texts(final(args)@) == texts(old(args)@) + audio_args(*policy, kept@, total as nat),
{
    if kept.len() > 0 && kept.len() == total {
        push_pair(args, "-map", "0:a");
        push_each_audio_args(args, policy, kept, false);
        assert(texts(args@) =~= texts(old(args)@) + audio_args(*policy, kept@, total as nat));
    } else {
        push_each_audio_args(args, policy, kept, true);
    }
}

fn push_video_codec_args(args: &mut Vec<String>, policy: &Policy, transcode: bool)
    ensures
        texts(final(args)@) == texts(old(args)@) + video_codec_args(*policy, transcode),
{
    if transcode {
        push_pair(args, "-c:v", policy.video_encoder.as_str());
        push_pair(args, "-crf", "30");
        push_pair(args, "-preset", "7");
        push_pair(args, "-g", "120");
        push_pair(args, "-pix_fmt", "yuv420p10le");
    } else {
        push_pair(args, "-c:v", "copy");
    }
    assert(texts(args@) =~= texts(old(args)@) + video_codec_args(*policy, transcode));
}

/// Builds the encoder run for one file. `preloaded` holds the file's bytes
/// where it was read into memory; the command is inline exactly then.
pub fn build_command(policy: &Policy, input: &CommandInput, preloaded: Option<Vec<u8>>) -> (command:
    EncodeCommand)
    ensures
        texts(command.args@) == command_args(*policy, input@, preloaded.is_some()),
        match preloaded {
            Some(bytes) => command.input == InputMode::Inline(bytes),
            None => command.input == InputMode::PathReference,
        },
{
    let dir: &str = match input.intermediate_dir {
        Some(d) => d,
        None => input.output_dir,
    };
    build_command_to(policy, input, preloaded, join_path(dir, input.file_name))
}

/// Builds the encoder run for one file that is written to `target`.
pub fn build_command_to(
    policy: &Policy,
    input: &CommandInput,
    preloaded: Option<Vec<u8>>,
    target: String,
) -> (command: EncodeCommand)
    ensures
        texts(command.args@) == command_args_to(*policy, input@, preloaded.is_some(), target@),
        match preloaded {
            Some(bytes) => command.input == InputMode::Inline(bytes),
            None => command.input == InputMode::PathReference,
        },
{
    let mut args: Vec<String> = Vec::new();
    assert(texts(args@) =~= Seq::empty());
    push_pair(&mut args, "-hide_banner", "-loglevel");
    push_pair(&mut args, "error", "-progress");
    push_pair(&mut args, "pipe:1", "-y");
    assert(texts(args@) =~= leading_args());
    if preloaded.is_some() {
        push_pair(&mut args, "-i", "pipe:0");
    } else {
        push_pair(&mut args, "-i", input.file_path);
    }
    push_pair(&mut args, "-map", "0:v:0");
    push_category_maps(&mut args, "0:s", "0:s:", input.kept_subs, input.total_subs);
    push_audio_args(&mut args, policy, input.kept_audio, input.total_audio);
    push_category_maps(&mut args, "0:t", "0:t:", input.kept_attachments, input.total_attachments);
    push_video_codec_args(&mut args, policy, input.transcode_video);
    let ghost before_tail = texts(args@);
    push_pair(&mut args, "-c:s", "copy");
    push_pair(&mut args, "-metadata", "title=");
    push_pair(&mut args, "-metadata:s:v", "title=");
    push_pair(&mut args, "-metadata:s:a", "title=");
    push_pair(&mut args, "-metadata:s:v", "language=und");
    assert(texts(args@) =~= before_tail + trailing_args());
    let ghost before_target = texts(args@);
    let ghost target_text = target@;
    push_owned(&mut args, target);
    assert(texts(args@) =~= before_target + seq![target_text]);
    let mode = match preloaded {
        Some(bytes) => InputMode::Inline(bytes),
        None => InputMode::PathReference,
    };
    EncodeCommand { args, input: mode }
}

/// A category of which nothing is kept gets no map argument at all, so the
/// whole-category form never stands for an empty selection.
pub proof fn lemma_nothing_kept_maps_nothing(whole: Seq<char>, prefix: Seq<char>, total: nat)
    ensures
        category_maps(whole, prefix, Seq::empty(), total) == Seq::<Seq<char>>::empty(),
{
}

/// The same holds of the audio category: no kept track, no argument.
pub proof fn lemma_no_audio_kept_maps_nothing(policy: Policy, total: nat)
    ensures
        audio_args(policy, Seq::empty(), total) == Seq::<Seq<char>>::empty(),
{
}

/// The whole-category form stands only where at least one track is kept.
pub proof fn lemma_whole_category_only_when_all_kept(
    whole: Seq<char>,
    prefix: Seq<char>,
    kept: Seq<(usize, &Stream)>,
    total: nat,
)
    ensures
        category_maps(whole, prefix, kept, total) == seq!["-map"@, whole] ==> kept.len() > 0,
{
    if kept.len() == 0 {
        assert(category_maps(whole, prefix, kept, total).len() == 0);
        assert(seq!["-map"@, whole].len() == 2);
    }
}

} // verus!
