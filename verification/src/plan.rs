//! What is decided for one file before the encoder runs, and the encoder
//! run that follows from it.

use crate::args::{PreloadMode, TranscodeMode};
use crate::command::{
    build_command, command_args, input_args, preload_threshold, preload_threshold_of,
    should_preload, wants_preload, CommandInput, CommandModel, EncodeCommand, InputMode,
};
use crate::cruncher::{Cruncher, SourceFile};
use crate::ffprobe::mkv::{MkvFile, Stream};
use crate::policy::{texts, Policy};
use crate::select::{
    analyze_attachments, analyze_audio_tracks, analyze_sub_tracks, is_attachment_selection,
    is_audio_selection, is_sub_selection, selection_summary, should_transcode_video,
    summary_lines, transcode_decision,
};
use vstd::prelude::*;

verus! {

/// The decisions for one file.
pub struct FilePlan<'a> {
    /// Whether the video is re-encoded.
    pub transcode_video: bool,
    /// Whether the file is to be read into memory for the encoder.
    pub preload: bool,
    pub kept_subs: Vec<(usize, &'a Stream)>,
    /// How many subtitle tracks the file has.
    pub total_subs: usize,
    pub kept_audio: Vec<(usize, &'a Stream)>,
    /// How many audio tracks the file has.
    pub total_audio: usize,
    pub kept_attachments: Vec<(usize, &'a Stream)>,
    /// How many attachments the file has.
    pub total_attachments: usize,
}

impl<'a> FilePlan<'a> {
    /// What the command builder is given for this plan: the file, the
    /// plan's decisions, and the batch's directories.
    pub open spec fn command_model(
        self,
        file: SourceFile,
        output_dir: Seq<char>,
        intermediate_dir: Option<Seq<char>>,
    ) -> CommandModel<'a> {
        CommandModel {
            file_path: file.path@,
            file_name: file.name@,
            transcode_video: self.transcode_video,
            kept_subs: self.kept_subs@,
            total_subs: self.total_subs as nat,
            kept_audio: self.kept_audio@,
            total_audio: self.total_audio as nat,
            kept_attachments: self.kept_attachments@,
            total_attachments: self.total_attachments as nat,
            output_dir,
            intermediate_dir,
        }
    }

    /// The file reaches the encoder through its standard input: the plan
    /// asks for a preload and the file's bytes are at hand.
    pub open spec fn delivers(self, contents: Option<Vec<u8>>) -> bool {
        self.preload && contents.is_some()
    }

    /// How the encoder gets the file, given the file's bytes or nothing.
    pub open spec fn input_mode(self, contents: Option<Vec<u8>>) -> InputMode {
        if self.delivers(contents) {
            InputMode::Inline(contents.unwrap())
        } else {
            InputMode::PathReference
        }
    }

    /// The report of the three selections, one after the other.
    pub open spec fn summary(self) -> Seq<Seq<char>> {
        summary_lines("subs"@, self.kept_subs@, self.total_subs as nat) + summary_lines(
            "audio tracks"@,
            self.kept_audio@,
            self.total_audio as nat,
        ) + summary_lines("attachments"@, self.kept_attachments@, self.total_attachments as nat)
    }

    /// Words the report of the three selections for the operator.
    pub fn summary_text(&self) -> (lines: Vec<String>)
        ensures
            texts(lines@) == self.summary(),
    {
        let mut lines = selection_summary("subs", &self.kept_subs, self.total_subs);
        let mut audio = selection_summary("audio tracks", &self.kept_audio, self.total_audio);
        let mut attachments = selection_summary(
            "attachments",
            &self.kept_attachments,
            self.total_attachments,
        );
        let ghost first = lines@;
        let ghost second = audio@;
        let ghost third = attachments@;
        lines.append(&mut audio);
        lines.append(&mut attachments);
        assert(texts(lines@) =~= texts(first) + texts(second) + texts(third));
        lines
    }
}

impl Cruncher {
    /// The intermediate directory as text, where there is one.
    pub open spec fn intermediate_text(self) -> Option<Seq<char>> {
        match self.intermediate {
            Some(dir) => Some(dir@),
            None => None,
        }
    }

    /// `plan` is what this batch decides for the file `mkv`.
    pub open spec fn plans(self, policy: Policy, mkv: MkvFile, plan: FilePlan) -> bool {
        &&& plan.transcode_video == transcode_decision(self.transcode_mode, policy, mkv)
        &&& plan.preload == wants_preload(
            mkv.size,
            preload_threshold_of(self.preload_mode, policy),
        )
        &&& is_sub_selection(policy, mkv.subtitle_tracks(), plan.kept_subs@)
        &&& plan.total_subs == mkv.subtitle_tracks().len()
        &&& is_audio_selection(policy, mkv.audio_tracks(), plan.kept_audio@)
        &&& plan.total_audio == mkv.audio_tracks().len()
        &&& is_attachment_selection(mkv.attachment_tracks(), plan.kept_attachments@)
        &&& plan.total_attachments == mkv.attachment_tracks().len()
    }

    /// Decides for one probed file whether its video is re-encoded, whether
    /// it is read into memory, and which of its tracks are kept.
    pub fn plan_file<'a>(&self, mkv: &'a MkvFile, policy: &Policy) -> (plan: FilePlan<'a>)
        requires
            self.transcode_mode == TranscodeMode::Auto ==> mkv.video_tracks().len() > 0,
        ensures
            self.plans(*policy, *mkv, plan),
    {
        let transcode_video = should_transcode_video(self.transcode_mode, mkv, policy);
        let preload = should_preload(mkv.size(), preload_threshold(self.preload_mode, policy));
        let kept_subs = analyze_sub_tracks(mkv, policy);
        let kept_audio = analyze_audio_tracks(mkv, policy);
        let kept_attachments = analyze_attachments(mkv);
        let total_subs: usize = mkv.subtitles_streams().len();
        let total_audio: usize = mkv.audio_streams().len();
        let total_attachments: usize = mkv.attachments().len();
        FilePlan {
            transcode_video,
            preload,
            kept_subs,
            total_subs,
            kept_audio,
            total_audio,
            kept_attachments,
            total_attachments,
        }
    }

    /// Builds the encoder run for one planned file. `contents` holds the
    /// file's bytes, or nothing where they were not read or could not be.
    /// The command is inline, with those bytes, exactly where the plan
    /// asks for a preload and the bytes are there; otherwise it names the
    /// file's path.
    pub fn encode_command(
        &self,
        file: &SourceFile,
        plan: &FilePlan,
        contents: Option<Vec<u8>>,
        policy: &Policy,
    ) -> (command: EncodeCommand)
        ensures
            texts(command.args@) == command_args(
                *policy,
                plan.command_model(*file, self.output@, self.intermediate_text()),
                plan.delivers(contents),
            ),
            command.input == plan.input_mode(contents),
    {
        let preloaded: Option<Vec<u8>> = if plan.preload {
            contents
        } else {
            None
        };
        let intermediate_dir: Option<&str> = match &self.intermediate {
            Some(dir) => Some(dir.as_str()),
            None => None,
        };
        let input = CommandInput {
            file_path: file.path.as_str(),
            file_name: file.name.as_str(),
            transcode_video: plan.transcode_video,
            kept_subs: &plan.kept_subs,
            total_subs: plan.total_subs,
            kept_audio: &plan.kept_audio,
            total_audio: plan.total_audio,
            kept_attachments: &plan.kept_attachments,
            total_attachments: plan.total_attachments,
            output_dir: self.output.as_str(),
            intermediate_dir,
        };
        assert(input@ == plan.command_model(*file, self.output@, self.intermediate_text()));
        build_command(policy, &input, preloaded)
    }
}

/// A file whose bytes are at hand reaches the encoder inline exactly where
/// its size is below the preload threshold in force, and by its path
/// otherwise; the arguments name standard input or the path to match.
pub proof fn lemma_input_mode_goes_by_size(
    cruncher: Cruncher,
    policy: Policy,
    mkv: MkvFile,
    plan: FilePlan,
    bytes: Vec<u8>,
)
    requires
        cruncher.plans(policy, mkv, plan),
    ensures
        ({
            let below = mkv.size < preload_threshold_of(cruncher.preload_mode, policy);
            &&& plan.delivers(Some(bytes)) == below
            &&& plan.input_mode(Some(bytes)) == if below {
                InputMode::Inline(bytes)
            } else {
                InputMode::PathReference
            }
            &&& forall|path: Seq<char>|
                #[trigger] input_args(plan.delivers(Some(bytes)), path) == if below {
                    seq!["-i"@, "pipe:0"@]
                } else {
                    seq!["-i"@, path]
                }
        }),
{
}

/// Under the modes `Auto` and `Force` the threshold in force is the
/// policy's preload limit.
pub proof fn lemma_threshold_is_the_policy_limit(mode: PreloadMode, policy: Policy)
    requires
        mode != PreloadMode::Never,
    ensures
        preload_threshold_of(mode, policy) == policy.preload_limit,
{
}

} // verus!
