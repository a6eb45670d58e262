use super::error::ProbeError;
use super::{FFProbeResult, FFProbeStream};
use crate::seqs::lemma_filter_take_step;
use crate::text::{parse_u64, same_text, text_to_u64};
use vstd::prelude::*;
use vstd::string::StringExecFns;

verus! {

/// What a track is, with the tags that belong to that kind.
#[derive(Debug, PartialEq, Eq)]
pub enum CodecType {
    Audio { language: String, title: String, channels: u64 },
    Video { language: String, title: String },
    Subtitle { language: String, title: String },
    Attachment { filename: String, mime_type: String },
}

/// The four kinds of track.
#[derive(Copy, Clone, Debug, PartialEq, Eq, Structural)]
pub enum StreamKind {
    Audio,
    Video,
    Subtitle,
    Attachment,
}

/// The test for tracks of one kind.
pub open spec fn of_kind(kind: StreamKind) -> spec_fn(Stream) -> bool {
    |s: Stream| s.kind_of() == kind
}

/// One track of a container.
#[derive(Debug, PartialEq, Eq)]
pub struct Stream {
    pub codec: String,
    pub codec_type: CodecType,
}

/// One probed container.
#[derive(Debug, PartialEq, Eq)]
pub struct MkvFile {
    pub size: u64,
    /// Whole seconds of running time.
    pub duration: u64,
    pub streams: Vec<Stream>,
}

/// The text of an optional tag, empty where the tag is missing.
pub open spec fn tag_or_empty(tag: Option<String>) -> Seq<char> {
    match tag {
        Some(t) => t@,
        None => Seq::empty(),
    }
}

/// The language tag, `und` where it is missing.
pub open spec fn language_or_und(tag: Option<String>) -> Seq<char> {
    match tag {
        Some(t) => t@,
        None => "und"@,
    }
}

/// The kind's text is one of the four that the model knows.
pub open spec fn is_known_kind(kind: Seq<char>) -> bool {
    kind == "audio"@ || kind == "video"@ || kind == "subtitle"@ || kind == "attachment"@
}

fn tag_text(tag: Option<String>) -> (text: String)
    ensures
        text@ == tag_or_empty(tag),
{
    match tag {
        Some(t) => t,
        None => String::new(),
    }
}

/// The tracks that a list of borrowed tracks points at.
pub open spec fn borrowed(found: Seq<&Stream>) -> Seq<Stream> {
    found.map_values(|s: &Stream| *s)
}

/// Every reported stream before position `k` is of a known kind and the
/// one at `k` is not.
pub open spec fn is_first_unknown_kind(reported: Seq<FFProbeStream>, k: int) -> bool {
    &&& 0 <= k < reported.len()
    &&& !is_known_kind(reported[k].codec_type@)
    &&& forall|j: int| 0 <= j < k ==> is_known_kind(#[trigger] reported[j].codec_type@)
}

/// Every reported stream is of a known kind.
pub open spec fn all_kinds_known(reported: Seq<FFProbeStream>) -> bool {
    forall|j: int| 0 <= j < reported.len() ==> is_known_kind(#[trigger] reported[j].codec_type@)
}

impl MkvFile {
    /// Builds the model of a file from the probe's report and the running
    /// time in whole seconds, `None` where the report's duration is no
    /// number. The first field that fails decides the error: the size, then
    /// the duration, then the streams in their order.
    pub fn parse_result(probe: FFProbeResult, duration: Option<u64>) -> (result: Result<
        MkvFile,
        ProbeError,
    >)
        ensures
            result.is_ok() == (text_to_u64(probe.format.size@).is_some() && duration.is_some()
                && all_kinds_known(probe.streams@)),
            match result {
                Ok(file) => {
                    &&& Some(file.size) == text_to_u64(probe.format.size@)
                    &&& Some(file.duration) == duration
                    &&& file.streams@.len() == probe.streams@.len()
                    &&& forall|i: int|
                        0 <= i < file.streams@.len() ==> (#[trigger] file.streams@[i]).describes(
                            probe.streams@[i],
                        )
                },
                Err(e) => {
                    if text_to_u64(probe.format.size@).is_none() {
                        e == ProbeError::NumParseError(probe.format.size)
                    } else if duration.is_none() {
                        e == ProbeError::NumParseError(probe.format.duration)
                    } else {
                        exists|k: int|
                            is_first_unknown_kind(probe.streams@, k) && e
                                == ProbeError::UnknownCodecType(
                                (#[trigger] probe.streams@[k]).codec_type,
                            )
                    }
                },
            },
    {
        let size: u64 = match parse_u64(probe.format.size.as_str()) {
            Some(n) => n,
            None => {
                return Err(ProbeError::NumParseError(probe.format.size));
            },
        };
        let seconds: u64 = match duration {
            Some(d) => d,
            None => {
                return Err(ProbeError::NumParseError(probe.format.duration));
            },
        };
        let ghost reported = probe.streams@;
        let ghost size_text = probe.format.size@;
        let mut streams: Vec<Stream> = Vec::new();
        for stream_probe in it: probe.streams
            invariant
                it.seq() == reported,
                reported == probe.streams@,
                size_text == probe.format.size@,
                text_to_u64(size_text) == Some(size),
                duration == Some(seconds),
                streams@.len() == it.index(),
                forall|j: int|
                    0 <= j < it.index() ==> is_known_kind(#[trigger] reported[j].codec_type@),
                forall|j: int|
                    0 <= j < streams@.len() ==> (#[trigger] streams@[j]).describes(reported[j]),
        {
            let ghost k = streams@.len() as int;
            assert(stream_probe == reported[k]);
            match Stream::parse_result(stream_probe) {
                Ok(s) => {
                    streams.push(s);
                },
                Err(e) => {
                    assert(is_first_unknown_kind(reported, k));
                    return Err(e);
                },
            }
        }
        Ok(MkvFile { size, duration: seconds, streams })
    }

    /// The tracks of one kind in container order.
    pub open spec fn tracks_of(self, kind: StreamKind) -> Seq<Stream> {
        self.streams@.filter(of_kind(kind))
    }

    /// The attachments in container order.
    pub open spec fn attachment_tracks(self) -> Seq<Stream> {
        self.tracks_of(StreamKind::Attachment)
    }

    /// The audio tracks in container order.
    pub open spec fn audio_tracks(self) -> Seq<Stream> {
        self.tracks_of(StreamKind::Audio)
    }

    /// The video tracks in container order.
    pub open spec fn video_tracks(self) -> Seq<Stream> {
        self.tracks_of(StreamKind::Video)
    }

    /// The subtitle tracks in container order.
    pub open spec fn subtitle_tracks(self) -> Seq<Stream> {
        self.tracks_of(StreamKind::Subtitle)
    }

    fn streams_of(&self, kind: StreamKind) -> (found: Vec<&Stream>)
        ensures
            borrowed(found@) == self.tracks_of(kind),
    {
        let mut found: Vec<&Stream> = Vec::new();
        let n: usize = self.streams.len();
        let mut i: usize = 0;
        while i < n
            invariant
                n == self.streams@.len(),
                i <= n,
                borrowed(found@) == self.streams@.take(i as int).filter(of_kind(kind)),
            decreases n - i,
        {
            let s: &Stream = &self.streams[i];
            proof {
                lemma_filter_take_step(self.streams@, of_kind(kind), i as int);
                assert(borrowed(found@.push(s)) == borrowed(found@).push(*s));
            }
            if s.kind() == kind {
                found.push(s);
            }
            i += 1;
        }
        assert(self.streams@.take(n as int) == self.streams@);
        found
    }

    pub fn attachments(&self) -> (found: Vec<&Stream>)
        ensures
            borrowed(found@) == self.attachment_tracks(),
    {
        self.streams_of(StreamKind::Attachment)
    }

    pub fn audio_streams(&self) -> (found: Vec<&Stream>)
        ensures
            borrowed(found@) == self.audio_tracks(),
    {
        self.streams_of(StreamKind::Audio)
    }

    pub fn video_streams(&self) -> (found: Vec<&Stream>)
        ensures
            borrowed(found@) == self.video_tracks(),
    {
        self.streams_of(StreamKind::Video)
    }

    pub fn subtitles_streams(&self) -> (found: Vec<&Stream>)
        ensures
            borrowed(found@) == self.subtitle_tracks(),
    {
        self.streams_of(StreamKind::Subtitle)
    }

    pub fn size(&self) -> (bytes: u64)
        ensures
            bytes == self.size,
    {
        self.size
    }

    /// The running time in whole seconds.
    pub fn duration(&self) -> (seconds: u64)
        ensures
            seconds == self.duration,
    {
        self.duration
    }
}

impl Stream {
    /// Which of the four kinds the track is of.
    pub open spec fn kind_of(self) -> StreamKind {
        match self.codec_type {
            CodecType::Audio { .. } => StreamKind::Audio,
            CodecType::Video { .. } => StreamKind::Video,
            CodecType::Subtitle { .. } => StreamKind::Subtitle,
            CodecType::Attachment { .. } => StreamKind::Attachment,
        }
    }

    pub open spec fn is_audio(self) -> bool {
        self.kind_of() == StreamKind::Audio
    }

    pub open spec fn is_video(self) -> bool {
        self.kind_of() == StreamKind::Video
    }

    pub open spec fn is_subtitle(self) -> bool {
        self.kind_of() == StreamKind::Subtitle
    }

    pub open spec fn is_attachment(self) -> bool {
        self.kind_of() == StreamKind::Attachment
    }

    /// Tells which of the four kinds the track is of.
    pub fn kind(&self) -> (kind: StreamKind)
        ensures
            kind == self.kind_of(),
    {
        match &self.codec_type {
            CodecType::Audio { .. } => StreamKind::Audio,
            CodecType::Video { .. } => StreamKind::Video,
            CodecType::Subtitle { .. } => StreamKind::Subtitle,
            CodecType::Attachment { .. } => StreamKind::Attachment,
        }
    }

    /// The codec's name as text.
    pub open spec fn codec_text(self) -> Seq<char> {
        self.codec@
    }

    /// The number of channels of an audio track, zero for any other track.
    pub open spec fn channel_count(self) -> u64 {
        match self.codec_type {
            CodecType::Audio { channels, .. } => channels,
            _ => 0,
        }
    }

    /// The title of a track, or the file name of an attachment.
    pub open spec fn title_text(self) -> Seq<char> {
        match self.codec_type {
            CodecType::Audio { title, .. } => title@,
            CodecType::Video { title, .. } => title@,
            CodecType::Subtitle { title, .. } => title@,
            CodecType::Attachment { filename, .. } => filename@,
        }
    }

    /// The language of a track, empty for an attachment.
    pub open spec fn language_text(self) -> Seq<char> {
        match self.codec_type {
            CodecType::Audio { language, .. } => language@,
            CodecType::Video { language, .. } => language@,
            CodecType::Subtitle { language, .. } => language@,
            CodecType::Attachment { .. } => Seq::empty(),
        }
    }

    /// The media type of an attachment, empty for any other track.
    pub open spec fn mime_text(self) -> Seq<char> {
        match self.codec_type {
            CodecType::Attachment { mime_type, .. } => mime_type@,
            _ => Seq::empty(),
        }
    }

    /// The track `s` is what the reported stream `probe` describes.
    pub open spec fn describes(self, probe: FFProbeStream) -> bool {
        &&& self.codec@ == probe.codec_name@
        &&& probe.codec_type@ == "audio"@ ==> {
            &&& self.is_audio()
            &&& self.language_text() == language_or_und(probe.tags.language)
            &&& self.title_text() == tag_or_empty(probe.tags.title)
            &&& self.channel_count() == probe.channels
        }
        &&& probe.codec_type@ == "video"@ ==> {
            &&& self.is_video()
            &&& self.language_text() == language_or_und(probe.tags.language)
            &&& self.title_text() == tag_or_empty(probe.tags.title)
        }
        &&& probe.codec_type@ == "subtitle"@ ==> {
            &&& self.is_subtitle()
            &&& self.language_text() == language_or_und(probe.tags.language)
            &&& self.title_text() == tag_or_empty(probe.tags.title)
        }
        &&& probe.codec_type@ == "attachment"@ ==> {
            &&& self.is_attachment()
            &&& self.title_text() == tag_or_empty(probe.tags.filename)
            &&& self.mime_text() == tag_or_empty(probe.tags.mimetype)
        }
    }

    /// Builds a track from one reported stream. The kind's text decides the
    /// variant; any other text is refused and handed back in the error.
    pub fn parse_result(probe: FFProbeStream) -> (result: Result<Stream, ProbeError>)
        ensures
            result.is_ok() == is_known_kind(probe.codec_type@),
            match result {
                Ok(s) => s.describes(probe),
                Err(e) => e == ProbeError::UnknownCodecType(probe.codec_type),
            },
    {
        let title = tag_text(probe.tags.title);
        let language = match probe.tags.language {
            Some(l) => l,
            None => String::from_str("und"),
        };
        let filename = tag_text(probe.tags.filename);
        let mime_type = tag_text(probe.tags.mimetype);
        proof {
            reveal_strlit("audio");
            reveal_strlit("video");
            reveal_strlit("subtitle");
            reveal_strlit("attachment");
            assert("audio"@[0] != "video"@[0]);
            assert("audio"@.len() != "subtitle"@.len());
            assert("audio"@.len() != "attachment"@.len());
            assert("video"@.len() != "subtitle"@.len());
            assert("video"@.len() != "attachment"@.len());
            assert("subtitle"@.len() != "attachment"@.len());
        }
        let codec_type = if same_text(probe.codec_type.as_str(), "audio") {
            CodecType::Audio { language, title, channels: probe.channels }
        } else if same_text(probe.codec_type.as_str(), "video") {
            CodecType::Video { language, title }
        } else if same_text(probe.codec_type.as_str(), "subtitle") {
            CodecType::Subtitle { language, title }
        } else if same_text(probe.codec_type.as_str(), "attachment") {
            CodecType::Attachment { filename, mime_type }
        } else {
            return Err(ProbeError::UnknownCodecType(probe.codec_type));
        };
        Ok(Stream { codec: probe.codec_name, codec_type })
    }

    pub fn codec(&self) -> (name: &str)
        ensures
            name@ == self.codec_text(),
    {
        self.codec.as_str()
    }

    pub fn channels(&self) -> (count: u64)
        ensures
            count == self.channel_count(),
    {
        if let CodecType::Audio { channels, .. } = self.codec_type {
            channels
        } else {
            0
        }
    }

    pub fn stream_title(&self) -> (title: String)
        ensures
            title@ == self.title_text(),
    {
        match &self.codec_type {
            CodecType::Audio { title, .. } => title.clone(),
            CodecType::Video { title, .. } => title.clone(),
            CodecType::Subtitle { title, .. } => title.clone(),
            CodecType::Attachment { filename, .. } => filename.clone(),
        }
    }

    pub fn stream_language(&self) -> (language: String)
        ensures
            language@ == self.language_text(),
    {
        match &self.codec_type {
            CodecType::Audio { language, .. } => language.clone(),
            CodecType::Video { language, .. } => language.clone(),
            CodecType::Subtitle { language, .. } => language.clone(),
            _ => String::new(),
        }
    }
}

} // verus!
