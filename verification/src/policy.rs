//! The tunable part of the rules: codecs, size limits and word lists.

use bytesize::ByteSize;
use vstd::prelude::*;
use vstd::string::StringExecFns;

verus! {

pub open spec fn bytes_per_mib() -> nat {
    1_048_576
}

pub open spec fn bytes_per_gib() -> nat {
    1_073_741_824
}

pub open spec fn bytes_per_gb() -> nat {
    1_000_000_000
}

/// Calls `ByteSize::mib` and reads the byte count back with `as_u64`:
/// the count of mebibytes times 1 048 576.
#[verifier::external_body]
pub(crate) fn mib_bytes(count: u64) -> (bytes: u64)
    requires
        count * bytes_per_mib() <= u64::MAX,
    ensures
        bytes == count * bytes_per_mib(),
{
    ByteSize::mib(count).as_u64()
}

/// Calls `ByteSize::gib` and reads the byte count back with `as_u64`:
/// the count of gibibytes times 1 073 741 824.
#[verifier::external_body]
pub(crate) fn gib_bytes(count: u64) -> (bytes: u64)
    requires
        count * bytes_per_gib() <= u64::MAX,
    ensures
        bytes == count * bytes_per_gib(),
{
    ByteSize::gib(count).as_u64()
}

/// Calls `ByteSize::gb` and reads the byte count back with `as_u64`:
/// the count of gigabytes times 1 000 000 000.
#[verifier::external_body]
pub(crate) fn gb_bytes(count: u64) -> (bytes: u64)
    requires
        count * bytes_per_gb() <= u64::MAX,
    ensures
        bytes == count * bytes_per_gb(),
{
    ByteSize::gb(count).as_u64()
}

/// The texts of a list of strings.
pub open spec fn texts(list: Seq<String>) -> Seq<Seq<char>> {
    list.map_values(|s: String| s@)
}

/// The settings that the rules are read against.
pub struct Policy {
    /// The video codec that files are brought to, as the probe names it.
    pub target_codec: String,
    /// The encoder that brings a video to the target codec, as the
    /// encoding tool names it.
    pub video_encoder: String,
    /// The encoder that a track in a lossless audio codec is re-encoded with.
    pub audio_encoder: String,
    /// A file shorter than 55 minutes already in the target codec is
    /// re-encoded only above this size.
    pub small_file_limit: u64,
    /// The same for a file of 55 minutes or more.
    pub large_file_limit: u64,
    /// Only a file below this size is read into memory.
    pub preload_limit: u64,
    /// Lower-case words that mark a subtitle track as unwanted.
    pub unwanted_sub_words: Vec<String>,
    /// The subtitle languages that are kept.
    pub sub_languages: Vec<String>,
    /// The audio languages that are kept.
    pub audio_languages: Vec<String>,
    /// Audio codecs that are re-encoded rather than copied.
    pub lossless_audio_codecs: Vec<String>,
}

/// The running time, in seconds, from which a file counts as long.
pub open spec fn long_running_secs() -> u64 {
    3300
}

pub open spec fn standard_unwanted_sub_words() -> Seq<Seq<char>> {
    seq![
        "s&s"@,
        "signs"@,
        "songs"@,
        "spain"@,
        "closed"@,
        "captions"@,
        "closed captions"@,
        "commentary"@,
    ]
}

pub open spec fn standard_sub_languages() -> Seq<Seq<char>> {
    seq!["eng"@, "enm"@, "jpn"@, "spa"@, "und"@]
}

pub open spec fn standard_audio_languages() -> Seq<Seq<char>> {
    seq![""@, "jpn"@, "chi"@, "und"@]
}

pub open spec fn standard_lossless_audio_codecs() -> Seq<Seq<char>> {
    seq!["dts"@, "flac"@, "truehd"@, "pcm_s24le"@]
}

fn word_list_1(a: &str) -> (list: Vec<String>)
    ensures
        texts(list@) == seq![a@],
{
    let mut list: Vec<String> = Vec::new();
    list.push(String::from_str(a));
    assert(texts(list@) =~= seq![a@]);
    list
}

fn with_word(list: Vec<String>, a: &str) -> (longer: Vec<String>)
    ensures
        texts(longer@) == texts(list@).push(a@),
{
    let mut longer = list;
    longer.push(String::from_str(a));
    assert(texts(longer@) =~= texts(list@).push(a@));
    longer
}

impl Policy {
    /// The settings in force where nothing else is configured: AV1 as the
    /// target with SVT-AV1 as its encoder, Opus for lossless audio, 600 MiB
    /// and 5 GiB as the two size limits, 3 GB as the preload limit, and the
    /// standard word lists.
    pub fn standard() -> (policy: Policy)
        ensures
            policy.target_codec@ == "av1"@,
            policy.video_encoder@ == "libsvtav1"@,
            policy.audio_encoder@ == "libopus"@,
            policy.small_file_limit == 600 * bytes_per_mib(),
            policy.large_file_limit == 5 * bytes_per_gib(),
            policy.preload_limit == 3 * bytes_per_gb(),
            texts(policy.unwanted_sub_words@) == standard_unwanted_sub_words(),
            texts(policy.sub_languages@) == standard_sub_languages(),
            texts(policy.audio_languages@) == standard_audio_languages(),
            texts(policy.lossless_audio_codecs@) == standard_lossless_audio_codecs(),
    {
        let unwanted = with_word(
            with_word(
                with_word(
                    with_word(
                        with_word(
                            with_word(with_word(word_list_1("s&s"), "signs"), "songs"),
                            "spain",
                        ),
                        "closed",
                    ),
                    "captions",
                ),
                "closed captions",
            ),
            "commentary",
        );
        let subs = with_word(
            with_word(with_word(with_word(word_list_1("eng"), "enm"), "jpn"), "spa"),
            "und",
        );
        let audio = with_word(with_word(with_word(word_list_1(""), "jpn"), "chi"), "und");
        let lossless = with_word(
            with_word(with_word(word_list_1("dts"), "flac"), "truehd"),
            "pcm_s24le",
        );
        assert(texts(unwanted@) =~= standard_unwanted_sub_words());
        assert(texts(subs@) =~= standard_sub_languages());
        assert(texts(audio@) =~= standard_audio_languages());
        assert(texts(lossless@) =~= standard_lossless_audio_codecs());
        Policy {
            target_codec: String::from_str("av1"),
            video_encoder: String::from_str("libsvtav1"),
            audio_encoder: String::from_str("libopus"),
            small_file_limit: mib_bytes(600),
            large_file_limit: gib_bytes(5),
            preload_limit: gb_bytes(3),
            unwanted_sub_words: unwanted,
            sub_languages: subs,
            audio_languages: audio,
            lossless_audio_codecs: lossless,
        }
    }
}

} // verus!
