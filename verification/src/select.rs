//! The selection rules: which tracks of a file are kept and whether its
//! video is re-encoded.

use crate::args::TranscodeMode;
use crate::ffprobe::mkv::{borrowed, of_kind, MkvFile, Stream, StreamKind};
use crate::policy::{long_running_secs, texts, Policy};
use crate::text::{
    contains_text, decimal_string, decimal_text, is_substring, lemma_text_before_irreflexive,
    lemma_text_before_total, lemma_text_before_transitive, lowercase, lowercase_of, same_text,
    text_before, text_lt,
};
use vstd::prelude::*;
use vstd::string::StringExecFns;

verus! {

/// Whether a file's video is re-encoded when the decision is left to the
/// rules: always when the first video track is not in the target codec,
/// else only when the file is larger than the limit for its running time.
pub open spec fn wants_transcode(policy: Policy, file: MkvFile) -> bool
    recommends
        file.video_tracks().len() > 0,
{
    if file.video_tracks()[0].codec_text() != policy.target_codec@ {
        true
    } else if file.duration >= long_running_secs() {
        file.size > policy.large_file_limit
    } else {
        file.size > policy.small_file_limit
    }
}

/// The decision under a transcode mode.
pub open spec fn transcode_decision(mode: TranscodeMode, policy: Policy, file: MkvFile) -> bool {
    match mode {
        TranscodeMode::Force => true,
        TranscodeMode::Never => false,
        TranscodeMode::Auto => wants_transcode(policy, file),
    }
}

/// Decides by the rules whether the video of `mkv` is re-encoded.
pub fn analyze_video(mkv: &MkvFile, policy: &Policy) -> (transcode: bool)
    requires
        mkv.video_tracks().len() > 0,
    ensures
        transcode == wants_transcode(*policy, *mkv),
{
    let videos = mkv.video_streams();
    assert(borrowed(videos@)[0] == *videos@[0]);
    let first: &Stream = videos[0];
    if !same_text(first.codec(), policy.target_codec.as_str()) {
        true
    } else if mkv.duration() >= 3300 {
        mkv.size() > policy.large_file_limit
    } else {
        mkv.size() > policy.small_file_limit
    }
}

/// Decides whether the video of `mkv` is re-encoded: a forcing mode
/// settles it, otherwise the rules do.
pub fn should_transcode_video(mode: TranscodeMode, mkv: &MkvFile, policy: &Policy) -> (transcode:
    bool)
    requires
        mode == TranscodeMode::Auto ==> mkv.video_tracks().len() > 0,
    ensures
        transcode == transcode_decision(mode, *policy, *mkv),
{
    match mode {
        TranscodeMode::Auto => analyze_video(mkv, policy),
        TranscodeMode::Force => true,
        TranscodeMode::Never => false,
    }
}

/// Growing a file never turns the decision off: of two files with the same
/// tracks on the same side of the running-time mark, the larger is
/// re-encoded whenever the smaller is.
pub proof fn lemma_transcode_monotonic_in_size(policy: Policy, small: MkvFile, large: MkvFile)
    requires
        small.streams@ == large.streams@,
        (small.duration >= long_running_secs()) == (large.duration >= long_running_secs()),
        small.size <= large.size,
        wants_transcode(policy, small),
    ensures
        wants_transcode(policy, large),
{
}

/// A file in the target codec is re-encoded exactly when its size is past
/// the limit for its running time.
pub proof fn lemma_transcode_threshold(policy: Policy, file: MkvFile)
    requires
        file.video_tracks().len() > 0,
        file.video_tracks()[0].codec_text() == policy.target_codec@,
    ensures
        wants_transcode(policy, file) == (file.size > if file.duration >= long_running_secs() {
            policy.large_file_limit
        } else {
            policy.small_file_limit
        }),
{
}

/// The text by which tracks count as duplicates of each other: the title,
/// or the language where there is no title.
pub open spec fn track_key(s: Stream) -> Seq<char> {
    if s.title_text().len() == 0 {
        s.language_text()
    } else {
        s.title_text()
    }
}

/// Position `i` is listed among the kept tracks.
pub open spec fn has_index(kept: Seq<(usize, &Stream)>, i: int) -> bool {
    exists|k: int| 0 <= k < kept.len() && (#[trigger] kept[k]).0 == i
}

/// Each kept entry names a position in `tracks` and borrows the track there.
pub open spec fn points_into(kept: Seq<(usize, &Stream)>, tracks: Seq<Stream>) -> bool {
    forall|k: int|
        0 <= k < kept.len() ==> (#[trigger] kept[k]).0 < tracks.len() && *kept[k].1
            == tracks[kept[k].0 as int]
}

/// The kept entries stand in strictly ascending order of their keys.
pub open spec fn sorted_by_key(kept: Seq<(usize, &Stream)>) -> bool {
    forall|a: int, b: int|
        0 <= a < b < kept.len() ==> text_before(
            track_key(*(#[trigger] kept[a]).1),
            track_key(*(#[trigger] kept[b]).1),
        )
}

/// The kept entries stand in strictly ascending order of their positions.
pub open spec fn sorted_by_index(kept: Seq<(usize, &Stream)>) -> bool {
    forall|a: int, b: int|
        0 <= a < b < kept.len() ==> (#[trigger] kept[a]).0 < (#[trigger] kept[b]).0
}

/// `kept` lists exactly the positions of `tracks` that are flagged.
pub open spec fn lists_flagged(
    kept: Seq<(usize, &Stream)>,
    tracks: Seq<Stream>,
    chosen: Seq<bool>,
) -> bool {
    &&& points_into(kept, tracks)
    &&& forall|i: int| #[trigger]
        has_index(kept, i) <==> (0 <= i < tracks.len() && chosen[i])
}

/// No two flagged tracks share a key.
pub open spec fn flagged_keys_differ(tracks: Seq<Stream>, chosen: Seq<bool>) -> bool {
    forall|i: int, j: int|
        0 <= i < j < tracks.len() && #[trigger] chosen[i] && #[trigger] chosen[j] ==> track_key(
            tracks[i],
        ) != track_key(tracks[j])
}

fn key_of(s: &Stream) -> (key: String)
    ensures
        key@ == track_key(*s),
{
    let title = s.stream_title();
    if title.as_str().is_empty() {
        s.stream_language()
    } else {
        title
    }
}

/// The flagged tracks with their positions, in container order.
fn collect_in_order<'a>(tracks: &Vec<&'a Stream>, chosen: &Vec<bool>) -> (kept: Vec<
    (usize, &'a Stream),
>)
    requires
        chosen@.len() == tracks@.len(),
    ensures
        lists_flagged(kept@, borrowed(tracks@), chosen@),
        sorted_by_index(kept@),
{
    let ghost all = borrowed(tracks@);
    let mut kept: Vec<(usize, &'a Stream)> = Vec::new();
    let n: usize = tracks.len();
    let mut i: usize = 0;
    while i < n
        invariant
            n == tracks@.len(),
            chosen@.len() == n,
            all == borrowed(tracks@),
            i <= n,
            points_into(kept@, all),
            sorted_by_index(kept@),
            forall|k: int|
                0 <= k < kept@.len() ==> (#[trigger] kept@[k]).0 < i && chosen@[kept@[k].0 as int],
            forall|m: int| 0 <= m < i && chosen@[m] ==> #[trigger] has_index(kept@, m),
        decreases n - i,
    {
        if chosen[i] {
            let ghost before = kept@;
            kept.push((i, tracks[i]));
            proof {
                assert(kept@[before.len() as int].0 == i);
                assert forall|m: int| 0 <= m < i + 1 && chosen@[m] implies #[trigger] has_index(
                    kept@,
                    m,
                ) by {
                    if m < i {
                        assert(has_index(before, m));
                        let k = choose|k: int|
                            0 <= k < before.len() && (#[trigger] before[k]).0 == m;
                        assert(kept@[k].0 == m);
                    }
                }
            }
        }
        i += 1;
    }
    kept
}

/// The flagged tracks with their positions, in ascending order of their keys.
fn collect_sorted<'a>(tracks: &Vec<&'a Stream>, chosen: &Vec<bool>) -> (kept: Vec<
    (usize, &'a Stream),
>)
    requires
        chosen@.len() == tracks@.len(),
        flagged_keys_differ(borrowed(tracks@), chosen@),
    ensures
        lists_flagged(kept@, borrowed(tracks@), chosen@),
        sorted_by_key(kept@),
{
    let ghost all = borrowed(tracks@);
    let mut kept: Vec<(usize, &'a Stream)> = Vec::new();
    let n: usize = tracks.len();
    let mut i: usize = 0;
    while i < n
        invariant
            n == tracks@.len(),
            chosen@.len() == n,
            all == borrowed(tracks@),
            flagged_keys_differ(all, chosen@),
            i <= n,
            points_into(kept@, all),
            sorted_by_key(kept@),
            forall|k: int|
                0 <= k < kept@.len() ==> (#[trigger] kept@[k]).0 < i && chosen@[kept@[k].0 as int],
            forall|m: int| 0 <= m < i && chosen@[m] ==> #[trigger] has_index(kept@, m),
        decreases n - i,
    {
        if chosen[i] {
            let key = key_of(tracks[i]);
            let len: usize = kept.len();
            let mut p: usize = 0;
            while p < len && text_lt(key_of(kept[p].1).as_str(), key.as_str())
                invariant
                    len == kept@.len(),
                    p <= len,
                    forall|k: int|
                        0 <= k < p ==> text_before(track_key(*(#[trigger] kept@[k]).1), key@),
                decreases len - p,
            {
                p += 1;
            }
            let ghost before = kept@;
            kept.insert(p, (i, tracks[i]));
            proof {
                let after = kept@;
                assert(after.len() == before.len() + 1);
                assert(after[p as int] == (i, tracks@[i as int]));
                assert(forall|k: int| 0 <= k < p ==> after[k] == before[k]);
                assert(forall|k: int| p < k < after.len() ==> after[k] == before[k - 1]);
                assert(*tracks@[i as int] == all[i as int]);
                // Every entry from the insertion point on sorts after the new key.
                assert forall|k: int| p <= k < before.len() implies text_before(
                    key@,
                    track_key(*(#[trigger] before[k]).1),
                ) by {
                    let here = track_key(*before[p as int].1);
                    assert(before[p as int].0 != i);
                    assert(chosen@[before[p as int].0 as int]);
                    assert(here != key@);
                    lemma_text_before_total(here, key@);
                    if k > p {
                        lemma_text_before_transitive(key@, here, track_key(*before[k].1));
                    }
                }
                assert(sorted_by_key(after)) by {
                    assert forall|a: int, b: int| 0 <= a < b < after.len() implies text_before(
                        track_key(*(#[trigger] after[a]).1),
                        track_key(*(#[trigger] after[b]).1),
                    ) by {
                        if b < p {
                        } else if b == p {
                        } else if a == p {
                            assert(after[b] == before[b - 1]);
                        } else if a < p {
                            assert(after[b] == before[b - 1]);
                        } else {
                            assert(after[a] == before[a - 1]);
                            assert(after[b] == before[b - 1]);
                        }
                    }
                }
                assert forall|m: int| 0 <= m < i + 1 && chosen@[m] implies #[trigger] has_index(
                    after,
                    m,
                ) by {
                    if m < i {
                        assert(has_index(before, m));
                        let k = choose|k: int|
                            0 <= k < before.len() && (#[trigger] before[k]).0 == m;
                        if k < p {
                            assert(after[k].0 == m);
                        } else {
                            assert(after[k + 1].0 == m);
                        }
                    } else {
                        assert(after[p as int].0 == m);
                    }
                }
            }
        }
        i += 1;
    }
    kept
}

/// Some word of the list occurs in `name`.
pub open spec fn mentions_any(name: Seq<char>, words: Seq<String>) -> bool {
    exists|k: int| 0 <= k < words.len() && is_substring((#[trigger] words[k])@, name)
}

/// `text` is one of the entries of the list.
pub open spec fn is_listed(text: Seq<char>, list: Seq<String>) -> bool {
    exists|k: int| 0 <= k < list.len() && (#[trigger] list[k])@ == text
}

fn mentions_any_word(name: &str, words: &Vec<String>) -> (found: bool)
    ensures
        found == mentions_any(name@, words@),
{
    let n: usize = words.len();
    let mut k: usize = 0;
    while k < n
        invariant
            n == words@.len(),
            k <= n,
            forall|m: int| 0 <= m < k ==> !is_substring((#[trigger] words@[m])@, name@),
        decreases n - k,
    {
        if contains_text(name, words[k].as_str()) {
            return true;
        }
        k += 1;
    }
    false
}

pub(crate) fn is_in_list(text: &str, list: &Vec<String>) -> (found: bool)
    ensures
        found == is_listed(text@, list@),
{
    let n: usize = list.len();
    let mut k: usize = 0;
    while k < n
        invariant
            n == list@.len(),
            k <= n,
            forall|m: int| 0 <= m < k ==> (#[trigger] list@[m])@ != text@,
        decreases n - k,
    {
        if same_text(list[k].as_str(), text) {
            return true;
        }
        k += 1;
    }
    false
}

/// A lower-cased title or a language marks a track as Japanese.
pub open spec fn indicates_japanese(name: Seq<char>, language: Seq<char>) -> bool {
    is_substring("jap"@, name) || is_substring("jpn"@, name) || language == "jpn"@
}

/// A subtitle with this lower-cased title and this language passes the
/// filters: it is Japanese or its title holds no unwanted word, and its
/// language is one that is kept.
pub open spec fn sub_passes_with(policy: Policy, name: Seq<char>, language: Seq<char>) -> bool {
    &&& indicates_japanese(name, language) || !mentions_any(name, policy.unwanted_sub_words@)
    &&& is_listed(language, policy.sub_languages@)
}

/// The subtitle passes the word and language filters.
pub open spec fn sub_passes(policy: Policy, s: Stream) -> bool {
    sub_passes_with(policy, lowercase_of(s.title_text()), s.language_text())
}

pub open spec fn is_ass(s: Stream) -> bool {
    s.codec_text() == "ass"@
}

pub open spec fn is_japanese_language(s: Stream) -> bool {
    s.language_text() == "jpn"@
}

/// No track before position `i` has the key of the track at `i`.
pub open spec fn is_first_with_key(tracks: Seq<Stream>, i: int) -> bool {
    forall|j: int| 0 <= j < i ==> track_key(#[trigger] tracks[j]) != track_key(tracks[i])
}

/// The subtitle at `i` is the first with its key and passes the word and
/// language filters.
pub open spec fn sub_survives(policy: Policy, subs: Seq<Stream>, i: int) -> bool {
    &&& 0 <= i < subs.len()
    &&& is_first_with_key(subs, i)
    &&& sub_passes(policy, subs[i])
}

/// Some surviving subtitle is in the ASS codec.
pub open spec fn any_ass_survives(policy: Policy, subs: Seq<Stream>) -> bool {
    exists|j: int| #[trigger] sub_survives(policy, subs, j) && is_ass(subs[j])
}

/// The subtitle at `i` is kept: a lone subtitle always; otherwise one that
/// survives and, where some surviving subtitle is ASS, is itself ASS or in
/// Japanese.
pub open spec fn sub_selected(policy: Policy, subs: Seq<Stream>, i: int) -> bool {
    if subs.len() == 1 {
        i == 0
    } else {
        &&& sub_survives(policy, subs, i)
        &&& any_ass_survives(policy, subs) ==> is_ass(subs[i]) || is_japanese_language(subs[i])
    }
}

/// Applies the subtitle filters to a lower-cased title and a language.
pub fn sub_filter(policy: &Policy, name: &str, language: &str) -> (passes: bool)
    ensures
        passes == sub_passes_with(*policy, name@, language@),
{
    let japanese = contains_text(name, "jap") || contains_text(name, "jpn") || same_text(
        language,
        "jpn",
    );
    let wanted = japanese || !mentions_any_word(name, &policy.unwanted_sub_words);
    wanted && is_in_list(language, &policy.sub_languages)
}

/// `kept` is what subtitle selection yields for `subs`.
pub open spec fn is_sub_selection(
    policy: Policy,
    subs: Seq<Stream>,
    kept: Seq<(usize, &Stream)>,
) -> bool {
    &&& points_into(kept, subs)
    &&& sorted_by_key(kept)
    &&& forall|i: int| #[trigger]
        has_index(kept, i) <==> (0 <= i < subs.len() && sub_selected(policy, subs, i))
}

fn sub_passes_filters(policy: &Policy, s: &Stream) -> (passes: bool)
    ensures
        passes == sub_passes(*policy, *s),
{
    let title = s.stream_title();
    let name = lowercase(title.as_str());
    let language = s.stream_language();
    sub_filter(policy, name.as_str(), language.as_str())
}

fn keys_of(tracks: &Vec<&Stream>) -> (keys: Vec<String>)
    ensures
        keys@.len() == tracks@.len(),
        forall|i: int| 0 <= i < keys@.len() ==> (#[trigger] keys@[i])@ == track_key(*tracks@[i]),
{
    let mut keys: Vec<String> = Vec::new();
    let n: usize = tracks.len();
    let mut i: usize = 0;
    while i < n
        invariant
            n == tracks@.len(),
            i <= n,
            keys@.len() == i,
            forall|m: int| 0 <= m < i ==> (#[trigger] keys@[m])@ == track_key(*tracks@[m]),
        decreases n - i,
    {
        keys.push(key_of(tracks[i]));
        i += 1;
    }
    keys
}

/// Position `i` is eligible and no eligible position before it has its key.
pub open spec fn is_first_eligible(keys: Seq<String>, eligible: Seq<bool>, i: int) -> bool {
    &&& eligible[i]
    &&& forall|j: int| 0 <= j < i && #[trigger] eligible[j] ==> keys[j]@ != keys[i]@
}

/// Flags the eligible positions that are the first with their key.
fn first_flags(keys: &Vec<String>, eligible: &Vec<bool>) -> (first: Vec<bool>)
    requires
        keys@.len() == eligible@.len(),
    ensures
        first@.len() == keys@.len(),
        forall|i: int|
            0 <= i < first@.len() ==> #[trigger] first@[i] == is_first_eligible(
                keys@,
                eligible@,
                i,
            ),
{
    let mut first: Vec<bool> = Vec::new();
    let n: usize = keys.len();
    let mut i: usize = 0;
    while i < n
        invariant
            n == keys@.len(),
            n == eligible@.len(),
            i <= n,
            first@.len() == i,
            forall|m: int|
                0 <= m < i ==> #[trigger] first@[m] == is_first_eligible(keys@, eligible@, m),
        decreases n - i,
    {
        let mut alone: bool = eligible[i];
        let mut j: usize = 0;
        while alone && j < i
            invariant
                n == keys@.len(),
                n == eligible@.len(),
                i < n,
                j <= i,
                alone ==> eligible@[i as int],
                alone ==> forall|m: int|
                    0 <= m < j && #[trigger] eligible@[m] ==> keys@[m]@ != keys@[i as int]@,
                !alone ==> !is_first_eligible(keys@, eligible@, i as int),
            decreases i - j + if alone { 1int } else { 0int },
        {
            if eligible[j] && keys[j] == keys[i] {
                alone = false;
            } else {
                j += 1;
            }
        }
        first.push(alone);
        i += 1;
    }
    first
}

/// Chooses the subtitle tracks to keep. Of the tracks that share a key the
/// first stands for all; the word and language filters and the ASS
/// preference then decide. The result is in ascending order of the keys
/// and names each track by its position among the subtitle tracks.
pub fn analyze_sub_tracks<'a>(mkv: &'a MkvFile, policy: &Policy) -> (kept: Vec<(usize, &'a Stream)>)
    ensures
        is_sub_selection(*policy, mkv.subtitle_tracks(), kept@),
{
    let all = mkv.subtitles_streams();
    let ghost subs = mkv.subtitle_tracks();
    let n: usize = all.len();
    let keys = keys_of(&all);
    let mut everything: Vec<bool> = Vec::new();
    let mut i: usize = 0;
    while i < n
        invariant
            i <= n,
            everything@.len() == i,
            forall|m: int| 0 <= m < i ==> #[trigger] everything@[m],
        decreases n - i,
    {
        everything.push(true);
        i += 1;
    }
    if n == 1 {
        proof {
            assert(flagged_keys_differ(subs, everything@));
        }
        return collect_sorted(&all, &everything);
    }
    let first = first_flags(&keys, &everything);
    proof {
        assert forall|m: int| 0 <= m < n implies #[trigger] first@[m] == is_first_with_key(
            subs,
            m,
        ) by {
            assert(first@[m] == is_first_eligible(keys@, everything@, m));
            if is_first_with_key(subs, m) {
                assert forall|j: int| 0 <= j < m && #[trigger] everything@[j] implies keys@[j]@
                    != keys@[m]@ by {
                    assert(track_key(subs[j]) != track_key(subs[m]));
                }
            } else {
                let j = choose|j: int|
                    0 <= j < m && track_key(#[trigger] subs[j]) == track_key(subs[m]);
                assert(everything@[j]);
                assert(keys@[j]@ == keys@[m]@);
            }
        }
    }
    let mut survives: Vec<bool> = Vec::new();
    let mut has_ass: bool = false;
    i = 0;
    while i < n
        invariant
            n == all@.len(),
            n == first@.len(),
            subs == borrowed(all@),
            i <= n,
            survives@.len() == i,
            forall|m: int| 0 <= m < n ==> #[trigger] first@[m] == is_first_with_key(subs, m),
            forall|m: int|
                0 <= m < i ==> #[trigger] survives@[m] == sub_survives(*policy, subs, m),
            has_ass == exists|j: int|
                0 <= j < i && #[trigger] sub_survives(*policy, subs, j) && is_ass(subs[j]),
        decreases n - i,
    {
        let s: &Stream = all[i];
        assert(*s == subs[i as int]);
        let ok = first[i] && sub_passes_filters(policy, s);
        if ok && same_text(s.codec(), "ass") {
            has_ass = true;
            assert(sub_survives(*policy, subs, i as int) && is_ass(subs[i as int]));
        }
        survives.push(ok);
        i += 1;
    }
    assert(has_ass == any_ass_survives(*policy, subs));
    let mut chosen: Vec<bool> = Vec::new();
    i = 0;
    while i < n
        invariant
            n == all@.len(),
            n == survives@.len(),
            n != 1,
            subs == borrowed(all@),
            i <= n,
            chosen@.len() == i,
            has_ass == any_ass_survives(*policy, subs),
            forall|m: int|
                0 <= m < n ==> #[trigger] survives@[m] == sub_survives(*policy, subs, m),
            forall|m: int| 0 <= m < i ==> #[trigger] chosen@[m] == sub_selected(*policy, subs, m),
        decreases n - i,
    {
        let s: &Stream = all[i];
        assert(*s == subs[i as int]);
        let language = s.stream_language();
        let ok = survives[i] && (!has_ass || same_text(s.codec(), "ass") || same_text(
            language.as_str(),
            "jpn",
        ));
        chosen.push(ok);
        i += 1;
    }
    proof {
        assert forall|a: int, b: int|
            0 <= a < b < subs.len() && #[trigger] chosen@[a]
                && #[trigger] chosen@[b] implies track_key(subs[a]) != track_key(subs[b]) by {
            assert(sub_survives(*policy, subs, b));
        }
    }
    collect_sorted(&all, &chosen)
}

/// An audio track with this lower-cased title and this language passes
/// the filters: the language is one that is kept and the title marks the
/// track neither as a commentary, nor as a description, nor, by holding
/// `eng`, as an English dub.
pub open spec fn audio_passes_with(policy: Policy, name: Seq<char>, language: Seq<char>) -> bool {
    &&& is_listed(language, policy.audio_languages@)
    &&& !is_substring("commentary"@, name)
    &&& !is_substring("description"@, name)
    &&& !is_substring("eng"@, name)
}

/// The audio track passes the language and title filters.
pub open spec fn audio_passes(policy: Policy, s: Stream) -> bool {
    audio_passes_with(policy, lowercase_of(s.title_text()), s.language_text())
}

/// Two channels, or none reported.
pub open spec fn is_stereo_or_unknown(s: Stream) -> bool {
    s.channel_count() == 2 || s.channel_count() == 0
}

/// More than one audio track passes the filters.
pub open spec fn several_pass(policy: Policy, audio: Seq<Stream>) -> bool {
    exists|a: int, b: int|
        0 <= a < b < audio.len() && audio_passes(policy, #[trigger] audio[a]) && audio_passes(
            policy,
            #[trigger] audio[b],
        )
}

/// Some audio track passes the filters and is stereo or of unknown layout.
pub open spec fn some_stereo_passes(policy: Policy, audio: Seq<Stream>) -> bool {
    exists|j: int|
        0 <= j < audio.len() && audio_passes(policy, #[trigger] audio[j]) && is_stereo_or_unknown(
            audio[j],
        )
}

/// The audio track at `i` is kept: a lone track always; otherwise one that
/// passes the filters and, where several pass and some of them are stereo,
/// is itself stereo.
pub open spec fn audio_selected(policy: Policy, audio: Seq<Stream>, i: int) -> bool {
    if audio.len() == 1 {
        i == 0
    } else {
        &&& 0 <= i < audio.len()
        &&& audio_passes(policy, audio[i])
        &&& several_pass(policy, audio) && some_stereo_passes(policy, audio)
            ==> is_stereo_or_unknown(audio[i])
    }
}

/// Applies the audio filters to a lower-cased title and a language.
pub fn audio_filter(policy: &Policy, name: &str, language: &str) -> (passes: bool)
    ensures
        passes == audio_passes_with(*policy, name@, language@),
{
    is_in_list(language, &policy.audio_languages) && !contains_text(name, "commentary")
        && !contains_text(name, "description") && !contains_text(name, "eng")
}

/// `kept` is what audio selection yields for `audio`.
pub open spec fn is_audio_selection(
    policy: Policy,
    audio: Seq<Stream>,
    kept: Seq<(usize, &Stream)>,
) -> bool {
    &&& points_into(kept, audio)
    &&& sorted_by_index(kept)
    &&& forall|i: int| #[trigger]
        has_index(kept, i) <==> (0 <= i < audio.len() && audio_selected(policy, audio, i))
}

fn audio_passes_filters(policy: &Policy, s: &Stream) -> (passes: bool)
    ensures
        passes == audio_passes(*policy, *s),
{
    let language = s.stream_language();
    let title = s.stream_title();
    let name = lowercase(title.as_str());
    audio_filter(policy, name.as_str(), language.as_str())
}

/// Chooses the audio tracks to keep, in container order, each named by its
/// position among the audio tracks.
pub fn analyze_audio_tracks<'a>(mkv: &'a MkvFile, policy: &Policy) -> (kept: Vec<
    (usize, &'a Stream),
>)
    ensures
        is_audio_selection(*policy, mkv.audio_tracks(), kept@),
{
    let all = mkv.audio_streams();
    let ghost audio = mkv.audio_tracks();
    let n: usize = all.len();
    let mut passes: Vec<bool> = Vec::new();
    let mut one: bool = false;
    let mut several: bool = false;
    let mut stereo: bool = false;
    let mut i: usize = 0;
    while i < n
        invariant
            n == all@.len(),
            audio == borrowed(all@),
            i <= n,
            passes@.len() == i,
            forall|m: int| 0 <= m < i ==> #[trigger] passes@[m] == audio_passes(*policy, audio[m]),
            one == exists|m: int| 0 <= m < i && audio_passes(*policy, #[trigger] audio[m]),
            several == exists|a: int, b: int|
                0 <= a < b < i && audio_passes(*policy, #[trigger] audio[a]) && audio_passes(
                    *policy,
                    #[trigger] audio[b],
                ),
            stereo == exists|j: int|
                0 <= j < i && audio_passes(*policy, #[trigger] audio[j]) && is_stereo_or_unknown(
                    audio[j],
                ),
        decreases n - i,
    {
        let s: &Stream = all[i];
        assert(*s == audio[i as int]);
        let counted = audio_passes_filters(policy, s);
        if counted {
            if one {
                several = true;
            }
            one = true;
            if s.channels() == 2 || s.channels() == 0 {
                stereo = true;
            }
        }
        passes.push(counted);
        i += 1;
    }
    assert(several == several_pass(*policy, audio));
    assert(stereo == some_stereo_passes(*policy, audio));
    let mut chosen: Vec<bool> = Vec::new();
    i = 0;
    while i < n
        invariant
            n == all@.len(),
            n == passes@.len(),
            audio == borrowed(all@),
            i <= n,
            chosen@.len() == i,
            several == several_pass(*policy, audio),
            stereo == some_stereo_passes(*policy, audio),
            forall|m: int| 0 <= m < n ==> #[trigger] passes@[m] == audio_passes(*policy, audio[m]),
            forall|m: int|
                0 <= m < i ==> #[trigger] chosen@[m] == audio_selected(*policy, audio, m),
        decreases n - i,
    {
        let s: &Stream = all[i];
        assert(*s == audio[i as int]);
        let ok = n == 1 || (passes[i] && (!(several && stereo) || s.channels() == 2 || s.channels()
            == 0));
        chosen.push(ok);
        i += 1;
    }
    collect_in_order(&all, &chosen)
}

/// Where several audio tracks pass the filters and some of them are
/// stereo or of unknown layout, the kept tracks are exactly those.
pub proof fn lemma_stereo_subset_wins(
    policy: Policy,
    audio: Seq<Stream>,
    kept: Seq<(usize, &Stream)>,
)
    requires
        is_audio_selection(policy, audio, kept),
        several_pass(policy, audio),
        some_stereo_passes(policy, audio),
    ensures
        forall|i: int| #[trigger]
            has_index(kept, i) <==> (0 <= i < audio.len() && audio_passes(policy, audio[i])
                && is_stereo_or_unknown(audio[i])),
{
    assert(audio.len() != 1);
}

/// A lower-cased file name marks a font: it holds `ttf` or `otf`, or it
/// has no dot at all.
pub open spec fn is_font_name(name: Seq<char>) -> bool {
    is_substring("ttf"@, name) || is_substring("otf"@, name) || !is_substring("."@, name)
}

/// The attachment's lower-cased file name marks it as a font.
pub open spec fn is_font(s: Stream) -> bool {
    is_font_name(lowercase_of(s.title_text()))
}

/// The attachment at `i` is kept: it is a font and no font before it has
/// the same file name.
pub open spec fn attachment_selected(attachments: Seq<Stream>, i: int) -> bool {
    &&& is_font(attachments[i])
    &&& forall|j: int|
        0 <= j < i && is_font(#[trigger] attachments[j]) ==> attachments[j].title_text()
            != attachments[i].title_text()
}

/// Tells whether a lower-cased file name marks a font.
pub fn font_filter(name: &str) -> (font: bool)
    ensures
        font == is_font_name(name@),
{
    contains_text(name, "ttf") || contains_text(name, "otf") || !contains_text(name, ".")
}

/// `kept` is what attachment selection yields for `attachments`.
pub open spec fn is_attachment_selection(
    attachments: Seq<Stream>,
    kept: Seq<(usize, &Stream)>,
) -> bool {
    &&& points_into(kept, attachments)
    &&& sorted_by_key(kept)
    &&& forall|i: int| #[trigger]
        has_index(kept, i) <==> (0 <= i < attachments.len() && attachment_selected(
            attachments,
            i,
        ))
}

fn is_font_file(s: &Stream) -> (font: bool)
    ensures
        font == is_font(*s),
{
    let title = s.stream_title();
    let name = lowercase(title.as_str());
    font_filter(name.as_str())
}

/// Chooses the attachments to keep: the fonts, one per file name, in
/// ascending order of the file names, each named by its position among the
/// attachments.
pub fn analyze_attachments<'a>(mkv: &'a MkvFile) -> (kept: Vec<(usize, &'a Stream)>)
    ensures
        is_attachment_selection(mkv.attachment_tracks(), kept@),
{
    let all = mkv.attachments();
    let ghost attachments = mkv.attachment_tracks();
    let n: usize = all.len();
    let keys = keys_of(&all);
    let mut fonts: Vec<bool> = Vec::new();
    let mut i: usize = 0;
    while i < n
        invariant
            n == all@.len(),
            attachments == borrowed(all@),
            i <= n,
            fonts@.len() == i,
            forall|m: int| 0 <= m < i ==> #[trigger] fonts@[m] == is_font(attachments[m]),
        decreases n - i,
    {
        let s: &Stream = all[i];
        assert(*s == attachments[i as int]);
        fonts.push(is_font_file(s));
        i += 1;
    }
    let chosen = first_flags(&keys, &fonts);
    proof {
        assert forall|m: int| 0 <= m < n implies track_key(#[trigger] attachments[m])
            == attachments[m].title_text() by {
            mkv.streams@.lemma_filter_pred(of_kind(StreamKind::Attachment), m);
        }
        assert forall|m: int| 0 <= m < n implies #[trigger] chosen@[m] == attachment_selected(
            attachments,
            m,
        ) by {
            assert(chosen@[m] == is_first_eligible(keys@, fonts@, m));
            if attachment_selected(attachments, m) {
                assert forall|j: int| 0 <= j < m && #[trigger] fonts@[j] implies keys@[j]@
                    != keys@[m]@ by {
                    assert(is_font(attachments[j]));
                }
            } else if is_font(attachments[m]) {
                let j = choose|j: int|
                    0 <= j < m && is_font(#[trigger] attachments[j]) && attachments[j].title_text()
                        == attachments[m].title_text();
                assert(fonts@[j]);
                assert(keys@[j]@ == keys@[m]@);
            }
        }
        assert forall|a: int, b: int|
            0 <= a < b < n && #[trigger] chosen@[a] && #[trigger] chosen@[b] implies track_key(
            attachments[a],
        ) != track_key(attachments[b]) by {
            assert(is_first_eligible(keys@, fonts@, b));
            assert(fonts@[a]);
        }
    }
    collect_sorted(&all, &chosen)
}

/// Among the tracks that share a key with the track at `a`, one is the
/// first, and it is the only one that removing duplicates leaves.
pub proof fn lemma_one_first_per_key(tracks: Seq<Stream>, a: int) -> (f: int)
    requires
        0 <= a < tracks.len(),
    ensures
        0 <= f <= a,
        track_key(tracks[f]) == track_key(tracks[a]),
        is_first_with_key(tracks, f),
        forall|g: int|
            0 <= g < tracks.len() && track_key(#[trigger] tracks[g]) == track_key(tracks[a])
                && is_first_with_key(tracks, g) ==> g == f,
    decreases a,
{
    if is_first_with_key(tracks, a) {
        a
    } else {
        let j = choose|j: int|
            0 <= j < a && track_key(#[trigger] tracks[j]) == track_key(tracks[a]);
        lemma_one_first_per_key(tracks, j)
    }
}

/// Of subtitle tracks that share a key, selection never keeps two: the
/// kept entries have pairwise different keys, and a track that repeats the
/// key of an earlier one is not kept.
pub proof fn lemma_shared_key_kept_at_most_once(
    policy: Policy,
    subs: Seq<Stream>,
    kept: Seq<(usize, &Stream)>,
    a: int,
    b: int,
)
    requires
        is_sub_selection(policy, subs, kept),
        0 <= a < b < subs.len(),
        track_key(subs[a]) == track_key(subs[b]),
    ensures
        !has_index(kept, b),
        forall|k: int, l: int|
            0 <= k < l < kept.len() ==> track_key(*(#[trigger] kept[k]).1) != track_key(
                *(#[trigger] kept[l]).1,
            ),
{
    assert(!is_first_with_key(subs, b));
    assert forall|k: int, l: int| 0 <= k < l < kept.len() implies track_key(
        *(#[trigger] kept[k]).1,
    ) != track_key(*(#[trigger] kept[l]).1) by {
        lemma_text_before_irreflexive(track_key(*kept[k].1));
    }
}

/// Of subtitle tracks that share a key, selection keeps exactly one
/// whenever the first of them is selected: that first one.
pub proof fn lemma_shared_key_kept_once(
    policy: Policy,
    subs: Seq<Stream>,
    kept: Seq<(usize, &Stream)>,
    a: int,
    b: int,
) -> (f: int)
    requires
        is_sub_selection(policy, subs, kept),
        0 <= a < b < subs.len(),
        track_key(subs[a]) == track_key(subs[b]),
        forall|g: int|
            0 <= g < subs.len() && track_key(#[trigger] subs[g]) == track_key(subs[a])
                && is_first_with_key(subs, g) ==> sub_selected(policy, subs, g),
    ensures
        has_index(kept, f),
        track_key(subs[f]) == track_key(subs[a]),
        forall|k: int|
            0 <= k < kept.len() && track_key(*(#[trigger] kept[k]).1) == track_key(subs[a])
                ==> kept[k].0 == f,
{
    let f = lemma_one_first_per_key(subs, a);
    assert(has_index(kept, f));
    assert forall|k: int|
        0 <= k < kept.len() && track_key(*(#[trigger] kept[k]).1) == track_key(
            subs[a],
        ) implies kept[k].0 == f by {
        let g = kept[k].0 as int;
        assert(has_index(kept, g));
        assert(sub_selected(policy, subs, g));
    }
    f
}

/// Where a kept subtitle is in the ASS codec, every kept subtitle is in
/// the ASS codec or in Japanese.
pub proof fn lemma_ass_displaces_others(
    policy: Policy,
    subs: Seq<Stream>,
    kept: Seq<(usize, &Stream)>,
)
    requires
        is_sub_selection(policy, subs, kept),
        exists|k: int| 0 <= k < kept.len() && is_ass(*(#[trigger] kept[k]).1),
    ensures
        forall|k: int|
            0 <= k < kept.len() ==> is_ass(*(#[trigger] kept[k]).1) || is_japanese_language(
                *kept[k].1,
            ),
{
    let w = choose|k: int| 0 <= k < kept.len() && is_ass(*(#[trigger] kept[k]).1);
    let wi = kept[w].0 as int;
    assert(has_index(kept, wi));
    assert forall|k: int| 0 <= k < kept.len() implies is_ass(*(#[trigger] kept[k]).1)
        || is_japanese_language(*kept[k].1) by {
        let g = kept[k].0 as int;
        assert(has_index(kept, g));
        if subs.len() == 1 {
            assert(g == 0 && wi == 0);
        } else {
            assert(sub_survives(policy, subs, wi) && is_ass(subs[wi]));
        }
    }
}

/// Of several subtitle tracks, every kept one is the first with its key
/// and passes the word and language filters.
pub proof fn lemma_kept_sub_passes(
    policy: Policy,
    subs: Seq<Stream>,
    kept: Seq<(usize, &Stream)>,
    k: int,
)
    requires
        is_sub_selection(policy, subs, kept),
        subs.len() != 1,
        0 <= k < kept.len(),
    ensures
        sub_passes(policy, *kept[k].1),
        is_first_with_key(subs, kept[k].0 as int),
{
    assert(has_index(kept, kept[k].0 as int));
}

/// Of several audio tracks, every kept one passes the language and title
/// filters: its language is one that is kept, and its lower-cased title
/// holds neither `commentary`, nor `description`, nor `eng`.
pub proof fn lemma_kept_audio_passes(
    policy: Policy,
    audio: Seq<Stream>,
    kept: Seq<(usize, &Stream)>,
    k: int,
)
    requires
        is_audio_selection(policy, audio, kept),
        audio.len() != 1,
        0 <= k < kept.len(),
    ensures
        audio_passes(policy, *kept[k].1),
        is_listed(kept[k].1.language_text(), policy.audio_languages@),
        !is_substring("commentary"@, lowercase_of(kept[k].1.title_text())),
        !is_substring("description"@, lowercase_of(kept[k].1.title_text())),
        !is_substring("eng"@, lowercase_of(kept[k].1.title_text())),
{
    assert(has_index(kept, kept[k].0 as int));
}

/// Every kept attachment is a font.
pub proof fn lemma_kept_attachment_is_font(
    attachments: Seq<Stream>,
    kept: Seq<(usize, &Stream)>,
    k: int,
)
    requires
        is_attachment_selection(attachments, kept),
        0 <= k < kept.len(),
    ensures
        is_font(*kept[k].1),
{
    assert(has_index(kept, kept[k].0 as int));
}

/// Two lists that borrow from the same tracks, are both in ascending order
/// of the keys and name the same positions are the same list.
pub proof fn lemma_sorted_selection_unique(
    tracks: Seq<Stream>,
    x: Seq<(usize, &Stream)>,
    y: Seq<(usize, &Stream)>,
)
    requires
        points_into(x, tracks),
        points_into(y, tracks),
        sorted_by_key(x),
        sorted_by_key(y),
        forall|i: int| #[trigger] has_index(x, i) <==> has_index(y, i),
    ensures
        x == y,
    decreases x.len(),
{
    if x.len() == 0 {
        if y.len() > 0 {
            assert(has_index(y, y[0].0 as int));
            assert(has_index(x, y[0].0 as int));
        }
        assert(x =~= y);
    } else {
        assert(has_index(x, x[0].0 as int));
        assert(has_index(y, x[0].0 as int));
        let ky = choose|k: int| 0 <= k < y.len() && (#[trigger] y[k]).0 == x[0].0;
        assert(has_index(y, y[0].0 as int));
        assert(has_index(x, y[0].0 as int));
        let kx = choose|k: int| 0 <= k < x.len() && (#[trigger] x[k]).0 == y[0].0;
        if ky > 0 {
            assert(*y[ky].1 == *x[0].1);
            if kx > 0 {
                assert(*x[kx].1 == *y[0].1);
                lemma_text_before_transitive(
                    track_key(*y[0].1),
                    track_key(*x[0].1),
                    track_key(*x[kx].1),
                );
            }
            lemma_text_before_irreflexive(track_key(*y[0].1));
        }
        assert(x[0] == y[0]);
        let xs = x.drop_first();
        let ys = y.drop_first();
        assert forall|i: int| #[trigger] has_index(xs, i) <==> has_index(ys, i) by {
            lemma_tail_indices(x, i);
            lemma_tail_indices(y, i);
        }
        lemma_sorted_selection_unique(tracks, xs, ys);
        assert(x =~= seq![x[0]] + xs);
        assert(y =~= seq![y[0]] + ys);
    }
}

/// In a list in ascending order of the keys, the positions that the tail
/// names are those that the list names, but for the head's.
proof fn lemma_tail_indices(x: Seq<(usize, &Stream)>, i: int)
    requires
        x.len() > 0,
        sorted_by_key(x),
        exists|tracks: Seq<Stream>| points_into(x, tracks),
    ensures
        has_index(x.drop_first(), i) <==> (has_index(x, i) && i != x[0].0),
{
    let tracks = choose|tracks: Seq<Stream>| points_into(x, tracks);
    let xs = x.drop_first();
    if has_index(xs, i) {
        let k = choose|k: int| 0 <= k < xs.len() && (#[trigger] xs[k]).0 == i;
        assert(x[k + 1].0 == i);
        if i == x[0].0 {
            assert(*x[0].1 == *x[k + 1].1);
            lemma_text_before_irreflexive(track_key(*x[0].1));
        }
    }
    if has_index(x, i) && i != x[0].0 {
        let k = choose|k: int| 0 <= k < x.len() && (#[trigger] x[k]).0 == i;
        assert(xs[k - 1].0 == i);
    }
}

/// Two lists that borrow from the same tracks, are both in ascending order
/// of the positions and name the same positions are the same list.
pub proof fn lemma_indexed_selection_unique(
    tracks: Seq<Stream>,
    x: Seq<(usize, &Stream)>,
    y: Seq<(usize, &Stream)>,
)
    requires
        points_into(x, tracks),
        points_into(y, tracks),
        sorted_by_index(x),
        sorted_by_index(y),
        forall|i: int| #[trigger] has_index(x, i) <==> has_index(y, i),
    ensures
        x == y,
    decreases x.len(),
{
    if x.len() == 0 {
        if y.len() > 0 {
            assert(has_index(y, y[0].0 as int));
            assert(has_index(x, y[0].0 as int));
        }
        assert(x =~= y);
    } else {
        assert(has_index(x, x[0].0 as int));
        assert(has_index(y, x[0].0 as int));
        let ky = choose|k: int| 0 <= k < y.len() && (#[trigger] y[k]).0 == x[0].0;
        assert(has_index(y, y[0].0 as int));
        assert(has_index(x, y[0].0 as int));
        let kx = choose|k: int| 0 <= k < x.len() && (#[trigger] x[k]).0 == y[0].0;
        assert(x[0].0 == y[0].0);
        assert(x[0] == y[0]);
        let xs = x.drop_first();
        let ys = y.drop_first();
        assert forall|i: int| #[trigger] has_index(xs, i) <==> has_index(ys, i) by {
            if has_index(xs, i) {
                let k = choose|k: int| 0 <= k < xs.len() && (#[trigger] xs[k]).0 == i;
                assert(x[k + 1].0 == i);
                assert(x[0].0 < x[k + 1].0);
                assert(has_index(x, i));
                assert(has_index(y, i));
                let l = choose|l: int| 0 <= l < y.len() && (#[trigger] y[l]).0 == i;
                assert(ys[l - 1].0 == i);
            }
            if has_index(ys, i) {
                let k = choose|k: int| 0 <= k < ys.len() && (#[trigger] ys[k]).0 == i;
                assert(y[k + 1].0 == i);
                assert(y[0].0 < y[k + 1].0);
                assert(has_index(y, i));
                assert(has_index(x, i));
                let l = choose|l: int| 0 <= l < x.len() && (#[trigger] x[l]).0 == i;
                assert(xs[l - 1].0 == i);
            }
        }
        lemma_indexed_selection_unique(tracks, xs, ys);
        assert(x =~= seq![x[0]] + xs);
        assert(y =~= seq![y[0]] + ys);
    }
}

/// Audio selection has one answer.
pub proof fn lemma_audio_selection_unique(
    policy: Policy,
    audio: Seq<Stream>,
    first: Seq<(usize, &Stream)>,
    second: Seq<(usize, &Stream)>,
)
    requires
        is_audio_selection(policy, audio, first),
        is_audio_selection(policy, audio, second),
    ensures
        first == second,
{
    assert forall|i: int| #[trigger] has_index(first, i) <==> has_index(second, i) by {}
    lemma_indexed_selection_unique(audio, first, second);
}

/// Attachment selection has one answer: any two results for the same
/// attachments are the same list in the same order.
pub proof fn lemma_attachment_selection_unique(
    attachments: Seq<Stream>,
    first: Seq<(usize, &Stream)>,
    second: Seq<(usize, &Stream)>,
)
    requires
        is_attachment_selection(attachments, first),
        is_attachment_selection(attachments, second),
    ensures
        first == second,
{
    assert forall|i: int| #[trigger] has_index(first, i) <==> has_index(second, i) by {}
    lemma_sorted_selection_unique(attachments, first, second);
}

/// Subtitle selection has one answer too.
pub proof fn lemma_sub_selection_unique(
    policy: Policy,
    subs: Seq<Stream>,
    first: Seq<(usize, &Stream)>,
    second: Seq<(usize, &Stream)>,
)
    requires
        is_sub_selection(policy, subs, first),
        is_sub_selection(policy, subs, second),
    ensures
        first == second,
{
    assert forall|i: int| #[trigger] has_index(first, i) <==> has_index(second, i) by {}
    lemma_sorted_selection_unique(subs, first, second);
}

/// The first line of a selection's report: how many of the tracks are
/// kept, or that all are.
pub open spec fn summary_head(noun: Seq<char>, kept: nat, total: nat) -> Seq<char> {
    if kept < total {
        "  Keeping "@ + decimal_text(kept) + "/"@ + decimal_text(total) + " "@ + noun + "."@
    } else {
        "  Keeping all "@ + noun + " ("@ + decimal_text(total) + ")."@
    }
}

/// The line that reports one kept track: its title, or a stand-in where it
/// has none, and its codec.
pub open spec fn summary_item(s: Stream) -> Seq<char> {
    "      "@ + (if s.title_text().len() == 0 {
        "Untitled track"@
    } else {
        s.title_text()
    }) + " ("@ + s.codec_text() + ")"@
}

/// The report of a selection: the head line, followed by one line per kept
/// track where not every track is kept.
pub open spec fn summary_lines(noun: Seq<char>, kept: Seq<(usize, &Stream)>, total: nat) -> Seq<
    Seq<char>,
> {
    if kept.len() < total {
        seq![summary_head(noun, kept.len(), total)] + kept.map_values(
            |e: (usize, &Stream)| summary_item(*e.1),
        )
    } else {
        seq![summary_head(noun, kept.len(), total)]
    }
}

/// Words the report of a selection for the operator; `noun` names the
/// category and `total` is the number of its tracks in the file.
pub fn selection_summary(noun: &str, kept: &Vec<(usize, &Stream)>, total: usize) -> (lines: Vec<
    String,
>)
    ensures
        texts(lines@) == summary_lines(noun@, kept@, total as nat),
{
    let mut lines: Vec<String> = Vec::new();
    let n: usize = kept.len();
    let count = decimal_string(n as u64);
    let all = decimal_string(total as u64);
    if n < total {
        let head = String::from_str("  Keeping ").concat(count.as_str()).concat("/").concat(
            all.as_str(),
        ).concat(" ").concat(noun).concat(".");
        lines.push(head);
        let ghost item = |e: (usize, &Stream)| summary_item(*e.1);
        let ghost first = seq![summary_head(noun@, n as nat, total as nat)];
        assert(texts(lines@) =~= first + kept@.take(0).map_values(item));
        let mut i: usize = 0;
        while i < n
            invariant
                n == kept@.len(),
                i <= n,
                item == |e: (usize, &Stream)| summary_item(*e.1),
                texts(lines@) == first + kept@.take(i as int).map_values(item),
            decreases n - i,
        {
            let s: &Stream = kept[i].1;
            let title = s.stream_title();
            let shown = if title.as_str().is_empty() {
                String::from_str("Untitled track")
            } else {
                title
            };
            let line = String::from_str("      ").concat(shown.as_str()).concat(" (").concat(
                s.codec(),
            ).concat(")");
            let ghost before = lines@;
            lines.push(line);
            proof {
                assert(line@ == summary_item(*kept@[i as int].1));
                assert(texts(lines@) =~= texts(before).push(line@));
                assert(kept@.take(i + 1).map_values(item) =~= kept@.take(i as int).map_values(
                    item,
                ).push(line@));
            }
            i += 1;
        }
        assert(kept@.take(n as int) == kept@);
    } else {
        let head = String::from_str("  Keeping all ").concat(noun).concat(" (").concat(
            all.as_str(),
        ).concat(").");
        lines.push(head);
        assert(texts(lines@) =~= seq![summary_head(noun@, n as nat, total as nat)]);
    }
    lines
}

} // verus!
