//! The batch: which files are processed, in what order, and what follows
//! each outcome.

use crate::args::{AppArgs, PreloadMode, TranscodeMode};
use crate::executor::EncodeState;
use crate::finalize::{after_copy, FinalizeState};
use crate::policy::texts;
use crate::seqs::lemma_filter_take_step;
use crate::text::{
    contains_text, decimal_string, decimal_text, is_substring, lemma_text_before_irreflexive,
    lemma_text_before_total, lemma_text_before_transitive, lowercase, lowercase_of, text_before,
    text_lt,
};
use vstd::prelude::*;
use vstd::string::StringExecFns;

verus! {

/// One entry of a directory listing.
pub struct DirEntry {
    pub path: String,
    /// The last component of the path.
    pub name: String,
    pub is_file: bool,
}

/// The paths of a run of entries.
pub open spec fn paths(entries: Seq<DirEntry>) -> Seq<Seq<char>> {
    entries.map_values(|e: DirEntry| e.path@)
}

/// The entry is a file whose name holds the container's extension.
pub open spec fn is_candidate(entry: DirEntry) -> bool {
    entry.is_file && is_substring(".mkv"@, entry.name@)
}

/// A file with this name and this lower-cased name is cleared away after
/// a failure: the name holds the container's extension, or, so that the
/// case of the letters does not matter, the lower-cased name holds the
/// extension without its dot.
pub open spec fn is_leftover_name(name: Seq<char>, lowered: Seq<char>) -> bool {
    is_substring(".mkv"@, name) || is_substring("mkv"@, lowered)
}

/// The entry is a file that is cleared away after a failure.
pub open spec fn is_leftover(entry: DirEntry) -> bool {
    entry.is_file && is_leftover_name(entry.name@, lowercase_of(entry.name@))
}

/// A file of the batch.
#[derive(Debug, PartialEq, Eq)]
pub struct SourceFile {
    pub path: String,
    /// The last component of the path.
    pub name: String,
}

/// The file that a directory entry stands for.
pub open spec fn source_of(entry: DirEntry) -> SourceFile {
    SourceFile { path: entry.path, name: entry.name }
}

/// The entries that a list of borrowed entries points at.
pub open spec fn pointed(found: Seq<&DirEntry>) -> Seq<DirEntry> {
    found.map_values(|e: &DirEntry| *e)
}

/// Entry `i` runs before entry `j`: its name sorts first, or the names are
/// the same and it stands first in the listing.
pub open spec fn runs_before(entries: Seq<DirEntry>, i: int, j: int) -> bool {
    text_before(entries[i].name@, entries[j].name@) || (entries[i].name@ == entries[j].name@ && i
        < j)
}

/// `order` names every entry once, each before all that run after it.
pub open spec fn is_name_order(entries: Seq<DirEntry>, order: Seq<int>) -> bool {
    &&& order.len() == entries.len()
    &&& forall|a: int| 0 <= a < order.len() ==> 0 <= #[trigger] order[a] < entries.len()
    &&& forall|i: int| 0 <= i < entries.len() ==> #[trigger] order.contains(i)
    &&& forall|a: int, b: int|
        0 <= a < b < order.len() ==> runs_before(entries, #[trigger] order[a], #[trigger] order[b])
}

/// The files of the entries, taken in the given order.
pub open spec fn in_order(entries: Seq<DirEntry>, order: Seq<int>) -> Seq<SourceFile> {
    order.map_values(|i: int| source_of(entries[i]))
}

/// A batch of files with the directories and modes it runs under.
pub struct Cruncher {
    pub output: String,
    pub intermediate: Option<String>,
    /// The files to process, in the order in which they are processed.
    pub files: Vec<SourceFile>,
    pub preload_mode: PreloadMode,
    pub transcode_mode: TranscodeMode,
    pub dry_run: bool,
}

/// Where the batch stands.
#[derive(Copy, Clone, Debug, PartialEq, Eq, Structural)]
pub enum BatchState {
    /// The file at this place in the batch is to be probed and its tracks chosen.
    Probing(usize),
    /// The file at this place is to be encoded.
    Encoding(usize),
    /// The file at this place is to be moved out of the intermediate directory.
    Finalizing(usize),
    /// Every file was dealt with.
    Finished,
    /// A failure stopped the batch.
    Aborted,
}

/// What happened to the file in hand.
#[derive(Copy, Clone, Debug, PartialEq, Eq, Structural)]
pub enum BatchEvent {
    Probed,
    ProbeFailed,
    Encoded,
    EncodeFailed,
    Finalized,
    FinalizeFailed,
}

/// What the caller does next.
#[derive(Copy, Clone, Debug, PartialEq, Eq, Structural)]
pub enum BatchAction {
    Probe(usize),
    Encode(usize),
    Finalize(usize),
    /// Stop; with `report_total`, report the time the whole batch took.
    Stop { report_total: bool },
    /// Clear the leftovers out of the intermediate directory, then stop.
    PurgeAndStop,
}

impl Cruncher {
    /// The state in which the file after place `i` is in hand, or the end.
    pub open spec fn state_after(self, i: usize) -> BatchState {
        if i < self.files@.len() && i + 1 < self.files@.len() {
            BatchState::Probing((i + 1) as usize)
        } else {
            BatchState::Finished
        }
    }

    /// The state in which a batch begins.
    pub open spec fn first_state(self) -> BatchState {
        if self.files@.len() > 0 {
            BatchState::Probing(0)
        } else {
            BatchState::Finished
        }
    }

    /// The state after an event. A file that cannot be probed is passed
    /// over; a dry run passes on after the choice of tracks; a failed
    /// encode or move stops the batch; an event that does not belong to
    /// the state changes nothing.
    pub open spec fn next_state(self, state: BatchState, event: BatchEvent) -> BatchState {
        match (state, event) {
            (BatchState::Probing(i), BatchEvent::ProbeFailed) => self.state_after(i),
            (BatchState::Probing(i), BatchEvent::Probed) => if self.dry_run {
                self.state_after(i)
            } else {
                BatchState::Encoding(i)
            },
            (BatchState::Encoding(i), BatchEvent::Encoded) => if self.intermediate.is_some() {
                BatchState::Finalizing(i)
            } else {
                self.state_after(i)
            },
            (BatchState::Encoding(_), BatchEvent::EncodeFailed) => BatchState::Aborted,
            (BatchState::Finalizing(i), BatchEvent::Finalized) => self.state_after(i),
            (BatchState::Finalizing(_), BatchEvent::FinalizeFailed) => BatchState::Aborted,
            _ => state,
        }
    }

    /// What to do in a state.
    pub open spec fn action_in(self, state: BatchState) -> BatchAction {
        match state {
            BatchState::Probing(i) => BatchAction::Probe(i),
            BatchState::Encoding(i) => BatchAction::Encode(i),
            BatchState::Finalizing(i) => BatchAction::Finalize(i),
            BatchState::Finished => BatchAction::Stop { report_total: self.files@.len() > 1 },
            BatchState::Aborted => if !self.dry_run && self.intermediate.is_some() {
                BatchAction::PurgeAndStop
            } else {
                BatchAction::Stop { report_total: false }
            },
        }
    }

    /// The state names a file of the batch wherever it names one.
    pub open spec fn admits(self, state: BatchState) -> bool {
        match state {
            BatchState::Probing(i) => i < self.files@.len(),
            BatchState::Encoding(i) => i < self.files@.len(),
            BatchState::Finalizing(i) => i < self.files@.len(),
            _ => true,
        }
    }

    /// The candidates in a listing, in the listing's order.
    pub open spec fn candidates(entries: Seq<DirEntry>) -> Seq<DirEntry> {
        entries.filter(|e: DirEntry| is_candidate(e))
    }

    /// Makes a batch of the candidates in a listing of the input
    /// directory. The files run in ascending order of their names, and
    /// files of the same name in the order of the listing.
    pub fn init(cfg: &AppArgs, entries: &Vec<DirEntry>) -> (cruncher: Cruncher)
        ensures
            exists|order: Seq<int>|
                is_name_order(Self::candidates(entries@), order) && cruncher.files@ == in_order(
                    Self::candidates(entries@),
                    order,
                ),
            cruncher.output@ == cfg.output_dir@,
            cruncher.intermediate.is_some() == cfg.intermediate_dir.is_some(),
            cruncher.intermediate.is_some() ==> cruncher.intermediate.unwrap()@
                == cfg.intermediate_dir.unwrap()@,
            cruncher.preload_mode == cfg.preload_mode,
            cruncher.transcode_mode == cfg.transcode_mode,
            cruncher.dry_run == cfg.dry_run,
    {
        let found = matching_entries(entries, false);
        let files = sorted_by_name(&found);
        Cruncher {
            output: cfg.output_dir(),
            intermediate: cfg.intermediate_dir(),
            files,
            preload_mode: cfg.preload_mode(),
            transcode_mode: cfg.transcode_mode(),
            dry_run: cfg.dry_run(),
        }
    }

    /// The state in which the batch begins.
    pub fn start(&self) -> (state: BatchState)
        ensures
            state == self.first_state(),
            self.admits(state),
    {
        if self.files.len() > 0 {
            BatchState::Probing(0)
        } else {
            BatchState::Finished
        }
    }

    fn after(&self, i: usize) -> (state: BatchState)
        ensures
            state == self.state_after(i),
            self.admits(state),
    {
        let n: usize = self.files.len();
        if i < n && i + 1 < n {
            BatchState::Probing(i + 1)
        } else {
            BatchState::Finished
        }
    }

    /// Takes an event into account.
    pub fn advance(&self, state: BatchState, event: BatchEvent) -> (next: BatchState)
        ensures
            next == self.next_state(state, event),
            self.admits(state) ==> self.admits(next),
    {
        match state {
            BatchState::Probing(i) => match event {
                BatchEvent::ProbeFailed => self.after(i),
                BatchEvent::Probed => if self.dry_run {
                    self.after(i)
                } else {
                    BatchState::Encoding(i)
                },
                _ => state,
            },
            BatchState::Encoding(i) => match event {
                BatchEvent::Encoded => if self.intermediate.is_some() {
                    BatchState::Finalizing(i)
                } else {
                    self.after(i)
                },
                BatchEvent::EncodeFailed => BatchState::Aborted,
                _ => state,
            },
            BatchState::Finalizing(i) => match event {
                BatchEvent::Finalized => self.after(i),
                BatchEvent::FinalizeFailed => BatchState::Aborted,
                _ => state,
            },
            _ => state,
        }
    }

    /// What the caller does next.
    pub fn action(&self, state: BatchState) -> (action: BatchAction)
        ensures
            action == self.action_in(state),
    {
        match state {
            BatchState::Probing(i) => BatchAction::Probe(i),
            BatchState::Encoding(i) => BatchAction::Encode(i),
            BatchState::Finalizing(i) => BatchAction::Finalize(i),
            BatchState::Finished => BatchAction::Stop { report_total: self.files.len() > 1 },
            BatchState::Aborted => if !self.dry_run && self.intermediate.is_some() {
                BatchAction::PurgeAndStop
            } else {
                BatchAction::Stop { report_total: false }
            },
        }
    }
}

/// The paths of the leftovers in a listing of the intermediate directory,
/// in the listing's order.
pub open spec fn leftovers(entries: Seq<DirEntry>) -> Seq<Seq<char>> {
    paths(entries.filter(|e: DirEntry| is_leftover(e)))
}

/// Tells whether a file with this name and this lower-cased name is
/// cleared away after a failure.
pub fn leftover_filter(name: &str, lowered: &str) -> (leftover: bool)
    ensures
        leftover == is_leftover_name(name@, lowered@),
{
    contains_text(name, ".mkv") || contains_text(lowered, "mkv")
}

/// Every file whose name holds the container's extension is cleared away
/// after a failure: what could be a file of a batch is a leftover.
pub proof fn lemma_candidates_are_leftovers(entry: DirEntry)
    requires
        is_candidate(entry),
    ensures
        is_leftover(entry),
{
}

fn matching_entries(entries: &Vec<DirEntry>, leftover: bool) -> (found: Vec<&DirEntry>)
    ensures
        pointed(found@) == if leftover {
            entries@.filter(|e: DirEntry| is_leftover(e))
        } else {
            Cruncher::candidates(entries@)
        },
{
    let ghost wanted = if leftover {
        |e: DirEntry| is_leftover(e)
    } else {
        |e: DirEntry| is_candidate(e)
    };
    let mut found: Vec<&DirEntry> = Vec::new();
    let n: usize = entries.len();
    let mut i: usize = 0;
    assert(pointed(found@) =~= entries@.take(0).filter(wanted));
    while i < n
        invariant
            n == entries@.len(),
            i <= n,
            wanted == if leftover {
                |e: DirEntry| is_leftover(e)
            } else {
                |e: DirEntry| is_candidate(e)
            },
            pointed(found@) == entries@.take(i as int).filter(wanted),
        decreases n - i,
    {
        proof {
            lemma_filter_take_step(entries@, wanted, i as int);
        }
        let entry: &DirEntry = &entries[i];
        let hit = if !entry.is_file {
            false
        } else if leftover {
            let lowered = lowercase(entry.name.as_str());
            leftover_filter(entry.name.as_str(), lowered.as_str())
        } else {
            contains_text(entry.name.as_str(), ".mkv")
        };
        if hit {
            let ghost before = found@;
            found.push(entry);
            assert(pointed(found@) =~= pointed(before).push(*entry));
        }
        i += 1;
    }
    assert(entries@.take(n as int) == entries@);
    found
}

/// Puts entries in the order in which they run.
fn sorted_by_name(found: &Vec<&DirEntry>) -> (files: Vec<SourceFile>)
    ensures
        exists|order: Seq<int>|
            is_name_order(pointed(found@), order) && files@ == in_order(pointed(found@), order),
{
    let ghost all = pointed(found@);
    let ghost mut order: Seq<int> = Seq::empty();
    let mut files: Vec<SourceFile> = Vec::new();
    let n: usize = found.len();
    let mut i: usize = 0;
    while i < n
        invariant
            n == found@.len(),
            all == pointed(found@),
            i <= n,
            order.len() == i,
            files@.len() == i,
            forall|a: int| 0 <= a < i ==> 0 <= #[trigger] order[a] < i,
            forall|m: int| 0 <= m < i ==> #[trigger] order.contains(m),
            forall|a: int, b: int|
                0 <= a < b < i ==> runs_before(all, #[trigger] order[a], #[trigger] order[b]),
            forall|a: int| 0 <= a < i ==> #[trigger] files@[a] == source_of(all[order[a]]),
        decreases n - i,
    {
        let entry: &DirEntry = found[i];
        assert(*entry == all[i as int]);
        let mut p: usize = 0;
        while p < i && !text_lt(entry.name.as_str(), files[p].name.as_str())
            invariant
                p <= i,
                files@.len() == i,
                forall|k: int|
                    0 <= k < p ==> !text_before(entry.name@, (#[trigger] files@[k]).name@),
            decreases i - p,
        {
            p += 1;
        }
        let ghost old_order = order;
        let ghost old_files = files@;
        let file = SourceFile { path: entry.path.clone(), name: entry.name.clone() };
        files.insert(p, file);
        proof {
            order = old_order.insert(p as int, i as int);
            assert(forall|k: int|
                0 <= k < p ==> order[k] == old_order[k] && files@[k] == old_files[k]);
            assert(forall|k: int|
                p < k <= i ==> order[k] == old_order[k - 1] && files@[k] == old_files[k - 1]);
            assert(order[p as int] == i && files@[p as int] == source_of(all[i as int]));
            assert forall|k: int| 0 <= k < p implies runs_before(
                all,
                #[trigger] old_order[k],
                i as int,
            ) by {
                assert(old_files[k] == source_of(all[old_order[k]]));
                lemma_text_before_total(all[old_order[k]].name@, entry.name@);
            }
            assert forall|k: int| p <= k < i implies runs_before(
                all,
                i as int,
                #[trigger] old_order[k],
            ) by {
                assert(old_files[p as int] == source_of(all[old_order[p as int]]));
                assert(text_before(entry.name@, all[old_order[p as int]].name@));
                if k > p {
                    assert(runs_before(all, old_order[p as int], old_order[k]));
                    if all[old_order[p as int]].name@ != all[old_order[k]].name@ {
                        lemma_text_before_transitive(
                            entry.name@,
                            all[old_order[p as int]].name@,
                            all[old_order[k]].name@,
                        );
                    }
                }
            }
            assert forall|m: int| 0 <= m < i + 1 implies #[trigger] order.contains(m) by {
                if m < i {
                    assert(old_order.contains(m));
                    let k = choose|k: int| 0 <= k < old_order.len() && old_order[k] == m;
                    if k < p {
                        assert(order[k] == m);
                    } else {
                        assert(order[k + 1] == m);
                    }
                } else {
                    assert(order[p as int] == m);
                }
            }
            assert forall|a: int, b: int| 0 <= a < b < i + 1 implies runs_before(
                all,
                #[trigger] order[a],
                #[trigger] order[b],
            ) by {
                if b < p {
                } else if b == p {
                    assert(runs_before(all, old_order[a], i as int));
                } else if a == p {
                    assert(runs_before(all, i as int, old_order[b - 1]));
                } else if a < p {
                    assert(runs_before(all, old_order[a], old_order[b - 1]));
                } else {
                    assert(runs_before(all, old_order[a - 1], old_order[b - 1]));
                }
            }
        }
        i += 1;
    }
    proof {
        assert(files@ =~= in_order(all, order));
        assert(is_name_order(all, order));
    }
    files
}

/// Picks out of a listing of the intermediate directory what is cleared
/// away after a failure.
pub fn purge_list(entries: &Vec<DirEntry>) -> (found: Vec<String>)
    ensures
        texts(found@) == leftovers(entries@),
{
    let refs = matching_entries(entries, true);
    let mut found: Vec<String> = Vec::new();
    let n: usize = refs.len();
    let mut i: usize = 0;
    assert(texts(found@) =~= paths(pointed(refs@).take(0)));
    while i < n
        invariant
            n == refs@.len(),
            i <= n,
            texts(found@) == paths(pointed(refs@).take(i as int)),
        decreases n - i,
    {
        let ghost before = found@;
        found.push(refs[i].path.clone());
        assert(texts(found@) =~= texts(before).push(refs@[i as int].path@));
        assert(paths(pointed(refs@).take(i + 1)) =~= paths(pointed(refs@).take(i as int)).push(
            refs@[i as int].path@,
        ));
        i += 1;
    }
    assert(pointed(refs@).take(n as int) == pointed(refs@));
    found
}

/// The sentence that reports the time a batch took.
pub open spec fn elapsed_text(secs: u64) -> Seq<char> {
    "Finished processing all files in "@ + decimal_text((secs / 60) as nat) + "m"@ + decimal_text(
        (secs % 60) as nat,
    ) + "s"@
}

/// Words the time that a batch took, in minutes and seconds.
pub fn elapsed_summary(secs: u64) -> (line: String)
    ensures
        line@ == elapsed_text(secs),
{
    let minutes = decimal_string(secs / 60);
    let seconds = decimal_string(secs % 60);
    String::from_str("Finished processing all files in ").concat(minutes.as_str()).concat(
        "m",
    ).concat(seconds.as_str()).concat("s")
}

/// What a probe means to the batch.
pub open spec fn probe_event_of(probed: bool) -> BatchEvent {
    if probed {
        BatchEvent::Probed
    } else {
        BatchEvent::ProbeFailed
    }
}

/// What an ended encoder run means to the batch: only a run that
/// succeeded counts as encoded.
pub open spec fn encode_event_of(state: EncodeState) -> BatchEvent {
    if state is Succeeded {
        BatchEvent::Encoded
    } else {
        BatchEvent::EncodeFailed
    }
}

/// What an ended finalizer means to the batch: only one that is done
/// counts as finalized.
pub open spec fn finalize_event_of(state: FinalizeState) -> BatchEvent {
    if state is Done {
        BatchEvent::Finalized
    } else {
        BatchEvent::FinalizeFailed
    }
}

/// Turns the outcome of a probe into the batch's event; `probed` says
/// that the file's model could be built.
pub fn probe_event(probed: bool) -> (event: BatchEvent)
    ensures
        event == probe_event_of(probed),
{
    if probed {
        BatchEvent::Probed
    } else {
        BatchEvent::ProbeFailed
    }
}

/// Turns the end of an encoder run into the batch's event.
pub fn encode_event(state: EncodeState) -> (event: BatchEvent)
    requires
        state.is_final(),
    ensures
        event == encode_event_of(state),
{
    match state {
        EncodeState::Succeeded => BatchEvent::Encoded,
        _ => BatchEvent::EncodeFailed,
    }
}

/// Turns the end of a finalizer into the batch's event.
pub fn finalize_event(state: FinalizeState) -> (event: BatchEvent)
    requires
        state.is_final(),
    ensures
        event == finalize_event_of(state),
{
    match state {
        FinalizeState::Done => BatchEvent::Finalized,
        _ => BatchEvent::FinalizeFailed,
    }
}

/// An encoder run that ended badly stops the batch, and so does a
/// finalizer that ended badly; one that ended well never does.
pub proof fn lemma_bad_ends_stop_the_batch(
    cruncher: Cruncher,
    i: usize,
    encode: EncodeState,
    finalize: FinalizeState,
)
    requires
        encode.is_final(),
        finalize.is_final(),
    ensures
        (cruncher.next_state(BatchState::Encoding(i), encode_event_of(encode))
            == BatchState::Aborted) == (encode is Failed),
        (cruncher.next_state(BatchState::Finalizing(i), finalize_event_of(finalize))
            == BatchState::Aborted) == (finalize is Failed),
{
}

/// A copy whose byte count differs from the staged file's size stops the
/// batch, and outside a dry run the intermediate directory is then
/// cleared.
pub proof fn lemma_size_mismatch_stops_the_batch(
    cruncher: Cruncher,
    i: usize,
    staged: u64,
    copied: u64,
    transcoded: bool,
)
    requires
        staged != copied,
        cruncher.intermediate.is_some(),
    ensures
        ({
            let ended = after_copy(FinalizeState::Sized { staged }, transcoded, copied);
            let next = cruncher.next_state(BatchState::Finalizing(i), finalize_event_of(ended));
            &&& ended.is_final()
            &&& next == BatchState::Aborted
            &&& !cruncher.dry_run ==> cruncher.action_in(next) == BatchAction::PurgeAndStop
        }),
{
}

/// A batch that is never disturbed by a failed encode or move never asks
/// for a purge, and a dry run never asks for one at all.
pub proof fn lemma_purge_only_after_abort(cruncher: Cruncher, state: BatchState)
    ensures
        cruncher.action_in(state) == BatchAction::PurgeAndStop ==> state == BatchState::Aborted
            && !cruncher.dry_run && cruncher.intermediate.is_some(),
{
}

/// A file that cannot be probed does not stop the batch; a failed encode
/// or move does.
pub proof fn lemma_failures_that_stop_the_batch(cruncher: Cruncher, i: usize)
    ensures
        cruncher.next_state(BatchState::Probing(i), BatchEvent::ProbeFailed)
            != BatchState::Aborted,
        cruncher.next_state(BatchState::Encoding(i), BatchEvent::EncodeFailed)
            == BatchState::Aborted,
        cruncher.next_state(BatchState::Finalizing(i), BatchEvent::FinalizeFailed)
            == BatchState::Aborted,
{
}

/// Of two different entries exactly one direction of running before can
/// hold, and no entry runs before itself.
pub proof fn lemma_runs_before_one_way(entries: Seq<DirEntry>, i: int, j: int)
    requires
        runs_before(entries, i, j),
    ensures
        !runs_before(entries, j, i),
        i != j,
{
    let a = entries[i].name@;
    let b = entries[j].name@;
    lemma_text_before_irreflexive(a);
    if text_before(a, b) && text_before(b, a) {
        lemma_text_before_transitive(a, b, a);
    }
}

/// Two runs of positions that are each in running order and name the same
/// positions are the same run.
pub proof fn lemma_running_order_unique(entries: Seq<DirEntry>, x: Seq<int>, y: Seq<int>)
    requires
        forall|a: int, b: int|
            0 <= a < b < x.len() ==> runs_before(entries, #[trigger] x[a], #[trigger] x[b]),
        forall|a: int, b: int|
            0 <= a < b < y.len() ==> runs_before(entries, #[trigger] y[a], #[trigger] y[b]),
        forall|i: int| #[trigger] x.contains(i) <==> y.contains(i),
    ensures
        x == y,
    decreases x.len(),
{
    if x.len() == 0 {
        if y.len() > 0 {
            assert(y.contains(y[0]));
            assert(x.contains(y[0]));
        }
        assert(x =~= y);
    } else {
        assert(x.contains(x[0]));
        assert(y.contains(x[0]));
        let ky = choose|k: int| 0 <= k < y.len() && y[k] == x[0];
        assert(y.contains(y[0]));
        assert(x.contains(y[0]));
        let kx = choose|k: int| 0 <= k < x.len() && x[k] == y[0];
        if ky > 0 && kx > 0 {
            lemma_runs_before_one_way(entries, y[0], y[ky]);
            assert(runs_before(entries, x[0], x[kx]));
        }
        assert(x[0] == y[0]);
        let xs = x.drop_first();
        let ys = y.drop_first();
        assert forall|i: int| #[trigger] xs.contains(i) <==> ys.contains(i) by {
            lemma_tail_positions(entries, x, i);
            lemma_tail_positions(entries, y, i);
        }
        lemma_running_order_unique(entries, xs, ys);
        assert(x =~= seq![x[0]] + xs);
        assert(y =~= seq![y[0]] + ys);
    }
}

/// In a run of positions in running order, the tail names what the run
/// names, but for the head.
proof fn lemma_tail_positions(entries: Seq<DirEntry>, x: Seq<int>, i: int)
    requires
        x.len() > 0,
        forall|a: int, b: int|
            0 <= a < b < x.len() ==> runs_before(entries, #[trigger] x[a], #[trigger] x[b]),
    ensures
        x.drop_first().contains(i) <==> (x.contains(i) && i != x[0]),
{
    let xs = x.drop_first();
    if xs.contains(i) {
        let k = choose|k: int| 0 <= k < xs.len() && xs[k] == i;
        assert(x[k + 1] == i);
        lemma_runs_before_one_way(entries, x[0], x[k + 1]);
    }
    if x.contains(i) && i != x[0] {
        let k = choose|k: int| 0 <= k < x.len() && x[k] == i;
        assert(xs[k - 1] == i);
    }
}

/// A listing has one running order: the files of a batch are settled by
/// the listing it was made from.
pub proof fn lemma_name_order_unique(entries: Seq<DirEntry>, first: Seq<int>, second: Seq<int>)
    requires
        is_name_order(entries, first),
        is_name_order(entries, second),
    ensures
        first == second,
{
    assert forall|i: int| #[trigger] first.contains(i) <==> second.contains(i) by {
        if first.contains(i) {
            let a = choose|a: int| 0 <= a < first.len() && first[a] == i;
            assert(0 <= first[a] < entries.len());
        }
        if second.contains(i) {
            let a = choose|a: int| 0 <= a < second.len() && second[a] == i;
            assert(0 <= second[a] < entries.len());
        }
    }
    lemma_running_order_unique(entries, first, second);
}

} // verus!
