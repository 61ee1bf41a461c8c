//! The index of recordings: which clip was recorded where.
use vstd::prelude::*;
use crate::clips::{sanitize, sanitized};
use crate::events::{to_lowercase, unicode_lower};
use crate::hashes::{
    key_of, legacy_key_of, legacy_recording_key, recording_key, recording_key_token, token_of,
};
use crate::models::Candidate;
use crate::number::{i64_text, int_text};
use crate::text::{
    contains_text, has_text, list_contains, lower, same_fold, same_ignoring_case, same_text, to_lower,
    trim, trimmed, views,
};

verus! {

/// How many bytes of an index are read.
pub const MAX_RECORDING_INDEX_BYTES: u64 = 67_108_864;

/// How many lines of an index are read.
pub const MAX_RECORDING_INDEX_ENTRIES: usize = 500_000;

/// A recording of a clip.
#[derive(Debug)]
pub struct RecordingEntry {
    pub recording_key: String,
    pub candidate_id: String,
    pub demo_signature: String,
    pub clip_start_tick: i64,
    pub clip_end_tick: i64,
    pub output_path: String,
    pub output_fingerprint: String,
    pub completed_utc: String,
}

/// A recording with its texts as sequences.
pub struct EntryModel {
    pub recording_key: Seq<char>,
    pub candidate_id: Seq<char>,
    pub demo_signature: Seq<char>,
    pub clip_start_tick: i64,
    pub clip_end_tick: i64,
    pub output_path: Seq<char>,
    pub output_fingerprint: Seq<char>,
    pub completed_utc: Seq<char>,
}

impl RecordingEntry {
    /// The recording with its texts as sequences.
    pub open spec fn model(&self) -> EntryModel {
        EntryModel {
            recording_key: self.recording_key@,
            candidate_id: self.candidate_id@,
            demo_signature: self.demo_signature@,
            clip_start_tick: self.clip_start_tick,
            clip_end_tick: self.clip_end_tick,
            output_path: self.output_path@,
            output_fingerprint: self.output_fingerprint@,
            completed_utc: self.completed_utc@,
        }
    }

    /// A copy.
    pub fn copy(&self) -> (out: RecordingEntry)
        ensures
            out.model() == self.model(),
    {
        RecordingEntry {
            recording_key: self.recording_key.clone(),
            candidate_id: self.candidate_id.clone(),
            demo_signature: self.demo_signature.clone(),
            clip_start_tick: self.clip_start_tick,
            clip_end_tick: self.clip_end_tick,
            output_path: self.output_path.clone(),
            output_fingerprint: self.output_fingerprint.clone(),
            completed_utc: self.completed_utc.clone(),
        }
    }
}

impl Default for RecordingEntry {
    fn default() -> (out: Self)
        ensures
            out.recording_key@ == Seq::<char>::empty(),
            out.candidate_id@ == Seq::<char>::empty(),
            out.demo_signature@ == Seq::<char>::empty(),
            out.clip_start_tick == 0,
            out.clip_end_tick == 0,
            out.output_path@ == Seq::<char>::empty(),
            out.output_fingerprint@ == Seq::<char>::empty(),
            out.completed_utc@ == Seq::<char>::empty(),
    {
        RecordingEntry {
            recording_key: String::new(),
            candidate_id: String::new(),
            demo_signature: String::new(),
            clip_start_tick: 0,
            clip_end_tick: 0,
            output_path: String::new(),
            output_fingerprint: String::new(),
            completed_utc: String::new(),
        }
    }
}

/// The recordings that a list holds.
pub open spec fn entry_models(entries: Seq<RecordingEntry>) -> Seq<EntryModel> {
    Seq::new(entries.len(), |i: int| entries[i].model())
}

/// The recording under a key.
pub open spec fn recorded(entries: Seq<EntryModel>, key: Seq<char>) -> Option<EntryModel>
    decreases entries.len(),
{
    if entries.len() == 0 {
        None
    } else if entries[0].recording_key == key {
        Some(entries[0])
    } else {
        recorded(entries.skip(1), key)
    }
}

/// Recordings with another: in the place of the one under its key, else at the
/// end.
pub open spec fn with_recording(entries: Seq<EntryModel>, entry: EntryModel) -> Seq<EntryModel>
    decreases entries.len(),
{
    if entries.len() == 0 {
        seq![entry]
    } else if entries[0].recording_key == entry.recording_key {
        seq![entry] + entries.skip(1)
    } else {
        seq![entries[0]] + with_recording(entries.skip(1), entry)
    }
}

/// A recording that is stored is found under its key, and no other changes.
pub proof fn law_stored_recording_is_found(
    entries: Seq<EntryModel>,
    entry: EntryModel,
    key: Seq<char>,
)
    ensures
        recorded(with_recording(entries, entry), key) == (if key == entry.recording_key {
            Some(entry)
        } else {
            recorded(entries, key)
        }),
    decreases entries.len(),
{
    reveal_with_fuel(recorded, 3);
    let out = with_recording(entries, entry);
    if entries.len() == 0 {
        assert(out.skip(1) =~= Seq::empty());
    } else if entries[0].recording_key == entry.recording_key {
        assert(out.skip(1) =~= entries.skip(1));
    } else {
        assert(out.skip(1) =~= with_recording(entries.skip(1), entry));
        law_stored_recording_is_found(entries.skip(1), entry, key);
    }
}

/// Whether no key occurs twice.
pub open spec fn distinct_keys(entries: Seq<EntryModel>) -> bool {
    forall|i: int, j: int|
        0 <= i < j < entries.len() ==> (#[trigger] entries[i]).recording_key != (
        #[trigger] entries[j]).recording_key
}

/// Storing a recording leaves no key twice.
pub proof fn law_keys_stay_distinct(entries: Seq<EntryModel>, entry: EntryModel)
    requires
        distinct_keys(entries),
    ensures
        distinct_keys(with_recording(entries, entry)),
{
    lemma_with_recording(entries, entry);
    let out = with_recording(entries, entry);
    assert forall|i: int, j: int| 0 <= i < j < out.len() implies (
    #[trigger] out[i]).recording_key != (#[trigger] out[j]).recording_key by {
        if i < entries.len() && j < entries.len() {
            assert(entries[i].recording_key != entries[j].recording_key);
        }
    }
}

proof fn lemma_with_recording(entries: Seq<EntryModel>, entry: EntryModel)
    ensures
        ({
            let out = with_recording(entries, entry);
            &&& entries.len() <= out.len() <= entries.len() + 1
            &&& forall|i: int|
                0 <= i < entries.len() ==> (#[trigger] out[i]).recording_key
                    == entries[i].recording_key
            &&& out.len() > entries.len() ==> out.last().recording_key == entry.recording_key
                && forall|i: int|
                0 <= i < entries.len() ==> (#[trigger] entries[i]).recording_key
                    != entry.recording_key
        }),
    decreases entries.len(),
{
    let out = with_recording(entries, entry);
    if entries.len() > 0 {
        let rest = entries.skip(1);
        if entries[0].recording_key == entry.recording_key {
            assert(out =~= entries.update(0, entry));
        } else {
            lemma_with_recording(rest, entry);
            let tail = with_recording(rest, entry);
            assert forall|i: int| 0 <= i < entries.len() implies (
            #[trigger] out[i]).recording_key == entries[i].recording_key by {
                if i > 0 {
                    assert(out[i] == tail[i - 1]);
                    assert(rest[i - 1] == entries[i]);
                }
            }
            if out.len() > entries.len() {
                assert(out.last() == tail.last());
                assert forall|i: int| 0 <= i < entries.len() implies (
                #[trigger] entries[i]).recording_key != entry.recording_key by {
                    if i > 0 {
                        assert(rest[i - 1] == entries[i]);
                    }
                }
            }
        }
    }
}

/// The recordings of all clips, and the file that they are kept in.
#[derive(Debug)]
pub struct RecordingIndex {
    pub path: String,
    pub entries: Vec<RecordingEntry>,
}

/// The recordings that lines of a file tell of, up to a number of lines; of two
/// under one key the later counts.
pub open spec fn loaded(lines: Seq<Option<RecordingEntry>>, upto: int) -> Seq<EntryModel>
    decreases upto,
{
    if upto <= 0 {
        Seq::empty()
    } else {
        let before = loaded(lines, upto - 1);
        match lines[upto - 1] {
            Some(entry) => with_recording(before, entry.model()),
            None => before,
        }
    }
}

/// Whether a clip was recorded under one of its keys, and the recording is still
/// there.
pub open spec fn still_recorded(
    entries: Seq<EntryModel>,
    keys: Seq<Seq<char>>,
    present: Seq<Seq<char>>,
) -> bool {
    exists|i: int|
        0 <= i < keys.len() && (recorded(entries, #[trigger] keys[i]) matches Some(entry)
            && present.contains(entry.output_path))
}

/// The recordings of a clip that are still there, each once.
pub open spec fn outputs_under(
    entries: Seq<EntryModel>,
    keys: Seq<Seq<char>>,
    present: Seq<Seq<char>>,
) -> Seq<Seq<char>>
    decreases keys.len(),
{
    if keys.len() == 0 {
        Seq::empty()
    } else {
        let before = outputs_under(entries, keys.drop_last(), present);
        match recorded(entries, keys.last()) {
            Some(entry) if present.contains(entry.output_path) && !before.contains(
                entry.output_path,
            ) => before.push(entry.output_path),
            _ => before,
        }
    }
}

/// What one index takes over from another: a recording that is there, where the
/// own one is not.
pub open spec fn merged_with(
    own: Seq<EntryModel>,
    other: Seq<EntryModel>,
    present: Seq<Seq<char>>,
) -> Seq<EntryModel>
    decreases other.len(),
{
    if other.len() == 0 {
        own
    } else {
        let before = merged_with(own, other.drop_last(), present);
        let entry = other.last();
        if !is_present(recorded(before, entry.recording_key), present) && present.contains(
            entry.output_path,
        ) {
            with_recording(before, entry)
        } else {
            before
        }
    }
}

/// Whether a recording is there.
pub open spec fn is_present(entry: Option<EntryModel>, present: Seq<Seq<char>>) -> bool {
    entry matches Some(entry) && present.contains(entry.output_path)
}

/// Merging loses no recording that is there, and every recording of the other
/// index that is there is found afterwards, under its key.
pub proof fn law_merging_keeps_recordings(
    own: Seq<EntryModel>,
    other: Seq<EntryModel>,
    present: Seq<Seq<char>>,
)
    ensures
        forall|key: Seq<char>|
            is_present(recorded(own, key), present) ==> #[trigger] recorded(
                merged_with(own, other, present),
                key,
            ) == recorded(own, key),
        forall|i: int|
            0 <= i < other.len() && present.contains((#[trigger] other[i]).output_path)
                ==> is_present(
                recorded(merged_with(own, other, present), other[i].recording_key),
                present,
            ),
    decreases other.len(),
{
    if other.len() > 0 {
        let rest = other.drop_last();
        law_merging_keeps_recordings(own, rest, present);
        let before = merged_with(own, rest, present);
        let after = merged_with(own, other, present);
        let entry = other.last();
        assert forall|key: Seq<char>| is_present(recorded(own, key), present) implies
            #[trigger] recorded(after, key) == recorded(own, key) by {
            assert(recorded(before, key) == recorded(own, key));
            law_stored_recording_is_found(before, entry, key);
        }
        assert forall|i: int|
            0 <= i < other.len() && present.contains((#[trigger] other[i]).output_path) implies
            is_present(recorded(after, other[i].recording_key), present) by {
            law_stored_recording_is_found(before, entry, other[i].recording_key);
            if i < rest.len() {
                assert(rest[i] == other[i]);
                assert(is_present(recorded(before, rest[i].recording_key), present));
            }
        }
    }
}

/// An output that was found, with a fingerprint of what it holds; the fingerprint
/// is empty where it could not be taken.
#[derive(Debug)]
pub struct FoundOutput {
    pub path: String,
    pub name: Option<String>,
    pub parent_name: Option<String>,
    pub fingerprint: String,
}

/// The first output with a fingerprint.
pub open spec fn output_with(outputs: Seq<FoundOutput>, fingerprint: Seq<char>) -> Option<int>
    decreases outputs.len(),
{
    if outputs.len() == 0 {
        None
    } else {
        match output_with(outputs.drop_last(), fingerprint) {
            Some(i) => Some(i),
            None => if outputs.last().fingerprint@ == fingerprint {
                Some(outputs.len() - 1)
            } else {
                None
            },
        }
    }
}

/// Whether a recording is gone, but can be known again.
pub open spec fn is_missing(entry: EntryModel, present: Seq<Seq<char>>) -> bool {
    entry.output_fingerprint.len() > 0 && !present.contains(entry.output_path)
}

/// A recording, at its new place where it was moved.
pub open spec fn relocated(
    entry: EntryModel,
    outputs: Seq<FoundOutput>,
    present: Seq<Seq<char>>,
) -> EntryModel {
    match output_with(outputs, entry.output_fingerprint) {
        Some(i) if is_missing(entry, present) => EntryModel {
            output_path: outputs[i].path@,
            ..entry
        },
        _ => entry,
    }
}

proof fn lemma_output_with(outputs: Seq<FoundOutput>, fingerprint: Seq<char>)
    ensures
        match output_with(outputs, fingerprint) {
            Some(i) => 0 <= i < outputs.len() && outputs[i].fingerprint@ == fingerprint,
            None => forall|i: int|
                0 <= i < outputs.len() ==> (#[trigger] outputs[i]).fingerprint@ != fingerprint,
        },
    decreases outputs.len(),
{
    if outputs.len() > 0 {
        let rest = outputs.drop_last();
        lemma_output_with(rest, fingerprint);
        if output_with(outputs, fingerprint) is None {
            assert forall|i: int| 0 <= i < outputs.len() implies (
            #[trigger] outputs[i]).fingerprint@ != fingerprint by {
                if i < rest.len() {
                    assert(rest[i] == outputs[i]);
                }
            }
        }
    }
}

/// A recording that was moved or renamed is followed by what it holds; one that is
/// where it was is left alone; and nothing else about a recording changes.
pub proof fn law_moved_recordings_are_followed(
    entry: EntryModel,
    outputs: Seq<FoundOutput>,
    present: Seq<Seq<char>>,
)
    ensures
        ({
            let now = relocated(entry, outputs, present);
            &&& now == (EntryModel { output_path: now.output_path, ..entry })
            &&& !is_missing(entry, present) ==> now == entry
            &&& forall|k: int|
                0 <= k < outputs.len() && (#[trigger] outputs[k]).fingerprint@
                    == entry.output_fingerprint && is_missing(entry, present) ==> exists|i: int|
                    0 <= i < outputs.len() && now.output_path == (#[trigger] outputs[i]).path@
                        && outputs[i].fingerprint@ == entry.output_fingerprint
        }),
{
    lemma_output_with(outputs, entry.output_fingerprint);
}

/// What is recorded of a candidate's clip.
pub open spec fn entry_for(
    candidate: Candidate,
    key: Seq<char>,
    signature: Seq<char>,
    output: Seq<char>,
    fingerprint: Seq<char>,
    time: Seq<char>,
) -> EntryModel {
    EntryModel {
        recording_key: key,
        candidate_id: candidate.candidate_id@,
        demo_signature: signature,
        clip_start_tick: candidate.clip_start_tick,
        clip_end_tick: candidate.clip_end_tick,
        output_path: output,
        output_fingerprint: fingerprint,
        completed_utc: time,
    }
}

impl RecordingIndex {
    /// The recordings of the index.
    pub open spec fn model(&self) -> Seq<EntryModel> {
        entry_models(self.entries@)
    }

    /// Whether every key has one recording.
    pub open spec fn well_formed(&self) -> bool {
        distinct_keys(self.model())
    }

    /// An index without recordings, kept in a file.
    pub fn empty(path: &str) -> (out: RecordingIndex)
        ensures
            out.well_formed(),
            out.path@ == path@,
            out.model() == Seq::<EntryModel>::empty(),
    {
        let out = RecordingIndex { path: path.to_owned(), entries: Vec::new() };
        assert(out.model() =~= Seq::empty());
        out
    }

    /// The index that the lines of a file tell of; lines that tell of no recording
    /// are passed over, but count.
    pub fn load(path: &str, lines: &Vec<Option<RecordingEntry>>, max_entries: usize) -> (out:
        RecordingIndex)
        ensures
            out.well_formed(),
            out.path@ == path@,
            out.model() == loaded(
                lines@,
                if lines.len() < max_entries {
                    lines.len() as int
                } else {
                    max_entries as int
                },
            ),
    {
        let mut out = RecordingIndex::empty(path);
        let count: usize = if lines.len() < max_entries {
            lines.len()
        } else {
            max_entries
        };
        let mut i: usize = 0;
        while i < count
            invariant
                i <= count <= lines.len(),
                out.well_formed(),
                out.path@ == path@,
                out.model() == loaded(lines@, i as int),
            decreases count - i,
        {
            if let Some(entry) = &lines[i] {
                out.put(entry.copy());
            }
            i += 1;
        }
        out
    }

    fn find(&self, key: &str) -> (out: Option<usize>)
        ensures
            match out {
                Some(at) => at < self.entries.len() && recorded(self.model(), key@) == Some(
                    self.entries@[at as int].model(),
                ) && forall|entry: EntryModel|
                    entry.recording_key == key@ ==> #[trigger] with_recording(self.model(), entry)
                        == self.model().update(at as int, entry),
                None => recorded(self.model(), key@) is None && forall|entry: EntryModel|
                    entry.recording_key == key@ ==> #[trigger] with_recording(self.model(), entry)
                        == self.model().push(entry),
            },
    {
        let mut i: usize = 0;
        while i < self.entries.len()
            invariant
                i <= self.entries.len(),
                forall|k: int|
                    0 <= k < i ==> (#[trigger] self.entries@[k]).recording_key@ != key@,
            decreases self.entries.len() - i,
        {
            if same_text(self.entries[i].recording_key.as_str(), key) {
                proof {
                    let all = self.model();
                    assert forall|k: int| 0 <= k < i implies (#[trigger] all[k]).recording_key
                        != key@ by {
                        assert(self.entries@[k].recording_key@ != key@);
                    }
                    lemma_recorded_at(all, key@, i as int);
                }
                return Some(i);
            }
            i += 1;
        }
        proof {
            let all = self.model();
            assert forall|k: int| 0 <= k < all.len() implies (#[trigger] all[k]).recording_key
                != key@ by {
                assert(self.entries@[k].recording_key@ != key@);
            }
            lemma_not_recorded(all, key@);
        }
        None
    }

    fn put(&mut self, entry: RecordingEntry)
        ensures
            old(self).well_formed() ==> final(self).well_formed(),
            final(self).path == old(self).path,
            final(self).model() == with_recording(old(self).model(), entry.model()),
    {
        let ghost before = self.model();
        proof {
            if distinct_keys(before) {
                law_keys_stay_distinct(before, entry.model());
            }
        }
        let found = self.find(entry.recording_key.as_str());
        match found {
            Some(at) => {
                self.entries.set(at, entry);
                assert(self.model() =~= before.update(at as int, entry.model()));
            },
            None => {
                self.entries.push(entry);
                assert(self.model() =~= before.push(entry.model()));
            },
        }
    }

    /// The recording under a key.
    pub fn get(&self, key: &str) -> (out: Option<&RecordingEntry>)
        ensures
            match out {
                Some(entry) => recorded(self.model(), key@) == Some(entry.model()),
                None => recorded(self.model(), key@) is None,
            },
    {
        match self.find(key) {
            Some(at) => Some(&self.entries[at]),
            None => None,
        }
    }

    /// Whether a clip was recorded, under one of its keys, and the recording is
    /// among the outputs that are still there.
    pub fn is_recorded_indexed(&self, keys: &Vec<String>, present: &Vec<String>) -> (r: bool)
        ensures
            r == still_recorded(self.model(), views(keys@), views(present@)),
    {
        let mut i: usize = 0;
        while i < keys.len()
            invariant
                i <= keys.len(),
                forall|k: int|
                    0 <= k < i ==> !is_present(
                        recorded(self.model(), #[trigger] views(keys@)[k]),
                        views(present@),
                    ),
            decreases keys.len() - i,
        {
            assert(views(keys@)[i as int] == keys@[i as int]@);
            if let Some(entry) = self.get(keys[i].as_str()) {
                if list_contains(present, entry.output_path.as_str()) {
                    return true;
                }
            }
            i += 1;
        }
        false
    }

    /// The recordings of a clip that are still there.
    pub fn existing_outputs(&self, keys: &Vec<String>, present: &Vec<String>) -> (out: Vec<String>)
        ensures
            views(out@) == outputs_under(self.model(), views(keys@), views(present@)),
    {
        let ghost all = views(keys@);
        let mut out: Vec<String> = Vec::new();
        let mut i: usize = 0;
        assert(views(out@) =~= outputs_under(self.model(), all.take(0), views(present@)));
        while i < keys.len()
            invariant
                i <= keys.len(),
                all == views(keys@),
                views(out@) == outputs_under(self.model(), all.take(i as int), views(present@)),
            decreases keys.len() - i,
        {
            proof {
                assert(all.take(i + 1).drop_last() =~= all.take(i as int));
                assert(all.take(i + 1).last() == keys@[i as int]@);
            }
            if let Some(entry) = self.get(keys[i].as_str()) {
                let path = entry.output_path.as_str();
                if list_contains(present, path) && !list_contains(&out, path) {
                    let ghost before = views(out@);
                    out.push(path.to_owned());
                    assert(views(out@) =~= before.push(path@));
                }
            }
            i += 1;
        }
        assert(all.take(keys.len() as int) =~= all);
        out
    }

    /// Stores a recording.
    pub fn store_entry(&mut self, entry: RecordingEntry)
        ensures
            old(self).well_formed() ==> final(self).well_formed(),
            final(self).path == old(self).path,
            final(self).model() == with_recording(old(self).model(), entry.model()),
    {
        self.put(entry);
    }

    /// Stores a recording of a candidate, and gives what was stored.
    pub fn register(
        &mut self,
        candidate: &Candidate,
        key: String,
        signature: String,
        output: String,
        fingerprint: String,
        time: String,
    ) -> (out: RecordingEntry)
        ensures
            final(self).path == old(self).path,
            old(self).well_formed() ==> final(self).well_formed(),
            out.model() == entry_for(
                *candidate,
                key@,
                signature@,
                output@,
                fingerprint@,
                time@,
            ),
            final(self).model() == with_recording(old(self).model(), out.model()),
    {
        let entry = RecordingEntry {
            recording_key: key,
            candidate_id: candidate.candidate_id.clone(),
            demo_signature: signature,
            clip_start_tick: candidate.clip_start_tick,
            clip_end_tick: candidate.clip_end_tick,
            output_path: output,
            output_fingerprint: fingerprint,
            completed_utc: time,
        };
        let copy = entry.copy();
        self.put(entry);
        copy
    }

    /// Stores a recording of a clip that was recovered; refuses one without a key.
    pub fn register_recovered(&mut self, entry: RecordingEntry) -> (out: Result<(), String>)
        ensures
            old(self).well_formed() ==> final(self).well_formed(),
            final(self).path == old(self).path,
            match out {
                Ok(_) => trimmed(entry.recording_key@).len() > 0 && final(self).model()
                    == with_recording(old(self).model(), entry.model()),
                Err(words) => trimmed(entry.recording_key@).len() == 0 && words@
                    == "the retained clip has no recording key"@ && final(self).model() == old(
                    self,
                ).model(),
            },
    {
        if trim(entry.recording_key.as_str()).as_str().is_empty() {
            return Err("the retained clip has no recording key".to_owned());
        }
        self.put(entry);
        Ok(())
    }

    /// Takes over the recordings of another index that are there, where the own
    /// ones are not.
    pub fn merge_missing_entries(&mut self, other: &RecordingIndex, present: &Vec<String>)
        ensures
            old(self).well_formed() ==> final(self).well_formed(),
            final(self).path == old(self).path,
            final(self).model() == merged_with(
                old(self).model(),
                other.model(),
                views(present@),
            ),
    {
        let ghost start = self.model();
        let ghost all = other.model();
        let mut i: usize = 0;
        while i < other.entries.len()
            invariant
                i <= other.entries.len(),
                all == other.model(),
                old(self).well_formed() ==> self.well_formed(),
                self.path == old(self).path,
                self.model() == merged_with(start, all.take(i as int), views(present@)),
            decreases other.entries.len() - i,
        {
            let entry = &other.entries[i];
            proof {
                assert(all.take(i + 1).drop_last() =~= all.take(i as int));
                assert(all.take(i + 1).last() == entry.model());
            }
            let own_there = match self.get(entry.recording_key.as_str()) {
                Some(own) => list_contains(present, own.output_path.as_str()),
                None => false,
            };
            if !own_there && list_contains(present, entry.output_path.as_str()) {
                self.put(entry.copy());
            }
            i += 1;
        }
        assert(all.take(other.entries.len() as int) =~= all);
    }

    /// Whether any recording is gone that could be known again.
    pub fn has_missing(&self, present: &Vec<String>) -> (r: bool)
        ensures
            r == exists|i: int|
                0 <= i < self.model().len() && is_missing(
                    #[trigger] self.model()[i],
                    views(present@),
                ),
    {
        let mut i: usize = 0;
        while i < self.entries.len()
            invariant
                i <= self.entries.len(),
                forall|k: int|
                    0 <= k < i ==> !is_missing(#[trigger] self.model()[k], views(present@)),
            decreases self.entries.len() - i,
        {
            let entry = &self.entries[i];
            assert(self.model()[i as int] == entry.model());
            if !entry.output_fingerprint.as_str().is_empty() && !list_contains(
                present,
                entry.output_path.as_str(),
            ) {
                assert(is_missing(self.model()[i as int], views(present@)));
                return true;
            }
            i += 1;
        }
        false
    }

    /// Follows recordings that were moved: one that is gone is looked for among
    /// outputs by what it holds. Gives the recordings that were found, by
    /// position.
    pub fn relocate(&mut self, outputs: &Vec<FoundOutput>, present: &Vec<String>) -> (out: Vec<
        usize,
    >)
        ensures
            final(self).path == old(self).path,
            old(self).well_formed() ==> final(self).well_formed(),
            final(self).model() == Seq::new(
                old(self).model().len(),
                |i: int| relocated(old(self).model()[i], outputs@, views(present@)),
            ),
            forall|k: int| 0 <= k < out.len() ==> #[trigger] out@[k] < final(self).entries.len(),
            forall|i: int|
                0 <= i < old(self).model().len() ==> (out@.contains(i as usize) <==> is_missing(
                    #[trigger] old(self).model()[i],
                    views(present@),
                ) && output_with(outputs@, old(self).model()[i].output_fingerprint) is Some),
    {
        let ghost start = self.model();
        let ghost there = views(present@);
        let mut moved: Vec<usize> = Vec::new();
        let mut i: usize = 0;
        while i < self.entries.len()
            invariant
                i <= self.entries.len(),
                self.entries.len() == start.len(),
                there == views(present@),
                self.path == old(self).path,
                forall|k: int|
                    0 <= k < i ==> #[trigger] self.model()[k] == relocated(
                        start[k],
                        outputs@,
                        there,
                    ),
                forall|k: int| i <= k < start.len() ==> #[trigger] self.model()[k] == start[k],
                forall|k: int| 0 <= k < moved.len() ==> #[trigger] moved@[k] < i,
                forall|k: int|
                    0 <= k < i ==> (moved@.contains(k as usize) <==> is_missing(
                        #[trigger] start[k],
                        there,
                    ) && output_with(outputs@, start[k].output_fingerprint) is Some),
            decreases self.entries.len() - i,
        {
            let ghost before = self.model();
            let ghost known = moved@;
            assert(before[i as int] == start[i as int]);
            assert(before[i as int] == self.entries@[i as int].model());
            let gone = !self.entries[i].output_fingerprint.as_str().is_empty() && !list_contains(
                present,
                self.entries[i].output_path.as_str(),
            );
            let mut placed = false;
            if gone {
                if let Some(at) = find_output(
                    outputs,
                    self.entries[i].output_fingerprint.as_str(),
                ) {
                    self.entries[i].output_path = outputs[at].path.clone();
                    moved.push(i);
                    placed = true;
                }
            }
            proof {
                assert(self.model() =~= before.update(i as int, self.model()[i as int]));
                assert forall|k: int| 0 <= k < i + 1 implies (moved@.contains(k as usize)
                    <==> is_missing(#[trigger] start[k], there) && output_with(
                    outputs@,
                    start[k].output_fingerprint,
                ) is Some) by {
                    if k < i {
                        if known.contains(k as usize) {
                            let m = choose|m: int| 0 <= m < known.len() && known[m] == k as usize;
                            assert(moved@[m] == k as usize);
                        }
                        if moved@.contains(k as usize) {
                            let m = choose|m: int| 0 <= m < moved@.len() && moved@[m] == k as usize;
                            assert(m < known.len());
                            assert(known[m] == k as usize);
                        }
                    } else {
                        if placed {
                            assert(moved@[known.len() as int] == i);
                        } else if moved@.contains(i) {
                            let m = choose|m: int| 0 <= m < moved@.len() && moved@[m] == i;
                            assert(moved@[m] < i);
                        }
                    }
                }
            }
            i += 1;
        }
        assert(self.model() =~= Seq::new(
            start.len(),
            |i: int| relocated(start[i], outputs@, there),
        ));
        moved
    }
}

fn find_output(outputs: &Vec<FoundOutput>, fingerprint: &str) -> (out: Option<usize>)
    ensures
        match out {
            Some(at) => at < outputs.len() && output_with(outputs@, fingerprint@) == Some(
                at as int,
            ),
            None => output_with(outputs@, fingerprint@) is None,
        },
{
    let mut found: Option<usize> = None;
    let mut i: usize = 0;
    while i < outputs.len()
        invariant
            i <= outputs.len(),
            match found {
                Some(at) => at < i && output_with(outputs@.take(i as int), fingerprint@) == Some(
                    at as int,
                ),
                None => output_with(outputs@.take(i as int), fingerprint@) is None,
            },
        decreases outputs.len() - i,
    {
        proof {
            assert(outputs@.take(i + 1).drop_last() =~= outputs@.take(i as int));
            assert(outputs@.take(i + 1).last() == outputs@[i as int]);
        }
        if found.is_none() && same_text(outputs[i].fingerprint.as_str(), fingerprint) {
            found = Some(i);
        }
        i += 1;
    }
    assert(outputs@.take(outputs.len() as int) =~= outputs@);
    found
}

proof fn lemma_recorded_at(entries: Seq<EntryModel>, key: Seq<char>, at: int)
    requires
        0 <= at < entries.len(),
        entries[at].recording_key == key,
        forall|k: int| 0 <= k < at ==> (#[trigger] entries[k]).recording_key != key,
    ensures
        recorded(entries, key) == Some(entries[at]),
        forall|entry: EntryModel|
            entry.recording_key == key ==> #[trigger] with_recording(entries, entry)
                == entries.update(at, entry),
    decreases entries.len(),
{
    if at == 0 {
        assert forall|entry: EntryModel| entry.recording_key == key implies
            #[trigger] with_recording(entries, entry) == entries.update(at, entry) by {
            assert(seq![entry] + entries.skip(1) =~= entries.update(0, entry));
        }
    } else {
        let rest = entries.skip(1);
        assert(forall|k: int| 0 <= k < rest.len() ==> #[trigger] rest[k] == entries[k + 1]);
        assert(entries[0].recording_key != key);
        lemma_recorded_at(rest, key, at - 1);
        assert forall|entry: EntryModel| entry.recording_key == key implies
            #[trigger] with_recording(entries, entry) == entries.update(at, entry) by {
            assert(with_recording(rest, entry) == rest.update(at - 1, entry));
            assert(seq![entries[0]] + rest.update(at - 1, entry) =~= entries.update(at, entry));
        }
    }
}

proof fn lemma_not_recorded(entries: Seq<EntryModel>, key: Seq<char>)
    requires
        forall|k: int| 0 <= k < entries.len() ==> (#[trigger] entries[k]).recording_key != key,
    ensures
        recorded(entries, key) is None,
        forall|entry: EntryModel|
            entry.recording_key == key ==> #[trigger] with_recording(entries, entry)
                == entries.push(entry),
    decreases entries.len(),
{
    if entries.len() == 0 {
        assert forall|entry: EntryModel| entry.recording_key == key implies
            #[trigger] with_recording(entries, entry) == entries.push(entry) by {
            assert(seq![entry] =~= entries.push(entry));
        }
    } else {
        let rest = entries.skip(1);
        assert(forall|k: int| 0 <= k < rest.len() ==> #[trigger] rest[k] == entries[k + 1]);
        assert(entries[0].recording_key != key);
        lemma_not_recorded(rest, key);
        assert forall|entry: EntryModel| entry.recording_key == key implies
            #[trigger] with_recording(entries, entry) == entries.push(entry) by {
            assert(with_recording(rest, entry) == rest.push(entry));
            assert(seq![entries[0]] + rest.push(entry) =~= entries.push(entry));
        }
    }
}

// ---------------------------------------------------------------------------
// Outputs that are in no index
// ---------------------------------------------------------------------------

/// Whether the name of an output, in lower case, is one for a clip: it holds the
/// token of the clip's key, or the name and the ticks of the candidate.
pub open spec fn names_clip(
    name: Seq<char>,
    token: Seq<char>,
    lowered_id: Seq<char>,
    ticks: Seq<char>,
) -> bool {
    has_text(name, "__k"@ + token) || (has_text(name, lowered_id) && has_text(name, ticks))
}

/// The ticks of a candidate's clip, as they stand in names.
pub open spec fn ticks_in_name(candidate: Candidate) -> Seq<char> {
    "t"@ + int_text(candidate.clip_start_tick as int) + "-"@ + int_text(
        candidate.clip_end_tick as int,
    )
}

/// The first output that is one for a clip.
pub open spec fn first_named(
    names: Seq<Seq<char>>,
    token: Seq<char>,
    lowered_id: Seq<char>,
    ticks: Seq<char>,
) -> Option<int>
    decreases names.len(),
{
    if names.len() == 0 {
        None
    } else {
        match first_named(names.drop_last(), token, lowered_id, ticks) {
            Some(i) => Some(i),
            None => if names_clip(names.last(), token, lowered_id, ticks) {
                Some(names.len() - 1)
            } else {
                None
            },
        }
    }
}

/// The first output that is one for a clip, where the name of the candidate is
/// known in lower case.
pub fn find_named(names: &Vec<String>, token: &str, lowered_id: &str, candidate: &Candidate) -> (out:
    Option<usize>)
    ensures
        match out {
            Some(at) => at < names.len() && first_named(
                views(names@),
                token@,
                lowered_id@,
                ticks_in_name(*candidate),
            ) == Some(at as int),
            None => first_named(views(names@), token@, lowered_id@, ticks_in_name(*candidate))
                is None,
        },
{
    let mut mark = "__k".to_owned();
    mark.append(token);
    let mut ticks = "t".to_owned();
    ticks.append(i64_text(candidate.clip_start_tick).as_str());
    ticks.append("-");
    ticks.append(i64_text(candidate.clip_end_tick).as_str());
    let ghost all = views(names@);
    let mut found: Option<usize> = None;
    let mut i: usize = 0;
    while i < names.len()
        invariant
            i <= names.len(),
            all == views(names@),
            mark@ == "__k"@ + token@,
            ticks@ == ticks_in_name(*candidate),
            match found {
                Some(at) => at < i && first_named(
                    all.take(i as int),
                    token@,
                    lowered_id@,
                    ticks@,
                ) == Some(at as int),
                None => first_named(all.take(i as int), token@, lowered_id@, ticks@) is None,
            },
        decreases names.len() - i,
    {
        proof {
            assert(all.take(i + 1).drop_last() =~= all.take(i as int));
            assert(all.take(i + 1).last() == names@[i as int]@);
        }
        let name = names[i].as_str();
        if found.is_none() && (contains_text(name, mark.as_str()) || (contains_text(
            name,
            lowered_id,
        ) && contains_text(name, ticks.as_str()))) {
            found = Some(i);
        }
        i += 1;
    }
    assert(all.take(names.len() as int) =~= all);
    found
}

/// The first output, by its name in lower case, that is one for a candidate's
/// clip.
pub fn match_output(names: &Vec<String>, token: &str, candidate: &Candidate) -> (out: Option<usize>)
    ensures
        match out {
            Some(at) => at < names.len() && first_named(
                views(names@),
                token@,
                unicode_lower(sanitized(candidate.candidate_id@)),
                ticks_in_name(*candidate),
            ) == Some(at as int),
            None => first_named(
                views(names@),
                token@,
                unicode_lower(sanitized(candidate.candidate_id@)),
                ticks_in_name(*candidate),
            ) is None,
        },
{
    let lowered = to_lowercase(sanitize(candidate.candidate_id.as_str()).as_str());
    find_named(names, token, lowered.as_str(), candidate)
}

/// The name by which an output is known: that of the folder above for the frames
/// of an image sequence, in lower case.
pub open spec fn output_name(output: FoundOutput) -> Seq<char> {
    let own = match output.name {
        Some(name) => name@,
        None => Seq::empty(),
    };
    let above = match output.parent_name {
        Some(name) => name@,
        None => Seq::empty(),
    };
    if output.name is Some && same_fold(own, "Frames"@) {
        lower(above)
    } else {
        lower(own)
    }
}

/// The names by which outputs are known.
pub open spec fn output_names(outputs: Seq<FoundOutput>) -> Seq<Seq<char>> {
    Seq::new(outputs.len(), |i: int| output_name(outputs[i]))
}

/// The name by which an output is known.
pub fn recording_output_name(output: &FoundOutput) -> (out: String)
    ensures
        out@ == output_name(*output),
{
    proof {
        assert(lower(Seq::empty()) =~= Seq::empty());
    }
    let named = match &output.name {
        Some(name) => if same_ignoring_case(name.as_str(), "Frames") {
            &output.parent_name
        } else {
            &output.name
        },
        None => &output.name,
    };
    match named {
        Some(name) => to_lower(name.as_str()),
        None => {
            let out = String::new();
            assert(out@ =~= Seq::empty());
            out
        },
    }
}

fn list_output_names(outputs: &Vec<FoundOutput>) -> (out: Vec<String>)
    ensures
        views(out@) == output_names(outputs@),
{
    let ghost all = output_names(outputs@);
    let mut out: Vec<String> = Vec::new();
    let mut i: usize = 0;
    assert(views(out@) =~= all.take(0));
    while i < outputs.len()
        invariant
            i <= outputs.len(),
            all == output_names(outputs@),
            views(out@) == all.take(i as int),
        decreases outputs.len() - i,
    {
        let ghost before = views(out@);
        out.push(recording_output_name(&outputs[i]));
        proof {
            assert(views(out@) =~= before.push(all[i as int]));
            assert(all.take(i + 1) =~= all.take(i as int).push(all[i as int]));
        }
        i += 1;
    }
    assert(all.take(outputs.len() as int) =~= all);
    out
}

/// What the demo of a candidate is known by, as far as it can be read.
#[derive(Debug)]
pub struct DemoMarks {
    pub portable: Option<String>,
    pub legacy: Option<String>,
}

/// The keys that a clip may be recorded under.
pub open spec fn keys_of(candidate: Candidate, marks: DemoMarks) -> Seq<Seq<char>> {
    let newer = match marks.portable {
        Some(demo) => seq![key_of(candidate, demo@)],
        None => Seq::empty(),
    };
    match marks.legacy {
        Some(demo) => newer.push(legacy_key_of(candidate, demo@)),
        None => newer,
    }
}

/// The keys that a clip may be recorded under.
pub fn recording_keys(candidate: &Candidate, marks: &DemoMarks) -> (out: Vec<String>)
    ensures
        views(out@) == keys_of(*candidate, *marks),
{
    let mut out: Vec<String> = Vec::new();
    if let Some(demo) = &marks.portable {
        out.push(recording_key(candidate, demo.as_str()));
    }
    if let Some(demo) = &marks.legacy {
        out.push(legacy_recording_key(candidate, demo.as_str()));
    }
    assert(views(out@) =~= keys_of(*candidate, *marks));
    out
}

/// The output that a candidate was found to be recorded in, where it is not known
/// to be recorded.
pub open spec fn found_for(
    entries: Seq<EntryModel>,
    candidate: Candidate,
    marks: DemoMarks,
    outputs: Seq<FoundOutput>,
    present: Seq<Seq<char>>,
) -> Option<int> {
    match marks.portable {
        Some(demo) if !still_recorded(entries, keys_of(candidate, marks), present) => first_named(
            output_names(outputs),
            token_of(key_of(candidate, demo@)),
            unicode_lower(sanitized(candidate.candidate_id@)),
            ticks_in_name(candidate),
        ),
        _ => None,
    }
}

/// The recordings that are found among outputs for the first candidates of a list.
pub open spec fn found_recordings(
    entries: Seq<EntryModel>,
    candidates: Seq<Candidate>,
    marks: Seq<DemoMarks>,
    outputs: Seq<FoundOutput>,
    present: Seq<Seq<char>>,
    time: Seq<char>,
    upto: int,
) -> Seq<EntryModel>
    decreases upto,
{
    if upto <= 0 {
        Seq::empty()
    } else {
        let before = found_recordings(
            entries,
            candidates,
            marks,
            outputs,
            present,
            time,
            upto - 1,
        );
        let candidate = candidates[upto - 1];
        match found_for(
            with_recordings(entries, before),
            candidate,
            marks[upto - 1],
            outputs,
            present,
        ) {
            Some(at) => before.push(
                entry_for(
                    candidate,
                    key_of(candidate, marks[upto - 1].portable->0@),
                    marks[upto - 1].portable->0@,
                    outputs[at].path@,
                    outputs[at].fingerprint@,
                    time,
                ),
            ),
            None => before,
        }
    }
}

/// Recordings with others, one after the other.
pub open spec fn with_recordings(entries: Seq<EntryModel>, more: Seq<EntryModel>) -> Seq<EntryModel>
    decreases more.len(),
{
    if more.len() == 0 {
        entries
    } else {
        with_recording(with_recordings(entries, more.drop_last()), more.last())
    }
}

impl RecordingIndex {
    fn find_recording(
        &self,
        candidate: &Candidate,
        marks: &DemoMarks,
        outputs: &Vec<FoundOutput>,
        names: &Vec<String>,
        present: &Vec<String>,
    ) -> (out: Option<usize>)
        requires
            views(names@) == output_names(outputs@),
        ensures
            match out {
                Some(at) => at < outputs.len() && found_for(
                    self.model(),
                    *candidate,
                    *marks,
                    outputs@,
                    views(present@),
                ) == Some(at as int),
                None => found_for(self.model(), *candidate, *marks, outputs@, views(present@)) is None,
            },
    {
        let keys = recording_keys(candidate, marks);
        if self.is_recorded_indexed(&keys, present) {
            return None;
        }
        match &marks.portable {
            Some(demo) => {
                let key = recording_key(candidate, demo.as_str());
                let found = match_output(names, recording_key_token(key.as_str()), candidate);
                assert(names.len() == views(names@).len());
                assert(outputs.len() == output_names(outputs@).len());
                found
            },
            None => None,
        }
    }

    /// Looks for the recordings of candidates among outputs, by their names, and
    /// follows recordings that were moved. Gives the recordings that were found,
    /// and the positions of those that were moved.
    pub fn reconcile_output_root(
        &mut self,
        candidates: &Vec<Candidate>,
        marks: &Vec<DemoMarks>,
        outputs: &Vec<FoundOutput>,
        present: &Vec<String>,
        time: &str,
    ) -> (out: (Vec<RecordingEntry>, Vec<usize>))
        requires
            marks.len() == candidates.len(),
        ensures
            old(self).well_formed() ==> final(self).well_formed(),
            final(self).path == old(self).path,
            entry_models(out.0@) == found_recordings(
                old(self).model(),
                candidates@,
                marks@,
                outputs@,
                views(present@),
                time@,
                candidates.len() as int,
            ),
            final(self).model() == Seq::new(
                with_recordings(old(self).model(), entry_models(out.0@)).len(),
                |i: int|
                    relocated(
                        with_recordings(old(self).model(), entry_models(out.0@))[i],
                        outputs@,
                        views(present@),
                    ),
            ),
            forall|k: int| 0 <= k < out.1.len() ==> #[trigger] out.1@[k] < final(self).entries.len(),
            forall|i: int|
                0 <= i < final(self).entries.len() ==> (out.1@.contains(i as usize) <==> is_missing(
                    #[trigger] with_recordings(old(self).model(), entry_models(out.0@))[i],
                    views(present@),
                ) && output_with(
                    outputs@,
                    with_recordings(
                        old(self).model(),
                        entry_models(out.0@),
                    )[i].output_fingerprint,
                ) is Some),
    {
        let names = list_output_names(outputs);
        let ghost start = self.model();
        let ghost there = views(present@);
        let mut fresh: Vec<RecordingEntry> = Vec::new();
        let mut i: usize = 0;
        assert(entry_models(fresh@) =~= Seq::empty());
        while i < candidates.len()
            invariant
                i <= candidates.len(),
                marks.len() == candidates.len(),
                views(names@) == output_names(outputs@),
                there == views(present@),
                old(self).well_formed() ==> self.well_formed(),
                self.path == old(self).path,
                entry_models(fresh@) == found_recordings(
                    start,
                    candidates@,
                    marks@,
                    outputs@,
                    there,
                    time@,
                    i as int,
                ),
                self.model() == with_recordings(start, entry_models(fresh@)),
            decreases candidates.len() - i,
        {
            let candidate = &candidates[i];
            let ghost before = entry_models(fresh@);
            let found = self.find_recording(candidate, &marks[i], outputs, &names, present);
            if let Some(at) = found {
                if let Some(demo) = &marks[i].portable {
                    let entry = self.register(
                        candidate,
                        recording_key(candidate, demo.as_str()),
                        demo.clone(),
                        outputs[at].path.clone(),
                        outputs[at].fingerprint.clone(),
                        time.to_owned(),
                    );
                    let ghost model = entry.model();
                    fresh.push(entry);
                    proof {
                        assert(entry_models(fresh@) =~= before.push(model));
                        assert(before.push(model).drop_last() =~= before);
                    }
                }
            }
            i += 1;
        }
        let ghost known = self.model();
        let moved = self.relocate(outputs, present);
        proof {
            assert(self.model().len() == known.len());
            assert(self.entries.len() == known.len());
        }
        (fresh, moved)
    }
}

/// The recordings of a clip are those under one of its keys that are still there, each
/// once.
pub proof fn law_outputs_are_those_present(
    entries: Seq<EntryModel>,
    keys: Seq<Seq<char>>,
    present: Seq<Seq<char>>,
    path: Seq<char>,
)
    ensures
        outputs_under(entries, keys, present).contains(path) <==> present.contains(path)
            && exists|i: int|
            0 <= i < keys.len() && (recorded(entries, #[trigger] keys[i]) matches Some(entry)
                && entry.output_path == path),
        outputs_under(entries, keys, present).no_duplicates(),
        still_recorded(entries, keys, present) <==> outputs_under(entries, keys, present).len() > 0,
    decreases keys.len(),
{
    let all = outputs_under(entries, keys, present);
    if keys.len() > 0 {
        let rest = keys.drop_last();
        let last = keys.len() - 1;
        let known = outputs_under(entries, rest, present);
        law_outputs_are_those_present(entries, rest, present, path);
        assert(keys[last] == keys.last());
        assert forall|i: int| 0 <= i < last implies #[trigger] keys[i] == rest[i] by {
        }
        if known.contains(path) {
            let k = choose|k: int| 0 <= k < known.len() && known[k] == path;
            assert(all[k] == path);
            let i = choose|i: int|
                0 <= i < rest.len() && (recorded(entries, #[trigger] rest[i]) matches Some(entry)
                    && entry.output_path == path);
            assert(keys[i] == rest[i]);
        }
        if all.contains(path) {
            let k = choose|k: int| 0 <= k < all.len() && all[k] == path;
            if k < known.len() {
                assert(known[k] == path);
            }
        }
        if all.len() > known.len() {
            assert(all[known.len() as int] == recorded(entries, keys[last])->0.output_path);
        }
        if still_recorded(entries, rest, present) {
            let i = choose|i: int|
                0 <= i < rest.len() && (recorded(entries, #[trigger] rest[i]) matches Some(entry)
                    && present.contains(entry.output_path));
            assert(keys[i] == rest[i]);
        }
        if let Some(entry) = recorded(entries, keys[last]) {
            if present.contains(entry.output_path) && known.contains(entry.output_path) {
                assert(known.len() > 0);
            }
        }
    }
}

/// The file of a clip is known by its token behind "__k", or by its candidate and ticks;
/// the first such file is taken.
pub proof fn law_first_named_file_is_taken(
    names: Seq<Seq<char>>,
    token: Seq<char>,
    lowered_id: Seq<char>,
    ticks: Seq<char>,
)
    ensures
        match first_named(names, token, lowered_id, ticks) {
            Some(i) => 0 <= i < names.len() && (has_text(names[i], "__k"@ + token) || has_text(
                names[i],
                lowered_id,
            ) && has_text(names[i], ticks)) && forall|j: int|
                0 <= j < i ==> !has_text(#[trigger] names[j], "__k"@ + token),
            None => forall|j: int|
                0 <= j < names.len() ==> !has_text(#[trigger] names[j], "__k"@ + token) && !(
                has_text(names[j], lowered_id) && has_text(names[j], ticks)),
        },
    decreases names.len(),
{
    if names.len() > 0 {
        let rest = names.drop_last();
        law_first_named_file_is_taken(rest, token, lowered_id, ticks);
        assert forall|j: int| 0 <= j < rest.len() implies #[trigger] names[j] == rest[j] by {
        }
        assert(names[names.len() - 1] == names.last());
    }
}

} // verus!
