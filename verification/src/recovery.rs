//! Recovering the recordings of sessions that were cut short.
use vstd::prelude::*;
use crate::arrange::{arrange, in_order, law_order_keeps_all, Ranked};
use crate::encoding::{optional, StoredAviEncoding, StoredDnxhrEncoding, StoredMp4Encoding};
use crate::number::{
    int_text, law_written_numbers_read_back, nat_of, parse_u32, u64_text,
};
use crate::prepare::{kept_clip, session_prefix, PreparedClip, StoredRecordingClip};
use crate::recordings::{
    law_stored_recording_is_found, recorded, with_recording, EntryModel, RecordingEntry,
    RecordingIndex,
};
use crate::settings::AppSettings;
use crate::text::{
    begins_with, contains_text, has_text, is_space, list_contains, same_text, starts_with, trim,
    trim_end, trim_start, trimmed, views,
};

verus! {

/// How many entries of the folder of sessions are looked at.
pub const MAX_RECOVERY_DIRECTORY_ENTRIES: usize = 512;

/// How many sessions are recovered at a time.
pub const MAX_RECOVERY_SESSIONS_PER_STARTUP: usize = 32;

/// How large a manifest may be, in bytes.
pub const MAX_RECOVERY_MANIFEST_BYTES: u64 = 8_388_608;

/// How many clips a manifest may keep.
pub const MAX_RECOVERY_CLIPS_PER_SESSION: usize = 1_000;

/// How often a session is tried to be recovered without being asked to.
pub const MAX_AUTOMATIC_RECOVERY_ATTEMPTS: u32 = 3;

// ---------------------------------------------------------------------------
// What is reported
// ---------------------------------------------------------------------------

/// What came of recovering sessions.
#[derive(Debug)]
pub struct RecordingRecoveryReport {
    pub scanned_sessions: usize,
    pub recovered_clips: usize,
    pub indexed_clips: usize,
    pub removed_sessions: usize,
    pub retained_sessions: usize,
    pub deferred_sessions: usize,
    pub disabled_sessions: usize,
    pub errors: Vec<String>,
}

/// What came of recovering sessions, with texts as sequences.
pub struct ReportModel {
    pub scanned_sessions: int,
    pub recovered_clips: int,
    pub indexed_clips: int,
    pub removed_sessions: int,
    pub retained_sessions: int,
    pub deferred_sessions: int,
    pub disabled_sessions: int,
    pub errors: Seq<Seq<char>>,
}

impl Default for RecordingRecoveryReport {
    fn default() -> (out: Self)
        ensures
            out.model() == (ReportModel {
                scanned_sessions: 0,
                recovered_clips: 0,
                indexed_clips: 0,
                removed_sessions: 0,
                retained_sessions: 0,
                deferred_sessions: 0,
                disabled_sessions: 0,
                errors: Seq::empty(),
            }),
            out.has_room(),
    {
        let out = RecordingRecoveryReport {
            scanned_sessions: 0,
            recovered_clips: 0,
            indexed_clips: 0,
            removed_sessions: 0,
            retained_sessions: 0,
            deferred_sessions: 0,
            disabled_sessions: 0,
            errors: Vec::new(),
        };
        assert(views(out.errors@) =~= Seq::empty());
        out
    }
}

/// A count behind a separator, where there is anything to count.
pub open spec fn counted_note(n: int, words: Seq<char>) -> Seq<char> {
    if n > 0 {
        "; "@ + int_text(n) + words
    } else {
        Seq::empty()
    }
}

/// What a report says.
pub open spec fn report_text(report: ReportModel) -> Seq<char> {
    if report.scanned_sessions == 0 && report.deferred_sessions == 0 && report.disabled_sessions
        == 0 && report.errors.len() == 0 {
        "No interrupted recording outputs needed recovery"@
    } else {
        "Recording recovery finished: "@ + int_text(report.scanned_sessions)
            + " session(s) checked, "@ + int_text(report.recovered_clips)
            + " clip(s) finalized, "@ + int_text(report.indexed_clips)
            + " existing output(s) indexed, "@ + int_text(report.removed_sessions)
            + " completed session(s) cleaned up, "@ + int_text(report.retained_sessions)
            + " session(s) retained"@ + counted_note(
            report.disabled_sessions,
            " damaged/repeatedly failing session(s) disabled from automatic recovery"@,
        ) + counted_note(
            report.deferred_sessions,
            " additional session(s) deferred to a later launch"@,
        ) + counted_note(
            report.errors.len() as int,
            " issue(s) remain in the retained session logs"@,
        )
    }
}

fn add_note(out: &mut String, n: usize, words: &str)
    ensures
        final(out)@ == old(out)@ + counted_note(n as int, words@),
{
    let ghost before = out@;
    if n > 0 {
        out.append("; ");
        out.append(u64_text(n as u64).as_str());
        out.append(words);
        assert(out@ =~= before + ("; "@ + int_text(n as int) + words@));
    } else {
        assert(out@ =~= before + Seq::<char>::empty());
    }
}

impl RecordingRecoveryReport {
    /// What came of recovering sessions, with texts as sequences.
    pub open spec fn model(&self) -> ReportModel {
        ReportModel {
            scanned_sessions: self.scanned_sessions as int,
            recovered_clips: self.recovered_clips as int,
            indexed_clips: self.indexed_clips as int,
            removed_sessions: self.removed_sessions as int,
            retained_sessions: self.retained_sessions as int,
            deferred_sessions: self.deferred_sessions as int,
            disabled_sessions: self.disabled_sessions as int,
            errors: views(self.errors@),
        }
    }

    /// Whether every count can go up by one.
    pub open spec fn has_room(&self) -> bool {
        &&& self.scanned_sessions < usize::MAX
        &&& self.recovered_clips < usize::MAX
        &&& self.indexed_clips < usize::MAX
        &&& self.removed_sessions < usize::MAX
        &&& self.retained_sessions < usize::MAX
        &&& self.disabled_sessions < usize::MAX
    }

    /// What the report says.
    pub fn summary(&self) -> (out: String)
        ensures
            out@ == report_text(self.model()),
    {
        if self.scanned_sessions == 0 && self.deferred_sessions == 0 && self.disabled_sessions == 0
            && self.errors.len() == 0 {
            return "No interrupted recording outputs needed recovery".to_owned();
        }
        let mut out = "Recording recovery finished: ".to_owned();
        out.append(u64_text(self.scanned_sessions as u64).as_str());
        out.append(" session(s) checked, ");
        out.append(u64_text(self.recovered_clips as u64).as_str());
        out.append(" clip(s) finalized, ");
        out.append(u64_text(self.indexed_clips as u64).as_str());
        out.append(" existing output(s) indexed, ");
        out.append(u64_text(self.removed_sessions as u64).as_str());
        out.append(" completed session(s) cleaned up, ");
        out.append(u64_text(self.retained_sessions as u64).as_str());
        out.append(" session(s) retained");
        add_note(
            &mut out,
            self.disabled_sessions,
            " damaged/repeatedly failing session(s) disabled from automatic recovery",
        );
        add_note(
            &mut out,
            self.deferred_sessions,
            " additional session(s) deferred to a later launch",
        );
        add_note(
            &mut out,
            self.errors.len(),
            " issue(s) remain in the retained session logs",
        );
        out
    }

    fn note(&mut self, error: String)
        ensures
            final(self).model() == (ReportModel {
                errors: old(self).model().errors.push(error@),
                ..old(self).model()
            }),
            old(self).has_room() ==> final(self).has_room(),
    {
        let ghost before = views(self.errors@);
        self.errors.push(error);
        assert(views(self.errors@) =~= before.push(error@));
    }
}

// ---------------------------------------------------------------------------
// Which sessions there are
// ---------------------------------------------------------------------------

/// An entry of the folder of sessions.
#[derive(Debug)]
pub struct SessionEntry {
    /// Whether the entry could be read.
    pub readable: bool,
    pub is_folder: bool,
    pub name: Option<String>,
    /// Whether recovering it without being asked to is switched off.
    pub disabled: bool,
    /// When it was last changed, where that is known.
    pub modified: Option<i64>,
}

/// A session, by the position of its entry.
#[derive(Clone, Copy, Debug)]
pub struct FoundSession {
    pub at: usize,
    pub modified: Option<i64>,
}

impl Ranked for FoundSession {
    open spec fn before(self, other: Self) -> bool {
        match (self.modified, other.modified) {
            (Some(a), Some(b)) => a < b,
            (None, Some(_)) => true,
            (_, None) => false,
        }
    }

    proof fn before_orders(a: Self, b: Self, c: Self) {
    }

    fn comes_before(&self, other: &Self) -> (r: bool) {
        match (self.modified, other.modified) {
            (Some(a), Some(b)) => a < b,
            (None, Some(_)) => true,
            (_, None) => false,
        }
    }
}

/// Whether an entry is a recording session.
pub open spec fn is_session(entry: SessionEntry) -> bool {
    entry.readable && entry.is_folder && (optional(entry.name) matches Some(name) && begins_with(
        name,
        session_prefix(),
    ))
}

/// The sessions among the first entries.
pub open spec fn sessions_among(
    entries: Seq<SessionEntry>,
    include_disabled: bool,
    upto: int,
) -> Seq<FoundSession>
    decreases upto,
{
    if upto <= 0 {
        Seq::empty()
    } else {
        let before = sessions_among(entries, include_disabled, upto - 1);
        let entry = entries[upto - 1];
        if is_session(entry) && (include_disabled || !entry.disabled) {
            before.push(FoundSession { at: (upto - 1) as usize, modified: entry.modified })
        } else {
            before
        }
    }
}

/// How many of the first entries are sessions that are switched off.
pub open spec fn disabled_among(entries: Seq<SessionEntry>, upto: int) -> int
    decreases upto,
{
    if upto <= 0 {
        0
    } else {
        disabled_among(entries, upto - 1) + if is_session(entries[upto - 1])
            && entries[upto - 1].disabled {
            1int
        } else {
            0
        }
    }
}

/// The sessions that were found.
#[derive(Debug)]
pub struct RecordingSessionDiscovery {
    /// Those to recover, the one that was not changed for longest first.
    pub sessions: Vec<FoundSession>,
    pub deferred_sessions: usize,
    pub disabled_sessions: usize,
}

/// The lesser of two numbers.
pub open spec fn lesser(a: int, b: int) -> int {
    if a < b {
        a
    } else {
        b
    }
}

/// Whether sessions are those that are found in a folder, of which only a number of
/// entries is looked at and only a number of sessions taken.
pub open spec fn are_found(
    found: RecordingSessionDiscovery,
    entries: Seq<SessionEntry>,
    include_disabled: bool,
    max_directory_entries: int,
    max_sessions: int,
) -> bool {
    let seen = lesser(entries.len() as int, max_directory_entries);
    let all = in_order(sessions_among(entries, include_disabled, seen));
    let taken = lesser(all.len() as int, max_sessions);
    &&& found.sessions@ == all.take(taken)
    &&& found.deferred_sessions == all.len() - taken + if entries.len() > max_directory_entries {
        1int
    } else {
        0
    }
    &&& found.disabled_sessions == disabled_among(entries, seen)
}

/// The sessions that are found in a folder, of which only a number of entries is
/// looked at and only a number of sessions taken.
pub fn discover_recording_sessions(
    entries: &Vec<SessionEntry>,
    include_disabled: bool,
    max_directory_entries: usize,
    max_sessions: usize,
) -> (out: RecordingSessionDiscovery)
    requires
        entries.len() < usize::MAX,
    ensures
        are_found(
            out,
            entries@,
            include_disabled,
            max_directory_entries as int,
            max_sessions as int,
        ),
        out.disabled_sessions <= entries.len(),
{
    let seen: usize = if entries.len() < max_directory_entries {
        entries.len()
    } else {
        max_directory_entries
    };
    let mut found: Vec<FoundSession> = Vec::new();
    let mut disabled: usize = 0;
    let mut i: usize = 0;
    assert(found@ =~= Seq::empty());
    while i < seen
        invariant
            i <= seen <= entries.len(),
            entries.len() < usize::MAX,
            found@ == sessions_among(entries@, include_disabled, i as int),
            found.len() <= i,
            disabled <= i,
            disabled == disabled_among(entries@, i as int),
        decreases seen - i,
    {
        let entry = &entries[i];
        let named = match &entry.name {
            Some(name) => starts_with(name.as_str(), "tf2fragdemohelper_batch_"),
            None => false,
        };
        if entry.readable && entry.is_folder && named {
            if entry.disabled {
                disabled += 1;
            }
            if include_disabled || !entry.disabled {
                found.push(FoundSession { at: i, modified: entry.modified });
            }
        }
        i += 1;
    }
    let ghost unordered = found@;
    proof {
        crate::arrange::law_order_keeps_all(unordered);
    }
    let mut sessions = arrange(found);
    let ghost all = sessions@;
    assert(all.len() == unordered.len());
    let mut deferred: usize = 0;
    if sessions.len() > max_sessions {
        deferred = sessions.len() - max_sessions;
        sessions.truncate(max_sessions);
    }
    assert(sessions@ =~= all.take(lesser(all.len() as int, max_sessions as int)));
    if entries.len() > max_directory_entries {
        deferred = deferred + 1;
    }
    RecordingSessionDiscovery {
        sessions,
        deferred_sessions: deferred,
        disabled_sessions: disabled,
    }
}

/// The session that was changed last, by position.
pub fn latest_recording_session(entries: &Vec<SessionEntry>) -> (out: Option<usize>)
    requires
        entries.len() < usize::MAX,
    ensures
        ({
            let seen = lesser(entries.len() as int, 512);
            let all = in_order(sessions_among(entries@, true, seen));
            match out {
                Some(at) => all.len() > 0 && at == all.last().at,
                None => all.len() == 0,
            }
        }),
{
    let found = discover_recording_sessions(
        entries,
        true,
        MAX_RECOVERY_DIRECTORY_ENTRIES,
        MAX_RECOVERY_DIRECTORY_ENTRIES,
    );
    proof {
        let seen = lesser(entries.len() as int, MAX_RECOVERY_DIRECTORY_ENTRIES as int);
        let some = sessions_among(entries@, true, seen);
        lemma_sessions_fit(entries@, true, seen);
        crate::arrange::law_order_keeps_all(some);
        assert(in_order(some).take(in_order(some).len() as int) =~= in_order(some));
    }
    if found.sessions.len() == 0 {
        None
    } else {
        Some(found.sessions[found.sessions.len() - 1].at)
    }
}

proof fn lemma_sessions_fit(entries: Seq<SessionEntry>, include_disabled: bool, upto: int)
    ensures
        sessions_among(entries, include_disabled, upto).len() <= (if upto > 0 {
            upto
        } else {
            0
        }),
    decreases upto,
{
    if upto > 0 {
        lemma_sessions_fit(entries, include_disabled, upto - 1);
    }
}

/// Where recording sessions are kept, below the folder for data.
pub fn recording_sessions_root(data_root: &str, separator: char) -> (out: String)
    ensures
        out@ == crate::prepare::below(data_root@, "Recording Sessions"@, separator),
{
    crate::prepare::path_below(data_root, "Recording Sessions", separator)
}

// ---------------------------------------------------------------------------
// How often a session is tried
// ---------------------------------------------------------------------------

/// How often a session was tried, by what its file says.
pub open spec fn attempts_of(text: Seq<char>) -> int {
    match nat_of(trimmed(text)) {
        Some(n) if n <= u32::MAX => n as int,
        _ => 0,
    }
}

/// How often a session was tried.
pub fn automatic_recovery_attempts(text: &str) -> (out: u32)
    ensures
        out == attempts_of(text@),
{
    match parse_u32(trim(text).as_str()) {
        Some(n) => n,
        None => 0,
    }
}

/// What to do with a session before it is recovered.
#[derive(Clone, Copy, Debug, PartialEq, Eq, Structural)]
pub enum AttemptStep {
    /// It is switched off: leave it.
    Skip,
    /// It was tried too often: switch it off.
    SwitchOff,
    /// Try it, and note that it is tried for this time.
    Try { attempt: u32 },
}

/// Why a session that was tried too often is switched off.
pub fn retry_limit_reason() -> (out: &'static str)
    ensures
        out@
            == "The retry limit was reached before this launch. No further automatic work was attempted."@,
{
    "The retry limit was reached before this launch. No further automatic work was attempted."
}

/// Why a session that failed too often is switched off.
pub fn repeated_failure_reason() -> (out: &'static str)
    ensures
        out@
            == "Automatic recovery failed three times. The session was retained for manual inspection."@,
{
    "Automatic recovery failed three times. The session was retained for manual inspection."
}

/// What to do with a session, by what its files say.
pub open spec fn attempt_step(disabled: bool, attempts: int) -> AttemptStep {
    if disabled {
        AttemptStep::Skip
    } else if attempts >= MAX_AUTOMATIC_RECOVERY_ATTEMPTS {
        AttemptStep::SwitchOff
    } else {
        AttemptStep::Try { attempt: (attempts + 1) as u32 }
    }
}

/// The report once it is decided whether a session is tried.
pub open spec fn begun(report: ReportModel, step: AttemptStep) -> ReportModel {
    if step is Try {
        ReportModel { scanned_sessions: report.scanned_sessions + 1, ..report }
    } else {
        ReportModel { disabled_sessions: report.disabled_sessions + 1, ..report }
    }
}

/// Decides whether a session is tried.
pub fn begin_automatic_recovery_attempt(
    disabled: bool,
    attempts_text: &str,
    report: &mut RecordingRecoveryReport,
) -> (out: AttemptStep)
    requires
        old(report).has_room(),
    ensures
        out == attempt_step(disabled, attempts_of(attempts_text@)),
        final(report).model() == begun(old(report).model(), out),
{
    if disabled {
        report.disabled_sessions = report.disabled_sessions + 1;
        return AttemptStep::Skip;
    }
    let attempts = automatic_recovery_attempts(attempts_text);
    if attempts >= MAX_AUTOMATIC_RECOVERY_ATTEMPTS {
        report.disabled_sessions = report.disabled_sessions + 1;
        return AttemptStep::SwitchOff;
    }
    report.scanned_sessions = report.scanned_sessions + 1;
    AttemptStep::Try { attempt: attempts + 1 }
}

/// A session is tried at most three times: the number that is noted for a try is
/// read back as it was noted, each try notes one more, and after the third the
/// session is switched off.
pub proof fn law_attempts_are_limited(text: Seq<char>)
    ensures
        attempt_step(false, attempts_of(text)) matches AttemptStep::Try { attempt } ==> {
            &&& attempts_of(text) < attempt <= MAX_AUTOMATIC_RECOVERY_ATTEMPTS
            &&& attempts_of(int_text(attempt as int)) == attempts_of(text) + 1
            &&& attempt == MAX_AUTOMATIC_RECOVERY_ATTEMPTS ==> attempt_step(
                false,
                attempts_of(int_text(attempt as int)),
            ) == AttemptStep::SwitchOff
        },
{
    if let AttemptStep::Try { attempt } = attempt_step(false, attempts_of(text)) {
        let written = int_text(attempt as int);
        law_written_numbers_read_back(attempt as int);
        crate::number::lemma_nat_text(attempt as nat);
        assert(trim_start(written) == written) by {
            assert(!is_space(written[0]));
        }
        assert(trim_end(written) == written) by {
            assert(!is_space(written.last()));
        }
        assert(trimmed(written) == written);
    }
}

/// Whether a session that was tried is switched off: it is still there, it
/// failed, and it was tried often enough.
pub open spec fn ends_switched_off(
    still_there: bool,
    failed: bool,
    attempts: int,
    disabled: bool,
) -> bool {
    still_there && failed && attempts >= MAX_AUTOMATIC_RECOVERY_ATTEMPTS && !disabled
}

/// Decides whether a session that was tried is switched off.
pub fn switch_off_after(
    still_there: bool,
    errors_before: usize,
    attempts_text: &str,
    disabled: bool,
    report: &mut RecordingRecoveryReport,
) -> (r: bool)
    requires
        old(report).has_room(),
    ensures
        r == ends_switched_off(
            still_there,
            old(report).errors.len() > errors_before,
            attempts_of(attempts_text@),
            disabled,
        ),
        final(report).model() == (if r {
            ReportModel {
                disabled_sessions: old(report).model().disabled_sessions + 1,
                ..old(report).model()
            }
        } else {
            old(report).model()
        }),
{
    if still_there && report.errors.len() > errors_before && automatic_recovery_attempts(
        attempts_text,
    ) >= MAX_AUTOMATIC_RECOVERY_ATTEMPTS && !disabled {
        report.disabled_sessions = report.disabled_sessions + 1;
        true
    } else {
        false
    }
}

/// What is written into a session that is switched off.
pub fn disabled_note(time: &str, reason: &str) -> (out: String)
    ensures
        out@ == "Automatic recovery was disabled at "@ + time@ + ".\n\n"@ + reason@
            + "\n\nThe session was retained and no recording output was deleted.\n"@,
{
    let mut out = "Automatic recovery was disabled at ".to_owned();
    out.append(time);
    out.append(".\n\n");
    out.append(reason);
    out.append("\n\nThe session was retained and no recording output was deleted.\n");
    out
}

// ---------------------------------------------------------------------------
// The manifest of a session
// ---------------------------------------------------------------------------

/// What is wrong with the length of a file that is to be read.
pub fn oversize_fault(path: &str, length: u64, limit: u64) -> (out: Option<String>)
    ensures
        match out {
            Some(words) => length > limit && words@ == path@ + " is too large ("@ + int_text(
                length as int,
            ) + " bytes; limit is "@ + int_text(limit as int) + " bytes)"@,
            None => length <= limit,
        },
{
    if length <= limit {
        return None;
    }
    let mut out = path.to_owned();
    out.append(" is too large (");
    out.append(u64_text(length).as_str());
    out.append(" bytes; limit is ");
    out.append(u64_text(limit).as_str());
    out.append(" bytes)");
    Some(out)
}

/// What is wrong with a file that has grown while it was read.
pub fn grown_fault(path: &str, read: u64, limit: u64) -> (out: Option<String>)
    ensures
        match out {
            Some(words) => read > limit && words@ == path@ + " exceeded the "@ + int_text(
                limit as int,
            ) + " byte read limit"@,
            None => read <= limit,
        },
{
    if read <= limit {
        return None;
    }
    let mut out = path.to_owned();
    out.append(" exceeded the ");
    out.append(u64_text(limit).as_str());
    out.append(" byte read limit");
    Some(out)
}

/// What is wrong with the number of clips of a manifest.
pub fn clip_count_fault(path: &str, clips: usize) -> (out: Option<String>)
    ensures
        match out {
            Some(words) => clips > 1_000 && words@ == path@ + " contains "@ + int_text(clips as int)
                + " clips; the automatic recovery limit is "@ + int_text(1_000),
            None => clips <= 1_000,
        },
{
    if clips <= MAX_RECOVERY_CLIPS_PER_SESSION {
        return None;
    }
    let mut out = path.to_owned();
    out.append(" contains ");
    out.append(u64_text(clips as u64).as_str());
    out.append(" clips; the automatic recovery limit is ");
    out.append(u64_text(MAX_RECOVERY_CLIPS_PER_SESSION as u64).as_str());
    Some(out)
}

/// What reading the manifest of a session gave.
#[derive(Debug)]
pub enum ManifestReading {
    Missing,
    Unreadable(String),
    Read { clips: usize },
}

/// Why the manifest of a session is of no use.
pub open spec fn manifest_fault(reading: ManifestReading) -> Option<Seq<char>> {
    match reading {
        ManifestReading::Missing => Some("No recording manifest was found."@),
        ManifestReading::Unreadable(error) => Some(error@),
        ManifestReading::Read { clips } => if clips == 0 {
            Some("The recording manifest contains no tracked clips."@)
        } else {
            None
        },
    }
}

/// What is reported of a session whose manifest is of no use.
pub open spec fn manifest_report(session: Seq<char>, reading: ManifestReading) -> Seq<char> {
    match reading {
        ManifestReading::Missing => session + " has no recording manifest"@,
        ManifestReading::Unreadable(error) => error@,
        ManifestReading::Read { .. } => session + " has no tracked clips"@,
    }
}

/// The report once the manifest of a session was read.
pub open spec fn opened(
    report: ReportModel,
    session: Seq<char>,
    reading: ManifestReading,
) -> ReportModel {
    if manifest_fault(reading) is Some {
        ReportModel {
            disabled_sessions: report.disabled_sessions + 1,
            retained_sessions: report.retained_sessions + 1,
            errors: report.errors.push(manifest_report(session, reading)),
            ..report
        }
    } else {
        report
    }
}

/// Decides whether a session can be recovered at all; gives the reason where it
/// cannot, for which it is switched off.
pub fn open_session(
    session: &str,
    reading: &ManifestReading,
    report: &mut RecordingRecoveryReport,
) -> (out: Option<String>)
    requires
        old(report).has_room(),
    ensures
        optional(out) == manifest_fault(*reading),
        final(report).model() == opened(old(report).model(), session@, *reading),
{
    let (fault, error) = match reading {
        ManifestReading::Missing => {
            let mut error = session.to_owned();
            error.append(" has no recording manifest");
            ("No recording manifest was found.".to_owned(), error)
        },
        ManifestReading::Unreadable(error) => (error.clone(), error.clone()),
        ManifestReading::Read { clips } => {
            if *clips > 0 {
                return None;
            }
            let mut error = session.to_owned();
            error.append(" has no tracked clips");
            ("The recording manifest contains no tracked clips.".to_owned(), error)
        },
    };
    report.disabled_sessions = report.disabled_sessions + 1;
    report.retained_sessions = report.retained_sessions + 1;
    report.note(error);
    Some(fault)
}

// ---------------------------------------------------------------------------
// A clip
// ---------------------------------------------------------------------------

/// The output of a clip that is there already: the one that was noted, else the
/// one that was expected.
pub open spec fn output_there(clip: StoredRecordingClip, present: Seq<Seq<char>>) -> Option<
    Seq<char>,
> {
    match clip.actual_output_path {
        Some(path) if present.contains(path@) => Some(path@),
        _ => if present.contains(clip.expected_output_path@) {
            Some(clip.expected_output_path@)
        } else {
            None
        },
    }
}

/// The output of a clip that is there already.
pub fn existing_output(clip: &StoredRecordingClip, present: &Vec<String>) -> (out: Option<String>)
    ensures
        optional(out) == output_there(*clip, views(present@)),
{
    if let Some(path) = &clip.actual_output_path {
        if list_contains(present, path.as_str()) {
            return Some(path.clone());
        }
    }
    if list_contains(present, clip.expected_output_path.as_str()) {
        Some(clip.expected_output_path.clone())
    } else {
        None
    }
}

/// How a clip can be made whole.
#[derive(Clone, Copy, Debug, PartialEq, Eq, Structural)]
pub enum FinalizeStep {
    /// There is nothing to make it of.
    Nothing,
    /// Gather its images.
    Images,
    /// Join its video and its sound.
    Video,
}

/// How a clip can be made whole, where `artifacts` tells whether anything was
/// recorded of it.
pub fn finalize_step(
    settings: &AppSettings,
    clip: &PreparedClip,
    game_is_there: bool,
    artifacts: bool,
) -> (out: FinalizeStep)
    ensures
        out == ({
            let images = has_text(settings.recording_format@, "Image"@) || clip.working_path is None;
            if images && game_is_there && artifacts {
                FinalizeStep::Images
            } else if !images && artifacts {
                FinalizeStep::Video
            } else {
                FinalizeStep::Nothing
            }
        }),
{
    let images = contains_text(settings.recording_format.as_str(), "Image")
        || clip.working_path.is_none();
    if images && game_is_there && artifacts {
        FinalizeStep::Images
    } else if !images && artifacts {
        FinalizeStep::Video
    } else {
        FinalizeStep::Nothing
    }
}

/// What making a clip whole gave.
#[derive(Debug)]
pub enum Finalized {
    NotTried,
    Done(String),
    Failed(String),
}

/// A text of someone, with a colon between.
pub open spec fn said(who: Seq<char>, what: Seq<char>) -> Seq<char> {
    who + ": "@ + what
}

fn say(who: &str, what: &str) -> (out: String)
    ensures
        out@ == said(who@, what@),
{
    let mut out = who.to_owned();
    out.append(": ");
    out.append(what);
    out
}

/// Why a clip must wait.
pub open spec fn nothing_found() -> Seq<char> {
    "no complete output or recoverable HLAE capture artifacts were found"@
}

/// The output of a clip once it was tried to make it whole.
pub open spec fn output_after(finalized: Finalized, existing: Option<Seq<char>>) -> Option<
    Seq<char>,
> {
    match finalized {
        Finalized::Done(output) => Some(output@),
        _ => existing,
    }
}

/// The errors that a try to make a clip whole adds.
pub open spec fn errors_after(
    id: Seq<char>,
    finalized: Finalized,
    existing: Option<Seq<char>>,
) -> Seq<Seq<char>> {
    let failed = match finalized {
        Finalized::Failed(error) => seq![said(id, error@)],
        _ => Seq::empty(),
    };
    if output_after(finalized, existing) is None {
        failed.push(said(id, nothing_found()))
    } else {
        failed
    }
}

/// The output of a clip once it was tried to make it whole; the errors are
/// reported.
pub fn choose_output(
    id: &str,
    finalized: &Finalized,
    existing: &Option<String>,
    report: &mut RecordingRecoveryReport,
) -> (out: Option<String>)
    ensures
        optional(out) == output_after(*finalized, optional(*existing)),
        final(report).model() == (ReportModel {
            errors: old(report).model().errors + errors_after(
                id@,
                *finalized,
                optional(*existing),
            ),
            ..old(report).model()
        }),
        old(report).has_room() ==> final(report).has_room(),
{
    let ghost before = report.model();
    if let Finalized::Failed(error) = finalized {
        report.note(say(id, error.as_str()));
    }
    let out = match finalized {
        Finalized::Done(output) => Some(output.clone()),
        _ => match existing {
            Some(output) => Some(output.clone()),
            None => None,
        },
    };
    if out.is_none() {
        report.note(
            say(id, "no complete output or recoverable HLAE capture artifacts were found"),
        );
    }
    assert(report.model().errors =~= before.errors + errors_after(
        id@,
        *finalized,
        optional(*existing),
    ));
    out
}

/// Whether a clip is recorded already, in a given output that is there.
pub fn already_indexed(index: &RecordingIndex, key: &str, output: &str, present: &Vec<String>) -> (r:
    bool)
    ensures
        r == is_indexed(index.model(), key@, output@, views(present@)),
{
    match index.get(key) {
        Some(entry) => same_text(entry.output_path.as_str(), output) && list_contains(
            present,
            output,
        ),
        None => false,
    }
}

/// The recording that one replaces: the one under its key, where it is to be
/// replaced and is another.
pub fn replaced_output(
    index: &RecordingIndex,
    key: &str,
    replace_existing: bool,
    output: &str,
) -> (out: Option<String>)
    ensures
        optional(out) == replaced_by(index.model(), key@, replace_existing, output@),
{
    if !replace_existing {
        return None;
    }
    match index.get(key) {
        Some(entry) => if same_text(entry.output_path.as_str(), output) {
            None
        } else {
            Some(entry.output_path.clone())
        },
        None => None,
    }
}

/// The fingerprint that a manifest keeps of an output, where it keeps one.
pub open spec fn fingerprint_kept(clip: StoredRecordingClip) -> Option<Seq<char>> {
    match clip.output_fingerprint {
        Some(fingerprint) if fingerprint@.len() > 0 => Some(fingerprint@),
        _ => None,
    }
}

/// The fingerprint that a manifest keeps of an output, where it keeps one.
pub fn kept_fingerprint(clip: &StoredRecordingClip) -> (out: Option<String>)
    ensures
        optional(out) == fingerprint_kept(*clip),
{
    match &clip.output_fingerprint {
        Some(fingerprint) => if fingerprint.as_str().is_empty() {
            None
        } else {
            Some(fingerprint.clone())
        },
        None => None,
    }
}

/// What is recorded of a clip that was recovered.
pub fn recovered_entry(clip: &PreparedClip, output: String, fingerprint: String, time: String) -> (out:
    RecordingEntry)
    ensures
        out.recording_key == clip.recording_key,
        out.candidate_id == clip.candidate_id,
        out.demo_signature == clip.demo_signature,
        out.clip_start_tick == clip.candidate_start_tick,
        out.clip_end_tick == clip.candidate_end_tick,
        out.output_path == output,
        out.output_fingerprint == fingerprint,
        out.completed_utc == time,
{
    RecordingEntry {
        recording_key: clip.recording_key.clone(),
        candidate_id: clip.candidate_id.clone(),
        demo_signature: clip.demo_signature.clone(),
        clip_start_tick: clip.candidate_start_tick,
        clip_end_tick: clip.candidate_end_tick,
        output_path: output,
        output_fingerprint: fingerprint,
        completed_utc: time,
    }
}

/// What recording a clip in the index gave.
#[derive(Debug)]
pub enum Indexing {
    AlreadyThere,
    Stored,
    Failed(String),
}

/// What a clip has come to.
#[derive(Clone, Copy, Debug, PartialEq, Eq, Structural)]
pub enum ClipVerdict {
    /// It is whole and recorded.
    Completed,
    /// It must be tried again.
    Pending,
    /// It could not be recorded in the index.
    NotIndexed,
}

impl ClipVerdict {
    /// The state that the manifest notes.
    pub fn status(&self) -> (out: Option<&'static str>)
        ensures
            match *self {
                ClipVerdict::Completed => out matches Some(text) && text@ == "Completed"@,
                ClipVerdict::Pending => out matches Some(text) && text@ == "RecoveryPending"@,
                ClipVerdict::NotIndexed => out is None,
            },
    {
        match self {
            ClipVerdict::Completed => Some("Completed"),
            ClipVerdict::Pending => Some("RecoveryPending"),
            ClipVerdict::NotIndexed => None,
        }
    }
}

/// What a clip has come to, where it has an output.
pub open spec fn verdict_of(finalized: Finalized, indexing: Indexing) -> ClipVerdict {
    if indexing is Failed {
        ClipVerdict::NotIndexed
    } else if finalized is Failed {
        ClipVerdict::Pending
    } else {
        ClipVerdict::Completed
    }
}

/// The report once a clip that has an output was recorded.
pub open spec fn settled(
    report: ReportModel,
    id: Seq<char>,
    finalized: Finalized,
    indexing: Indexing,
) -> ReportModel {
    match indexing {
        Indexing::Failed(error) => ReportModel {
            errors: report.errors.push(said(id, error@)),
            ..report
        },
        Indexing::Stored => if finalized is Done {
            ReportModel { recovered_clips: report.recovered_clips + 1, ..report }
        } else {
            ReportModel { indexed_clips: report.indexed_clips + 1, ..report }
        },
        Indexing::AlreadyThere => report,
    }
}

/// Reports a clip that has an output, and says what it has come to.
pub fn settle_clip(
    id: &str,
    finalized: &Finalized,
    indexing: &Indexing,
    report: &mut RecordingRecoveryReport,
) -> (out: ClipVerdict)
    requires
        old(report).has_room(),
    ensures
        out == verdict_of(*finalized, *indexing),
        final(report).model() == settled(old(report).model(), id@, *finalized, *indexing),
{
    match indexing {
        Indexing::Failed(error) => {
            report.note(say(id, error.as_str()));
            return ClipVerdict::NotIndexed;
        },
        Indexing::Stored => {
            if matches!(finalized, Finalized::Done(_)) {
                report.recovered_clips = report.recovered_clips + 1;
            } else {
                report.indexed_clips = report.indexed_clips + 1;
            }
        },
        Indexing::AlreadyThere => {},
    }
    if matches!(finalized, Finalized::Failed(_)) {
        ClipVerdict::Pending
    } else {
        ClipVerdict::Completed
    }
}

/// Whether the index has a recording in an output that is there.
pub open spec fn is_indexed(
    index: Seq<EntryModel>,
    key: Seq<char>,
    output: Seq<char>,
    present: Seq<Seq<char>>,
) -> bool {
    recorded(index, key) matches Some(entry) && entry.output_path == output && present.contains(
        output,
    )
}

/// The recording that one replaces.
pub open spec fn replaced_by(
    index: Seq<EntryModel>,
    key: Seq<char>,
    replace_existing: bool,
    output: Seq<char>,
) -> Option<Seq<char>> {
    match recorded(index, key) {
        Some(entry) if replace_existing && entry.output_path != output => Some(entry.output_path),
        _ => None,
    }
}

/// A clip that has an output, before it is recorded.
#[derive(Debug)]
pub struct ClipWork {
    pub output: String,
    /// The fingerprint that the manifest keeps of it.
    pub fingerprint: Option<String>,
    /// Whether the index has it already.
    pub indexed: bool,
    /// The recording that it replaces.
    pub replaced: Option<String>,
}

/// What a clip has come to, and what the manifest notes of it.
#[derive(Debug)]
pub struct ClipEnd {
    pub verdict: ClipVerdict,
    /// Why it must be tried again.
    pub error: Option<String>,
    /// The recording that is removed now that another took its place.
    pub removed: Option<String>,
}

/// The recording of a clip that was recovered.
pub open spec fn entry_of_clip(
    clip: PreparedClip,
    output: Seq<char>,
    fingerprint: Seq<char>,
    time: Seq<char>,
) -> EntryModel {
    EntryModel {
        recording_key: clip.recording_key@,
        candidate_id: clip.candidate_id@,
        demo_signature: clip.demo_signature@,
        clip_start_tick: clip.candidate_start_tick,
        clip_end_tick: clip.candidate_end_tick,
        output_path: output,
        output_fingerprint: fingerprint,
        completed_utc: time,
    }
}

/// Why a clip cannot be recorded: it has no key, or the index could not be written.
pub open spec fn indexing_fault(key: Seq<char>, write_fault: Option<Seq<char>>) -> Option<
    Seq<char>,
> {
    if trimmed(key).len() == 0 {
        Some("the retained clip has no recording key"@)
    } else {
        write_fault
    }
}

/// What keeps a clip that has an output from being recorded.
pub open spec fn recording_fault(
    indexed: bool,
    key: Seq<char>,
    write_fault: Option<Seq<char>>,
) -> Option<Seq<char>> {
    if indexed {
        None
    } else {
        indexing_fault(key, write_fault)
    }
}

/// A recording is removed only when another is in the index in its place: after a
/// clip was recorded its key leads to its own output, which is never the one that
/// is removed.
pub proof fn law_replaced_only_by_a_recording(
    index: Seq<EntryModel>,
    clip: PreparedClip,
    output: Seq<char>,
    fingerprint: Seq<char>,
    time: Seq<char>,
)
    ensures
        recorded(
            with_recording(index, entry_of_clip(clip, output, fingerprint, time)),
            clip.recording_key@,
        ) == Some(entry_of_clip(clip, output, fingerprint, time)),
        replaced_by(index, clip.recording_key@, clip.replace_existing, output) != Some(output),
{
    law_stored_recording_is_found(
        index,
        entry_of_clip(clip, output, fingerprint, time),
        clip.recording_key@,
    );
}

// ---------------------------------------------------------------------------
// The end of a session
// ---------------------------------------------------------------------------

/// What to do with a session once its clips were looked at.
#[derive(Clone, Copy, Debug, PartialEq, Eq, Structural)]
pub enum RecoveryStep {
    /// Remove it.
    Remove,
    /// Keep it for another try.
    Keep,
}

/// Whether every clip of a session is whole and recorded.
pub open spec fn are_completed(verdicts: Seq<ClipVerdict>) -> bool {
    forall|i: int| 0 <= i < verdicts.len() ==> #[trigger] verdicts[i] == ClipVerdict::Completed
}

/// What to do with a session whose clips have come to something.
pub open spec fn step_after(verdicts: Seq<ClipVerdict>) -> RecoveryStep {
    if are_completed(verdicts) {
        RecoveryStep::Remove
    } else {
        RecoveryStep::Keep
    }
}

/// What to do with a session: it is removed where every clip of it is whole and
/// recorded, and kept where one is not.
pub fn after_clips(verdicts: &Vec<ClipVerdict>) -> (out: RecoveryStep)
    ensures
        out == step_after(verdicts@),
{
    let mut i: usize = 0;
    while i < verdicts.len()
        invariant
            i <= verdicts.len(),
            forall|k: int| 0 <= k < i ==> #[trigger] verdicts@[k] == ClipVerdict::Completed,
        decreases verdicts.len() - i,
    {
        if verdicts[i] != ClipVerdict::Completed {
            assert(!are_completed(verdicts@));
            return RecoveryStep::Keep;
        }
        i += 1;
    }
    RecoveryStep::Remove
}

impl RecoveryStep {
    /// The state of a whole session that the manifest notes, and the reason for it.
    pub fn verdict(self) -> (out: (&'static str, Option<&'static str>))
        ensures
            self == RecoveryStep::Remove ==> out.0@ == "Completed"@ && out.1 is None,
            self == RecoveryStep::Keep ==> out.0@ == "RecoveryPending"@ && (out.1 matches Some(
                words,
            ) && words@ == "one or more tracked clips still need recovery"@),
    {
        match self {
            RecoveryStep::Remove => ("Completed", None),
            RecoveryStep::Keep => (
                "RecoveryPending",
                Some("one or more tracked clips still need recovery"),
            ),
        }
    }
}

/// The report at the end of a session. The fault is that of removing it.
pub open spec fn closed(
    report: ReportModel,
    session: Seq<char>,
    step: RecoveryStep,
    fault: Option<Seq<char>>,
) -> ReportModel {
    match (step, fault) {
        (RecoveryStep::Keep, _) => ReportModel {
            retained_sessions: report.retained_sessions + 1,
            ..report
        },
        (RecoveryStep::Remove, None) => ReportModel {
            removed_sessions: report.removed_sessions + 1,
            ..report
        },
        (RecoveryStep::Remove, Some(error)) => ReportModel {
            retained_sessions: report.retained_sessions + 1,
            errors: report.errors.push(session + " could not be cleaned up: "@ + error),
            ..report
        },
    }
}

// ---------------------------------------------------------------------------
// A session
// ---------------------------------------------------------------------------

/// A session under recovery: the recordings that are known, what is reported, and
/// what the clips so far have come to.
#[derive(Debug)]
pub struct SessionRecovery {
    pub index: RecordingIndex,
    pub report: RecordingRecoveryReport,
    pub verdicts: Vec<ClipVerdict>,
}

/// What a session under recovery holds.
pub struct SessionModel {
    pub index: Seq<EntryModel>,
    pub report: ReportModel,
    pub verdicts: Seq<ClipVerdict>,
}

impl SessionModel {
    /// Once it was tried to make a clip whole. The errors of the try are reported,
    /// and a clip without an output must be tried again. The output that is there
    /// already is looked for among those that were there before the try.
    pub open spec fn weighed(
        self,
        stored: StoredRecordingClip,
        before: Seq<Seq<char>>,
        finalized: Finalized,
    ) -> SessionModel {
        let existing = output_there(stored, before);
        SessionModel {
            report: ReportModel {
                errors: self.report.errors + errors_after(
                    stored.candidate_id@,
                    finalized,
                    existing,
                ),
                ..self.report
            },
            verdicts: if output_after(finalized, existing) is None {
                self.verdicts.push(ClipVerdict::Pending)
            } else {
                self.verdicts
            },
            ..self
        }
    }

    /// Once a clip that has an output was recorded, where the index did not have it.
    pub open spec fn finished(
        self,
        clip: PreparedClip,
        output: Seq<char>,
        indexed: bool,
        finalized: Finalized,
        fingerprint: Seq<char>,
        time: Seq<char>,
        write_fault: Option<Seq<char>>,
    ) -> SessionModel {
        match recording_fault(indexed, clip.recording_key@, write_fault) {
            Some(error) => SessionModel {
                report: ReportModel {
                    errors: self.report.errors.push(said(clip.candidate_id@, error)),
                    ..self.report
                },
                verdicts: self.verdicts.push(ClipVerdict::NotIndexed),
                ..self
            },
            None => SessionModel {
                index: if indexed {
                    self.index
                } else {
                    with_recording(self.index, entry_of_clip(clip, output, fingerprint, time))
                },
                report: if indexed {
                    self.report
                } else if finalized is Done {
                    ReportModel {
                        recovered_clips: self.report.recovered_clips + 1,
                        ..self.report
                    }
                } else {
                    ReportModel { indexed_clips: self.report.indexed_clips + 1, ..self.report }
                },
                verdicts: self.verdicts.push(
                    if finalized is Failed {
                        ClipVerdict::Pending
                    } else {
                        ClipVerdict::Completed
                    },
                ),
            },
        }
    }

    /// Once a clip was recovered, as far as it could be.
    pub open spec fn recovered(self, run: ClipRun) -> SessionModel {
        let weighed = self.weighed(run.stored, run.before, run.finalized);
        match output_after(run.finalized, output_there(run.stored, run.before)) {
            None => weighed,
            Some(output) => weighed.finished(
                kept_clip(run.stored),
                output,
                is_indexed(self.index, run.stored.recording_key@, output, run.after),
                run.finalized,
                run.fingerprint,
                run.time,
                run.write_fault,
            ),
        }
    }

    /// Once some clips were recovered, one after the other.
    pub open spec fn recovered_all(self, runs: Seq<ClipRun>) -> SessionModel
        decreases runs.len(),
    {
        if runs.len() == 0 {
            self
        } else {
            self.recovered_all(runs.drop_last()).recovered(runs.last())
        }
    }
}

/// A clip of a session, with what was found and done while it was recovered: the
/// outputs that were there before it was tried to make it whole, what the try gave,
/// and the outputs that were there afterwards.
pub struct ClipRun {
    pub stored: StoredRecordingClip,
    pub before: Seq<Seq<char>>,
    pub finalized: Finalized,
    pub after: Seq<Seq<char>>,
    pub fingerprint: Seq<char>,
    pub time: Seq<char>,
    pub write_fault: Option<Seq<char>>,
}

impl SessionRecovery {
    /// What the session holds.
    pub open spec fn model(&self) -> SessionModel {
        SessionModel {
            index: self.index.model(),
            report: self.report.model(),
            verdicts: self.verdicts@,
        }
    }

    /// A session of which no clip was looked at.
    pub fn new(index: RecordingIndex, report: RecordingRecoveryReport) -> (out: SessionRecovery)
        ensures
            out.index == index,
            out.report == report,
            out.verdicts@ == Seq::<ClipVerdict>::empty(),
    {
        SessionRecovery { index, report, verdicts: Vec::new() }
    }

    /// Looks at a clip once it was tried to make it whole, given the outputs that
    /// were there before the try and those that are there now. Gives nothing where
    /// the clip has no output: then it must be tried again.
    pub fn weigh_clip(
        &mut self,
        stored: &StoredRecordingClip,
        before: &Vec<String>,
        finalized: &Finalized,
        after: &Vec<String>,
    ) -> (out: Option<ClipWork>)
        ensures
            final(self).index == old(self).index,
            final(self).model() == old(self).model().weighed(*stored, views(before@), *finalized),
            old(self).report.has_room() ==> final(self).report.has_room(),
            match out {
                None => output_after(*finalized, output_there(*stored, views(before@))) is None,
                Some(work) => {
                    &&& output_after(*finalized, output_there(*stored, views(before@))) == Some(
                        work.output@,
                    )
                    &&& optional(work.fingerprint) == fingerprint_kept(*stored)
                    &&& work.indexed == is_indexed(
                        old(self).index.model(),
                        stored.recording_key@,
                        work.output@,
                        views(after@),
                    )
                    &&& optional(work.replaced) == replaced_by(
                        old(self).index.model(),
                        stored.recording_key@,
                        stored.replace_existing,
                        work.output@,
                    )
                },
            },
    {
        let existing = existing_output(stored, before);
        let chosen = choose_output(
            stored.candidate_id.as_str(),
            finalized,
            &existing,
            &mut self.report,
        );
        match chosen {
            None => {
                self.verdicts.push(ClipVerdict::Pending);
                None
            },
            Some(output) => {
                let fingerprint = kept_fingerprint(stored);
                let key = stored.recording_key.as_str();
                let indexed = already_indexed(&self.index, key, output.as_str(), after);
                let replaced = replaced_output(
                    &self.index,
                    key,
                    stored.replace_existing,
                    output.as_str(),
                );
                Some(ClipWork { output, fingerprint, indexed, replaced })
            },
        }
    }

    /// Records a clip that has an output, where the index does not have it, and
    /// says what it has come to. The fault is that of writing the index.
    pub fn finish_clip(
        &mut self,
        clip: &PreparedClip,
        work: ClipWork,
        finalized: &Finalized,
        fingerprint: &str,
        time: &str,
        write_fault: &Option<String>,
    ) -> (out: ClipEnd)
        requires
            old(self).report.has_room(),
        ensures
            old(self).index.well_formed() ==> final(self).index.well_formed(),
            final(self).index.path == old(self).index.path,
            final(self).model() == old(self).model().finished(
                *clip,
                work.output@,
                work.indexed,
                *finalized,
                fingerprint@,
                time@,
                optional(*write_fault),
            ),
            ({
                let fault = recording_fault(
                    work.indexed,
                    clip.recording_key@,
                    optional(*write_fault),
                );
                &&& out.verdict == final(self).verdicts@.last()
                &&& optional(out.removed) == (if fault is Some {
                    None
                } else {
                    optional(work.replaced)
                })
                &&& optional(out.error) == (match *finalized {
                    Finalized::Failed(error) if fault is None => Some(error@),
                    _ => None,
                })
            }),
    {
        let indexing = if work.indexed {
            Indexing::AlreadyThere
        } else if trim(clip.recording_key.as_str()).as_str().is_empty() {
            Indexing::Failed("the retained clip has no recording key".to_owned())
        } else {
            match write_fault {
                Some(fault) => Indexing::Failed(fault.clone()),
                None => {
                    self.index.store_entry(
                        recovered_entry(
                            clip,
                            work.output.clone(),
                            fingerprint.to_owned(),
                            time.to_owned(),
                        ),
                    );
                    Indexing::Stored
                },
            }
        };
        let verdict = settle_clip(
            clip.candidate_id.as_str(),
            finalized,
            &indexing,
            &mut self.report,
        );
        self.verdicts.push(verdict);
        if matches!(indexing, Indexing::Failed(_)) {
            return ClipEnd { verdict, error: None, removed: None };
        }
        let error = match finalized {
            Finalized::Failed(error) => Some(error.clone()),
            _ => None,
        };
        ClipEnd { verdict, error, removed: work.replaced }
    }

    /// What to do with the session now that its clips were looked at.
    pub fn step(&self) -> (out: RecoveryStep)
        ensures
            out == step_after(self.verdicts@),
    {
        after_clips(&self.verdicts)
    }

    /// Reports the end of the session. The fault is that of removing it.
    pub fn close(self, session: &str, fault: &Option<String>) -> (out: RecordingRecoveryReport)
        requires
            self.report.has_room(),
        ensures
            out.model() == closed(
                self.report.model(),
                session@,
                step_after(self.verdicts@),
                optional(*fault),
            ),
    {
        let step = after_clips(&self.verdicts);
        let mut report = self.report;
        if step == RecoveryStep::Keep {
            report.retained_sessions = report.retained_sessions + 1;
            return report;
        }
        match fault {
            None => {
                report.removed_sessions = report.removed_sessions + 1;
            },
            Some(error) => {
                report.retained_sessions = report.retained_sessions + 1;
                let mut words = session.to_owned();
                words.append(" could not be cleaned up: ");
                words.append(error.as_str());
                report.note(words);
            },
        }
        report
    }
}

/// A clip for which nothing is recorded, or whose making failed, keeps its session
/// from being removed; and what is reported as recovered was made just now and is
/// in the index.
pub proof fn law_unfinished_clips_keep_their_session(
    report: ReportModel,
    id: Seq<char>,
    finalized: Finalized,
    indexing: Indexing,
)
    ensures
        verdict_of(finalized, indexing) == ClipVerdict::Completed <==> !(finalized is Failed) && !(
        indexing is Failed),
        settled(report, id, finalized, indexing).recovered_clips > report.recovered_clips
            ==> finalized is Done && indexing is Stored,
{
}

/// A session, with what was found and done while it was recovered. What is told
/// behind the manifest is only of use where that could be read.
pub struct SessionRun {
    pub name: Seq<char>,
    /// Whether it was switched off, and how often it was tried before.
    pub disabled: bool,
    pub attempts: Seq<char>,
    pub reading: ManifestReading,
    pub index: Seq<EntryModel>,
    pub clips: Seq<ClipRun>,
    /// Why it could not be removed.
    pub fault: Option<Seq<char>>,
    /// Whether it was still there at the end, how often it was tried by then, and
    /// whether it was switched off by then.
    pub still_there: bool,
    pub attempts_after: Seq<char>,
    pub disabled_after: bool,
}

impl SessionRun {
    /// The session once its clips were looked at.
    pub open spec fn at_the_end(self, report: ReportModel) -> SessionModel {
        SessionModel { index: self.index, report, verdicts: Seq::empty() }.recovered_all(self.clips)
    }

    /// The report once the session was recovered, as far as it could be.
    pub open spec fn recovered(self, report: ReportModel) -> ReportModel {
        if manifest_fault(self.reading) is Some {
            opened(report, self.name, self.reading)
        } else {
            let end = self.at_the_end(report);
            closed(end.report, self.name, step_after(end.verdicts), self.fault)
        }
    }

    /// The report once the session had its turn at a startup.
    pub open spec fn handled(self, report: ReportModel) -> ReportModel {
        let step = attempt_step(self.disabled, attempts_of(self.attempts));
        let tried = begun(report, step);
        if step is Try {
            let after = self.recovered(tried);
            if ends_switched_off(
                self.still_there,
                after.errors.len() > tried.errors.len(),
                attempts_of(self.attempts_after),
                self.disabled_after,
            ) {
                ReportModel { disabled_sessions: after.disabled_sessions + 1, ..after }
            } else {
                after
            }
        } else {
            tried
        }
    }
}

/// The report at the beginning of a startup.
pub open spec fn first_report(found: RecordingSessionDiscovery) -> ReportModel {
    ReportModel {
        scanned_sessions: 0,
        recovered_clips: 0,
        indexed_clips: 0,
        removed_sessions: 0,
        retained_sessions: 0,
        deferred_sessions: found.deferred_sessions as int,
        disabled_sessions: found.disabled_sessions as int,
        errors: Seq::empty(),
    }
}

/// The report at the beginning of a startup.
pub fn begin_report(found: &RecordingSessionDiscovery) -> (out: RecordingRecoveryReport)
    ensures
        out.model() == first_report(*found),
        found.disabled_sessions < usize::MAX ==> out.has_room(),
{
    let mut out = RecordingRecoveryReport::default();
    out.deferred_sessions = found.deferred_sessions;
    out.disabled_sessions = found.disabled_sessions;
    out
}

/// The report once some sessions had their turn, one after the other.
pub open spec fn handled_all(report: ReportModel, runs: Seq<SessionRun>) -> ReportModel
    decreases runs.len(),
{
    if runs.len() == 0 {
        report
    } else {
        runs.last().handled(handled_all(report, runs.drop_last()))
    }
}

/// Whether a report has all that another has, and in the end maybe more.
pub open spec fn continues(after: ReportModel, before: ReportModel) -> bool {
    &&& after.deferred_sessions == before.deferred_sessions
    &&& after.errors.len() >= before.errors.len()
    &&& after.errors.take(before.errors.len() as int) == before.errors
}

proof fn lemma_clips_recovered(session: SessionModel, runs: Seq<ClipRun>)
    ensures
        ({
            let end = session.recovered_all(runs);
            &&& continues(end.report, session.report)
            &&& end.report.scanned_sessions == session.report.scanned_sessions
            &&& end.report.removed_sessions == session.report.removed_sessions
            &&& end.report.retained_sessions == session.report.retained_sessions
            &&& end.report.disabled_sessions == session.report.disabled_sessions
            &&& session.report.recovered_clips <= end.report.recovered_clips
            &&& session.report.indexed_clips <= end.report.indexed_clips
            &&& end.report.recovered_clips + end.report.indexed_clips
                <= session.report.recovered_clips + session.report.indexed_clips + runs.len()
            &&& end.verdicts.len() == session.verdicts.len() + runs.len()
            &&& are_completed(session.verdicts) && are_completed(end.verdicts)
                ==> end.report.errors == session.report.errors
        }),
    decreases runs.len(),
{
    let end = session.recovered_all(runs);
    if runs.len() == 0 {
        assert(end.report.errors.take(session.report.errors.len() as int)
            =~= session.report.errors);
    } else {
        let before = session.recovered_all(runs.drop_last());
        lemma_clips_recovered(session, runs.drop_last());
        assert(end == before.recovered(runs.last()));
        assert(end.verdicts.drop_last() =~= before.verdicts);
        assert(end.report.errors.take(session.report.errors.len() as int)
            =~= before.report.errors.take(session.report.errors.len() as int));
        if are_completed(end.verdicts) {
            assert forall|i: int| 0 <= i < before.verdicts.len() implies #[trigger]
                before.verdicts[i] == ClipVerdict::Completed by {
                assert(end.verdicts[i] == before.verdicts[i]);
            }
            assert(end.verdicts[end.verdicts.len() - 1] == ClipVerdict::Completed);
            assert(end.report.errors =~= before.report.errors);
        }
    }
}

/// A session that is recovered is counted once: it is either removed or kept. What
/// was reported before stays as it is, the sessions that were looked at or put off
/// are as many as before, and of its clips none is counted twice. It is removed
/// exactly where its manifest could be used, every clip of it is whole and recorded,
/// and nothing keeps it from being removed; then no error is reported of it.
pub proof fn law_session_is_counted_once(report: ReportModel, run: SessionRun)
    ensures
        ({
            let after = run.recovered(report);
            &&& after.removed_sessions + after.retained_sessions == report.removed_sessions
                + report.retained_sessions + 1
            &&& report.removed_sessions <= after.removed_sessions
            &&& report.retained_sessions <= after.retained_sessions
            &&& after.scanned_sessions == report.scanned_sessions
            &&& report.disabled_sessions <= after.disabled_sessions <= report.disabled_sessions + 1
            &&& continues(after, report)
            &&& after.recovered_clips + after.indexed_clips <= report.recovered_clips
                + report.indexed_clips + run.clips.len()
            &&& after.removed_sessions > report.removed_sessions <==> manifest_fault(run.reading)
                is None && are_completed(run.at_the_end(report).verdicts) && run.fault is None
            &&& after.removed_sessions > report.removed_sessions ==> after.errors == report.errors
        }),
{
    let start = SessionModel { index: run.index, report, verdicts: Seq::empty() };
    lemma_clips_recovered(start, run.clips);
    let end = run.at_the_end(report);
    let after = run.recovered(report);
    let known = report.errors.len() as int;
    assert(report.errors.push(manifest_report(run.name, run.reading)).take(known)
        =~= report.errors);
    if manifest_fault(run.reading) is None {
        assert(after.errors.take(known) =~= end.report.errors.take(known));
    }
}

/// A startup looks at no more sessions than it may, and each one that it looks at is
/// either removed or kept; those that were put off stay put off.
pub proof fn law_startup_adds_up(
    entries: Seq<SessionEntry>,
    found: RecordingSessionDiscovery,
    runs: Seq<SessionRun>,
)
    requires
        are_found(
            found,
            entries,
            false,
            MAX_RECOVERY_DIRECTORY_ENTRIES as int,
            MAX_RECOVERY_SESSIONS_PER_STARTUP as int,
        ),
        runs.len() == found.sessions.len(),
    ensures
        ({
            let after = handled_all(first_report(found), runs);
            &&& after.removed_sessions + after.retained_sessions == after.scanned_sessions
            &&& 0 <= after.removed_sessions
            &&& 0 <= after.retained_sessions
            &&& after.scanned_sessions <= found.sessions.len()
                <= MAX_RECOVERY_SESSIONS_PER_STARTUP
            &&& after.deferred_sessions == found.deferred_sessions
            &&& found.disabled_sessions <= after.disabled_sessions <= found.disabled_sessions + 2
                * found.sessions.len()
        }),
{
    lemma_handled_all(first_report(found), runs);
}

proof fn lemma_handled_all(report: ReportModel, runs: Seq<SessionRun>)
    ensures
        ({
            let after = handled_all(report, runs);
            let looked_at = after.scanned_sessions - report.scanned_sessions;
            &&& continues(after, report)
            &&& 0 <= looked_at <= runs.len()
            &&& report.removed_sessions <= after.removed_sessions
            &&& report.retained_sessions <= after.retained_sessions
            &&& after.removed_sessions + after.retained_sessions == report.removed_sessions
                + report.retained_sessions + looked_at
            &&& report.disabled_sessions <= after.disabled_sessions <= report.disabled_sessions + 2
                * runs.len()
        }),
    decreases runs.len(),
{
    let known = report.errors.len() as int;
    if runs.len() == 0 {
        assert(report.errors.take(known) =~= report.errors);
    } else {
        let before = handled_all(report, runs.drop_last());
        lemma_handled_all(report, runs.drop_last());
        let run = runs.last();
        let tried = begun(before, attempt_step(run.disabled, attempts_of(run.attempts)));
        law_session_is_counted_once(tried, run);
        let after = run.handled(before);
        let more = run.recovered(tried);
        assert(more.errors.take(known) =~= more.errors.take(tried.errors.len() as int).take(known));
        assert(after.errors.take(known) =~= before.errors.take(known));
    }
}

// ---------------------------------------------------------------------------
// The settings of a session
// ---------------------------------------------------------------------------

/// What a manifest keeps of the settings.
#[derive(Debug)]
pub struct KeptSettings {
    pub output_format: String,
    pub ffmpeg_executable: String,
    pub encoding: Option<StoredMp4Encoding>,
    pub avi_encoding: Option<StoredAviEncoding>,
    pub dnxhr_encoding: Option<StoredDnxhrEncoding>,
}

/// Whether settings follow from others by the format and the program that a
/// manifest keeps.
pub open spec fn with_kept_format(
    after: AppSettings,
    before: AppSettings,
    kept: KeptSettings,
    ffmpeg_is_there: bool,
) -> bool {
    after == AppSettings {
        recording_format: if trimmed(kept.output_format@).len() > 0 {
            kept.output_format
        } else {
            before.recording_format
        },
        ffmpeg_executable: if ffmpeg_is_there {
            kept.ffmpeg_executable
        } else {
            before.ffmpeg_executable
        },
        ..before
    }
}

/// Whether settings follow from others by the MP4 choices that a manifest keeps.
pub open spec fn with_kept_mp4(
    after: AppSettings,
    before: AppSettings,
    kept: Option<StoredMp4Encoding>,
) -> bool {
    match kept {
        None => after == before,
        Some(mp4) => after.encoding_normalized_from(
            AppSettings {
                mp4_compatibility: mp4.compatibility,
                mp4_video_codec: mp4.video_codec,
                mp4_pixel_format: mp4.pixel_format,
                mp4_h264_profile: mp4.h264_profile,
                mp4_crf: mp4.crf,
                mp4_encoder_preset: mp4.encoder_preset,
                mp4_audio_codec: mp4.audio_codec,
                mp4_audio_bitrate_kbps: mp4.audio_bitrate_kbps,
                ..before
            },
        ),
    }
}

/// Whether settings follow from others by the AVI choices that a manifest keeps;
/// a raw AVI of which none are kept was made the way it always was.
pub open spec fn with_kept_avi(
    after: AppSettings,
    before: AppSettings,
    kept: Option<StoredAviEncoding>,
) -> bool {
    match kept {
        Some(avi) => after.encoding_normalized_from(
            AppSettings {
                avi_video_codec: avi.video_codec,
                avi_pixel_format: avi.pixel_format,
                ..before
            },
        ),
        None => if before.recording_format@ == "AVI - Raw"@ {
            exists|codec: String, format: String|
                codec@ == "Original HLAE Raw"@ && format@ == "HLAE Native"@
                    && #[trigger] after.encoding_normalized_from(
                    AppSettings { avi_video_codec: codec, avi_pixel_format: format, ..before },
                )
        } else {
            after == before
        },
    }
}

/// Whether settings follow from others by the DNxHR choice that a manifest keeps.
pub open spec fn with_kept_dnxhr(
    after: AppSettings,
    before: AppSettings,
    kept: Option<StoredDnxhrEncoding>,
) -> bool {
    match kept {
        None => after == before,
        Some(dnxhr) => after.encoding_normalized_from(
            AppSettings { dnxhr_profile: dnxhr.profile, ..before },
        ),
    }
}

fn keep_mp4(settings: &mut AppSettings, kept: &StoredMp4Encoding)
    ensures
        with_kept_mp4(*final(settings), *old(settings), Some(*kept)),
{
    settings.mp4_compatibility = kept.compatibility.clone();
    settings.mp4_video_codec = kept.video_codec.clone();
    settings.mp4_pixel_format = kept.pixel_format.clone();
    settings.mp4_h264_profile = kept.h264_profile.clone();
    settings.mp4_crf = kept.crf;
    settings.mp4_encoder_preset = kept.encoder_preset.clone();
    settings.mp4_audio_codec = kept.audio_codec.clone();
    settings.mp4_audio_bitrate_kbps = kept.audio_bitrate_kbps;
    settings.normalize_encoding_options();
}

fn keep_avi(settings: &mut AppSettings, kept: &Option<StoredAviEncoding>)
    ensures
        with_kept_avi(*final(settings), *old(settings), *kept),
{
    if let Some(avi) = kept {
        settings.avi_video_codec = avi.video_codec.clone();
        settings.avi_pixel_format = avi.pixel_format.clone();
        settings.normalize_encoding_options();
    } else if same_text(settings.recording_format.as_str(), "AVI - Raw") {
        let codec = "Original HLAE Raw".to_owned();
        let format = "HLAE Native".to_owned();
        let ghost before = *settings;
        settings.avi_video_codec = codec;
        settings.avi_pixel_format = format;
        let ghost middle = *settings;
        settings.normalize_encoding_options();
        proof {
            assert(middle == AppSettings {
                avi_video_codec: codec,
                avi_pixel_format: format,
                ..before
            });
        }
    }
}

fn keep_dnxhr(settings: &mut AppSettings, kept: &StoredDnxhrEncoding)
    ensures
        with_kept_dnxhr(*final(settings), *old(settings), Some(*kept)),
{
    settings.dnxhr_profile = kept.profile.clone();
    settings.normalize_encoding_options();
}

/// Puts the choices that a manifest keeps in the place of those of the settings,
/// each brought into the range that is offered.
pub fn recovery_settings(
    settings: &mut AppSettings,
    kept: &KeptSettings,
    ffmpeg_is_there: bool,
)
    ensures
        exists|a: AppSettings, b: AppSettings, c: AppSettings|
            {
                &&& #[trigger] with_kept_format(a, *old(settings), *kept, ffmpeg_is_there)
                &&& #[trigger] with_kept_mp4(b, a, kept.encoding)
                &&& #[trigger] with_kept_avi(c, b, kept.avi_encoding)
                &&& with_kept_dnxhr(*final(settings), c, kept.dnxhr_encoding)
            },
{
    if !trim(kept.output_format.as_str()).as_str().is_empty() {
        settings.recording_format = kept.output_format.clone();
    }
    if ffmpeg_is_there {
        settings.ffmpeg_executable = kept.ffmpeg_executable.clone();
    }
    let ghost a = *settings;
    if let Some(mp4) = &kept.encoding {
        keep_mp4(settings, mp4);
    }
    let ghost b = *settings;
    keep_avi(settings, &kept.avi_encoding);
    let ghost c = *settings;
    if let Some(dnxhr) = &kept.dnxhr_encoding {
        keep_dnxhr(settings, dnxhr);
    }
    proof {
        assert(with_kept_format(a, *old(settings), *kept, ffmpeg_is_there));
        assert(with_kept_mp4(b, a, kept.encoding));
        assert(with_kept_avi(c, b, kept.avi_encoding));
    }
}

/// A session is tried three times without being asked for, and then switched off; one that
/// is switched off is left alone.
pub proof fn law_three_attempts_are_made(disabled: bool, attempts: int)
    requires
        0 <= attempts <= u32::MAX,
    ensures
        disabled ==> attempt_step(disabled, attempts) == AttemptStep::Skip,
        !disabled && attempts < 3 ==> attempt_step(disabled, attempts) == (AttemptStep::Try {
            attempt: (attempts + 1) as u32,
        }),
        !disabled && attempts >= 3 ==> attempt_step(disabled, attempts) == AttemptStep::SwitchOff,
        ends_switched_off(true, true, attempts, false) <==> attempts >= 3,
{
}

proof fn lemma_sessions_among(
    entries: Seq<SessionEntry>,
    include_disabled: bool,
    upto: int,
    k: int,
)
    requires
        0 <= upto <= entries.len() <= usize::MAX,
        0 <= k < sessions_among(entries, include_disabled, upto).len(),
    ensures
        ({
            let found = sessions_among(entries, include_disabled, upto)[k];
            found.at < upto && is_session(entries[found.at as int]) && (include_disabled
                || !entries[found.at as int].disabled) && found.modified
                == entries[found.at as int].modified
        }),
    decreases upto,
{
    if upto > 0 {
        let before = sessions_among(entries, include_disabled, upto - 1);
        if k < before.len() {
            lemma_sessions_among(entries, include_disabled, upto - 1, k);
        }
    }
}

/// The sessions to recover are folders with the name of one, not switched off unless those
/// are asked for too, the longest unchanged first, and no more than allowed.
pub proof fn law_oldest_sessions_are_recovered_first(
    found: RecordingSessionDiscovery,
    entries: Seq<SessionEntry>,
    include_disabled: bool,
    max_directory_entries: int,
    max_sessions: int,
    i: int,
    j: int,
)
    requires
        are_found(found, entries, include_disabled, max_directory_entries, max_sessions),
        entries.len() <= usize::MAX,
        max_directory_entries >= 0,
        max_sessions >= 0,
        0 <= i <= j < found.sessions.len(),
    ensures
        found.sessions.len() <= max_sessions,
        found.sessions@[i].at < max_directory_entries,
        ({
            let entry = entries[found.sessions@[i].at as int];
            &&& entry.readable && entry.is_folder && (include_disabled || !entry.disabled)
            &&& optional(entry.name) is Some && begins_with(
                optional(entry.name)->0,
                "tf2fragdemohelper_batch_"@,
            )
        }),
        found.sessions@[j].modified is None ==> found.sessions@[i].modified is None,
        found.sessions@[i].modified is Some ==> found.sessions@[j].modified is Some
            && found.sessions@[i].modified->0 <= found.sessions@[j].modified->0,
{
    broadcast use vstd::seq_lib::group_to_multiset_ensures;

    let seen = lesser(entries.len() as int, max_directory_entries);
    let listed = sessions_among(entries, include_disabled, seen);
    let all = in_order(listed);
    law_order_keeps_all(listed);
    let item = all[i];
    assert(all.contains(item));
    assert(all.to_multiset().count(item) > 0);
    assert(listed.to_multiset().count(item) > 0);
    assert(listed.contains(item));
    let k = choose|k: int| 0 <= k < listed.len() && listed[k] == item;
    lemma_sessions_among(entries, include_disabled, seen, k);
    assert(found.sessions@[i] == all[i] && found.sessions@[j] == all[j]);
    if i < j {
        assert(!all[j].before(all[i]));
    }
}

/// The output that a clip is known to have is taken where it is there, else the one that it
/// should have had.
pub proof fn law_known_outputs_come_first(clip: StoredRecordingClip, present: Seq<Seq<char>>)
    ensures
        clip.actual_output_path matches Some(path) ==> present.contains(path@) ==> output_there(
            clip,
            present,
        ) == Some(path@),
        output_there(clip, present) matches Some(path) ==> present.contains(path),
        output_there(clip, present) is None ==> !present.contains(clip.expected_output_path@),
{
}

/// A clip is completed only where it is made and recorded, and its session goes only where
/// every clip is.
pub proof fn law_sessions_go_when_all_is_done(
    finalized: Finalized,
    indexing: Indexing,
    verdicts: Seq<ClipVerdict>,
)
    ensures
        verdict_of(finalized, indexing) == ClipVerdict::Completed <==> !(indexing is Failed) && !(
        finalized is Failed),
        verdict_of(finalized, indexing) == ClipVerdict::NotIndexed <==> indexing is Failed,
        step_after(verdicts) == RecoveryStep::Remove ==> !verdicts.contains(ClipVerdict::Pending)
            && !verdicts.contains(ClipVerdict::NotIndexed),
        step_after(verdicts) == RecoveryStep::Keep ==> verdicts.contains(ClipVerdict::Pending)
            || verdicts.contains(ClipVerdict::NotIndexed),
{
    if step_after(verdicts) == RecoveryStep::Keep {
        let i = choose|i: int|
            0 <= i < verdicts.len() && #[trigger] verdicts[i] != ClipVerdict::Completed;
        assert(verdicts.contains(verdicts[i]));
    }
}

} // verus!
