//! The steps up to a recording, and what is told on the way.
use vstd::prelude::*;
use crate::double::{divide_even, nearest_double, rounded_even, to_double};
use crate::finalize::RecordingProgress;
use crate::number::{int_text, nat_text, two_digit_text, two_digits, u64_text};
use crate::recovery::{report_text, RecordingRecoveryReport};
use crate::scheduler::ResourcePlan;
use crate::text::{
    begins_with, contains_text, has_text, lower, same_text, starts_with, to_lower, to_upper, upper,
};
use crate::view::RecordAnswer;

verus! {

// ---------------------------------------------------------------------------
// Up to a recording
// ---------------------------------------------------------------------------

/// A program that a recording needs.
#[derive(Clone, Copy, Debug, PartialEq, Eq, Structural)]
pub enum RecordProgram {
    Tf2,
    Hlae,
    Ffmpeg,
}

/// What is asked for next.
#[derive(Clone, Copy, Debug, PartialEq, Eq, Structural)]
pub enum RecordStage {
    Idle,
    Picking(RecordProgram),
    AskingAgain,
    CheckingCamera,
    AskingCamera,
    Estimating,
    Confirming,
    Done,
}

/// What came of a question.
#[derive(Clone, Copy, Debug, PartialEq, Eq, Structural)]
pub enum RecordEvent {
    /// A recording is asked for; whether one goes on, and which programs are there.
    Begin { active: bool, tf2: bool, hlae: bool, ffmpeg: bool },
    Picked { chosen: bool },
    Answered(RecordAnswer),
    CameraChecked { usable: bool },
    CameraAnswered { original: bool },
    Estimated(EstimateOutcome),
    Confirmed { yes: bool },
}

/// What came of an estimate.
#[derive(Clone, Copy, Debug, PartialEq, Eq, Structural)]
pub enum EstimateOutcome {
    Failed,
    TooLittleSpace,
    Fits,
}

/// Why nothing is recorded.
#[derive(Clone, Copy, Debug, PartialEq, Eq, Structural)]
pub enum RecordStop {
    Busy,
    NotPicked(RecordProgram),
    Cancelled,
    NothingLeft,
    CameraUnavailable,
    EstimateFailed,
    TooLittleSpace,
    NotConfirmed,
}

/// What is done next.
#[derive(Clone, Copy, Debug, PartialEq, Eq, Structural)]
pub enum RecordAction {
    /// Nothing: the event does not belong to what was asked for.
    Wait,
    Stop(RecordStop),
    Pick(RecordProgram),
    AskAgain { recorded: usize },
    CheckCamera,
    AskOriginalCamera,
    Estimate,
    Confirm,
    Launch,
}

/// The steps up to a recording.
#[derive(Clone, Copy, Debug, PartialEq, Eq, Structural)]
pub struct RecordFlow {
    pub stage: RecordStage,
    /// Whether pictures are recorded, which needs no encoder.
    pub images: bool,
    /// How many of the selected candidates are recorded already.
    pub recorded: usize,
    /// How many are not.
    pub unrecorded: usize,
    pub hlae: bool,
    pub ffmpeg: bool,
    pub replace_existing: bool,
    pub original_camera: bool,
}

impl RecordFlow {
    /// Before anything was asked for.
    pub open spec fn idle(images: bool, recorded: usize, unrecorded: usize) -> RecordFlow {
        RecordFlow {
            stage: RecordStage::Idle,
            images,
            recorded,
            unrecorded,
            hlae: false,
            ffmpeg: false,
            replace_existing: false,
            original_camera: false,
        }
    }

    /// With a stage and what is done at it.
    pub open spec fn at(self, stage: RecordStage, action: RecordAction) -> (RecordFlow, RecordAction) {
        (RecordFlow { stage, ..self }, action)
    }

    /// At the end, with a reason.
    pub open spec fn stopped(self, reason: RecordStop) -> (RecordFlow, RecordAction) {
        self.at(RecordStage::Done, RecordAction::Stop(reason))
    }

    /// With the candidates chosen: all that are selected, or those that are not
    /// recorded.
    pub open spec fn chosen(self, all: bool) -> (RecordFlow, RecordAction) {
        if self.unrecorded == 0 && (!all || self.recorded == 0) {
            self.stopped(RecordStop::NothingLeft)
        } else {
            self.at(RecordStage::CheckingCamera, RecordAction::CheckCamera)
        }
    }

    /// With all programs there.
    pub open spec fn equipped(self) -> (RecordFlow, RecordAction) {
        if self.recorded > 0 {
            self.at(
                RecordStage::AskingAgain,
                RecordAction::AskAgain { recorded: self.recorded },
            )
        } else {
            self.chosen(true)
        }
    }

    /// With the recorder there.
    pub open spec fn with_hlae(self) -> (RecordFlow, RecordAction) {
        if self.images || self.ffmpeg {
            self.equipped()
        } else {
            self.at(
                RecordStage::Picking(RecordProgram::Ffmpeg),
                RecordAction::Pick(RecordProgram::Ffmpeg),
            )
        }
    }

    /// With the game there.
    pub open spec fn with_tf2(self) -> (RecordFlow, RecordAction) {
        if self.hlae {
            self.with_hlae()
        } else {
            self.at(
                RecordStage::Picking(RecordProgram::Hlae),
                RecordAction::Pick(RecordProgram::Hlae),
            )
        }
    }

    /// What follows an event.
    pub open spec fn next(self, event: RecordEvent) -> (RecordFlow, RecordAction) {
        match (self.stage, event) {
            (RecordStage::Idle, RecordEvent::Begin { active, tf2, hlae, ffmpeg }) => {
                let begun = RecordFlow { hlae, ffmpeg, ..self };
                if active {
                    begun.stopped(RecordStop::Busy)
                } else if tf2 {
                    begun.with_tf2()
                } else {
                    begun.at(
                        RecordStage::Picking(RecordProgram::Tf2),
                        RecordAction::Pick(RecordProgram::Tf2),
                    )
                }
            },
            (RecordStage::Picking(program), RecordEvent::Picked { chosen }) => if !chosen {
                self.stopped(RecordStop::NotPicked(program))
            } else {
                match program {
                    RecordProgram::Tf2 => self.with_tf2(),
                    RecordProgram::Hlae => self.with_hlae(),
                    RecordProgram::Ffmpeg => self.equipped(),
                }
            },
            (RecordStage::AskingAgain, RecordEvent::Answered(answer)) => match answer {
                RecordAnswer::RecordAgain => RecordFlow {
                    replace_existing: true,
                    ..self
                }.chosen(true),
                RecordAnswer::SkipRecorded => self.chosen(false),
                RecordAnswer::Cancel => self.stopped(RecordStop::Cancelled),
            },
            (RecordStage::CheckingCamera, RecordEvent::CameraChecked { usable }) => if usable {
                self.at(RecordStage::Estimating, RecordAction::Estimate)
            } else {
                self.at(RecordStage::AskingCamera, RecordAction::AskOriginalCamera)
            },
            (RecordStage::AskingCamera, RecordEvent::CameraAnswered { original }) => if original {
                RecordFlow { original_camera: true, ..self }.at(
                    RecordStage::Estimating,
                    RecordAction::Estimate,
                )
            } else {
                self.stopped(RecordStop::CameraUnavailable)
            },
            (RecordStage::Estimating, RecordEvent::Estimated(outcome)) => match outcome {
                EstimateOutcome::Failed => self.stopped(RecordStop::EstimateFailed),
                EstimateOutcome::TooLittleSpace => self.stopped(RecordStop::TooLittleSpace),
                EstimateOutcome::Fits => self.at(RecordStage::Confirming, RecordAction::Confirm),
            },
            (RecordStage::Confirming, RecordEvent::Confirmed { yes }) => if yes {
                self.at(RecordStage::Done, RecordAction::Launch)
            } else {
                self.stopped(RecordStop::NotConfirmed)
            },
            _ => (self, RecordAction::Wait),
        }
    }

    /// Before anything was asked for.
    pub fn new(images: bool, recorded: usize, unrecorded: usize) -> (out: Self)
        ensures
            out == RecordFlow::idle(images, recorded, unrecorded),
    {
        RecordFlow {
            stage: RecordStage::Idle,
            images,
            recorded,
            unrecorded,
            hlae: false,
            ffmpeg: false,
            replace_existing: false,
            original_camera: false,
        }
    }

    fn turn(&mut self, stage: RecordStage, action: RecordAction) -> (out: RecordAction)
        ensures
            (*final(self), out) == old(self).at(stage, action),
    {
        self.stage = stage;
        action
    }

    fn stop(&mut self, reason: RecordStop) -> (out: RecordAction)
        ensures
            (*final(self), out) == old(self).stopped(reason),
    {
        self.turn(RecordStage::Done, RecordAction::Stop(reason))
    }

    fn choose_candidates(&mut self, all: bool) -> (out: RecordAction)
        ensures
            (*final(self), out) == old(self).chosen(all),
    {
        if self.unrecorded == 0 && (!all || self.recorded == 0) {
            self.stop(RecordStop::NothingLeft)
        } else {
            self.turn(RecordStage::CheckingCamera, RecordAction::CheckCamera)
        }
    }

    fn go_equipped(&mut self) -> (out: RecordAction)
        ensures
            (*final(self), out) == old(self).equipped(),
    {
        if self.recorded > 0 {
            let recorded = self.recorded;
            self.turn(RecordStage::AskingAgain, RecordAction::AskAgain { recorded })
        } else {
            self.choose_candidates(true)
        }
    }

    fn go_with_hlae(&mut self) -> (out: RecordAction)
        ensures
            (*final(self), out) == old(self).with_hlae(),
    {
        if self.images || self.ffmpeg {
            self.go_equipped()
        } else {
            self.turn(
                RecordStage::Picking(RecordProgram::Ffmpeg),
                RecordAction::Pick(RecordProgram::Ffmpeg),
            )
        }
    }

    fn go_with_tf2(&mut self) -> (out: RecordAction)
        ensures
            (*final(self), out) == old(self).with_tf2(),
    {
        if self.hlae {
            self.go_with_hlae()
        } else {
            self.turn(
                RecordStage::Picking(RecordProgram::Hlae),
                RecordAction::Pick(RecordProgram::Hlae),
            )
        }
    }

    /// Goes on after an event; gives what is done next.
    pub fn advance(&mut self, event: RecordEvent) -> (out: RecordAction)
        ensures
            (*final(self), out) == old(self).next(event),
    {
        match (self.stage, event) {
            (RecordStage::Idle, RecordEvent::Begin { active, tf2, hlae, ffmpeg }) => {
                self.hlae = hlae;
                self.ffmpeg = ffmpeg;
                if active {
                    self.stop(RecordStop::Busy)
                } else if tf2 {
                    self.go_with_tf2()
                } else {
                    self.turn(
                        RecordStage::Picking(RecordProgram::Tf2),
                        RecordAction::Pick(RecordProgram::Tf2),
                    )
                }
            },
            (RecordStage::Picking(program), RecordEvent::Picked { chosen }) => if !chosen {
                self.stop(RecordStop::NotPicked(program))
            } else {
                match program {
                    RecordProgram::Tf2 => self.go_with_tf2(),
                    RecordProgram::Hlae => self.go_with_hlae(),
                    RecordProgram::Ffmpeg => self.go_equipped(),
                }
            },
            (RecordStage::AskingAgain, RecordEvent::Answered(answer)) => match answer {
                RecordAnswer::RecordAgain => {
                    self.replace_existing = true;
                    self.choose_candidates(true)
                },
                RecordAnswer::SkipRecorded => self.choose_candidates(false),
                RecordAnswer::Cancel => self.stop(RecordStop::Cancelled),
            },
            (RecordStage::CheckingCamera, RecordEvent::CameraChecked { usable }) => if usable {
                self.turn(RecordStage::Estimating, RecordAction::Estimate)
            } else {
                self.turn(RecordStage::AskingCamera, RecordAction::AskOriginalCamera)
            },
            (RecordStage::AskingCamera, RecordEvent::CameraAnswered { original }) => if original {
                self.original_camera = true;
                self.turn(RecordStage::Estimating, RecordAction::Estimate)
            } else {
                self.stop(RecordStop::CameraUnavailable)
            },
            (RecordStage::Estimating, RecordEvent::Estimated(outcome)) => match outcome {
                EstimateOutcome::Failed => self.stop(RecordStop::EstimateFailed),
                EstimateOutcome::TooLittleSpace => self.stop(RecordStop::TooLittleSpace),
                EstimateOutcome::Fits => self.turn(RecordStage::Confirming, RecordAction::Confirm),
            },
            (RecordStage::Confirming, RecordEvent::Confirmed { yes }) => if yes {
                self.turn(RecordStage::Done, RecordAction::Launch)
            } else {
                self.stop(RecordStop::NotConfirmed)
            },
            _ => RecordAction::Wait,
        }
    }
}

/// Where events lead.
pub open spec fn flow_after(flow: RecordFlow, events: Seq<RecordEvent>) -> RecordFlow
    decreases events.len(),
{
    if events.len() == 0 {
        flow
    } else {
        flow_after(flow, events.drop_last()).next(events.last()).0
    }
}

/// Whether an event asks for a recording while none goes on.
pub open spec fn begins_free(event: RecordEvent) -> bool {
    event matches RecordEvent::Begin { active, .. } && !active
}

proof fn lemma_flow_begins_free(flow: RecordFlow, events: Seq<RecordEvent>)
    requires
        flow.stage == RecordStage::Idle,
    ensures
        flow_after(flow, events).stage == RecordStage::Idle || flow_after(flow, events).stage
            == RecordStage::Done || exists|i: int|
            0 <= i < events.len() && begins_free(#[trigger] events[i]),
    decreases events.len(),
{
    if events.len() > 0 {
        let rest = events.drop_last();
        lemma_flow_begins_free(flow, rest);
        let before = flow_after(flow, rest).stage;
        if before == RecordStage::Idle {
            assert(events[events.len() - 1] == events.last());
        } else if before != RecordStage::Done {
            let i = choose|i: int| 0 <= i < rest.len() && begins_free(#[trigger] rest[i]);
            assert(begins_free(events[i]));
        }
    }
}

proof fn lemma_flow_keeps(flow: RecordFlow, events: Seq<RecordEvent>)
    requires
        flow.stage == RecordStage::Idle,
        !flow.replace_existing,
        !flow.original_camera,
    ensures
        flow_after(flow, events).recorded == flow.recorded,
        flow_after(flow, events).unrecorded == flow.unrecorded,
        flow_after(flow, events).stage == RecordStage::Confirming ==> events.contains(
            RecordEvent::Estimated(EstimateOutcome::Fits),
        ) && flow.recorded + flow.unrecorded > 0,
        flow_after(flow, events).stage == RecordStage::Estimating ==> flow.recorded
            + flow.unrecorded > 0,
        flow_after(flow, events).stage == RecordStage::CheckingCamera ==> flow.recorded
            + flow.unrecorded > 0,
        flow_after(flow, events).stage == RecordStage::AskingCamera ==> flow.recorded
            + flow.unrecorded > 0,
        flow_after(flow, events).replace_existing ==> events.contains(
            RecordEvent::Answered(RecordAnswer::RecordAgain),
        ),
    decreases events.len(),
{
    if events.len() > 0 {
        let rest = events.drop_last();
        lemma_flow_keeps(flow, rest);
        let before = flow_after(flow, rest);
        let event = events.last();
        assert(events[events.len() - 1] == event);
        assert forall|e: RecordEvent| rest.contains(e) implies events.contains(e) by {
            let k = choose|k: int| 0 <= k < rest.len() && rest[k] == e;
            assert(events[k] == e);
        }
        assert(events.contains(event));
    }
}

/// Nothing is recorded unless a candidate is selected, the estimate fits the disk
/// and it was confirmed; and nothing that is recorded already is replaced unless
/// that was answered.
pub proof fn law_recording_needs_consent(
    flow: RecordFlow,
    events: Seq<RecordEvent>,
    event: RecordEvent,
)
    requires
        flow == RecordFlow::idle(flow.images, flow.recorded, flow.unrecorded),
        flow_after(flow, events).next(event).1 == RecordAction::Launch,
    ensures
        event == (RecordEvent::Confirmed { yes: true }),
        events.contains(RecordEvent::Estimated(EstimateOutcome::Fits)),
        flow.recorded + flow.unrecorded > 0,
        flow_after(flow, events).replace_existing ==> events.contains(
            RecordEvent::Answered(RecordAnswer::RecordAgain),
        ),
{
    lemma_flow_keeps(flow, events);
}

/// Nothing is recorded while another recording or the recovery of one goes on.
pub proof fn law_recordings_wait_for_each_other(
    flow: RecordFlow,
    events: Seq<RecordEvent>,
    event: RecordEvent,
)
    requires
        flow == RecordFlow::idle(flow.images, flow.recorded, flow.unrecorded),
        flow_after(flow, events).next(event).1 == RecordAction::Launch,
    ensures
        exists|i: int| 0 <= i < events.len() && begins_free(#[trigger] events[i]),
{
    lemma_flow_begins_free(flow, events);
}

/// After the end nothing more is done.
pub proof fn law_flow_ends(flow: RecordFlow, event: RecordEvent)
    requires
        flow.stage == RecordStage::Done,
    ensures
        flow.next(event) == (flow, RecordAction::Wait),
{
}

/// What a window that asks for a program is titled.
pub open spec fn program_title(program: RecordProgram) -> Seq<char> {
    match program {
        RecordProgram::Tf2 => "Select the Team Fortress 2 Executable"@,
        RecordProgram::Hlae => "Select the HLAE Executable"@,
        RecordProgram::Ffmpeg => "Select the FFmpeg Executable"@,
    }
}

impl RecordProgram {
    /// What a window that asks for the program is titled.
    pub fn title(self) -> (out: &'static str)
        ensures
            out@ == program_title(self),
    {
        match self {
            RecordProgram::Tf2 => "Select the Team Fortress 2 Executable",
            RecordProgram::Hlae => "Select the HLAE Executable",
            RecordProgram::Ffmpeg => "Select the FFmpeg Executable",
        }
    }
}

/// What is told where nothing is recorded.
pub open spec fn stop_text(reason: RecordStop, error: Seq<char>) -> Seq<char> {
    match reason {
        RecordStop::Busy =>
            "Wait for the active recording or output-recovery process to finish before starting another batch"@,
        RecordStop::NotPicked(program) => "Recording cancelled; "@ + program_title(program)
            + " was not selected"@,
        RecordStop::Cancelled => "Recording cancelled"@,
        RecordStop::NothingLeft => "All selected candidates already have matching recordings"@,
        RecordStop::CameraUnavailable =>
            "Recording cancelled because the cinematic camera was unavailable"@,
        RecordStop::EstimateFailed => "Recording blocked: "@ + error,
        RecordStop::TooLittleSpace =>
            "Recording blocked because the output drive does not have enough free space"@,
        RecordStop::NotConfirmed => "Recording cancelled after pre-flight review"@,
    }
}

impl RecordStop {
    /// What is told where nothing is recorded; the error is that of the estimate.
    pub fn text(self, error: &str) -> (out: String)
        ensures
            out@ == stop_text(self, error@),
    {
        match self {
            RecordStop::Busy =>
                "Wait for the active recording or output-recovery process to finish before starting another batch".to_owned(),
            RecordStop::NotPicked(program) => {
                let mut out = "Recording cancelled; ".to_owned();
                out.append(program.title());
                out.append(" was not selected");
                out
            },
            RecordStop::Cancelled => "Recording cancelled".to_owned(),
            RecordStop::NothingLeft =>
                "All selected candidates already have matching recordings".to_owned(),
            RecordStop::CameraUnavailable =>
                "Recording cancelled because the cinematic camera was unavailable".to_owned(),
            RecordStop::EstimateFailed => {
                let mut out = "Recording blocked: ".to_owned();
                out.append(error);
                out
            },
            RecordStop::TooLittleSpace =>
                "Recording blocked because the output drive does not have enough free space".to_owned(),
            RecordStop::NotConfirmed => "Recording cancelled after pre-flight review".to_owned(),
        }
    }
}

/// What is asked where some candidates are recorded already.
pub fn record_again_question(recorded: usize) -> (out: String)
    ensures
        out@ == int_text(recorded as int)
            + " selected candidate(s) already have a matching recording.\n\nYes: record them again and replace the old output after each replacement finishes successfully\nNo: skip the previously recorded candidates and record only new selections\nCancel: do not start\n\nThe loaded candidates and their selections remain available after every batch."@,
{
    let mut out = u64_text(recorded as u64);
    out.append(
        " selected candidate(s) already have a matching recording.\n\nYes: record them again and replace the old output after each replacement finishes successfully\nNo: skip the previously recorded candidates and record only new selections\nCancel: do not start\n\nThe loaded candidates and their selections remain available after every batch.",
    );
    out
}

/// The one candidate that is selected, where it is one.
pub fn single_selected(selected: &Vec<usize>) -> (out: Option<usize>)
    ensures
        out == (if selected.len() == 1 {
            Some(selected@[0])
        } else {
            None
        }),
{
    if selected.len() == 1 {
        Some(selected[0])
    } else {
        None
    }
}

// ---------------------------------------------------------------------------
// While it is recorded
// ---------------------------------------------------------------------------

/// The short form of what is told while a recording goes on.
pub open spec fn background_text(message: Seq<char>) -> Seq<char> {
    let low = lower(message);
    if has_text(low, "consolidating recorded candidate"@) {
        upper(message)
    } else if has_text(low, "consolidating completed"@) {
        "CONSOLIDATING COMPLETED RECORDINGS"@
    } else if has_text(low, "restoring"@) {
        "RESTORING TF2 FILES"@
    } else if has_text(low, "archiving"@) || has_text(low, "finaliz"@) {
        "FINALIZING OUTPUTS"@
    } else if has_text(low, "hlae started"@) || has_text(low, "recording"@) {
        "HLAE RECORDING ACTIVE"@
    } else {
        "RECORDING WORK IN PROGRESS"@
    }
}

/// The short form of what is told while a recording goes on.
pub fn recording_background_label(message: &str) -> (out: String)
    ensures
        out@ == background_text(message@),
{
    let low = to_lower(message);
    let text = low.as_str();
    if contains_text(text, "consolidating recorded candidate") {
        to_upper(message)
    } else if contains_text(text, "consolidating completed") {
        "CONSOLIDATING COMPLETED RECORDINGS".to_owned()
    } else if contains_text(text, "restoring") {
        "RESTORING TF2 FILES".to_owned()
    } else if contains_text(text, "archiving") || contains_text(text, "finaliz") {
        "FINALIZING OUTPUTS".to_owned()
    } else if contains_text(text, "hlae started") || contains_text(text, "recording") {
        "HLAE RECORDING ACTIVE".to_owned()
    } else {
        "RECORDING WORK IN PROGRESS".to_owned()
    }
}

/// What is told of the progress of a recording, and its short form.
pub open spec fn progress_told(event: RecordingProgress) -> Option<(Seq<char>, Seq<char>)> {
    match event {
        RecordingProgress::Status(message) => Some((message@, background_text(message@))),
        RecordingProgress::ClipStarted { candidate_id, current, total } => Some(
            (
                "Recording candidate "@ + int_text(current as int) + " of "@ + int_text(
                    total as int,
                ) + ": "@ + candidate_id@,
                "CANDIDATE "@ + int_text(current as int) + " / "@ + int_text(total as int) + ": "@
                    + candidate_id@,
            ),
        ),
        RecordingProgress::ClipCompleted { candidate_id, output_path } => Some(
            ("Recorded "@ + candidate_id@ + ": "@ + output_path@, "FINALIZING OUTPUTS"@),
        ),
        RecordingProgress::Finished { completed, failed, session } => Some(
            (
                "Recording finished: "@ + int_text(completed as int) + " completed, "@ + int_text(
                    failed as int,
                ) + " failed. "@ + (match session {
                    Some(folder) => "Logs: "@ + folder@,
                    None => "Temporary session data was cleaned up."@,
                }),
                "READY"@,
            ),
        ),
        RecordingProgress::ManualFinished { .. } => None,
    }
}

/// What is told of the progress of a batch, and its short form; a session that is
/// recorded by hand is no batch.
pub fn recording_progress_text(event: &RecordingProgress) -> (out: Option<(String, String)>)
    ensures
        match (out, progress_told(*event)) {
            (Some(texts), Some(told)) => texts.0@ == told.0 && texts.1@ == told.1,
            (None, None) => true,
            _ => false,
        },
{
    match event {
        RecordingProgress::Status(message) => Some(
            (message.clone(), recording_background_label(message.as_str())),
        ),
        RecordingProgress::ClipStarted { candidate_id, current, total } => {
            let mut status = "Recording candidate ".to_owned();
            status.append(u64_text(*current as u64).as_str());
            status.append(" of ");
            status.append(u64_text(*total as u64).as_str());
            status.append(": ");
            status.append(candidate_id.as_str());
            let mut short = "CANDIDATE ".to_owned();
            short.append(u64_text(*current as u64).as_str());
            short.append(" / ");
            short.append(u64_text(*total as u64).as_str());
            short.append(": ");
            short.append(candidate_id.as_str());
            Some((status, short))
        },
        RecordingProgress::ClipCompleted { candidate_id, output_path } => {
            let mut status = "Recorded ".to_owned();
            status.append(candidate_id.as_str());
            status.append(": ");
            status.append(output_path.as_str());
            Some((status, "FINALIZING OUTPUTS".to_owned()))
        },
        RecordingProgress::Finished { completed, failed, session } => {
            let mut status = "Recording finished: ".to_owned();
            status.append(u64_text(*completed as u64).as_str());
            status.append(" completed, ");
            status.append(u64_text(*failed as u64).as_str());
            status.append(" failed. ");
            match session {
                Some(folder) => {
                    let mut logs = "Logs: ".to_owned();
                    logs.append(folder.as_str());
                    status.append(logs.as_str());
                },
                None => {
                    status.append("Temporary session data was cleaned up.");
                },
            }
            Some((status, "READY".to_owned()))
        },
        RecordingProgress::ManualFinished { .. } => None,
    }
}

/// What is told after recordings of earlier sessions were looked for; what was told
/// before where there was nothing to do.
pub fn recovery_status(report: &RecordingRecoveryReport, idle: &str) -> (out: String)
    ensures
        out@ == (if report.scanned_sessions > 0 || report.deferred_sessions > 0
            || report.disabled_sessions > 0 || report.errors.len() > 0 {
            report_text(report.model())
        } else {
            idle@
        }),
{
    if report.scanned_sessions > 0 || report.deferred_sessions > 0 || report.disabled_sessions > 0
        || report.errors.len() > 0 {
        report.summary()
    } else {
        idle.to_owned()
    }
}

// ---------------------------------------------------------------------------
// Parsing
// ---------------------------------------------------------------------------

/// What comes of the wish to parse demos.
#[derive(Clone, Copy, Debug, PartialEq, Eq, Structural)]
pub enum BatchStart {
    ChooseDemos,
    EstimateFailed,
    TooLittleSpace,
    Ask,
    NotConfirmed,
    Start,
}

/// What comes of the wish to parse demos, from how many there are, what came of the
/// estimate and what was answered.
pub open spec fn batch_start_of(
    demos: int,
    estimate: EstimateOutcome,
    confirmed: Option<bool>,
) -> BatchStart {
    if demos == 0 {
        BatchStart::ChooseDemos
    } else {
        match estimate {
            EstimateOutcome::Failed => BatchStart::EstimateFailed,
            EstimateOutcome::TooLittleSpace => BatchStart::TooLittleSpace,
            EstimateOutcome::Fits => match confirmed {
                None => BatchStart::Ask,
                Some(true) => BatchStart::Start,
                Some(false) => BatchStart::NotConfirmed,
            },
        }
    }
}

/// What comes of the wish to parse demos.
pub fn batch_start(demos: usize, estimate: EstimateOutcome, confirmed: Option<bool>) -> (out:
    BatchStart)
    ensures
        out == batch_start_of(demos as int, estimate, confirmed),
{
    if demos == 0 {
        return BatchStart::ChooseDemos;
    }
    match estimate {
        EstimateOutcome::Failed => BatchStart::EstimateFailed,
        EstimateOutcome::TooLittleSpace => BatchStart::TooLittleSpace,
        EstimateOutcome::Fits => match confirmed {
            None => BatchStart::Ask,
            Some(yes) => if yes {
                BatchStart::Start
            } else {
                BatchStart::NotConfirmed
            },
        },
    }
}

/// What is told of the wish to parse demos.
pub open spec fn batch_start_text(start: BatchStart, error: Seq<char>) -> Seq<char> {
    match start {
        BatchStart::ChooseDemos => "Choose one or more .dem files"@,
        BatchStart::EstimateFailed => "Cannot start: "@ + error,
        BatchStart::TooLittleSpace =>
            "Parsing blocked because the export drive does not have enough free space"@,
        BatchStart::Ask => "Start parsing and analysis now?"@,
        BatchStart::NotConfirmed => "Parsing cancelled after pre-flight review"@,
        BatchStart::Start => "Preparing Rust resource plan..."@,
    }
}

impl BatchStart {
    /// What is told of it; the error is that of the estimate.
    pub fn text(self, error: &str) -> (out: String)
        ensures
            out@ == batch_start_text(self, error@),
    {
        match self {
            BatchStart::ChooseDemos => "Choose one or more .dem files".to_owned(),
            BatchStart::EstimateFailed => {
                let mut out = "Cannot start: ".to_owned();
                out.append(error);
                out
            },
            BatchStart::TooLittleSpace =>
                "Parsing blocked because the export drive does not have enough free space".to_owned(),
            BatchStart::Ask => "Start parsing and analysis now?".to_owned(),
            BatchStart::NotConfirmed => "Parsing cancelled after pre-flight review".to_owned(),
            BatchStart::Start => "Preparing Rust resource plan...".to_owned(),
        }
    }
}

/// Whether the error of a batch is told: not where it was called off, nor where a
/// crash was told already.
pub fn failure_is_told(error: &str) -> (r: bool)
    ensures
        r == (error@ != "cancelled"@ && !begins_with(error@, "analyzer crashed:"@)),
{
    !same_text(error, "cancelled") && !starts_with(error, "analyzer crashed:")
}

/// What happens while demos are parsed.
#[derive(Debug)]
pub enum ProgressEvent {
    Plan(ResourcePlan),
    Log(String),
    Phase {
        phase: u8,
        completed: usize,
        total: usize,
        eta_seconds: Option<u64>,
        active_workers: usize,
        worker_limit: usize,
    },
    Complete { export_root: String, candidates: usize },
    Failed(String),
    Cancelled,
}

/// A time that is left, in two of its parts at most.
pub open spec fn time_left_text(seconds: nat) -> Seq<char> {
    if seconds / 3600 > 0 {
        nat_text(seconds / 3600) + "h "@ + two_digits((seconds % 3600 / 60) as int) + "m"@
    } else if seconds % 3600 / 60 > 0 {
        nat_text(seconds % 3600 / 60) + "m "@ + two_digits((seconds % 60) as int) + "s"@
    } else {
        nat_text(seconds % 60) + "s"@
    }
}

/// A time that is left, in two of its parts at most.
pub fn format_time_left(seconds: u64) -> (out: String)
    ensures
        out@ == time_left_text(seconds as nat),
{
    let hours: u64 = seconds / 3600;
    let minutes: u64 = seconds % 3600 / 60;
    let rest: u64 = seconds % 60;
    if hours > 0 {
        let mut out = u64_text(hours);
        out.append("h ");
        out.append(two_digit_text(minutes).as_str());
        out.append("m");
        out
    } else if minutes > 0 {
        let mut out = u64_text(minutes);
        out.append("m ");
        out.append(two_digit_text(rest).as_str());
        out.append("s");
        out
    } else {
        let mut out = u64_text(rest);
        out.append("s");
        out
    }
}

/// A number of bytes in gigabytes, with one decimal.
pub open spec fn gigabytes_text(bytes: nat) -> Seq<char> {
    let tenths = rounded_even(10 * nearest_double(bytes), 0x4000_0000);
    nat_text(tenths / 10) + "."@ + nat_text(tenths % 10)
}

fn write_gigabytes(bytes: u64) -> (out: String)
    ensures
        out@ == gigabytes_text(bytes as nat),
{
    let size: u128 = to_double(bytes as u128);
    let tenths: u128 = divide_even(10 * size, 0x4000_0000);
    let mut out = u64_text((tenths / 10) as u64);
    out.append(".");
    out.append(u64_text((tenths % 10) as u64).as_str());
    out
}

/// What is told of the resources that a batch uses.
pub open spec fn plan_told(plan: ResourcePlan) -> Seq<char> {
    plan.performance_profile.name() + " performance | "@ + int_text(
        plan.logical_processors as int,
    ) + " logical CPUs | parser jobs "@ + int_text(plan.parse_worker_ceiling as int)
        + " | analyzer threads "@ + int_text(plan.analysis_worker_ceiling as int)
        + " / resident demos "@ + int_text(plan.analysis_job_ceiling as int)
        + " | live CPU target "@ + int_text(plan.performance_profile.load_target() as int)
        + "% | available RAM "@ + gigabytes_text(plan.available_memory_bytes as nat) + " GB"@
}

/// What is told of the resources that a batch uses.
pub fn plan_text(plan: &ResourcePlan) -> (out: String)
    ensures
        out@ == plan_told(*plan),
{
    let mut out = plan.performance_profile.label().to_owned();
    out.append(" performance | ");
    out.append(u64_text(plan.logical_processors as u64).as_str());
    out.append(" logical CPUs | parser jobs ");
    out.append(u64_text(plan.parse_worker_ceiling as u64).as_str());
    out.append(" | analyzer threads ");
    out.append(u64_text(plan.analysis_worker_ceiling as u64).as_str());
    out.append(" / resident demos ");
    out.append(u64_text(plan.analysis_job_ceiling as u64).as_str());
    out.append(" | live CPU target ");
    out.append(u64_text(plan.performance_profile.target_cpu_percent() as u64).as_str());
    out.append("% | available RAM ");
    out.append(write_gigabytes(plan.available_memory_bytes).as_str());
    out.append(" GB");
    out
}

/// What is told of the progress of a batch.
pub open spec fn batch_told(event: ProgressEvent) -> Seq<char> {
    match event {
        ProgressEvent::Plan(plan) => plan_told(plan),
        ProgressEvent::Log(line) => line@,
        ProgressEvent::Phase {
            phase,
            completed,
            total,
            eta_seconds,
            active_workers,
            worker_limit,
        } => "Phase "@ + int_text(phase as int) + " of 2: "@ + int_text(completed as int) + "/"@
            + int_text(total as int) + " | active workers "@ + int_text(active_workers as int)
            + "/"@ + int_text(worker_limit as int) + " | ETA "@ + (match eta_seconds {
            Some(seconds) => time_left_text(seconds as nat),
            None => "estimating…"@,
        }),
        ProgressEvent::Complete { export_root, candidates } => "Complete: "@ + int_text(
            candidates as int,
        ) + " candidates — "@ + export_root@,
        ProgressEvent::Failed(error) => "Failed: "@ + error@,
        ProgressEvent::Cancelled => "Cancelled; completed exports were retained"@,
    }
}

impl ProgressEvent {
    /// What is told of it.
    pub fn text(&self) -> (out: String)
        ensures
            out@ == batch_told(*self),
    {
        match self {
            ProgressEvent::Plan(plan) => plan_text(plan),
            ProgressEvent::Log(line) => line.clone(),
            ProgressEvent::Phase {
                phase,
                completed,
                total,
                eta_seconds,
                active_workers,
                worker_limit,
            } => {
                let mut out = "Phase ".to_owned();
                out.append(u64_text(*phase as u64).as_str());
                out.append(" of 2: ");
                out.append(u64_text(*completed as u64).as_str());
                out.append("/");
                out.append(u64_text(*total as u64).as_str());
                out.append(" | active workers ");
                out.append(u64_text(*active_workers as u64).as_str());
                out.append("/");
                out.append(u64_text(*worker_limit as u64).as_str());
                out.append(" | ETA ");
                match eta_seconds {
                    Some(seconds) => {
                        out.append(format_time_left(*seconds).as_str());
                    },
                    None => {
                        out.append("estimating…");
                    },
                }
                out
            },
            ProgressEvent::Complete { export_root, candidates } => {
                let mut out = "Complete: ".to_owned();
                out.append(u64_text(*candidates as u64).as_str());
                out.append(" candidates — ");
                out.append(export_root.as_str());
                out
            },
            ProgressEvent::Failed(error) => {
                let mut out = "Failed: ".to_owned();
                out.append(error.as_str());
                out
            },
            ProgressEvent::Cancelled => "Cancelled; completed exports were retained".to_owned(),
        }
    }

    /// Whether nothing more happens after it.
    pub fn is_last(&self) -> (r: bool)
        ensures
            r == (self is Complete || self is Failed || self is Cancelled),
    {
        match self {
            ProgressEvent::Complete { .. } => true,
            ProgressEvent::Failed(_) => true,
            ProgressEvent::Cancelled => true,
            _ => false,
        }
    }
}

/// What is told of the table: how many candidates are shown of how many.
pub fn candidate_summary(shown: usize, all: usize) -> (out: String)
    ensures
        out@ == int_text(shown as int) + " of "@ + int_text(all as int) + " ranked candidates"@,
{
    let mut out = u64_text(shown as u64);
    out.append(" of ");
    out.append(u64_text(all as u64).as_str());
    out.append(" ranked candidates");
    out
}

/// What is told once an export was loaded.
pub fn loaded_status(candidates: usize, checking: bool) -> (out: String)
    ensures
        out@ == "Loaded "@ + int_text(candidates as int) + (if checking {
            " candidates — checking saved recordings in the background"@
        } else {
            " candidates"@
        }),
{
    let mut out = "Loaded ".to_owned();
    out.append(u64_text(candidates as u64).as_str());
    if checking {
        out.append(" candidates — checking saved recordings in the background");
    } else {
        out.append(" candidates");
    }
    out
}

/// The wish that a choice of the filter for recorded candidates stands for.
pub fn recorded_filter(value: &str) -> (out: Option<bool>)
    ensures
        out == (if value@ == "Yes"@ {
            Some(true)
        } else if value@ == "No"@ {
            Some(false)
        } else {
            None
        }),
{
    if same_text(value, "Yes") {
        Some(true)
    } else if same_text(value, "No") {
        Some(false)
    } else {
        None
    }
}

/// Pictures are recorded without an encoder, and a program that is there is not asked for.
pub proof fn law_programs_are_asked_for_where_needed(flow: RecordFlow, event: RecordEvent)
    ensures
        flow.images ==> flow.next(event).1 != RecordAction::Pick(RecordProgram::Ffmpeg),
        flow.next(event).1 == RecordAction::Pick(RecordProgram::Ffmpeg) ==> !flow.next(
            event,
        ).0.ffmpeg,
        flow.next(event).1 == RecordAction::Pick(RecordProgram::Hlae) ==> !flow.next(event).0.hlae,
        event matches RecordEvent::Begin { active, tf2, hlae, ffmpeg } ==> flow.stage
            == RecordStage::Idle && !active ==> (flow.next(event).1 == RecordAction::Pick(
            RecordProgram::Tf2,
        ) <==> !tf2) && (flow.next(event).1 == RecordAction::Pick(RecordProgram::Hlae) <==> tf2
            && !hlae) && (flow.next(event).1 == RecordAction::Pick(RecordProgram::Ffmpeg) <==> tf2
            && hlae && !ffmpeg && !flow.images),
{
}

/// Candidates that are recorded already are recorded again only where that is asked for, and
/// nothing goes on where nothing is left to record.
pub proof fn law_recorded_candidates_are_asked_about(flow: RecordFlow, event: RecordEvent)
    ensures
        flow.next(event).1 == RecordAction::CheckCamera ==> flow.recorded == 0 || flow.stage
            == RecordStage::AskingAgain,
        flow.next(event).1 == RecordAction::CheckCamera ==> flow.unrecorded > 0 || (flow.recorded
            > 0 && event == RecordEvent::Answered(RecordAnswer::RecordAgain)),
        flow.next(event).0.replace_existing && !flow.replace_existing ==> event
            == RecordEvent::Answered(RecordAnswer::RecordAgain),
        flow.next(event).0.original_camera && !flow.original_camera ==> flow.stage
            == RecordStage::AskingCamera,
        flow.next(event).0.recorded == flow.recorded && flow.next(event).0.unrecorded
            == flow.unrecorded,
{
}

/// Parsing starts where there are demos, they fit, and it was agreed to; nothing else starts
/// it.
pub proof fn law_parsing_needs_consent(
    demos: int,
    estimate: EstimateOutcome,
    confirmed: Option<bool>,
)
    ensures
        batch_start_of(demos, estimate, confirmed) == BatchStart::Start <==> demos != 0 && estimate
            == EstimateOutcome::Fits && confirmed == Some(true),
        batch_start_of(demos, estimate, confirmed) == BatchStart::Ask <==> demos != 0 && estimate
            == EstimateOutcome::Fits && confirmed is None,
{
}

/// The time that is left is told in hours and minutes, else in minutes and seconds, else in
/// seconds.
pub proof fn law_time_left_is_told(hours: nat, minutes: nat, seconds: nat)
    requires
        minutes < 60,
        seconds < 60,
    ensures
        hours > 0 ==> time_left_text(3600 * hours + 60 * minutes + seconds) == nat_text(hours)
            + "h "@ + two_digits(minutes as int) + "m"@,
        minutes > 0 ==> time_left_text(60 * minutes + seconds) == nat_text(minutes) + "m "@
            + two_digits(seconds as int) + "s"@,
        time_left_text(seconds) == nat_text(seconds) + "s"@,
{
    let all = 3600 * hours + 60 * minutes + seconds;
    assert(all / 3600 == hours && all % 3600 / 60 == minutes);
    assert((60 * minutes + seconds) / 3600 == 0 && (60 * minutes + seconds) % 3600 / 60 == minutes
        && (60 * minutes + seconds) % 60 == seconds);
}

} // verus!
