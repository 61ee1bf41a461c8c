//! The scripts that steer the playback of a demo: what is done at which tick.
use vstd::prelude::*;
use crate::clips::{
    candidate_needs_spectator_focus, clear_pass, clip_window, comes_clear,
    law_passes_record_every_window, lemma_seeks_below, manual_seek_targets, needs_focus, passes_of, rising_pass,
    sanitize, sanitized, seeks_to, tick_values, window_end, window_fits, window_start, windows_fit,
    windows_of, RECORDING_FLUSH_TICKS, VDM_ACTION_GAP_TICKS,
};
use crate::models::Candidate;
use crate::number::{i64_text, int_text, nat_text, u64_text};
use crate::settings::AppSettings;
use crate::text::{chars_of, join, joined, views};

verus! {

/// What the game prints when a tick is reached.
pub open spec fn tick_marker() -> Seq<char> {
    "TF2FRAG_DIRECTOR_TICK"@
}

// ---------------------------------------------------------------------------
// Actions
// ---------------------------------------------------------------------------

/// Something done during playback: a seek, or commands.
#[derive(Debug)]
pub struct VdmAction<T> {
    pub factory: T,
    pub name: T,
    pub tick: i64,
    pub skip_to: Option<i64>,
    pub commands: T,
}

impl VdmAction<String> {
    /// The action with its texts as sequences.
    pub open spec fn model(&self) -> VdmAction<Seq<char>> {
        VdmAction {
            factory: self.factory@,
            name: self.name@,
            tick: self.tick,
            skip_to: self.skip_to,
            commands: self.commands@,
        }
    }
}

/// What actions hold.
pub open spec fn action_models(actions: Seq<VdmAction<String>>) -> Seq<VdmAction<Seq<char>>> {
    Seq::new(actions.len(), |i: int| actions[i].model())
}

/// A text with a backslash before every quotation mark.
pub open spec fn quoted_safely(text: Seq<char>) -> Seq<char>
    decreases text.len(),
{
    if text.len() == 0 {
        Seq::empty()
    } else {
        let before = quoted_safely(text.drop_last());
        if text.last() == '"' {
            before.push('\\').push('"')
        } else {
            before.push(text.last())
        }
    }
}

fn quote_safely(text: &str) -> (out: String)
    ensures
        out@ == quoted_safely(text@),
{
    let chars = chars_of(text);
    let mut out = String::new();
    let mut i: usize = 0;
    assert(out@ =~= quoted_safely(chars@.take(0)));
    while i < chars.len()
        invariant
            i <= chars.len(),
            out@ == quoted_safely(chars@.take(i as int)),
        decreases chars.len() - i,
    {
        proof {
            assert(chars@.take(i + 1).drop_last() =~= chars@.take(i as int));
            assert(chars@.take(i + 1).last() == chars@[i as int]);
        }
        if chars[i] == '"' {
            out.push('\\');
        }
        out.push(chars[i]);
        i += 1;
    }
    assert(chars@.take(chars.len() as int) =~= chars@);
    out
}

/// A name and a text in quotation marks.
pub open spec fn setting_line(name: Seq<char>, value: Seq<char>) -> Seq<char> {
    name + " \""@ + value + "\""@
}

fn write_setting(name: &str, value: &str) -> (out: String)
    ensures
        out@ == setting_line(name@, value@),
{
    let mut out = name.to_owned();
    out.append(" \"");
    out.append(value);
    out.append("\"");
    out
}

/// The lines of an action, under its number.
pub open spec fn action_lines(number: int, action: VdmAction<Seq<char>>) -> Seq<Seq<char>> {
    let head = seq![
        "    \""@ + int_text(number) + "\""@,
        "    {"@,
        setting_line("        factory"@, action.factory),
        setting_line("        name"@, action.name),
        setting_line("        starttick"@, int_text(action.tick as int)),
    ];
    let seek = match action.skip_to {
        Some(target) => head.push(
            setting_line("        skiptotick"@, int_text(target as int)),
        ),
        None => head,
    };
    let commands = if action.commands.len() > 0 {
        seek.push(setting_line("        commands"@, quoted_safely(action.commands)))
    } else {
        seek
    };
    commands.push("    }"@)
}

/// The lines of actions, numbered from one.
pub open spec fn all_lines(actions: Seq<VdmAction<Seq<char>>>) -> Seq<Seq<char>>
    decreases actions.len(),
{
    if actions.len() == 0 {
        Seq::empty()
    } else {
        all_lines(actions.drop_last()) + action_lines(actions.len() as int, actions.last())
    }
}

/// The text of a script.
pub open spec fn script_text(actions: Seq<VdmAction<Seq<char>>>) -> Seq<char> {
    joined((seq!["demoactions"@, "{"@] + all_lines(actions)).push("}"@), "\n"@)
}

/// Adds the lines of an action.
pub fn add_vdm_action(lines: &mut Vec<String>, number: u64, action: &VdmAction<String>)
    ensures
        views(final(lines)@) == views(old(lines)@) + action_lines(number as int, action.model()),
{
    let ghost before = views(lines@);
    let mut head = "    \"".to_owned();
    head.append(u64_text(number).as_str());
    head.append("\"");
    lines.push(head);
    lines.push("    {".to_owned());
    lines.push(write_setting("        factory", action.factory.as_str()));
    lines.push(write_setting("        name", action.name.as_str()));
    lines.push(write_setting("        starttick", i64_text(action.tick).as_str()));
    proof {
        assert(views(lines@) =~= before + seq![
            "    \""@ + int_text(number as int) + "\""@,
            "    {"@,
            setting_line("        factory"@, action.factory@),
            setting_line("        name"@, action.name@),
            setting_line("        starttick"@, int_text(action.tick as int)),
        ]);
    }
    if let Some(target) = action.skip_to {
        lines.push(write_setting("        skiptotick", i64_text(target).as_str()));
    }
    if !action.commands.as_str().is_empty() {
        lines.push(
            write_setting("        commands", quote_safely(action.commands.as_str()).as_str()),
        );
    }
    lines.push("    }".to_owned());
    assert(views(lines@) =~= before + action_lines(number as int, action.model()));
}

/// The text of a script.
pub fn render_script(actions: &Vec<VdmAction<String>>) -> (out: String)
    ensures
        out@ == script_text(action_models(actions@)),
{
    let ghost models = action_models(actions@);
    let mut lines: Vec<String> = Vec::new();
    lines.push("demoactions".to_owned());
    lines.push("{".to_owned());
    let mut i: usize = 0;
    assert(views(lines@) =~= seq!["demoactions"@, "{"@] + all_lines(models.take(0)));
    while i < actions.len()
        invariant
            i <= actions.len(),
            models == action_models(actions@),
            views(lines@) == seq!["demoactions"@, "{"@] + all_lines(models.take(i as int)),
        decreases actions.len() - i,
    {
        let ghost before = views(lines@);
        proof {
            assert(models.take(i + 1).drop_last() =~= models.take(i as int));
            assert(models.take(i + 1).last() == actions@[i as int].model());
        }
        add_vdm_action(&mut lines, i as u64 + 1, &actions[i]);
        assert(views(lines@) =~= seq!["demoactions"@, "{"@] + all_lines(models.take(i + 1)));
        i += 1;
    }
    let ghost before = views(lines@);
    lines.push("}".to_owned());
    proof {
        assert(models.take(actions.len() as int) =~= models);
        assert(views(lines@) =~= before.push("}"@));
    }
    join(&lines, "\n")
}

fn push_action(actions: &mut Vec<VdmAction<String>>, action: VdmAction<String>)
    ensures
        action_models(final(actions)@) == action_models(old(actions)@).push(action.model()),
{
    let ghost before = action_models(actions@);
    actions.push(action);
    assert(action_models(actions@) =~= before.push(action.model()));
}

/// Commands at a tick.
pub open spec fn play(name: Seq<char>, tick: int, commands: Seq<char>) -> VdmAction<Seq<char>> {
    VdmAction { factory: "PlayCommands"@, name, tick: tick as i64, skip_to: None, commands }
}

/// A seek at a tick.
pub open spec fn seek(name: Seq<char>, tick: int, target: int) -> VdmAction<Seq<char>> {
    VdmAction {
        factory: "SkipAhead"@,
        name,
        tick: tick as i64,
        skip_to: Some(target as i64),
        commands: Seq::empty(),
    }
}

fn play_action(name: &str, tick: i64, commands: &str) -> (out: VdmAction<String>)
    ensures
        out.model() == play(name@, tick as int, commands@),
{
    VdmAction {
        factory: "PlayCommands".to_owned(),
        name: name.to_owned(),
        tick,
        skip_to: None,
        commands: commands.to_owned(),
    }
}

fn seek_action(name: &str, tick: i64, target: i64) -> (out: VdmAction<String>)
    ensures
        out.model() == seek(name@, tick as int, target as int),
{
    let out = VdmAction {
        factory: "SkipAhead".to_owned(),
        name: name.to_owned(),
        tick,
        skip_to: Some(target),
        commands: String::new(),
    };
    assert(out.commands@ =~= Seq::empty());
    out
}

/// The commands that make the camera follow a player.
pub open spec fn focus_commands(user: int) -> Seq<char> {
    "spec_autodirector 0; spec_player #"@ + int_text(user) + "; spec_mode 4"@
}

fn write_focus(user: i64) -> (out: String)
    ensures
        out@ == focus_commands(user as int),
{
    let mut out = "spec_autodirector 0; spec_player #".to_owned();
    out.append(i64_text(user).as_str());
    out.append("; spec_mode 4");
    out
}

/// The commands that make the camera follow a candidate's player, in front of
/// others, where that is needed.
pub open spec fn focus_first(candidate: Candidate) -> Seq<char> {
    if needs_focus(candidate) {
        focus_commands(candidate.attacker_user_id as int) + "; "@
    } else {
        Seq::empty()
    }
}

fn write_focus_first(candidate: &Candidate) -> (out: String)
    ensures
        out@ == focus_first(*candidate),
{
    if candidate_needs_spectator_focus(candidate) {
        let mut out = write_focus(candidate.attacker_user_id);
        out.append("; ");
        out
    } else {
        let out = String::new();
        assert(out@ =~= Seq::empty());
        out
    }
}

// ---------------------------------------------------------------------------
// Preview
// ---------------------------------------------------------------------------

/// The script that shows a candidate from a tick on.
pub open spec fn preview_actions(candidate: Candidate, target: int) -> Seq<VdmAction<Seq<char>>> {
    let start = seq![seek("TF2 Frag Demo Helper seek"@, 1, target)];
    if needs_focus(candidate) {
        start.push(
            play(
                "Focus selected STV candidate"@,
                target + 1,
                focus_commands(candidate.attacker_user_id as int),
            ),
        )
    } else {
        start
    }
}

/// The script that shows a candidate from a tick on.
pub fn preview_vdm_text(candidate: &Candidate, target_tick: i64) -> (out: String)
    requires
        target_tick < i64::MAX,
    ensures
        out@ == script_text(preview_actions(*candidate, target_tick as int)),
{
    let mut actions: Vec<VdmAction<String>> = Vec::new();
    push_action(&mut actions, seek_action("TF2 Frag Demo Helper seek", 1, target_tick));
    if candidate_needs_spectator_focus(candidate) {
        push_action(
            &mut actions,
            play_action(
                "Focus selected STV candidate",
                target_tick + 1,
                write_focus(candidate.attacker_user_id).as_str(),
            ),
        );
    }
    assert(action_models(actions@) =~= preview_actions(*candidate, target_tick as int));
    render_script(&actions)
}

// ---------------------------------------------------------------------------
// Manual sessions
// ---------------------------------------------------------------------------

/// The seeks on the way to a target, each starting where the one before ended.
pub open spec fn seek_actions(targets: Seq<int>, upto: int) -> Seq<VdmAction<Seq<char>>>
    decreases upto,
{
    if upto <= 0 {
        Seq::empty()
    } else {
        let index = upto - 1;
        seek_actions(targets, index).push(
            seek(
                "TF2 Frag Demo Helper safe seek "@ + int_text(upto) + "/"@ + int_text(
                    targets.len() as int,
                ),
                if index == 0 {
                    1
                } else {
                    targets[index - 1] + 1
                },
                targets[index],
            ),
        )
    }
}

/// The commands that set a scene up at its first tick and pause there.
pub open spec fn pause_commands(candidate: Candidate, first: int, end: int) -> Seq<char> {
    focus_first(candidate)
        + "thirdperson; r_drawviewmodel 0; mirv_cmd clear; mirv_cmd enabled 1; mirv_cmd addCurves tick "@
        + int_text(first) + " "@ + int_text(end) + " - interp=linear space=abs "@ + int_text(first)
        + " "@ + int_text(first) + " "@ + int_text(end) + " "@ + int_text(end) + " -- \"echo "@
        + tick_marker()
        + " {0}\"; demo_pause; echo TF2FRAG_MANUAL_PAUSED_AT_START; echo "@ + tick_marker() + " "@
        + int_text(first)
}

fn write_pause(candidate: &Candidate, first: i64, end: i64) -> (out: String)
    ensures
        out@ == pause_commands(*candidate, first as int, end as int),
{
    let a = i64_text(first);
    let b = i64_text(end);
    let mut out = write_focus_first(candidate);
    out.append(
        "thirdperson; r_drawviewmodel 0; mirv_cmd clear; mirv_cmd enabled 1; mirv_cmd addCurves tick ",
    );
    out.append(a.as_str());
    out.append(" ");
    out.append(b.as_str());
    out.append(" - interp=linear space=abs ");
    out.append(a.as_str());
    out.append(" ");
    out.append(a.as_str());
    out.append(" ");
    out.append(b.as_str());
    out.append(" ");
    out.append(b.as_str());
    out.append(" -- \"echo ");
    out.append("TF2FRAG_DIRECTOR_TICK");
    out.append(" {0}\"; demo_pause; echo TF2FRAG_MANUAL_PAUSED_AT_START; echo ");
    out.append("TF2FRAG_DIRECTOR_TICK");
    out.append(" ");
    out.append(a.as_str());
    out
}

/// The first tick of a scene, which does not lie before the demo.
pub open spec fn scene_start(target: int) -> int {
    if target > 0 {
        target
    } else {
        0
    }
}

/// The last tick of a scene, which lies after the first.
pub open spec fn scene_end(target: int, end: int) -> int {
    if end > scene_start(target) {
        end
    } else {
        scene_start(target) + 1
    }
}

/// The script of a manual session: seek in short steps, then set the scene up
/// and pause.
pub open spec fn manual_actions(candidate: Candidate, target: int, end: int) -> Seq<
    VdmAction<Seq<char>>,
> {
    let start = scene_start(target);
    let seeks = seeks_to(start);
    seek_actions(seeks, seeks.len() as int).push(
        play(
            "Focus candidate and pause after safe seek"@,
            start + 1,
            pause_commands(candidate, start + 1, scene_end(target, end)),
        ),
    )
}

fn write_seeks(start: i64) -> (out: Vec<VdmAction<String>>)
    requires
        0 <= start < i64::MAX,
    ensures
        action_models(out@) == seek_actions(
            seeks_to(start as int),
            seeks_to(start as int).len() as int,
        ),
{
    let targets = manual_seek_targets(start);
    let ghost seeks = seeks_to(start as int);
    let mut out: Vec<VdmAction<String>> = Vec::new();
    let mut i: usize = 0;
    proof {
        lemma_seeks_below(start as int);
        assert(tick_values(targets@).len() == targets.len());
        assert(action_models(out@) =~= seek_actions(seeks, 0));
    }
    while i < targets.len()
        invariant
            i <= targets.len(),
            seeks == tick_values(targets@),
            forall|k: int| 0 <= k < seeks.len() ==> #[trigger] seeks[k] <= start,
            start < i64::MAX,
            action_models(out@) == seek_actions(seeks, i as int),
        decreases targets.len() - i,
    {
        let mut name = "TF2 Frag Demo Helper safe seek ".to_owned();
        name.append(u64_text(i as u64 + 1).as_str());
        name.append("/");
        name.append(u64_text(targets.len() as u64).as_str());
        let from: i64 = if i == 0 {
            1
        } else {
            assert(seeks[i - 1] == targets@[i - 1]);
            targets[i - 1] + 1
        };
        assert(seeks[i as int] == targets@[i as int]);
        push_action(&mut out, seek_action(name.as_str(), from, targets[i]));
        i += 1;
    }
    out
}

/// The script of a manual session.
pub fn manual_hlae_vdm_text(candidate: &Candidate, target_tick: i64, end_tick: i64) -> (out: String)
    requires
        target_tick < i64::MAX,
    ensures
        out@ == script_text(manual_actions(*candidate, target_tick as int, end_tick as int)),
{
    let start: i64 = if target_tick > 0 {
        target_tick
    } else {
        0
    };
    let end: i64 = if end_tick > start {
        end_tick
    } else {
        start + 1
    };
    let mut actions = write_seeks(start);
    push_action(
        &mut actions,
        play_action(
            "Focus candidate and pause after safe seek",
            start + 1,
            write_pause(candidate, start + 1, end).as_str(),
        ),
    );
    render_script(&actions)
}

// ---------------------------------------------------------------------------
// Batches
// ---------------------------------------------------------------------------

/// The commands that clear the screen of everything that is not the match.
pub open spec fn clean_screen() -> Seq<char> {
    "hideconsole; gameui_hide; cancelselect; cl_chatfilters 0; hud_saytext_time 0; tv_nochat 1; cl_showtextmsg 0; cl_showpluginmessages 0; cl_vote_ui_active_after_voting 0; cl_vote_ui_show_notification 0; tf_hud_notification_duration 0; developer 0; con_notifytime 0; contimes 0"@
}

/// The commands that clear the screen of everything that is not the match. Panels
/// can still appear while a demo starts, so they run before every capture.
pub fn clean_capture_screen_commands() -> (out: &'static str)
    ensures
        out@ == clean_screen(),
{
    "hideconsole; gameui_hide; cancelselect; cl_chatfilters 0; hud_saytext_time 0; tv_nochat 1; cl_showtextmsg 0; cl_showpluginmessages 0; cl_vote_ui_active_after_voting 0; cl_vote_ui_show_notification 0; tf_hud_notification_duration 0; developer 0; con_notifytime 0; contimes 0"
}

/// A number with at least three digits.
pub open spec fn three_digits(n: int) -> Seq<char> {
    if n < 10 {
        "00"@ + int_text(n)
    } else if n < 100 {
        "0"@ + int_text(n)
    } else {
        int_text(n)
    }
}

/// A number with at least three digits.
pub fn three_digit_text(n: u64) -> (out: String)
    ensures
        out@ == three_digits(n as int),
{
    if n < 10 {
        let mut out = "00".to_owned();
        out.append(u64_text(n).as_str());
        out
    } else if n < 100 {
        let mut out = "0".to_owned();
        out.append(u64_text(n).as_str());
        out
    } else {
        u64_text(n)
    }
}

/// The name of the configuration of a clip.
pub open spec fn clip_base(order: int, candidate: Candidate) -> Seq<char> {
    three_digits(order) + "_"@ + sanitized(candidate.candidate_id@) + "_t"@ + int_text(
        candidate.clip_start_tick as int,
    ) + "-"@ + int_text(candidate.clip_end_tick as int)
}

/// The name of the configuration of a clip.
pub fn name_clip(order: u64, candidate: &Candidate) -> (out: String)
    ensures
        out@ == clip_base(order as int, *candidate),
{
    let mut out = three_digit_text(order);
    out.append("_");
    out.append(sanitize(candidate.candidate_id.as_str()).as_str());
    out.append("_t");
    out.append(i64_text(candidate.clip_start_tick).as_str());
    out.append("-");
    out.append(i64_text(candidate.clip_end_tick).as_str());
    out
}

/// A candidate of a batch, with its place in it.
#[derive(Debug)]
pub struct OrderedClip {
    pub order: u64,
    pub candidate: Candidate,
}

/// When the playback is done with a clip.
pub open spec fn finalize_tick(candidate: Candidate, settings: AppSettings) -> int {
    window_end(candidate, settings) + RECORDING_FLUSH_TICKS
}

/// When the playback is done with clips; before the start where there are none.
pub open spec fn last_finalize(clips: Seq<OrderedClip>, settings: AppSettings) -> int {
    if clips.len() == 0 {
        -1
    } else {
        finalize_tick(clips.last().candidate, settings)
    }
}

/// What is done for a clip in a playback that is done with the clips before it at
/// a tick.
pub open spec fn clip_actions(
    clip: OrderedClip,
    done: int,
    session: Seq<char>,
    settings: AppSettings,
) -> Seq<VdmAction<Seq<char>>> {
    let start = window_start(clip.candidate, settings);
    let end = window_end(clip.candidate, settings);
    let base = clip_base(clip.order as int, clip.candidate);
    let seek_at = if done < 0 {
        2
    } else {
        done + 2
    };
    let sought = if start > seek_at {
        seq![seek("Batch seek"@, seek_at, start)]
    } else {
        Seq::empty()
    };
    sought.push(
        play(
            "Start clip"@,
            start + 1,
            focus_first(clip.candidate) + "exec tf2fragdemohelper_batch/"@ + session + "/"@ + base
                + "_start"@,
        ),
    ).push(
        play(
            "Stop clip"@,
            end,
            "exec tf2fragdemohelper_batch/"@ + session + "/"@ + base + "_stop"@,
        ),
    ).push(
        play(
            "Finalize clip"@,
            finalize_tick(clip.candidate, settings),
            "echo TF2FRAG_RECORD_FINALIZED "@ + base,
        ),
    )
}

/// What is done for clips, after the recording profile is applied.
pub open spec fn clips_actions(
    clips: Seq<OrderedClip>,
    session: Seq<char>,
    settings: AppSettings,
) -> Seq<VdmAction<Seq<char>>>
    decreases clips.len(),
{
    if clips.len() == 0 {
        seq![
            play(
                "Apply movie profile"@,
                1,
                "mirv_campath enabled 0; mirv_campath clear; mirv_input end; exec tf2fragdemohelper_recording_profile; "@
                    + clean_screen(),
            ),
        ]
    } else {
        clips_actions(clips.drop_last(), session, settings) + clip_actions(
            clips.last(),
            last_finalize(clips.drop_last(), settings),
            session,
            settings,
        )
    }
}

/// What is done at the end of a playback: the next demo, or the end.
pub open spec fn closing_actions(done: int, next_demo: Option<Seq<char>>) -> Seq<
    VdmAction<Seq<char>>,
> {
    match next_demo {
        Some(demo) => seq![
            play("Continue batch"@, done + 2, "echo TF2FRAG_PASS_FINISHED; playdemo "@ + demo),
        ],
        None => seq![
            play("Finish batch"@, done + 2, "echo TF2FRAG_BATCH_FINISHED"@),
            play("Close TF2"@, done + 3, "quit"@),
        ],
    }
}

/// Whether a clip starts before the playback is done with the one before it.
pub open spec fn crowded(clips: Seq<OrderedClip>, k: int, settings: AppSettings) -> bool {
    0 < k < clips.len() && window_start(clips[k].candidate, settings) <= finalize_tick(
        clips[k - 1].candidate,
        settings,
    ) + VDM_ACTION_GAP_TICKS
}

/// The first clip that starts too early.
pub open spec fn first_crowded(clips: Seq<OrderedClip>, settings: AppSettings) -> Option<int>
    decreases clips.len(),
{
    if clips.len() == 0 {
        None
    } else {
        match first_crowded(clips.drop_last(), settings) {
            Some(k) => Some(k),
            None => if crowded(clips, clips.len() - 1, settings) {
                Some(clips.len() - 1)
            } else {
                None
            },
        }
    }
}

/// Why a playback cannot be scripted.
#[derive(Debug)]
pub struct CrowdedPass {
    pub candidate_id: String,
    pub start: i64,
    pub previous_finalize: i64,
}

impl CrowdedPass {
    /// What went wrong, in words.
    pub fn message(&self) -> (out: String)
        ensures
            out@ == "overlapping recording windows reached one VDM pass (candidate "@
                + self.candidate_id@ + ", start tick "@ + int_text(self.start as int)
                + ", previous finalize tick "@ + int_text(self.previous_finalize as int) + ")"@,
    {
        let mut out = "overlapping recording windows reached one VDM pass (candidate ".to_owned();
        out.append(self.candidate_id.as_str());
        out.append(", start tick ");
        out.append(i64_text(self.start).as_str());
        out.append(", previous finalize tick ");
        out.append(i64_text(self.previous_finalize).as_str());
        out.append(")");
        out
    }
}

/// Whether the windows of clips lie within the range of ticks.
pub open spec fn clips_fit(clips: Seq<OrderedClip>, settings: AppSettings) -> bool {
    forall|i: int| 0 <= i < clips.len() ==> window_fits((#[trigger] clips[i]).candidate, settings)
}

fn add_clip(
    actions: &mut Vec<VdmAction<String>>,
    clip: &OrderedClip,
    window: (i64, i64),
    done: i64,
    session_name: &str,
    settings: &AppSettings,
)
    requires
        window_fits(clip.candidate, *settings),
        window.0 == window_start(clip.candidate, *settings),
        window.1 == window_end(clip.candidate, *settings),
        0 <= window.0 < window.1,
        -1 <= done <= i64::MAX - 10,
    ensures
        action_models(final(actions)@) == action_models(old(actions)@) + clip_actions(
            *clip,
            done as int,
            session_name@,
            *settings,
        ),
{
    let ghost before = action_models(actions@);
    let (start, end) = window;
    let base = name_clip(clip.order, &clip.candidate);
    let seek_at: i64 = if done < 0 {
        2
    } else {
        done + 2
    };
    let ghost want = clip_actions(*clip, done as int, session_name@, *settings);
    if start > seek_at {
        push_action(actions, seek_action("Batch seek", seek_at, start));
    }
    let mut begin = write_focus_first(&clip.candidate);
    begin.append("exec tf2fragdemohelper_batch/");
    begin.append(session_name);
    begin.append("/");
    begin.append(base.as_str());
    begin.append("_start");
    push_action(actions, play_action("Start clip", start + 1, begin.as_str()));
    let mut stop = "exec tf2fragdemohelper_batch/".to_owned();
    stop.append(session_name);
    stop.append("/");
    stop.append(base.as_str());
    stop.append("_stop");
    push_action(actions, play_action("Stop clip", end, stop.as_str()));
    let mut finish = "echo TF2FRAG_RECORD_FINALIZED ".to_owned();
    finish.append(base.as_str());
    push_action(
        actions,
        play_action("Finalize clip", end + RECORDING_FLUSH_TICKS, finish.as_str()),
    );
    assert(action_models(actions@) =~= before + want);
}

/// The script of a playback that records clips; an error where a clip starts
/// before the playback is done with the one before it.
pub fn vdm_text(
    clips: &Vec<OrderedClip>,
    session_name: &str,
    next_demo: Option<&str>,
    settings: &AppSettings,
) -> (out: Result<String, CrowdedPass>)
    requires
        clips_fit(clips@, *settings),
    ensures
        match out {
            Ok(text) => first_crowded(clips@, *settings) is None && text@ == script_text(
                pass_actions(
                    clips@,
                    session_name@,
                    match next_demo {
                        Some(demo) => Some(demo@),
                        None => None,
                    },
                    *settings,
                ),
            ),
            Err(fault) => first_crowded(clips@, *settings) matches Some(k)
                && fault.candidate_id@ == clips@[k].candidate.candidate_id@ && fault.start
                == window_start(clips@[k].candidate, *settings) && fault.previous_finalize
                == finalize_tick(clips@[k - 1].candidate, *settings),
        },
{
    let mut actions: Vec<VdmAction<String>> = Vec::new();
    let mut profile =
        "mirv_campath enabled 0; mirv_campath clear; mirv_input end; exec tf2fragdemohelper_recording_profile; ".to_owned();
    profile.append(clean_capture_screen_commands());
    push_action(&mut actions, play_action("Apply movie profile", 1, profile.as_str()));
    let mut done: i64 = -1;
    let mut i: usize = 0;
    assert(action_models(actions@) =~= clips_actions(clips@.take(0), session_name@, *settings));
    while i < clips.len()
        invariant
            i <= clips.len(),
            clips_fit(clips@, *settings),
            done == last_finalize(clips@.take(i as int), *settings),
            -1 <= done <= i64::MAX - 10,
            i > 0 ==> done >= 0,
            first_crowded(clips@.take(i as int), *settings) is None,
            action_models(actions@) == clips_actions(
                clips@.take(i as int),
                session_name@,
                *settings,
            ),
        decreases clips.len() - i,
    {
        let clip = &clips[i];
        let ghost next = clips@.take(i + 1);
        proof {
            assert(next.drop_last() =~= clips@.take(i as int));
            assert(next.last() == clips@[i as int]);
            if i > 0 {
                assert(next[i - 1] == clips@[i - 1]);
                assert(clips@.take(i as int).last() == clips@[i - 1]);
            }
        }
        let window = clip_window(&clip.candidate, settings);
        if done >= 0 && window.0 <= done + VDM_ACTION_GAP_TICKS {
            proof {
                assert(crowded(next, i as int, *settings));
                assert(first_crowded(next, *settings) == Some(i as int));
                lemma_crowded_stays(clips@, i + 1, *settings);
            }
            return Err(
                CrowdedPass {
                    candidate_id: clip.candidate.candidate_id.clone(),
                    start: window.0,
                    previous_finalize: done,
                },
            );
        }
        add_clip(&mut actions, clip, window, done, session_name, settings);
        done = window.1 + RECORDING_FLUSH_TICKS;
        i += 1;
    }
    assert(clips@.take(clips.len() as int) =~= clips@);
    let ghost before = action_models(actions@);
    let ghost next = match next_demo {
        Some(demo) => Some(demo@),
        None => None,
    };
    match next_demo {
        Some(demo) => {
            let mut commands = "echo TF2FRAG_PASS_FINISHED; playdemo ".to_owned();
            commands.append(demo);
            push_action(&mut actions, play_action("Continue batch", done + 2, commands.as_str()));
        },
        None => {
            push_action(
                &mut actions,
                play_action("Finish batch", done + 2, "echo TF2FRAG_BATCH_FINISHED"),
            );
            push_action(&mut actions, play_action("Close TF2", done + 3, "quit"));
        },
    }
    assert(action_models(actions@) =~= before + closing_actions(done as int, next));
    Ok(render_script(&actions))
}

proof fn lemma_crowded_stays(clips: Seq<OrderedClip>, upto: int, settings: AppSettings)
    requires
        0 <= upto <= clips.len(),
        first_crowded(clips.take(upto), settings) is Some,
    ensures
        first_crowded(clips, settings) == first_crowded(clips.take(upto), settings),
    decreases clips.len() - upto,
{
    if upto < clips.len() {
        assert(clips.take(upto + 1).drop_last() =~= clips.take(upto));
        lemma_crowded_stays(clips, upto + 1, settings);
    } else {
        assert(clips.take(upto) =~= clips);
    }
}

proof fn lemma_not_crowded(clips: Seq<OrderedClip>, settings: AppSettings)
    requires
        forall|k: int| !#[trigger] crowded(clips, k, settings),
    ensures
        first_crowded(clips, settings) is None,
    decreases clips.len(),
{
    if clips.len() > 0 {
        let rest = clips.drop_last();
        assert forall|k: int| !#[trigger] crowded(rest, k, settings) by {
            assert(!crowded(clips, k, settings));
            if 0 < k < rest.len() {
                assert(rest[k] == clips[k]);
                assert(rest[k - 1] == clips[k - 1]);
            }
        }
        lemma_not_crowded(rest, settings);
        assert(!crowded(clips, clips.len() - 1, settings));
    }
}

/// Whether clips are the candidates that a playback takes, in its order.
pub open spec fn clips_of_pass(
    clips: Seq<OrderedClip>,
    candidates: Seq<Candidate>,
    pass: Seq<int>,
) -> bool {
    &&& clips.len() == pass.len()
    &&& forall|k: int|
        0 <= k < clips.len() ==> (#[trigger] clips[k]).candidate == candidates[pass[k]]
}

/// Every playback that candidates were spread over can be scripted.
pub proof fn law_every_pass_can_be_scripted(
    candidates: Seq<Candidate>,
    settings: AppSettings,
    p: int,
    clips: Seq<OrderedClip>,
)
    requires
        windows_fit(candidates, settings),
        0 <= p < passes_of(windows_of(candidates, settings)).windows.len(),
        clips_of_pass(
            clips,
            candidates,
            passes_of(windows_of(candidates, settings)).windows[p],
        ),
    ensures
        first_crowded(clips, settings) is None,
{
    let windows = windows_of(candidates, settings);
    let pass = passes_of(windows).windows[p];
    law_passes_record_every_window(windows);
    assert(clear_pass(windows, pass));
    assert(rising_pass(pass, windows.len() as int));
    assert forall|k: int| !#[trigger] crowded(clips, k, settings) by {
        if 0 < k < clips.len() {
            assert(comes_clear(windows, pass[k - 1], pass[k - 1 + 1]));
            assert(clips[k].candidate == candidates[pass[k]]);
            assert(clips[k - 1].candidate == candidates[pass[k - 1]]);
            assert(window_fits(candidates[pass[k]], settings));
            assert(window_fits(candidates[pass[k - 1]], settings));
        }
    }
    lemma_not_crowded(clips, settings);
}

/// When the playback can turn to a clip: shortly after it began, or once what the
/// recorder still writes of the clip before is written.
pub open spec fn free_from(clips: Seq<OrderedClip>, k: int, settings: AppSettings) -> int {
    if k == 0 {
        2
    } else {
        window_end(clips[k - 1].candidate, settings) + 135
    }
}

/// All that is done during a playback.
pub open spec fn pass_actions(
    clips: Seq<OrderedClip>,
    session: Seq<char>,
    next_demo: Option<Seq<char>>,
    settings: AppSettings,
) -> Seq<VdmAction<Seq<char>>> {
    clips_actions(clips, session, settings) + closing_actions(
        last_finalize(clips, settings),
        next_demo,
    )
}

proof fn lemma_clear_clips(clips: Seq<OrderedClip>, settings: AppSettings, k: int)
    requires
        first_crowded(clips, settings) is None,
        0 < k < clips.len(),
    ensures
        window_start(clips[k].candidate, settings) > window_end(
            clips[k - 1].candidate,
            settings,
        ) + 135,
    decreases clips.len(),
{
    let rest = clips.drop_last();
    if k < rest.len() {
        lemma_clear_clips(rest, settings, k);
        assert(rest[k] == clips[k] && rest[k - 1] == clips[k - 1]);
    } else {
        assert(!crowded(clips, k, settings));
    }
}

/// The clips of a playback do not overlap: each starts more than two seconds after
/// every one before it has ended.
pub proof fn law_clips_of_a_pass_are_apart(
    clips: Seq<OrderedClip>,
    settings: AppSettings,
    j: int,
    k: int,
)
    requires
        first_crowded(clips, settings) is None,
        0 <= j < k < clips.len(),
    ensures
        window_start(clips[k].candidate, settings) > window_end(
            clips[j].candidate,
            settings,
        ) + 135,
    decreases k - j,
{
    lemma_clear_clips(clips, settings, k);
    if j < k - 1 {
        law_clips_of_a_pass_are_apart(clips, settings, j, k - 1);
    }
}

proof fn lemma_seeks_of_clips(
    clips: Seq<OrderedClip>,
    session: Seq<char>,
    settings: AppSettings,
    i: int,
) -> (k: int)
    requires
        clips_fit(clips, settings),
        0 <= i < clips_actions(clips, session, settings).len(),
        clips_actions(clips, session, settings)[i].skip_to is Some,
    ensures
        0 <= k < clips.len(),
        clips_actions(clips, session, settings)[i].tick == free_from(clips, k, settings),
        clips_actions(clips, session, settings)[i].skip_to == Some(
            window_start(clips[k].candidate, settings) as i64,
        ),
        free_from(clips, k, settings) < window_start(clips[k].candidate, settings) <= i64::MAX,
    decreases clips.len(),
{
    let all = clips_actions(clips, session, settings);
    if clips.len() == 0 {
        assert(all[0].skip_to is None);
        0
    } else {
        let rest = clips.drop_last();
        let known = clips_actions(rest, session, settings);
        assert(clips_fit(rest, settings)) by {
            assert forall|n: int| 0 <= n < rest.len() implies window_fits(
                (#[trigger] rest[n]).candidate,
                settings,
            ) by {
                assert(rest[n] == clips[n]);
            }
        }
        if i < known.len() {
            assert(all[i] == known[i]);
            let k = lemma_seeks_of_clips(rest, session, settings, i);
            assert(rest[k] == clips[k]);
            if k > 0 {
                assert(rest[k - 1] == clips[k - 1]);
            }
            k
        } else {
            let last = clips.len() - 1;
            assert(window_fits(clips[last].candidate, settings));
            if last > 0 {
                assert(rest.last() == clips[last - 1]);
                assert(window_fits(clips[last - 1].candidate, settings));
            }
            last
        }
    }
}

/// No seek of a playback jumps into a clip or over one: what is between the start of
/// a clip and its end is played. Every seek goes forward.
pub proof fn law_no_seek_skips_a_clip(
    clips: Seq<OrderedClip>,
    session: Seq<char>,
    next_demo: Option<Seq<char>>,
    settings: AppSettings,
    i: int,
    target: i64,
    k: int,
)
    requires
        clips_fit(clips, settings),
        first_crowded(clips, settings) is None,
        0 <= i < pass_actions(clips, session, next_demo, settings).len(),
        pass_actions(clips, session, next_demo, settings)[i].skip_to == Some(target),
        0 <= k < clips.len(),
    ensures
        pass_actions(clips, session, next_demo, settings)[i].tick < target,
        target <= window_start(clips[k].candidate, settings) || window_end(
            clips[k].candidate,
            settings,
        ) < pass_actions(clips, session, next_demo, settings)[i].tick,
{
    let all = pass_actions(clips, session, next_demo, settings);
    let known = clips_actions(clips, session, settings);
    if i < known.len() {
        assert(all[i] == known[i]);
        let at = lemma_seeks_of_clips(clips, session, settings, i);
        if at < k {
            law_clips_of_a_pass_are_apart(clips, settings, at, k);
        } else if k < at - 1 {
            law_clips_of_a_pass_are_apart(clips, settings, k, at - 1);
        }
    } else {
        assert(all[i].skip_to is None);
    }
}

/// Every clip of a playback is sought, where it lies ahead, then started, stopped and
/// reported: the capture begins a tick after the clip starts and ends where it ends,
/// with nothing in between.
pub proof fn law_every_clip_is_captured(
    clips: Seq<OrderedClip>,
    session: Seq<char>,
    next_demo: Option<Seq<char>>,
    settings: AppSettings,
    k: int,
) -> (i: int)
    requires
        clips_fit(clips, settings),
        0 <= k < clips.len(),
    ensures
        ({
            let all = pass_actions(clips, session, next_demo, settings);
            let start = window_start(clips[k].candidate, settings);
            let end = window_end(clips[k].candidate, settings);
            let base = clip_base(clips[k].order as int, clips[k].candidate);
            let folder = "exec tf2fragdemohelper_batch/"@ + session + "/"@;
            &&& 0 < i < all.len() - 2
            &&& all[i].factory == "PlayCommands"@
            &&& all[i].tick == start + 1
            &&& all[i].commands == focus_first(clips[k].candidate) + folder + base + "_start"@
            &&& all[i + 1].factory == "PlayCommands"@
            &&& all[i + 1].tick == end
            &&& all[i + 1].commands == folder + base + "_stop"@
            &&& all[i + 2].factory == "PlayCommands"@
            &&& all[i + 2].tick == end + 133
            &&& all[i + 2].commands == "echo TF2FRAG_RECORD_FINALIZED "@ + base
            &&& start > free_from(clips, k, settings) ==> all[i - 1].tick == free_from(
                clips,
                k,
                settings,
            ) && all[i - 1].skip_to == Some(start as i64) && all[i - 1].factory == "SkipAhead"@
        }),
{
    let all = pass_actions(clips, session, next_demo, settings);
    let known = clips_actions(clips, session, settings);
    let i = lemma_captures(clips, session, settings, k);
    assert(all[i] == known[i]);
    assert(all[i - 1] == known[i - 1]);
    assert(all[i + 1] == known[i + 1]);
    assert(all[i + 2] == known[i + 2]);
    i
}

proof fn lemma_captures(
    clips: Seq<OrderedClip>,
    session: Seq<char>,
    settings: AppSettings,
    k: int,
) -> (i: int)
    requires
        clips_fit(clips, settings),
        0 <= k < clips.len(),
    ensures
        ({
            let all = clips_actions(clips, session, settings);
            let start = window_start(clips[k].candidate, settings);
            let end = window_end(clips[k].candidate, settings);
            let base = clip_base(clips[k].order as int, clips[k].candidate);
            let folder = "exec tf2fragdemohelper_batch/"@ + session + "/"@;
            &&& 0 < i < all.len() - 2
            &&& all[i].factory == "PlayCommands"@
            &&& all[i].tick == start + 1
            &&& all[i].commands == focus_first(clips[k].candidate) + folder + base + "_start"@
            &&& all[i + 1].factory == "PlayCommands"@
            &&& all[i + 1].tick == end
            &&& all[i + 1].commands == folder + base + "_stop"@
            &&& all[i + 2].factory == "PlayCommands"@
            &&& all[i + 2].tick == end + 133
            &&& all[i + 2].commands == "echo TF2FRAG_RECORD_FINALIZED "@ + base
            &&& start > free_from(clips, k, settings) ==> all[i - 1].tick == free_from(
                clips,
                k,
                settings,
            ) && all[i - 1].skip_to == Some(start as i64) && all[i - 1].factory == "SkipAhead"@
        }),
    decreases clips.len(),
{
    let all = clips_actions(clips, session, settings);
    let rest = clips.drop_last();
    let known = clips_actions(rest, session, settings);
    let last = clips.len() - 1;
    assert(clips_fit(rest, settings)) by {
        assert forall|n: int| 0 <= n < rest.len() implies window_fits(
            (#[trigger] rest[n]).candidate,
            settings,
        ) by {
            assert(rest[n] == clips[n]);
        }
    }
    lemma_actions_begin(rest, session, settings);
    if k < last {
        let i = lemma_captures(rest, session, settings, k);
        assert(rest[k] == clips[k]);
        if k > 0 {
            assert(rest[k - 1] == clips[k - 1]);
        }
        assert(all[i] == known[i]);
        assert(all[i - 1] == known[i - 1]);
        assert(all[i + 1] == known[i + 1]);
        assert(all[i + 2] == known[i + 2]);
        i
    } else {
        assert(window_fits(clips[last].candidate, settings));
        if last > 0 {
            assert(rest.last() == clips[last - 1]);
            assert(window_fits(clips[last - 1].candidate, settings));
        }
        let done = last_finalize(rest, settings);
        let added = clip_actions(clips[last], done, session, settings);
        let start = window_start(clips[k].candidate, settings);
        let base = clip_base(clips[k].order as int, clips[k].candidate);
        let skip = if start > free_from(clips, k, settings) {
            1int
        } else {
            0
        };
        let i = known.len() + skip;
        assert(added.len() == 3 + skip);
        assert(all[i] == added[skip]);
        assert(all[i + 1] == added[skip + 1]);
        assert(all[i + 2] == added[skip + 2]);
        if skip == 1 {
            assert(all[i - 1] == added[0]);
        }
        let folder = "exec tf2fragdemohelper_batch/"@ + session + "/"@;
        assert(focus_first(clips[k].candidate) + "exec tf2fragdemohelper_batch/"@ + session + "/"@
            + base + "_start"@ =~= focus_first(clips[k].candidate) + folder + base + "_start"@);
        i
    }
}

proof fn lemma_actions_begin(clips: Seq<OrderedClip>, session: Seq<char>, settings: AppSettings)
    ensures
        clips_actions(clips, session, settings).len() > 0,
        clips_actions(clips, session, settings)[0].tick == 1,
        clips_actions(clips, session, settings)[0].commands
            == "mirv_campath enabled 0; mirv_campath clear; mirv_input end; exec tf2fragdemohelper_recording_profile; "@
            + clean_screen(),
    decreases clips.len(),
{
    if clips.len() > 0 {
        lemma_actions_begin(clips.drop_last(), session, settings);
    }
}

/// A playback starts with the recording profile, and ends two ticks after what the
/// recorder still writes of its last clip: with the next demo where there is one, else
/// with the end of the game.
pub proof fn law_playback_goes_on(
    clips: Seq<OrderedClip>,
    session: Seq<char>,
    next_demo: Option<Seq<char>>,
    settings: AppSettings,
)
    requires
        clips_fit(clips, settings),
        clips.len() > 0,
    ensures
        ({
            let all = pass_actions(clips, session, next_demo, settings);
            let end = window_end(clips.last().candidate, settings);
            &&& all[0].tick == 1
            &&& all[0].commands
                == "mirv_campath enabled 0; mirv_campath clear; mirv_input end; exec tf2fragdemohelper_recording_profile; "@
                + clean_screen()
            &&& match next_demo {
                Some(demo) => all.last().tick == end + 135 && all.last().commands
                    == "echo TF2FRAG_PASS_FINISHED; playdemo "@ + demo,
                None => all.last().tick == end + 136 && all.last().commands == "quit"@
                    && all[all.len() - 2].tick == end + 135 && all[all.len() - 2].commands
                    == "echo TF2FRAG_BATCH_FINISHED"@,
            }
        }),
{
    lemma_actions_begin(clips, session, settings);
    assert(window_fits(clips[clips.len() - 1].candidate, settings));
    let known = clips_actions(clips, session, settings);
    let closing = closing_actions(last_finalize(clips, settings), next_demo);
    let all = pass_actions(clips, session, next_demo, settings);
    assert(all[0] == known[0]);
    assert(all.last() == closing.last());
    if next_demo is None {
        assert(all[all.len() - 2] == closing[0]);
    }
}

/// A preview goes to its tick at once, and shows the attacker one tick later where the demo
/// was recorded by the server.
pub proof fn law_previews_go_to_their_tick(candidate: Candidate, target: i64)
    requires
        target < i64::MAX,
    ensures
        ({
            let actions = preview_actions(candidate, target as int);
            &&& actions[0].factory == "SkipAhead"@ && actions[0].tick == 1 && actions[0].skip_to
                == Some(target)
            &&& needs_focus(candidate) ==> actions.len() == 2 && actions[1].factory
                == "PlayCommands"@ && actions[1].tick == target + 1 && actions[1].commands
                == "spec_autodirector 0; spec_player #"@ + int_text(
                candidate.attacker_user_id as int,
            ) + "; spec_mode 4"@
            &&& !needs_focus(candidate) ==> actions.len() == 1
        }),
{
}

proof fn lemma_seek_actions(targets: Seq<int>, upto: int, k: int)
    requires
        0 <= k < upto <= targets.len(),
    ensures
        seek_actions(targets, upto).len() == upto,
        seek_actions(targets, upto)[k].factory == "SkipAhead"@,
        seek_actions(targets, upto)[k].skip_to == Some(targets[k] as i64),
        k == 0 ==> seek_actions(targets, upto)[k].tick == 1,
        k > 0 ==> seek_actions(targets, upto)[k].tick == (targets[k - 1] + 1) as i64,
    decreases upto,
{
    if upto > 1 {
        lemma_seek_actions(
            targets,
            upto - 1,
            if k < upto - 1 {
                k
            } else {
                0
            },
        );
    } else {
        assert(seek_actions(targets, 0).len() == 0);
    }
}

/// A scene for the camera is sought in steps, each one tick after the one before has
/// arrived, and is paused one tick after its start.
pub proof fn law_scenes_are_sought_in_steps(candidate: Candidate, target: i64, end: i64, k: int)
    requires
        0 <= target < i64::MAX,
        0 <= k < seeks_to(target as int).len(),
    ensures
        ({
            let seeks = seeks_to(target as int);
            let actions = manual_actions(candidate, target as int, end as int);
            &&& actions.len() == seeks.len() + 1
            &&& actions[k].factory == "SkipAhead"@ && actions[k].skip_to == Some(seeks[k] as i64)
            &&& k == 0 ==> actions[k].tick == 1
            &&& k > 0 ==> actions[k].tick == (seeks[k - 1] + 1) as i64
            &&& actions.last().factory == "PlayCommands"@ && actions.last().tick == target + 1
        }),
{
    let seeks = seeks_to(target as int);
    lemma_seek_actions(seeks, seeks.len() as int, k);
}

/// Quotes in commands are escaped, and commands without quotes stay as they are.
pub proof fn law_quotes_are_escaped(text: Seq<char>, i: int)
    ensures
        0 <= i < quoted_safely(text).len() && quoted_safely(text)[i] == '"' ==> i > 0
            && quoted_safely(text)[i - 1] == '\\',
        !text.contains('"') ==> quoted_safely(text) == text,
        quoted_safely(text).len() >= text.len(),
    decreases text.len(),
{
    if text.len() > 0 {
        law_quotes_are_escaped(text.drop_last(), i);
        assert(text[text.len() - 1] == text.last());
        if !text.contains('"') {
            if text.drop_last().contains('"') {
                let k = choose|k: int| 0 <= k < text.len() - 1 && text.drop_last()[k] == '"';
                assert(text[k] == '"');
            }
            assert(text.drop_last().push(text.last()) =~= text);
        }
    } else {
        assert(quoted_safely(text) =~= text);
    }
}

/// An action is written with its number, its kind, its name and its tick, the tick that it
/// goes to where it has one, and its commands where there are any.
pub proof fn law_actions_are_written(number: int, action: VdmAction<Seq<char>>)
    ensures
        ({
            let lines = action_lines(number, action);
            &&& lines[0] == "    \""@ + int_text(number) + "\""@
            &&& lines[2] == "        factory"@ + " \""@ + action.factory + "\""@
            &&& lines[3] == "        name"@ + " \""@ + action.name + "\""@
            &&& lines[4] == "        starttick"@ + " \""@ + int_text(action.tick as int) + "\""@
            &&& action.skip_to is Some ==> lines[5] == "        skiptotick"@ + " \""@ + int_text(
                action.skip_to->0 as int,
            ) + "\""@
            &&& action.commands.len() > 0 ==> lines[lines.len() - 2] == "        commands"@
                + " \""@ + quoted_safely(action.commands) + "\""@
            &&& lines.last() == "    }"@
            &&& lines.len() == 6 + (if action.skip_to is Some {
                1int
            } else {
                0
            }) + (if action.commands.len() > 0 {
                1int
            } else {
                0
            })
        }),
{
}

/// Clips are numbered with three digits at least.
pub proof fn law_numbers_have_three_digits(n: int)
    requires
        0 <= n,
    ensures
        n < 1000 ==> three_digits(n).len() == 3,
        three_digits(n).skip(three_digits(n).len() - int_text(n).len()) == int_text(n),
        n < 10 ==> three_digits(n)[0] == '0' && three_digits(n)[1] == '0',
        10 <= n < 100 ==> three_digits(n)[0] == '0',
{
    reveal_strlit("00");
    reveal_strlit("0");
    reveal_with_fuel(nat_text, 3);
    assert(three_digits(n).skip(three_digits(n).len() - int_text(n).len()) =~= int_text(n));
}

} // verus!
