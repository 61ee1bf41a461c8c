//! What the camera director is told of a candidate.
use vstd::prelude::*;
use crate::encoding::optional;
use crate::models::{Candidate, KillRecord, TickTagGroup};
use crate::number::{int_text, u64_text};
use crate::order::{ascending, insert_number, insert_text, members, rising};
use crate::prepare::{below, path_below};
use crate::shortcuts::{normal_keys, MirvShortcuts};
use crate::text::{replace_chars, replaced, trim, trimmed, views};

verus! {

/// A moment that the director points out.
#[derive(Debug)]
pub struct DirectorCue {
    pub tick: i64,
    pub label: String,
    pub tags: Vec<String>,
    pub victims: Vec<String>,
}

/// A key that the director shows.
#[derive(Debug)]
pub struct DirectorShortcut {
    pub id: String,
    pub key: String,
    pub label: String,
}

/// What the director is told.
#[derive(Debug)]
pub struct DirectorSession {
    pub schema_version: u32,
    pub candidate_id: String,
    pub demo_file: String,
    pub map_name: String,
    pub start_tick: i64,
    pub end_tick: i64,
    pub cues: Vec<DirectorCue>,
    pub whole_candidate_tags: Vec<String>,
    pub shortcuts: Vec<DirectorShortcut>,
    pub campath_file: String,
    pub output_directory: String,
    pub telemetry_log: String,
    pub telemetry_marker_prefix: String,
}

/// A tag as it is shown.
pub open spec fn shown_tag(tag: Seq<char>) -> Seq<char> {
    replaced(trimmed(tag), seq!['_', '-'], ' ')
}

/// A tag as it is shown.
pub fn director_display_tag(tag: &str) -> (out: String)
    ensures
        out@ == shown_tag(tag@),
{
    proof {
        reveal_strlit("_-");
        assert("_-"@ =~= seq!['_', '-']);
    }
    replace_chars(trim(tag).as_str(), "_-", ' ')
}

/// Tags as they are shown.
pub open spec fn shown_tags(tags: Seq<Seq<char>>) -> Seq<Seq<char>> {
    Seq::new(tags.len(), |i: int| shown_tag(tags[i]))
}

fn show_tags(tags: &Vec<String>) -> (out: Vec<String>)
    ensures
        views(out@) == shown_tags(views(tags@)),
{
    let ghost all = shown_tags(views(tags@));
    let mut out: Vec<String> = Vec::new();
    let mut i: usize = 0;
    assert(views(out@) =~= all.take(0));
    while i < tags.len()
        invariant
            i <= tags.len(),
            all == shown_tags(views(tags@)),
            views(out@) == all.take(i as int),
        decreases tags.len() - i,
    {
        let ghost before = views(out@);
        out.push(director_display_tag(tags[i].as_str()));
        proof {
            assert(views(tags@)[i as int] == tags@[i as int]@);
            assert(views(out@) =~= before.push(all[i as int]));
            assert(all.take(i + 1) =~= all.take(i as int).push(all[i as int]));
        }
        i += 1;
    }
    assert(all.take(tags.len() as int) =~= all);
    out
}

/// The tags of the first group at a tick.
pub open spec fn tags_at(groups: Seq<TickTagGroup>, tick: i64) -> Seq<Seq<char>>
    decreases groups.len(),
{
    if groups.len() == 0 {
        Seq::empty()
    } else if groups[0].demo_tick == tick {
        views(groups[0].tags@)
    } else {
        tags_at(groups.skip(1), tick)
    }
}

fn show_tags_at(groups: &Vec<TickTagGroup>, tick: i64) -> (out: Vec<String>)
    ensures
        views(out@) == shown_tags(tags_at(groups@, tick)),
{
    let mut i: usize = 0;
    assert(groups@.skip(0) =~= groups@);
    while i < groups.len()
        invariant
            i <= groups.len(),
            tags_at(groups@, tick) == tags_at(groups@.skip(i as int), tick),
        decreases groups.len() - i,
    {
        proof {
            assert(groups@.skip(i as int)[0] == groups@[i as int]);
            assert(groups@.skip(i as int).skip(1) =~= groups@.skip(i + 1));
        }
        if groups[i].demo_tick == tick {
            return show_tags(&groups[i].tags);
        }
        i += 1;
    }
    let out: Vec<String> = Vec::new();
    assert(views(out@) =~= shown_tags(tags_at(groups@, tick)));
    out
}

/// Whether a kill is one at a tick of someone with a name.
pub open spec fn names_victim(kill: KillRecord, tick: i64, name: Seq<char>) -> bool {
    kill.tick == Some(tick) && (optional(kill.victim_name) matches Some(full) && trimmed(full)
        == name && name.len() > 0)
}

/// Those who are killed at a tick.
pub open spec fn victims_at(kills: Seq<KillRecord>, tick: i64) -> Set<Seq<char>> {
    Set::new(
        |name: Seq<char>|
            exists|i: int| 0 <= i < kills.len() && names_victim(#[trigger] kills[i], tick, name),
    )
}

fn list_victims(kills: &Vec<KillRecord>, tick: i64) -> (out: Vec<String>)
    ensures
        ascending(views(out@)),
        members(out@) == victims_at(kills@, tick),
{
    let mut out: Vec<String> = Vec::new();
    let mut i: usize = 0;
    proof {
        assert(views(out@) =~= Seq::empty());
        assert(members(out@) =~= victims_at(kills@.take(0), tick));
    }
    while i < kills.len()
        invariant
            i <= kills.len(),
            ascending(views(out@)),
            members(out@) == victims_at(kills@.take(i as int), tick),
        decreases kills.len() - i,
    {
        let ghost before = victims_at(kills@.take(i as int), tick);
        let ghost now = victims_at(kills@.take(i + 1), tick);
        let kill = &kills[i];
        let mut found: Option<String> = None;
        if kill.tick == Some(tick) {
            if let Some(full) = &kill.victim_name {
                let name = trim(full.as_str());
                if !name.as_str().is_empty() {
                    found = Some(name);
                }
            }
        }
        proof {
            assert forall|name: Seq<char>| now.contains(name) <==> (before.contains(name)
                || names_victim(*kill, tick, name)) by {
                if now.contains(name) {
                    let k = choose|k: int|
                        0 <= k < kills@.take(i + 1).len() && names_victim(
                            #[trigger] kills@.take(i + 1)[k],
                            tick,
                            name,
                        );
                    if k < i {
                        assert(kills@.take(i as int)[k] == kills@.take(i + 1)[k]);
                    }
                }
                if before.contains(name) {
                    let k = choose|k: int|
                        0 <= k < kills@.take(i as int).len() && names_victim(
                            #[trigger] kills@.take(i as int)[k],
                            tick,
                            name,
                        );
                    assert(kills@.take(i + 1)[k] == kills@.take(i as int)[k]);
                }
                if names_victim(*kill, tick, name) {
                    assert(kills@.take(i + 1)[i as int] == *kill);
                }
            }
        }
        match &found {
            Some(name) => {
                proof {
                    assert(now =~= before.insert(name@));
                }
                insert_text(&mut out, name.as_str());
            },
            None => {
                assert(now =~= before);
            },
        }
        i += 1;
    }
    assert(kills@.take(kills.len() as int) =~= kills@);
    out
}

/// Whether ticks are those that the director points out: of the kills and of the
/// groups of tags, each once, in order.
pub open spec fn are_cue_ticks(ticks: Seq<i64>, candidate: Candidate) -> bool {
    &&& rising(ticks)
    &&& forall|t: i64|
        #[trigger] ticks.contains(t) <==> candidate.point_of_kill_ticks@.contains(t) || exists|
            i: int,
        |
            0 <= i < candidate.tick_tags.len() && (#[trigger] candidate.tick_tags@[i]).demo_tick
                == t
}

fn list_cue_ticks(candidate: &Candidate) -> (out: Vec<i64>)
    ensures
        are_cue_ticks(out@, *candidate),
{
    let mut out: Vec<i64> = Vec::new();
    let kills = &candidate.point_of_kill_ticks;
    let groups = &candidate.tick_tags;
    let mut i: usize = 0;
    while i < kills.len()
        invariant
            i <= kills.len(),
            rising(out@),
            forall|t: i64| #[trigger] out@.contains(t) <==> kills@.take(i as int).contains(t),
        decreases kills.len() - i,
    {
        let ghost before = out@;
        insert_number(&mut out, kills[i]);
        proof {
            let now = kills@.take(i as int);
            let next = kills@.take(i + 1);
            assert(next =~= now.push(kills@[i as int]));
            assert forall|t: i64| #[trigger] out@.contains(t) <==> next.contains(t) by {
                assert(out@.contains(t) == out@.to_set().contains(t));
                assert(before.contains(t) == before.to_set().contains(t));
                assert(next[i as int] == kills@[i as int]);
                if now.contains(t) {
                    let k = choose|k: int| 0 <= k < now.len() && now[k] == t;
                    assert(next[k] == t);
                }
                if next.contains(t) {
                    let k = choose|k: int| 0 <= k < next.len() && next[k] == t;
                    if k < i {
                        assert(now[k] == t);
                    }
                }
            }
        }
        i += 1;
    }
    assert(kills@.take(kills.len() as int) =~= kills@);
    let mut j: usize = 0;
    while j < groups.len()
        invariant
            j <= groups.len(),
            rising(out@),
            forall|t: i64|
                #[trigger] out@.contains(t) <==> kills@.contains(t) || exists|k: int|
                    0 <= k < j && (#[trigger] groups@[k]).demo_tick == t,
        decreases groups.len() - j,
    {
        let ghost before = out@;
        insert_number(&mut out, groups[j].demo_tick);
        proof {
            assert forall|t: i64| #[trigger] out@.contains(t) <==> kills@.contains(t) || exists|
                k: int,
            |
                0 <= k < j + 1 && (#[trigger] groups@[k]).demo_tick == t by {
                assert(out@.contains(t) == out@.to_set().contains(t));
                assert(before.contains(t) == before.to_set().contains(t));
                assert(groups@[j as int].demo_tick == groups@[j as int].demo_tick);
            }
        }
        j += 1;
    }
    out
}

/// Whether a cue is the one at a tick.
pub open spec fn is_cue(cue: DirectorCue, number: int, tick: i64, candidate: Candidate) -> bool {
    &&& cue.tick == tick
    &&& cue.label@ == "FRAG CUE "@ + int_text(number)
    &&& views(cue.tags@) == shown_tags(tags_at(candidate.tick_tags@, tick))
    &&& ascending(views(cue.victims@))
    &&& members(cue.victims@) == victims_at(candidate.kills@, tick)
}

/// Whether cues are those of a candidate.
pub open spec fn are_cues(cues: Seq<DirectorCue>, candidate: Candidate) -> bool {
    &&& are_cue_ticks(Seq::new(cues.len(), |i: int| cues[i].tick), candidate)
    &&& forall|i: int|
        0 <= i < cues.len() ==> is_cue(#[trigger] cues[i], i + 1, cues[i].tick, candidate)
}

fn list_cues(candidate: &Candidate) -> (out: Vec<DirectorCue>)
    ensures
        are_cues(out@, *candidate),
{
    let ticks = list_cue_ticks(candidate);
    let mut out: Vec<DirectorCue> = Vec::new();
    let mut i: usize = 0;
    while i < ticks.len()
        invariant
            i <= ticks.len(),
            out.len() == i,
            forall|k: int|
                0 <= k < i ==> is_cue(#[trigger] out@[k], k + 1, ticks@[k], *candidate),
        decreases ticks.len() - i,
    {
        let mut label = "FRAG CUE ".to_owned();
        label.append(u64_text(i as u64 + 1).as_str());
        out.push(
            DirectorCue {
                tick: ticks[i],
                label,
                tags: show_tags_at(&candidate.tick_tags, ticks[i]),
                victims: list_victims(&candidate.kills, ticks[i]),
            },
        );
        i += 1;
    }
    proof {
        assert forall|k: int| 0 <= k < out@.len() implies is_cue(
            #[trigger] out@[k],
            k + 1,
            out@[k].tick,
            *candidate,
        ) by {
            assert(is_cue(out@[k], k + 1, ticks@[k], *candidate));
        }
        assert(Seq::new(out@.len(), |k: int| out@[k].tick) =~= ticks@);
    }
    out
}

/// The actions whose keys are shown: how each is called, where its key stands in
/// the list of keys, and how it is described.
pub open spec fn shown_actions() -> Seq<(Seq<char>, int, Seq<char>)> {
    seq![
        ("advance_time"@, 0int, "Advance 0.25 sec"@),
        ("toggle_hud"@, 1int, "Toggle HUD"@),
        ("show_help"@, 2int, "Show controls"@),
        ("back_one_second"@, 3int, "Back 1 sec"@),
        ("safe_restart"@, 4int, "Safe clip restart"@),
        ("next_kill_tick"@, 5int, "Next frag tick"@),
        ("pause_resume"@, 6int, "Pause / resume"@),
        ("enter_camera"@, 7int, "MIRV camera"@),
        ("add_keyframe"@, 8int, "Add keyframe"@),
        ("play_campath"@, 9int, "Play campath"@),
        ("start_recording"@, 11int, "Start recording"@),
        ("stop_recording"@, 12int, "Stop recording"@),
        ("print_keyframes"@, 13int, "Print keyframes"@),
        ("save_campath"@, 14int, "Save campath XML"@),
        ("overlay_panel_toggle"@, 17int, "Hide / show cue panel"@),
    ]
}

/// Whether keys are shown as they are bound.
pub open spec fn are_shown_keys(list: Seq<DirectorShortcut>, keys: Seq<Seq<char>>) -> bool {
    &&& list.len() == shown_actions().len()
    &&& forall|i: int|
        0 <= i < list.len() ==> (#[trigger] list[i]).id@ == shown_actions()[i].0 && list[i].key@
            == keys[shown_actions()[i].1] && list[i].label@ == shown_actions()[i].2
}

fn shown_key(id: &str, key: &String, label: &str) -> (out: DirectorShortcut)
    ensures
        out.id@ == id@,
        out.key@ == key@,
        out.label@ == label@,
{
    DirectorShortcut { id: id.to_owned(), key: key.clone(), label: label.to_owned() }
}

fn list_shown_keys(keys: &Vec<String>) -> (out: Vec<DirectorShortcut>)
    requires
        keys.len() == 19,
    ensures
        are_shown_keys(out@, views(keys@)),
{
    let mut out: Vec<DirectorShortcut> = Vec::new();
    out.push(shown_key("advance_time", &keys[0], "Advance 0.25 sec"));
    out.push(shown_key("toggle_hud", &keys[1], "Toggle HUD"));
    out.push(shown_key("show_help", &keys[2], "Show controls"));
    out.push(shown_key("back_one_second", &keys[3], "Back 1 sec"));
    out.push(shown_key("safe_restart", &keys[4], "Safe clip restart"));
    out.push(shown_key("next_kill_tick", &keys[5], "Next frag tick"));
    out.push(shown_key("pause_resume", &keys[6], "Pause / resume"));
    out.push(shown_key("enter_camera", &keys[7], "MIRV camera"));
    out.push(shown_key("add_keyframe", &keys[8], "Add keyframe"));
    out.push(shown_key("play_campath", &keys[9], "Play campath"));
    out.push(shown_key("start_recording", &keys[11], "Start recording"));
    out.push(shown_key("stop_recording", &keys[12], "Stop recording"));
    out.push(shown_key("print_keyframes", &keys[13], "Print keyframes"));
    out.push(shown_key("save_campath", &keys[14], "Save campath XML"));
    out.push(shown_key("overlay_panel_toggle", &keys[17], "Hide / show cue panel"));
    out
}

/// Where the path of the camera is kept in the folder of a capture.
pub open spec fn camera_path(folder: Seq<char>, separator: char) -> Seq<char> {
    below(folder, "camera_path.xml"@, separator)
}

/// Where the path of the camera is kept in the folder of a capture.
pub fn camera_path_file(folder: &str, separator: char) -> (out: String)
    ensures
        out@ == camera_path(folder@, separator),
{
    path_below(folder, "camera_path.xml", separator)
}

/// Where the files of a session with the director lie, and what stands between the
/// parts of a path.
#[derive(Debug)]
pub struct DirectorFiles {
    pub demo_file: Option<String>,
    pub output_directory: String,
    pub separator: char,
    pub telemetry_log: String,
}

/// What the director is told of a candidate; the keys are those of the settings,
/// brought into a usable state.
pub fn build_director_session(
    candidate: &Candidate,
    target_tick: i64,
    end_tick: i64,
    files: &DirectorFiles,
    shortcuts: &mut MirvShortcuts,
    schema_version: u32,
) -> (out: DirectorSession)
    ensures
        final(shortcuts).keys() == normal_keys(
            old(shortcuts).keys(),
            old(shortcuts).overlay_panel_toggle_default_version as int,
        ),
        out.schema_version == schema_version,
        out.candidate_id@ == candidate.candidate_id@,
        out.demo_file@ == (match files.demo_file {
            Some(name) => name@,
            None => candidate.source_demo@,
        }),
        out.map_name@ == candidate.map_name@,
        out.start_tick == target_tick,
        out.end_tick == end_tick,
        are_cues(out.cues@, *candidate),
        views(out.whole_candidate_tags@) == shown_tags(views(candidate.sequence_tags@)),
        are_shown_keys(out.shortcuts@, final(shortcuts).keys()),
        out.campath_file@ == camera_path(files.output_directory@, files.separator),
        out.output_directory@ == files.output_directory@,
        out.telemetry_log@ == files.telemetry_log@,
        out.telemetry_marker_prefix@ == "TF2FRAG_DIRECTOR_TICK"@,
{
    shortcuts.normalize();
    let keys = shortcuts.key_list();
    assert(keys.len() == views(keys@).len());
    let shown = list_shown_keys(&keys);
    DirectorSession {
        schema_version,
        candidate_id: candidate.candidate_id.clone(),
        demo_file: match &files.demo_file {
            Some(name) => name.clone(),
            None => candidate.source_demo.clone(),
        },
        map_name: candidate.map_name.clone(),
        start_tick: target_tick,
        end_tick,
        cues: list_cues(candidate),
        whole_candidate_tags: show_tags(&candidate.sequence_tags),
        shortcuts: shown,
        campath_file: camera_path_file(files.output_directory.as_str(), files.separator),
        output_directory: files.output_directory.clone(),
        telemetry_log: files.telemetry_log.clone(),
        telemetry_marker_prefix: "TF2FRAG_DIRECTOR_TICK".to_owned(),
    }
}

/// Whether there is a cue at a tick.
pub open spec fn has_cue(cues: Seq<DirectorCue>, tick: i64) -> bool {
    exists|i: int| 0 <= i < cues.len() && (#[trigger] cues[i]).tick == tick
}

/// Every kill and every group of tags of a candidate has its cue, and no two cues
/// are at the same tick.
pub proof fn law_cues_cover_the_candidate(cues: Seq<DirectorCue>, candidate: Candidate)
    requires
        are_cues(cues, candidate),
    ensures
        forall|i: int, j: int|
            0 <= i < j < cues.len() ==> (#[trigger] cues[i]).tick < (#[trigger] cues[j]).tick,
        forall|k: int|
            0 <= k < candidate.point_of_kill_ticks.len() ==> has_cue(
                cues,
                #[trigger] candidate.point_of_kill_ticks@[k],
            ),
        forall|k: int|
            0 <= k < candidate.tick_tags.len() ==> has_cue(
                cues,
                (#[trigger] candidate.tick_tags@[k]).demo_tick,
            ),
{
    let ticks = Seq::new(cues.len(), |i: int| cues[i].tick);
    assert forall|i: int, j: int| 0 <= i < j < cues.len() implies (#[trigger] cues[i]).tick < (
    #[trigger] cues[j]).tick by {
        assert(ticks[i] < ticks[j]);
    }
    assert forall|t: i64| ticks.contains(t) implies #[trigger] has_cue(cues, t) by {
        let i = choose|i: int| 0 <= i < ticks.len() && ticks[i] == t;
        assert(cues[i].tick == t);
    }
    assert forall|k: int| 0 <= k < candidate.point_of_kill_ticks.len() implies has_cue(
        cues,
        #[trigger] candidate.point_of_kill_ticks@[k],
    ) by {
        assert(ticks.contains(candidate.point_of_kill_ticks@[k]));
    }
    assert forall|k: int| 0 <= k < candidate.tick_tags.len() implies has_cue(
        cues,
        (#[trigger] candidate.tick_tags@[k]).demo_tick,
    ) by {
        assert(ticks.contains(candidate.tick_tags@[k].demo_tick));
    }
}

/// A tag is shown in words: without space around it, with a space for each underscore and
/// hyphen, and else as it is.
pub proof fn law_tags_are_shown_in_words(tag: Seq<char>, i: int)
    requires
        0 <= i < shown_tag(tag).len(),
    ensures
        shown_tag(tag).len() == trimmed(tag).len(),
        shown_tag(tag)[i] != '_' && shown_tag(tag)[i] != '-',
        trimmed(tag)[i] == '_' || trimmed(tag)[i] == '-' ==> shown_tag(tag)[i] == ' ',
        trimmed(tag)[i] != '_' && trimmed(tag)[i] != '-' ==> shown_tag(tag)[i] == trimmed(tag)[i],
{
    let from = seq!['_', '-'];
    assert(from[0] == '_' && from[1] == '-');
    assert(from.contains('_') && from.contains('-'));
}

/// The cues are numbered from one, and each names those who were killed at its tick.
pub proof fn law_cues_are_numbered(cues: Seq<DirectorCue>, candidate: Candidate, i: int, k: int)
    requires
        are_cues(cues, candidate),
        0 <= i < cues.len(),
        0 <= k < candidate.kills.len(),
    ensures
        cues[i].label@ == "FRAG CUE "@ + int_text(i + 1),
        candidate.kills@[k].tick == Some(cues[i].tick) && optional(
            candidate.kills@[k].victim_name,
        ) is Some && trimmed(optional(candidate.kills@[k].victim_name)->0).len() > 0 ==> views(
            cues[i].victims@,
        ).contains(trimmed(optional(candidate.kills@[k].victim_name)->0)),
{
    assert(is_cue(cues[i], i + 1, cues[i].tick, candidate));
    let kill = candidate.kills@[k];
    if kill.tick == Some(cues[i].tick) && optional(kill.victim_name) is Some && trimmed(
        optional(kill.victim_name)->0,
    ).len() > 0 {
        let name = trimmed(optional(kill.victim_name)->0);
        assert(names_victim(candidate.kills@[k], cues[i].tick, name));
        assert(victims_at(candidate.kills@, cues[i].tick).contains(name));
        assert(members(cues[i].victims@).contains(name));
    }
}

/// Each action is shown with its own key.
pub proof fn law_actions_show_their_keys(list: Seq<DirectorShortcut>, keys: MirvShortcuts)
    requires
        are_shown_keys(list, keys.keys()),
    ensures
        list.len() == 15,
        list[0].id@ == "advance_time"@ && list[0].key@ == keys.advance_time@,
        list[1].id@ == "toggle_hud"@ && list[1].key@ == keys.toggle_hud@,
        list[2].id@ == "show_help"@ && list[2].key@ == keys.show_help@,
        list[3].id@ == "back_one_second"@ && list[3].key@ == keys.back_one_second@,
        list[4].id@ == "safe_restart"@ && list[4].key@ == keys.safe_restart@,
        list[5].id@ == "next_kill_tick"@ && list[5].key@ == keys.next_kill_tick@,
        list[6].id@ == "pause_resume"@ && list[6].key@ == keys.pause_resume@,
        list[7].id@ == "enter_camera"@ && list[7].key@ == keys.enter_camera@,
        list[8].id@ == "add_keyframe"@ && list[8].key@ == keys.add_keyframe@,
        list[9].id@ == "play_campath"@ && list[9].key@ == keys.play_campath@,
        list[10].id@ == "start_recording"@ && list[10].key@ == keys.start_recording@,
        list[11].id@ == "stop_recording"@ && list[11].key@ == keys.stop_recording@,
        list[12].id@ == "print_keyframes"@ && list[12].key@ == keys.print_keyframes@,
        list[13].id@ == "save_campath"@ && list[13].key@ == keys.save_campath@,
        list[14].id@ == "overlay_panel_toggle"@ && list[14].key@ == keys.overlay_panel_toggle@,
{
    assert(shown_actions().len() == 15);
}

} // verus!
