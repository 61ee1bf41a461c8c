use tf2_frag_demo_helper::clips::{
    candidate_output_category, clip_window, format_number, manual_seek_targets, parse_resolution,
    partition_recording_windows, sanitize, RECORDING_FLUSH_TICKS, VDM_ACTION_GAP_TICKS,
};
use tf2_frag_demo_helper::director::{build_director_session, DirectorFiles};
use tf2_frag_demo_helper::models::{Candidate, KillRecord, TickTagGroup};
use tf2_frag_demo_helper::preflight::DiskSpace;
use tf2_frag_demo_helper::prepare::{
    is_managed_recording_session, prepared_clip_from_manifest, store_clip,
    unique_recording_identifier, OutputFolder, StoredRecordingClip,
};
use tf2_frag_demo_helper::queue::queue_playbacks;
use tf2_frag_demo_helper::scripts::{manual_hotkey_cfg, offline_cfg, recording_profile_cfg};
use tf2_frag_demo_helper::settings::AppSettings;
use tf2_frag_demo_helper::space::{estimate_recording_space, SpaceFault};
use tf2_frag_demo_helper::vdm::{
    clean_capture_screen_commands, manual_hlae_vdm_text, preview_vdm_text,
};

fn texts(list: &[&str]) -> Vec<String> {
    list.iter().map(|text| text.to_string()).collect()
}

fn stored_clip() -> StoredRecordingClip {
    StoredRecordingClip {
        order: 3,
        source_demo: "C:/demos/match.dem".into(),
        candidate_id: "candidate-7".into(),
        recording_key: "portable-recording-key".into(),
        demo_content_signature: "demo-signature".into(),
        start_tick: 9_900,
        end_tick: 10_400,
        candidate_clip_start_tick: Some(10_000),
        candidate_clip_end_tick: Some(10_300),
        attacker_user_id: 17,
        recording_identifier: "clip-identifier".into(),
        expected_output_path: "C:/outputs/clip.mp4".into(),
        actual_output_path: None,
        output_fingerprint: None,
        working_path: None,
        frames_path: None,
        audio_path: None,
        native_capture_base: "capture-base".into(),
        replace_existing: true,
    }
}

#[test]
fn primary_tag_creates_a_readable_output_category() {
    let candidate = Candidate {
        tags: texts(&["confirmed_airshot"]),
        primary_tag: "confirmed_airshot".into(),
        ..Candidate::default()
    };
    assert_eq!(candidate_output_category(&candidate), "Confirmed Airshot");
}

#[test]
fn the_director_is_told_tags_and_victims_tick_by_tick() {
    let candidate = Candidate {
        candidate_id: "r1-p2-t12000".into(),
        source_demo: r"C:\demos\match.dem".into(),
        map_name: "cp_process_final".into(),
        point_of_kill_ticks: vec![12_000, 12_060],
        tick_tags: vec![
            TickTagGroup {
                demo_tick: 12_000,
                tags: texts(&["confirmed_airshot"]),
                ..TickTagGroup::default()
            },
            TickTagGroup {
                demo_tick: 12_060,
                tags: texts(&["medic_pick"]),
                ..TickTagGroup::default()
            },
        ],
        sequence_tags: texts(&["multi_kill"]),
        kills: vec![
            KillRecord {
                tick: Some(12_000),
                victim_name: Some("Alice".into()),
                ..KillRecord::default()
            },
            KillRecord { tick: Some(12_060), ..KillRecord::default() },
        ],
        ..Candidate::default()
    };
    let files = DirectorFiles {
        demo_file: Some("match.dem".into()),
        output_directory: r"C:\captures\candidate".into(),
        separator: '\\',
        telemetry_log: r"C:\Team Fortress 2\tf\tf2fragdemohelper_recording.log".into(),
    };
    let mut settings = AppSettings::default();
    let session = build_director_session(
        &candidate,
        11_000,
        13_000,
        &files,
        &mut settings.mirv_shortcuts,
        1,
    );

    assert_eq!(session.cues.len(), 2);
    assert_eq!(session.cues[0].tags, vec!["confirmed airshot"]);
    assert_eq!(session.cues[0].victims, vec!["Alice"]);
    assert!(session.cues[1].victims.is_empty());
    assert_eq!(session.whole_candidate_tags, vec!["multi kill"]);
    assert_eq!(session.shortcuts.len(), 15);
    assert_eq!(session.shortcuts[0].key, "[");
    assert_eq!(session.shortcuts[7].label, "MIRV camera");
    assert_eq!(session.campath_file, r"C:\captures\candidate\camera_path.xml");
    assert_eq!(session.shortcuts[14].key, "C");
    assert_eq!(session.telemetry_marker_prefix, "TF2FRAG_DIRECTOR_TICK");
}

#[test]
fn manual_hotkeys_cycle_every_distinct_kill_tick() {
    let candidate = Candidate {
        point_of_kill_ticks: vec![900, 900, 925, 970],
        ..Candidate::default()
    };
    let cfg = manual_hotkey_cfg(
        &candidate,
        500,
        "demos/tf2fragdemohelper_manual/session/candidate.dem",
        &AppSettings::default(),
    );
    assert!(cfg.contains("playdemo demos/tf2fragdemohelper_manual/session/candidate.dem"));
    assert!(!cfg.contains("demo_gototick 500"));
    assert!(cfg.contains("TF2FRAG_MANUAL_KILL 1/3 TICK 900"));
    assert!(cfg.contains("TF2FRAG_MANUAL_KILL 2/3 TICK 925"));
    assert!(cfg.contains("TF2FRAG_MANUAL_KILL 3/3 TICK 970"));
    assert!(cfg.contains("bind \"1\" \"tf2frag_manual_help\""));
    assert!(cfg.contains("bind \"[\" \"mirv_skip time 0.25\""));
    assert!(cfg.contains("bind \"]\" \"tf2frag_manual_toggle_hud\""));
    assert!(!cfg.contains("RIGHTARROW"));
    assert!(!cfg.contains("UPARROW"));
    assert!(cfg.contains("cl_drawhud 0"));
    assert!(cfg.contains("cl_drawhud 1"));
    assert!(cfg.contains("bind \"6\""));
    assert!(cfg.contains("mirv_input camera"));
    assert!(cfg.contains("mirv_input end; thirdperson; r_drawviewmodel 0; mirv_campath enabled 1"));
    assert!(cfg.contains("bind \"9\" \"tf2frag_manual_start\""));
    assert!(cfg.contains("bind \"0\" \"tf2frag_manual_stop\""));
    assert!(cfg.contains("bind \"=\" \"tf2frag_manual_save\""));
    assert!(!cfg.contains("bind \"F"));
}

#[test]
fn manual_hotkeys_use_saved_custom_keys_and_never_bind_arrows() {
    let mut settings = AppSettings::default();
    settings.mirv_shortcuts.advance_time = "q".into();
    settings.mirv_shortcuts.toggle_hud = "F12".into();
    settings.mirv_shortcuts.safe_restart = "LEFTARROW".into();
    let cfg = manual_hotkey_cfg(
        &Candidate::default(),
        500,
        "demos/tf2fragdemohelper_manual/session/candidate.dem",
        &settings,
    );
    assert!(cfg.contains("bind \"q\" \"mirv_skip time 0.25\""));
    assert!(cfg.contains("bind \"F12\" \"tf2frag_manual_toggle_hud\""));
    assert!(cfg.contains("bind \"3\" \"tf2frag_manual_clip_start\""));
    assert!(!cfg.contains("bind \"LEFTARROW\""));
    assert!(!cfg.contains("bind \"RIGHTARROW\""));
    assert!(!cfg.contains("bind \"UPARROW\""));
    assert!(!cfg.contains("bind \"DOWNARROW\""));
}

#[test]
fn manual_hlae_vdm_pauses_after_seeking_to_selected_start() {
    let vdm = manual_hlae_vdm_text(&Candidate::default(), 500, 530);
    assert!(vdm.contains("skiptotick \"500\""));
    assert!(vdm.contains("starttick \"501\""));
    assert!(vdm.contains("thirdperson; r_drawviewmodel 0; mirv_cmd clear"));
    assert!(vdm.contains("mirv_cmd enabled 1"));
    assert!(vdm.contains("mirv_cmd addCurves tick 501 530 - interp=linear space=abs 501 501 530 530"));
    assert!(vdm.contains("echo TF2FRAG_DIRECTOR_TICK {0}"));
    assert!(vdm.contains("demo_pause; echo TF2FRAG_MANUAL_PAUSED_AT_START"));
    assert!(vdm.contains("echo TF2FRAG_DIRECTOR_TICK 501"));
    assert_eq!(vdm.matches("TF2 MIRV Director live tick").count(), 0);
    assert!(!vdm.contains("exec tf2fragdemohelper_manual"));
    let pause = vdm.find("demo_pause").expect("pause command");
    let seek = vdm.find("skiptotick \"500\"").expect("safe seek command");
    assert!(pause > seek);
}

#[test]
fn manual_hlae_seek_is_split_into_at_most_fifteen_thousand_tick_steps() {
    assert_eq!(manual_seek_targets(46_001), vec![15_000, 30_000, 45_000, 46_001]);
    assert_eq!(manual_seek_targets(15_000), vec![15_000]);
    assert!(manual_seek_targets(0).is_empty());

    let vdm = manual_hlae_vdm_text(&Candidate::default(), 46_001, 46_101);
    for tick in [15_000, 30_000, 45_000, 46_001] {
        assert!(vdm.contains(&format!("skiptotick \"{tick}\"")));
    }
    assert!(vdm.contains("starttick \"46002\""));
}

#[test]
fn a_preview_seeks_and_focuses() {
    let candidate = Candidate { attacker_user_id: 7, ..Candidate::default() };
    let vdm = preview_vdm_text(&candidate, 3_000);
    assert!(vdm.starts_with("demoactions"));
    assert!(vdm.contains("skiptotick \"3000\""));
}

#[test]
fn output_identifier_does_not_reuse_batch_names() {
    let folder = OutputFolder {
        root: "recordings".into(),
        separator: '/',
        encoded: true,
        extension: "mp4".into(),
        taken: Vec::new(),
    };
    let base = "demo__candidate__t900-1200__k1234567890abcdef";
    let mut reserved: Vec<String> = Vec::new();

    let first = unique_recording_identifier(&folder, "Confirmed Airshot", base, &reserved);
    assert_eq!(first, base);
    assert!(!first.contains("__cam"));

    reserved.push(first);
    let second = unique_recording_identifier(&folder, "Confirmed Airshot", base, &reserved);
    assert_eq!(second, format!("{base}_2"));
}

#[test]
fn an_identifier_does_not_reuse_outputs_that_are_there() {
    let mut folder = OutputFolder {
        root: "recordings".into(),
        separator: '/',
        encoded: true,
        extension: "mp4".into(),
        taken: Vec::new(),
    };
    let there = folder.output_path("Airshot", "clip");
    assert_eq!(there, "recordings/Videos/Airshot/clip.mp4");
    folder.taken.push(there);
    assert_eq!(unique_recording_identifier(&folder, "Airshot", "clip", &Vec::new()), "clip_2");
}

#[test]
fn overlapping_windows_are_split_without_changing_ticks() {
    let windows = vec![(40_201, 40_934), (40_535, 41_268), (42_000, 42_200)];
    let passes = partition_recording_windows(&windows);

    assert_eq!(passes, vec![vec![0, 2], vec![1]]);
    for pass in passes {
        let mut previous_finalize: Option<i64> = None;
        for index in pass {
            let (start, end) = windows[index];
            if let Some(previous) = previous_finalize {
                assert!(start > previous + VDM_ACTION_GAP_TICKS);
            }
            previous_finalize = Some(end + RECORDING_FLUSH_TICKS);
        }
    }
    assert_eq!(windows[1], (40_535, 41_268));
}

#[test]
fn as_many_passes_are_played_as_windows_overlap_at_most() {
    let windows = vec![(1_000, 1_500), (1_100, 1_200), (1_150, 1_600), (1_650, 1_800), (2_500, 2_600)];
    // The first three overlap each other; no more than three ever do.
    assert_eq!(partition_recording_windows(&windows), vec![vec![0, 3, 4], vec![1], vec![2]]);
}

#[test]
fn compatible_windows_stay_in_one_playback_pass() {
    let windows = vec![(1_000, 1_100), (1_300, 1_400), (1_600, 1_700)];
    assert_eq!(partition_recording_windows(&windows), vec![vec![0, 1, 2]]);
}

#[test]
fn every_clip_is_queued_once_demo_by_demo() {
    let demo = |name: &str| Some(texts(&["C:", "demos", name]));
    let sources = vec![demo("b.dem"), demo("a.dem"), None, demo("a.dem"), demo("a.dem")];
    let windows = vec![(100, 200), (900, 1_000), (0, 1), (100, 200), (150, 250)];
    let playbacks = queue_playbacks(&sources, &windows);
    let mut seen: Vec<usize> = playbacks.iter().flat_map(|playback| playback.clips.clone()).collect();
    seen.sort();
    assert_eq!(seen, vec![0, 1, 3, 4]);
    assert_eq!(playbacks[0].demo, texts(&["C:", "demos", "a.dem"]));
    assert_eq!(playbacks[0].clips, vec![3, 1]);
    assert_eq!(playbacks[1].clips, vec![4]);
    assert_eq!(playbacks[2].demo, texts(&["C:", "demos", "b.dem"]));
}

#[test]
fn recording_estimate_includes_output_working_space_and_headroom() {
    let mut candidate = Candidate::default();
    candidate.point_of_kill_ticks = vec![1_000, 1_067];
    let mut settings = AppSettings::default();
    settings.recording_output_directory = "recordings".into();
    settings.recording_format = "MP4 - Standard".into();
    settings.resolution = "1920x1080".into();
    settings.capture_fps = 120;
    let disk = DiskSpace { mount_point: "/".into(), available_bytes: 1_000_000_000_000 };

    let estimate = estimate_recording_space(&vec![candidate], &settings, &disk)
        .expect("recording estimate");
    assert_eq!(estimate.clip_count, 1);
    assert!(estimate.frame_count > 0);
    assert!(estimate.final_output_bytes > 0);
    assert!(estimate.peak_working_bytes > estimate.final_output_bytes);
    assert!(estimate.required_free_bytes > estimate.peak_working_bytes);
    assert!(estimate.has_enough_space());
    assert!(estimate.summary().contains("1920"));
    assert!(estimate.ensure_space(disk).is_ok());
}

#[test]
fn too_small_a_disk_is_refused() {
    let mut candidate = Candidate::default();
    candidate.point_of_kill_ticks = vec![1_000];
    let settings =
        AppSettings { recording_output_directory: "recordings".into(), ..AppSettings::default() };
    let disk = DiskSpace { mount_point: "/".into(), available_bytes: 10 };
    let estimate =
        estimate_recording_space(&vec![candidate], &settings, &disk).expect("an estimate");
    assert!(!estimate.has_enough_space());
    assert!(estimate.ensure_space(disk).is_err());
    let disk = DiskSpace { mount_point: "/".into(), available_bytes: 10 };
    let fault = estimate_recording_space(&Vec::new(), &settings, &disk).expect_err("no candidates");
    assert!(matches!(fault, SpaceFault::NothingSelected));
    let mut candidate = Candidate::default();
    candidate.point_of_kill_ticks = vec![1_000];
    let fault = estimate_recording_space(&vec![candidate], &AppSettings::default(), &disk)
        .expect_err("no folder");
    assert!(matches!(fault, SpaceFault::NoOutput));
    assert!(!fault.message().is_empty());
}

#[test]
fn completed_session_cleanup_accepts_only_direct_managed_children() {
    let root = "app-data/Recording Sessions";
    let name = |name: &str| Some(name.to_string());
    assert!(is_managed_recording_session(
        root,
        &name("app-data/Recording Sessions"),
        &name("tf2fragdemohelper_batch_20260825_120000_000")
    ));
    assert!(!is_managed_recording_session(
        root,
        &name("app-data/Recording Sessions"),
        &name("unrelated")
    ));
    assert!(!is_managed_recording_session(
        root,
        &name("app-data/Recording Sessions/nested"),
        &name("tf2fragdemohelper_batch_20260825_120000_000")
    ));
}

#[test]
fn retained_manifest_preserves_candidate_identity_for_reindexing() {
    let stored = stored_clip();
    let clip = prepared_clip_from_manifest(&stored);
    assert_eq!(clip.recording_key, "portable-recording-key");
    assert_eq!(clip.demo_signature, "demo-signature");
    assert_eq!(clip.candidate_start_tick, 10_000);
    assert_eq!(clip.candidate_end_tick, 10_300);
    assert_eq!(clip.start_tick, 9_900);
    assert_eq!(clip.end_tick, 10_400);
    assert_eq!(clip.final_output_path, "C:/outputs/clip.mp4");
    assert!(clip.replace_existing);
}

#[test]
fn a_clip_is_read_back_from_a_manifest_as_it_was() {
    let clip = prepared_clip_from_manifest(&stored_clip());
    let again = prepared_clip_from_manifest(&store_clip(&clip));
    assert_eq!(format!("{:?}", again), format!("{:?}", clip));
}

#[test]
fn recordings_show_no_votes_and_no_messages() {
    assert!(offline_cfg().contains("sv_allow_votes 0"));
    assert!(offline_cfg().contains("cl_showtextmsg 0"));
    assert!(clean_capture_screen_commands().contains("cl_showpluginmessages 0"));
    let cfg = recording_profile_cfg(&AppSettings::default());
    assert!(cfg.contains("sv_lan 1"));
}

#[test]
fn the_window_goes_around_the_kills() {
    let candidate = Candidate { point_of_kill_ticks: vec![1_000, 1_200], ..Candidate::default() };
    let settings = AppSettings { lead_seconds: 5, outro_seconds: 3, ..AppSettings::default() };
    assert_eq!(clip_window(&candidate, &settings), (667, 1_400));
}

#[test]
fn names_and_numbers_are_written_plainly() {
    assert_eq!(sanitize("a b/c.dem"), "a_b_c_dem");
    assert_eq!(format_number(1_234_567), "1,234,567");
    assert_eq!(parse_resolution("2560x1440"), (2560, 1440));
    assert_eq!(parse_resolution("wide"), (2560, 1440));
}
