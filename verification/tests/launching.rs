use tf2_frag_demo_helper::details::{
    candidate_detail_text, friendly_score_reason, friendly_tag, human_join, humanize_identifier,
    humanize_weapon, show_points,
};
use tf2_frag_demo_helper::launch::{
    batch_demo_name, batch_demo_path, check_batch, check_manual, check_preview, describe_encoding,
    find_game_folder, game_arguments, game_folder_fault, hlae_arguments, hook_path,
    is_stale_preview, manual_demo_name, manual_output_folder, manual_output_name, manual_save_cfg, may_be_running,
    preview_arguments, preview_cfg, preview_demo_name, session_is_done, session_space_needed,
    tf_process_name, validate_tf2_executable, windows_process_state, GameFolder, Program, Tools,
};
use tf2_frag_demo_helper::models::{Candidate, KillRecord};
use tf2_frag_demo_helper::monitor::{
    batch_verdict, launch_step, leftover_step, session_interrupted, word_behind, LaunchStep,
    LeftoverStep, MarkerEvent, RecordingMarkerState, SessionLook, SessionStep, SessionWatch,
    SizeWatch, FINISHED_WAIT_MS, STALLED_WAIT_MS, START_WAIT_MS, TF2_ABSENT_CONFIRMATIONS,
};
use tf2_frag_demo_helper::profile::{
    dx_level_is_applied, dx_level_is_restored, dx_restore_arguments, is_hitsound_file,
    may_remove_temporary, plan_resources, read_dx_level, restore_steps, shows_side, sky_texture,
    stage_steps, verify_restored_profile, BackupFacts, DxLevel, FileFacts, Place, ProfileStep,
    RecordingProfileSession, RestoredFacts,
};
use tf2_frag_demo_helper::settings::AppSettings;

fn texts(list: &[&str]) -> Vec<String> {
    list.iter().map(|text| text.to_string()).collect()
}

fn program(name: &str) -> Program {
    Program { is_there: true, path: format!("C:/{name}"), name: Some(name.into()) }
}

fn tools() -> Tools {
    Tools {
        tf2: program("tf_win64.exe"),
        hlae: program("HLAE.exe"),
        ffmpeg: program("ffmpeg.exe"),
        encoder_fault: None,
    }
}

#[test]
fn a_batch_is_refused_for_its_first_fault() {
    let settings = AppSettings::default();
    assert_eq!(check_batch(true, 1, &tools(), &settings), None);
    assert!(check_batch(false, 1, &tools(), &settings).unwrap().contains("Windows-only"));
    assert_eq!(
        check_batch(true, 0, &tools(), &settings).as_deref(),
        Some("select one or more candidates")
    );
    let mut bad = tools();
    bad.hlae.is_there = false;
    assert_eq!(
        check_batch(true, 1, &bad, &settings).as_deref(),
        Some("select hlae.exe in Settings")
    );
    let mut bad = tools();
    bad.tf2.is_there = false;
    assert_eq!(
        check_batch(true, 1, &bad, &settings).as_deref(),
        Some("select tf_win64.exe in Settings")
    );
    let mut bad = tools();
    bad.ffmpeg.is_there = false;
    assert_eq!(
        check_batch(true, 1, &bad, &settings).as_deref(),
        Some("select ffmpeg.exe before encoded video recording")
    );
    let mut bad = tools();
    bad.encoder_fault = Some("no encoder".into());
    assert_eq!(check_batch(true, 1, &bad, &settings).as_deref(), Some("no encoder"));
    let fault = validate_tf2_executable(&program("hl2.exe")).unwrap();
    assert!(fault.contains("tf_win64.exe") && fault.contains("hl2.exe"));
}

#[test]
fn a_camera_session_and_a_preview_need_their_demo() {
    let settings = AppSettings::default();
    assert_eq!(check_manual(true, &tools(), &settings, "a.dem", true), None);
    assert_eq!(
        check_manual(true, &tools(), &settings, "a.dem", false).as_deref(),
        Some("the selected candidate's original demo is missing: a.dem")
    );
    assert_eq!(
        check_manual(false, &tools(), &settings, "a.dem", true).as_deref(),
        Some("manual HLAE camera playback is Windows-only")
    );
    let tf2 = program("tf.exe");
    assert_eq!(check_preview(true, &tf2, "a.dem", true, false), None);
    assert!(check_preview(true, &tf2, "a.dem", true, true).unwrap().starts_with("close TF2"));
    assert!(check_preview(true, &tf2, "a.dem", false, false).unwrap().ends_with("a.dem"));
    assert!(check_preview(false, &tf2, "a.dem", true, false).unwrap().contains("native TF2"));
}

#[test]
fn the_game_is_started_offline() {
    let settings = AppSettings::default();
    let words = game_arguments(&settings, false, "demos/a.dem");
    assert!(words.contains("-insecure") && words.contains("+sv_lan 1"));
    assert!(words.ends_with("+playdemo demos/a.dem"));
    assert!(game_arguments(&settings, true, "a").contains("+exec tf2fragdemohelper_manual.cfg"));
    let preview = preview_arguments("C:/tf", "a.dem");
    assert!(preview.contains(&"-insecure".to_string()));
    assert!(preview_cfg().ends_with("cl_predict 0\n"));
    let hlae = hlae_arguments("C:/tf_win64.exe", "words", "x64/AfxHookSource.dll");
    assert!(hlae.contains(&"words".to_string()));
    assert_eq!(hook_path(&program("tf.exe")), "AfxHookSource.dll");
    assert_eq!(hook_path(&program("TF_WIN64.exe")), "x64/AfxHookSource.dll");
}

#[test]
fn the_game_folder_is_looked_for_in_order() {
    assert_eq!(find_game_folder(true, true, true, true), Some(GameFolder::Own));
    assert_eq!(find_game_folder(false, true, true, true), Some(GameFolder::Inside));
    assert_eq!(find_game_folder(false, false, true, true), Some(GameFolder::Above));
    assert_eq!(find_game_folder(false, false, false, true), Some(GameFolder::Beside));
    assert_eq!(find_game_folder(false, false, false, false), None);
    assert!(game_folder_fault("C:/x.exe").ends_with("C:/x.exe"));
}

#[test]
fn a_process_is_found_in_a_listing() {
    let listing = Some("\"tf_win64.exe\",\"4711\",\"Console\"".to_string());
    assert_eq!(windows_process_state(true, &listing, "tf_win64.exe"), Some(true));
    assert_eq!(windows_process_state(true, &listing, "tf.exe"), Some(false));
    assert_eq!(windows_process_state(true, &None, "tf.exe"), None);
    assert!(may_be_running(None) && may_be_running(Some(true)) && !may_be_running(Some(false)));
    assert_eq!(tf_process_name(&program("tf.exe")), "tf.exe");
}

#[test]
fn staged_demos_have_names_of_their_own() {
    let stem = Some("match 1".to_string());
    assert_eq!(batch_demo_name(2, &stem), "002_match_1.dem");
    assert_eq!(batch_demo_name(1, &None), "001_demo.dem");
    assert_eq!(batch_demo_path("s", "d.dem"), "demos/tf2fragdemohelper_batch/s/d.dem");
    assert_eq!(manual_demo_name(&None, "frag"), "candidate_demo__frag.dem");
    assert!(manual_output_name(&stem, "frag", (10, 20), "now").starts_with("match_1__frag__t10-20"));
    assert!(manual_save_cfg(r"C:\out", '\\').contains("\"C:/out/camera_path.xml\""));
    assert_eq!(
        manual_output_folder("out", "Airshot", "match", '/'),
        "out/Manual HLAE/Airshot/match"
    );
    let preview = preview_demo_name(&stem, "0123456789abcdef0123");
    assert!(preview.starts_with("tf2fragdemohelper_temp_match_1_"));
    let old = Some("tf2fragdemohelper_temp_x".to_string());
    assert!(is_stale_preview(&old, &Some("vdm".into())));
    assert!(!is_stale_preview(&stem, &Some("vdm".into())));
    assert!(session_space_needed(10, 20) >= 10);
    assert!(session_is_done(2, 0, 2, true));
    assert!(!session_is_done(1, 1, 2, true) && !session_is_done(2, 0, 2, false));
    assert!(describe_encoding(&AppSettings::default()).unwrap().contains("Encoder"));
}

#[test]
fn closing_the_game_is_confirmed() {
    let mut watch = SessionWatch::begin(0, false);
    let gone = SessionLook { now_ms: 1_000, batch_finished: false, done: 0, running: Some(false) };
    for _ in 1..TF2_ABSENT_CONFIRMATIONS {
        let outcome = watch.look(&gone);
        assert_eq!(outcome.step, SessionStep::Continue);
        watch = outcome.watch;
    }
    let back = SessionLook { running: Some(true), ..gone };
    assert_eq!(watch.look(&back).watch.absent, 0);
    assert_eq!(watch.look(&gone).step, SessionStep::Closed);
}

#[test]
fn a_game_that_records_nothing_is_closed() {
    let watch = SessionWatch::begin(0, false);
    let unknown = SessionLook { now_ms: 1, batch_finished: false, done: 0, running: None };
    let first = watch.look(&unknown);
    assert!(first.warn);
    assert!(!first.watch.look(&unknown).warn);
    let late = SessionLook { now_ms: STALLED_WAIT_MS + 1, running: Some(true), ..unknown };
    assert_eq!(watch.look(&late).step, SessionStep::CloseStalled);
    let finished = SessionLook { batch_finished: true, done: 1, running: Some(true), ..unknown };
    let outcome = watch.look(&finished);
    assert!(outcome.note_finished);
    let later = SessionLook { now_ms: 2 + FINISHED_WAIT_MS, ..finished };
    assert_eq!(outcome.watch.look(&later).step, SessionStep::CloseFinished);
}

#[test]
fn the_start_of_the_game_is_waited_for() {
    assert_eq!(launch_step(0, Some(true), false, false), (LaunchStep::Started, false));
    assert_eq!(launch_step(0, Some(false), false, false), (LaunchStep::Wait, false));
    assert_eq!(launch_step(0, None, false, false), (LaunchStep::Wait, true));
    assert_eq!(launch_step(0, None, false, true), (LaunchStep::Wait, false));
    assert_eq!(launch_step(START_WAIT_MS, Some(false), true, false).0, LaunchStep::GaveUp);
}

#[test]
fn the_log_tells_of_clips() {
    let clips = texts(&["a", "b"]);
    let mut lines = texts(&[
        "noise",
        "TF2FRAG_RECORD_START a",
        "TF2FRAG_RECORD_FINALIZED a",
    ]);
    let mut state = RecordingMarkerState::new();
    let events = state.process_recording_markers(&lines, &clips);
    assert_eq!(state.processed_lines, 3);
    assert!(state.process_recording_markers(&lines, &clips).is_empty());
    lines.push("TF2FRAG_RECORD_START b".into());
    let more = state.process_recording_markers(&lines, &clips);
    assert_eq!(events.len(), 2);
    assert!(matches!(events[0], MarkerEvent::Started { clip: 0, current: 1 }));
    assert!(matches!(events[1], MarkerEvent::Finalized { clip: 0 }));
    assert!(matches!(more[0], MarkerEvent::Started { clip: 1, current: 2 }));
    assert_eq!(word_behind("x MARK word more", "MARK").as_deref(), Some("word"));
    assert_eq!(word_behind("x", "MARK"), None);
}

#[test]
fn what_is_left_over_is_made_whole_or_given_up() {
    assert_eq!(leftover_step(true, false, true, true), LeftoverStep::Nothing);
    assert_eq!(leftover_step(false, false, true, true), LeftoverStep::Consolidate);
    assert_eq!(leftover_step(false, false, false, true).status(), "Interrupted");
    assert_eq!(leftover_step(false, false, false, false).status(), "Failed");
    assert!(leftover_step(false, false, false, false).reason().is_some());
    assert!(session_interrupted(false, false) && session_interrupted(true, true));
    assert_eq!(batch_verdict(true, 1, 0).0, "Interrupted");
    assert_eq!(batch_verdict(false, 1, 0).0, "Completed");
    let mut watch = SizeWatch::begin();
    let looks: Vec<bool> = (0..5).map(|_| watch.look(10)).collect();
    assert!(!looks[0] && looks[4]);
    assert!(!watch.look(11));
}

fn session() -> RecordingProfileSession {
    RecordingProfileSession {
        session_id: "s".into(),
        game_directory: "tf".into(),
        backup_directory: "backup".into(),
        original_custom_existed: true,
        original_profile_existed: false,
        original_profile_cfg_existed: false,
        isolated_custom: true,
        tf_process_name: "tf.exe".into(),
        original_config_existed: true,
        original_video_existed: true,
        original_offline_cfg_existed: false,
        original_cfg_folder_existed: true,
        original_cfg_overrides_existed: true,
        hitsound_files: Vec::new(),
        dx_level_was_applied: true,
        original_dx_level_existed: true,
        original_dx_level_type: "REG_DWORD".into(),
        original_dx_level_data: "0x5f".into(),
        temporary_paths: Vec::new(),
    }
}

#[test]
fn what_is_staged_is_moved_back() {
    let staged = stage_steps(&session());
    let away = ProfileStep::Move { from: Place::Custom, to: Place::BackupCustom };
    assert!(staged.contains(&away));
    let backup = BackupFacts {
        cfg_is_there: true,
        config_is_there: true,
        video_is_there: true,
        offline_is_there: false,
    };
    let back = ProfileStep::Move { from: Place::BackupCustom, to: Place::Custom };
    assert!(restore_steps(&session(), &backup).contains(&back));
}

fn restored() -> RestoredFacts {
    let same = || FileFacts { is_there: true, backup_is_there: true, matches: true };
    RestoredFacts {
        custom_is_there: true,
        custom_is_in_backup: false,
        profile_is_there: false,
        cfg_is_there: true,
        overrides_are_there: true,
        cfg_is_in_backup: false,
        profile_cfg_is_there: false,
        config: same(),
        video: same(),
        offline: FileFacts { is_there: false, backup_is_there: false, matches: false },
        hitsounds_match: Vec::new(),
    }
}

#[test]
fn every_fault_of_a_restored_profile_is_told() {
    let session = session();
    assert_eq!(verify_restored_profile(&session, &restored()), None);
    let told = |facts: RestoredFacts| verify_restored_profile(&session, &facts).unwrap_or_default();
    assert!(told(RestoredFacts { custom_is_there: false, ..restored() }).contains("tf/custom was"));
    assert!(told(RestoredFacts { custom_is_in_backup: true, ..restored() }).contains("still staged"));
    assert!(told(RestoredFacts { cfg_is_there: false, ..restored() }).contains("tf/cfg was not"));
    assert!(told(RestoredFacts { overrides_are_there: false, ..restored() }).contains("overrides"));
    let other = FileFacts { is_there: true, backup_is_there: true, matches: false };
    assert_eq!(told(RestoredFacts { config: other, ..restored() }), "");
    let mut without_cfg = self::session();
    without_cfg.original_cfg_folder_existed = false;
    without_cfg.original_cfg_overrides_existed = false;
    let facts = RestoredFacts {
        cfg_is_there: false,
        overrides_are_there: false,
        config: other,
        ..restored()
    };
    let fault = verify_restored_profile(&without_cfg, &facts).expect("fault");
    assert!(fault.starts_with("restore verification failed: config.cfg does not match"));
    assert!(fault.ends_with("Original backups remain in backup"));
    let mut with_sounds = self::session();
    with_sounds.hitsound_files = texts(&["a.wav", "b.wav"]);
    let facts = RestoredFacts { hitsounds_match: vec![true, false], ..restored() };
    let fault = verify_restored_profile(&with_sounds, &facts).expect("fault");
    assert!(fault.contains("custom hitsound was not restored: b.wav"));
    assert!(!fault.contains("a.wav"));
}

#[test]
fn resources_are_chosen_by_the_settings() {
    let mut settings = AppSettings::default();
    settings.skybox = "Default".into();
    settings.hud = "Medic recording HUD".into();
    settings.disable_announcer_voices = true;
    let plan = plan_resources(&settings).expect("resources");
    assert!(plan.silenced.contains(&"no_announcer_voices.vpk".to_string()));
    assert_eq!(plan.hud_folder.as_deref(), Some("hud/hud_medic"));
    assert!(!plan.skybox);
    settings.hud = "Keep current".into();
    settings.disable_announcer_voices = false;
    settings.disable_applause_sounds = false;
    settings.disable_domination_sounds = false;
    assert!(plan_resources(&settings).is_none());
    assert_eq!(sky_texture("night", "bk"), "nightbk.vtf");
    assert!(shows_side(&Some("sky_badlands_01bk".into()), &Some("vmt".into()), "bk"));
    assert!(is_hitsound_file("x/sound/ui/hitsound.wav", &Some("hitsound.wav".into())));
    assert!(!is_hitsound_file("x/sound/hitsound.wav", &Some("other.wav".into())));
    assert!(may_remove_temporary(&Some("demos/tf2fragdemohelper_batch/s".into()), false, &None));
    assert!(!may_remove_temporary(&Some("cfg".into()), false, &None));
}

#[test]
fn the_dx_level_is_put_back() {
    let level = read_dx_level(&texts(&["", "    DXLevel_V1    REG_DWORD    0x5f"])).expect("level");
    assert_eq!((level.kind.as_str(), level.data.as_str()), ("REG_DWORD", "0x5f"));
    assert!(dx_level_is_restored(&session(), &Some(level)));
    let other = DxLevel { kind: "REG_DWORD".into(), data: "0x62".into() };
    assert!(!dx_level_is_restored(&session(), &Some(other)));
    let arguments = dx_restore_arguments(&session(), "HKCU/x");
    assert_eq!(arguments[0], "add");
    assert!(dx_level_is_applied(true, "98"));
    assert!(!dx_level_is_applied(false, "98") && !dx_level_is_applied(true, "Default"));
}

#[test]
fn words_are_shown_to_people() {
    assert_eq!(humanize_identifier("medic_pick"), "Medic pick");
    assert_eq!(humanize_identifier(" ßa-b"), "SSa b");
    assert_eq!(human_join(&texts(&["a", "b", "c"])), "a, b, and c");
    assert_eq!(human_join(&texts(&["a"])), "a");
    assert_eq!(show_points(1_250, true), "+12.5");
    assert!(!friendly_tag("confirmed_airshot").contains('_'));
    assert!(!friendly_score_reason("confirmed_airshot").contains('_'));
    assert!(!humanize_weapon("tf_projectile_rocket").contains('_'));
    let candidate = Candidate {
        map_name: "cp_process_final".into(),
        attacker_user_id: 7,
        overall_score: 5_000,
        kills: vec![KillRecord { victim_name: Some("Alice".into()), ..KillRecord::default() }],
        ..Candidate::default()
    };
    let told = candidate_detail_text(&candidate, &Some("match.dem".into()));
    assert_eq!(told.map, "cp_process_final");
    assert!(told.kills.contains("Alice"));
    assert!(told.score.contains("50"));
}
