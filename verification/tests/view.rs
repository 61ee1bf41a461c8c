use tf2_frag_demo_helper::filter::{CandidateFilter, CandidateTexts};
use tf2_frag_demo_helper::form::{
    add_demo, dropped_status, game_places_in_steam, game_places_near_demo, is_demo_file,
    output_description, program_places_near, schema_places_near, split_paths, sync_settings,
    uses_accordion, window_position, window_told, DemoPath, RecordingForm,
};
use tf2_frag_demo_helper::models::{Candidate, DemoContext};
use tf2_frag_demo_helper::settings::AppSettings;
use tf2_frag_demo_helper::status::{
    batch_start, failure_is_told, format_time_left, loaded_status, recorded_filter,
    recording_background_label, recording_progress_text, recovery_status, single_selected,
    BatchStart, EstimateOutcome, ProgressEvent, RecordAction, RecordEvent, RecordFlow,
    RecordProgram, RecordStop,
};
use tf2_frag_demo_helper::finalize::RecordingProgress;
use tf2_frag_demo_helper::recovery::RecordingRecoveryReport;
use tf2_frag_demo_helper::view::{
    build_candidate_rows, candidate_tags_width, candidates_to_record, canonical_candidate_class,
    drag_select_candidates, filter_dropdown_width, filter_summary, list_maps, list_server_types,
    recorded_count, select_all_visible, selectable_options, selected_candidates,
    CandidateUiFilters, RecordAnswer,
};

fn texts(list: &[&str]) -> Vec<String> {
    list.iter().map(|text| text.to_string()).collect()
}

fn candidate(map: &str, class: &str, tags: &[&str], score: i64) -> Candidate {
    Candidate {
        map_name: map.into(),
        attacker_class: class.into(),
        attacker_team: "red".into(),
        attacker_user_id: 7,
        tags: texts(tags),
        overall_score: score,
        point_of_kill_ticks: vec![100, 200],
        demo_context: DemoContext {
            capture_type: "stv ß".into(),
            mode_label: "6v6".into(),
            ..DemoContext::default()
        },
        ..Candidate::default()
    }
}

#[test]
fn same_field_is_or_and_different_fields_are_and() {
    let candidate = Candidate {
        attacker_class: "demoman".into(),
        map_name: "koth_product_final".into(),
        ..Candidate::default()
    };
    assert!(CandidateFilter::parse("+class:soldier +class:demoman +map:product")
        .matches(&candidate, false, ""));
    assert!(!CandidateFilter::parse("+class:demoman +map:steel").matches(&candidate, false, ""));
}

#[test]
fn words_can_be_quoted_and_negated() {
    let candidate = candidate("cp_steel", "soldier", &["confirmed_airshot"], 100);
    let texts = CandidateTexts::of(&candidate, true, "CP_Steel soldier nice frag");
    assert!(CandidateFilter::parse("\"nice frag\"").matches_texts(&texts));
    assert!(!CandidateFilter::parse("\"frag nice\"").matches_texts(&texts));
    assert!(CandidateFilter::parse("-map:process").matches_texts(&texts));
    assert!(!CandidateFilter::parse("-class:soldier").matches_texts(&texts));
    assert!(CandidateFilter::parse("recorded:yes").matches_texts(&texts));
}

#[test]
fn the_table_shows_what_is_chosen() {
    let candidates = vec![
        candidate("cp_steel", "3", &["confirmed_airshot", "medic_pick"], 5_025),
        candidate("cp_process_final", "soldier", &["multi_kill"], 2_000),
        candidate("koth_product", "demo", &["bookmark"], 9_000),
    ];
    let files: Vec<Option<String>> = vec![Some("a.dem".into()), None, None];
    let recorded = vec![true, false, false];
    let selected = vec![false, true, false];
    let mut filters = CandidateUiFilters::default();
    let (all, rows) =
        build_candidate_rows(&candidates, &files, &recorded, &selected, &filters, 0);
    assert_eq!(all, vec![0, 1, 2]);
    assert_eq!(rows[0].score, "50.2");
    assert_eq!(rows[0].demo, "a.dem");
    assert_eq!(rows[0].attacker, "#7");
    assert_eq!(rows[0].team, "RED");
    assert_eq!(rows[0].demo_type, "STV SS");
    assert_eq!(rows[0].recorded, "Recorded");
    assert_eq!(rows[0].ticks, "100, 200");
    assert!(rows[1].selected);
    assert_eq!(candidate_tags_width(&rows), 29 * 8 + 24);

    filters.toggle_class("soldier");
    let (visible, _) = build_candidate_rows(&candidates, &files, &recorded, &selected, &filters, 0);
    assert_eq!(visible, vec![0, 1]);
    filters.recorded = Some(false);
    let (visible, _) = build_candidate_rows(&candidates, &files, &recorded, &selected, &filters, 0);
    assert_eq!(visible, vec![1]);
    filters.toggle_class("all");
    filters.recorded = None;
    filters.tag_query = " Medic-pick AIRSHOT ".into();
    assert!(filters.matches(&candidates[0], true));
    assert!(!filters.matches(&candidates[1], true));
    filters.tag_query = String::new();
    filters.toggle_map("CP_STEEL");
    assert!(filters.matches(&candidates[0], true));
    assert!(!filters.matches(&candidates[2], true));
    filters.toggle_map("CP_STEEL");
    assert!(filters.maps.is_empty());
    let (visible, _) =
        build_candidate_rows(&candidates, &files, &recorded, &selected, &filters, 51);
    assert_eq!(visible, vec![2]);
}

#[test]
fn the_filters_list_what_there_is() {
    let candidates = vec![
        candidate("cp_steel", "3", &[], 0),
        candidate("cp_badlands", "3", &[], 0),
        candidate("cp_steel", "3", &[], 0),
        candidate("", "3", &[], 0),
    ];
    let maps = list_maps(&candidates);
    assert_eq!(maps, texts(&["cp_badlands", "cp_steel"]));
    assert_eq!(list_server_types(&candidates).len(), 1);
    let options = selectable_options(&maps, &texts(&["cp_steel"]), " STEEL ");
    assert_eq!(options.len(), 1);
    assert!(options[0].selected);
    assert_eq!(filter_summary(&Vec::new(), "maps"), "All maps");
    assert_eq!(filter_summary(&texts(&["cp_steel"]), "maps"), "cp_steel");
    assert_eq!(filter_summary(&maps, "maps"), "2 maps selected");
    assert_eq!(filter_dropdown_width(&maps, 100, &Vec::new()), 11 * 8 + 52);
    assert_eq!(filter_dropdown_width(&maps, 400, &Vec::new()), 400);
    assert_eq!(canonical_candidate_class(" Heavy_Weapons "), "heavyweapons");
    assert_eq!(canonical_candidate_class("heavyweapons"), "heavy");
    assert_eq!(canonical_candidate_class("Engi"), "engineer");
}

#[test]
fn rows_are_selected_by_dragging() {
    let visible = vec![0, 2, 4, 5];
    let mut selected = vec![true, true, false, false, false, false];
    drag_select_candidates(&mut selected, &visible, 1, 1, true, true);
    assert_eq!(selected, vec![true, true, true, false, true, false]);
    drag_select_candidates(&mut selected, &visible, 3, -1, true, false);
    assert_eq!(selected, vec![false, false, false, false, true, true]);
    drag_select_candidates(&mut selected, &visible, -5, 99, true, false);
    assert_eq!(selected, vec![true, false, true, false, true, true]);
}

#[test]
fn all_rows_are_selected_and_cleared_by_turns() {
    let visible = vec![0, 2];
    let mut selected = vec![false, true, true];
    assert!(select_all_visible(&mut selected, &visible));
    assert_eq!(selected, vec![true, true, true]);
    assert!(!select_all_visible(&mut selected, &visible));
    assert_eq!(selected, vec![false, true, false]);
    assert_eq!(selected_candidates(&selected), vec![1]);
    assert_eq!(single_selected(&selected_candidates(&selected)), Some(1));
}

#[test]
fn recorded_candidates_are_recorded_again_only_when_asked() {
    let selected = vec![true, true, false, true];
    let recorded = vec![true, false, true];
    assert_eq!(recorded_count(&selected, &recorded), 1);
    assert_eq!(
        candidates_to_record(&selected, &recorded, RecordAnswer::RecordAgain),
        Some(vec![0, 1, 3])
    );
    assert_eq!(
        candidates_to_record(&selected, &recorded, RecordAnswer::SkipRecorded),
        Some(vec![1, 3])
    );
    assert_eq!(candidates_to_record(&selected, &recorded, RecordAnswer::Cancel), None);
}

#[test]
fn a_recording_is_launched_step_by_step() {
    let mut flow = RecordFlow::new(false, 1, 2);
    assert_eq!(
        flow.advance(RecordEvent::Begin { active: false, tf2: true, hlae: false, ffmpeg: false }),
        RecordAction::Pick(RecordProgram::Hlae)
    );
    assert_eq!(
        flow.advance(RecordEvent::Picked { chosen: true }),
        RecordAction::Pick(RecordProgram::Ffmpeg)
    );
    assert_eq!(
        flow.advance(RecordEvent::Picked { chosen: true }),
        RecordAction::AskAgain { recorded: 1 }
    );
    assert_eq!(
        flow.advance(RecordEvent::Answered(RecordAnswer::RecordAgain)),
        RecordAction::CheckCamera
    );
    assert_eq!(
        flow.advance(RecordEvent::CameraChecked { usable: false }),
        RecordAction::AskOriginalCamera
    );
    assert_eq!(
        flow.advance(RecordEvent::CameraAnswered { original: true }),
        RecordAction::Estimate
    );
    assert_eq!(
        flow.advance(RecordEvent::Estimated(EstimateOutcome::Fits)),
        RecordAction::Confirm
    );
    assert_eq!(flow.advance(RecordEvent::Confirmed { yes: true }), RecordAction::Launch);
    assert!(flow.replace_existing && flow.original_camera);
    assert_eq!(flow.advance(RecordEvent::Confirmed { yes: true }), RecordAction::Wait);
}

#[test]
fn a_recording_is_refused_with_a_reason() {
    let begin = RecordEvent::Begin { active: false, tf2: true, hlae: true, ffmpeg: false };
    let refused = |images: bool, recorded: usize, unrecorded: usize, events: &[RecordEvent]| {
        let mut flow = RecordFlow::new(images, recorded, unrecorded);
        let mut last = RecordAction::Wait;
        for event in events {
            last = flow.advance(*event);
        }
        match last {
            RecordAction::Stop(reason) => reason.text("why"),
            other => panic!("{other:?}"),
        }
    };
    assert!(refused(
        true,
        0,
        1,
        &[RecordEvent::Begin { active: true, tf2: true, hlae: true, ffmpeg: true }]
    )
    .starts_with("Wait for the active recording"));
    assert_eq!(
        refused(false, 0, 1, &[begin, RecordEvent::Picked { chosen: false }]),
        "Recording cancelled; Select the FFmpeg Executable was not selected"
    );
    assert_eq!(
        refused(true, 1, 0, &[begin, RecordEvent::Answered(RecordAnswer::SkipRecorded)]),
        "All selected candidates already have matching recordings"
    );
    assert_eq!(
        refused(true, 1, 0, &[begin, RecordEvent::Answered(RecordAnswer::Cancel)]),
        "Recording cancelled"
    );
    let usable = RecordEvent::CameraChecked { usable: true };
    assert_eq!(
        refused(true, 0, 1, &[begin, usable, RecordEvent::Estimated(EstimateOutcome::Failed)]),
        "Recording blocked: why"
    );
    assert_eq!(
        refused(
            true,
            0,
            1,
            &[begin, usable, RecordEvent::Estimated(EstimateOutcome::TooLittleSpace)]
        ),
        RecordStop::TooLittleSpace.text("")
    );
    assert_eq!(
        refused(
            true,
            0,
            1,
            &[
                begin,
                usable,
                RecordEvent::Estimated(EstimateOutcome::Fits),
                RecordEvent::Confirmed { yes: false }
            ]
        ),
        "Recording cancelled after pre-flight review"
    );
    assert_eq!(
        refused(
            true,
            0,
            1,
            &[
                begin,
                RecordEvent::CameraChecked { usable: false },
                RecordEvent::CameraAnswered { original: false }
            ]
        ),
        "Recording cancelled because the cinematic camera was unavailable"
    );
}

#[test]
fn progress_is_told_in_short_and_at_length() {
    assert_eq!(
        recording_background_label("Consolidating recorded candidate 1 / 2: x"),
        "CONSOLIDATING RECORDED CANDIDATE 1 / 2: X"
    );
    assert_eq!(
        recording_background_label("TF2 closed early — consolidating completed recordings"),
        "CONSOLIDATING COMPLETED RECORDINGS"
    );
    assert_eq!(recording_background_label("Restoring the profile"), "RESTORING TF2 FILES");
    assert_eq!(recording_background_label("Finalizing"), "FINALIZING OUTPUTS");
    assert_eq!(recording_background_label("HLAE started"), "HLAE RECORDING ACTIVE");
    assert_eq!(recording_background_label("?"), "RECORDING WORK IN PROGRESS");
    let told = recording_progress_text(&RecordingProgress::Finished {
        completed: 2,
        failed: 1,
        session: None,
    })
    .expect("told");
    assert_eq!(
        told.0,
        "Recording finished: 2 completed, 1 failed. Temporary session data was cleaned up."
    );
    assert_eq!(told.1, "READY");
    let event = ProgressEvent::Phase {
        phase: 1,
        completed: 2,
        total: 3,
        eta_seconds: Some(3_725),
        active_workers: 4,
        worker_limit: 8,
    };
    assert_eq!(event.text(), "Phase 1 of 2: 2/3 | active workers 4/8 | ETA 1h 02m");
    assert!(ProgressEvent::Cancelled.is_last());
    assert_eq!(format_time_left(65), "1m 05s");
    assert_eq!(format_time_left(5), "5s");
    assert_eq!(
        loaded_status(3, true),
        "Loaded 3 candidates — checking saved recordings in the background"
    );
    assert_eq!(recovery_status(&RecordingRecoveryReport::default(), "idle"), "idle");
    assert_eq!(recorded_filter("Yes"), Some(true));
    assert_eq!(recorded_filter("All"), None);
}

#[test]
fn parsing_starts_when_it_fits_and_is_confirmed() {
    assert_eq!(batch_start(0, EstimateOutcome::Fits, None), BatchStart::ChooseDemos);
    assert_eq!(batch_start(1, EstimateOutcome::Failed, None), BatchStart::EstimateFailed);
    assert_eq!(batch_start(1, EstimateOutcome::TooLittleSpace, None), BatchStart::TooLittleSpace);
    assert_eq!(batch_start(1, EstimateOutcome::Fits, None), BatchStart::Ask);
    assert_eq!(batch_start(1, EstimateOutcome::Fits, Some(false)), BatchStart::NotConfirmed);
    assert_eq!(batch_start(1, EstimateOutcome::Fits, Some(true)), BatchStart::Start);
    assert!(!failure_is_told("cancelled"));
    assert!(!failure_is_told("analyzer crashed: x"));
    assert!(failure_is_told("missing file"));
}

fn form() -> RecordingForm {
    let settings = AppSettings::default();
    RecordingForm {
        tf2_executable: "tf.exe".into(),
        hlae_executable: "HLAE.exe".into(),
        ffmpeg_executable: "ffmpeg".into(),
        recording_output_directory: "out".into(),
        recording_format: "MP4 - Standard".into(),
        mp4_compatibility: "?".into(),
        mp4_video_codec: settings.mp4_video_codec,
        mp4_pixel_format: "yuv422p".into(),
        mp4_h264_profile: settings.mp4_h264_profile,
        mp4_encoder_preset: settings.mp4_encoder_preset,
        mp4_audio_codec: settings.mp4_audio_codec,
        avi_video_codec: settings.avi_video_codec,
        avi_pixel_format: settings.avi_pixel_format,
        dnxhr_profile: settings.dnxhr_profile,
        performance_profile: "Low".into(),
        resolution: "1920x1080".into(),
        dx_level: "98 (highest)".into(),
        skybox: settings.skybox,
        hud: settings.hud,
        viewmodels: settings.viewmodels,
        lead_seconds: 99,
        outro_seconds: -3,
        jpg_quality: 0,
        mp4_crf: 20,
        viewmodel_fov: 500,
        capture_fps: "fast".into(),
        mp4_audio_bitrate_kbps: "320".into(),
        maximum_graphics: true,
        motion_blur: false,
        disable_hit_sounds: true,
        disable_voice_chat: true,
        minimal_hud: false,
        disable_combat_text: true,
        disable_crosshair: false,
        disable_crosshair_switching: false,
        hud_player_model: true,
        isolate_custom_resources: true,
        disable_announcer_voices: false,
        disable_applause_sounds: false,
        disable_domination_sounds: false,
        custom_resources: " a.vpk ;; b.zip;".into(),
    }
}

#[test]
fn what_is_entered_is_brought_into_range() {
    let mut settings = AppSettings::default();
    sync_settings(&mut settings, form());
    assert_eq!(settings.lead_seconds, 60);
    assert_eq!(settings.outro_seconds, 0);
    assert_eq!(settings.jpg_quality, 1);
    assert_eq!(settings.viewmodel_fov, 179);
    assert_eq!(settings.capture_fps, 120);
    assert_eq!(settings.mp4_audio_bitrate_kbps, 320);
    assert_eq!(settings.mp4_compatibility, "DaVinci Resolve / Universal");
    assert_eq!(settings.mp4_h264_profile, "High 4:2:2");
    assert_eq!(settings.dx_level, "98");
    assert_eq!(settings.custom_resources, texts(&["a.vpk", "b.zip"]));
    assert_eq!(split_paths(" ; "), Vec::<String>::new());
    assert!(output_description("AVI - Raw", "").starts_with("AVI"));
    assert!(output_description("MP4 - Standard", "DaVinci Resolve / Universal").contains("H.264 High"));
}

#[test]
fn demos_are_kept_in_order_and_once() {
    let path = |name: &str| DemoPath { parts: texts(&["C:", "demos", name]) };
    let mut demos = add_demo(Vec::new(), path("b.dem"));
    demos = add_demo(demos, path("a.dem"));
    demos = add_demo(demos, path("b.dem"));
    let names: Vec<&str> = demos.iter().map(|demo| demo.parts[2].as_str()).collect();
    assert_eq!(names, vec!["a.dem", "b.dem"]);
    assert!(is_demo_file(&Some("DEM".into())));
    assert!(!is_demo_file(&None));
    assert_eq!(dropped_status(1), "Loaded 1 dropped demo");
    assert_eq!(dropped_status(2), "Loaded 2 dropped demos");
}

#[test]
fn programs_are_looked_for_in_known_places() {
    assert_eq!(game_places_near_demo()[0], "tf_win64.exe");
    assert_eq!(game_places_in_steam(true).len(), 4);
    assert!(game_places_in_steam(false)[3].ends_with("tf_osx"));
    assert_eq!(schema_places_near().len(), 2);
    assert_eq!(program_places_near("HLAE.exe")[1], "HLAE/HLAE.exe");
}

#[test]
fn the_window_is_put_near_the_top() {
    assert_eq!(window_position((100, 0), (1920, 1080), (1000, 680)), (560, 100));
    assert_eq!(window_position((0, 0), (800, 600), (1000, 680)), (0, 0));
    assert!(uses_accordion(940, 679));
    assert!(!uses_accordion(940, 680));
    assert_eq!(window_told(900, 520), "WINDOW 900 x 520");
}
