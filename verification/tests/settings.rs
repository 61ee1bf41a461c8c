use tf2_frag_demo_helper::models::{Candidate, ScoreItem, TickTagGroup};
use tf2_frag_demo_helper::settings::AppSettings;
use tf2_frag_demo_helper::shortcuts::MirvShortcuts;

fn texts(list: &[&str]) -> Vec<String> {
    list.iter().map(|text| text.to_string()).collect()
}

fn item(reason: &str, points: i64) -> ScoreItem {
    ScoreItem {
        reason: Some(reason.into()),
        points: Some(points),
        event_tick: None,
        count: None,
    }
}

#[test]
fn older_settings_without_encoding_fields_receive_safe_defaults() {
    let mut settings = AppSettings {
        recording_format: "MP4 - Standard".into(),
        capture_fps: 240,
        ..AppSettings::default()
    };
    settings.normalize_encoding_options();
    assert_eq!(settings.recording_format, "MP4 - Standard");
    assert_eq!(settings.capture_fps, 240);
    assert_eq!(settings.mp4_compatibility, "DaVinci Resolve / Universal");
    assert_eq!(settings.mp4_pixel_format, "yuv420p");
    assert_eq!(settings.mp4_h264_profile, "High");
    assert_eq!(settings.mp4_crf, 18);
    assert_eq!(settings.mp4_encoder_preset, "medium");
    assert_eq!(settings.mp4_audio_bitrate_kbps, 192);
    assert_eq!(settings.avi_video_codec, "Original HLAE Raw");
    assert_eq!(settings.avi_pixel_format, "HLAE Native");
    assert_eq!(settings.dnxhr_profile, "HQ");
}

#[test]
fn legacy_recording_choices_migrate_to_selectable_values() {
    let mut settings = AppSettings {
        dx_level: "98 (highest)".into(),
        skybox: "default".into(),
        hud: "medic recording hud".into(),
        viewmodels: "Default".into(),
        ..AppSettings::default()
    };
    settings.normalize_recording_options();
    assert_eq!(settings.dx_level, "98");
    assert_eq!(settings.skybox, "Default");
    assert_eq!(settings.hud, "Medic recording HUD");
    assert_eq!(settings.viewmodels, "On");
}

#[test]
fn invalid_recording_choices_fall_back_safely() {
    let mut settings = AppSettings {
        dx_level: "unsupported".into(),
        skybox: "missing_sky".into(),
        hud: "missing hud".into(),
        viewmodels: "missing".into(),
        ..AppSettings::default()
    };
    settings.normalize_recording_options();
    assert_eq!(settings.dx_level, "Default");
    assert_eq!(settings.skybox, "Default");
    assert_eq!(settings.hud, "Kill notices only");
    assert_eq!(settings.viewmodels, "On");
}

#[test]
fn normalizing_twice_changes_nothing_more() {
    let mut settings = AppSettings {
        mp4_pixel_format: "yuv444p".into(),
        mp4_crf: 99,
        mp4_audio_bitrate_kbps: 7,
        avi_video_codec: "HuffYUV Lossless".into(),
        avi_pixel_format: "rgb24".into(),
        ..AppSettings::default()
    };
    settings.normalize_encoding_options();
    assert_eq!(settings.mp4_h264_profile, "High 4:4:4 Predictive");
    assert_eq!(settings.mp4_crf, 35);
    assert_eq!(settings.mp4_audio_bitrate_kbps, 192);
    assert_eq!(settings.avi_pixel_format, "rgb24");
    let before = format!("{:?}", settings);
    settings.normalize_encoding_options();
    assert_eq!(format!("{:?}", settings), before);
}

#[test]
fn mirv_shortcuts_keep_the_pdf_defaults() {
    let shortcuts = MirvShortcuts::default();
    assert_eq!(shortcuts.advance_time, "[");
    assert_eq!(shortcuts.toggle_hud, "]");
    assert_eq!(shortcuts.show_help, "1");
    assert_eq!(shortcuts.save_campath, "=");
    assert_eq!(shortcuts.load_campath, "F8");
    assert_eq!(shortcuts.draw_campath, "/");
    assert_eq!(shortcuts.execute_director_action, "'");
    assert_eq!(shortcuts.overlay_panel_toggle, "C");
    assert_eq!(shortcuts.overlay_interaction_toggle, "F11");
    assert_eq!(shortcuts.overlay_panel_toggle_default_version, 3);
}

#[test]
fn legacy_overlay_defaults_migrate_once_to_c() {
    let mut shortcuts = MirvShortcuts::default();
    shortcuts.overlay_panel_toggle = "HOME".into();
    shortcuts.overlay_panel_toggle_default_version = 0;
    shortcuts.normalize();
    assert_eq!(shortcuts.overlay_panel_toggle, "C");
    assert_eq!(shortcuts.overlay_panel_toggle_default_version, 3);

    shortcuts.overlay_panel_toggle = "HOME".into();
    shortcuts.normalize();
    assert_eq!(shortcuts.overlay_panel_toggle, "HOME");

    let mut y_default = MirvShortcuts::default();
    y_default.overlay_panel_toggle = "Y".into();
    y_default.overlay_panel_toggle_default_version = 1;
    y_default.normalize();
    assert_eq!(y_default.overlay_panel_toggle, "C");
    assert_eq!(y_default.overlay_panel_toggle_default_version, 3);

    let mut s_default = MirvShortcuts::default();
    s_default.overlay_panel_toggle = "S".into();
    s_default.overlay_panel_toggle_default_version = 2;
    s_default.normalize();
    assert_eq!(s_default.overlay_panel_toggle, "C");
    assert_eq!(s_default.overlay_panel_toggle_default_version, 3);

    let mut custom = MirvShortcuts::default();
    custom.overlay_panel_toggle = "Q".into();
    custom.overlay_panel_toggle_default_version = 1;
    custom.normalize();
    assert_eq!(custom.overlay_panel_toggle, "Q");
    assert_eq!(custom.overlay_panel_toggle_default_version, 3);

    let mut current_custom = MirvShortcuts::default();
    current_custom.overlay_panel_toggle = "S".into();
    current_custom.overlay_panel_toggle_default_version = 3;
    current_custom.normalize();
    assert_eq!(current_custom.overlay_panel_toggle, "S");
}

#[test]
fn mirv_shortcuts_reject_every_arrow_key_name() {
    for arrow in ["UPARROW", "downarrow", "LeftArrow", "RIGHTARROW"] {
        let mut shortcuts = MirvShortcuts::default();
        shortcuts.advance_time = arrow.into();
        shortcuts.normalize();
        assert_eq!(shortcuts.advance_time, "[");
        assert!(!shortcuts.advance_time.eq_ignore_ascii_case(arrow));
    }
}

#[test]
fn mirv_shortcuts_accept_captured_printable_and_named_keys() {
    let mut shortcuts = MirvShortcuts::default();
    shortcuts.advance_time = "q".into();
    shortcuts.toggle_hud = "f12".into();
    shortcuts.normalize();
    assert_eq!(shortcuts.advance_time, "q");
    assert_eq!(shortcuts.toggle_hud, "F12");
}

#[test]
fn primary_tag_uses_the_first_tag_on_the_earliest_tick() {
    let candidate = Candidate {
        tags: texts(&["projectile_kill", "confirmed_airshot", "late_round"]),
        tick_tags: vec![TickTagGroup {
            demo_tick: 1_000,
            server_ticks: vec![9_000],
            tags: texts(&["projectile_kill", "confirmed_airshot"]),
        }],
        sequence_tags: texts(&["late_round"]),
        score_breakdown: vec![
            item("state_confirmed_airshot", 2_000),
            item("projectile_sequence", 800),
            item("late_round", 800),
        ],
        ..Candidate::default()
    };
    assert_eq!(candidate.inferred_primary_tag(), "projectile_kill");
}

#[test]
fn future_matching_tag_identifiers_are_automatically_eligible() {
    let candidate = Candidate {
        tags: texts(&["future_combo", "projectile_kill"]),
        sequence_tags: texts(&["future_combo"]),
        score_breakdown: vec![item("future_combo", 4_000), item("projectile_sequence", 800)],
        ..Candidate::default()
    };
    assert_eq!(candidate.inferred_primary_tag(), "future_combo");
}
