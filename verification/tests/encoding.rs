use tf2_frag_demo_helper::encoding::{
    effective_avi_encoding, effective_dnxhr_encoding, effective_encoding_summary,
    effective_mp4_encoding, encoded_extension, encoded_media_name, hlae_custom_avi_preset_command,
    hlae_custom_dnxhr_preset_command, hlae_custom_mp4_preset_command, judge_encoder_list,
    mp4_encoding_manifest, required_encoder, EncoderCheck,
};
use tf2_frag_demo_helper::scripts::{manual_recording_start_cfg, recording_start_cfg};
use tf2_frag_demo_helper::settings::AppSettings;

#[test]
fn standard_mp4_defaults_to_resolve_compatible_encoding() {
    let settings = AppSettings::default();
    assert_eq!(settings.recording_format, "MP4 - Standard");
    let encoding = effective_mp4_encoding(&settings)
        .expect("valid encoding")
        .expect("MP4 encoding");
    assert_eq!(encoding.pixel_format, "yuv420p");
    assert_eq!(encoding.ffmpeg_profile, "high");
    assert_eq!(encoding.crf, Some(18));
    assert_eq!(encoding.encoder_preset.as_deref(), Some("medium"));
    assert_eq!(encoding.audio_bitrate_kbps, 192);
    assert!(encoding.custom_hlae_preset);
}

#[test]
fn resolve_hlae_command_has_one_compatible_output_format_and_profile() {
    let encoding = effective_mp4_encoding(&AppSettings::default())
        .expect("valid encoding")
        .expect("MP4 encoding");
    let command = hlae_custom_mp4_preset_command(&encoding).expect("custom HLAE command");
    assert!(command.contains("-c:v libx264"));
    assert!(command.contains("-pix_fmt yuv420p"));
    assert!(command.contains("-profile:v high"));
    assert!(command.contains("-crf 18"));
    assert_eq!(command.matches("-pix_fmt").count(), 1);
    assert_eq!(command.matches("-profile:v").count(), 1);
    assert!(command.contains("{FRAMERATE}"));
}

#[test]
fn custom_pixel_format_selects_matching_h264_profile() {
    let mut settings = AppSettings::default();
    settings.mp4_compatibility = "Custom".into();
    settings.mp4_pixel_format = "yuv422p".into();
    settings.normalize_encoding_options();
    let encoding = effective_mp4_encoding(&settings)
        .expect("valid encoding")
        .expect("MP4 encoding");
    assert_eq!(encoding.h264_profile, "High 4:2:2");
    assert_eq!(encoding.ffmpeg_profile, "high422");

    settings.mp4_pixel_format = "yuv444p".into();
    settings.normalize_encoding_options();
    let encoding = effective_mp4_encoding(&settings)
        .expect("valid encoding")
        .expect("MP4 encoding");
    assert_eq!(encoding.h264_profile, "High 4:4:4 Predictive");
    assert_eq!(encoding.ffmpeg_profile, "high444");
}

#[test]
fn lossless_and_non_mp4_formats_ignore_lossy_advanced_options() {
    for format in [
        "MP4 - Lossless",
        "MOV - DNxHR",
        "AVI - Raw",
        "TGA Image Sequence",
        "JPG Image Sequence",
    ] {
        let mut settings = AppSettings::default();
        settings.recording_format = format.into();
        assert!(effective_mp4_encoding(&settings)
            .expect("valid non-standard format")
            .is_none());
    }
}

#[test]
fn avi_original_preset_remains_the_default_and_advanced_codecs_are_wired() {
    let mut settings = AppSettings::default();
    settings.recording_format = "AVI - Raw".into();
    let original = effective_avi_encoding(&settings)
        .expect("valid AVI settings")
        .expect("AVI encoding");
    assert!(!original.custom_hlae_preset);
    assert!(hlae_custom_avi_preset_command(&original).is_none());

    settings.avi_video_codec = "FFV1 Lossless".into();
    settings.normalize_encoding_options();
    let ffv1 = effective_avi_encoding(&settings)
        .expect("valid FFV1 settings")
        .expect("AVI encoding");
    let command = hlae_custom_avi_preset_command(&ffv1).expect("custom FFV1 command");
    assert!(command.contains("-c:v ffv1"));
    assert!(command.contains("-level 3"));
    assert!(command.contains("-pix_fmt bgr0"));
    assert!(command.contains("video.avi"));

    settings.avi_video_codec = "HuffYUV Lossless".into();
    settings.avi_pixel_format = "rgb24".into();
    settings.normalize_encoding_options();
    let huffyuv = effective_avi_encoding(&settings)
        .expect("valid HuffYUV settings")
        .expect("AVI encoding");
    let command = hlae_custom_avi_preset_command(&huffyuv).expect("custom HuffYUV command");
    assert!(command.contains("-c:v huffyuv"));
    assert!(command.contains("-pix_fmt rgb24"));
}

#[test]
fn dnxhr_profiles_force_ffmpeg_supported_pixel_formats() {
    for (profile, ffmpeg_profile, pixel_format, bit_depth) in [
        ("LB", "dnxhr_lb", "yuv422p", 8),
        ("SQ", "dnxhr_sq", "yuv422p", 8),
        ("HQ", "dnxhr_hq", "yuv422p", 8),
        ("HQX", "dnxhr_hqx", "yuv422p10le", 10),
        ("444", "dnxhr_444", "gbrp10le", 10),
    ] {
        let mut settings = AppSettings::default();
        settings.recording_format = "MOV - DNxHR".into();
        settings.dnxhr_profile = profile.into();
        let encoding = effective_dnxhr_encoding(&settings)
            .expect("valid DNxHR settings")
            .expect("DNxHR encoding");
        assert_eq!(encoding.ffmpeg_profile, ffmpeg_profile);
        assert_eq!(encoding.pixel_format, pixel_format);
        assert_eq!(encoding.bit_depth, bit_depth);
        let command = hlae_custom_dnxhr_preset_command(&encoding);
        let expected_profile = format!("-profile:v {ffmpeg_profile}");
        let expected_pixel_format = format!("-pix_fmt {pixel_format}");
        assert!(command.contains("-c:v dnxhd"));
        assert!(command.contains(expected_profile.as_str()));
        assert!(command.contains(expected_pixel_format.as_str()));
        assert!(command.contains("video.mov"));
    }
}

#[test]
fn advanced_encoding_does_not_override_requested_recording_fps() {
    let mut settings = AppSettings::default();
    settings.capture_fps = 240;
    let command = recording_start_cfg(&settings, "", "", "C:/working/clip");
    assert!(command.contains("host_framerate 240"));
    assert!(command.contains("mirv_streams record fps 240"));
    assert!(command.contains("screen settings tf2FragMp4"));
}

#[test]
fn maximum_color_quality_keeps_original_hlae_preset() {
    let mut settings = AppSettings::default();
    settings.mp4_compatibility = "Maximum Color Quality".into();
    let command = recording_start_cfg(&settings, "", "", "C:/working/clip");
    assert!(command.contains("screen settings afxFfmpeg"));
    assert!(!command.contains("screen settings tf2FragMp4"));
}

#[test]
fn dnxhr_and_avi_keep_requested_recording_fps_and_select_their_presets() {
    let mut settings = AppSettings::default();
    settings.capture_fps = 480;
    settings.recording_format = "MOV - DNxHR".into();
    let command = recording_start_cfg(&settings, "", "", "C:/working/clip");
    assert!(command.contains("host_framerate 480"));
    assert!(command.contains("mirv_streams record fps 480"));
    assert!(command.contains("screen settings tf2FragDnxhr"));
    assert_eq!(encoded_extension(&settings), "mov");

    settings.recording_format = "AVI - Raw".into();
    settings.avi_video_codec = "FFV1 Lossless".into();
    settings.normalize_encoding_options();
    let command = recording_start_cfg(&settings, "", "", "C:/working/clip");
    assert!(command.contains("screen settings tf2FragAvi"));
    assert_eq!(encoded_extension(&settings), "avi");
}

#[test]
fn manual_encoded_recording_sets_both_frame_rates_and_selected_preset() {
    let settings = AppSettings {
        capture_fps: 240,
        recording_format: "MP4 - Standard".into(),
        ..AppSettings::default()
    };
    let cfg = manual_recording_start_cfg(&settings, "C:/manual/capture");
    assert!(cfg.contains("host_framerate 240"));
    assert!(cfg.contains("mirv_streams record fps 240"));
    assert!(cfg.contains("mirv_streams record screen settings tf2FragMp4"));
    assert!(cfg.contains("mirv_streams record name \"C:/manual/capture\""));
}

#[test]
fn choices_that_do_not_fit_together_are_refused() {
    let mut settings = AppSettings::default();
    settings.mp4_compatibility = "Custom".into();
    settings.mp4_pixel_format = "yuv422p".into();
    settings.mp4_h264_profile = "High".into();
    assert!(effective_mp4_encoding(&settings).is_err());
    settings.normalize_encoding_options();
    assert!(effective_mp4_encoding(&settings).is_ok());

    let mut settings = AppSettings::default();
    settings.recording_format = "MOV - DNxHR".into();
    settings.dnxhr_profile = "ultra".into();
    let fault = effective_dnxhr_encoding(&settings).expect_err("unknown profile");
    assert!(fault.message().contains("ultra"));
}

#[test]
fn the_encoder_in_use_must_be_listed() {
    let settings = AppSettings::default();
    let required = required_encoder(&settings).expect("valid settings").expect("an encoder");
    assert_eq!(required, "libx264");
    assert_eq!(judge_encoder_list(&required, true, " V..... libx264  H.264"), EncoderCheck::Usable);
    assert_eq!(judge_encoder_list(&required, true, " V..... mpeg4"), EncoderCheck::Missing);
    assert_eq!(judge_encoder_list(&required, false, ""), EncoderCheck::CheckFailed);
}

#[test]
fn the_encoding_is_summed_up_in_one_line() {
    let settings = AppSettings::default();
    let summary = effective_encoding_summary(&settings, "1920x1080", 120)
        .expect("valid settings")
        .expect("a summary");
    assert!(summary.contains("1920x1080"));
    assert!(summary.contains("120"));
    assert_eq!(encoded_media_name(&settings), "video.mp4");
    let kept = mp4_encoding_manifest(&settings).expect("kept choices");
    assert_eq!(kept.crf, 18);
    assert_eq!(kept.audio_bitrate_kbps, 192);
}
