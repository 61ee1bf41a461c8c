use tf2_frag_demo_helper::encoding::{
    effective_avi_encoding, effective_dnxhr_encoding, effective_mp4_encoding, EncodingError,
};
use tf2_frag_demo_helper::finalize::{mux_arguments, outputs_to_remove};
use tf2_frag_demo_helper::monitor::batch_verdict;
use tf2_frag_demo_helper::settings::AppSettings;
use tf2_frag_demo_helper::status::{RecordAction, RecordEvent, RecordFlow, RecordStop};
use tf2_frag_demo_helper::view::CandidateUiFilters;

fn custom() -> AppSettings {
    let mut settings = AppSettings::default();
    settings.mp4_compatibility = "Custom".into();
    settings
}

fn mp4_fault(settings: &AppSettings) -> EncodingError {
    effective_mp4_encoding(settings).expect_err("a fault")
}

#[test]
fn every_mp4_choice_is_held_to_what_is_offered() {
    assert!(effective_mp4_encoding(&custom()).is_ok());

    let mut settings = custom();
    settings.mp4_audio_bitrate_kbps = 100;
    assert_eq!(mp4_fault(&settings), EncodingError::AacBitrate(100));
    assert_eq!(mp4_fault(&settings).message(), "unsupported AAC bitrate: 100 kbps");

    let mut settings = custom();
    settings.mp4_video_codec = "VP9".into();
    assert_eq!(mp4_fault(&settings), EncodingError::VideoCodec("VP9".into()));

    let mut settings = custom();
    settings.mp4_audio_codec = "Opus".into();
    assert_eq!(mp4_fault(&settings), EncodingError::AudioCodec("Opus".into()));

    let mut settings = custom();
    settings.mp4_pixel_format = "rgb24".into();
    assert_eq!(mp4_fault(&settings), EncodingError::PixelFormat("rgb24".into()));

    let mut settings = custom();
    settings.mp4_pixel_format = "yuv422p".into();
    settings.mp4_h264_profile = "High".into();
    assert_eq!(mp4_fault(&settings).message(), "yuv422p requires the High 4:2:2 H.264 profile");

    let mut settings = custom();
    settings.mp4_crf = 36;
    assert_eq!(mp4_fault(&settings), EncodingError::Crf);

    let mut settings = custom();
    settings.mp4_encoder_preset = "placebo".into();
    assert_eq!(mp4_fault(&settings), EncodingError::EncoderPreset("placebo".into()));

    let mut settings = custom();
    settings.mp4_compatibility = "Anything".into();
    assert_eq!(mp4_fault(&settings), EncodingError::Compatibility("Anything".into()));
}

#[test]
fn every_avi_and_dnxhr_choice_is_held_to_what_is_offered() {
    let avi = |codec: &str, pixel_format: &str| {
        let mut settings = AppSettings::default();
        settings.recording_format = "AVI - Raw".into();
        settings.avi_video_codec = codec.into();
        settings.avi_pixel_format = pixel_format.into();
        effective_avi_encoding(&settings).expect_err("a fault")
    };
    assert_eq!(
        avi("Original HLAE Raw", "bgr0").message(),
        "Original HLAE Raw requires the HLAE Native pixel format"
    );
    assert_eq!(avi("FFV1 Lossless", "rgb24"), EncodingError::Ffv1PixelFormat("rgb24".into()));
    assert_eq!(avi("HuffYUV Lossless", "bgr0"), EncodingError::HuffYuvPixelFormat("bgr0".into()));
    assert_eq!(avi("Cinepak", "bgr0"), EncodingError::AviCodec("Cinepak".into()));

    let mut settings = AppSettings::default();
    settings.recording_format = "MOV - DNxHR".into();
    settings.dnxhr_profile = "XXL".into();
    assert_eq!(
        effective_dnxhr_encoding(&settings).expect_err("a fault"),
        EncodingError::DnxhrProfile("XXL".into())
    );
}

#[test]
fn nothing_is_recorded_while_another_recording_goes_on() {
    let mut flow = RecordFlow::new(true, 0, 1);
    let busy = RecordEvent::Begin { active: true, tf2: true, hlae: true, ffmpeg: true };
    assert_eq!(flow.advance(busy), RecordAction::Stop(RecordStop::Busy));
    let free = RecordEvent::Begin { active: false, tf2: true, hlae: true, ffmpeg: true };
    assert_eq!(flow.advance(free), RecordAction::Wait);
    let mut flow = RecordFlow::new(true, 0, 1);
    assert_eq!(flow.advance(free), RecordAction::CheckCamera);
}

#[test]
fn video_and_sound_are_joined() {
    let mut settings = AppSettings::default();
    assert_eq!(
        mux_arguments(&settings, "v.mp4", "a.wav", "out.mp4").join(" "),
        "-y -v error -i v.mp4 -i a.wav -map 0:v:0 -map 1:a:0 -c:v copy -c:a aac -b:a 192k \
         -movflags +faststart -shortest out.mp4"
    );
    settings.recording_format = "MOV - DNxHR".into();
    assert_eq!(
        mux_arguments(&settings, "v.mov", "a.wav", "out.mov").join(" "),
        "-y -v error -i v.mov -i a.wav -map 0:v:0 -map 1:a:0 -c:v copy -c:a pcm_s16le -shortest \
         out.mov"
    );
}

#[test]
fn only_other_outputs_are_replaced() {
    let previous = vec!["old.mp4".to_string(), "new.mp4".to_string()];
    assert_eq!(outputs_to_remove(&previous, true, "new.mp4"), vec!["old.mp4".to_string()]);
    assert!(outputs_to_remove(&previous, false, "new.mp4").is_empty());
}

#[test]
fn a_session_is_judged_by_its_clips() {
    assert_eq!(batch_verdict(false, 2, 0), ("Completed", None));
    assert_eq!(batch_verdict(false, 0, 2), ("Failed", None));
    assert_eq!(batch_verdict(false, 1, 1), ("CompletedWithErrors", None));
    assert_eq!(batch_verdict(true, 2, 0).0, "Interrupted");
}

#[test]
fn a_choice_that_is_made_twice_is_taken_back() {
    let mut filters = CandidateUiFilters::default();
    filters.toggle_server_type("6v6");
    assert_eq!(filters.server_types, vec!["6v6".to_string()]);
    filters.toggle_server_type("6v6");
    assert!(filters.server_types.is_empty());
    filters.toggle_class("medic");
    assert!(filters.has_class("medic") && !filters.has_class("spy"));
    filters.toggle_class("medic");
    assert!(!filters.has_class("medic"));
}
