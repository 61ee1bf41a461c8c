//! What the user has chosen, and how saved choices are brought into the range
//! that the rest of the program offers.
use vstd::prelude::*;
use crate::shortcuts::{default_keys, distinct_keys, normal_keys, normal_version, MirvShortcuts};
use crate::text::{
    clone_list, list_contains, lower, same_fold, same_ignoring_case, same_text, split_words, to_lower,
    views, words,
};

verus! {

/// The settings of the program. Paths are kept as text; an empty path is one
/// that was not chosen.
#[derive(Debug)]
pub struct AppSettings {
    pub output_directory: String,
    pub item_schema: String,
    pub tf2_executable: String,
    pub hlae_executable: String,
    pub ffmpeg_executable: String,
    pub recording_output_directory: String,
    /// Additional command-line switches for manual sessions. Session ownership,
    /// offline safety and demo loading are not up to them.
    pub manual_hlae_launch_options: String,
    pub performance_profile: String,
    pub lead_seconds: u32,
    pub outro_seconds: u32,
    pub capture_fps: u32,
    pub jpg_quality: u8,
    pub recording_format: String,
    pub mp4_compatibility: String,
    pub mp4_video_codec: String,
    pub mp4_pixel_format: String,
    pub mp4_h264_profile: String,
    pub mp4_crf: u8,
    pub mp4_encoder_preset: String,
    pub mp4_audio_codec: String,
    pub mp4_audio_bitrate_kbps: u32,
    pub avi_video_codec: String,
    pub avi_pixel_format: String,
    pub dnxhr_profile: String,
    pub resolution: String,
    pub dx_level: String,
    pub skybox: String,
    pub hud: String,
    pub viewmodels: String,
    pub viewmodel_fov: u32,
    pub maximum_graphics: bool,
    pub motion_blur: bool,
    pub disable_hit_sounds: bool,
    pub disable_voice_chat: bool,
    pub minimal_hud: bool,
    pub disable_combat_text: bool,
    pub disable_crosshair: bool,
    pub disable_crosshair_switching: bool,
    pub hud_player_model: bool,
    pub isolate_custom_resources: bool,
    pub disable_announcer_voices: bool,
    pub disable_applause_sounds: bool,
    pub disable_domination_sounds: bool,
    pub mirv_shortcuts: MirvShortcuts,
    pub custom_resources: Vec<String>,
}

/// The settings of a first run.
impl Default for AppSettings {
    fn default() -> (out: Self)
        ensures
            out.output_directory@ == Seq::<char>::empty(),
            out.item_schema@ == Seq::<char>::empty(),
            out.tf2_executable@ == Seq::<char>::empty(),
            out.hlae_executable@ == Seq::<char>::empty(),
            out.ffmpeg_executable@ == Seq::<char>::empty(),
            out.recording_output_directory@ == Seq::<char>::empty(),
            out.manual_hlae_launch_options@ == Seq::<char>::empty(),
            out.performance_profile@ == "High"@,
            out.lead_seconds == 8,
            out.outro_seconds == 3,
            out.capture_fps == 120,
            out.jpg_quality == 90,
            out.recording_format@ == "MP4 - Standard"@,
            out.mp4_compatibility@ == "DaVinci Resolve / Universal"@,
            out.mp4_video_codec@ == "H.264 / libx264"@,
            out.mp4_pixel_format@ == "yuv420p"@,
            out.mp4_h264_profile@ == "High"@,
            out.mp4_crf == 18,
            out.mp4_encoder_preset@ == "medium"@,
            out.mp4_audio_codec@ == "AAC"@,
            out.mp4_audio_bitrate_kbps == 192,
            out.avi_video_codec@ == "Original HLAE Raw"@,
            out.avi_pixel_format@ == "HLAE Native"@,
            out.dnxhr_profile@ == "HQ"@,
            out.resolution@ == "2560x1440"@,
            out.dx_level@ == "98"@,
            out.skybox@ == "Default"@,
            out.hud@ == "Kill notices only"@,
            out.viewmodels@ == "On"@,
            out.viewmodel_fov == 70,
            out.maximum_graphics == true,
            out.motion_blur == true,
            out.disable_hit_sounds == true,
            out.disable_voice_chat == true,
            out.minimal_hud == true,
            out.disable_combat_text == true,
            out.disable_crosshair == true,
            out.disable_crosshair_switching == true,
            out.hud_player_model == false,
            out.isolate_custom_resources == true,
            out.disable_announcer_voices == true,
            out.disable_applause_sounds == true,
            out.disable_domination_sounds == true,
            out.mirv_shortcuts.keys() == default_keys(),
            out.mirv_shortcuts.overlay_panel_toggle_default_version == 3,
            out.custom_resources@ == Seq::<String>::empty(),
    {
        AppSettings {
            output_directory: String::new(),
            item_schema: String::new(),
            tf2_executable: String::new(),
            hlae_executable: String::new(),
            ffmpeg_executable: String::new(),
            recording_output_directory: String::new(),
            manual_hlae_launch_options: String::new(),
            performance_profile: "High".to_owned(),
            lead_seconds: 8,
            outro_seconds: 3,
            capture_fps: 120,
            jpg_quality: 90,
            recording_format: "MP4 - Standard".to_owned(),
            mp4_compatibility: "DaVinci Resolve / Universal".to_owned(),
            mp4_video_codec: "H.264 / libx264".to_owned(),
            mp4_pixel_format: "yuv420p".to_owned(),
            mp4_h264_profile: "High".to_owned(),
            mp4_crf: 18,
            mp4_encoder_preset: "medium".to_owned(),
            mp4_audio_codec: "AAC".to_owned(),
            mp4_audio_bitrate_kbps: 192,
            avi_video_codec: "Original HLAE Raw".to_owned(),
            avi_pixel_format: "HLAE Native".to_owned(),
            dnxhr_profile: "HQ".to_owned(),
            resolution: "2560x1440".to_owned(),
            dx_level: "98".to_owned(),
            skybox: "Default".to_owned(),
            hud: "Kill notices only".to_owned(),
            viewmodels: "On".to_owned(),
            viewmodel_fov: 70,
            maximum_graphics: true,
            motion_blur: true,
            disable_hit_sounds: true,
            disable_voice_chat: true,
            minimal_hud: true,
            disable_combat_text: true,
            disable_crosshair: true,
            disable_crosshair_switching: true,
            hud_player_model: false,
            isolate_custom_resources: true,
            disable_announcer_voices: true,
            disable_applause_sounds: true,
            disable_domination_sounds: true,
            mirv_shortcuts: MirvShortcuts::default(),
            custom_resources: Vec::new(),
        }
    }
}

impl Clone for AppSettings {
    fn clone(&self) -> (out: Self)
        ensures
            out.output_directory == self.output_directory,
            out.item_schema == self.item_schema,
            out.tf2_executable == self.tf2_executable,
            out.hlae_executable == self.hlae_executable,
            out.ffmpeg_executable == self.ffmpeg_executable,
            out.recording_output_directory == self.recording_output_directory,
            out.manual_hlae_launch_options == self.manual_hlae_launch_options,
            out.performance_profile == self.performance_profile,
            out.lead_seconds == self.lead_seconds,
            out.outro_seconds == self.outro_seconds,
            out.capture_fps == self.capture_fps,
            out.jpg_quality == self.jpg_quality,
            out.recording_format == self.recording_format,
            out.mp4_compatibility == self.mp4_compatibility,
            out.mp4_video_codec == self.mp4_video_codec,
            out.mp4_pixel_format == self.mp4_pixel_format,
            out.mp4_h264_profile == self.mp4_h264_profile,
            out.mp4_crf == self.mp4_crf,
            out.mp4_encoder_preset == self.mp4_encoder_preset,
            out.mp4_audio_codec == self.mp4_audio_codec,
            out.mp4_audio_bitrate_kbps == self.mp4_audio_bitrate_kbps,
            out.avi_video_codec == self.avi_video_codec,
            out.avi_pixel_format == self.avi_pixel_format,
            out.dnxhr_profile == self.dnxhr_profile,
            out.resolution == self.resolution,
            out.dx_level == self.dx_level,
            out.skybox == self.skybox,
            out.hud == self.hud,
            out.viewmodels == self.viewmodels,
            out.viewmodel_fov == self.viewmodel_fov,
            out.maximum_graphics == self.maximum_graphics,
            out.motion_blur == self.motion_blur,
            out.disable_hit_sounds == self.disable_hit_sounds,
            out.disable_voice_chat == self.disable_voice_chat,
            out.minimal_hud == self.minimal_hud,
            out.disable_combat_text == self.disable_combat_text,
            out.disable_crosshair == self.disable_crosshair,
            out.disable_crosshair_switching == self.disable_crosshair_switching,
            out.hud_player_model == self.hud_player_model,
            out.isolate_custom_resources == self.isolate_custom_resources,
            out.disable_announcer_voices == self.disable_announcer_voices,
            out.disable_applause_sounds == self.disable_applause_sounds,
            out.disable_domination_sounds == self.disable_domination_sounds,
            out.mirv_shortcuts.keys() == self.mirv_shortcuts.keys(),
            out.mirv_shortcuts.overlay_panel_toggle_default_version
                == self.mirv_shortcuts.overlay_panel_toggle_default_version,
            out.custom_resources@ == self.custom_resources@,
    {
        AppSettings {
            output_directory: self.output_directory.clone(),
            item_schema: self.item_schema.clone(),
            tf2_executable: self.tf2_executable.clone(),
            hlae_executable: self.hlae_executable.clone(),
            ffmpeg_executable: self.ffmpeg_executable.clone(),
            recording_output_directory: self.recording_output_directory.clone(),
            manual_hlae_launch_options: self.manual_hlae_launch_options.clone(),
            performance_profile: self.performance_profile.clone(),
            lead_seconds: self.lead_seconds,
            outro_seconds: self.outro_seconds,
            capture_fps: self.capture_fps,
            jpg_quality: self.jpg_quality,
            recording_format: self.recording_format.clone(),
            mp4_compatibility: self.mp4_compatibility.clone(),
            mp4_video_codec: self.mp4_video_codec.clone(),
            mp4_pixel_format: self.mp4_pixel_format.clone(),
            mp4_h264_profile: self.mp4_h264_profile.clone(),
            mp4_crf: self.mp4_crf,
            mp4_encoder_preset: self.mp4_encoder_preset.clone(),
            mp4_audio_codec: self.mp4_audio_codec.clone(),
            mp4_audio_bitrate_kbps: self.mp4_audio_bitrate_kbps,
            avi_video_codec: self.avi_video_codec.clone(),
            avi_pixel_format: self.avi_pixel_format.clone(),
            dnxhr_profile: self.dnxhr_profile.clone(),
            resolution: self.resolution.clone(),
            dx_level: self.dx_level.clone(),
            skybox: self.skybox.clone(),
            hud: self.hud.clone(),
            viewmodels: self.viewmodels.clone(),
            viewmodel_fov: self.viewmodel_fov,
            maximum_graphics: self.maximum_graphics,
            motion_blur: self.motion_blur,
            disable_hit_sounds: self.disable_hit_sounds,
            disable_voice_chat: self.disable_voice_chat,
            minimal_hud: self.minimal_hud,
            disable_combat_text: self.disable_combat_text,
            disable_crosshair: self.disable_crosshair,
            disable_crosshair_switching: self.disable_crosshair_switching,
            hud_player_model: self.hud_player_model,
            isolate_custom_resources: self.isolate_custom_resources,
            disable_announcer_voices: self.disable_announcer_voices,
            disable_applause_sounds: self.disable_applause_sounds,
            disable_domination_sounds: self.disable_domination_sounds,
            mirv_shortcuts: self.mirv_shortcuts.clone(),
            custom_resources: clone_list(&self.custom_resources),
        }
    }
}

/// A choice from a list that is written exactly; anything else gives the
/// fallback.
pub open spec fn exact_choice(
    value: Seq<char>,
    options: Seq<Seq<char>>,
    fallback: Seq<char>,
) -> Seq<char> {
    if options.contains(value) {
        value
    } else {
        fallback
    }
}

/// The first option that is the same up to case; the fallback where there is
/// none.
pub open spec fn folded_choice(
    value: Seq<char>,
    options: Seq<Seq<char>>,
    fallback: Seq<char>,
) -> Seq<char>
    decreases options.len(),
{
    if options.len() == 0 {
        fallback
    } else if same_fold(options[0], value) {
        options[0]
    } else {
        folded_choice(value, options.skip(1), fallback)
    }
}

#[verifier::opaque]
pub open spec fn compatibility_options() -> Seq<Seq<char>> {
    seq!["DaVinci Resolve / Universal"@, "Maximum Color Quality"@, "Custom"@]
}

#[verifier::opaque]
pub open spec fn pixel_format_options() -> Seq<Seq<char>> {
    seq!["yuv420p"@, "yuv422p"@, "yuv444p"@]
}

#[verifier::opaque]
pub open spec fn encoder_preset_options() -> Seq<Seq<char>> {
    seq!["veryfast"@, "faster"@, "fast"@, "medium"@, "slow"@, "slower"@]
}

#[verifier::opaque]
pub open spec fn avi_codec_options() -> Seq<Seq<char>> {
    seq!["Original HLAE Raw"@, "FFV1 Lossless"@, "HuffYUV Lossless"@]
}

#[verifier::opaque]
pub open spec fn dnxhr_profile_options() -> Seq<Seq<char>> {
    seq!["LB"@, "SQ"@, "HQ"@, "HQX"@, "444"@]
}

#[verifier::opaque]
pub open spec fn dx_level_options() -> Seq<Seq<char>> {
    seq!["98"@, "95"@, "90"@, "81"@, "80"@]
}

#[verifier::opaque]
pub open spec fn skybox_options() -> Seq<Seq<char>> {
    seq![
        "Default"@,
        "realsky1"@,
        "realsky3"@,
        "sky27"@,
        "sky41"@,
        "sky56"@,
        "sky_sky1_01"@,
        "sky_sky2_01"@,
        "sky_sky3_01"@,
        "sky_sky4_01"@,
        "sky_sky5_01"@,
        "sky_sky6_01"@,
    ]
}

#[verifier::opaque]
pub open spec fn hud_options() -> Seq<Seq<char>> {
    seq!["Kill notices only"@, "Keep current"@, "Default TF2 HUD"@, "Medic recording HUD"@]
}

/// The H.264 profile that goes with a pixel format.
pub open spec fn profile_for(pixel_format: Seq<char>) -> Seq<char> {
    if pixel_format == "yuv422p"@ {
        "High 4:2:2"@
    } else if pixel_format == "yuv444p"@ {
        "High 4:4:4 Predictive"@
    } else {
        "High"@
    }
}

/// The pixel format used with an AVI codec: the wish where the codec offers it.
#[verifier::opaque]
pub open spec fn avi_pixel_format_for(codec: Seq<char>, wish: Seq<char>) -> Seq<char> {
    if codec == "FFV1 Lossless"@ {
        exact_choice(wish, seq!["bgr0"@, "yuv422p"@, "yuv444p"@], "bgr0"@)
    } else if codec == "HuffYUV Lossless"@ {
        exact_choice(wish, seq!["rgb24"@, "yuv422p"@], "rgb24"@)
    } else {
        "HLAE Native"@
    }
}

/// The DirectX level chosen by the first word of a text.
pub open spec fn dx_level_choice(value: Seq<char>) -> Seq<char> {
    let first = if words(value).len() > 0 {
        lower(words(value)[0])
    } else {
        Seq::empty()
    };
    exact_choice(first, dx_level_options(), "Default"@)
}

/// Whether viewmodels are shown.
pub open spec fn viewmodels_choice(value: Seq<char>) -> Seq<char> {
    if same_fold(value, "Off"@) {
        "Off"@
    } else {
        "On"@
    }
}

fn exact_option(value: &str, options: &Vec<String>, fallback: &str) -> (out: String)
    ensures
        out@ == exact_choice(value@, views(options@), fallback@),
{
    if list_contains(options, value) {
        value.to_owned()
    } else {
        fallback.to_owned()
    }
}

fn folded_option(value: &str, options: &Vec<String>, fallback: &str) -> (out: String)
    ensures
        out@ == folded_choice(value@, views(options@), fallback@),
{
    let mut i: usize = 0;
    assert(views(options@).skip(0) =~= views(options@));
    while i < options.len()
        invariant
            i <= options.len(),
            folded_choice(value@, views(options@), fallback@) == folded_choice(
                value@,
                views(options@).skip(i as int),
                fallback@,
            ),
        decreases options.len() - i,
    {
        assert(views(options@).skip(i as int)[0] == options@[i as int]@);
        if same_ignoring_case(options[i].as_str(), value) {
            return options[i].clone();
        }
        assert(views(options@).skip(i as int).skip(1) =~= views(options@).skip(i + 1));
        i += 1;
    }
    fallback.to_owned()
}

/// Copies the listed texts.
fn three_options(a: &str, b: &str, c: &str) -> (out: Vec<String>)
    ensures
        views(out@) == seq![a@, b@, c@],
{
    let mut out: Vec<String> = Vec::new();
    out.push(a.to_owned());
    out.push(b.to_owned());
    out.push(c.to_owned());
    assert(views(out@) =~= seq![a@, b@, c@]);
    out
}

impl AppSettings {
    /// Whether the encoding choices are among those offered and fit together.
    pub open spec fn encoding_is_normal(&self) -> bool {
        &&& compatibility_options().contains(self.mp4_compatibility@)
        &&& self.mp4_video_codec@ == "H.264 / libx264"@
        &&& pixel_format_options().contains(self.mp4_pixel_format@)
        &&& self.mp4_h264_profile@ == profile_for(self.mp4_pixel_format@)
        &&& self.mp4_crf <= 35
        &&& encoder_preset_options().contains(self.mp4_encoder_preset@)
        &&& self.mp4_audio_codec@ == "AAC"@
        &&& (self.mp4_audio_bitrate_kbps == 192 || self.mp4_audio_bitrate_kbps == 256
            || self.mp4_audio_bitrate_kbps == 320)
        &&& avi_codec_options().contains(self.avi_video_codec@)
        &&& self.avi_pixel_format@ == avi_pixel_format_for(
            self.avi_video_codec@,
            self.avi_pixel_format@,
        )
        &&& dnxhr_profile_options().contains(self.dnxhr_profile@)
    }

    /// Everything but the encoding choices is the same.
    pub open spec fn same_but_encoding(&self, other: AppSettings) -> bool {
        &&& self.output_directory == other.output_directory
        &&& self.item_schema == other.item_schema
        &&& self.tf2_executable == other.tf2_executable
        &&& self.hlae_executable == other.hlae_executable
        &&& self.ffmpeg_executable == other.ffmpeg_executable
        &&& self.recording_output_directory == other.recording_output_directory
        &&& self.manual_hlae_launch_options == other.manual_hlae_launch_options
        &&& self.performance_profile == other.performance_profile
        &&& self.lead_seconds == other.lead_seconds
        &&& self.outro_seconds == other.outro_seconds
        &&& self.capture_fps == other.capture_fps
        &&& self.jpg_quality == other.jpg_quality
        &&& self.recording_format == other.recording_format
        &&& self.resolution == other.resolution
        &&& self.dx_level == other.dx_level
        &&& self.skybox == other.skybox
        &&& self.hud == other.hud
        &&& self.viewmodels == other.viewmodels
        &&& self.viewmodel_fov == other.viewmodel_fov
        &&& self.maximum_graphics == other.maximum_graphics
        &&& self.motion_blur == other.motion_blur
        &&& self.disable_hit_sounds == other.disable_hit_sounds
        &&& self.disable_voice_chat == other.disable_voice_chat
        &&& self.minimal_hud == other.minimal_hud
        &&& self.disable_combat_text == other.disable_combat_text
        &&& self.disable_crosshair == other.disable_crosshair
        &&& self.disable_crosshair_switching == other.disable_crosshair_switching
        &&& self.hud_player_model == other.hud_player_model
        &&& self.isolate_custom_resources == other.isolate_custom_resources
        &&& self.disable_announcer_voices == other.disable_announcer_voices
        &&& self.disable_applause_sounds == other.disable_applause_sounds
        &&& self.disable_domination_sounds == other.disable_domination_sounds
        &&& self.mirv_shortcuts == other.mirv_shortcuts
        &&& self.custom_resources == other.custom_resources
    }

    /// Everything but the recording choices is the same.
    pub open spec fn same_but_recording(&self, other: AppSettings) -> bool {
        &&& self.output_directory == other.output_directory
        &&& self.item_schema == other.item_schema
        &&& self.tf2_executable == other.tf2_executable
        &&& self.hlae_executable == other.hlae_executable
        &&& self.ffmpeg_executable == other.ffmpeg_executable
        &&& self.recording_output_directory == other.recording_output_directory
        &&& self.manual_hlae_launch_options == other.manual_hlae_launch_options
        &&& self.performance_profile == other.performance_profile
        &&& self.lead_seconds == other.lead_seconds
        &&& self.outro_seconds == other.outro_seconds
        &&& self.capture_fps == other.capture_fps
        &&& self.jpg_quality == other.jpg_quality
        &&& self.recording_format == other.recording_format
        &&& self.mp4_compatibility == other.mp4_compatibility
        &&& self.mp4_video_codec == other.mp4_video_codec
        &&& self.mp4_pixel_format == other.mp4_pixel_format
        &&& self.mp4_h264_profile == other.mp4_h264_profile
        &&& self.mp4_crf == other.mp4_crf
        &&& self.mp4_encoder_preset == other.mp4_encoder_preset
        &&& self.mp4_audio_codec == other.mp4_audio_codec
        &&& self.mp4_audio_bitrate_kbps == other.mp4_audio_bitrate_kbps
        &&& self.avi_video_codec == other.avi_video_codec
        &&& self.avi_pixel_format == other.avi_pixel_format
        &&& self.dnxhr_profile == other.dnxhr_profile
        &&& self.resolution == other.resolution
        &&& self.viewmodel_fov == other.viewmodel_fov
        &&& self.maximum_graphics == other.maximum_graphics
        &&& self.motion_blur == other.motion_blur
        &&& self.disable_hit_sounds == other.disable_hit_sounds
        &&& self.disable_voice_chat == other.disable_voice_chat
        &&& self.minimal_hud == other.minimal_hud
        &&& self.disable_combat_text == other.disable_combat_text
        &&& self.disable_crosshair == other.disable_crosshair
        &&& self.disable_crosshair_switching == other.disable_crosshair_switching
        &&& self.hud_player_model == other.hud_player_model
        &&& self.isolate_custom_resources == other.isolate_custom_resources
        &&& self.disable_announcer_voices == other.disable_announcer_voices
        &&& self.disable_applause_sounds == other.disable_applause_sounds
        &&& self.disable_domination_sounds == other.disable_domination_sounds
        &&& self.custom_resources == other.custom_resources
    }

    /// The encoding choices follow from those before, and nothing else differs.
    pub open spec fn encoding_normalized_from(&self, before: AppSettings) -> bool {
        &&& self.mp4_compatibility@ == exact_choice(
                before.mp4_compatibility@,
                compatibility_options(),
                "DaVinci Resolve / Universal"@,
            )
        &&& self.mp4_video_codec@ == "H.264 / libx264"@
        &&& self.mp4_pixel_format@ == exact_choice(
                before.mp4_pixel_format@,
                pixel_format_options(),
                "yuv420p"@,
            )
        &&& self.mp4_h264_profile@ == profile_for(self.mp4_pixel_format@)
        &&& self.mp4_crf == (if before.mp4_crf <= 35 {
                before.mp4_crf
            } else {
                35
            })
        &&& self.mp4_encoder_preset@ == exact_choice(
                before.mp4_encoder_preset@,
                encoder_preset_options(),
                "medium"@,
            )
        &&& self.mp4_audio_codec@ == "AAC"@
        &&& self.mp4_audio_bitrate_kbps == (if before.mp4_audio_bitrate_kbps == 256
                || before.mp4_audio_bitrate_kbps == 320 {
                before.mp4_audio_bitrate_kbps
            } else {
                192
            })
        &&& self.avi_video_codec@ == exact_choice(
                before.avi_video_codec@,
                avi_codec_options(),
                "Original HLAE Raw"@,
            )
        &&& self.avi_pixel_format@ == avi_pixel_format_for(
                self.avi_video_codec@,
                before.avi_pixel_format@,
            )
        &&& self.dnxhr_profile@ == exact_choice(
                before.dnxhr_profile@,
                dnxhr_profile_options(),
                "HQ"@,
            )
        &&& self.same_but_encoding(before)
    }

    /// The recording choices follow from those before, and nothing else differs.
    pub open spec fn recording_normalized_from(&self, before: AppSettings) -> bool {
        &&& self.dx_level@ == dx_level_choice(before.dx_level@)
        &&& self.skybox@ == folded_choice(before.skybox@, skybox_options(), "Default"@)
        &&& self.hud@ == folded_choice(
                before.hud@,
                hud_options(),
                "Kill notices only"@,
            )
        &&& self.viewmodels@ == viewmodels_choice(before.viewmodels@)
        &&& self.mirv_shortcuts.keys() == normal_keys(
                before.mirv_shortcuts.keys(),
                before.mirv_shortcuts.overlay_panel_toggle_default_version as int,
            )
        &&& self.mirv_shortcuts.overlay_panel_toggle_default_version == normal_version(
                before.mirv_shortcuts.keys(),
                before.mirv_shortcuts.overlay_panel_toggle_default_version as int,
            )
        &&& self.same_but_recording(before)
    }

    /// Brings the encoding choices into the range that is offered.
    pub fn normalize_encoding_options(&mut self)
        ensures
            final(self).encoding_normalized_from(*old(self)),
    {
        let compatibility = choose_compatibility(self.mp4_compatibility.as_str());
        let pixel_format = choose_pixel_format(self.mp4_pixel_format.as_str());
        let profile = h264_profile_for(pixel_format.as_str());
        let crf: u8 = if self.mp4_crf > 35 {
            35
        } else {
            self.mp4_crf
        };
        let preset = choose_encoder_preset(self.mp4_encoder_preset.as_str());
        let bitrate: u32 = if self.mp4_audio_bitrate_kbps != 256 && self.mp4_audio_bitrate_kbps
            != 320 {
            192
        } else {
            self.mp4_audio_bitrate_kbps
        };
        let avi_codec = choose_avi_codec(self.avi_video_codec.as_str());
        let avi_format = choose_avi_pixel_format(
            avi_codec.as_str(),
            self.avi_pixel_format.as_str(),
        );
        let dnxhr = choose_dnxhr_profile(self.dnxhr_profile.as_str());
        self.mp4_compatibility = compatibility;
        self.mp4_video_codec = "H.264 / libx264".to_owned();
        self.mp4_pixel_format = pixel_format;
        self.mp4_h264_profile = profile;
        self.mp4_crf = crf;
        self.mp4_encoder_preset = preset;
        self.mp4_audio_codec = "AAC".to_owned();
        self.mp4_audio_bitrate_kbps = bitrate;
        self.avi_video_codec = avi_codec;
        self.avi_pixel_format = avi_format;
        self.dnxhr_profile = dnxhr;
    }

    /// Brings the recording choices into the range that is offered.
    pub fn normalize_recording_options(&mut self)
        ensures
            final(self).recording_normalized_from(*old(self)),
    {
        self.dx_level = choose_dx_level(self.dx_level.as_str());
        self.skybox = choose_skybox(self.skybox.as_str());
        self.hud = choose_hud(self.hud.as_str());
        self.viewmodels = if same_ignoring_case(self.viewmodels.as_str(), "Off") {
            "Off".to_owned()
        } else {
            "On".to_owned()
        };
        self.mirv_shortcuts.normalize();
    }
}

/// Every fallback is one of the options it stands in for.
proof fn lemma_choices()
    ensures
        forall|v: Seq<char>|
            compatibility_options().contains(
                #[trigger] exact_choice(v, compatibility_options(), "DaVinci Resolve / Universal"@),
            ),
        forall|v: Seq<char>|
            pixel_format_options().contains(
                #[trigger] exact_choice(v, pixel_format_options(), "yuv420p"@),
            ),
        forall|v: Seq<char>|
            encoder_preset_options().contains(
                #[trigger] exact_choice(v, encoder_preset_options(), "medium"@),
            ),
        forall|v: Seq<char>|
            avi_codec_options().contains(
                #[trigger] exact_choice(v, avi_codec_options(), "Original HLAE Raw"@),
            ),
        forall|v: Seq<char>|
            dnxhr_profile_options().contains(
                #[trigger] exact_choice(v, dnxhr_profile_options(), "HQ"@),
            ),
        forall|codec: Seq<char>, wish: Seq<char>|
            avi_pixel_format_for(codec, #[trigger] avi_pixel_format_for(codec, wish))
                == avi_pixel_format_for(codec, wish),
{
    reveal(compatibility_options);
    reveal(pixel_format_options);
    reveal(encoder_preset_options);
    reveal(avi_codec_options);
    reveal(dnxhr_profile_options);
    reveal(avi_pixel_format_for);
    assert(compatibility_options()[0] == "DaVinci Resolve / Universal"@);
    assert(pixel_format_options()[0] == "yuv420p"@);
    assert(encoder_preset_options()[3] == "medium"@);
    assert(avi_codec_options()[0] == "Original HLAE Raw"@);
    assert(dnxhr_profile_options()[2] == "HQ"@);
    let ffv1 = seq!["bgr0"@, "yuv422p"@, "yuv444p"@];
    let huff = seq!["rgb24"@, "yuv422p"@];
    assert(ffv1[0] == "bgr0"@);
    assert(huff[0] == "rgb24"@);
}

fn choose_compatibility(value: &str) -> (out: String)
    ensures
        out@ == exact_choice(value@, compatibility_options(), "DaVinci Resolve / Universal"@),
{
    proof {
        reveal(compatibility_options);
    }
    let options = three_options("DaVinci Resolve / Universal", "Maximum Color Quality", "Custom");
    exact_option(value, &options, "DaVinci Resolve / Universal")
}

fn choose_pixel_format(value: &str) -> (out: String)
    ensures
        out@ == exact_choice(value@, pixel_format_options(), "yuv420p"@),
{
    proof {
        reveal(pixel_format_options);
    }
    let options = three_options("yuv420p", "yuv422p", "yuv444p");
    exact_option(value, &options, "yuv420p")
}

/// The H.264 profile that goes with a pixel format.
pub fn h264_profile_for(pixel_format: &str) -> (out: String)
    ensures
        out@ == profile_for(pixel_format@),
{
    if same_text(pixel_format, "yuv422p") {
        "High 4:2:2".to_owned()
    } else if same_text(pixel_format, "yuv444p") {
        "High 4:4:4 Predictive".to_owned()
    } else {
        "High".to_owned()
    }
}

fn choose_encoder_preset(value: &str) -> (out: String)
    ensures
        out@ == exact_choice(value@, encoder_preset_options(), "medium"@),
{
    proof {
        reveal(encoder_preset_options);
    }
    let mut options: Vec<String> = Vec::new();
    options.push("veryfast".to_owned());
    options.push("faster".to_owned());
    options.push("fast".to_owned());
    options.push("medium".to_owned());
    options.push("slow".to_owned());
    options.push("slower".to_owned());
    assert(views(options@) =~= encoder_preset_options());
    exact_option(value, &options, "medium")
}

fn choose_avi_codec(value: &str) -> (out: String)
    ensures
        out@ == exact_choice(value@, avi_codec_options(), "Original HLAE Raw"@),
{
    proof {
        reveal(avi_codec_options);
    }
    let options = three_options("Original HLAE Raw", "FFV1 Lossless", "HuffYUV Lossless");
    exact_option(value, &options, "Original HLAE Raw")
}

fn choose_avi_pixel_format(codec: &str, wish: &str) -> (out: String)
    ensures
        out@ == avi_pixel_format_for(codec@, wish@),
{
    proof {
        reveal(avi_pixel_format_for);
    }
    if same_text(codec, "FFV1 Lossless") {
        let options = three_options("bgr0", "yuv422p", "yuv444p");
        exact_option(wish, &options, "bgr0")
    } else if same_text(codec, "HuffYUV Lossless") {
        let mut options: Vec<String> = Vec::new();
        options.push("rgb24".to_owned());
        options.push("yuv422p".to_owned());
        assert(views(options@) =~= seq!["rgb24"@, "yuv422p"@]);
        exact_option(wish, &options, "rgb24")
    } else {
        "HLAE Native".to_owned()
    }
}

fn choose_dnxhr_profile(value: &str) -> (out: String)
    ensures
        out@ == exact_choice(value@, dnxhr_profile_options(), "HQ"@),
{
    proof {
        reveal(dnxhr_profile_options);
    }
    let mut options: Vec<String> = Vec::new();
    options.push("LB".to_owned());
    options.push("SQ".to_owned());
    options.push("HQ".to_owned());
    options.push("HQX".to_owned());
    options.push("444".to_owned());
    assert(views(options@) =~= dnxhr_profile_options());
    exact_option(value, &options, "HQ")
}

fn choose_dx_level(value: &str) -> (out: String)
    ensures
        out@ == dx_level_choice(value@),
{
    proof {
        reveal(dx_level_options);
    }
    let parts = split_words(value);
    let first = if parts.len() > 0 {
        assert(views(parts@)[0] == parts@[0]@);
        to_lower(parts[0].as_str())
    } else {
        String::new()
    };
    let mut options: Vec<String> = Vec::new();
    options.push("98".to_owned());
    options.push("95".to_owned());
    options.push("90".to_owned());
    options.push("81".to_owned());
    options.push("80".to_owned());
    assert(views(options@) =~= dx_level_options());
    exact_option(first.as_str(), &options, "Default")
}

fn choose_skybox(value: &str) -> (out: String)
    ensures
        out@ == folded_choice(value@, skybox_options(), "Default"@),
{
    proof {
        reveal(skybox_options);
    }
    let mut options: Vec<String> = Vec::new();
    options.push("Default".to_owned());
    options.push("realsky1".to_owned());
    options.push("realsky3".to_owned());
    options.push("sky27".to_owned());
    options.push("sky41".to_owned());
    options.push("sky56".to_owned());
    options.push("sky_sky1_01".to_owned());
    options.push("sky_sky2_01".to_owned());
    options.push("sky_sky3_01".to_owned());
    options.push("sky_sky4_01".to_owned());
    options.push("sky_sky5_01".to_owned());
    options.push("sky_sky6_01".to_owned());
    assert(views(options@) =~= skybox_options());
    folded_option(value, &options, "Default")
}

fn choose_hud(value: &str) -> (out: String)
    ensures
        out@ == folded_choice(value@, hud_options(), "Kill notices only"@),
{
    proof {
        reveal(hud_options);
    }
    let mut options: Vec<String> = Vec::new();
    options.push("Kill notices only".to_owned());
    options.push("Keep current".to_owned());
    options.push("Default TF2 HUD".to_owned());
    options.push("Medic recording HUD".to_owned());
    assert(views(options@) =~= hud_options());
    folded_option(value, &options, "Kill notices only")
}

/// What the search for an option finds.
proof fn lemma_folded_choice_member(value: Seq<char>, options: Seq<Seq<char>>, fallback: Seq<char>)
    ensures
        (exists|i: int|
            0 <= i < options.len() && same_fold(#[trigger] options[i], value)
                && folded_choice(value, options, fallback) == options[i]) || (folded_choice(
            value,
            options,
            fallback,
        ) == fallback && forall|i: int|
            0 <= i < options.len() ==> !same_fold(#[trigger] options[i], value)),
    decreases options.len(),
{
    if options.len() > 0 && !same_fold(options[0], value) {
        let rest = options.skip(1);
        lemma_folded_choice_member(value, rest, fallback);
        if exists|i: int|
            0 <= i < rest.len() && same_fold(#[trigger] rest[i], value) && folded_choice(
                value,
                rest,
                fallback,
            ) == rest[i] {
            let i = choose|i: int|
                0 <= i < rest.len() && same_fold(#[trigger] rest[i], value) && folded_choice(
                    value,
                    rest,
                    fallback,
                ) == rest[i];
            assert(options[i + 1] == rest[i]);
        } else {
            assert forall|i: int| 0 <= i < options.len() implies !same_fold(
                #[trigger] options[i],
                value,
            ) by {
                if i > 0 {
                    assert(options[i] == rest[i - 1]);
                }
            }
        }
    }
}

/// After normalising, every encoding choice is one of those offered and the
/// choices fit together.
pub proof fn law_normalized_encoding_is_normal(before: AppSettings, after: AppSettings)
    requires
        after.encoding_normalized_from(before),
    ensures
        after.encoding_is_normal(),
{
    lemma_choices();
}

/// Normalising encoding choices that are normal already keeps each of them.
pub proof fn law_normalizing_encoding_keeps_normal_choices(before: AppSettings, after: AppSettings)
    requires
        before.encoding_is_normal(),
        after.encoding_normalized_from(before),
    ensures
        after.mp4_compatibility@ == before.mp4_compatibility@,
        after.mp4_video_codec@ == before.mp4_video_codec@,
        after.mp4_pixel_format@ == before.mp4_pixel_format@,
        after.mp4_h264_profile@ == before.mp4_h264_profile@,
        after.mp4_crf == before.mp4_crf,
        after.mp4_encoder_preset@ == before.mp4_encoder_preset@,
        after.mp4_audio_codec@ == before.mp4_audio_codec@,
        after.mp4_audio_bitrate_kbps == before.mp4_audio_bitrate_kbps,
        after.avi_video_codec@ == before.avi_video_codec@,
        after.avi_pixel_format@ == before.avi_pixel_format@,
        after.dnxhr_profile@ == before.dnxhr_profile@,
{
}

/// Whatever was saved, the recording choices end up among those offered.
pub proof fn law_normalized_recording_is_offered(before: AppSettings, after: AppSettings)
    requires
        after.recording_normalized_from(before),
    ensures
        after.dx_level@ == "Default"@ || dx_level_options().contains(after.dx_level@),
        skybox_options().contains(after.skybox@),
        hud_options().contains(after.hud@),
        after.viewmodels@ == "On"@ || after.viewmodels@ == "Off"@,
        distinct_keys(after.mirv_shortcuts.keys()),
{
    reveal(skybox_options);
    reveal(hud_options);
    assert(skybox_options()[0] == "Default"@);
    assert(hud_options()[0] == "Kill notices only"@);
    lemma_folded_choice_member(before.skybox@, skybox_options(), "Default"@);
    lemma_folded_choice_member(before.hud@, hud_options(), "Kill notices only"@);
    crate::shortcuts::law_normal_keys_are_usable(
        before.mirv_shortcuts.keys(),
        before.mirv_shortcuts.overlay_panel_toggle_default_version as int,
    );
}

/// Choices of an encoding are kept where they are offered; quality, rate and profile fit.
pub proof fn law_encoding_choices_fit(before: AppSettings, after: AppSettings)
    requires
        after.encoding_normalized_from(before),
    ensures
        before.mp4_crf <= 35 ==> after.mp4_crf == before.mp4_crf,
        before.mp4_crf > 35 ==> after.mp4_crf == 35,
        before.mp4_audio_bitrate_kbps == 256 ==> after.mp4_audio_bitrate_kbps == 256,
        before.mp4_audio_bitrate_kbps == 320 ==> after.mp4_audio_bitrate_kbps == 320,
        before.mp4_audio_bitrate_kbps != 256 && before.mp4_audio_bitrate_kbps != 320
            ==> after.mp4_audio_bitrate_kbps == 192,
        before.mp4_pixel_format@ == "yuv422p"@ ==> after.mp4_pixel_format@ == "yuv422p"@
            && after.mp4_h264_profile@ == "High 4:2:2"@,
        before.mp4_pixel_format@ == "yuv444p"@ ==> after.mp4_pixel_format@ == "yuv444p"@
            && after.mp4_h264_profile@ == "High 4:4:4 Predictive"@,
        before.mp4_pixel_format@ != "yuv422p"@ && before.mp4_pixel_format@ != "yuv444p"@
            ==> after.mp4_pixel_format@ == "yuv420p"@ && after.mp4_h264_profile@ == "High"@,
{
    reveal(pixel_format_options);
    reveal_strlit("yuv420p");
    reveal_strlit("yuv422p");
    reveal_strlit("yuv444p");
    let options = pixel_format_options();
    assert(options[0] == "yuv420p"@ && options[1] == "yuv422p"@ && options[2] == "yuv444p"@);
    assert("yuv420p"@[5] == '0' && "yuv422p"@[5] == '2' && "yuv444p"@[5] == '4');
    assert(options.contains("yuv422p"@) && options.contains("yuv444p"@));
}

/// View models are off where they are switched off, and on else.
pub proof fn law_view_models_are_on_or_off(before: AppSettings, after: AppSettings)
    requires
        after.recording_normalized_from(before),
    ensures
        after.viewmodels@ == "Off"@ || after.viewmodels@ == "On"@,
        same_fold(before.viewmodels@, "Off"@) <==> after.viewmodels@ == "Off"@,
{
    reveal_strlit("On");
    reveal_strlit("Off");
    assert("On"@.len() == 2 && "Off"@.len() == 3);
}

} // verus!
