//! The configuration files that the game runs while it plays a demo for
//! recording.
use vstd::prelude::*;
use crate::encoding::{
    avi_encoding, dnxhr_encoding, effective_avi_encoding, effective_dnxhr_encoding,
    effective_mp4_encoding, encoder_head, hlae_custom_avi_preset_command,
    hlae_custom_dnxhr_preset_command, hlae_custom_mp4_preset_command,
    law_normal_encoding_is_accepted, mp4_encoding,
};
use crate::models::Candidate;
use crate::number::{i64_text, int_text, nat_text, u64_text};
use crate::order::{insert_number, rising};
use crate::settings::AppSettings;
use crate::shortcuts::normal_keys;
use crate::text::{
    begins_with, contains_text, has_text, lemma_nothing_replaced, lemma_replaced_apart,
    lemma_text_has_itself, lemma_text_stays, lower, occurs_at, replace_chars, replace_text, replaced,
    same_fold, same_ignoring_case, same_text, starts_with, views, with_replaced,
};
use crate::vdm::{clean_capture_screen_commands, clean_screen};

verus! {

/// A switch as a digit.
pub open spec fn bit(on: bool) -> Seq<char> {
    if on {
        "1"@
    } else {
        "0"@
    }
}

fn bit_text(on: bool) -> (out: &'static str)
    ensures
        out@ == bit(on),
{
    if on {
        "1"
    } else {
        "0"
    }
}

/// A text where something holds, and nothing where it does not.
pub open spec fn given(holds: bool, text: Seq<char>) -> Seq<char> {
    if holds {
        text
    } else {
        Seq::empty()
    }
}

// ---------------------------------------------------------------------------
// The recording profile
// ---------------------------------------------------------------------------

/// The lines of the profile that are always there.
#[verifier::opaque]
pub open spec fn basic_lines(settings: AppSettings) -> Seq<char> {
    "// Generated by TF2 Frag Demo Helper (Rust)\nsv_lan 1\nsv_master_legacy_mode 1\nsv_cheats 1\nfps_max 0\nmat_motion_blur_enabled "@
        + bit(settings.motion_blur)
        + "\nmat_motion_blur_forward_enabled "@
        + bit(settings.motion_blur)
        + "\nmat_motion_blur_strength "@
        + bit(settings.motion_blur)
        + "\nviewmodel_fov_demo "@
        + nat_text(settings.viewmodel_fov as nat)
        + "\nhud_combattext "@
        + bit(!settings.disable_combat_text)
        + "\nhud_combattext_healing "@
        + bit(!settings.disable_combat_text)
        + "\ntf_dingalingaling "@
        + bit(!settings.disable_hit_sounds)
        + "\ntf_dingalingaling_lasthit "@
        + bit(!settings.disable_hit_sounds)
        + "\nvoice_enable "@
        + bit(!settings.disable_voice_chat)
        + "\ncl_hud_minmode "@
        + bit(settings.minimal_hud)
        + "\ncl_hud_playerclass_use_playermodel "@
        + bit(settings.hud_player_model)
        + "\ncrosshair "@
        + bit(!settings.disable_crosshair)
        + "\n"@
}

fn write_basic(settings: &AppSettings) -> (out: String)
    ensures
        out@ == basic_lines(*settings),
{
    proof {
        reveal(basic_lines);
    }
    let mut out = "// Generated by TF2 Frag Demo Helper (Rust)\nsv_lan 1\nsv_master_legacy_mode 1\nsv_cheats 1\nfps_max 0\nmat_motion_blur_enabled ".to_owned();
    out.append(bit_text(settings.motion_blur));
    out.append("\nmat_motion_blur_forward_enabled ");
    out.append(bit_text(settings.motion_blur));
    out.append("\nmat_motion_blur_strength ");
    out.append(bit_text(settings.motion_blur));
    out.append("\nviewmodel_fov_demo ");
    out.append(u64_text(settings.viewmodel_fov as u64).as_str());
    out.append("\nhud_combattext ");
    out.append(bit_text(!settings.disable_combat_text));
    out.append("\nhud_combattext_healing ");
    out.append(bit_text(!settings.disable_combat_text));
    out.append("\ntf_dingalingaling ");
    out.append(bit_text(!settings.disable_hit_sounds));
    out.append("\ntf_dingalingaling_lasthit ");
    out.append(bit_text(!settings.disable_hit_sounds));
    out.append("\nvoice_enable ");
    out.append(bit_text(!settings.disable_voice_chat));
    out.append("\ncl_hud_minmode ");
    out.append(bit_text(settings.minimal_hud));
    out.append("\ncl_hud_playerclass_use_playermodel ");
    out.append(bit_text(settings.hud_player_model));
    out.append("\ncrosshair ");
    out.append(bit_text(!settings.disable_crosshair));
    out.append("\n");
    out
}

/// Whether the hands of the player are drawn, where the settings say so.
pub open spec fn viewmodel_lines(viewmodels: Seq<char>) -> Seq<char> {
    if same_fold(viewmodels, "On"@) {
        "r_drawviewmodel 1\n"@
    } else if same_fold(viewmodels, "Off"@) {
        "r_drawviewmodel 0\n"@
    } else {
        Seq::empty()
    }
}

/// The lines that keep a demo from changing the crosshair.
pub open spec fn crosshair_lines() -> Seq<char> {
    "alias cl_crosshair_file \"\"\nalias cl_crosshair_scale \"\"\nalias cl_crosshair_red \"\"\nalias cl_crosshair_green \"\"\nalias cl_crosshair_blue \"\"\nalias crosshair \"\"\n"@
}

/// The lines for the best picture.
pub open spec fn graphics_lines() -> Seq<char> {
    "cl_burninggibs 1\ncl_detaildist 8096\ncl_detailfade 0\ncl_maxrenderable_dist 8096\ncl_new_impact_effects 1\ncl_phys_props_max 1024\ncl_ragdoll_collide 1\nlod_transitiondist 6400\nmat_aaquality 2\nmat_antialias 8\nmat_bumpmap 1\nmat_compressedtextures 1\nmat_envmapsize 512\nmat_envmaptgasize 512\nmat_forceaniso 16\nmat_hdr_level 2\nmat_parallaxmap 1\nmat_picmip -1\nmat_postprocess_x 8\nmat_postprocess_y 8\nmat_reducefillrate 0\nmat_software_aa_quality 2\nmat_software_aa_strength 2\nmat_specular 1\nmat_vsync 0\nmat_wateroverlaysize 512\nmp_decals 4096\nmp_usehwmmodels 1\nmp_usehwmvcds 1\nr_avglight 3\nr_decals 4096\nr_eyeglintlodpixels 4\nr_lod 0\nr_maxmodeldecal 4096\nr_radiosity 3\nr_rainradius 2250\nr_rainsplashpercentage 100\nr_rootlod 0\nr_shadowmaxrendered 1024\nr_shadowrendertotexture 1\nr_shadows 1\nr_waterdrawreflection 1\nr_waterdrawrefraction 1\nr_waterforceexpensive 1\nr_waterforcereflectentities 1\nr_pixelfog 1\nmat_viewportscale 1\nmat_viewportupscale 1\nmat_queue_mode -1\nr_threaded_particles 1\nr_threaded_renderables 1\nr_threaded_client_shadow_manager 1\n"@
}

/// The lines that end the settings of a profile.
pub open spec fn closing_lines() -> Seq<char> {
    "cl_showfps 0\nnet_graph 0\ncl_chatfilters 0\nhud_saytext_time 0\ntv_nochat 1\nhideconsole\ngameui_hide\ncancelselect\nengine_no_focus_sleep 0\nsnd_mute_losefocus 0\necho TF2FRAG_MOVIE_PROFILE_READY\n"@
}

/// The command for an own MP4 encoding, where one takes effect.
pub open spec fn mp4_command(settings: AppSettings) -> Option<Seq<char>> {
    match mp4_encoding(settings) {
        Ok(Some(encoding)) => encoding.preset_command(),
        _ => None,
    }
}

/// The command for an own AVI encoding, where one takes effect.
pub open spec fn avi_command(settings: AppSettings) -> Option<Seq<char>> {
    match avi_encoding(settings) {
        Ok(Some(encoding)) => encoding.preset_command(),
        _ => None,
    }
}

/// The command for a DNxHR encoding, where one takes effect.
pub open spec fn dnxhr_command(settings: AppSettings) -> Option<Seq<char>> {
    match dnxhr_encoding(settings) {
        Ok(Some(encoding)) => Some(encoding.preset_command()),
        _ => None,
    }
}

/// A line, where there is one.
pub open spec fn line_of(command: Option<Seq<char>>) -> Seq<char> {
    match command {
        Some(command) => command + "\n"@,
        None => Seq::empty(),
    }
}

/// The profile, before the place of the encoder is filled in.
pub open spec fn profile_lines(settings: AppSettings) -> Seq<char> {
    basic_lines(settings) + viewmodel_lines(settings.viewmodels@) + given(
        settings.disable_crosshair_switching,
        crosshair_lines(),
    ) + given(settings.maximum_graphics, graphics_lines()) + closing_lines() + line_of(
        mp4_command(settings),
    ) + line_of(avi_command(settings)) + line_of(dnxhr_command(settings))
}

fn write_mp4_line(settings: &AppSettings) -> (out: String)
    ensures
        out@ == line_of(mp4_command(*settings)),
{
    if let Ok(Some(encoding)) = effective_mp4_encoding(settings) {
        if let Some(command) = hlae_custom_mp4_preset_command(&encoding) {
            let mut out = command;
            out.append("\n");
            return out;
        }
    }
    let out = String::new();
    assert(out@ =~= Seq::empty());
    out
}

fn write_avi_line(settings: &AppSettings) -> (out: String)
    ensures
        out@ == line_of(avi_command(*settings)),
{
    if let Ok(Some(encoding)) = effective_avi_encoding(settings) {
        if let Some(command) = hlae_custom_avi_preset_command(&encoding) {
            let mut out = command;
            out.append("\n");
            return out;
        }
    }
    let out = String::new();
    assert(out@ =~= Seq::empty());
    out
}

fn write_dnxhr_line(settings: &AppSettings) -> (out: String)
    ensures
        out@ == line_of(dnxhr_command(*settings)),
{
    if let Ok(Some(encoding)) = effective_dnxhr_encoding(settings) {
        let mut out = hlae_custom_dnxhr_preset_command(&encoding);
        out.append("\n");
        return out;
    }
    let out = String::new();
    assert(out@ =~= Seq::empty());
    out
}

/// The profile that the game records with. Custom encodings use the encoder that
/// the settings name.
pub fn recording_profile_cfg(settings: &AppSettings) -> (out: String)
    ensures
        out@ == with_replaced(
            profile_lines(*settings),
            "{FFMPEG_PATH}"@,
            settings.ffmpeg_executable@,
        ),
{
    let mut out = write_basic(settings);
    let hands = if same_ignoring_case(settings.viewmodels.as_str(), "On") {
        "r_drawviewmodel 1\n"
    } else if same_ignoring_case(settings.viewmodels.as_str(), "Off") {
        "r_drawviewmodel 0\n"
    } else {
        ""
    };
    proof {
        reveal_strlit("");
        assert(""@ =~= Seq::empty());
    }
    out.append(hands);
    let crosshair = if settings.disable_crosshair_switching {
        "alias cl_crosshair_file \"\"\nalias cl_crosshair_scale \"\"\nalias cl_crosshair_red \"\"\nalias cl_crosshair_green \"\"\nalias cl_crosshair_blue \"\"\nalias crosshair \"\"\n"
    } else {
        ""
    };
    out.append(crosshair);
    let graphics = if settings.maximum_graphics {
        "cl_burninggibs 1\ncl_detaildist 8096\ncl_detailfade 0\ncl_maxrenderable_dist 8096\ncl_new_impact_effects 1\ncl_phys_props_max 1024\ncl_ragdoll_collide 1\nlod_transitiondist 6400\nmat_aaquality 2\nmat_antialias 8\nmat_bumpmap 1\nmat_compressedtextures 1\nmat_envmapsize 512\nmat_envmaptgasize 512\nmat_forceaniso 16\nmat_hdr_level 2\nmat_parallaxmap 1\nmat_picmip -1\nmat_postprocess_x 8\nmat_postprocess_y 8\nmat_reducefillrate 0\nmat_software_aa_quality 2\nmat_software_aa_strength 2\nmat_specular 1\nmat_vsync 0\nmat_wateroverlaysize 512\nmp_decals 4096\nmp_usehwmmodels 1\nmp_usehwmvcds 1\nr_avglight 3\nr_decals 4096\nr_eyeglintlodpixels 4\nr_lod 0\nr_maxmodeldecal 4096\nr_radiosity 3\nr_rainradius 2250\nr_rainsplashpercentage 100\nr_rootlod 0\nr_shadowmaxrendered 1024\nr_shadowrendertotexture 1\nr_shadows 1\nr_waterdrawreflection 1\nr_waterdrawrefraction 1\nr_waterforceexpensive 1\nr_waterforcereflectentities 1\nr_pixelfog 1\nmat_viewportscale 1\nmat_viewportupscale 1\nmat_queue_mode -1\nr_threaded_particles 1\nr_threaded_renderables 1\nr_threaded_client_shadow_manager 1\n"
    } else {
        ""
    };
    out.append(graphics);
    out.append(
        "cl_showfps 0\nnet_graph 0\ncl_chatfilters 0\nhud_saytext_time 0\ntv_nochat 1\nhideconsole\ngameui_hide\ncancelselect\nengine_no_focus_sleep 0\nsnd_mute_losefocus 0\necho TF2FRAG_MOVIE_PROFILE_READY\n",
    );
    out.append(write_mp4_line(settings).as_str());
    out.append(write_avi_line(settings).as_str());
    out.append(write_dnxhr_line(settings).as_str());
    replace_text(out.as_str(), "{FFMPEG_PATH}", settings.ffmpeg_executable.as_str())
}

/// What the game runs at its start, so that it plays demos and nothing else.
pub open spec fn offline_lines() -> Seq<char> {
    "// Generated by TF2 Frag Demo Helper. Offline demo playback only.\nsv_lan 1\nsv_allow_votes 0\ncl_allowdownload 0\ncl_downloadfilter none\ncl_chatfilters 0\nhud_saytext_time 0\ntv_nochat 1\ncl_showtextmsg 0\ncl_showpluginmessages 0\ncl_vote_ui_active_after_voting 0\ncl_vote_ui_show_notification 0\ntf_hud_notification_duration 0\ndeveloper 0\ncon_notifytime 0\ncontimes 0\nalias connect \"echo BLOCKED: recording mode cannot connect to servers\"\nalias retry \"echo BLOCKED: recording mode cannot reconnect to servers\"\nalias tf_party_join_request_mode \"echo BLOCKED: matchmaking is disabled in recording mode\"\nalias openserverbrowser \"echo BLOCKED: recording mode is offline only\"\ncon_logfile tf2fragdemohelper_recording.log\ncon_timestamp 1\nengine_no_focus_sleep 0\nsnd_mute_losefocus 0\necho TF2FRAG_RECORDER_INIT\necho TF2FRAG_RECORDER_READY\n"@
}

/// What the game runs at its start, so that it plays demos and nothing else.
pub fn offline_cfg() -> (out: &'static str)
    ensures
        out@ == offline_lines(),
{
    "// Generated by TF2 Frag Demo Helper. Offline demo playback only.\nsv_lan 1\nsv_allow_votes 0\ncl_allowdownload 0\ncl_downloadfilter none\ncl_chatfilters 0\nhud_saytext_time 0\ntv_nochat 1\ncl_showtextmsg 0\ncl_showpluginmessages 0\ncl_vote_ui_active_after_voting 0\ncl_vote_ui_show_notification 0\ntf_hud_notification_duration 0\ndeveloper 0\ncon_notifytime 0\ncontimes 0\nalias connect \"echo BLOCKED: recording mode cannot connect to servers\"\nalias retry \"echo BLOCKED: recording mode cannot reconnect to servers\"\nalias tf_party_join_request_mode \"echo BLOCKED: matchmaking is disabled in recording mode\"\nalias openserverbrowser \"echo BLOCKED: recording mode is offline only\"\ncon_logfile tf2fragdemohelper_recording.log\ncon_timestamp 1\nengine_no_focus_sleep 0\nsnd_mute_losefocus 0\necho TF2FRAG_RECORDER_INIT\necho TF2FRAG_RECORDER_READY\n"
}

// ---------------------------------------------------------------------------
// Starting and stopping
// ---------------------------------------------------------------------------

/// The stream settings that a format is recorded with.
pub open spec fn stream_preset(settings: AppSettings) -> Seq<char> {
    let format = settings.recording_format@;
    if has_text(format, "Lossless"@) {
        "afxFfmpegLosslessBest"@
    } else if has_text(format, "AVI"@) {
        match avi_encoding(settings) {
            Ok(Some(encoding)) if encoding.custom_hlae_preset => "tf2FragAvi"@,
            _ => "afxFfmpegRaw"@,
        }
    } else if format == "MOV - DNxHR"@ {
        "tf2FragDnxhr"@
    } else {
        match mp4_encoding(settings) {
            Ok(Some(encoding)) if encoding.custom_hlae_preset => "tf2FragMp4"@,
            _ => "afxFfmpeg"@,
        }
    }
}

/// The stream settings that a format is recorded with.
pub fn recording_stream_preset(settings: &AppSettings) -> (out: &'static str)
    ensures
        out@ == stream_preset(*settings),
{
    let format = settings.recording_format.as_str();
    if contains_text(format, "Lossless") {
        return "afxFfmpegLosslessBest";
    }
    if contains_text(format, "AVI") {
        return match effective_avi_encoding(settings) {
            Ok(Some(encoding)) => if encoding.custom_hlae_preset {
                "tf2FragAvi"
            } else {
                "afxFfmpegRaw"
            },
            _ => "afxFfmpegRaw",
        };
    }
    if same_text(format, "MOV - DNxHR") {
        return "tf2FragDnxhr";
    }
    match effective_mp4_encoding(settings) {
        Ok(Some(encoding)) => if encoding.custom_hlae_preset {
            "tf2FragMp4"
        } else {
            "afxFfmpeg"
        },
        _ => "afxFfmpeg",
    }
}

/// What starts the recording of a clip. Images go under a name that the game
/// chooses the folder for; encoded recordings go to a path.
pub open spec fn start_lines(settings: AppSettings, base: Seq<char>, capture: Seq<char>, path: Seq<char>) -> Seq<char> {
    let format = settings.recording_format@;
    if begins_with(format, "TGA"@) {
        "echo TF2FRAG_RECORD_START "@
            + base
            + "; "@
            + clean_screen()
            + "; host_framerate "@
            + nat_text(settings.capture_fps as nat)
            + "; startmovie "@
            + capture
            + " raw; hideconsole\n"@
    } else if begins_with(format, "JPG"@) {
        "echo TF2FRAG_RECORD_START "@
            + base
            + "; "@
            + clean_screen()
            + "; jpeg_quality "@
            + nat_text(settings.jpg_quality as nat)
            + "; host_framerate "@
            + nat_text(settings.capture_fps as nat)
            + "; startmovie "@
            + capture
            + " jpeg; hideconsole\n"@
    } else {
        "echo TF2FRAG_RECORD_START "@
            + base
            + "; "@
            + clean_screen()
            + "; host_framerate "@
            + nat_text(settings.capture_fps as nat)
            + "; mirv_streams record fps "@
            + nat_text(settings.capture_fps as nat)
            + "; mirv_streams record screen enabled 1; mirv_streams record screen settings "@
            + stream_preset(settings)
            + "; mirv_streams record name \""@
            + path
            + "\"; mirv_streams record start; hideconsole\n"@
    }
}

/// What starts the recording of a clip.
pub fn recording_start_cfg(
    settings: &AppSettings,
    base: &str,
    capture: &str,
    working_path: &str,
) -> (out: String)
    ensures
        out@ == start_lines(*settings, base@, capture@, replaced(working_path@, "\\"@, '/')),
{
    let fps = u64_text(settings.capture_fps as u64);
    let path = replace_chars(working_path, "\\", '/');
    if starts_with(settings.recording_format.as_str(), "TGA") {
        let mut out = "echo TF2FRAG_RECORD_START ".to_owned();
        out.append(base);
        out.append("; ");
        out.append(clean_capture_screen_commands());
        out.append("; host_framerate ");
        out.append(fps.as_str());
        out.append("; startmovie ");
        out.append(capture);
        out.append(" raw; hideconsole\n");
        out
    } else if starts_with(settings.recording_format.as_str(), "JPG") {
        let mut out = "echo TF2FRAG_RECORD_START ".to_owned();
        out.append(base);
        out.append("; ");
        out.append(clean_capture_screen_commands());
        out.append("; jpeg_quality ");
        out.append(u64_text(settings.jpg_quality as u64).as_str());
        out.append("; host_framerate ");
        out.append(fps.as_str());
        out.append("; startmovie ");
        out.append(capture);
        out.append(" jpeg; hideconsole\n");
        out
    } else {
        let mut out = "echo TF2FRAG_RECORD_START ".to_owned();
        out.append(base);
        out.append("; ");
        out.append(clean_capture_screen_commands());
        out.append("; host_framerate ");
        out.append(fps.as_str());
        out.append("; mirv_streams record fps ");
        out.append(fps.as_str());
        out.append("; mirv_streams record screen enabled 1; mirv_streams record screen settings ");
        out.append(recording_stream_preset(settings));
        out.append("; mirv_streams record name \"");
        out.append(path.as_str());
        out.append("\"; mirv_streams record start; hideconsole\n");
        out
    }
}

/// What starts a recording by hand.
pub open spec fn manual_start_lines(settings: AppSettings, path: Seq<char>) -> Seq<char> {
    let format = settings.recording_format@;
    if begins_with(format, "TGA"@) {
        "echo TF2FRAG_MANUAL_RECORD_START; "@
            + clean_screen()
            + "; host_framerate "@
            + nat_text(settings.capture_fps as nat)
            + "; startmovie \""@
            + path
            + "/capture\" raw; hideconsole\n"@
    } else if begins_with(format, "JPG"@) {
        "echo TF2FRAG_MANUAL_RECORD_START; "@
            + clean_screen()
            + "; jpeg_quality "@
            + nat_text(settings.jpg_quality as nat)
            + "; host_framerate "@
            + nat_text(settings.capture_fps as nat)
            + "; startmovie \""@
            + path
            + "/capture\" jpeg; hideconsole\n"@
    } else {
        "echo TF2FRAG_MANUAL_RECORD_START; "@
            + clean_screen()
            + "; host_framerate "@
            + nat_text(settings.capture_fps as nat)
            + "; mirv_streams record fps "@
            + nat_text(settings.capture_fps as nat)
            + "; mirv_streams record screen enabled 1; mirv_streams record screen settings "@
            + stream_preset(settings)
            + "; mirv_streams record name \""@
            + path
            + "\"; mirv_streams record start; hideconsole\n"@
    }
}

/// What starts a recording by hand.
pub fn manual_recording_start_cfg(settings: &AppSettings, output_path: &str) -> (out: String)
    ensures
        out@ == manual_start_lines(*settings, replaced(output_path@, "\\"@, '/')),
{
    let fps = u64_text(settings.capture_fps as u64);
    let path = replace_chars(output_path, "\\", '/');
    if starts_with(settings.recording_format.as_str(), "TGA") {
        let mut out = "echo TF2FRAG_MANUAL_RECORD_START; ".to_owned();
        out.append(clean_capture_screen_commands());
        out.append("; host_framerate ");
        out.append(fps.as_str());
        out.append("; startmovie \"");
        out.append(path.as_str());
        out.append("/capture\" raw; hideconsole\n");
        out
    } else if starts_with(settings.recording_format.as_str(), "JPG") {
        let mut out = "echo TF2FRAG_MANUAL_RECORD_START; ".to_owned();
        out.append(clean_capture_screen_commands());
        out.append("; jpeg_quality ");
        out.append(u64_text(settings.jpg_quality as u64).as_str());
        out.append("; host_framerate ");
        out.append(fps.as_str());
        out.append("; startmovie \"");
        out.append(path.as_str());
        out.append("/capture\" jpeg; hideconsole\n");
        out
    } else {
        let mut out = "echo TF2FRAG_MANUAL_RECORD_START; ".to_owned();
        out.append(clean_capture_screen_commands());
        out.append("; host_framerate ");
        out.append(fps.as_str());
        out.append("; mirv_streams record fps ");
        out.append(fps.as_str());
        out.append("; mirv_streams record screen enabled 1; mirv_streams record screen settings ");
        out.append(recording_stream_preset(settings));
        out.append("; mirv_streams record name \"");
        out.append(path.as_str());
        out.append("\"; mirv_streams record start; hideconsole\n");
        out
    }
}

/// What ends a recording in a format.
pub open spec fn stop_command(format: Seq<char>) -> Seq<char> {
    if has_text(format, "Image"@) {
        "endmovie"@
    } else {
        "mirv_streams record end"@
    }
}

fn write_stop(format: &str) -> (out: &'static str)
    ensures
        out@ == stop_command(format@),
{
    if contains_text(format, "Image") {
        "endmovie"
    } else {
        "mirv_streams record end"
    }
}

/// What ends a recording by hand.
pub fn manual_recording_stop_cfg(settings: &AppSettings) -> (out: String)
    ensures
        out@ == "echo TF2FRAG_MANUAL_RECORD_END; "@ + stop_command(settings.recording_format@)
            + "; host_framerate 0\n"@,
{
    let mut out = "echo TF2FRAG_MANUAL_RECORD_END; ".to_owned();
    out.append(write_stop(settings.recording_format.as_str()));
    out.append("; host_framerate 0\n");
    out
}

/// What ends the recording of a clip.
pub fn recording_stop_cfg(settings: &AppSettings, config_base: &str) -> (out: String)
    ensures
        out@ == "echo TF2FRAG_RECORD_END "@ + config_base@ + "; "@ + stop_command(
            settings.recording_format@,
        ) + "; host_framerate 0\n"@,
{
    let mut out = "echo TF2FRAG_RECORD_END ".to_owned();
    out.append(config_base);
    out.append("; ");
    out.append(write_stop(settings.recording_format.as_str()));
    out.append("; host_framerate 0\n");
    out
}

// ---------------------------------------------------------------------------
// Keys of manual sessions
// ---------------------------------------------------------------------------

/// The first lines of the keys: what they do, by name.
#[verifier::opaque]
pub open spec fn key_head(keys: Seq<Seq<char>>, demo: Seq<char>, target: int) -> Seq<char> {
    "// Temporary manual HLAE controls generated by TF2 Frag Demo Helper.\nsv_cheats 1\ncon_enable 1\nmirv_campath enabled 0\nmirv_campath clear\nmirv_input end\nalias tf2frag_manual_start \"exec tf2fragdemohelper_manual_start\"\nalias tf2frag_manual_stop \"exec tf2fragdemohelper_manual_stop\"\nalias tf2frag_manual_save \"exec tf2fragdemohelper_manual_save\"\nalias tf2frag_manual_help \"echo TF2FRAG_KEYS "@
        + keys[0]
        + "_FORWARD_0.25_SECONDS "@
        + keys[1]
        + "_TOGGLE_HUD "@
        + keys[2]
        + "_HELP "@
        + keys[3]
        + "_BACK_1_SECOND "@
        + keys[4]
        + "_CLIP_START "@
        + keys[5]
        + "_NEXT_KILL "@
        + keys[6]
        + "_PAUSE "@
        + keys[7]
        + "_CAMERA "@
        + keys[8]
        + "_KEYFRAME "@
        + keys[9]
        + "_PLAY_PATH "@
        + keys[11]
        + "_RECORD "@
        + keys[12]
        + "_STOP "@
        + keys[13]
        + "_PRINT "@
        + keys[14]
        + "_SAVE\"\nalias tf2frag_manual_clip_start \"playdemo "@
        + demo
        + "; echo TF2FRAG_MANUAL_SAFE_RESTART_FROM_ZERO TARGET "@
        + int_text(target)
        + "\"\n"@
}

fn write_key_head(keys: &Vec<String>, demo: &str, target: i64) -> (out: String)
    requires
        keys.len() >= 15,
    ensures
        out@ == key_head(views(keys@), demo@, target as int),
{
    proof {
        reveal(key_head);
    }
    let ghost all = views(keys@);
    assert(forall|i: int| 0 <= i < 15 ==> #[trigger] all[i] == keys@[i]@);
    let mut out = "// Temporary manual HLAE controls generated by TF2 Frag Demo Helper.\nsv_cheats 1\ncon_enable 1\nmirv_campath enabled 0\nmirv_campath clear\nmirv_input end\nalias tf2frag_manual_start \"exec tf2fragdemohelper_manual_start\"\nalias tf2frag_manual_stop \"exec tf2fragdemohelper_manual_stop\"\nalias tf2frag_manual_save \"exec tf2fragdemohelper_manual_save\"\nalias tf2frag_manual_help \"echo TF2FRAG_KEYS ".to_owned();
    out.append(keys[0].as_str());
    out.append("_FORWARD_0.25_SECONDS ");
    out.append(keys[1].as_str());
    out.append("_TOGGLE_HUD ");
    out.append(keys[2].as_str());
    out.append("_HELP ");
    out.append(keys[3].as_str());
    out.append("_BACK_1_SECOND ");
    out.append(keys[4].as_str());
    out.append("_CLIP_START ");
    out.append(keys[5].as_str());
    out.append("_NEXT_KILL ");
    out.append(keys[6].as_str());
    out.append("_PAUSE ");
    out.append(keys[7].as_str());
    out.append("_CAMERA ");
    out.append(keys[8].as_str());
    out.append("_KEYFRAME ");
    out.append(keys[9].as_str());
    out.append("_PLAY_PATH ");
    out.append(keys[11].as_str());
    out.append("_RECORD ");
    out.append(keys[12].as_str());
    out.append("_STOP ");
    out.append(keys[13].as_str());
    out.append("_PRINT ");
    out.append(keys[14].as_str());
    out.append("_SAVE\"\nalias tf2frag_manual_clip_start \"playdemo ");
    out.append(demo);
    out.append("; echo TF2FRAG_MANUAL_SAFE_RESTART_FROM_ZERO TARGET ");
    out.append(i64_text(target).as_str());
    out.append("\"\n");
    out
}

/// The last lines of the keys: which key does what.
#[verifier::opaque]
pub open spec fn key_binds(keys: Seq<Seq<char>>) -> Seq<char> {
    "alias tf2frag_manual_hud_off \"cl_drawhud 0; alias tf2frag_manual_toggle_hud tf2frag_manual_hud_on; echo TF2FRAG_MANUAL_HUD_HIDDEN\"\nalias tf2frag_manual_hud_on \"cl_drawhud 1; alias tf2frag_manual_toggle_hud tf2frag_manual_hud_off; echo TF2FRAG_MANUAL_HUD_VISIBLE\"\nalias tf2frag_manual_toggle_hud tf2frag_manual_hud_off\nalias tf2frag_manual_next_kill tf2frag_manual_kill_1\nbind \""@
        + keys[0]
        + "\" \"mirv_skip time 0.25\"\nbind \""@
        + keys[1]
        + "\" \"tf2frag_manual_toggle_hud\"\nbind \""@
        + keys[2]
        + "\" \"tf2frag_manual_help\"\nbind \""@
        + keys[3]
        + "\" \"mirv_skip time -1\"\nbind \""@
        + keys[4]
        + "\" \"tf2frag_manual_clip_start\"\nbind \""@
        + keys[5]
        + "\" \"tf2frag_manual_next_kill\"\nbind \""@
        + keys[6]
        + "\" \"demo_togglepause\"\nbind \""@
        + keys[7]
        + "\" \"sv_cheats 1; thirdperson; r_drawviewmodel 0; spec_autodirector 0; mirv_input camera\"\nbind \""@
        + keys[8]
        + "\" \"mirv_campath add; echo TF2FRAG_MANUAL_KEYFRAME_ADDED\"\nbind \""@
        + keys[9]
        + "\" \"mirv_input end; thirdperson; r_drawviewmodel 0; mirv_campath enabled 1; echo TF2FRAG_MANUAL_CAMPATH_ENABLED_THIRDPERSON\"\nbind \""@
        + keys[11]
        + "\" \"tf2frag_manual_start\"\nbind \""@
        + keys[12]
        + "\" \"tf2frag_manual_stop\"\nbind \""@
        + keys[13]
        + "\" \"mirv_campath print\"\nbind \""@
        + keys[14]
        + "\" \"tf2frag_manual_save\"\necho TF2FRAG_MANUAL_READY\ntf2frag_manual_help\n"@
}

fn write_key_binds(keys: &Vec<String>) -> (out: String)
    requires
        keys.len() >= 15,
    ensures
        out@ == key_binds(views(keys@)),
{
    proof {
        reveal(key_binds);
    }
    let ghost all = views(keys@);
    assert(forall|i: int| 0 <= i < 15 ==> #[trigger] all[i] == keys@[i]@);
    let mut out = "alias tf2frag_manual_hud_off \"cl_drawhud 0; alias tf2frag_manual_toggle_hud tf2frag_manual_hud_on; echo TF2FRAG_MANUAL_HUD_HIDDEN\"\nalias tf2frag_manual_hud_on \"cl_drawhud 1; alias tf2frag_manual_toggle_hud tf2frag_manual_hud_off; echo TF2FRAG_MANUAL_HUD_VISIBLE\"\nalias tf2frag_manual_toggle_hud tf2frag_manual_hud_off\nalias tf2frag_manual_next_kill tf2frag_manual_kill_1\nbind \"".to_owned();
    out.append(keys[0].as_str());
    out.append("\" \"mirv_skip time 0.25\"\nbind \"");
    out.append(keys[1].as_str());
    out.append("\" \"tf2frag_manual_toggle_hud\"\nbind \"");
    out.append(keys[2].as_str());
    out.append("\" \"tf2frag_manual_help\"\nbind \"");
    out.append(keys[3].as_str());
    out.append("\" \"mirv_skip time -1\"\nbind \"");
    out.append(keys[4].as_str());
    out.append("\" \"tf2frag_manual_clip_start\"\nbind \"");
    out.append(keys[5].as_str());
    out.append("\" \"tf2frag_manual_next_kill\"\nbind \"");
    out.append(keys[6].as_str());
    out.append("\" \"demo_togglepause\"\nbind \"");
    out.append(keys[7].as_str());
    out.append("\" \"sv_cheats 1; thirdperson; r_drawviewmodel 0; spec_autodirector 0; mirv_input camera\"\nbind \"");
    out.append(keys[8].as_str());
    out.append("\" \"mirv_campath add; echo TF2FRAG_MANUAL_KEYFRAME_ADDED\"\nbind \"");
    out.append(keys[9].as_str());
    out.append("\" \"mirv_input end; thirdperson; r_drawviewmodel 0; mirv_campath enabled 1; echo TF2FRAG_MANUAL_CAMPATH_ENABLED_THIRDPERSON\"\nbind \"");
    out.append(keys[11].as_str());
    out.append("\" \"tf2frag_manual_start\"\nbind \"");
    out.append(keys[12].as_str());
    out.append("\" \"tf2frag_manual_stop\"\nbind \"");
    out.append(keys[13].as_str());
    out.append("\" \"mirv_campath print\"\nbind \"");
    out.append(keys[14].as_str());
    out.append("\" \"tf2frag_manual_save\"\necho TF2FRAG_MANUAL_READY\ntf2frag_manual_help\n");
    out
}

/// The lines that go from one kill to the next, and from the last to the first.
pub open spec fn kill_lines(ticks: Seq<i64>, upto: int) -> Seq<char>
    decreases upto,
{
    if upto <= 0 {
        Seq::empty()
    } else {
        let tick = int_text(ticks[upto - 1] as int);
        let next = if upto == ticks.len() {
            1
        } else {
            upto + 1
        };
        kill_lines(ticks, upto - 1) + "alias tf2frag_manual_kill_"@ + int_text(upto)
            + " \"demo_gototick "@ + tick
            + "; alias tf2frag_manual_next_kill tf2frag_manual_kill_"@ + int_text(next)
            + "; echo TF2FRAG_MANUAL_KILL "@ + int_text(upto) + "/"@ + int_text(
            ticks.len() as int,
        ) + " TICK "@ + tick + "\"\n"@
    }
}

fn write_kill_lines(ticks: &Vec<i64>) -> (out: String)
    ensures
        out@ == kill_lines(ticks@, ticks.len() as int),
{
    let mut out = String::new();
    let mut i: usize = 0;
    assert(out@ =~= Seq::empty());
    while i < ticks.len()
        invariant
            i <= ticks.len(),
            out@ == kill_lines(ticks@, i as int),
        decreases ticks.len() - i,
    {
        let current: u64 = i as u64 + 1;
        let next: u64 = if i + 1 == ticks.len() {
            1
        } else {
            i as u64 + 2
        };
        let number = u64_text(current);
        let tick = i64_text(ticks[i]);
        out.append("alias tf2frag_manual_kill_");
        out.append(number.as_str());
        out.append(" \"demo_gototick ");
        out.append(tick.as_str());
        out.append("; alias tf2frag_manual_next_kill tf2frag_manual_kill_");
        out.append(u64_text(next).as_str());
        out.append("; echo TF2FRAG_MANUAL_KILL ");
        out.append(number.as_str());
        out.append("/");
        out.append(u64_text(ticks.len() as u64).as_str());
        out.append(" TICK ");
        out.append(tick.as_str());
        out.append("\"\n");
        i += 1;
    }
    out
}

/// The ticks that a key goes through: those of the kills, each once, or the
/// start of the clip where there is none.
pub open spec fn stops(ticks: Seq<i64>, kills: Seq<i64>, target: i64) -> bool {
    &&& rising(ticks)
    &&& ticks.to_set() == (if kills.len() > 0 {
        kills.to_set()
    } else {
        set![target]
    })
}

fn list_stops(kills: &Vec<i64>, target: i64) -> (out: Vec<i64>)
    ensures
        stops(out@, kills@, target),
{
    let mut out: Vec<i64> = Vec::new();
    let mut i: usize = 0;
    proof {
        assert(out@.to_set() =~= Set::empty());
        assert(kills@.take(0).to_set() =~= Set::empty());
    }
    while i < kills.len()
        invariant
            i <= kills.len(),
            rising(out@),
            out@.to_set() == kills@.take(i as int).to_set(),
        decreases kills.len() - i,
    {
        insert_number(&mut out, kills[i]);
        proof {
            let now = kills@.take(i as int);
            let next = kills@.take(i + 1);
            assert(next =~= now.push(kills@[i as int]));
            assert forall|v: i64| next.to_set().contains(v) <==> now.to_set().insert(
                kills@[i as int],
            ).contains(v) by {
                if next.to_set().contains(v) {
                    let k = choose|k: int| 0 <= k < next.len() && next[k] == v;
                    if k < i {
                        assert(now[k] == v);
                    }
                }
                if now.to_set().contains(v) {
                    let k = choose|k: int| 0 <= k < now.len() && now[k] == v;
                    assert(next[k] == v);
                }
                assert(next[i as int] == kills@[i as int]);
            }
            assert(next.to_set() =~= now.to_set().insert(kills@[i as int]));
        }
        i += 1;
    }
    assert(kills@.take(kills.len() as int) =~= kills@);
    if kills.len() == 0 {
        assert(out@.to_set() =~= Set::empty());
        insert_number(&mut out, target);
        assert(out@.to_set() =~= set![target]);
    }
    out
}

/// The keys of a manual session.
pub open spec fn hotkey_lines(
    ticks: Seq<i64>,
    keys: Seq<Seq<char>>,
    demo: Seq<char>,
    target: int,
) -> Seq<char> {
    key_head(keys, demo, target) + kill_lines(ticks, ticks.len() as int) + key_binds(keys)
}

/// The keys of a manual session that starts at a tick.
pub fn manual_hotkey_cfg(
    candidate: &Candidate,
    target_tick: i64,
    staged_demo: &str,
    settings: &AppSettings,
) -> (out: String)
    ensures
        exists|ticks: Seq<i64>|
            stops(ticks, candidate.point_of_kill_ticks@, target_tick) && out@
                == #[trigger] hotkey_lines(
                ticks,
                normal_keys(
                    settings.mirv_shortcuts.keys(),
                    settings.mirv_shortcuts.overlay_panel_toggle_default_version as int,
                ),
                staged_demo@,
                target_tick as int,
            ),
{
    let mut shortcuts = settings.mirv_shortcuts.clone();
    shortcuts.normalize();
    let keys = shortcuts.key_list();
    let ticks = list_stops(&candidate.point_of_kill_ticks, target_tick);
    assert(views(keys@).len() == keys.len());
    let mut out = write_key_head(&keys, staged_demo, target_tick);
    out.append(write_kill_lines(&ticks).as_str());
    out.append(write_key_binds(&keys).as_str());
    assert(out@ == hotkey_lines(ticks@, views(keys@), staged_demo@, target_tick as int));
    out
}

/// Whatever is recorded, and however, the console and the menus are closed and
/// chat, votes and messages are kept off the screen first.
pub proof fn law_every_capture_is_clean(
    settings: AppSettings,
    base: Seq<char>,
    capture: Seq<char>,
    path: Seq<char>,
)
    ensures
        has_text(start_lines(settings, base, capture, path), clean_screen()),
        has_text(manual_start_lines(settings, path), clean_screen()),
{
    let clean = clean_screen();
    lemma_text_has_itself(clean);
    let all = start_lines(settings, base, capture, path);
    let before = "echo TF2FRAG_RECORD_START "@ + base + "; "@;
    let after = all.skip((before.len() + clean.len()) as int);
    assert(all =~= before + clean + after);
    lemma_text_stays(before, clean, after, clean);
    let by_hand = manual_start_lines(settings, path);
    let head = "echo TF2FRAG_MANUAL_RECORD_START; "@;
    let rest = by_hand.skip((head.len() + clean.len()) as int);
    assert(by_hand =~= head + clean + rest);
    lemma_text_stays(head, clean, rest, clean);
}

proof fn lemma_encoder_named(
    before: Seq<char>,
    name: Seq<char>,
    after: Seq<char>,
    encoder: Seq<char>,
)
    requires
        name == "tf2FragMp4"@ || name == "tf2FragAvi"@ || name == "tf2FragDnxhr"@,
    ensures
        has_text(
            with_replaced(before + encoder_head(name) + after, "{FFMPEG_PATH}"@, encoder),
            named_encoder(name, encoder),
        ),
{
    reveal(encoder_head);
    let from = "{FFMPEG_PATH}"@;
    let start = "mirv_streams settings add ffmpegEx "@;
    let open = " \"{QUOTE}"@;
    let close = "{QUOTE}"@;
    let more = " -f rawvideo -pixel_format {PIXEL_FORMAT} -loglevel repeat+level+warning -framerate {FRAMERATE} -video_size {WIDTH}x{HEIGHT} -i pipe:0 -vf setsar=sar=1/1 -c:v "@;
    reveal_strlit("{FFMPEG_PATH}");
    reveal_strlit("mirv_streams settings add ffmpegEx ");
    reveal_strlit(" \"{QUOTE}");
    reveal_strlit("{QUOTE}");
    reveal_strlit("tf2FragMp4");
    reveal_strlit("tf2FragAvi");
    reveal_strlit("tf2FragDnxhr");
    reveal_strlit(
        " -f rawvideo -pixel_format {PIXEL_FORMAT} -loglevel repeat+level+warning -framerate {FRAMERATE} -video_size {WIDTH}x{HEIGHT} -i pipe:0 -vf setsar=sar=1/1 -c:v ",
    );
    let rest = more + after;
    let quoted = close + rest;
    let path = from + quoted;
    let opened = open + path;
    let called = name + opened;
    let command = start + called;
    assert(before + encoder_head(name) + after =~= before + command);
    lemma_parted(before, command, encoder);
    lemma_parted(start, called, encoder);
    lemma_parted(name, opened, encoder);
    assert forall|i: int| 0 <= i < open.len() && open.len() < i + from.len() implies
        !#[trigger] occurs_at(opened, from, i) by {
        if occurs_at(opened, from, i) {
            let at = open.len() - 1 - i;
            assert(opened.subrange(i, i + from.len())[at] == opened[open.len() - 1]);
            assert(from[at] == '}');
        }
    }
    lemma_replaced_apart(open, path, from, encoder);
    assert(path.subrange(0, from.len() as int) =~= from);
    assert(path.skip(from.len() as int) =~= quoted);
    lemma_parted(close, rest, encoder);
    assert forall|i: int| 0 <= i < start.len() implies !#[trigger] occurs_at(start, from, i) by {
        if occurs_at(start, from, i) {
            assert(start.subrange(i, i + from.len())[0] == start[i]);
            assert(start[i] != '{');
        }
    }
    lemma_nothing_replaced(start, from, encoder);
    lemma_nothing_replaced(name, from, encoder);
    lemma_nothing_replaced(open, from, encoder);
    lemma_nothing_replaced(close, from, encoder);
    let out = with_replaced(before + command, from, encoder);
    let head = with_replaced(before, from, encoder);
    let tail = with_replaced(rest, from, encoder);
    let wanted = named_encoder(name, encoder);
    assert(out =~= head + wanted + tail);
    lemma_text_has_itself(wanted);
    lemma_text_stays(head, wanted, tail, wanted);
}

proof fn lemma_parted(before: Seq<char>, after: Seq<char>, encoder: Seq<char>)
    requires
        after.len() > 0,
        after[0] == 'm' || after[0] == 't' || after[0] == ' ',
    ensures
        with_replaced(before + after, "{FFMPEG_PATH}"@, encoder) == with_replaced(
            before,
            "{FFMPEG_PATH}"@,
            encoder,
        ) + with_replaced(after, "{FFMPEG_PATH}"@, encoder),
{
    let from = "{FFMPEG_PATH}"@;
    reveal_strlit("{FFMPEG_PATH}");
    let all = before + after;
    assert forall|i: int| 0 <= i < before.len() && before.len() < i + from.len() implies
        !#[trigger] occurs_at(all, from, i) by {
        if occurs_at(all, from, i) {
            let at = before.len() - i;
            assert(all.subrange(i, i + from.len())[at] == all[before.len() as int]);
            assert(from[at] == after[0]);
        }
    }
    lemma_replaced_apart(before, after, from, encoder);
}

/// The start of a command that registers an encoder under a name.
pub open spec fn named_encoder(name: Seq<char>, encoder: Seq<char>) -> Seq<char> {
    "mirv_streams settings add ffmpegEx "@ + name + " \"{QUOTE}"@ + encoder + "{QUOTE}"@
}

proof fn lemma_mp4_line(settings: AppSettings) -> (tail: Seq<char>)
    requires
        mp4_encoding(settings) matches Ok(Some(encoding)) && encoding.custom_hlae_preset,
    ensures
        line_of(mp4_command(settings)) == encoder_head("tf2FragMp4"@) + tail,
{
    let own = encoder_head("tf2FragMp4"@);
    let line = line_of(mp4_command(settings));
    let tail = line.skip(own.len() as int);
    assert(line =~= own + tail);
    tail
}

proof fn lemma_avi_line(settings: AppSettings) -> (tail: Seq<char>)
    requires
        avi_encoding(settings) matches Ok(Some(encoding)) && encoding.custom_hlae_preset,
    ensures
        line_of(avi_command(settings)) == encoder_head("tf2FragAvi"@) + tail,
{
    let own = encoder_head("tf2FragAvi"@);
    let line = line_of(avi_command(settings));
    let tail = line.skip(own.len() as int);
    assert(line =~= own + tail);
    tail
}

proof fn lemma_dnxhr_line(settings: AppSettings) -> (tail: Seq<char>)
    requires
        dnxhr_encoding(settings) matches Ok(Some(encoding)),
    ensures
        line_of(dnxhr_command(settings)) == encoder_head("tf2FragDnxhr"@) + tail,
{
    let own = encoder_head("tf2FragDnxhr"@);
    let line = line_of(dnxhr_command(settings));
    let tail = line.skip(own.len() as int);
    assert(line =~= own + tail);
    tail
}

proof fn lemma_own_preset(settings: AppSettings)
    requires
        settings.encoding_is_normal(),
        begins_with(stream_preset(settings), "tf2Frag"@),
    ensures
        ({
            let name = stream_preset(settings);
            ||| name == "tf2FragMp4"@ && (mp4_encoding(settings) matches Ok(Some(encoding))
                && encoding.custom_hlae_preset)
            ||| name == "tf2FragAvi"@ && (avi_encoding(settings) matches Ok(Some(encoding))
                && encoding.custom_hlae_preset)
            ||| name == "tf2FragDnxhr"@ && dnxhr_encoding(settings) matches Ok(Some(encoding))
        }),
{
    law_normal_encoding_is_accepted(settings);
    reveal_strlit("tf2Frag");
    reveal_strlit("afxFfmpeg");
    reveal_strlit("afxFfmpegRaw");
    reveal_strlit("afxFfmpegLosslessBest");
    let name = stream_preset(settings);
    assert(name[0] == 't') by {
        assert(name.subrange(0, "tf2Frag"@.len() as int)[0] == name[0]);
    }
}

/// Whatever encoding of its own a clip is recorded with, the profile registers it,
/// with the encoder that the settings name.
pub proof fn law_every_own_encoding_is_registered(settings: AppSettings)
    requires
        settings.encoding_is_normal(),
        begins_with(stream_preset(settings), "tf2Frag"@),
    ensures
        has_text(
            with_replaced(
                profile_lines(settings),
                "{FFMPEG_PATH}"@,
                settings.ffmpeg_executable@,
            ),
            named_encoder(stream_preset(settings), settings.ffmpeg_executable@),
        ),
{
    lemma_own_preset(settings);
    let name = stream_preset(settings);
    let encoder = settings.ffmpeg_executable@;
    let head = basic_lines(settings) + viewmodel_lines(settings.viewmodels@) + given(
        settings.disable_crosshair_switching,
        crosshair_lines(),
    ) + given(settings.maximum_graphics, graphics_lines()) + closing_lines();
    let mp4 = line_of(mp4_command(settings));
    let avi = line_of(avi_command(settings));
    let dnxhr = line_of(dnxhr_command(settings));
    let all = profile_lines(settings);
    assert(all == head + mp4 + avi + dnxhr);
    lemma_profile_registers(settings, name, encoder, all, head, mp4, avi, dnxhr);
}

proof fn lemma_profile_registers(
    settings: AppSettings,
    name: Seq<char>,
    encoder: Seq<char>,
    all: Seq<char>,
    head: Seq<char>,
    mp4: Seq<char>,
    avi: Seq<char>,
    dnxhr: Seq<char>,
)
    requires
        all == head + mp4 + avi + dnxhr,
        mp4 == line_of(mp4_command(settings)),
        avi == line_of(avi_command(settings)),
        dnxhr == line_of(dnxhr_command(settings)),
        ({
            ||| name == "tf2FragMp4"@ && (mp4_encoding(settings) matches Ok(Some(encoding))
                && encoding.custom_hlae_preset)
            ||| name == "tf2FragAvi"@ && (avi_encoding(settings) matches Ok(Some(encoding))
                && encoding.custom_hlae_preset)
            ||| name == "tf2FragDnxhr"@ && dnxhr_encoding(settings) matches Ok(Some(encoding))
        }),
    ensures
        has_text(
            with_replaced(all, "{FFMPEG_PATH}"@, encoder),
            named_encoder(name, encoder),
        ),
{
    let own = encoder_head(name);
    if name == "tf2FragMp4"@ && (mp4_encoding(settings) matches Ok(Some(encoding))
        && encoding.custom_hlae_preset) {
        let tail = lemma_mp4_line(settings);
        assert(all =~= head + own + (tail + avi + dnxhr));
        lemma_encoder_named(head, name, tail + avi + dnxhr, encoder);
    } else if name == "tf2FragAvi"@ && (avi_encoding(settings) matches Ok(Some(encoding))
        && encoding.custom_hlae_preset) {
        let tail = lemma_avi_line(settings);
        assert(all =~= (head + mp4) + own + (tail + dnxhr));
        lemma_encoder_named(head + mp4, name, tail + dnxhr, encoder);
    } else {
        let tail = lemma_dnxhr_line(settings);
        assert(all =~= (head + mp4 + avi) + own + tail);
        lemma_encoder_named(head + mp4 + avi, name, tail, encoder);
    }
}

/// What takes the game to a kill.
pub open spec fn jump_to(tick: i64) -> Seq<char> {
    " \"demo_gototick "@ + int_text(tick as int) + ";"@
}

proof fn lemma_jumps(ticks: Seq<i64>, upto: int, at: int)
    requires
        0 <= at < upto <= ticks.len(),
    ensures
        has_text(kill_lines(ticks, upto), jump_to(ticks[at])),
    decreases upto,
{
    let tick = int_text(ticks[upto - 1] as int);
    let next = if upto == ticks.len() {
        1
    } else {
        upto + 1
    };
    let before = kill_lines(ticks, upto - 1) + "alias tf2frag_manual_kill_"@ + int_text(upto);
    let jump = jump_to(ticks[upto - 1]);
    reveal_strlit("; alias tf2frag_manual_next_kill tf2frag_manual_kill_");
    reveal_strlit(";");
    let all = kill_lines(ticks, upto);
    assert(all =~= before + jump + all.skip((before.len() + jump.len()) as int));
    if at == upto - 1 {
        lemma_text_has_itself(jump);
        lemma_text_stays(before, jump, all.skip((before.len() + jump.len()) as int), jump);
    } else {
        let earlier = kill_lines(ticks, upto - 1);
        lemma_jumps(ticks, upto - 1, at);
        let after = all.skip(earlier.len() as int);
        assert(all =~= Seq::<char>::empty() + earlier + after);
        lemma_text_stays(Seq::empty(), earlier, after, jump_to(ticks[at]));
    }
}

/// The keys of a manual session lead to every tick with a kill.
pub proof fn law_every_kill_is_reached(
    ticks: Seq<i64>,
    kills: Seq<i64>,
    target: i64,
    keys: Seq<Seq<char>>,
    demo: Seq<char>,
    kill: int,
)
    requires
        stops(ticks, kills, target),
        0 <= kill < kills.len(),
    ensures
        has_text(hotkey_lines(ticks, keys, demo, target as int), jump_to(kills[kill])),
{
    assert(kills.to_set().contains(kills[kill]));
    assert(ticks.to_set().contains(kills[kill]));
    let at = choose|at: int| 0 <= at < ticks.len() && ticks[at] == kills[kill];
    lemma_jumps(ticks, ticks.len() as int, at);
    lemma_text_stays(
        key_head(keys, demo, target as int),
        kill_lines(ticks, ticks.len() as int),
        key_binds(keys),
        jump_to(kills[kill]),
    );
}

proof fn lemma_ends_longer(text: Seq<char>, more: Seq<char>)
    ensures
        forall|needle: Seq<char>|
            has_text(text, needle) ==> #[trigger] has_text(text + more, needle),
{
    assert forall|needle: Seq<char>| has_text(text, needle) implies #[trigger] has_text(
        text + more,
        needle,
    ) by {
        lemma_text_stays(Seq::empty(), text, more, needle);
        assert(Seq::<char>::empty() + text + more =~= text + more);
    }
}

proof fn lemma_pair_stands(text: Seq<char>, name: Seq<char>, value: Seq<char>)
    ensures
        has_text(text + name + value, name + value),
{
    let pair = name + value;
    let all = text + name + value;
    assert(all.subrange(text.len() as int, (text.len() + pair.len()) as int) =~= pair);
    assert(occurs_at(all, pair, text.len() as int));
}

/// What is switched on and off in the settings is switched so in the game.
#[verifier::rlimit(60)]
#[verifier::spinoff_prover]
pub proof fn law_switches_reach_the_game(settings: AppSettings)
    ensures
        has_text(
            basic_lines(settings),
            "\nviewmodel_fov_demo "@ + nat_text(settings.viewmodel_fov as nat),
        ),
        settings.disable_combat_text ==> has_text(
            basic_lines(settings),
            "\nhud_combattext "@ + "0"@,
        ),
        !settings.disable_combat_text ==> has_text(
            basic_lines(settings),
            "\nhud_combattext "@ + "1"@,
        ),
        settings.disable_hit_sounds ==> has_text(
            basic_lines(settings),
            "\ntf_dingalingaling "@ + "0"@,
        ),
        !settings.disable_hit_sounds ==> has_text(
            basic_lines(settings),
            "\ntf_dingalingaling "@ + "1"@,
        ),
        settings.disable_voice_chat ==> has_text(
            basic_lines(settings),
            "\nvoice_enable "@ + "0"@,
        ),
        !settings.disable_voice_chat ==> has_text(
            basic_lines(settings),
            "\nvoice_enable "@ + "1"@,
        ),
        settings.minimal_hud ==> has_text(basic_lines(settings), "\ncl_hud_minmode "@ + "1"@),
        !settings.minimal_hud ==> has_text(basic_lines(settings), "\ncl_hud_minmode "@ + "0"@),
        settings.hud_player_model ==> has_text(
            basic_lines(settings),
            "\ncl_hud_playerclass_use_playermodel "@ + "1"@,
        ),
        !settings.hud_player_model ==> has_text(
            basic_lines(settings),
            "\ncl_hud_playerclass_use_playermodel "@ + "0"@,
        ),
        settings.disable_crosshair ==> has_text(basic_lines(settings), "\ncrosshair "@ + "0"@),
        !settings.disable_crosshair ==> has_text(basic_lines(settings), "\ncrosshair "@ + "1"@),
        settings.motion_blur ==> has_text(
            basic_lines(settings),
            "\nmat_motion_blur_strength "@ + "1"@,
        ),
        !settings.motion_blur ==> has_text(
            basic_lines(settings),
            "\nmat_motion_blur_strength "@ + "0"@,
        ),
{
    reveal(basic_lines);
    let blur = bit(settings.motion_blur);
    let a1 =
        "// Generated by TF2 Frag Demo Helper (Rust)\nsv_lan 1\nsv_master_legacy_mode 1\nsv_cheats 1\nfps_max 0\nmat_motion_blur_enabled "@
        + blur;
    let a2 = a1 + "\nmat_motion_blur_forward_enabled "@ + blur;
    let a3 = a2 + "\nmat_motion_blur_strength "@ + blur;
    let a4 = a3 + "\nviewmodel_fov_demo "@ + nat_text(settings.viewmodel_fov as nat);
    let a5 = a4 + "\nhud_combattext "@ + bit(!settings.disable_combat_text);
    let a6 = a5 + "\nhud_combattext_healing "@ + bit(!settings.disable_combat_text);
    let a7 = a6 + "\ntf_dingalingaling "@ + bit(!settings.disable_hit_sounds);
    let a8 = a7 + "\ntf_dingalingaling_lasthit "@ + bit(!settings.disable_hit_sounds);
    let a9 = a8 + "\nvoice_enable "@ + bit(!settings.disable_voice_chat);
    let a10 = a9 + "\ncl_hud_minmode "@ + bit(settings.minimal_hud);
    let a11 = a10 + "\ncl_hud_playerclass_use_playermodel "@ + bit(settings.hud_player_model);
    let a12 = a11 + "\ncrosshair "@ + bit(!settings.disable_crosshair);
    lemma_pair_stands(a2, "\nmat_motion_blur_strength "@, blur);
    lemma_pair_stands(a3, "\nviewmodel_fov_demo "@, nat_text(settings.viewmodel_fov as nat));
    lemma_pair_stands(a4, "\nhud_combattext "@, bit(!settings.disable_combat_text));
    lemma_pair_stands(a6, "\ntf_dingalingaling "@, bit(!settings.disable_hit_sounds));
    lemma_pair_stands(a8, "\nvoice_enable "@, bit(!settings.disable_voice_chat));
    lemma_pair_stands(a9, "\ncl_hud_minmode "@, bit(settings.minimal_hud));
    lemma_pair_stands(
        a10,
        "\ncl_hud_playerclass_use_playermodel "@,
        bit(settings.hud_player_model),
    );
    lemma_pair_stands(a11, "\ncrosshair "@, bit(!settings.disable_crosshair));
    lemma_ends_longer(a3, "\nviewmodel_fov_demo "@);
    lemma_ends_longer(
        a3 + "\nviewmodel_fov_demo "@,
        nat_text(settings.viewmodel_fov as nat),
    );
    lemma_ends_longer(a4, "\nhud_combattext "@);
    lemma_ends_longer(a4 + "\nhud_combattext "@, bit(!settings.disable_combat_text));
    lemma_ends_longer(a5, "\nhud_combattext_healing "@);
    lemma_ends_longer(a5 + "\nhud_combattext_healing "@, bit(!settings.disable_combat_text));
    lemma_ends_longer(a6, "\ntf_dingalingaling "@);
    lemma_ends_longer(a6 + "\ntf_dingalingaling "@, bit(!settings.disable_hit_sounds));
    lemma_ends_longer(a7, "\ntf_dingalingaling_lasthit "@);
    lemma_ends_longer(a7 + "\ntf_dingalingaling_lasthit "@, bit(!settings.disable_hit_sounds));
    lemma_ends_longer(a8, "\nvoice_enable "@);
    lemma_ends_longer(a8 + "\nvoice_enable "@, bit(!settings.disable_voice_chat));
    lemma_ends_longer(a9, "\ncl_hud_minmode "@);
    lemma_ends_longer(a9 + "\ncl_hud_minmode "@, bit(settings.minimal_hud));
    lemma_ends_longer(a10, "\ncl_hud_playerclass_use_playermodel "@);
    lemma_ends_longer(
        a10 + "\ncl_hud_playerclass_use_playermodel "@,
        bit(settings.hud_player_model),
    );
    lemma_ends_longer(a11, "\ncrosshair "@);
    lemma_ends_longer(a11 + "\ncrosshair "@, bit(!settings.disable_crosshair));
    lemma_ends_longer(a12, "\n"@);
    assert(basic_lines(settings) == a12 + "\n"@);
}

/// View models are drawn or not as they are set, and a movie is ended in the way in which it
/// was begun.
pub proof fn law_view_models_and_movies_are_set(viewmodels: Seq<char>, format: Seq<char>)
    ensures
        same_fold(viewmodels, "On"@) ==> viewmodel_lines(viewmodels) == "r_drawviewmodel 1\n"@,
        same_fold(viewmodels, "Off"@) ==> viewmodel_lines(viewmodels) == "r_drawviewmodel 0\n"@,
        has_text(format, "Image"@) ==> stop_command(format) == "endmovie"@,
        !has_text(format, "Image"@) ==> stop_command(format) == "mirv_streams record end"@,
{
    reveal_strlit("On");
    reveal_strlit("Off");
    assert("On"@.len() == 2 && "Off"@.len() == 3);
    assert(lower("On"@).len() == 2 && lower("Off"@).len() == 3);
}

} // verus!
