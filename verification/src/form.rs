//! What is entered and chosen in the window: settings, demos and where things are
//! looked for.
use vstd::prelude::*;
use crate::arrange::{arrange, in_order, Ranked};
use crate::number::{int_text, law_written_numbers_read_back, nat_of, parse_u32, u64_text};
use crate::order::{lemma_lex_irreflexive, lemma_lex_total, lemma_lex_transitive, lex_less};
use crate::queue::{path_before, path_less, same_path};
use crate::scheduler::clamped;
use crate::settings::AppSettings;
use crate::text::{
    lemma_views_push, pieces, same_fold, same_ignoring_case, same_text, split, trim, trimmed, views,
};

verus! {

// ---------------------------------------------------------------------------
// Settings
// ---------------------------------------------------------------------------

/// The number that a text holds, or another where it holds none.
pub open spec fn number_or(text: Seq<char>, other: int) -> int {
    match nat_of(text) {
        Some(n) => if n <= u32::MAX {
            n as int
        } else {
            other
        },
        None => other,
    }
}

fn read_or(text: &str, other: u32) -> (out: u32)
    ensures
        out == number_or(text@, other as int),
{
    match parse_u32(text) {
        Some(n) => n,
        None => other,
    }
}

fn clamp_number(n: i32, low: i32, high: i32) -> (out: i32)
    requires
        low <= high,
    ensures
        out == clamped(n as int, low as int, high as int),
{
    if n < low {
        low
    } else if n > high {
        high
    } else {
        n
    }
}

/// The pieces of a list that hold anything, without the space around them.
pub open spec fn kept_pieces(list: Seq<Seq<char>>) -> Seq<Seq<char>>
    decreases list.len(),
{
    if list.len() == 0 {
        Seq::empty()
    } else {
        let before = kept_pieces(list.drop_last());
        let piece = trimmed(list.last());
        if piece.len() > 0 {
            before.push(piece)
        } else {
            before
        }
    }
}

/// The paths of a text with semicolons between them.
pub open spec fn listed_paths(text: Seq<char>) -> Seq<Seq<char>> {
    kept_pieces(pieces(text, ';'))
}

/// The paths of a text with semicolons between them.
pub fn split_paths(value: &str) -> (out: Vec<String>)
    ensures
        views(out@) == listed_paths(value@),
{
    broadcast use lemma_views_push;

    let list = split(value, ';');
    let ghost all = views(list@);
    let mut out: Vec<String> = Vec::new();
    let mut i: usize = 0;
    assert(all.take(0) =~= Seq::empty());
    assert(views(out@) =~= Seq::empty());
    while i < list.len()
        invariant
            i <= list.len(),
            all == views(list@),
            views(out@) == kept_pieces(all.take(i as int)),
        decreases list.len() - i,
    {
        proof {
            assert(all.take(i + 1).drop_last() =~= all.take(i as int));
            assert(all.take(i + 1).last() == list@[i as int]@);
        }
        let piece = trim(list[i].as_str());
        if !piece.as_str().is_empty() {
            out.push(piece);
        }
        i += 1;
    }
    assert(all.take(list.len() as int) =~= all);
    out
}

/// The recording settings as they are entered.
#[derive(Debug)]
pub struct RecordingForm {
    pub tf2_executable: String,
    pub hlae_executable: String,
    pub ffmpeg_executable: String,
    pub recording_output_directory: String,
    pub recording_format: String,
    pub mp4_compatibility: String,
    pub mp4_video_codec: String,
    pub mp4_pixel_format: String,
    pub mp4_h264_profile: String,
    pub mp4_encoder_preset: String,
    pub mp4_audio_codec: String,
    pub avi_video_codec: String,
    pub avi_pixel_format: String,
    pub dnxhr_profile: String,
    pub performance_profile: String,
    pub resolution: String,
    pub dx_level: String,
    pub skybox: String,
    pub hud: String,
    pub viewmodels: String,
    pub lead_seconds: i32,
    pub outro_seconds: i32,
    pub jpg_quality: i32,
    pub mp4_crf: i32,
    pub viewmodel_fov: i32,
    pub capture_fps: String,
    pub mp4_audio_bitrate_kbps: String,
    pub maximum_graphics: bool,
    pub motion_blur: bool,
    pub disable_hit_sounds: bool,
    pub disable_voice_chat: bool,
    pub minimal_hud: bool,
    pub disable_combat_text: bool,
    pub disable_crosshair: bool,
    pub disable_crosshair_switching: bool,
    pub hud_player_model: bool,
    pub isolate_custom_resources: bool,
    pub disable_announcer_voices: bool,
    pub disable_applause_sounds: bool,
    pub disable_domination_sounds: bool,
    /// Paths, with a semicolon between them.
    pub custom_resources: String,
}

/// Whether settings are those that a form holds, and otherwise as before.
pub open spec fn is_filled(after: AppSettings, before: AppSettings, form: RecordingForm) -> bool {
    &&& after.output_directory == before.output_directory
    &&& after.item_schema == before.item_schema
    &&& after.manual_hlae_launch_options == before.manual_hlae_launch_options
    &&& after.mirv_shortcuts == before.mirv_shortcuts
    &&& after.tf2_executable == form.tf2_executable
    &&& after.hlae_executable == form.hlae_executable
    &&& after.ffmpeg_executable == form.ffmpeg_executable
    &&& after.recording_output_directory == form.recording_output_directory
    &&& after.recording_format == form.recording_format
    &&& after.mp4_compatibility == form.mp4_compatibility
    &&& after.mp4_video_codec == form.mp4_video_codec
    &&& after.mp4_pixel_format == form.mp4_pixel_format
    &&& after.mp4_h264_profile == form.mp4_h264_profile
    &&& after.mp4_encoder_preset == form.mp4_encoder_preset
    &&& after.mp4_audio_codec == form.mp4_audio_codec
    &&& after.avi_video_codec == form.avi_video_codec
    &&& after.avi_pixel_format == form.avi_pixel_format
    &&& after.dnxhr_profile == form.dnxhr_profile
    &&& after.performance_profile == form.performance_profile
    &&& after.resolution == form.resolution
    &&& after.dx_level == form.dx_level
    &&& after.skybox == form.skybox
    &&& after.hud == form.hud
    &&& after.viewmodels == form.viewmodels
    &&& after.maximum_graphics == form.maximum_graphics
    &&& after.motion_blur == form.motion_blur
    &&& after.disable_hit_sounds == form.disable_hit_sounds
    &&& after.disable_voice_chat == form.disable_voice_chat
    &&& after.minimal_hud == form.minimal_hud
    &&& after.disable_combat_text == form.disable_combat_text
    &&& after.disable_crosshair == form.disable_crosshair
    &&& after.disable_crosshair_switching == form.disable_crosshair_switching
    &&& after.hud_player_model == form.hud_player_model
    &&& after.isolate_custom_resources == form.isolate_custom_resources
    &&& after.disable_announcer_voices == form.disable_announcer_voices
    &&& after.disable_applause_sounds == form.disable_applause_sounds
    &&& after.disable_domination_sounds == form.disable_domination_sounds
    &&& after.lead_seconds == clamped(form.lead_seconds as int, 0, 60)
    &&& after.outro_seconds == clamped(form.outro_seconds as int, 0, 60)
    &&& after.jpg_quality == clamped(form.jpg_quality as int, 1, 100)
    &&& after.mp4_crf == clamped(form.mp4_crf as int, 0, 35)
    &&& after.viewmodel_fov == clamped(form.viewmodel_fov as int, 1, 179)
    &&& after.capture_fps == number_or(form.capture_fps@, 120)
    &&& after.mp4_audio_bitrate_kbps == number_or(form.mp4_audio_bitrate_kbps@, 192)
    &&& views(after.custom_resources@) == listed_paths(form.custom_resources@)
}

/// Takes settings over from a form, each in the range that is offered.
pub fn sync_settings(settings: &mut AppSettings, form: RecordingForm)
    ensures
        exists|filled: AppSettings, encoded: AppSettings|
            is_filled(filled, *old(settings), form) && #[trigger] encoded.encoding_normalized_from(
                filled,
            ) && final(settings).recording_normalized_from(encoded),
{
    settings.lead_seconds = clamp_number(form.lead_seconds, 0, 60) as u32;
    settings.outro_seconds = clamp_number(form.outro_seconds, 0, 60) as u32;
    settings.jpg_quality = clamp_number(form.jpg_quality, 1, 100) as u8;
    settings.mp4_crf = clamp_number(form.mp4_crf, 0, 35) as u8;
    settings.viewmodel_fov = clamp_number(form.viewmodel_fov, 1, 179) as u32;
    settings.capture_fps = read_or(form.capture_fps.as_str(), 120);
    settings.mp4_audio_bitrate_kbps = read_or(form.mp4_audio_bitrate_kbps.as_str(), 192);
    settings.custom_resources = split_paths(form.custom_resources.as_str());
    settings.tf2_executable = form.tf2_executable;
    settings.hlae_executable = form.hlae_executable;
    settings.ffmpeg_executable = form.ffmpeg_executable;
    settings.recording_output_directory = form.recording_output_directory;
    settings.recording_format = form.recording_format;
    settings.mp4_compatibility = form.mp4_compatibility;
    settings.mp4_video_codec = form.mp4_video_codec;
    settings.mp4_pixel_format = form.mp4_pixel_format;
    settings.mp4_h264_profile = form.mp4_h264_profile;
    settings.mp4_encoder_preset = form.mp4_encoder_preset;
    settings.mp4_audio_codec = form.mp4_audio_codec;
    settings.avi_video_codec = form.avi_video_codec;
    settings.avi_pixel_format = form.avi_pixel_format;
    settings.dnxhr_profile = form.dnxhr_profile;
    settings.performance_profile = form.performance_profile;
    settings.resolution = form.resolution;
    settings.dx_level = form.dx_level;
    settings.skybox = form.skybox;
    settings.hud = form.hud;
    settings.viewmodels = form.viewmodels;
    settings.maximum_graphics = form.maximum_graphics;
    settings.motion_blur = form.motion_blur;
    settings.disable_hit_sounds = form.disable_hit_sounds;
    settings.disable_voice_chat = form.disable_voice_chat;
    settings.minimal_hud = form.minimal_hud;
    settings.disable_combat_text = form.disable_combat_text;
    settings.disable_crosshair = form.disable_crosshair;
    settings.disable_crosshair_switching = form.disable_crosshair_switching;
    settings.hud_player_model = form.hud_player_model;
    settings.isolate_custom_resources = form.isolate_custom_resources;
    settings.disable_announcer_voices = form.disable_announcer_voices;
    settings.disable_applause_sounds = form.disable_applause_sounds;
    settings.disable_domination_sounds = form.disable_domination_sounds;
    let ghost filled = *settings;
    settings.normalize_encoding_options();
    let ghost encoded = *settings;
    settings.normalize_recording_options();
    assert(is_filled(filled, *old(settings), form));
    assert(encoded.encoding_normalized_from(filled));
}

/// What is told of a format.
pub open spec fn format_told(format: Seq<char>, compatibility: Seq<char>) -> Seq<char> {
    if format == "JPG Image Sequence"@ {
        "JPG Image Sequence → Image Sequences/<candidate>/Frames/frame00000.jpg… plus Audio/ (quality 100 is highest; 90 is default)."@
    } else if format == "TGA Image Sequence"@ {
        "TGA Image Sequence → Image Sequences/<candidate>/Frames/frame00000.tga… plus Audio/."@
    } else if format == "AVI - Raw"@ {
        "AVI → Videos/<candidate>.avi using the selected advanced Raw, FFV1, or HuffYUV codec with PCM audio."@
    } else if format == "MOV - DNxHR"@ {
        "DNxHR → Videos/<candidate>.mov using the selected LB/SQ/HQ/HQX/444 editing profile with PCM audio."@
    } else if format == "MP4 - Standard"@ && compatibility == "DaVinci Resolve / Universal"@ {
        "MP4 Standard (default) → H.264 High / yuv420p with AAC for DaVinci Resolve and common editors."@
    } else {
        "MP4 → Videos/<candidate>.mp4 with verified audio muxing (requires HLAE and FFmpeg)."@
    }
}

/// What is told of a format.
pub fn output_description(format: &str, compatibility: &str) -> (out: &'static str)
    ensures
        out@ == format_told(format@, compatibility@),
{
    if same_text(format, "JPG Image Sequence") {
        "JPG Image Sequence → Image Sequences/<candidate>/Frames/frame00000.jpg… plus Audio/ (quality 100 is highest; 90 is default)."
    } else if same_text(format, "TGA Image Sequence") {
        "TGA Image Sequence → Image Sequences/<candidate>/Frames/frame00000.tga… plus Audio/."
    } else if same_text(format, "AVI - Raw") {
        "AVI → Videos/<candidate>.avi using the selected advanced Raw, FFV1, or HuffYUV codec with PCM audio."
    } else if same_text(format, "MOV - DNxHR") {
        "DNxHR → Videos/<candidate>.mov using the selected LB/SQ/HQ/HQX/444 editing profile with PCM audio."
    } else if same_text(format, "MP4 - Standard") && same_text(
        compatibility,
        "DaVinci Resolve / Universal",
    ) {
        "MP4 Standard (default) → H.264 High / yuv420p with AAC for DaVinci Resolve and common editors."
    } else {
        "MP4 → Videos/<candidate>.mp4 with verified audio muxing (requires HLAE and FFmpeg)."
    }
}

// ---------------------------------------------------------------------------
// Demos
// ---------------------------------------------------------------------------

/// The path of a demo, in its parts.
#[derive(Debug)]
pub struct DemoPath {
    pub parts: Vec<String>,
}

proof fn lemma_path_irreflexive(a: Seq<Seq<char>>)
    ensures
        !path_less(a, a),
    decreases a.len(),
{
    if a.len() > 0 {
        lemma_path_irreflexive(a.skip(1));
    }
}

/// Of two different paths one comes before the other, and not both; and what comes
/// before a path that comes before another comes before that.
pub proof fn law_paths_are_ordered(a: Seq<Seq<char>>, b: Seq<Seq<char>>, c: Seq<Seq<char>>)
    ensures
        !path_less(a, a),
        !(path_less(a, b) && path_less(b, a)),
        path_less(a, b) || path_less(b, a) || a == b,
        path_less(a, b) && path_less(b, c) ==> path_less(a, c),
    decreases a.len() + b.len() + c.len(),
{
    lemma_path_irreflexive(a);
    if a.len() > 0 && b.len() > 0 {
        lemma_lex_total(a[0], b[0]);
        lemma_lex_irreflexive(a[0]);
        if lex_less(a[0], b[0]) && lex_less(b[0], a[0]) {
            lemma_lex_transitive(a[0], b[0], a[0]);
        }
        if a[0] == b[0] {
            law_paths_are_ordered(a.skip(1), b.skip(1), Seq::empty());
            if a.skip(1) == b.skip(1) {
                assert(a =~= seq![a[0]] + a.skip(1));
                assert(b =~= seq![b[0]] + b.skip(1));
            }
        }
        if c.len() > 0 && path_less(a, b) && path_less(b, c) {
            if a[0] == b[0] && b[0] == c[0] {
                law_paths_are_ordered(a.skip(1), b.skip(1), c.skip(1));
            } else if a[0] != b[0] && b[0] != c[0] {
                lemma_lex_transitive(a[0], b[0], c[0]);
                if a[0] == c[0] {
                    lemma_lex_irreflexive(a[0]);
                }
            }
        }
    }
    if a.len() == 0 && b.len() == 0 {
        assert(a =~= b);
    }
}

impl Ranked for DemoPath {
    open spec fn before(self, other: Self) -> bool {
        path_less(views(self.parts@), views(other.parts@))
    }

    proof fn before_orders(a: Self, b: Self, c: Self) {
        let x = views(a.parts@);
        let y = views(b.parts@);
        let z = views(c.parts@);
        law_paths_are_ordered(x, y, z);
        law_paths_are_ordered(y, z, x);
        law_paths_are_ordered(z, y, x);
        law_paths_are_ordered(x, z, y);
    }

    fn comes_before(&self, other: &Self) -> (r: bool) {
        path_before(&self.parts, &other.parts)
    }
}

/// Whether a path is one of some.
pub open spec fn has_path(demos: Seq<DemoPath>, path: Seq<Seq<char>>) -> bool {
    exists|i: int| 0 <= i < demos.len() && views((#[trigger] demos[i]).parts@) == path
}

/// Adds a demo to those that are chosen, where it is not there already, and puts
/// them in the order of their paths.
pub fn add_demo(demos: Vec<DemoPath>, added: DemoPath) -> (out: Vec<DemoPath>)
    ensures
        out@ == in_order(
            if has_path(demos@, views(added.parts@)) {
                demos@
            } else {
                demos@.push(added)
            },
        ),
{
    let mut list = demos;
    let mut found = false;
    let mut i: usize = 0;
    while i < list.len() && !found
        invariant
            i <= list.len(),
            found ==> has_path(list@, views(added.parts@)),
            !found ==> forall|k: int|
                0 <= k < i ==> views((#[trigger] list@[k]).parts@) != views(added.parts@),
        decreases list.len() - i,
    {
        found = same_path(&list[i].parts, &added.parts);
        assert(found ==> views(list@[i as int].parts@) == views(added.parts@));
        i += 1;
    }
    if !found {
        list.push(added);
    }
    arrange(list)
}

/// Whether a file can be added, by the extension of its name.
pub fn is_demo_file(extension: &Option<String>) -> (r: bool)
    ensures
        r == (extension matches Some(name) && same_fold(name@, "dem"@)),
{
    match extension {
        Some(name) => same_ignoring_case(name.as_str(), "dem"),
        None => false,
    }
}

/// What is told once demos were dropped.
pub fn dropped_status(demos: usize) -> (out: String)
    ensures
        out@ == "Loaded "@ + int_text(demos as int) + " dropped demo"@ + (if demos == 1 {
            Seq::empty()
        } else {
            "s"@
        }),
{
    let mut out = "Loaded ".to_owned();
    out.append(u64_text(demos as u64).as_str());
    out.append(" dropped demo");
    if demos != 1 {
        out.append("s");
    } else {
        assert(out@ + Seq::<char>::empty() =~= out@);
    }
    out
}

// ---------------------------------------------------------------------------
// Where programs and files are looked for
// ---------------------------------------------------------------------------

fn add_name(list: &mut Vec<String>, name: &str)
    ensures
        views(final(list)@) == views(old(list)@).push(name@),
{
    broadcast use lemma_views_push;

    list.push(name.to_owned());
}

/// Where the game is looked for under each folder above a demo.
pub open spec fn game_places() -> Seq<Seq<char>> {
    seq![
        "tf_win64.exe"@,
        "tf.exe"@,
        "win64/tf_win64.exe"@,
        "tf/win64/tf_win64.exe"@,
        "tf/tf.exe"@,
    ]
}

/// Where the game is looked for under each folder above a demo.
pub fn game_places_near_demo() -> (out: Vec<String>)
    ensures
        views(out@) == game_places(),
{
    let mut out: Vec<String> = Vec::new();
    add_name(&mut out, "tf_win64.exe");
    add_name(&mut out, "tf.exe");
    add_name(&mut out, "win64/tf_win64.exe");
    add_name(&mut out, "tf/win64/tf_win64.exe");
    add_name(&mut out, "tf/tf.exe");
    assert(views(out@) =~= game_places());
    out
}

/// Where the game is looked for under Steam's folder.
pub open spec fn steam_places(windows: bool) -> Seq<Seq<char>> {
    if windows {
        seq![
            "steamapps/common/Team Fortress 2/tf_win64.exe"@,
            "steamapps/common/Team Fortress 2/tf/win64/tf_win64.exe"@,
            "steamapps/common/Team Fortress 2/tf.exe"@,
            "steamapps/common/Team Fortress 2/tf/tf.exe"@,
        ]
    } else {
        seq![
            "steamapps/common/Team Fortress 2/tf_win64.exe"@,
            "steamapps/common/Team Fortress 2/tf/win64/tf_win64.exe"@,
            "steamapps/common/Team Fortress 2/tf_linux64"@,
            "steamapps/common/Team Fortress 2/tf_osx"@,
        ]
    }
}

/// Where the game is looked for under Steam's folder: that of a Windows machine, or
/// that in the user's home.
pub fn game_places_in_steam(windows: bool) -> (out: Vec<String>)
    ensures
        views(out@) == steam_places(windows),
{
    let mut out: Vec<String> = Vec::new();
    add_name(&mut out, "steamapps/common/Team Fortress 2/tf_win64.exe");
    add_name(&mut out, "steamapps/common/Team Fortress 2/tf/win64/tf_win64.exe");
    if windows {
        add_name(&mut out, "steamapps/common/Team Fortress 2/tf.exe");
        add_name(&mut out, "steamapps/common/Team Fortress 2/tf/tf.exe");
    } else {
        add_name(&mut out, "steamapps/common/Team Fortress 2/tf_linux64");
        add_name(&mut out, "steamapps/common/Team Fortress 2/tf_osx");
    }
    assert(views(out@) =~= steam_places(windows));
    out
}

/// Where the list of items is looked for under each folder above a demo or the game.
pub open spec fn schema_places() -> Seq<Seq<char>> {
    seq!["scripts/items/items_game.txt"@, "tf/scripts/items/items_game.txt"@]
}

/// Where the list of items is looked for under each folder above a demo or the game.
pub fn schema_places_near() -> (out: Vec<String>)
    ensures
        views(out@) == schema_places(),
{
    let mut out: Vec<String> = Vec::new();
    add_name(&mut out, "scripts/items/items_game.txt");
    add_name(&mut out, "tf/scripts/items/items_game.txt");
    assert(views(out@) =~= schema_places());
    out
}

/// Where a program is looked for under the folder of the running one.
pub open spec fn program_places(name: Seq<char>) -> Seq<Seq<char>> {
    seq![name, "HLAE/"@ + name, "ffmpeg/bin/"@ + name]
}

/// Where a program is looked for under the folder of the running one.
pub fn program_places_near(name: &str) -> (out: Vec<String>)
    ensures
        views(out@) == program_places(name@),
{
    let mut out: Vec<String> = Vec::new();
    add_name(&mut out, name);
    let mut beside = "HLAE/".to_owned();
    beside.append(name);
    add_name(&mut out, beside.as_str());
    let mut encoder = "ffmpeg/bin/".to_owned();
    encoder.append(name);
    add_name(&mut out, encoder.as_str());
    assert(views(out@) =~= program_places(name@));
    out
}

// ---------------------------------------------------------------------------
// The window
// ---------------------------------------------------------------------------

/// The room that a length leaves on another.
pub open spec fn margin(outer: int, inner: int) -> int {
    if outer > inner {
        outer - inner
    } else {
        0
    }
}

/// Where a window is put on a monitor: in the middle, with more room below it than
/// above.
pub fn window_position(
    monitor_position: (i32, i32),
    monitor_size: (u32, u32),
    window_size: (u32, u32),
) -> (out: (i32, i32))
    requires
        monitor_position.0 + margin(monitor_size.0 as int, window_size.0 as int) / 2 <= i32::MAX,
        monitor_position.1 + margin(monitor_size.1 as int, window_size.1 as int) / 4 <= i32::MAX,
    ensures
        out.0 == monitor_position.0 + margin(monitor_size.0 as int, window_size.0 as int) / 2,
        out.1 == monitor_position.1 + margin(monitor_size.1 as int, window_size.1 as int) / 4,
{
    let horizontal: u32 = if monitor_size.0 > window_size.0 {
        monitor_size.0 - window_size.0
    } else {
        0
    };
    let vertical: u32 = if monitor_size.1 > window_size.1 {
        monitor_size.1 - window_size.1
    } else {
        0
    };
    (monitor_position.0 + (horizontal / 2) as i32, monitor_position.1 + (vertical / 4) as i32)
}

/// The title bar of a window is never off the monitor.
pub proof fn law_window_is_on_the_monitor(position: int, outer: int, inner: int)
    requires
        0 <= inner,
        0 <= outer,
    ensures
        position <= position + margin(outer, inner) / 4 <= position + margin(outer, inner) / 2,
        inner <= outer ==> position + margin(outer, inner) / 2 + inner <= position + outer,
{
}

/// Whether a window is too small for all settings at once.
pub fn uses_accordion(width: u32, height: u32) -> (r: bool)
    ensures
        r == (width <= 940 && height < 680),
{
    width <= 940 && height < 680
}

/// What is told of the size of the window.
pub fn window_told(width: u32, height: u32) -> (out: String)
    ensures
        out@ == "WINDOW "@ + int_text(width as int) + " x "@ + int_text(height as int),
{
    let mut out = "WINDOW ".to_owned();
    out.append(u64_text(width as u64).as_str());
    out.append(" x ");
    out.append(u64_text(height as u64).as_str());
    out
}

/// A number that is entered is taken where it fits; what is no number leaves the other.
pub proof fn law_entered_numbers_are_taken(n: nat, other: int)
    ensures
        n <= u32::MAX ==> number_or(int_text(n as int), other) == n,
        n > u32::MAX ==> number_or(int_text(n as int), other) == other,
        number_or(Seq::empty(), other) == other,
{
    law_written_numbers_read_back(n as int);
}

/// What is entered within its range is kept as it is, and everything else is brought into
/// it.
pub proof fn law_entered_values_stay_in_range(
    after: AppSettings,
    before: AppSettings,
    form: RecordingForm,
)
    requires
        is_filled(after, before, form),
    ensures
        after.lead_seconds <= 60 && after.outro_seconds <= 60,
        1 <= after.jpg_quality <= 100,
        after.mp4_crf <= 35,
        1 <= after.viewmodel_fov <= 179,
        0 <= form.lead_seconds <= 60 ==> after.lead_seconds == form.lead_seconds,
        0 <= form.outro_seconds <= 60 ==> after.outro_seconds == form.outro_seconds,
        1 <= form.jpg_quality <= 100 ==> after.jpg_quality == form.jpg_quality,
        0 <= form.mp4_crf <= 35 ==> after.mp4_crf == form.mp4_crf,
        1 <= form.viewmodel_fov <= 179 ==> after.viewmodel_fov == form.viewmodel_fov,
        form.lead_seconds > 60 ==> after.lead_seconds == 60,
        form.outro_seconds > 60 ==> after.outro_seconds == 60,
        nat_of(form.capture_fps@) is None ==> after.capture_fps == 120,
        nat_of(form.mp4_audio_bitrate_kbps@) is None ==> after.mp4_audio_bitrate_kbps == 192,
{
}

proof fn lemma_kept_pieces(list: Seq<Seq<char>>, k: int)
    requires
        0 <= k < kept_pieces(list).len(),
    ensures
        kept_pieces(list)[k].len() > 0,
        exists|i: int|
            #![trigger list[i]]
            0 <= i < list.len() && kept_pieces(list)[k] == trimmed(list[i]),
    decreases list.len(),
{
    let rest = list.drop_last();
    let before = kept_pieces(rest);
    if k < before.len() {
        lemma_kept_pieces(rest, k);
        let i = choose|i: int|
            #![trigger rest[i]]
            0 <= i < rest.len() && kept_pieces(rest)[k] == trimmed(rest[i]);
        assert(list[i] == rest[i]);
    } else {
        assert(list[list.len() - 1] == list.last());
    }
}

proof fn lemma_piece_kept(list: Seq<Seq<char>>, i: int)
    requires
        0 <= i < list.len(),
        trimmed(list[i]).len() > 0,
    ensures
        kept_pieces(list).contains(trimmed(list[i])),
    decreases list.len(),
{
    let rest = list.drop_last();
    let before = kept_pieces(rest);
    if i < rest.len() {
        assert(rest[i] == list[i]);
        lemma_piece_kept(rest, i);
        let k = choose|k: int| 0 <= k < before.len() && before[k] == trimmed(list[i]);
        assert(kept_pieces(list)[k] == trimmed(list[i]));
    } else {
        assert(kept_pieces(list)[before.len() as int] == trimmed(list[i]));
    }
}

/// Paths are listed between semicolons, without space around them, and nothing is listed
/// for nothing.
pub proof fn law_paths_are_listed(text: Seq<char>, k: int, i: int)
    requires
        0 <= k < listed_paths(text).len(),
        0 <= i < pieces(text, ';').len(),
    ensures
        listed_paths(text)[k].len() > 0,
        exists|j: int|
            #![trigger pieces(text, ';')[j]]
            0 <= j < pieces(text, ';').len() && listed_paths(text)[k] == trimmed(
                pieces(text, ';')[j],
            ),
        trimmed(pieces(text, ';')[i]).len() > 0 ==> listed_paths(text).contains(
            trimmed(pieces(text, ';')[i]),
        ),
{
    lemma_kept_pieces(pieces(text, ';'), k);
    if trimmed(pieces(text, ';')[i]).len() > 0 {
        lemma_piece_kept(pieces(text, ';'), i);
    }
}

} // verus!
