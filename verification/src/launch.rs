//! Starting the game: what must be there, what the programs are told, and what
//! the files are called.
use vstd::prelude::*;
use crate::clips::{parse_resolution, resolution_of, sanitize, sanitized};
use crate::director::{camera_path, camera_path_file};
use crate::encoding::{
    avi_encoding, dnxhr_encoding, effective_avi_encoding, effective_dnxhr_encoding,
    effective_mp4_encoding, hlae_custom_avi_preset_command, hlae_custom_dnxhr_preset_command,
    hlae_custom_mp4_preset_command, mp4_encoding, optional,
};
use crate::number::{i64_text, int_text, u64_text};
use crate::prepare::{below, path_below};
use crate::scripts::{offline_cfg, offline_lines};
use crate::settings::AppSettings;
use crate::text::{
    begins_with, contains_text, has_text, join, joined, lower, occurs_at, replace_chars, replaced,
    same_fold, same_ignoring_case, same_text, split_words, starts_with, to_lower, trim, trimmed,
    views, words,
};
use crate::vdm::{three_digit_text, three_digits};

verus! {

// ---------------------------------------------------------------------------
// Programs
// ---------------------------------------------------------------------------

/// A program that was chosen.
#[derive(Debug)]
pub struct Program {
    pub is_there: bool,
    pub path: String,
    /// The name of its file.
    pub name: Option<String>,
}

/// The name of the file of a program; nothing where it has none.
pub open spec fn program_name(program: Program) -> Seq<char> {
    match program.name {
        Some(name) => name@,
        None => Seq::empty(),
    }
}

/// Whether a name is one of those that are expected, without regard to case.
pub open spec fn is_expected(name: Seq<char>, expected: Seq<Seq<char>>) -> bool {
    exists|i: int| 0 <= i < expected.len() && same_fold(name, #[trigger] expected[i])
}

/// What is wrong with the name of a program.
pub open spec fn name_fault(program: Program, expected: Seq<Seq<char>>, label: Seq<char>) -> Option<
    Seq<char>,
> {
    if is_expected(program_name(program), expected) {
        None
    } else {
        Some(
            label + " executable must be "@ + joined(expected, " or "@) + "; selected "@
                + program.path@,
        )
    }
}

/// What is wrong with the name of a program.
pub fn validate_named_executable(program: &Program, expected: &Vec<String>, label: &str) -> (out:
    Option<String>)
    ensures
        optional(out) == name_fault(*program, views(expected@), label@),
{
    let ghost wanted = views(expected@);
    let name = match &program.name {
        Some(name) => name.clone(),
        None => {
            let name = String::new();
            assert(name@ =~= Seq::empty());
            name
        },
    };
    let mut i: usize = 0;
    while i < expected.len()
        invariant
            i <= expected.len(),
            wanted == views(expected@),
            name@ == program_name(*program),
            forall|k: int| 0 <= k < i ==> !same_fold(name@, #[trigger] wanted[k]),
        decreases expected.len() - i,
    {
        assert(wanted[i as int] == expected@[i as int]@);
        if same_ignoring_case(name.as_str(), expected[i].as_str()) {
            return None;
        }
        i += 1;
    }
    let mut out = label.to_owned();
    out.append(" executable must be ");
    out.append(join(expected, " or ").as_str());
    out.append("; selected ");
    out.append(program.path.as_str());
    Some(out)
}

/// The names that the game has.
pub open spec fn tf2_names() -> Seq<Seq<char>> {
    seq!["tf_win64.exe"@, "tf.exe"@]
}

/// What is wrong with the program of the game.
pub fn validate_tf2_executable(program: &Program) -> (out: Option<String>)
    ensures
        optional(out) == name_fault(*program, tf2_names(), "TF2"@),
{
    let mut names: Vec<String> = Vec::new();
    names.push("tf_win64.exe".to_owned());
    names.push("tf.exe".to_owned());
    assert(views(names@) =~= tf2_names());
    validate_named_executable(program, &names, "TF2")
}

fn validate_one(program: &Program, name: &str, label: &str) -> (out: Option<String>)
    ensures
        optional(out) == name_fault(*program, seq![name@], label@),
{
    let mut names: Vec<String> = Vec::new();
    names.push(name.to_owned());
    assert(views(names@) =~= seq![name@]);
    validate_named_executable(program, &names, label)
}

/// The programs that recording takes.
#[derive(Debug)]
pub struct Tools {
    pub tf2: Program,
    pub hlae: Program,
    pub ffmpeg: Program,
    /// What is wrong with the encoder that was chosen, where something is.
    pub encoder_fault: Option<String>,
}

/// The first fault of two.
pub open spec fn first_fault(a: Option<Seq<char>>, b: Option<Seq<char>>) -> Option<Seq<char>> {
    if a is Some {
        a
    } else {
        b
    }
}

/// A fault, where something does not hold.
pub open spec fn unless(holds: bool, fault: Seq<char>) -> Option<Seq<char>> {
    if holds {
        None
    } else {
        Some(fault)
    }
}

/// What keeps a batch from being recorded.
pub open spec fn batch_fault(windows: bool, count: int, tools: Tools, settings: AppSettings) -> Option<
    Seq<char>,
> {
    let encoded = !has_text(settings.recording_format@, "Image"@);
    first_fault(
        unless(
            windows,
            "HLAE recording is Windows-only; parsing, analysis, filtering, and export viewing remain cross-platform"@,
        ),
        first_fault(
            unless(count > 0, "select one or more candidates"@),
            first_fault(
                unless(tools.hlae.is_there, "select hlae.exe in Settings"@),
                first_fault(
                    unless(tools.tf2.is_there, "select tf_win64.exe in Settings"@),
                    first_fault(
                        name_fault(tools.hlae, seq!["hlae.exe"@], "HLAE"@),
                        first_fault(
                            name_fault(tools.tf2, tf2_names(), "TF2"@),
                            first_fault(
                                unless(
                                    !encoded || tools.ffmpeg.is_there,
                                    "select ffmpeg.exe before encoded video recording"@,
                                ),
                                first_fault(
                                    if encoded {
                                        name_fault(tools.ffmpeg, seq!["ffmpeg.exe"@], "FFmpeg"@)
                                    } else {
                                        None
                                    },
                                    optional(tools.encoder_fault),
                                ),
                            ),
                        ),
                    ),
                ),
            ),
        ),
    )
}

fn clone_fault(fault: &Option<String>) -> (out: Option<String>)
    ensures
        optional(out) == optional(*fault),
{
    match fault {
        Some(words) => Some(words.clone()),
        None => None,
    }
}

/// What keeps a batch of some candidates from being recorded.
pub fn check_batch(windows: bool, count: usize, tools: &Tools, settings: &AppSettings) -> (out: Option<
    String,
>)
    ensures
        optional(out) == batch_fault(windows, count as int, *tools, *settings),
{
    let encoded = !contains_text(settings.recording_format.as_str(), "Image");
    if !windows {
        return Some(
            "HLAE recording is Windows-only; parsing, analysis, filtering, and export viewing remain cross-platform".to_owned(),
        );
    }
    if count == 0 {
        return Some("select one or more candidates".to_owned());
    }
    if !tools.hlae.is_there {
        return Some("select hlae.exe in Settings".to_owned());
    }
    if !tools.tf2.is_there {
        return Some("select tf_win64.exe in Settings".to_owned());
    }
    let fault = validate_one(&tools.hlae, "hlae.exe", "HLAE");
    if fault.is_some() {
        return fault;
    }
    let fault = validate_tf2_executable(&tools.tf2);
    if fault.is_some() {
        return fault;
    }
    if encoded {
        if !tools.ffmpeg.is_there {
            return Some("select ffmpeg.exe before encoded video recording".to_owned());
        }
        let fault = validate_one(&tools.ffmpeg, "ffmpeg.exe", "FFmpeg");
        if fault.is_some() {
            return fault;
        }
    }
    clone_fault(&tools.encoder_fault)
}

/// What is said where the demo of a candidate is missing.
pub open spec fn missing_demo(path: Seq<char>) -> Seq<char> {
    "the selected candidate's original demo is missing: "@ + path
}

fn say_missing_demo(path: &str) -> (out: String)
    ensures
        out@ == missing_demo(path@),
{
    let mut out = "the selected candidate's original demo is missing: ".to_owned();
    out.append(path);
    out
}

/// What keeps a candidate from being recorded by hand.
pub open spec fn manual_fault(
    windows: bool,
    tools: Tools,
    settings: AppSettings,
    demo: Seq<char>,
    demo_is_there: bool,
) -> Option<Seq<char>> {
    let encoded = !has_text(settings.recording_format@, "Image"@);
    first_fault(
        unless(windows, "manual HLAE camera playback is Windows-only"@),
        first_fault(
            unless(tools.tf2.is_there, "select tf_win64.exe in Settings"@),
            first_fault(
                unless(tools.hlae.is_there, "select hlae.exe in Settings"@),
                first_fault(
                    name_fault(tools.tf2, tf2_names(), "TF2"@),
                    first_fault(
                        name_fault(tools.hlae, seq!["hlae.exe"@], "HLAE"@),
                        first_fault(
                            unless(
                                !encoded || tools.ffmpeg.is_there,
                                "select ffmpeg.exe before using the manual recording hotkey with an encoded format"@,
                            ),
                            first_fault(
                                if encoded {
                                    name_fault(tools.ffmpeg, seq!["ffmpeg.exe"@], "FFmpeg"@)
                                } else {
                                    None
                                },
                                first_fault(
                                    optional(tools.encoder_fault),
                                    unless(demo_is_there, missing_demo(demo)),
                                ),
                            ),
                        ),
                    ),
                ),
            ),
        ),
    )
}

/// What keeps a candidate from being recorded by hand.
pub fn check_manual(
    windows: bool,
    tools: &Tools,
    settings: &AppSettings,
    demo: &str,
    demo_is_there: bool,
) -> (out: Option<String>)
    ensures
        optional(out) == manual_fault(windows, *tools, *settings, demo@, demo_is_there),
{
    let encoded = !contains_text(settings.recording_format.as_str(), "Image");
    if !windows {
        return Some("manual HLAE camera playback is Windows-only".to_owned());
    }
    if !tools.tf2.is_there {
        return Some("select tf_win64.exe in Settings".to_owned());
    }
    if !tools.hlae.is_there {
        return Some("select hlae.exe in Settings".to_owned());
    }
    let fault = validate_tf2_executable(&tools.tf2);
    if fault.is_some() {
        return fault;
    }
    let fault = validate_one(&tools.hlae, "hlae.exe", "HLAE");
    if fault.is_some() {
        return fault;
    }
    if encoded {
        if !tools.ffmpeg.is_there {
            return Some(
                "select ffmpeg.exe before using the manual recording hotkey with an encoded format".to_owned(),
            );
        }
        let fault = validate_one(&tools.ffmpeg, "ffmpeg.exe", "FFmpeg");
        if fault.is_some() {
            return fault;
        }
    }
    let fault = clone_fault(&tools.encoder_fault);
    if fault.is_some() {
        return fault;
    }
    if demo_is_there {
        None
    } else {
        Some(say_missing_demo(demo))
    }
}

/// What keeps a candidate from being shown.
pub open spec fn preview_fault(
    windows: bool,
    tf2: Program,
    demo: Seq<char>,
    demo_is_there: bool,
    running: bool,
) -> Option<Seq<char>> {
    first_fault(
        unless(
            windows,
            "TF2 demo preview is currently available only where the native TF2 client is installed"@,
        ),
        first_fault(
            unless(tf2.is_there, "select tf_win64.exe in Settings"@),
            first_fault(
                name_fault(tf2, tf2_names(), "TF2"@),
                first_fault(
                    unless(demo_is_there, missing_demo(demo)),
                    unless(
                        !running,
                        "close TF2 before previewing a candidate so the new demo and VDM seek are not ignored"@,
                    ),
                ),
            ),
        ),
    )
}

/// What keeps a candidate from being shown.
pub fn check_preview(windows: bool, tf2: &Program, demo: &str, demo_is_there: bool, running: bool) -> (out:
    Option<String>)
    ensures
        optional(out) == preview_fault(windows, *tf2, demo@, demo_is_there, running),
{
    if !windows {
        return Some(
            "TF2 demo preview is currently available only where the native TF2 client is installed".to_owned(),
        );
    }
    if !tf2.is_there {
        return Some("select tf_win64.exe in Settings".to_owned());
    }
    let fault = validate_tf2_executable(tf2);
    if fault.is_some() {
        return fault;
    }
    if !demo_is_there {
        return Some(say_missing_demo(demo));
    }
    if running {
        return Some(
            "close TF2 before previewing a candidate so the new demo and VDM seek are not ignored".to_owned(),
        );
    }
    None
}

/// The name under which the game runs.
pub fn tf_process_name(program: &Program) -> (out: String)
    ensures
        out@ == (match program.name {
            Some(name) => name@,
            None => "tf_win64.exe"@,
        }),
{
    match &program.name {
        Some(name) => name.clone(),
        None => "tf_win64.exe".to_owned(),
    }
}

/// Whether the game is the one for 64 bits.
pub open spec fn is_x64(program: Program) -> bool {
    program.name matches Some(name) && same_fold(name@, "tf_win64.exe"@)
}

/// Where the hook for the game lies, below the folder of the recorder.
pub fn hook_path(tf2: &Program) -> (out: &'static str)
    ensures
        out@ == (if is_x64(*tf2) {
            "x64/AfxHookSource.dll"@
        } else {
            "AfxHookSource.dll"@
        }),
{
    let x64 = match &tf2.name {
        Some(name) => same_ignoring_case(name.as_str(), "tf_win64.exe"),
        None => false,
    };
    if x64 {
        "x64/AfxHookSource.dll"
    } else {
        "AfxHookSource.dll"
    }
}

// ---------------------------------------------------------------------------
// Processes
// ---------------------------------------------------------------------------

/// What a look at the processes told of one: nothing where it failed.
pub fn windows_process_state(windows: bool, listing: &Option<String>, image_name: &str) -> (out: Option<
    bool,
>)
    ensures
        out == (if !windows {
            Some(false)
        } else {
            match listing {
                Some(text) => Some(has_text(lower(text@), lower(image_name@))),
                None => None,
            }
        }),
{
    if !windows {
        return Some(false);
    }
    match listing {
        Some(text) => {
            let all = to_lower(text.as_str());
            let name = to_lower(image_name);
            Some(contains_text(all.as_str(), name.as_str()))
        },
        None => None,
    }
}

/// Whether a process may be running: where nothing is known, it may.
pub fn may_be_running(state: Option<bool>) -> (r: bool)
    ensures
        r == (state != Some(false)),
{
    match state {
        Some(running) => running,
        None => true,
    }
}

// ---------------------------------------------------------------------------
// The folder of the game
// ---------------------------------------------------------------------------

/// Where the folder of the game lies, as seen from its program.
#[derive(Clone, Copy, Debug, PartialEq, Eq, Structural)]
pub enum GameFolder {
    /// It is the folder of the program.
    Own,
    /// It lies in the folder of the program.
    Inside,
    /// It is the folder above.
    Above,
    /// It lies beside the folder of the program.
    Beside,
}

/// Where the folder of the game lies, by which of the places hold its settings.
pub fn find_game_folder(own: bool, inside: bool, above: bool, beside: bool) -> (out: Option<GameFolder>)
    ensures
        out == (if own {
            Some(GameFolder::Own)
        } else if inside {
            Some(GameFolder::Inside)
        } else if above {
            Some(GameFolder::Above)
        } else if beside {
            Some(GameFolder::Beside)
        } else {
            None
        }),
{
    if own {
        Some(GameFolder::Own)
    } else if inside {
        Some(GameFolder::Inside)
    } else if above {
        Some(GameFolder::Above)
    } else if beside {
        Some(GameFolder::Beside)
    } else {
        None
    }
}

/// What is said where the folder of the game is not found.
pub fn game_folder_fault(executable: &str) -> (out: String)
    ensures
        out@ == "could not locate TF2's tf/cfg directory from "@ + executable@,
{
    let mut out = "could not locate TF2's tf/cfg directory from ".to_owned();
    out.append(executable);
    out
}

// ---------------------------------------------------------------------------
// What the programs are told
// ---------------------------------------------------------------------------

/// The choice of DirectX that the game is told, where there is one.
pub open spec fn dx_words(dx_level: Seq<char>) -> Seq<char> {
    if begins_with(lower(trimmed(dx_level)), "default"@) {
        Seq::empty()
    } else {
        "-dxlevel "@ + (if words(dx_level).len() > 0 {
            words(dx_level)[0]
        } else {
            "98"@
        }) + " "@
    }
}

fn dx_argument(dx_level: &str) -> (out: String)
    ensures
        out@ == dx_words(dx_level@),
{
    let plain = to_lower(trim(dx_level).as_str());
    if starts_with(plain.as_str(), "default") {
        let out = String::new();
        assert(out@ =~= Seq::empty());
        return out;
    }
    let list = split_words(dx_level);
    let mut out = "-dxlevel ".to_owned();
    if list.len() > 0 {
        assert(views(list@)[0] == list@[0]@);
        out.append(list[0].as_str());
    } else {
        assert(views(list@).len() == 0);
        out.append("98");
    }
    out.append(" ");
    out
}

/// What the game is told.
pub open spec fn game_words(settings: AppSettings, manual: bool, demo: Seq<char>) -> Seq<char> {
    let size = resolution_of(settings.resolution@);
    "-steam -insecure +sv_lan 1 -novid -window -noborder -console -no_texture_stream -afxGame tf -w "@
        + int_text(size.0) + " -h "@ + int_text(size.1) + " "@ + dx_words(settings.dx_level@)
        + "+tf_delete_temp_files 0 +exec tf2fragdemohelper_offline.cfg +exec tf2fragdemohelper_recording_profile.cfg "@
        + (if manual {
        "+exec tf2fragdemohelper_manual.cfg +playdemo "@
    } else {
        "+playdemo "@
    }) + demo
}

/// What the game is told.
pub fn game_arguments(settings: &AppSettings, manual: bool, demo: &str) -> (out: String)
    ensures
        out@ == game_words(*settings, manual, demo@),
{
    let (width, height) = parse_resolution(settings.resolution.as_str());
    let mut out =
        "-steam -insecure +sv_lan 1 -novid -window -noborder -console -no_texture_stream -afxGame tf -w ".to_owned();
    out.append(u64_text(width as u64).as_str());
    out.append(" -h ");
    out.append(u64_text(height as u64).as_str());
    out.append(" ");
    out.append(dx_argument(settings.dx_level.as_str()).as_str());
    out.append(
        "+tf_delete_temp_files 0 +exec tf2fragdemohelper_offline.cfg +exec tf2fragdemohelper_recording_profile.cfg ",
    );
    if manual {
        out.append("+exec tf2fragdemohelper_manual.cfg +playdemo ");
    } else {
        out.append("+playdemo ");
    }
    out.append(demo);
    out
}

/// A game that is started for recording never joins a server: it is told to stay
/// offline before it is told anything of a demo.
pub proof fn law_game_stays_offline(settings: AppSettings, manual: bool, demo: Seq<char>)
    ensures
        begins_with(game_words(settings, manual, demo), "-steam -insecure +sv_lan 1 "@),
{
    reveal_strlit("-steam -insecure +sv_lan 1 ");
    reveal_strlit(
        "-steam -insecure +sv_lan 1 -novid -window -noborder -console -no_texture_stream -afxGame tf -w ",
    );
    let all = game_words(settings, manual, demo);
    let head = "-steam -insecure +sv_lan 1 "@;
    assert(all.subrange(0, head.len() as int) =~= head);
}

/// What the recorder is told, one word after another.
pub fn hlae_arguments(tf2: &str, game_arguments: &str, hook: &str) -> (out: Vec<String>)
    ensures
        views(out@) == seq![
            "-customLoader"@,
            "-autoStart"@,
            "-noGui"@,
            "-programPath"@,
            tf2@,
            "-cmdLine"@,
            game_arguments@,
            "-hookDllPath"@,
            hook@,
        ],
{
    let mut out: Vec<String> = Vec::new();
    out.push("-customLoader".to_owned());
    out.push("-autoStart".to_owned());
    out.push("-noGui".to_owned());
    out.push("-programPath".to_owned());
    out.push(tf2.to_owned());
    out.push("-cmdLine".to_owned());
    out.push(game_arguments.to_owned());
    out.push("-hookDllPath".to_owned());
    out.push(hook.to_owned());
    assert(views(out@) =~= seq![
        "-customLoader"@,
        "-autoStart"@,
        "-noGui"@,
        "-programPath"@,
        tf2@,
        "-cmdLine"@,
        game_arguments@,
        "-hookDllPath"@,
        hook@,
    ]);
    out
}

/// What the game is told to show a candidate, one word after another.
pub fn preview_arguments(game: &str, demo: &str) -> (out: Vec<String>)
    ensures
        views(out@) == seq![
            "-insecure"@,
            "-novid"@,
            "-console"@,
            "-game"@,
            game@,
            "+sv_lan"@,
            "1"@,
            "+exec"@,
            "tf2fragdemohelper_preview.cfg"@,
            "+playdemo"@,
            demo@,
        ],
{
    let mut out: Vec<String> = Vec::new();
    out.push("-insecure".to_owned());
    out.push("-novid".to_owned());
    out.push("-console".to_owned());
    out.push("-game".to_owned());
    out.push(game.to_owned());
    out.push("+sv_lan".to_owned());
    out.push("1".to_owned());
    out.push("+exec".to_owned());
    out.push("tf2fragdemohelper_preview.cfg".to_owned());
    out.push("+playdemo".to_owned());
    out.push(demo.to_owned());
    assert(views(out@) =~= seq![
        "-insecure"@,
        "-novid"@,
        "-console"@,
        "-game"@,
        game@,
        "+sv_lan"@,
        "1"@,
        "+exec"@,
        "tf2fragdemohelper_preview.cfg"@,
        "+playdemo"@,
        demo@,
    ]);
    out
}

/// The settings with which a candidate is shown.
pub fn preview_cfg() -> (out: String)
    ensures
        out@ == offline_lines() + "cl_predict 0\n"@,
{
    let mut out = offline_cfg().to_owned();
    out.append("cl_predict 0\n");
    out
}

/// What is noted of the encoder.
pub open spec fn encoder_note(diagnostic: Seq<char>, command: Option<Seq<char>>, otherwise: Seq<char>) -> Seq<
    char,
> {
    diagnostic + "\n[Recording] HLAE FFmpeg command: "@ + (match command {
        Some(command) => command,
        None => otherwise,
    })
}

fn write_encoder_note(diagnostic: String, command: Option<String>, otherwise: &str) -> (out: String)
    ensures
        out@ == encoder_note(diagnostic@, optional(command), otherwise@),
{
    let mut out = diagnostic;
    out.append("\n[Recording] HLAE FFmpeg command: ");
    match command {
        Some(command) => out.append(command.as_str()),
        None => out.append(otherwise),
    }
    out
}

/// What is noted of the encoder that some settings choose, or why they cannot be
/// used.
pub open spec fn encoding_note(settings: AppSettings) -> Result<Seq<char>, Seq<char>> {
    match mp4_encoding(settings) {
        Err(fault) => Err(fault.words()),
        Ok(Some(encoding)) => Ok(
            encoder_note(
                encoding.diagnostic_text(),
                encoding.preset_command(),
                "mirv_streams record screen settings afxFfmpeg"@,
            ),
        ),
        Ok(None) => if settings.recording_format@ == "MOV - DNxHR"@ {
            match dnxhr_encoding(settings) {
                Err(fault) => Err(fault.words()),
                Ok(Some(encoding)) => Ok(
                    encoder_note(
                        encoding.diagnostic_text(),
                        Some(encoding.preset_command()),
                        Seq::empty(),
                    ),
                ),
                Ok(None) => Err("DNxHR settings are missing"@),
            }
        } else if has_text(settings.recording_format@, "AVI"@) {
            match avi_encoding(settings) {
                Err(fault) => Err(fault.words()),
                Ok(Some(encoding)) => Ok(
                    encoder_note(
                        encoding.diagnostic_text(),
                        encoding.preset_command(),
                        "mirv_streams record screen settings afxFfmpegRaw"@,
                    ),
                ),
                Ok(None) => Err("AVI settings are missing"@),
            }
        } else if has_text(settings.recording_format@, "Lossless"@) {
            Ok("[Recording] Encoder: existing lossless HLAE preset afxFfmpegLosslessBest"@)
        } else {
            Ok("[Recording] Encoder: native TF2 image sequence"@)
        },
    }
}

/// A result in words.
pub open spec fn worded_result(r: Result<String, String>) -> Result<Seq<char>, Seq<char>> {
    match r {
        Ok(text) => Ok(text@),
        Err(text) => Err(text@),
    }
}

/// What is noted of the encoder that some settings choose.
pub fn describe_encoding(settings: &AppSettings) -> (out: Result<String, String>)
    ensures
        worded_result(out) == encoding_note(*settings),
{
    match effective_mp4_encoding(settings) {
        Err(fault) => Err(fault.message()),
        Ok(Some(encoding)) => Ok(
            write_encoder_note(
                encoding.diagnostic(),
                hlae_custom_mp4_preset_command(&encoding),
                "mirv_streams record screen settings afxFfmpeg",
            ),
        ),
        Ok(None) => if same_text(settings.recording_format.as_str(), "MOV - DNxHR") {
            match effective_dnxhr_encoding(settings) {
                Err(fault) => Err(fault.message()),
                Ok(Some(encoding)) => {
                    let mut out = encoding.diagnostic();
                    out.append("\n[Recording] HLAE FFmpeg command: ");
                    out.append(hlae_custom_dnxhr_preset_command(&encoding).as_str());
                    Ok(out)
                },
                Ok(None) => Err("DNxHR settings are missing".to_owned()),
            }
        } else if contains_text(settings.recording_format.as_str(), "AVI") {
            match effective_avi_encoding(settings) {
                Err(fault) => Err(fault.message()),
                Ok(Some(encoding)) => Ok(
                    write_encoder_note(
                        encoding.diagnostic(),
                        hlae_custom_avi_preset_command(&encoding),
                        "mirv_streams record screen settings afxFfmpegRaw",
                    ),
                ),
                Ok(None) => Err("AVI settings are missing".to_owned()),
            }
        } else if contains_text(settings.recording_format.as_str(), "Lossless") {
            Ok("[Recording] Encoder: existing lossless HLAE preset afxFfmpegLosslessBest".to_owned())
        } else {
            Ok("[Recording] Encoder: native TF2 image sequence".to_owned())
        },
    }
}

// ---------------------------------------------------------------------------
// What the files are called
// ---------------------------------------------------------------------------

/// The name that a demo without a name gets.
pub open spec fn stem_or(stem: Option<Seq<char>>, otherwise: Seq<char>) -> Seq<char> {
    match stem {
        Some(stem) => sanitized(stem),
        None => sanitized(otherwise),
    }
}

fn clean_stem(stem: &Option<String>, otherwise: &str) -> (out: String)
    ensures
        out@ == stem_or(optional(*stem), otherwise@),
{
    match stem {
        Some(stem) => sanitize(stem.as_str()),
        None => sanitize(otherwise),
    }
}

/// The name under which a demo is laid out for a playback of a batch.
pub fn batch_demo_name(number: u64, stem: &Option<String>) -> (out: String)
    ensures
        out@ == three_digits(number as int) + "_"@ + stem_or(optional(*stem), "demo"@) + ".dem"@,
{
    let mut out = three_digit_text(number);
    out.append("_");
    out.append(clean_stem(stem, "demo").as_str());
    out.append(".dem");
    out
}

/// Where the game finds a demo that is laid out for a batch.
pub fn batch_demo_path(session_name: &str, demo_name: &str) -> (out: String)
    ensures
        out@ == "demos/tf2fragdemohelper_batch/"@ + session_name@ + "/"@ + demo_name@,
{
    let mut out = "demos/tf2fragdemohelper_batch/".to_owned();
    out.append(session_name);
    out.append("/");
    out.append(demo_name);
    out
}

/// The name of a candidate in names.
pub open spec fn manual_candidate(id: Seq<char>) -> Seq<char> {
    crate::prepare::candidate_name(id)
}

fn clean_candidate(id: &str) -> (out: String)
    ensures
        out@ == manual_candidate(id@),
{
    if trim(id).as_str().is_empty() {
        "candidate".to_owned()
    } else {
        sanitize(id)
    }
}

/// The name under which a demo is laid out to be recorded by hand.
pub fn manual_demo_name(stem: &Option<String>, candidate_id: &str) -> (out: String)
    ensures
        out@ == stem_or(optional(*stem), "candidate_demo"@) + "__"@ + manual_candidate(candidate_id@)
            + ".dem"@,
{
    let mut out = clean_stem(stem, "candidate_demo");
    out.append("__");
    out.append(clean_candidate(candidate_id).as_str());
    out.append(".dem");
    out
}

/// Where the game finds a demo that is laid out to be recorded by hand.
pub fn manual_demo_path(session_name: &str, demo_name: &str) -> (out: String)
    ensures
        out@ == "demos/tf2fragdemohelper_manual/"@ + session_name@ + "/"@ + demo_name@,
{
    let mut out = "demos/tf2fragdemohelper_manual/".to_owned();
    out.append(session_name);
    out.append("/");
    out.append(demo_name);
    out
}

/// The folder for what is recorded by hand.
pub fn manual_output_name(
    stem: &Option<String>,
    candidate_id: &str,
    window: (i64, i64),
    time: &str,
) -> (out: String)
    ensures
        out@ == stem_or(optional(*stem), "candidate_demo"@) + "__"@ + manual_candidate(candidate_id@)
            + "__t"@ + int_text(window.0 as int) + "-"@ + int_text(window.1 as int) + "__"@ + time@,
{
    let mut out = clean_stem(stem, "candidate_demo");
    out.append("__");
    out.append(clean_candidate(candidate_id).as_str());
    out.append("__t");
    out.append(i64_text(window.0).as_str());
    out.append("-");
    out.append(i64_text(window.1).as_str());
    out.append("__");
    out.append(time);
    out
}

/// The folder for one capture by hand, of a category and with a name of its own.
pub fn manual_output_folder(root: &str, category: &str, name: &str, separator: char) -> (out: String)
    ensures
        out@ == below(
            below(below(root@, "Manual HLAE"@, separator), category@, separator),
            name@,
            separator,
        ),
{
    let all = path_below(root, "Manual HLAE", separator);
    let folder = path_below(all.as_str(), category, separator);
    path_below(folder.as_str(), name, separator)
}

/// The command with which the path of the camera is kept in the folder of a capture.
pub fn manual_save_cfg(folder: &str, separator: char) -> (out: String)
    ensures
        out@ == "mirv_campath save \""@ + replaced(camera_path(folder@, separator), seq!['\\'], '/')
            + "\"\necho TF2FRAG_MANUAL_CAMPATH_SAVED\n"@,
{
    let path = camera_path_file(folder, separator);
    let mut out = "mirv_campath save \"".to_owned();
    proof {
        reveal_strlit("\\");
        assert("\\"@ =~= seq!['\\']);
    }
    out.append(replace_chars(path.as_str(), "\\", '/').as_str());
    out.append("\"\necho TF2FRAG_MANUAL_CAMPATH_SAVED\n");
    out
}

/// The first characters of a text, where it has as many.
pub open spec fn first_chars(text: Seq<char>, count: int) -> Seq<char> {
    if text.len() >= count {
        text.take(count)
    } else {
        text
    }
}

/// The name under which a demo is laid out to be shown.
pub fn preview_demo_name(stem: &Option<String>, signature: &str) -> (out: String)
    ensures
        out@ == "tf2fragdemohelper_temp_"@ + stem_or(optional(*stem), "candidate_demo"@) + "_"@
            + first_chars(signature@, 12) + ".dem"@,
{
    let mut out = "tf2fragdemohelper_temp_".to_owned();
    out.append(clean_stem(stem, "candidate_demo").as_str());
    out.append("_");
    let chars = crate::text::chars_of(signature);
    let count: usize = if chars.len() >= 12 {
        12
    } else {
        chars.len()
    };
    let head = crate::text::string_between(&chars, 0, count);
    assert(head@ =~= first_chars(signature@, 12));
    out.append(head.as_str());
    out.append(".dem");
    out
}

/// Whether a file is left over from showing a candidate.
pub fn is_stale_preview(stem: &Option<String>, extension: &Option<String>) -> (r: bool)
    ensures
        r == ((optional(*extension) matches Some(extension) && same_fold(extension, "vdm"@)) && (
        optional(*stem) matches Some(stem) && begins_with(stem, "tf2fragdemohelper_temp_"@))),
{
    let vdm = match extension {
        Some(extension) => same_ignoring_case(extension.as_str(), "vdm"),
        None => false,
    };
    let ours = match stem {
        Some(stem) => starts_with(stem.as_str(), "tf2fragdemohelper_temp_"),
        None => false,
    };
    vdm && ours
}

// ---------------------------------------------------------------------------
// Space and the end of a batch
// ---------------------------------------------------------------------------

/// How much room the folder of sessions needs on a disk of its own.
pub open spec fn session_space(peak: int, output: int) -> int {
    let working = if peak > output {
        peak - output
    } else {
        0
    };
    let spare = if working / 5 > 1_073_741_824 {
        working / 5
    } else {
        1_073_741_824
    };
    if working + spare > u64::MAX {
        u64::MAX as int
    } else {
        working + spare
    }
}

/// How much room the folder of sessions needs on a disk of its own.
pub fn session_space_needed(peak: u64, output: u64) -> (out: u64)
    ensures
        out == session_space(peak as int, output as int),
{
    let working: u64 = if peak > output {
        peak - output
    } else {
        0
    };
    let fifth: u64 = working / 5;
    let spare: u64 = if fifth > 1_073_741_824 {
        fifth
    } else {
        1_073_741_824
    };
    if working > 0xffff_ffff_ffff_ffff - spare {
        0xffff_ffff_ffff_ffff
    } else {
        working + spare
    }
}

/// Whether what was kept of a session can be removed: every clip is done, and the
/// game is as it was.
pub fn session_is_done(completed: usize, failed: usize, clips: usize, restored: bool) -> (r: bool)
    ensures
        r == (completed == clips && failed == 0 && restored),
{
    completed == clips && failed == 0 && restored
}

/// A game that is started for recording is told the size of the picture and, last, the
/// demo that it plays.
pub proof fn law_game_plays_the_demo(settings: AppSettings, manual: bool, demo: Seq<char>)
    ensures
        has_text(game_words(settings, manual, demo), "+playdemo "@ + demo),
        ({
            let all = game_words(settings, manual, demo);
            all.len() >= demo.len() && all.skip(all.len() - demo.len()) == demo
        }),
        has_text(
            game_words(settings, manual, demo),
            int_text(resolution_of(settings.resolution@).0) + " -h "@ + int_text(
                resolution_of(settings.resolution@).1,
            ),
        ),
        manual ==> has_text(
            game_words(settings, manual, demo),
            "+exec tf2fragdemohelper_manual.cfg +playdemo "@ + demo,
        ),
{
    let all = game_words(settings, manual, demo);
    let size = resolution_of(settings.resolution@);
    let start = "-steam -insecure +sv_lan 1 -novid -window -noborder -console -no_texture_stream -afxGame tf -w "@;
    let shown = int_text(size.0) + " -h "@ + int_text(size.1);
    let files = "+tf_delete_temp_files 0 +exec tf2fragdemohelper_offline.cfg +exec tf2fragdemohelper_recording_profile.cfg "@;
    let by_hand = "+exec tf2fragdemohelper_manual.cfg +playdemo "@;
    let play = "+playdemo "@;
    let middle = " "@ + dx_words(settings.dx_level@) + files;
    reveal_strlit("+exec tf2fragdemohelper_manual.cfg +playdemo ");
    reveal_strlit("+playdemo ");
    let tail = (if manual {
        by_hand
    } else {
        play
    }) + demo;
    assert(all =~= start + shown + middle + tail);
    lemma_stands_at(start, shown, middle + tail);
    assert(start + shown + (middle + tail) =~= all);
    lemma_stands_at(start + shown + middle, tail, Seq::empty());
    assert(start + shown + middle + tail + Seq::<char>::empty() =~= all);
    assert(all.skip(all.len() - demo.len()) =~= demo);
    if manual {
        let front = by_hand.take(by_hand.len() - play.len());
        assert(front + play =~= by_hand);
        lemma_stands_at(start + shown + middle + front, play + demo, Seq::empty());
        assert(start + shown + middle + front + (play + demo) + Seq::<char>::empty() =~= all);
    }
}

proof fn lemma_stands_at(before: Seq<char>, text: Seq<char>, after: Seq<char>)
    ensures
        has_text(before + text + after, text),
{
    let all = before + text + after;
    let at = before.len() as int;
    assert(all.subrange(at, at + text.len()) =~= text);
    assert(occurs_at(all, text, at));
}

/// A batch is recorded where, and only where, the system can, something is selected, and
/// the recorder, the game and, for video, the encoder are there under their names and able.
pub proof fn law_batches_need_their_tools(
    windows: bool,
    count: int,
    tools: Tools,
    settings: AppSettings,
)
    ensures
        batch_fault(windows, count, tools, settings) is None <==> windows && count > 0
            && tools.hlae.is_there && tools.tf2.is_there && same_fold(
            program_name(tools.hlae),
            "hlae.exe"@,
        ) && (same_fold(program_name(tools.tf2), "tf_win64.exe"@) || same_fold(
            program_name(tools.tf2),
            "tf.exe"@,
        )) && (has_text(settings.recording_format@, "Image"@) || tools.ffmpeg.is_there && same_fold(
            program_name(tools.ffmpeg),
            "ffmpeg.exe"@,
        )) && tools.encoder_fault is None,
{
    lemma_expected(program_name(tools.hlae), "hlae.exe"@);
    lemma_expected(program_name(tools.ffmpeg), "ffmpeg.exe"@);
    lemma_expected_tf2(program_name(tools.tf2));
}

/// A candidate is shown where, and only where, the system can, the game is there under one
/// of its names and does not run, and the demo is there.
pub proof fn law_previews_need_the_game(
    windows: bool,
    tf2: Program,
    demo: Seq<char>,
    demo_is_there: bool,
    running: bool,
)
    ensures
        preview_fault(windows, tf2, demo, demo_is_there, running) is None <==> windows
            && tf2.is_there && (same_fold(program_name(tf2), "tf_win64.exe"@) || same_fold(
            program_name(tf2),
            "tf.exe"@,
        )) && demo_is_there && !running,
{
    lemma_expected_tf2(program_name(tf2));
}

proof fn lemma_expected(name: Seq<char>, one: Seq<char>)
    ensures
        is_expected(name, seq![one]) <==> same_fold(name, one),
{
    assert(seq![one][0] == one);
}

proof fn lemma_expected_tf2(name: Seq<char>)
    ensures
        is_expected(name, tf2_names()) <==> same_fold(name, "tf_win64.exe"@) || same_fold(
            name,
            "tf.exe"@,
        ),
{
    assert(tf2_names()[0] == "tf_win64.exe"@);
    assert(tf2_names()[1] == "tf.exe"@);
}

} // verus!
