//! The game's own files while a batch is recorded: how they are put aside, how
//! they are put back, and how that is checked.
use vstd::prelude::*;
use crate::encoding::optional;
use crate::settings::AppSettings;
use crate::text::{
    begins_with, contains_text, ends_in, ends_with, has_text, join, joined, lower, replace_chars,
    replaced, same_fold, same_ignoring_case, same_text, split_words, starts_with, to_lower, trim,
    trimmed, views, words,
};

verus! {

// ---------------------------------------------------------------------------
// Putting files aside and back
// ---------------------------------------------------------------------------

/// A place in the folder of the game, or in the backup of a session.
#[derive(Clone, Copy, Debug, PartialEq, Eq, Structural)]
pub enum Place {
    Custom,
    CustomProfile,
    Cfg,
    ProfileCfg,
    ConfigCfg,
    Video,
    OfflineCfg,
    BackupCustom,
    BackupProfile,
    BackupCfg,
    BackupProfileCfg,
    BackupConfigCfg,
    BackupVideo,
    BackupOfflineCfg,
}

/// A step of putting files aside or back.
#[derive(Clone, Copy, Debug, PartialEq, Eq, Structural)]
pub enum ProfileStep {
    Move { from: Place, to: Place },
    /// Copies a folder with all that is in it.
    CopyTree { from: Place, to: Place },
    CopyFile { from: Place, to: Place },
    Create(Place),
    RemoveIfThere(Place),
    RemoveIfEmpty(Place),
    /// Copies the resources that were chosen.
    CopyChosen,
    /// Puts in place what the recording needs.
    Install,
    WriteProfileCfg,
    WriteOfflineCfg,
    RestoreHitsounds,
    RestoreDxLevel,
    Verify,
    RemoveTemporary,
    RemoveBackup,
    RemoveMark,
}

/// What is known of a session whose files were put aside.
#[derive(Debug)]
pub struct RecordingProfileSession {
    pub session_id: String,
    pub game_directory: String,
    pub backup_directory: String,
    pub original_custom_existed: bool,
    pub original_profile_existed: bool,
    pub original_profile_cfg_existed: bool,
    pub isolated_custom: bool,
    pub tf_process_name: String,
    pub original_config_existed: bool,
    pub original_video_existed: bool,
    pub original_offline_cfg_existed: bool,
    pub original_cfg_folder_existed: bool,
    pub original_cfg_overrides_existed: bool,
    pub hitsound_files: Vec<String>,
    pub dx_level_was_applied: bool,
    pub original_dx_level_existed: bool,
    pub original_dx_level_type: String,
    pub original_dx_level_data: String,
    pub temporary_paths: Vec<String>,
}

/// A step, where something holds.
pub open spec fn step_if(holds: bool, step: ProfileStep) -> Seq<ProfileStep> {
    if holds {
        seq![step]
    } else {
        Seq::empty()
    }
}

/// How the settings are put aside: as a whole, or file by file where there is no
/// folder of settings.
pub open spec fn cfg_aside(session: RecordingProfileSession) -> Seq<ProfileStep> {
    if session.original_cfg_folder_existed {
        seq![
            ProfileStep::Move { from: Place::Cfg, to: Place::BackupCfg },
            ProfileStep::Create(Place::Cfg),
            ProfileStep::CopyTree { from: Place::BackupCfg, to: Place::Cfg },
        ]
    } else {
        seq![ProfileStep::Create(Place::Cfg)] + step_if(
            session.original_profile_cfg_existed,
            ProfileStep::Move { from: Place::ProfileCfg, to: Place::BackupProfileCfg },
        ) + step_if(
            session.original_config_existed,
            ProfileStep::CopyFile { from: Place::ConfigCfg, to: Place::BackupConfigCfg },
        ) + step_if(
            session.original_video_existed,
            ProfileStep::CopyFile { from: Place::Video, to: Place::BackupVideo },
        ) + step_if(
            session.original_offline_cfg_existed,
            ProfileStep::CopyFile { from: Place::OfflineCfg, to: Place::BackupOfflineCfg },
        )
    }
}

/// How the custom files are put aside: as a whole, or only what the recording
/// puts there.
pub open spec fn custom_aside(session: RecordingProfileSession) -> Seq<ProfileStep> {
    if session.isolated_custom {
        step_if(
            session.original_custom_existed,
            ProfileStep::Move { from: Place::Custom, to: Place::BackupCustom },
        ) + seq![ProfileStep::Create(Place::Custom), ProfileStep::CopyChosen]
    } else {
        seq![ProfileStep::Create(Place::Custom)] + step_if(
            session.original_profile_existed,
            ProfileStep::Move { from: Place::CustomProfile, to: Place::BackupProfile },
        )
    }
}

/// How files are put aside.
pub open spec fn staging(session: RecordingProfileSession) -> Seq<ProfileStep> {
    cfg_aside(session) + custom_aside(session) + seq![
        ProfileStep::Install,
        ProfileStep::WriteProfileCfg,
        ProfileStep::WriteOfflineCfg,
    ]
}

fn add_if(list: &mut Vec<ProfileStep>, holds: bool, step: ProfileStep)
    ensures
        final(list)@ == old(list)@ + step_if(holds, step),
{
    let ghost before = list@;
    if holds {
        list.push(step);
    }
    assert(list@ =~= before + step_if(holds, step));
}

fn list_cfg_aside(session: &RecordingProfileSession) -> (out: Vec<ProfileStep>)
    ensures
        out@ == cfg_aside(*session),
{
    let mut out: Vec<ProfileStep> = Vec::new();
    if session.original_cfg_folder_existed {
        out.push(ProfileStep::Move { from: Place::Cfg, to: Place::BackupCfg });
        out.push(ProfileStep::Create(Place::Cfg));
        out.push(ProfileStep::CopyTree { from: Place::BackupCfg, to: Place::Cfg });
        assert(out@ =~= cfg_aside(*session));
        return out;
    }
    out.push(ProfileStep::Create(Place::Cfg));
    assert(out@ =~= seq![ProfileStep::Create(Place::Cfg)]);
    add_if(
        &mut out,
        session.original_profile_cfg_existed,
        ProfileStep::Move { from: Place::ProfileCfg, to: Place::BackupProfileCfg },
    );
    add_if(
        &mut out,
        session.original_config_existed,
        ProfileStep::CopyFile { from: Place::ConfigCfg, to: Place::BackupConfigCfg },
    );
    add_if(
        &mut out,
        session.original_video_existed,
        ProfileStep::CopyFile { from: Place::Video, to: Place::BackupVideo },
    );
    add_if(
        &mut out,
        session.original_offline_cfg_existed,
        ProfileStep::CopyFile { from: Place::OfflineCfg, to: Place::BackupOfflineCfg },
    );
    out
}

fn list_custom_aside(session: &RecordingProfileSession) -> (out: Vec<ProfileStep>)
    ensures
        out@ == custom_aside(*session),
{
    let mut out: Vec<ProfileStep> = Vec::new();
    if session.isolated_custom {
        if session.original_custom_existed {
            out.push(ProfileStep::Move { from: Place::Custom, to: Place::BackupCustom });
        }
        out.push(ProfileStep::Create(Place::Custom));
        out.push(ProfileStep::CopyChosen);
        assert(out@ =~= custom_aside(*session));
    } else {
        out.push(ProfileStep::Create(Place::Custom));
        assert(out@ =~= seq![ProfileStep::Create(Place::Custom)]);
        add_if(
            &mut out,
            session.original_profile_existed,
            ProfileStep::Move { from: Place::CustomProfile, to: Place::BackupProfile },
        );
    }
    out
}

fn add_all(list: &mut Vec<ProfileStep>, more: &Vec<ProfileStep>)
    ensures
        final(list)@ == old(list)@ + more@,
{
    let ghost before = list@;
    let mut i: usize = 0;
    assert(before + more@.take(0) =~= before);
    while i < more.len()
        invariant
            i <= more.len(),
            list@ == before + more@.take(i as int),
        decreases more.len() - i,
    {
        list.push(more[i]);
        assert(before + more@.take(i + 1) =~= (before + more@.take(i as int)).push(more@[i as int]));
        i += 1;
    }
    assert(more@.take(more.len() as int) =~= more@);
}

/// How files are put aside.
pub fn stage_steps(session: &RecordingProfileSession) -> (out: Vec<ProfileStep>)
    ensures
        out@ == staging(*session),
{
    let mut out = list_cfg_aside(session);
    add_all(&mut out, &list_custom_aside(session));
    let ghost before = out@;
    out.push(ProfileStep::Install);
    out.push(ProfileStep::WriteProfileCfg);
    out.push(ProfileStep::WriteOfflineCfg);
    assert(out@ =~= before + seq![
        ProfileStep::Install,
        ProfileStep::WriteProfileCfg,
        ProfileStep::WriteOfflineCfg,
    ]);
    out
}

/// What the backup of a session holds.
#[derive(Clone, Copy, Debug, PartialEq, Eq, Structural)]
pub struct BackupFacts {
    pub cfg_is_there: bool,
    pub config_is_there: bool,
    pub video_is_there: bool,
    pub offline_is_there: bool,
}

/// How the custom files are put back.
pub open spec fn custom_back(session: RecordingProfileSession) -> Seq<ProfileStep> {
    if session.isolated_custom {
        seq![ProfileStep::RemoveIfThere(Place::Custom)] + step_if(
            session.original_custom_existed,
            ProfileStep::Move { from: Place::BackupCustom, to: Place::Custom },
        )
    } else {
        seq![ProfileStep::RemoveIfThere(Place::CustomProfile)] + step_if(
            session.original_profile_existed,
            ProfileStep::Move { from: Place::BackupProfile, to: Place::CustomProfile },
        ) + step_if(
            !session.original_custom_existed,
            ProfileStep::RemoveIfEmpty(Place::Custom),
        )
    }
}

/// How one file of the settings is put back.
pub open spec fn file_back(existed: bool, backup: bool, from: Place, to: Place) -> Seq<ProfileStep> {
    if existed || backup {
        step_if(backup, ProfileStep::CopyFile { from, to })
    } else {
        seq![ProfileStep::RemoveIfThere(to)]
    }
}

/// How the settings are put back.
pub open spec fn cfg_back(session: RecordingProfileSession, backup: BackupFacts) -> Seq<
    ProfileStep,
> {
    if backup.cfg_is_there {
        seq![ProfileStep::RemoveIfThere(Place::Cfg)] + step_if(
            session.original_cfg_folder_existed,
            ProfileStep::Move { from: Place::BackupCfg, to: Place::Cfg },
        )
    } else {
        seq![ProfileStep::RemoveIfThere(Place::ProfileCfg)] + step_if(
            session.original_profile_cfg_existed,
            ProfileStep::Move { from: Place::BackupProfileCfg, to: Place::ProfileCfg },
        ) + file_back(
            session.original_config_existed,
            backup.config_is_there,
            Place::BackupConfigCfg,
            Place::ConfigCfg,
        ) + file_back(
            session.original_video_existed,
            backup.video_is_there,
            Place::BackupVideo,
            Place::Video,
        ) + seq![ProfileStep::RemoveIfThere(Place::OfflineCfg)] + step_if(
            backup.offline_is_there,
            ProfileStep::CopyFile { from: Place::BackupOfflineCfg, to: Place::OfflineCfg },
        )
    }
}

/// How files are put back, checked, and the backup removed.
pub open spec fn restoring(session: RecordingProfileSession, backup: BackupFacts) -> Seq<
    ProfileStep,
> {
    custom_back(session) + seq![ProfileStep::RestoreHitsounds] + cfg_back(session, backup) + seq![
        ProfileStep::RestoreDxLevel,
        ProfileStep::Verify,
        ProfileStep::RemoveTemporary,
        ProfileStep::RemoveBackup,
        ProfileStep::RemoveMark,
    ]
}

fn add_file_back(list: &mut Vec<ProfileStep>, existed: bool, backup: bool, from: Place, to: Place)
    ensures
        final(list)@ == old(list)@ + file_back(existed, backup, from, to),
{
    let ghost before = list@;
    if existed || backup {
        if backup {
            list.push(ProfileStep::CopyFile { from, to });
        }
    } else {
        list.push(ProfileStep::RemoveIfThere(to));
    }
    assert(list@ =~= before + file_back(existed, backup, from, to));
}

fn list_custom_back(session: &RecordingProfileSession) -> (out: Vec<ProfileStep>)
    ensures
        out@ == custom_back(*session),
{
    let mut out: Vec<ProfileStep> = Vec::new();
    if session.isolated_custom {
        out.push(ProfileStep::RemoveIfThere(Place::Custom));
        assert(out@ =~= seq![ProfileStep::RemoveIfThere(Place::Custom)]);
        add_if(
            &mut out,
            session.original_custom_existed,
            ProfileStep::Move { from: Place::BackupCustom, to: Place::Custom },
        );
    } else {
        out.push(ProfileStep::RemoveIfThere(Place::CustomProfile));
        assert(out@ =~= seq![ProfileStep::RemoveIfThere(Place::CustomProfile)]);
        add_if(
            &mut out,
            session.original_profile_existed,
            ProfileStep::Move { from: Place::BackupProfile, to: Place::CustomProfile },
        );
        add_if(
            &mut out,
            !session.original_custom_existed,
            ProfileStep::RemoveIfEmpty(Place::Custom),
        );
    }
    out
}

fn list_cfg_back(session: &RecordingProfileSession, backup: &BackupFacts) -> (out: Vec<ProfileStep>)
    ensures
        out@ == cfg_back(*session, *backup),
{
    let mut out: Vec<ProfileStep> = Vec::new();
    if backup.cfg_is_there {
        out.push(ProfileStep::RemoveIfThere(Place::Cfg));
        assert(out@ =~= seq![ProfileStep::RemoveIfThere(Place::Cfg)]);
        add_if(
            &mut out,
            session.original_cfg_folder_existed,
            ProfileStep::Move { from: Place::BackupCfg, to: Place::Cfg },
        );
        return out;
    }
    out.push(ProfileStep::RemoveIfThere(Place::ProfileCfg));
    assert(out@ =~= seq![ProfileStep::RemoveIfThere(Place::ProfileCfg)]);
    add_if(
        &mut out,
        session.original_profile_cfg_existed,
        ProfileStep::Move { from: Place::BackupProfileCfg, to: Place::ProfileCfg },
    );
    add_file_back(
        &mut out,
        session.original_config_existed,
        backup.config_is_there,
        Place::BackupConfigCfg,
        Place::ConfigCfg,
    );
    add_file_back(
        &mut out,
        session.original_video_existed,
        backup.video_is_there,
        Place::BackupVideo,
        Place::Video,
    );
    let ghost before = out@;
    out.push(ProfileStep::RemoveIfThere(Place::OfflineCfg));
    assert(out@ =~= before + seq![ProfileStep::RemoveIfThere(Place::OfflineCfg)]);
    add_if(
        &mut out,
        backup.offline_is_there,
        ProfileStep::CopyFile { from: Place::BackupOfflineCfg, to: Place::OfflineCfg },
    );
    out
}

/// How files are put back.
pub fn restore_steps(session: &RecordingProfileSession, backup: &BackupFacts) -> (out: Vec<ProfileStep>)
    ensures
        out@ == restoring(*session, *backup),
{
    let mut out = list_custom_back(session);
    let ghost before = out@;
    out.push(ProfileStep::RestoreHitsounds);
    assert(out@ =~= before + seq![ProfileStep::RestoreHitsounds]);
    add_all(&mut out, &list_cfg_back(session, backup));
    let ghost so_far = out@;
    out.push(ProfileStep::RestoreDxLevel);
    out.push(ProfileStep::Verify);
    out.push(ProfileStep::RemoveTemporary);
    out.push(ProfileStep::RemoveBackup);
    out.push(ProfileStep::RemoveMark);
    assert(out@ =~= so_far + seq![
        ProfileStep::RestoreDxLevel,
        ProfileStep::Verify,
        ProfileStep::RemoveTemporary,
        ProfileStep::RemoveBackup,
        ProfileStep::RemoveMark,
    ]);
    out
}

// ---------------------------------------------------------------------------
// What the steps do
// ---------------------------------------------------------------------------

/// The folder of custom files: what the recording puts there, and all else, each
/// by what it holds.
pub struct CustomFiles {
    pub profile: Option<Map<Seq<char>, Seq<u8>>>,
    pub others: Map<Seq<char>, Seq<u8>>,
}

/// The files of the game that a recording touches, and what was put aside.
pub struct GameFiles {
    pub custom: Option<CustomFiles>,
    pub cfg: Option<Map<Seq<char>, Seq<u8>>>,
    pub backup_custom: Option<CustomFiles>,
    pub backup_profile: Option<Map<Seq<char>, Seq<u8>>>,
    pub backup_cfg: Option<Map<Seq<char>, Seq<u8>>>,
}

/// Whether nothing that was put aside differs.
pub open spec fn same_backup(a: GameFiles, b: GameFiles) -> bool {
    a.backup_custom == b.backup_custom && a.backup_profile == b.backup_profile && a.backup_cfg
        == b.backup_cfg
}

/// Whether custom files differ at most in what a recording may change: anything
/// where the folder was put aside, else only what the recording puts there.
pub open spec fn custom_changed(before: Option<CustomFiles>, after: Option<CustomFiles>, isolated: bool) -> bool {
    isolated || (before is Some ==> after is Some && after->0.others == before->0.others)
}

/// Whether files may be so after a recording, where they were so before: it may
/// change any setting, and the custom files that are its own.
pub open spec fn played(before: GameFiles, after: GameFiles, isolated: bool) -> bool {
    &&& same_backup(before, after)
    &&& custom_changed(before.custom, after.custom, isolated)
}

/// Whether a step may bring files from one state to another.
pub open spec fn may_become(
    step: ProfileStep,
    before: GameFiles,
    after: GameFiles,
    isolated: bool,
) -> bool {
    match step {
        ProfileStep::Move { from: Place::Cfg, to: Place::BackupCfg } => after == GameFiles {
            cfg: None,
            backup_cfg: before.cfg,
            ..before
        },
        ProfileStep::Move { from: Place::BackupCfg, to: Place::Cfg } => after == GameFiles {
            cfg: before.backup_cfg,
            backup_cfg: None,
            ..before
        },
        ProfileStep::Move { from: Place::Custom, to: Place::BackupCustom } => after == GameFiles {
            custom: None,
            backup_custom: before.custom,
            ..before
        },
        ProfileStep::Move { from: Place::BackupCustom, to: Place::Custom } => after == GameFiles {
            custom: before.backup_custom,
            backup_custom: None,
            ..before
        },
        ProfileStep::Move { from: Place::CustomProfile, to: Place::BackupProfile } => {
            &&& before.custom is Some
            &&& after == GameFiles {
                custom: Some(CustomFiles { profile: None, others: before.custom->0.others }),
                backup_profile: before.custom->0.profile,
                ..before
            }
        },
        ProfileStep::Move { from: Place::BackupProfile, to: Place::CustomProfile } => {
            &&& before.custom is Some
            &&& after == GameFiles {
                custom: Some(
                    CustomFiles {
                        profile: before.backup_profile,
                        others: before.custom->0.others,
                    },
                ),
                backup_profile: None,
                ..before
            }
        },
        ProfileStep::Create(Place::Cfg) => after == GameFiles {
            cfg: if before.cfg is Some {
                before.cfg
            } else {
                Some(Map::empty())
            },
            ..before
        },
        ProfileStep::Create(Place::Custom) => after == GameFiles {
            custom: if before.custom is Some {
                before.custom
            } else {
                Some(CustomFiles { profile: None, others: Map::empty() })
            },
            ..before
        },
        ProfileStep::CopyTree { .. } => same_backup(before, after) && after.custom == before.custom,
        ProfileStep::RemoveIfThere(Place::Custom) => after == GameFiles { custom: None, ..before },
        ProfileStep::RemoveIfThere(Place::Cfg) => after == GameFiles { cfg: None, ..before },
        ProfileStep::RemoveIfThere(Place::CustomProfile) => after == GameFiles {
            custom: match before.custom {
                Some(custom) => Some(CustomFiles { profile: None, others: custom.others }),
                None => None,
            },
            ..before
        },
        ProfileStep::RemoveIfEmpty(Place::Custom) => after == GameFiles {
            custom: match before.custom {
                Some(custom) => if custom.profile is None && custom.others =~= Map::empty() {
                    None
                } else {
                    Some(custom)
                },
                None => None,
            },
            ..before
        },
        ProfileStep::CopyChosen | ProfileStep::Install | ProfileStep::WriteProfileCfg
        | ProfileStep::WriteOfflineCfg => played(before, after, isolated),
        ProfileStep::RestoreHitsounds | ProfileStep::RestoreDxLevel | ProfileStep::Verify
        | ProfileStep::RemoveTemporary | ProfileStep::RemoveMark => after == before,
        ProfileStep::RemoveBackup => after.custom == before.custom && after.cfg == before.cfg,
        _ => same_backup(before, after) && after.custom == before.custom,
    }
}

/// Whether steps may bring files through states.
pub open spec fn runs_through(steps: Seq<ProfileStep>, states: Seq<GameFiles>, isolated: bool) -> bool {
    &&& states.len() == steps.len() + 1
    &&& forall|i: int|
        0 <= i < steps.len() ==> may_become(
            #[trigger] steps[i],
            states[i],
            states[i + 1],
            isolated,
        )
}

/// Whether a session tells what the files were when it began.
pub open spec fn tells(session: RecordingProfileSession, files: GameFiles) -> bool {
    &&& session.original_custom_existed == (files.custom is Some)
    &&& session.original_profile_existed == (files.custom is Some && files.custom->0.profile is Some)
    &&& session.original_cfg_folder_existed == (files.cfg is Some)
}

/// Whether files are put aside: what was there is in the backup, or where it was.
pub open spec fn put_aside(
    session: RecordingProfileSession,
    original: GameFiles,
    files: GameFiles,
) -> bool {
    &&& files.backup_cfg == original.cfg
    &&& if session.isolated_custom {
        files.backup_custom == original.custom
    } else {
        &&& files.custom is Some
        &&& files.custom->0.others == (if original.custom is Some {
            original.custom->0.others
        } else {
            Map::empty()
        })
        &&& files.backup_profile == (if original.custom is Some {
            original.custom->0.profile
        } else {
            None
        })
    }
}

proof fn lemma_staged(
    session: RecordingProfileSession,
    original: GameFiles,
    states: Seq<GameFiles>,
)
    requires
        tells(session, original),
        original.cfg is Some,
        original.backup_custom is None,
        original.backup_profile is None,
        original.backup_cfg is None,
        runs_through(staging(session), states, session.isolated_custom),
        states[0] == original,
    ensures
        put_aside(session, original, states.last()),
{
    let steps = staging(session);
    let iso = session.isolated_custom;
    let first = cfg_aside(session);
    assert(steps[0] == first[0]);
    assert(steps[1] == first[1]);
    assert(steps[2] == first[2]);
    assert(may_become(steps[0], states[0], states[1], iso));
    assert(may_become(steps[1], states[1], states[2], iso));
    assert(may_become(steps[2], states[2], states[3], iso));
    assert(states[3].backup_cfg == original.cfg);
    assert(states[3].custom == original.custom);
    let second = custom_aside(session);
    assert forall|k: int| 0 <= k < second.len() implies steps[3 + k] == #[trigger] second[k] by {}
    let n = 3 + second.len() as int;
    assert(steps[n] == ProfileStep::Install);
    assert(steps[n + 1] == ProfileStep::WriteProfileCfg);
    assert(steps[n + 2] == ProfileStep::WriteOfflineCfg);
    assert(may_become(steps[3], states[3], states[4], iso));
    if second.len() > 1 {
        assert(steps[4] == second[1]);
        assert(may_become(steps[4], states[4], states[5], iso));
    }
    if second.len() > 2 {
        assert(steps[5] == second[2]);
        assert(may_become(steps[5], states[5], states[6], iso));
    }
    assert(steps[3] == second[0]);
    assert(put_aside(session, original, states[n]));
    assert(may_become(steps[n], states[n], states[n + 1], iso));
    assert(may_become(steps[n + 1], states[n + 1], states[n + 2], iso));
    assert(may_become(steps[n + 2], states[n + 2], states[n + 3], iso));
}

proof fn lemma_restored(
    session: RecordingProfileSession,
    backup: BackupFacts,
    original: GameFiles,
    states: Seq<GameFiles>,
)
    requires
        tells(session, original),
        original.cfg is Some,
        backup.cfg_is_there,
        put_aside(session, original, states[0]),
        runs_through(restoring(session, backup), states, session.isolated_custom),
    ensures
        states.last().custom == original.custom,
        states.last().cfg == original.cfg,
{
    let steps = restoring(session, backup);
    let iso = session.isolated_custom;
    let first = custom_back(session);
    let m = first.len() as int;
    assert forall|k: int| 0 <= k < m implies steps[k] == #[trigger] first[k] by {}
    assert(steps[0] == first[0]);
    assert(may_become(steps[0], states[0], states[1], iso));
    if m > 1 {
        assert(steps[1] == first[1]);
        assert(may_become(steps[1], states[1], states[2], iso));
    }
    if m > 2 {
        assert(steps[2] == first[2]);
        assert(may_become(steps[2], states[2], states[3], iso));
    }
    if original.custom is Some {
        assert(original.custom == Some(original.custom->0));
    }
    assert(states[m].custom == original.custom);
    assert(states[m].backup_cfg == original.cfg);
    assert(steps[m] == ProfileStep::RestoreHitsounds);
    assert(may_become(steps[m], states[m], states[m + 1], iso));
    assert(steps[m + 1] == ProfileStep::RemoveIfThere(Place::Cfg));
    assert(may_become(steps[m + 1], states[m + 1], states[m + 2], iso));
    assert(steps[m + 2] == ProfileStep::Move { from: Place::BackupCfg, to: Place::Cfg });
    assert(may_become(steps[m + 2], states[m + 2], states[m + 3], iso));
    assert(steps[m + 3] == ProfileStep::RestoreDxLevel);
    assert(may_become(steps[m + 3], states[m + 3], states[m + 4], iso));
    assert(steps[m + 4] == ProfileStep::Verify);
    assert(may_become(steps[m + 4], states[m + 4], states[m + 5], iso));
    assert(steps[m + 5] == ProfileStep::RemoveTemporary);
    assert(may_become(steps[m + 5], states[m + 5], states[m + 6], iso));
    assert(steps[m + 6] == ProfileStep::RemoveBackup);
    assert(may_become(steps[m + 6], states[m + 6], states[m + 7], iso));
    assert(steps[m + 7] == ProfileStep::RemoveMark);
    assert(may_become(steps[m + 7], states[m + 7], states[m + 8], iso));
}

/// Putting files back undoes putting them aside, whatever the recording did to the
/// settings and to the custom files that are its own: in the end the settings and
/// the custom files hold what they held before. This is for a game that has a
/// folder of settings.
pub proof fn law_restoring_undoes_staging(
    session: RecordingProfileSession,
    backup: BackupFacts,
    staged: Seq<GameFiles>,
    restored: Seq<GameFiles>,
)
    requires
        tells(session, staged[0]),
        staged[0].cfg is Some,
        staged[0].backup_custom is None,
        staged[0].backup_profile is None,
        staged[0].backup_cfg is None,
        backup.cfg_is_there,
        runs_through(staging(session), staged, session.isolated_custom),
        played(staged.last(), restored[0], session.isolated_custom),
        runs_through(restoring(session, backup), restored, session.isolated_custom),
    ensures
        restored.last().custom == staged[0].custom,
        restored.last().cfg == staged[0].cfg,
{
    lemma_staged(session, staged[0], staged);
    lemma_restored(session, backup, staged[0], restored);
}

// ---------------------------------------------------------------------------
// Checking
// ---------------------------------------------------------------------------

/// What was found after files were put back.
#[derive(Debug)]
pub struct RestoredFacts {
    pub custom_is_there: bool,
    pub custom_is_in_backup: bool,
    pub profile_is_there: bool,
    pub cfg_is_there: bool,
    pub overrides_are_there: bool,
    pub cfg_is_in_backup: bool,
    pub profile_cfg_is_there: bool,
    pub config: FileFacts,
    pub video: FileFacts,
    pub offline: FileFacts,
    /// Whether each custom sound is as it was.
    pub hitsounds_match: Vec<bool>,
}

/// What was found of one file.
#[derive(Clone, Copy, Debug, PartialEq, Eq, Structural)]
pub struct FileFacts {
    pub is_there: bool,
    pub backup_is_there: bool,
    /// Whether it holds what its backup holds.
    pub matches: bool,
}

/// A problem, where something holds.
pub open spec fn problem_if(holds: bool, words: Seq<char>) -> Seq<Seq<char>> {
    if holds {
        seq![words]
    } else {
        Seq::empty()
    }
}

/// What is wrong with a file that was put back by itself.
pub open spec fn file_problem(
    folder_existed: bool,
    existed: bool,
    file: FileFacts,
    differs: Seq<char>,
    left: Seq<char>,
) -> Seq<Seq<char>> {
    if folder_existed {
        Seq::empty()
    } else if existed || file.backup_is_there {
        problem_if(!file.matches, differs)
    } else {
        problem_if(file.is_there, left)
    }
}

/// What is wrong with the custom sounds.
pub open spec fn sound_problems(files: Seq<Seq<char>>, matches: Seq<bool>, upto: int) -> Seq<
    Seq<char>,
>
    decreases upto,
{
    if upto <= 0 {
        Seq::empty()
    } else {
        sound_problems(files, matches, upto - 1) + problem_if(
            !matches[upto - 1],
            "custom hitsound was not restored: "@ + files[upto - 1],
        )
    }
}

/// All that is wrong after files were put back.
pub open spec fn restore_problems(session: RecordingProfileSession, facts: RestoredFacts) -> Seq<
    Seq<char>,
> {
    problem_if(
        session.original_custom_existed != facts.custom_is_there,
        "tf/custom was not returned to its original presence state"@,
    ) + problem_if(
        session.isolated_custom && facts.custom_is_in_backup,
        "the original tf/custom folder is still staged in the backup"@,
    ) + problem_if(
        !session.isolated_custom && session.original_profile_existed != facts.profile_is_there,
        "the previous helper recording-resource folder was not restored"@,
    ) + problem_if(
        session.original_cfg_folder_existed != facts.cfg_is_there,
        "tf/cfg was not returned to its original presence state"@,
    ) + problem_if(
        session.original_cfg_overrides_existed != facts.overrides_are_there,
        "cfg/overrides was not returned to its original presence state"@,
    ) + problem_if(
        facts.cfg_is_in_backup,
        "the original tf/cfg folder is still staged in the backup"@,
    ) + problem_if(
        session.original_profile_cfg_existed != facts.profile_cfg_is_there,
        "the previous recording profile CFG was not restored"@,
    ) + file_problem(
        session.original_cfg_folder_existed,
        session.original_config_existed,
        facts.config,
        "config.cfg does not match its backup; hitsound settings may not be restored"@,
        "temporary config.cfg still exists"@,
    ) + file_problem(
        session.original_cfg_folder_existed,
        session.original_video_existed,
        facts.video,
        "video.txt does not match its backup"@,
        "temporary video.txt still exists"@,
    ) + file_problem(
        session.original_cfg_folder_existed,
        session.original_offline_cfg_existed,
        facts.offline,
        "the previous offline CFG was not restored"@,
        "temporary offline CFG still exists"@,
    ) + sound_problems(
        views(session.hitsound_files@),
        facts.hitsounds_match@,
        session.hitsound_files.len() as int,
    )
}

/// What is said of problems after files were put back.
pub open spec fn problems_text(problems: Seq<Seq<char>>, backup: Seq<char>) -> Seq<char> {
    "restore verification failed: "@ + joined(problems, "; "@) + ". Original backups remain in "@
        + backup
}

fn add_problem(list: &mut Vec<String>, holds: bool, words: &str)
    ensures
        views(final(list)@) == views(old(list)@) + problem_if(holds, words@),
{
    let ghost before = views(list@);
    if holds {
        list.push(words.to_owned());
    }
    assert(views(list@) =~= before + problem_if(holds, words@));
}

fn add_file_problem(
    list: &mut Vec<String>,
    folder_existed: bool,
    existed: bool,
    file: FileFacts,
    differs: &str,
    left: &str,
)
    ensures
        views(final(list)@) == views(old(list)@) + file_problem(
            folder_existed,
            existed,
            file,
            differs@,
            left@,
        ),
{
    let ghost before = views(list@);
    if !folder_existed {
        if existed || file.backup_is_there {
            add_problem(list, !file.matches, differs);
        } else {
            add_problem(list, file.is_there, left);
        }
    }
    assert(views(list@) =~= before + file_problem(folder_existed, existed, file, differs@, left@));
}

fn list_problems(session: &RecordingProfileSession, facts: &RestoredFacts) -> (out: Vec<String>)
    requires
        facts.hitsounds_match.len() == session.hitsound_files.len(),
    ensures
        views(out@) == restore_problems(*session, *facts),
{
    let mut out: Vec<String> = Vec::new();
    add_problem(
        &mut out,
        session.original_custom_existed != facts.custom_is_there,
        "tf/custom was not returned to its original presence state",
    );
    add_problem(
        &mut out,
        session.isolated_custom && facts.custom_is_in_backup,
        "the original tf/custom folder is still staged in the backup",
    );
    add_problem(
        &mut out,
        !session.isolated_custom && session.original_profile_existed != facts.profile_is_there,
        "the previous helper recording-resource folder was not restored",
    );
    add_problem(
        &mut out,
        session.original_cfg_folder_existed != facts.cfg_is_there,
        "tf/cfg was not returned to its original presence state",
    );
    add_problem(
        &mut out,
        session.original_cfg_overrides_existed != facts.overrides_are_there,
        "cfg/overrides was not returned to its original presence state",
    );
    add_problem(
        &mut out,
        facts.cfg_is_in_backup,
        "the original tf/cfg folder is still staged in the backup",
    );
    add_problem(
        &mut out,
        session.original_profile_cfg_existed != facts.profile_cfg_is_there,
        "the previous recording profile CFG was not restored",
    );
    add_file_problem(
        &mut out,
        session.original_cfg_folder_existed,
        session.original_config_existed,
        facts.config,
        "config.cfg does not match its backup; hitsound settings may not be restored",
        "temporary config.cfg still exists",
    );
    add_file_problem(
        &mut out,
        session.original_cfg_folder_existed,
        session.original_video_existed,
        facts.video,
        "video.txt does not match its backup",
        "temporary video.txt still exists",
    );
    add_file_problem(
        &mut out,
        session.original_cfg_folder_existed,
        session.original_offline_cfg_existed,
        facts.offline,
        "the previous offline CFG was not restored",
        "temporary offline CFG still exists",
    );
    let ghost before = views(out@);
    let ghost sounds = views(session.hitsound_files@);
    let mut i: usize = 0;
    assert(before + sound_problems(sounds, facts.hitsounds_match@, 0) =~= before);
    while i < session.hitsound_files.len()
        invariant
            i <= session.hitsound_files.len(),
            facts.hitsounds_match.len() == session.hitsound_files.len(),
            sounds == views(session.hitsound_files@),
            views(out@) == before + sound_problems(sounds, facts.hitsounds_match@, i as int),
        decreases session.hitsound_files.len() - i,
    {
        let mut words = "custom hitsound was not restored: ".to_owned();
        words.append(session.hitsound_files[i].as_str());
        let ghost so_far = views(out@);
        add_problem(&mut out, !facts.hitsounds_match[i], words.as_str());
        proof {
            assert(sounds[i as int] == session.hitsound_files@[i as int]@);
            assert(views(out@) =~= before + sound_problems(
                sounds,
                facts.hitsounds_match@,
                i + 1,
            ));
        }
        i += 1;
    }
    let ghost first = problem_if(
        session.original_custom_existed != facts.custom_is_there,
        "tf/custom was not returned to its original presence state"@,
    );
    assert(Seq::<Seq<char>>::empty() + first =~= first);
    out
}

/// Checks that files were put back as they were; says what is wrong where they
/// were not.
pub fn verify_restored_profile(session: &RecordingProfileSession, facts: &RestoredFacts) -> (out:
    Option<String>)
    requires
        facts.hitsounds_match.len() == session.hitsound_files.len(),
    ensures
        match out {
            None => restore_problems(*session, *facts).len() == 0,
            Some(words) => restore_problems(*session, *facts).len() > 0 && words@
                == problems_text(restore_problems(*session, *facts), session.backup_directory@),
        },
{
    let problems = list_problems(session, facts);
    assert(views(problems@).len() == problems.len());
    if problems.len() == 0 {
        return None;
    }
    let mut out = "restore verification failed: ".to_owned();
    out.append(join(&problems, "; ").as_str());
    out.append(". Original backups remain in ");
    out.append(session.backup_directory.as_str());
    Some(out)
}

// ---------------------------------------------------------------------------
// Sounds, temporary files, resources
// ---------------------------------------------------------------------------

/// A path with forward slashes, in lower case.
pub open spec fn plain_path(path: Seq<char>) -> Seq<char> {
    lower(replaced(path, seq!['\\'], '/'))
}

fn make_plain(path: &str) -> (out: String)
    ensures
        out@ == plain_path(path@),
{
    proof {
        reveal_strlit("\\");
        assert("\\"@ =~= seq!['\\']);
    }
    to_lower(replace_chars(path, "\\", '/').as_str())
}

/// Whether a custom file is a sound of a hit or a kill.
pub fn is_hitsound_file(relative: &str, name: &Option<String>) -> (r: bool)
    ensures
        r == ((optional(*name) matches Some(name) && (has_text(lower(name), "hitsound"@) || has_text(
            lower(name),
            "killsound"@,
        ))) || has_text(plain_path(relative@), "/sound/ui/"@) || begins_with(
            plain_path(relative@),
            "sound/ui/"@,
        )),
{
    let named = match name {
        Some(name) => {
            let plain = to_lower(name.as_str());
            contains_text(plain.as_str(), "hitsound") || contains_text(
                plain.as_str(),
                "killsound",
            )
        },
        None => false,
    };
    let path = make_plain(relative);
    named || contains_text(path.as_str(), "/sound/ui/") || starts_with(path.as_str(), "sound/ui/")
}

/// Whether a path that a session noted as temporary may be removed: it lies where
/// sessions put things, in the game or among the sessions.
pub fn may_remove_temporary(
    below_game: &Option<String>,
    is_in_sessions_root: bool,
    name: &Option<String>,
) -> (r: bool)
    ensures
        r == ((optional(*below_game) matches Some(path) && (begins_with(
            plain_path(path),
            "demos/tf2fragdemohelper_batch/"@,
        ) || begins_with(plain_path(path), "cfg/tf2fragdemohelper_batch/"@) || begins_with(
            plain_path(path),
            "demos/tf2fragdemohelper_manual/"@,
        ))) || (is_in_sessions_root && (optional(*name) matches Some(name) && begins_with(
            name,
            "tf2fragdemohelper_manual_"@,
        )))),
{
    let in_game = match below_game {
        Some(path) => {
            let plain = make_plain(path.as_str());
            starts_with(plain.as_str(), "demos/tf2fragdemohelper_batch/") || starts_with(
                plain.as_str(),
                "cfg/tf2fragdemohelper_batch/",
            ) || starts_with(plain.as_str(), "demos/tf2fragdemohelper_manual/")
        },
        None => false,
    };
    let manual = match name {
        Some(name) => starts_with(name.as_str(), "tf2fragdemohelper_manual_"),
        None => false,
    };
    in_game || (is_in_sessions_root && manual)
}

/// What is put in place for a recording.
#[derive(Debug)]
pub struct ResourcePlan {
    /// The sounds that are silenced, by file.
    pub silenced: Vec<String>,
    /// The folder of the display that replaces the own one, where one does.
    pub hud_folder: Option<String>,
    pub skybox: bool,
}

/// Whether a recording needs any resources.
pub open spec fn needs_resources(settings: AppSettings) -> bool {
    settings.disable_announcer_voices || settings.disable_applause_sounds
        || settings.disable_domination_sounds || !same_fold(settings.skybox@, "Default"@) || (
    !same_fold(settings.hud@, "Keep current"@) && !same_fold(settings.hud@, "Default TF2 HUD"@))
}

/// The sounds that are silenced, by file.
pub open spec fn silenced_sounds(settings: AppSettings) -> Seq<Seq<char>> {
    problem_if(settings.disable_announcer_voices, "no_announcer_voices.vpk"@) + problem_if(
        settings.disable_applause_sounds,
        "no_applause_sounds.vpk"@,
    ) + problem_if(settings.disable_domination_sounds, "no_domination_sounds.vpk"@)
}

/// The folder of the display that replaces the own one.
pub open spec fn hud_folder(hud: Seq<char>) -> Option<Seq<char>> {
    if same_fold(hud, "Kill notices only"@) {
        Some("hud/hud_killnotices"@)
    } else if same_fold(hud, "Medic recording HUD"@) {
        Some("hud/hud_medic"@)
    } else {
        None
    }
}

/// What is put in place for a recording; nothing where nothing is needed.
pub fn plan_resources(settings: &AppSettings) -> (out: Option<ResourcePlan>)
    ensures
        match out {
            None => !needs_resources(*settings),
            Some(plan) => needs_resources(*settings) && views(plan.silenced@) == silenced_sounds(
                *settings,
            ) && optional(plan.hud_folder) == hud_folder(settings.hud@) && plan.skybox
                == !same_fold(settings.skybox@, "Default"@),
        },
{
    let skybox = !same_ignoring_case(settings.skybox.as_str(), "Default");
    let hud = settings.hud.as_str();
    if !(settings.disable_announcer_voices || settings.disable_applause_sounds
        || settings.disable_domination_sounds || skybox || (!same_ignoring_case(
        hud,
        "Keep current",
    ) && !same_ignoring_case(hud, "Default TF2 HUD"))) {
        return None;
    }
    let mut silenced: Vec<String> = Vec::new();
    add_problem(&mut silenced, settings.disable_announcer_voices, "no_announcer_voices.vpk");
    add_problem(&mut silenced, settings.disable_applause_sounds, "no_applause_sounds.vpk");
    add_problem(&mut silenced, settings.disable_domination_sounds, "no_domination_sounds.vpk");
    assert(views(silenced@) =~= silenced_sounds(*settings));
    let folder = if same_ignoring_case(hud, "Kill notices only") {
        Some("hud/hud_killnotices".to_owned())
    } else if same_ignoring_case(hud, "Medic recording HUD") {
        Some("hud/hud_medic".to_owned())
    } else {
        None
    };
    Some(ResourcePlan { silenced, hud_folder: folder, skybox })
}

/// The sides of a sky.
pub open spec fn sky_sides() -> Seq<Seq<char>> {
    seq!["bk"@, "dn"@, "ft"@, "lf"@, "rt"@, "up"@]
}

/// The sides of a sky, each of which takes a picture.
pub fn list_sky_sides() -> (out: Vec<String>)
    ensures
        views(out@) == sky_sides(),
{
    let mut out: Vec<String> = Vec::new();
    out.push("bk".to_owned());
    out.push("dn".to_owned());
    out.push("ft".to_owned());
    out.push("lf".to_owned());
    out.push("rt".to_owned());
    out.push("up".to_owned());
    assert(views(out@) =~= sky_sides());
    out
}

/// The file that a side of a sky is made of.
pub fn sky_texture(selected: &str, side: &str) -> (out: String)
    ensures
        out@ == selected@ + side@ + ".vtf"@,
{
    let mut out = selected.to_owned();
    out.append(side);
    out.append(".vtf");
    out
}

/// Whether a material shows a side of a sky.
pub fn shows_side(stem: &Option<String>, extension: &Option<String>, side: &str) -> (r: bool)
    ensures
        r == ((optional(*stem) matches Some(stem) && ends_in(stem, side@)) && optional(*extension)
            == Some("vmt"@)),
{
    let sided = match stem {
        Some(stem) => ends_with(stem.as_str(), side),
        None => false,
    };
    let material = match extension {
        Some(extension) => same_text(extension.as_str(), "vmt"),
        None => false,
    };
    sided && material
}

// ---------------------------------------------------------------------------
// The choice of DirectX
// ---------------------------------------------------------------------------

/// Whether a choice of DirectX is applied.
pub fn dx_level_is_applied(windows: bool, selected: &str) -> (r: bool)
    ensures
        r == (windows && trimmed(selected@).len() > 0 && !begins_with(
            lower(trimmed(selected@)),
            "default"@,
        )),
{
    if !windows {
        return false;
    }
    let plain = trim(selected);
    if plain.as_str().is_empty() {
        return false;
    }
    !starts_with(to_lower(plain.as_str()).as_str(), "default")
}

/// What a line of a listing of the registry says of the choice of DirectX.
pub open spec fn dx_line(line: Seq<char>) -> Option<(Seq<char>, Seq<char>)> {
    let list = words(line);
    if list.len() >= 3 && same_fold(list[0], "DXLevel_V1"@) {
        Some((list[1], joined(list.skip(2), " "@)))
    } else {
        None
    }
}

/// What a listing of the registry says of the choice of DirectX.
pub open spec fn dx_listing(lines: Seq<Seq<char>>) -> Option<(Seq<char>, Seq<char>)>
    decreases lines.len(),
{
    if lines.len() == 0 {
        None
    } else {
        match dx_listing(lines.drop_last()) {
            Some(found) => Some(found),
            None => dx_line(lines.last()),
        }
    }
}

/// A choice of DirectX, by its type and its value.
#[derive(Debug)]
pub struct DxLevel {
    pub kind: String,
    pub data: String,
}

/// A choice of DirectX, with its texts as sequences.
pub open spec fn dx_model(level: Option<DxLevel>) -> Option<(Seq<char>, Seq<char>)> {
    match level {
        Some(level) => Some((level.kind@, level.data@)),
        None => None,
    }
}

fn read_dx_line(line: &str) -> (out: Option<DxLevel>)
    ensures
        dx_model(out) == dx_line(line@),
{
    let list = split_words(line);
    let ghost all = views(list@);
    assert(all == words(line@));
    if list.len() < 3 {
        assert(all.len() < 3);
        return None;
    }
    assert(all[0] == list@[0]@ && all[1] == list@[1]@);
    if !same_ignoring_case(list[0].as_str(), "DXLevel_V1") {
        return None;
    }
    let mut rest: Vec<String> = Vec::new();
    let mut i: usize = 2;
    assert(views(rest@) =~= all.subrange(2, 2));
    while i < list.len()
        invariant
            2 <= i <= list.len(),
            all == views(list@),
            views(rest@) == all.subrange(2, i as int),
        decreases list.len() - i,
    {
        let ghost before = views(rest@);
        rest.push(list[i].clone());
        proof {
            assert(views(rest@) =~= before.push(all[i as int]));
            assert(all.subrange(2, i + 1) =~= all.subrange(2, i as int).push(all[i as int]));
        }
        i += 1;
    }
    assert(all.subrange(2, list.len() as int) =~= all.skip(2));
    Some(DxLevel { kind: list[1].clone(), data: join(&rest, " ") })
}

/// Reads the choice of DirectX from a listing of the registry.
pub fn read_dx_level(lines: &Vec<String>) -> (out: Option<DxLevel>)
    ensures
        dx_model(out) == dx_listing(views(lines@)),
{
    let ghost all = views(lines@);
    let mut found: Option<DxLevel> = None;
    let mut i: usize = 0;
    assert(all.take(0) =~= Seq::empty());
    while i < lines.len()
        invariant
            i <= lines.len(),
            all == views(lines@),
            dx_model(found) == dx_listing(all.take(i as int)),
        decreases lines.len() - i,
    {
        proof {
            assert(all.take(i + 1).drop_last() =~= all.take(i as int));
            assert(all.take(i + 1).last() == lines@[i as int]@);
        }
        if found.is_none() {
            found = read_dx_line(lines[i].as_str());
        }
        i += 1;
    }
    assert(all.take(lines.len() as int) =~= all);
    found
}

/// What the program that changes the registry is told to put the choice of
/// DirectX back, behind the name of the key.
pub fn dx_restore_arguments(session: &RecordingProfileSession, key: &str) -> (out: Vec<String>)
    ensures
        views(out@) == (if session.original_dx_level_existed {
            seq![
                "add"@,
                key@,
                "/v"@,
                "DXLevel_V1"@,
                "/t"@,
                session.original_dx_level_type@,
                "/d"@,
                session.original_dx_level_data@,
                "/f"@,
            ]
        } else {
            seq!["delete"@, key@, "/v"@, "DXLevel_V1"@, "/f"@]
        }),
{
    let mut out: Vec<String> = Vec::new();
    if session.original_dx_level_existed {
        out.push("add".to_owned());
        out.push(key.to_owned());
        out.push("/v".to_owned());
        out.push("DXLevel_V1".to_owned());
        out.push("/t".to_owned());
        out.push(session.original_dx_level_type.clone());
        out.push("/d".to_owned());
        out.push(session.original_dx_level_data.clone());
        out.push("/f".to_owned());
        assert(views(out@) =~= seq![
            "add"@,
            key@,
            "/v"@,
            "DXLevel_V1"@,
            "/t"@,
            session.original_dx_level_type@,
            "/d"@,
            session.original_dx_level_data@,
            "/f"@,
        ]);
    } else {
        out.push("delete".to_owned());
        out.push(key.to_owned());
        out.push("/v".to_owned());
        out.push("DXLevel_V1".to_owned());
        out.push("/f".to_owned());
        assert(views(out@) =~= seq!["delete"@, key@, "/v"@, "DXLevel_V1"@, "/f"@]);
    }
    out
}

/// Whether the choice of DirectX is as it was.
pub fn dx_level_is_restored(session: &RecordingProfileSession, now: &Option<DxLevel>) -> (r: bool)
    ensures
        r == (match dx_model(*now) {
            Some(level) => session.original_dx_level_existed && same_fold(
                level.0,
                session.original_dx_level_type@,
            ) && level.1 == session.original_dx_level_data@,
            None => !session.original_dx_level_existed,
        }),
{
    match now {
        Some(level) => session.original_dx_level_existed && same_ignoring_case(
            level.kind.as_str(),
            session.original_dx_level_type.as_str(),
        ) && same_text(level.data.as_str(), session.original_dx_level_data.as_str()),
        None => !session.original_dx_level_existed,
    }
}

proof fn lemma_sounds_hold(files: Seq<Seq<char>>, matches: Seq<bool>, upto: int)
    requires
        0 <= upto <= matches.len(),
    ensures
        sound_problems(files, matches, upto).len() == 0 <==> forall|i: int|
            0 <= i < upto ==> #[trigger] matches[i],
    decreases upto,
{
    if upto > 0 {
        lemma_sounds_hold(files, matches, upto - 1);
    }
}

/// Nothing is wrong with what was put back where, and only where, all is there that was
/// there, nothing is there that was not, nothing lies in the backup still, and every file
/// and sound is as it was.
pub proof fn law_problems_tell_what_is_not_as_it_was(
    session: RecordingProfileSession,
    facts: RestoredFacts,
)
    requires
        facts.hitsounds_match.len() == session.hitsound_files.len(),
    ensures
        restore_problems(session, facts).len() == 0 <==> {
            &&& session.original_custom_existed == facts.custom_is_there
            &&& session.isolated_custom ==> !facts.custom_is_in_backup
            &&& !session.isolated_custom ==> session.original_profile_existed
                == facts.profile_is_there
            &&& session.original_cfg_folder_existed == facts.cfg_is_there
            &&& session.original_cfg_overrides_existed == facts.overrides_are_there
            &&& !facts.cfg_is_in_backup
            &&& session.original_profile_cfg_existed == facts.profile_cfg_is_there
            &&& !session.original_cfg_folder_existed ==> {
                &&& session.original_config_existed || facts.config.backup_is_there
                    ==> facts.config.matches
                &&& !session.original_config_existed && !facts.config.backup_is_there
                    ==> !facts.config.is_there
                &&& session.original_video_existed || facts.video.backup_is_there
                    ==> facts.video.matches
                &&& !session.original_video_existed && !facts.video.backup_is_there
                    ==> !facts.video.is_there
                &&& session.original_offline_cfg_existed || facts.offline.backup_is_there
                    ==> facts.offline.matches
                &&& !session.original_offline_cfg_existed && !facts.offline.backup_is_there
                    ==> !facts.offline.is_there
            }
            &&& forall|i: int|
                0 <= i < facts.hitsounds_match.len() ==> #[trigger] facts.hitsounds_match@[i]
        },
{
    lemma_sounds_hold(
        views(session.hitsound_files@),
        facts.hitsounds_match@,
        session.hitsound_files.len() as int,
    );
}

proof fn lemma_steps_of_either(a: Seq<ProfileStep>, b: Seq<ProfileStep>)
    ensures
        forall|x: ProfileStep| #[trigger] (a + b).contains(x) <==> a.contains(x) || b.contains(x),
{
    assert forall|x: ProfileStep| #[trigger] (a + b).contains(x) <==> a.contains(x) || b.contains(
        x,
    ) by {
        if a.contains(x) {
            let i = choose|i: int| 0 <= i < a.len() && a[i] == x;
            assert((a + b)[i] == x);
        }
        if b.contains(x) {
            let i = choose|i: int| 0 <= i < b.len() && b[i] == x;
            assert((a + b)[a.len() + i] == x);
        }
    }
}

proof fn lemma_step(holds: bool, step: ProfileStep)
    ensures
        forall|x: ProfileStep| #[trigger] step_if(holds, step).contains(x) <==> holds && x == step,
        forall|x: ProfileStep| #[trigger] seq![step].contains(x) <==> x == step,
{
    assert(seq![step][0] == step);
}

/// Where the folder of the settings was not there to be moved aside whole, the files that
/// are changed are copied aside before.
#[verifier::rlimit(60)]
#[verifier::spinoff_prover]
pub proof fn law_single_files_go_aside(session: RecordingProfileSession)
    requires
        !session.original_cfg_folder_existed,
    ensures
        cfg_aside(session).contains(
            ProfileStep::CopyFile { from: Place::ConfigCfg, to: Place::BackupConfigCfg },
        ) <==> session.original_config_existed,
        cfg_aside(session).contains(
            ProfileStep::CopyFile { from: Place::Video, to: Place::BackupVideo },
        ) <==> session.original_video_existed,
        cfg_aside(session).contains(
            ProfileStep::CopyFile { from: Place::OfflineCfg, to: Place::BackupOfflineCfg },
        ) <==> session.original_offline_cfg_existed,
        cfg_aside(session).contains(
            ProfileStep::Move { from: Place::ProfileCfg, to: Place::BackupProfileCfg },
        ) <==> session.original_profile_cfg_existed,
{
    let s = session;
    let a0 = seq![ProfileStep::Create(Place::Cfg)];
    let m1 = ProfileStep::Move { from: Place::ProfileCfg, to: Place::BackupProfileCfg };
    let m2 = ProfileStep::CopyFile { from: Place::ConfigCfg, to: Place::BackupConfigCfg };
    let m3 = ProfileStep::CopyFile { from: Place::Video, to: Place::BackupVideo };
    let m4 = ProfileStep::CopyFile { from: Place::OfflineCfg, to: Place::BackupOfflineCfg };
    let a1 = step_if(s.original_profile_cfg_existed, m1);
    let a2 = step_if(s.original_config_existed, m2);
    let a3 = step_if(s.original_video_existed, m3);
    let a4 = step_if(s.original_offline_cfg_existed, m4);
    lemma_steps_of_either(a0, a1);
    lemma_steps_of_either(a0 + a1, a2);
    lemma_steps_of_either(a0 + a1 + a2, a3);
    lemma_steps_of_either(a0 + a1 + a2 + a3, a4);
    lemma_step(true, ProfileStep::Create(Place::Cfg));
    lemma_step(s.original_profile_cfg_existed, m1);
    lemma_step(s.original_config_existed, m2);
    lemma_step(s.original_video_existed, m3);
    lemma_step(s.original_offline_cfg_existed, m4);
}

proof fn lemma_file_back(existed: bool, backup: bool, from: Place, to: Place)
    ensures
        forall|x: ProfileStep|
            #[trigger] file_back(existed, backup, from, to).contains(x) <==> (backup && x
                == ProfileStep::CopyFile { from, to }) || (!existed && !backup && x
                == ProfileStep::RemoveIfThere(to)),
{
    lemma_step(backup, ProfileStep::CopyFile { from, to });
    lemma_step(true, ProfileStep::RemoveIfThere(to));
}

/// Where the folder of the settings does not lie aside whole, each file comes back from its
/// copy; a file without one is removed where it was not there before.
#[verifier::rlimit(60)]
#[verifier::spinoff_prover]
pub proof fn law_single_files_come_back(session: RecordingProfileSession, backup: BackupFacts)
    requires
        !backup.cfg_is_there,
    ensures
        cfg_back(session, backup).contains(
            ProfileStep::CopyFile { from: Place::BackupConfigCfg, to: Place::ConfigCfg },
        ) <==> backup.config_is_there,
        cfg_back(session, backup).contains(
            ProfileStep::CopyFile { from: Place::BackupVideo, to: Place::Video },
        ) <==> backup.video_is_there,
        cfg_back(session, backup).contains(
            ProfileStep::CopyFile { from: Place::BackupOfflineCfg, to: Place::OfflineCfg },
        ) <==> backup.offline_is_there,
        cfg_back(session, backup).contains(
            ProfileStep::Move { from: Place::BackupProfileCfg, to: Place::ProfileCfg },
        ) <==> session.original_profile_cfg_existed,
        cfg_back(session, backup).contains(ProfileStep::RemoveIfThere(Place::ConfigCfg))
            <==> !session.original_config_existed && !backup.config_is_there,
        cfg_back(session, backup).contains(ProfileStep::RemoveIfThere(Place::Video))
            <==> !session.original_video_existed && !backup.video_is_there,
        cfg_back(session, backup).contains(ProfileStep::RemoveIfThere(Place::ProfileCfg)),
{
    let s = session;
    let r0 = ProfileStep::RemoveIfThere(Place::ProfileCfg);
    let r1 = ProfileStep::Move { from: Place::BackupProfileCfg, to: Place::ProfileCfg };
    let r4 = ProfileStep::RemoveIfThere(Place::OfflineCfg);
    let r5 = ProfileStep::CopyFile { from: Place::BackupOfflineCfg, to: Place::OfflineCfg };
    let b0 = seq![r0];
    let b1 = step_if(s.original_profile_cfg_existed, r1);
    let b2 = file_back(
        s.original_config_existed,
        backup.config_is_there,
        Place::BackupConfigCfg,
        Place::ConfigCfg,
    );
    let b3 = file_back(
        s.original_video_existed,
        backup.video_is_there,
        Place::BackupVideo,
        Place::Video,
    );
    let b4 = seq![r4];
    let b5 = step_if(backup.offline_is_there, r5);
    lemma_steps_of_either(b0, b1);
    lemma_steps_of_either(b0 + b1, b2);
    lemma_steps_of_either(b0 + b1 + b2, b3);
    lemma_steps_of_either(b0 + b1 + b2 + b3, b4);
    lemma_steps_of_either(b0 + b1 + b2 + b3 + b4, b5);
    lemma_step(true, r0);
    lemma_step(s.original_profile_cfg_existed, r1);
    lemma_file_back(
        s.original_config_existed,
        backup.config_is_there,
        Place::BackupConfigCfg,
        Place::ConfigCfg,
    );
    lemma_file_back(
        s.original_video_existed,
        backup.video_is_there,
        Place::BackupVideo,
        Place::Video,
    );
    lemma_step(true, r4);
    lemma_step(backup.offline_is_there, r5);
}

/// The backup is removed only when all is put back and looked over, and the mark of the
/// session last of all.
pub proof fn law_backups_go_last(session: RecordingProfileSession, backup: BackupFacts)
    ensures
        ({
            let steps = restoring(session, backup);
            let n = steps.len();
            n >= 5 && steps[n - 1] == ProfileStep::RemoveMark && steps[n - 2]
                == ProfileStep::RemoveBackup && steps[n - 4] == ProfileStep::Verify && (forall|i: int|
                0 <= i < n - 5 ==> #[trigger] steps[i] != ProfileStep::RemoveBackup)
        }),
{
    let steps = restoring(session, backup);
    let n = steps.len();
    assert forall|i: int| 0 <= i < n - 5 implies #[trigger] steps[i] != ProfileStep::RemoveBackup by {
        let a = custom_back(session);
        let c = cfg_back(session, backup);
        if i < a.len() {
            assert(steps[i] == a[i]);
        } else if i == a.len() {
            assert(steps[i] == ProfileStep::RestoreHitsounds);
        } else {
            assert(steps[i] == c[i - a.len() - 1]);
        }
    }
}

/// Sounds are silenced as the settings ask, by files of their own.
pub proof fn law_sounds_are_silenced_as_asked(settings: AppSettings)
    ensures
        silenced_sounds(settings).len() == (if settings.disable_announcer_voices {
            1int
        } else {
            0
        }) + (if settings.disable_applause_sounds {
            1int
        } else {
            0
        }) + (if settings.disable_domination_sounds {
            1int
        } else {
            0
        }),
        settings.disable_announcer_voices ==> silenced_sounds(settings)[0]
            == "no_announcer_voices.vpk"@,
        settings.disable_domination_sounds ==> silenced_sounds(settings).last()
            == "no_domination_sounds.vpk"@,
        settings.disable_applause_sounds ==> silenced_sounds(settings)[if settings.disable_announcer_voices {
            1int
        } else {
            0
        }] == "no_applause_sounds.vpk"@,
        silenced_sounds(settings).len() > 0 ==> needs_resources(settings),
{
}

} // verus!
