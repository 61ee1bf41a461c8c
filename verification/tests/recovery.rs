use tf2_frag_demo_helper::finalize::{
    file_extension, find_encoded_take_directory, finish_recorded_clip, image_artifacts_exist,
    output_still_exists, plan_image_sequence, ClipLedger, FoundFile, TakeFolder,
};
use tf2_frag_demo_helper::hashes::{
    digest, file_fingerprint, output_fingerprint, portable_demo_signature, recording_key,
    recording_key_token, FileSample,
};
use tf2_frag_demo_helper::models::Candidate;
use tf2_frag_demo_helper::prepare::{
    clip_candidate, prepared_clip_from_manifest, StoredRecordingClip,
};
use tf2_frag_demo_helper::recordings::{
    match_output, recording_keys, DemoMarks, FoundOutput, RecordingEntry, RecordingIndex,
};
use tf2_frag_demo_helper::recovery::{
    after_clips, automatic_recovery_attempts, begin_automatic_recovery_attempt, begin_report,
    discover_recording_sessions, disabled_note, finalize_step, latest_recording_session,
    open_session, oversize_fault, recovery_settings, switch_off_after, AttemptStep, ClipVerdict,
    FinalizeStep, Finalized, KeptSettings, ManifestReading, RecordingRecoveryReport, RecoveryStep,
    SessionEntry, SessionRecovery, MAX_AUTOMATIC_RECOVERY_ATTEMPTS, MAX_RECOVERY_DIRECTORY_ENTRIES,
    MAX_RECOVERY_MANIFEST_BYTES, MAX_RECOVERY_SESSIONS_PER_STARTUP,
};
use tf2_frag_demo_helper::settings::AppSettings;

fn entry(name: &str, disabled: bool, modified: i64) -> SessionEntry {
    SessionEntry {
        readable: true,
        is_folder: true,
        name: Some(name.into()),
        disabled,
        modified: Some(modified),
    }
}

#[test]
fn recovery_discovery_is_bounded_and_skips_disabled_sessions() {
    let mut entries: Vec<SessionEntry> = (0..5)
        .map(|index| entry(&format!("tf2fragdemohelper_batch_{index:02}"), index == 4, index))
        .collect();
    entries.push(entry("unrelated-folder", false, 9));

    let active = discover_recording_sessions(&entries, false, 32, 2);
    assert_eq!(active.sessions.len(), 2);
    assert_eq!(active.disabled_sessions, 1);
    assert_eq!(active.deferred_sessions, 2);

    let including_disabled = discover_recording_sessions(&entries, true, 32, 32);
    assert_eq!(including_disabled.sessions.len(), 5);
    assert_eq!(including_disabled.disabled_sessions, 1);
    assert_eq!(latest_recording_session(&entries), Some(4));
}

#[test]
fn malformed_manifest_is_retained_and_disabled_instead_of_retried_forever() {
    let mut report = RecordingRecoveryReport::default();
    let reading = ManifestReading::Unreadable("key must be a string at line 1 column 2".into());
    let reason = open_session("tf2fragdemohelper_batch_bad", &reading, &mut report);
    assert!(reason.is_some());
    assert_eq!(report.retained_sessions, 1);
    assert_eq!(report.disabled_sessions, 1);
    assert_eq!(report.errors.len(), 1);
}

#[test]
fn a_session_without_clips_is_switched_off() {
    let mut report = RecordingRecoveryReport::default();
    assert_eq!(
        open_session("s", &ManifestReading::Missing, &mut report).as_deref(),
        Some("No recording manifest was found.")
    );
    assert_eq!(
        open_session("s", &ManifestReading::Read { clips: 0 }, &mut report).as_deref(),
        Some("The recording manifest contains no tracked clips.")
    );
    assert!(open_session("s", &ManifestReading::Read { clips: 1 }, &mut report).is_none());
    assert_eq!(report.errors, vec!["s has no recording manifest", "s has no tracked clips"]);
    assert!(disabled_note("now", "why").contains("why"));
}

#[test]
fn oversized_manifest_is_rejected_before_it_is_read_into_memory() {
    let error = oversize_fault(
        "the manifest",
        MAX_RECOVERY_MANIFEST_BYTES + 1,
        MAX_RECOVERY_MANIFEST_BYTES,
    )
    .expect("oversized manifest must fail");
    assert!(error.contains("too large"));
    assert!(oversize_fault("m", MAX_RECOVERY_MANIFEST_BYTES, MAX_RECOVERY_MANIFEST_BYTES).is_none());
}

#[test]
fn repeatedly_failing_session_stops_after_three_automatic_attempts() {
    let mut report = RecordingRecoveryReport::default();
    let mut text = String::new();
    for _ in 0..MAX_AUTOMATIC_RECOVERY_ATTEMPTS {
        match begin_automatic_recovery_attempt(false, &text, &mut report) {
            AttemptStep::Try { attempt } => text = attempt.to_string(),
            other => panic!("{other:?}"),
        }
    }
    assert_eq!(automatic_recovery_attempts(&text), MAX_AUTOMATIC_RECOVERY_ATTEMPTS);
    assert_eq!(
        begin_automatic_recovery_attempt(false, &text, &mut report),
        AttemptStep::SwitchOff
    );
    assert_eq!(begin_automatic_recovery_attempt(true, &text, &mut report), AttemptStep::Skip);
    report.errors.push("failed".into());
    assert!(switch_off_after(true, 0, &text, false, &mut report));
    assert!(!switch_off_after(true, 1, &text, false, &mut report));
    assert!(!switch_off_after(false, 0, &text, false, &mut report));
    assert_eq!(report.scanned_sessions, 3);
    assert_eq!(report.disabled_sessions, 3);
}

#[test]
fn recording_index_loader_has_an_entry_limit() {
    let lines: Vec<Option<RecordingEntry>> = (0..3)
        .map(|index| {
            Some(RecordingEntry {
                recording_key: format!("key-{index}"),
                candidate_id: format!("candidate-{index}"),
                ..RecordingEntry::default()
            })
        })
        .collect();
    let loaded = RecordingIndex::load("recorded_clip_index.ndjson", &lines, 2);
    assert_eq!(loaded.entries.len(), 2);
}

fn stored() -> StoredRecordingClip {
    StoredRecordingClip {
        order: 1,
        source_demo: "match.dem".into(),
        candidate_id: "c".into(),
        recording_key: "key".into(),
        demo_content_signature: "sig".into(),
        start_tick: 1,
        end_tick: 2,
        candidate_clip_start_tick: None,
        candidate_clip_end_tick: None,
        attacker_user_id: 1,
        recording_identifier: "c".into(),
        expected_output_path: "out/c.mp4".into(),
        actual_output_path: None,
        output_fingerprint: None,
        working_path: Some("work".into()),
        frames_path: None,
        audio_path: None,
        native_capture_base: "c".into(),
        replace_existing: true,
    }
}

#[test]
fn a_clip_that_is_made_whole_takes_the_place_of_the_old_recording() {
    let mut index = RecordingIndex::empty("index");
    index.store_entry(RecordingEntry {
        recording_key: "key".into(),
        output_path: "out/old.mp4".into(),
        ..RecordingEntry::default()
    });
    let stored = stored();
    let clip = prepared_clip_from_manifest(&stored);
    let settings = AppSettings::default();
    assert_eq!(finalize_step(&settings, &clip, false, true), FinalizeStep::Video);
    assert_eq!(finalize_step(&settings, &clip, true, false), FinalizeStep::Nothing);

    let mut run = SessionRecovery::new(index, RecordingRecoveryReport::default());
    let done = Finalized::Done("out/c.mp4".into());
    let none = Vec::new();
    let work = run.weigh_clip(&stored, &none, &done, &none).expect("work");
    assert!(!work.indexed);
    assert_eq!(work.replaced.as_deref(), Some("out/old.mp4"));
    let end = run.finish_clip(&clip, work, &done, "print", "now", &None);
    assert_eq!(end.verdict, ClipVerdict::Completed);
    assert_eq!(end.removed.as_deref(), Some("out/old.mp4"));
    assert_eq!(run.index.get("key").expect("entry").output_path, "out/c.mp4");
    assert_eq!(run.report.recovered_clips, 1);
    assert_eq!(run.step(), RecoveryStep::Remove);
    assert_eq!(run.step().verdict(), ("Completed", None));
    let mut report = run.close("s", &None);
    assert_eq!(report.removed_sessions, 1);
    assert_eq!(report.retained_sessions, 0);
    assert_eq!(report.summary(), "No interrupted recording outputs needed recovery");
    report.scanned_sessions = 1;
    assert!(report.summary().starts_with(
        "Recording recovery finished: 1 session(s) checked, 1 clip(s) finalized"
    ));
}

#[test]
fn an_output_that_a_failed_try_leaves_is_none() {
    let mut index = RecordingIndex::empty("index");
    index.store_entry(RecordingEntry {
        recording_key: "key".into(),
        output_path: "out/old.mp4".into(),
        ..RecordingEntry::default()
    });
    let stored = stored();
    let failed = Finalized::Failed("disk full".into());
    let nothing = Vec::new();
    let half = vec!["out/c.mp4".to_string(), "out/old.mp4".to_string()];
    let mut run = SessionRecovery::new(index, RecordingRecoveryReport::default());
    assert!(run.weigh_clip(&stored, &nothing, &failed, &half).is_none());
    assert_eq!(run.verdicts, vec![ClipVerdict::Pending]);
    assert_eq!(run.report.errors.len(), 2);
    assert_eq!(run.index.get("key").expect("entry").output_path, "out/old.mp4");
    // One that was there before the try is recorded, and the clip is tried again.
    let before = vec!["out/c.mp4".to_string()];
    let work = run.weigh_clip(&stored, &before, &failed, &half).expect("work");
    let clip = prepared_clip_from_manifest(&stored);
    let end = run.finish_clip(&clip, work, &failed, "print", "now", &None);
    assert_eq!(end.verdict, ClipVerdict::Pending);
    assert_eq!(end.error.as_deref(), Some("disk full"));
    assert_eq!(run.report.indexed_clips, 1);
    // What the index has is looked for among the outputs that are there now.
    let work = run.weigh_clip(&stored, &before, &Finalized::NotTried, &half).expect("work");
    assert!(work.indexed);
    let work = run.weigh_clip(&stored, &before, &Finalized::NotTried, &nothing).expect("work");
    assert!(!work.indexed);
}

#[test]
fn a_session_is_counted_once() {
    let stored = stored();
    let clip = prepared_clip_from_manifest(&stored);
    let done = Finalized::Done("out/c.mp4".into());
    let none: Vec<String> = Vec::new();
    let run = |clips: &[Option<&str>], fault: Option<&str>| {
        let mut report = RecordingRecoveryReport::default();
        report.errors.push("earlier".into());
        report.retained_sessions = 4;
        let mut run = SessionRecovery::new(RecordingIndex::empty("index"), report);
        for written in clips {
            let work = run.weigh_clip(&stored, &none, &done, &none).expect("work");
            let fault = written.map(str::to_owned);
            run.finish_clip(&clip, work, &done, "print", "now", &fault);
        }
        let step = run.step();
        (step, run.close("s", &fault.map(str::to_owned)))
    };
    let (step, report) = run(&[None, None], None);
    assert_eq!(step, RecoveryStep::Remove);
    assert_eq!((report.removed_sessions, report.retained_sessions), (1, 4));
    assert_eq!(report.errors, vec!["earlier"]);
    let (step, report) = run(&[None], Some("locked"));
    assert_eq!(step, RecoveryStep::Remove);
    assert_eq!((report.removed_sessions, report.retained_sessions), (0, 5));
    assert_eq!(report.errors, vec!["earlier", "s could not be cleaned up: locked"]);
    let (step, report) = run(&[None, Some("full")], None);
    assert_eq!(step, RecoveryStep::Keep);
    assert_eq!(
        step.verdict(),
        ("RecoveryPending", Some("one or more tracked clips still need recovery"))
    );
    assert_eq!((report.removed_sessions, report.retained_sessions), (0, 5));
    assert_eq!(report.errors, vec!["earlier", "c: full"]);
    assert_eq!((report.scanned_sessions, report.deferred_sessions), (0, 0));
}

#[test]
fn a_startup_adds_up() {
    let entries: Vec<SessionEntry> = (0..40)
        .map(|at| entry(&format!("tf2fragdemohelper_batch_{at}"), at == 3, at))
        .collect();
    let found = discover_recording_sessions(
        &entries,
        false,
        MAX_RECOVERY_DIRECTORY_ENTRIES,
        MAX_RECOVERY_SESSIONS_PER_STARTUP,
    );
    let mut report = begin_report(&found);
    assert_eq!((report.deferred_sessions, report.disabled_sessions), (7, 1));
    for session in &found.sessions {
        let attempts = if session.at % 5 == 0 { "3" } else { "1" };
        if begin_automatic_recovery_attempt(false, attempts, &mut report) == AttemptStep::SwitchOff {
            continue;
        }
        let told = report.errors.len();
        let clips = session.at % 2;
        let reading = ManifestReading::Read { clips };
        if open_session("s", &reading, &mut report).is_none() {
            let mut run = SessionRecovery::new(RecordingIndex::empty("index"), report);
            let found = vec!["out/c.mp4".to_string()];
            let none = Vec::new();
            if session.at % 3 == 0 {
                run.weigh_clip(&stored(), &none, &Finalized::NotTried, &none);
            } else {
                let work = run.weigh_clip(&stored(), &found, &Finalized::NotTried, &none).unwrap();
                let clip = prepared_clip_from_manifest(&stored());
                run.finish_clip(&clip, work, &Finalized::NotTried, "print", "now", &None);
            }
            report = run.close("s", &None);
        }
        switch_off_after(true, told, "2", false, &mut report);
    }
    assert_eq!(report.removed_sessions + report.retained_sessions, report.scanned_sessions);
    assert!(report.removed_sessions > 0 && report.retained_sessions > 0);
    assert!(report.scanned_sessions <= MAX_RECOVERY_SESSIONS_PER_STARTUP);
    assert_eq!(report.deferred_sessions, 7);
}

#[test]
fn a_clip_that_cannot_be_recorded_keeps_the_old_recording() {
    let stored = stored();
    let clip = prepared_clip_from_manifest(&stored);
    let index = RecordingIndex::empty("index");
    let mut run = SessionRecovery::new(index, RecordingRecoveryReport::default());
    let failed = Finalized::Failed("no sound".into());
    let none = Vec::new();
    assert!(run.weigh_clip(&stored, &none, &failed, &none).is_none());
    assert_eq!(
        run.report.errors,
        vec![
            "c: no sound",
            "c: no complete output or recoverable HLAE capture artifacts were found"
        ]
    );
    let present = vec!["out/c.mp4".to_string()];
    let work = run.weigh_clip(&stored, &present, &Finalized::NotTried, &present).unwrap();
    let fault = Some("disk full".into());
    let end = run.finish_clip(&clip, work, &Finalized::NotTried, "print", "now", &fault);
    assert_eq!(end.verdict, ClipVerdict::NotIndexed);
    assert!(end.removed.is_none());
    assert!(run.index.get("key").is_none());
    assert_eq!(run.verdicts, vec![ClipVerdict::Pending, ClipVerdict::NotIndexed]);
    assert_eq!(after_clips(&vec![ClipVerdict::Completed, end.verdict]), RecoveryStep::Keep);
    assert_eq!(after_clips(&vec![ClipVerdict::Completed]), RecoveryStep::Remove);
    let candidate = clip_candidate(&clip);
    assert_eq!(candidate.candidate_id, "c");
    assert_eq!((candidate.clip_start_tick, candidate.clip_end_tick), (1, 2));
    let mut nameless = run.index;
    let fault = nameless.register_recovered(RecordingEntry::default()).unwrap_err();
    assert_eq!(fault, "the retained clip has no recording key");
}

#[test]
fn a_finished_clip_is_noted_once() {
    let mut ledger = ClipLedger::new();
    let previous = vec!["old.mp4".to_string(), "new.mp4".to_string()];
    let done = finish_recorded_clip(
        "a",
        true,
        &Ok("new.mp4".into()),
        &None,
        &previous,
        &mut ledger,
    )
    .expect("first time");
    assert_eq!(done.status(), "Completed");
    assert_eq!(done.removed, vec!["old.mp4"]);
    assert!(finish_recorded_clip("a", true, &Err("x".into()), &None, &previous, &mut ledger).is_none());
    let failed = finish_recorded_clip(
        "b",
        true,
        &Ok("b.mp4".into()),
        &Some("not written".into()),
        &previous,
        &mut ledger,
    )
    .expect("first time");
    assert_eq!(failed.status(), "Failed");
    assert_eq!(failed.error.as_deref(), Some("not written"));
    assert!(failed.removed.is_empty());
    assert_eq!(ledger.completed, vec!["a"]);
    assert_eq!(ledger.failed, vec!["b"]);
}

#[test]
fn the_settings_of_a_session_are_kept() {
    let mut settings = AppSettings::default();
    let kept = KeptSettings {
        output_format: "AVI - Raw".into(),
        ffmpeg_executable: "ffmpeg".into(),
        encoding: None,
        avi_encoding: None,
        dnxhr_encoding: None,
    };
    settings.avi_video_codec = "FFV1 Lossless".into();
    recovery_settings(&mut settings, &kept, true);
    assert_eq!(settings.recording_format, "AVI - Raw");
    assert_eq!(settings.avi_video_codec, "Original HLAE Raw");
    assert_eq!(settings.ffmpeg_executable, "ffmpeg");
}

#[test]
fn a_moved_recording_is_found_again() {
    let candidate = Candidate {
        candidate_id: "Frag 1".into(),
        clip_start_tick: 100,
        clip_end_tick: 300,
        ..Candidate::default()
    };
    let marks = DemoMarks { portable: Some("demo".into()), legacy: None };
    let keys = recording_keys(&candidate, &marks);
    assert_eq!(keys[0], recording_key(&candidate, "demo"));

    let mut index = RecordingIndex::empty("index");
    index.store_entry(RecordingEntry {
        recording_key: keys[0].clone(),
        output_path: "Videos/a.mp4".into(),
        output_fingerprint: "print".into(),
        ..RecordingEntry::default()
    });
    assert!(index.is_recorded_indexed(&keys, &vec!["Videos/a.mp4".into()]));
    assert!(!index.is_recorded_indexed(&keys, &Vec::new()));
    let outputs = vec![FoundOutput {
        path: "Videos/renamed.mp4".into(),
        name: Some("renamed.mp4".into()),
        parent_name: Some("Videos".into()),
        fingerprint: "print".into(),
    }];
    let present = vec!["Videos/renamed.mp4".to_string()];
    assert!(index.has_missing(&present));
    assert_eq!(index.relocate(&outputs, &present), vec![0]);
    assert!(index.is_recorded_indexed(&keys, &present));
}

#[test]
fn outputs_are_known_by_their_names() {
    let candidate = Candidate {
        candidate_id: "Frag 1".into(),
        clip_start_tick: 100,
        clip_end_tick: 300,
        ..Candidate::default()
    };
    let names = vec![
        "other__t1-2.mp4".to_string(),
        "demo__frag_1__t100-300.mp4".to_string(),
        "x__ktoken.mp4".to_string(),
    ];
    assert_eq!(match_output(&names, "token", &candidate), Some(1));
    assert_eq!(match_output(&names[2..].to_vec(), "token", &candidate), Some(0));
    let mut index = RecordingIndex::empty("index");
    let outputs = vec![FoundOutput {
        path: "Videos/Airshot/demo__frag_1__t100-300.mp4".into(),
        name: Some("demo__Frag_1__t100-300.mp4".into()),
        parent_name: Some("Airshot".into()),
        fingerprint: "print".into(),
    }];
    let marks = vec![DemoMarks { portable: Some("demo".into()), legacy: None }];
    let present = vec!["Videos/Airshot/demo__frag_1__t100-300.mp4".to_string()];
    let (fresh, moved) =
        index.reconcile_output_root(&vec![candidate], &marks, &outputs, &present, "now");
    assert_eq!(fresh.len(), 1);
    assert!(moved.is_empty());
    assert_eq!(fresh[0].output_fingerprint, "print");
}

#[test]
fn contents_are_known_by_their_digest() {
    assert_eq!(
        digest(&b"abc".to_vec()),
        "ba7816bf8f01cfea414140de5dae2223b00361a396177a9cb410ff61f20015ad"
    );
    assert_eq!(file_fingerprint(&b"abc".to_vec()), digest(&b"abc".to_vec()));
    let one = portable_demo_signature(3, &b"abc".to_vec(), &None);
    let other = portable_demo_signature(4, &b"abc".to_vec(), &None);
    assert_eq!(one, format!("3:{}", digest(&b"abc3".to_vec())));
    assert_ne!(one, other);
    let sample = |name: &str| FileSample {
        relative: name.into(),
        length: 3,
        head: b"abc".to_vec(),
        tail: None,
    };
    assert_ne!(output_fingerprint(&vec![sample("a")]), output_fingerprint(&vec![sample("b")]));
    assert_eq!(recording_key_token("0123456789abcdef0123456789"), "0123456789abcdef01234567");
    assert_eq!(recording_key_token("short"), "short");
}

#[test]
fn what_was_recorded_is_recognized() {
    let file = |name: &str, size: u64| FoundFile { name: name.into(), size };
    assert!(image_artifacts_exist(&vec![file("clip0001.tga", 9)], "clip"));
    assert!(!image_artifacts_exist(&vec![file("clip0001.tga", 0)], "clip"));
    assert!(output_still_exists(Some(5), &None));
    assert!(!output_still_exists(Some(0), &None));
    assert!(output_still_exists(None, &Some(vec![file("frame00000.JPG", 9)])));
    assert!(!output_still_exists(None, &Some(vec![file("notes.txt", 9)])));
    assert_eq!(file_extension("a.b.wav").as_deref(), Some("wav"));
    let takes = vec![
        TakeFolder { name: "take0001".into(), has_media: true },
        TakeFolder { name: "take0000".into(), has_media: true },
        TakeFolder { name: "other".into(), has_media: true },
    ];
    assert_eq!(find_encoded_take_directory(false, &takes), Some(1));
    assert_eq!(find_encoded_take_directory(true, &takes), None);
    let moves = plan_image_sequence(
        &vec!["clip0000.tga".into(), "clip.wav".into()],
        true,
        "clip",
        "name",
        "c",
    )
    .expect("frames");
    assert_eq!(moves.len(), 2);
    assert!(moves[1].is_audio);
    assert!(plan_image_sequence(&Vec::new(), false, "clip", "name", "c").is_err());
}
