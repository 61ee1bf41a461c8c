use tf2_frag_demo_helper::arrange::arrange;
use tf2_frag_demo_helper::batches::{effective_parallelism, estimate_batch_preflight_from_jobs};
use tf2_frag_demo_helper::bookmarks::{append_bookmarks, Bookmark, BOOKMARK_SCORE};
use tf2_frag_demo_helper::candidates::split_sequences;
use tf2_frag_demo_helper::clips::{clip_window, split_recording_passes};
use tf2_frag_demo_helper::deaths::{AirshotGeometry, Death, ForceFollowup, ProjectileEvidence};
use tf2_frag_demo_helper::encoding::{
    effective_avi_encoding, effective_dnxhr_encoding, effective_mp4_encoding,
};
use tf2_frag_demo_helper::floating::Double;
use tf2_frag_demo_helper::keyed::{find_key, find_value, remove_key, Keyed};
use tf2_frag_demo_helper::models::{Candidate, CandidateMetrics, DemoContext};
use tf2_frag_demo_helper::order::{insert_number, insert_text, sorted_distinct, text_less};
use tf2_frag_demo_helper::preflight::DiskSpace;
use tf2_frag_demo_helper::queue::TimedClip;
use tf2_frag_demo_helper::record::{Record, Scalar, Value};
use tf2_frag_demo_helper::recordings::{RecordingEntry, RecordingIndex};
use tf2_frag_demo_helper::roots::floor_root;
use tf2_frag_demo_helper::rounds::Round;
use tf2_frag_demo_helper::scheduler::{
    DemoJob, MachineResources, PerformanceProfile, ResourcePlan, RuntimeGovernor, GIB, MIB,
};
use tf2_frag_demo_helper::scoring::{airshot_style_bonus, kill_tags, LineDetail};
use tf2_frag_demo_helper::scripts::{
    manual_hotkey_cfg, recording_profile_cfg, recording_start_cfg, recording_stream_preset,
};
use tf2_frag_demo_helper::sequence::{
    count_kills, count_victims, friendly_respawns, score_group, KillTrait, ObjectiveEvent,
};
use tf2_frag_demo_helper::settings::AppSettings;
use tf2_frag_demo_helper::space::estimate_recording_space;
use tf2_frag_demo_helper::vdm::{vdm_text, OrderedClip};

fn texts(list: &[&str]) -> Vec<String> {
    list.iter().map(|text| text.to_string()).collect()
}

fn double(value: f64) -> Double {
    Double::from_bits(value.to_bits()).expect("a finite number")
}

fn kill(tick: i64, victim: i64, victim_class: &str) -> Death {
    Death {
        event_tick: tick,
        demo_tick: tick,
        attacker: 5,
        victim,
        round_index: 1,
        weapon: "rocketlauncher".into(),
        attacker_class: "soldier".into(),
        attacker_team: "red".into(),
        victim_class: victim_class.into(),
        victim_team: "blu".into(),
        ..Death::default()
    }
}

fn round(end: i64) -> Round<String> {
    Round {
        index: 1,
        start: 100,
        end,
        round_active_tick: 150,
        start_event: "teamplay_round_active".into(),
        end_event: "teamplay_round_win".into(),
        winning_team: 2,
        ready_up: false,
        red_ready_tick: None,
        blu_ready_tick: None,
        ready_restart_tick: None,
        countdown_tick: None,
        setup_finished_tick: None,
        activation_trigger: "round_active".into(),
    }
}

#[test]
fn three_kills_add_up() {
    let group = vec![kill(1_000, 6, "medic"), kill(1_100, 7, "scout"), kill(1_200, 8, "pyro")];
    let scored = score_group(&group, &round(9_500), &Vec::new(), &Vec::new());
    assert_eq!(scored.score, 8_700);
    assert_eq!(
        scored.tags,
        texts(&["medic_pick", "multi_kill", "projectile_kill", "rocket", "three_kill"])
    );
    let lines: Vec<(&str, i64)> =
        scored.lines.iter().map(|line| (line.reason.as_str(), line.points)).collect();
    assert_eq!(
        lines,
        vec![
            ("candidate_base", 1_000),
            ("medic_pick", 1_800),
            ("additional_kills", 3_600),
            ("three_kill", 1_500),
            ("projectile_sequence", 800),
        ]
    );
    assert_eq!(count_victims(&group), 3);
    assert_eq!(count_kills(&group, KillTrait::MedicVictim), 1);
    assert_eq!(kill_tags(&group[0]), texts(&["medic_pick", "projectile_kill", "rocket"]));
}

#[test]
fn a_rapid_sequence_that_wins_the_round_is_worth_more() {
    let group = vec![kill(1_000, 6, "scout"), kill(1_100, 7, "demoman")];
    let scored = score_group(&group, &round(1_250), &Vec::new(), &Vec::new());
    // Base 10, demoman 10, second kill 18, rapid 12, projectile 8, late 8, clinch 12.
    assert_eq!(scored.score, 7_800);
    assert!(scored.tags.contains(&"round_clinch".to_string()));
    assert!(scored.tags.contains(&"rapid_sequence".to_string()));
}

#[test]
fn friends_who_are_back_before_the_first_enemy_are_told() {
    assert_eq!(friendly_respawns(&vec![90, 40, 40, 10, 60, 91], 10, 90), vec![40, 60, 90]);
    assert!(friendly_respawns(&Vec::new(), 0, 100).is_empty());

    let mut group = vec![kill(1_000, 6, "scout"), kill(1_100, 7, "pyro"), kill(1_200, 8, "spy")];
    group[0].state.friendly_alive_before = 2;
    group[0].state.enemy_alive_before = 4;
    group[0].state.victim_next_respawn_tick = Some(1_150);
    group[1].state.victim_next_respawn_tick = Some(1_900);
    group[2].state.victim_next_respawn_tick = Some(1_700);
    group[2].state.friendly_pending_respawn_ticks = vec![1_650, 1_200, 1_700, 1_650, 1_300, 1_701];
    let scored = score_group(&group, &round(9_500), &Vec::new(), &Vec::new());
    assert_eq!(scored.facts.earliest_enemy_respawn_tick, 1_700);
    assert_eq!(scored.friendly_respawns, vec![1_300, 1_650, 1_700]);
    let window = scored
        .lines
        .iter()
        .find(|line| line.reason == "sequence_created_player_count_window")
        .expect("a window");
    assert!(matches!(
        window.detail,
        LineDetail::Window {
            friendly_alive_before: 2,
            enemy_alive_before: 4,
            enemy_alive_after: 1,
            window_ticks: 500,
            earliest_enemy_respawn_tick: 1_700,
        }
    ));
    // Where no enemy comes back the round's end is the limit.
    for kill in &mut group {
        kill.state.victim_next_respawn_tick = None;
    }
    let scored = score_group(&group, &round(1_675), &Vec::new(), &Vec::new());
    assert_eq!(scored.friendly_respawns, vec![1_300, 1_650]);
}

#[test]
fn lines_tell_what_they_rest_on() {
    let mut group = vec![kill(1_000, 6, "medic"), kill(1_300, 7, "scout"), kill(1_600, 8, "spy")];
    group[0].custom_kill = 10;
    group[0].state.confirmed_uber_drop = true;
    group[0].state.recent_friendly_deaths = 2;
    group[0].state.enemy_uber_advantage_before = true;
    group[0].state.player_disadvantage_before = 3;
    group[0].state.enemy_medic_charge = Some(double(99.5));
    group[0].state.enemy_alive_before = 3;
    group[0].state.enemy_state_roster = 6;
    group[1].weapon = "bottle".into();
    group[1].weapon_slot = "melee".into();
    group[1].weapon_def_index = 1;
    group[2].state.victim_airborne_before_projectile_impact = true;
    group[2].state.projectile = Some(ProjectileEvidence {
        entity_id: 70,
        projectile_type: "rocket".into(),
        launcher_handle: Some(9),
        distance: double(12.5),
        launch_tick: 1_550,
        impact_tick: 1_600,
        flight_ms: 750,
        path_length: double(800.0),
        airshot_eligible: true,
    });
    let geometry = AirshotGeometry {
        relative_height: double(200.0),
        horizontal_distance: double(100.0),
        elevation: double(63.4),
    };
    group[2].state.geometry = Some(geometry);
    group[2].state.enemy_medic_force_followups =
        vec![ForceFollowup { event_tick: 1_700, medic_user_id: 4, target_user_id: 6 }];
    let objective = |tick: i64, kind: &str, actor: i64| ObjectiveEvent {
        tick,
        team: 2,
        actor_user_id: actor,
        kind: kind.into(),
        data: Record::new(),
    };
    let objectives = vec![objective(1_550, "payload_progress", 5), objective(1_650, "payload_progress", 9)];
    let scored = score_group(&group, &round(9_500), &Vec::new(), &objectives);
    let detail = |reason: &str| {
        let line = scored.lines.iter().find(|line| line.reason == reason).expect(reason);
        (line.kill, format!("{:?}", line.detail))
    };
    let told = |detail: LineDetail<String>| format!("{detail:?}");
    assert_eq!(
        detail("confirmed_taunt_kill"),
        (Some(0), told(LineDetail::Taunt { name: "grand_slam".into() }))
    );
    assert_eq!(detail("confirmed_uber_drop"), (Some(0), told(LineDetail::VictimCharge)));
    assert_eq!(
        detail("player_melee_kill"),
        (Some(1), told(LineDetail::Weapon { name: "bottle".into(), definition: 1 }))
    );
    assert_eq!(detail("state_confirmed_airshot"), (Some(2), told(LineDetail::Projectile)));
    assert_eq!(
        detail("direct_airshot_proximity"),
        (Some(2), told(LineDetail::Distance { units: double(12.5) }))
    );
    assert_eq!(detail("long_flight_airshot"), (Some(2), told(LineDetail::Flight { ms: 750 })));
    assert_eq!(
        detail("relative_height_airshot_style"),
        (Some(2), told(LineDetail::Stance { geometry }))
    );
    assert_eq!(
        detail("sequence_finished_enemy_team"),
        (None, told(LineDetail::EnemiesAlive { count: 3 }))
    );
    assert_eq!(
        detail("enemy_medic_forced_uber_after_sequence"),
        (None, told(LineDetail::ForcedCharges))
    );
    assert_eq!(
        detail("sack_uber_recovery_after_losses"),
        (
            None,
            told(LineDetail::Losses {
                recent_friendly_deaths: 2,
                player_disadvantage_before: 3,
                friendly_medic_charge: None,
                enemy_medic_charge: Some(double(99.5)),
            })
        )
    );
    assert_eq!(
        detail("kill_sequence_led_to_payload_progress"),
        (None, told(LineDetail::Push { at: 1, pusher: 9 }))
    );
    assert_eq!(detail("candidate_base"), (None, told(LineDetail::Nothing)));
}

#[test]
fn an_encoding_of_its_own_is_registered() {
    let mut settings = AppSettings::default();
    settings.ffmpeg_executable = "C:/ffmpeg/bin/ffmpeg.exe".into();
    settings.recording_format = "MOV - DNxHR".into();
    let preset = recording_stream_preset(&settings);
    assert_eq!(preset, "tf2FragDnxhr");
    assert!(recording_profile_cfg(&settings).contains(
        "mirv_streams settings add ffmpegEx tf2FragDnxhr \"{QUOTE}C:/ffmpeg/bin/ffmpeg.exe{QUOTE}"
    ));
}

#[test]
fn a_score_is_never_negative() {
    let mut random = kill(1_000, 6, "scout");
    random.weapon = "shotgun".into();
    random.crit_type = 2;
    let scored = score_group(&vec![random], &round(9_500), &Vec::new(), &Vec::new());
    assert_eq!(scored.score_before_floor, -200);
    assert_eq!(scored.score, 0);
    assert_eq!(airshot_style_bonus(double(0.0), double(0.0)), 0);
}

#[test]
fn the_space_for_images_is_exact() {
    let mut settings = AppSettings::default();
    settings.recording_output_directory = "out".into();
    settings.recording_format = "TGA Image Sequence".into();
    settings.resolution = "1920x1080".into();
    settings.capture_fps = 60;
    settings.lead_seconds = 0;
    settings.outro_seconds = 0;
    let candidates =
        vec![Candidate { point_of_kill_ticks: vec![1_000, 1_667], ..Candidate::default() }];
    assert_eq!(clip_window(&candidates[0], &settings), (1_000, 1_667));
    let disk = DiskSpace { mount_point: "/".into(), available_bytes: 4_847_994_369 };
    let estimate = estimate_recording_space(&candidates, &settings, &disk).expect("estimate");
    assert_eq!(f64::from_bits(estimate.duration_seconds.to_bits()), 667.0 / 66.666_666_7);
    assert_eq!(estimate.frame_count, 601);
    assert!(estimate.summary().contains("1 clip(s), 10.0 seconds, 601 frames"));
    assert_eq!(estimate.final_output_bytes, 3_740_632_578);
    assert_eq!(estimate.peak_working_bytes, 3_774_252_546);
    assert_eq!(estimate.safety_headroom_bytes, 1_073_741_824);
    assert_eq!(estimate.required_free_bytes, 4_847_994_370);
    assert!(!estimate.has_enough_space());
}

fn job(order: usize, source: u64) -> DemoJob {
    DemoJob {
        order,
        demo_path: format!("{order}.dem"),
        export_directory: format!("out/{order}"),
        source_bytes: source,
        parsed_bytes: 0,
    }
}

#[test]
fn a_batch_is_estimated_exactly() {
    let machine = MachineResources {
        logical_processors: 3,
        total_memory_bytes: 64 * GIB,
        available_memory_bytes: 48 * GIB,
    };
    let jobs = vec![job(1, 100 * MIB)];
    let plan = ResourcePlan::detect(&jobs, PerformanceProfile::High, machine);
    assert_eq!(plan.parse_worker_ceiling, 1);
    assert_eq!(plan.analysis_worker_ceiling, 3);
    let disk = DiskSpace { mount_point: "/".into(), available_bytes: 4_102_644_350 };
    let estimate =
        estimate_batch_preflight_from_jobs(&jobs, &Vec::new(), plan, &disk).expect("estimate");
    assert_eq!(estimate.estimated_parse_bytes, 3_416_773_140);
    assert_eq!(estimate.estimated_analysis_addition_bytes, 2_097_152);
    assert_eq!(estimate.estimated_total_output_bytes, 3_418_870_292);
    assert_eq!(estimate.safety_headroom_bytes, 683_774_058);
    assert_eq!(estimate.required_free_bytes, 4_102_644_350);
    assert_eq!(estimate.estimated_parse_seconds, 29);
    assert_eq!(estimate.estimated_analysis_seconds, 20);
    assert!(estimate.has_enough_space());
    let share = double(0.7);
    assert!(effective_parallelism(4, share).less(effective_parallelism(5, share)));
}

#[test]
fn workers_follow_from_processors_and_memory() {
    let machine = MachineResources {
        logical_processors: 16,
        total_memory_bytes: 64 * GIB,
        available_memory_bytes: 48 * GIB,
    };
    let jobs: Vec<DemoJob> = (1..=16).map(|order| job(order, 100 * MIB)).collect();
    let high = ResourcePlan::detect(&jobs, PerformanceProfile::High, machine);
    assert_eq!(high.reserved_memory_bytes, 8 * GIB);
    assert_eq!(high.estimated_parse_worker_bytes, 512 * MIB);
    assert_eq!(high.parse_worker_ceiling, 14);
    assert_eq!(high.analysis_job_ceiling, 14);
    let medium = ResourcePlan::detect(&jobs, PerformanceProfile::Medium, machine);
    assert_eq!(medium.parse_worker_ceiling, 10);
    let low = ResourcePlan::detect(&jobs, PerformanceProfile::Low, machine);
    assert_eq!(low.parse_worker_ceiling, 6);
    assert_eq!(PerformanceProfile::Low.target_cpu_percent(), 55);
    assert_eq!(PerformanceProfile::Low.scale(1), 1);
}

#[test]
fn pauses_grow_with_the_load() {
    let machine = MachineResources {
        logical_processors: 8,
        total_memory_bytes: 32 * GIB,
        available_memory_bytes: 24 * GIB,
    };
    let mut governor = RuntimeGovernor::new(PerformanceProfile::Medium, GIB, machine);
    let mut delays = Vec::new();
    for load in [75.0_f32, 75.99, 76.0, 90.0, 100.0] {
        assert!(governor.refresh(load.to_bits(), 24 * GIB).is_ok());
        delays.push(governor.delay_ms);
    }
    assert_eq!(delays, vec![0, 0, 13, 55, 85]);
    assert_eq!(governor.admission_limit(8), 6);
}

#[test]
fn sequences_are_split_where_a_player_waits() {
    let mut other = kill(1_050, 9, "spy");
    other.attacker = 6;
    let kills = vec![
        kill(1_000, 6, "scout"),
        kill(1_267, 7, "scout"),
        kill(1_535, 8, "scout"),
        other,
    ];
    let sequences = split_sequences(kills);
    let ticks: Vec<Vec<i64>> = sequences
        .iter()
        .map(|sequence| sequence.iter().map(|kill| kill.event_tick).collect())
        .collect();
    assert_eq!(ticks, vec![vec![1_000, 1_267], vec![1_535], vec![1_050]]);
}

#[test]
fn a_mark_goes_to_the_nearest_kill() {
    let candidate = |tick: i64| Candidate {
        candidate_id: format!("t{tick}"),
        attacker_class: "soldier".into(),
        clip_start_tick: tick - 333,
        clip_end_tick: tick + 200,
        point_of_kill_ticks: vec![tick],
        metrics: CandidateMetrics {
            kills: Some(2),
            bookmarks: None,
            bookmark_score: None,
            duration_seconds: None,
        },
        ..Candidate::default()
    };
    let mut candidates = vec![candidate(1_000), candidate(1_400)];
    let marks = vec![
        Bookmark { tick: 1_350, comment: "nice".into() },
        Bookmark { tick: 90_000, comment: "alone".into() },
    ];
    append_bookmarks(&mut candidates, &marks, "match.dem", &DemoContext::default());
    assert_eq!(candidates.len(), 3);
    assert_eq!(candidates[0].overall_score, 0);
    assert_eq!(candidates[1].overall_score, BOOKMARK_SCORE);
    assert_eq!(candidates[1].metrics.bookmarks, Some(1));
    assert_eq!(candidates[2].attacker_class, "bookmark");
    assert_eq!(candidates[2].bookmark_tick, Some(90_000));
    assert_eq!(candidates[2].clip_start_tick, 90_000 - 333);
}

#[test]
fn overlapping_clips_are_scripted_pass_by_pass() {
    let settings = AppSettings::default();
    let candidate = |tick: i64| Candidate {
        candidate_id: format!("t{tick}"),
        point_of_kill_ticks: vec![tick],
        ..Candidate::default()
    };
    let ticks = [1_000, 1_100, 5_000];
    let candidates: Vec<Candidate> = ticks.iter().map(|tick| candidate(*tick)).collect();
    let passes = split_recording_passes(&candidates, &settings);
    assert_eq!(passes, vec![vec![0, 2], vec![1]]);
    for pass in &passes {
        let clips: Vec<OrderedClip> = pass
            .iter()
            .map(|at| OrderedClip { order: *at as u64 + 1, candidate: candidate(ticks[*at]) })
            .collect();
        assert!(vdm_text(&clips, "session", None, &settings).is_ok());
    }
    let crowded: Vec<OrderedClip> = [0, 1]
        .iter()
        .map(|at| OrderedClip { order: *at as u64 + 1, candidate: candidate(ticks[*at]) })
        .collect();
    let fault = vdm_text(&crowded, "session", None, &settings).unwrap_err();
    assert!(fault.message().contains("t1100"));
}

#[test]
fn every_capture_hides_the_console() {
    for format in ["TGA Image Sequence", "JPG Image Sequence", "MP4 - Standard", "AVI - Raw"] {
        let mut settings = AppSettings::default();
        settings.recording_format = format.into();
        let cfg = recording_start_cfg(&settings, "base", "capture", r"C:\work");
        assert!(cfg.contains("hideconsole; gameui_hide; cancelselect; cl_chatfilters 0"));
        assert!(cfg.contains("host_framerate 120"));
    }
}

#[test]
fn the_keys_lead_to_every_kill() {
    let candidate =
        Candidate { point_of_kill_ticks: vec![300, 100, 300, 200], ..Candidate::default() };
    let cfg = manual_hotkey_cfg(&candidate, 50, "demos/a.dem", &AppSettings::default());
    for tick in [100, 200, 300] {
        assert_eq!(cfg.matches(&format!(" \"demo_gototick {tick};")).count(), 1);
    }
    let none = manual_hotkey_cfg(&Candidate::default(), 50, "demos/a.dem", &AppSettings::default());
    assert!(none.contains(" \"demo_gototick 50;"));
}

#[test]
fn one_encoding_is_in_force() {
    for (format, which) in
        [("MP4 - Standard", 0), ("AVI - Raw", 1), ("MOV - DNxHR", 2), ("TGA Image Sequence", 3)]
    {
        let mut settings = AppSettings::default();
        settings.recording_format = format.into();
        let told = |fps: u32| {
            let mut settings = settings.clone();
            settings.capture_fps = fps;
            (
                effective_mp4_encoding(&settings).unwrap(),
                effective_avi_encoding(&settings).unwrap(),
                effective_dnxhr_encoding(&settings).unwrap(),
            )
        };
        let (mp4, avi, dnxhr) = told(60);
        assert_eq!([mp4.is_some(), avi.is_some(), dnxhr.is_some()], [which == 0, which == 1, which == 2]);
        assert_eq!(told(60), told(240));
    }
}

#[test]
fn an_index_takes_over_what_it_lacks() {
    let entry = |key: &str, output: &str| RecordingEntry {
        recording_key: key.into(),
        output_path: output.into(),
        ..RecordingEntry::default()
    };
    let mut own = RecordingIndex::empty("own");
    own.store_entry(entry("a", "a.mp4"));
    own.store_entry(entry("b", "gone.mp4"));
    let mut other = RecordingIndex::empty("other");
    other.store_entry(entry("a", "a2.mp4"));
    other.store_entry(entry("b", "b2.mp4"));
    other.store_entry(entry("c", "lost.mp4"));
    own.merge_missing_entries(&other, &texts(&["a.mp4", "a2.mp4", "b2.mp4"]));
    assert_eq!(own.get("a").unwrap().output_path, "a.mp4");
    assert_eq!(own.get("b").unwrap().output_path, "b2.mp4");
    assert!(own.get("c").is_none());
    own.store_entry(entry("a", "again.mp4"));
    assert_eq!(own.entries.iter().filter(|entry| entry.recording_key == "a").count(), 1);
    assert_eq!(own.get("a").unwrap().output_path, "again.mp4");
}

#[test]
fn fields_are_found_as_they_were_set() {
    let mut record = Record::new();
    record.set("name", Value::One(Scalar::Text("Alice".into())));
    record.set("health", Value::One(Scalar::Int(125)));
    record.set("name", Value::One(Scalar::Text("Bob".into())));
    assert_eq!(record.string("name").map(String::as_str), Some("Bob"));
    assert_eq!(record.whole("health"), Some(125));
    let mut update = Record::new();
    update.set("health", Value::One(Scalar::Decimal(double(90.5))));
    record.merge(&update);
    assert_eq!(record.number("health"), Some(double(90.5)));
    assert_eq!(record.string("name").map(String::as_str), Some("Bob"));
}

#[test]
fn entries_are_found_by_their_key() {
    let mut list = vec![
        Keyed { key: 3, value: vec![1_i64] },
        Keyed { key: 5, value: vec![2, 3] },
    ];
    assert_eq!(find_key(&list, 5), Some(1));
    assert_eq!(find_value(&list, 3), Some(&vec![1]));
    remove_key(&mut list, 3);
    assert_eq!(find_key(&list, 3), None);
    assert_eq!(find_value(&list, 5), Some(&vec![2, 3]));
}

#[test]
fn lists_are_kept_in_order() {
    assert_eq!(sorted_distinct(&texts(&["b", "a", "b"])), texts(&["a", "b"]));
    let mut names = texts(&["a", "c"]);
    insert_text(&mut names, "b");
    insert_text(&mut names, "c");
    assert_eq!(names, texts(&["a", "b", "c"]));
    let mut numbers = vec![1, 5];
    insert_number(&mut numbers, 3);
    insert_number(&mut numbers, 5);
    assert_eq!(numbers, vec![1, 3, 5]);
    assert!(text_less("Z", "a") && !text_less("a", "a") && text_less("a", "ab"));
    let clips = arrange(vec![
        TimedClip { at: 0, start: 9, end: 10 },
        TimedClip { at: 1, start: 4, end: 6 },
        TimedClip { at: 2, start: 9, end: 9 },
    ]);
    let order: Vec<usize> = clips.iter().map(|clip| clip.at).collect();
    assert_eq!(order[0], 1);
    assert_eq!(order.len(), 3);
    let again: Vec<usize> = arrange(clips).iter().map(|clip| clip.at).collect();
    assert_eq!(again, order);
    for n in [0, 1, 2, 3, 4, 15, 16, 99, 100, 1 << 80] {
        let root = floor_root(n);
        assert!(root * root <= n && n < (root + 1) * (root + 1));
    }
}
