use std::collections::HashMap;
use tf2_frag_demo_helper::camera::{
    ask_windows, coalesce_track_windows, kill_groups, KillTold, TrackWindow, UserWindows,
};
use tf2_frag_demo_helper::models::{Candidate, DemoContext};
use tf2_frag_demo_helper::shots::{
    campath_xml, find_positions, plan_candidate_from_tracks, position_queries, sample_subjects,
    CampathPoint, CinematicPlan, KillShotPlan, ShotTiming, MIN_CINEMATIC_PRE_KILL_TICKS,
};
use tf2_frag_demo_helper::tracks::{
    continuous_track_start, find_position, read_tracks, CameraFault, PlayerSample, StateDelta,
    TrackPoint, TrackPosition, TrackRole,
};

fn told(event_tick: i64, demo_tick: i64, victim: i64) -> KillTold {
    KillTold {
        event_tick: Some(event_tick),
        demo_tick: Some(demo_tick),
        victim_user_id: Some(victim),
    }
}

fn gap_ticks(interval: f64) -> i64 {
    (0.22 / interval).ceil().max(2.0) as i64
}

#[test]
fn hlae_xml_has_normal_nonlinear_keyframes() {
    let plan = CinematicPlan {
        candidate_id: "test".into(),
        capture_type: "pov".into(),
        primary_kill_event_tick: 100,
        primary_kill_demo_tick: 90,
        victim_user_id: 2,
        attacker_user_id: 1,
        activation_demo_tick: 33,
        kill_shots: vec![KillShotPlan {
            demo_tick: 90,
            event_ticks: vec![100],
            victim_user_ids: vec![2],
            start_demo_tick: 33,
            end_demo_tick: 100,
            sample_ticks: vec![33, 90, 100],
        }],
    };
    let points: Vec<CampathPoint> = (0..4)
        .map(|index| CampathPoint {
            time: format!("{:.6}", index as f64 * 0.25),
            x: format!("{:.6}", index as f32),
            y: format!("{:.6}", 0.0),
            z: format!("{:.6}", 64.0),
            fov: format!("{:.6}", 75.0 - index as f32),
            pitch: format!("{:.6}", 0.0),
            yaw: format!("{:.6}", 90.0),
        })
        .collect();
    let xml = campath_xml(&points);
    assert_eq!(xml.matches("<p ").count(), 4);
    assert!(xml.contains("<campath hold=\"\">"));
    assert!(xml.contains("    <p t=\"0.250000\" x=\"1.000000\" y=\"0.000000\" z=\"64.000000\" fov=\"74.000000\" rx=\"0.000000\" ry=\"0.000000\" rz=\"90.000000\"/>\n"));
    let commands = plan.setup_commands("camera.xml");
    let setup = commands.find("sv_cheats 1; thirdperson; mirv_input camera").unwrap();
    let end = commands.find("mirv_input end").unwrap();
    let enabled = commands.find("mirv_campath enabled 1").unwrap();
    assert!(setup < end && end < enabled);
    assert!(plan.setup_commands("C:\\a\\\"b\".xml").contains("load \"C:/a/b.xml\""));
}

#[test]
fn selected_camera_windows_are_coalesced_but_remain_bounded() {
    let mut windows = vec![UserWindows {
        user_id: 31,
        windows: vec![
            TrackWindow { start_tick: 200, end_tick: 260 },
            TrackWindow { start_tick: 100, end_tick: 180 },
            TrackWindow { start_tick: 175, end_tick: 220 },
            TrackWindow { start_tick: 400, end_tick: 420 },
        ],
    }];
    coalesce_track_windows(&mut windows);
    assert_eq!(windows[0].user_id, 31);
    let merged = &windows[0].windows;
    assert_eq!(merged.len(), 2);
    assert_eq!(merged[0].start_tick, 100);
    assert_eq!(merged[0].end_tick, 260);
    assert_eq!(merged[1].start_tick, 400);
    assert_eq!(merged[1].end_tick, 420);
    let once: Vec<(i64, i64)> =
        merged.iter().map(|window| (window.start_tick, window.end_tick)).collect();
    coalesce_track_windows(&mut windows);
    let twice: Vec<(i64, i64)> =
        windows[0].windows.iter().map(|window| (window.start_tick, window.end_tick)).collect();
    assert_eq!(twice, once);
}

#[test]
fn every_distinct_kill_tick_becomes_a_shot_and_same_tick_victims_are_grouped() {
    let groups = kill_groups(&vec![
        told(1000, 900, 21),
        told(1001, 900, 22),
        told(1080, 980, 23),
        told(1140, 1040, 24),
    ]);
    assert_eq!(groups.len(), 3);
    assert_eq!(groups.iter().map(|group| group.demo_tick).collect::<Vec<_>>(), vec![900, 980, 1040]);
    assert_eq!(groups[0].victim_user_ids, vec![21, 22]);
    assert_eq!(groups[1].victim_user_ids, vec![23]);
    assert_eq!(groups[2].victim_user_ids, vec![24]);
}

#[test]
fn kills_without_a_victim_or_a_tick_are_not_shown() {
    let groups = kill_groups(&vec![
        KillTold { event_tick: Some(10), demo_tick: None, victim_user_id: None },
        KillTold { event_tick: Some(-1), demo_tick: Some(5), victim_user_id: Some(3) },
        KillTold { event_tick: Some(40), demo_tick: None, victim_user_id: Some(3) },
    ]);
    assert_eq!(groups.len(), 1);
    assert_eq!(groups[0].demo_tick, 40);
}

#[test]
fn cinematic_uses_shorter_continuous_track_after_a_gap() {
    let point = |tick, valid| TrackPoint {
        tick,
        entity_id: 17,
        generation: 4,
        place: Some(tick as usize),
        valid,
    };
    let points = vec![
        point(30, true),
        point(40, false),
        point(60, true),
        point(70, true),
        point(80, true),
        point(90, true),
        point(100, true),
    ];
    let start =
        continuous_track_start(&points, 0, 100, gap_ticks(0.01), TrackRole::Victim).unwrap();
    assert_eq!(start, 60);
    assert!(100 - start >= MIN_CINEMATIC_PRE_KILL_TICKS);
}

#[test]
fn nineteen_tick_track_from_real_export_is_accepted() {
    let point = |tick, valid| TrackPoint {
        tick,
        entity_id: 23,
        generation: 534,
        place: Some(tick as usize),
        valid,
    };
    let points = vec![point(60, false), point(81, true), point(90, true), point(100, true)];
    let interval = 0.014_999_999_664_723_871;
    let start =
        continuous_track_start(&points, 34, 100, gap_ticks(interval), TrackRole::Victim).unwrap();
    let pre_ticks = 100 - start;
    let pre_seconds = pre_ticks as f64 * interval;
    assert_eq!(pre_ticks, 19);
    assert!((pre_seconds - 0.285).abs() < 0.000_001);
    assert!(pre_ticks >= MIN_CINEMATIC_PRE_KILL_TICKS);

    let offsets = [-pre_seconds, -pre_seconds * 0.68, -pre_seconds * 0.34, 0.0];
    let mut ticks = offsets
        .iter()
        .map(|seconds| 100 + (*seconds / interval).round() as i64)
        .collect::<Vec<_>>();
    ticks.sort_unstable();
    ticks.dedup();
    assert_eq!(ticks.len(), 4);
}

#[test]
fn a_track_that_ends_too_early_is_refused() {
    let point = TrackPoint { tick: 10, entity_id: 1, generation: 1, place: Some(0), valid: true };
    assert_eq!(
        continuous_track_start(&Vec::new(), 0, 100, 15, TrackRole::Attacker),
        Err(CameraFault::NoSamples)
    );
    let fault = continuous_track_start(&vec![point], 0, 100, 15, TrackRole::Attacker).unwrap_err();
    assert_eq!(
        fault,
        CameraFault::NotNetworked { role: TrackRole::Attacker, missing_ticks: 90 }
    );
    assert_eq!(
        fault.text("1.350"),
        "cinematic angle unavailable: the attacker was not continuously networked at the kill (last valid coverage is more than 1.350 seconds away)"
    );
}

#[test]
fn a_position_lies_between_points_or_at_one() {
    let point = |tick, valid| TrackPoint {
        tick,
        entity_id: 1,
        generation: 1,
        place: Some(0),
        valid,
    };
    let points = vec![point(10, true), point(20, true), point(60, true)];
    assert_eq!(
        find_position(&points, 15, 15, TrackRole::Victim),
        Ok(TrackPosition::Between { left: 0, right: 1 })
    );
    assert_eq!(
        find_position(&points, 30, 15, TrackRole::Victim),
        Ok(TrackPosition::At { point: 1 })
    );
    assert_eq!(
        find_position(&points, 50, 15, TrackRole::Victim),
        Ok(TrackPosition::At { point: 2 })
    );
    assert_eq!(
        find_position(&points, 40, 15, TrackRole::Victim),
        Err(CameraFault::NoPosition { role: TrackRole::Victim, tick: 40 })
    );
}

fn sample(user: i64, entity: u32, place: usize) -> PlayerSample {
    PlayerSample {
        entity_id: entity,
        user_id: Some(user),
        in_pvs: true,
        life_state: "Alive".into(),
        spawn_generation: Some(2),
        simulation_tick: Some(1),
        fresh: Some(true),
        finite: true,
        place,
    }
}

#[test]
fn only_players_that_are_asked_for_are_followed() {
    let windows = vec![UserWindows {
        user_id: 5,
        windows: vec![TrackWindow { start_tick: 10, end_tick: 30 }],
    }];
    let lines = vec![
        StateDelta { demo_tick: 5, players: vec![sample(5, 1, 0)], removed_players: vec![] },
        StateDelta {
            demo_tick: 20,
            players: vec![sample(5, 1, 1), sample(6, 2, 2)],
            removed_players: vec![],
        },
        StateDelta { demo_tick: 15, players: vec![sample(5, 1, 3)], removed_players: vec![] },
        StateDelta { demo_tick: 25, players: vec![], removed_players: vec![1] },
    ];
    let tracks = read_tracks(&lines, &windows).expect("camera fields");
    assert_eq!(tracks.len(), 1);
    let track = &tracks[&5];
    assert_eq!(track.iter().map(|point| point.tick).collect::<Vec<_>>(), vec![15, 20, 25]);
    assert!(track[1].valid);
    assert_eq!(track[1].place, Some(1));
    assert!(!track[2].valid);
    assert_eq!(track[2].generation, 2);
    assert_eq!(read_tracks(&Vec::new(), &windows).unwrap_err(), CameraFault::OldExport);
}

#[test]
fn a_candidate_asks_for_its_attacker_and_its_victims() {
    let groups = kill_groups(&vec![told(1000, 900, 21), told(1080, 980, 22)]);
    let mut windows: Vec<UserWindows> = Vec::new();
    assert!(ask_windows(&mut windows, &groups, 5, 700, 15));
    assert!(!ask_windows(&mut windows, &Vec::new(), 5, 700, 15));
    let of = |user: i64| {
        windows.iter().find(|entry| entry.user_id == user).map(|entry| entry.windows.clone())
    };
    assert_eq!(of(5), Some(vec![TrackWindow { start_tick: 702, end_tick: 995 }]));
    assert_eq!(of(21), Some(vec![TrackWindow { start_tick: 702, end_tick: 915 }]));
    assert_eq!(of(22), Some(vec![TrackWindow { start_tick: 702, end_tick: 995 }]));
}

fn track(ticks: std::ops::RangeInclusive<i64>) -> Vec<TrackPoint> {
    ticks
        .step_by(10)
        .map(|tick| TrackPoint {
            tick,
            entity_id: 1,
            generation: 1,
            place: Some(tick as usize),
            valid: true,
        })
        .collect()
}

#[test]
fn shots_follow_each_other() {
    let candidate = Candidate {
        candidate_id: "c".into(),
        attacker_user_id: 5,
        clip_start_tick: 798,
        demo_context: DemoContext { capture_type: "stv".into(), ..DemoContext::default() },
        ..Candidate::default()
    };
    let groups = kill_groups(&vec![told(1000, 900, 21), told(1030, 930, 22)]);
    let timing = ShotTiming::new(15, 21, 47, 13);
    let mut tracks: HashMap<i64, Vec<TrackPoint>> = HashMap::new();
    assert_eq!(
        plan_candidate_from_tracks(&candidate, &groups, &tracks, timing).unwrap_err(),
        CameraFault::NoAttackerTrack { attacker: 5 }
    );
    tracks.insert(5, track(800..=1000));
    tracks.insert(21, track(800..=900));
    assert_eq!(
        plan_candidate_from_tracks(&candidate, &groups, &tracks, timing).unwrap_err(),
        CameraFault::NoVictimTrack { victim: 22, tick: 930 }
    );
    tracks.insert(22, track(800..=930));
    let plan = plan_candidate_from_tracks(&candidate, &groups, &tracks, timing).expect("a plan");
    assert_eq!(plan.activation_demo_tick, 800);
    assert_eq!(plan.victim_user_id, 22);
    assert_eq!(plan.primary_kill_event_tick, 1030);
    assert_eq!(plan.kill_shots[0].sample_ticks, vec![800, 813, 826, 839, 852, 865, 878, 891, 900, 920]);
    assert_eq!(plan.kill_shots[0].end_demo_tick, 920);
    assert_eq!(plan.kill_shots[1].start_demo_tick, 921);
    assert_eq!(plan.kill_shots[1].sample_ticks, vec![921, 924, 927, 930, 951, 977]);
    assert_eq!(
        plan_candidate_from_tracks(&candidate, &Vec::new(), &tracks, timing).unwrap_err(),
        CameraFault::NoKill
    );

    let queries = position_queries(&plan.kill_shots[0]);
    assert_eq!(queries.len(), 1 + 9 * 2 + 1);
    let subjects = sample_subjects(&plan.kill_shots[0], &queries);
    assert_eq!(subjects.len(), 10);
    assert_eq!((subjects[0].attacker, subjects[0].victims.clone()), (1, vec![2]));
    assert_eq!((subjects[8].attacker, subjects[8].victims.clone()), (17, vec![18]));
    assert_eq!((subjects[9].attacker, subjects[9].victims.clone()), (19, vec![0]));
    assert!(subjects.iter().all(|told| queries[told.attacker].victim.is_none()));
    let found = find_positions(&queries, &tracks[&5], &tracks, timing.max_gap).expect("positions");
    assert_eq!(found[0], TrackPosition::Between { left: 9, right: 10 });
    let late = Candidate { clip_start_tick: 896, ..candidate };
    assert_eq!(
        plan_candidate_from_tracks(&late, &groups, &tracks, timing).unwrap_err(),
        CameraFault::TooShort { tick: 900, available: 2 }
    );
}
