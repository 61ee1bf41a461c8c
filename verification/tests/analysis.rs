use tf2_frag_demo_helper::analysis::{
    analyze_kills, enrich_kills, gate_kills, set_mode, DemoNames,
};
use tf2_frag_demo_helper::bookmarks::{
    append_bookmarks, bookmark_entries, merge_bookmarks, rank_candidates, Bookmark, BOOKMARK_SCORE,
};
use tf2_frag_demo_helper::capture::{capture_context, CaptureNote, RosterPlayer};
use tf2_frag_demo_helper::clips::sanitize;
use tf2_frag_demo_helper::deaths::ItemInfo;
use tf2_frag_demo_helper::events::{canonical_class, canonical_team_value, EventRecord};
use tf2_frag_demo_helper::evidence::AIRSHOT_LOOSE_CANNON_IMPACT_GUARD_TICKS;
use tf2_frag_demo_helper::floating::Double;
use tf2_frag_demo_helper::keyed::{Keyed, Sample};
use tf2_frag_demo_helper::models::{Candidate, CandidateMetrics, DemoContext};
use tf2_frag_demo_helper::modes::{classify_mode, sixes_fit, ClassCount};
use tf2_frag_demo_helper::motion::{
    airshot_offsets, matching_projectile, player_airborne_before_impact,
};
use tf2_frag_demo_helper::record::{Field, Record, Scalar, Value};
use tf2_frag_demo_helper::rounds::build_rounds;
use tf2_frag_demo_helper::schema::{parse_item_schema, quoted_values};
use tf2_frag_demo_helper::scoring::airshot_style_bonus;
use tf2_frag_demo_helper::tracking::{StateRecord, StateScan, StateTracker};

fn field(name: &str, value: Value) -> Field {
    Field { name: name.into(), value }
}

fn number(value: i64) -> Value {
    Value::One(Scalar::Int(value))
}

fn text(value: &str) -> Value {
    Value::One(Scalar::Text(value.into()))
}

fn flag(value: bool) -> Value {
    Value::One(Scalar::Bool(value))
}

fn vector(x: i64, y: i64, z: i64) -> Value {
    Value::Many(vec![
        Value::One(Scalar::Decimal(Double::integer(x))),
        Value::One(Scalar::Decimal(Double::integer(y))),
        Value::One(Scalar::Decimal(Double::integer(z))),
    ])
}

fn nested(fields: Vec<Field>) -> Value {
    Value::Nested(fields)
}

fn record(fields: Vec<Field>) -> Record {
    Record { fields }
}

fn movement_state(on_ground: bool, z: i64, velocity_z: i64) -> Record {
    record(vec![
        field("on_ground", flag(on_ground)),
        field("position", vector(0, 0, z)),
        field("velocity", vector(0, 0, velocity_z)),
        field("blast_jumping", flag(false)),
    ])
}

fn history(samples: Vec<(i64, Record)>) -> StateScan {
    let mut scan = StateScan::empty();
    scan.player_history.push(Keyed {
        key: 42,
        value: samples.into_iter().map(|(tick, state)| Sample { tick, state }).collect(),
    });
    scan
}

fn marks(events: Vec<(i64, &str, &str)>) -> Vec<Bookmark> {
    let events = events
        .into_iter()
        .map(|(tick, name, value)| {
            record(vec![
                field("tick", number(tick)),
                field("name", text(name)),
                field("value", text(value)),
            ])
        })
        .collect();
    merge_bookmarks(&bookmark_entries(&Vec::new(), &events))
}

#[test]
fn tolerant_sixes_allows_one_offclass() {
    let count = |class: &str, count: usize| ClassCount { class: class.into(), count };
    let roster = vec![
        count("scout", 1),
        count("sniper", 1),
        count("soldier", 2),
        count("demoman", 1),
        count("medic", 1),
    ];
    assert!(sixes_fit(&roster));
}

#[test]
fn elevated_stationary_player_is_not_an_airshot() {
    let scan = history(vec![
        (980, movement_state(false, 256, 0)),
        (990, movement_state(false, 256, 0)),
        (999, movement_state(false, 256, 0)),
    ]);
    assert!(!player_airborne_before_impact(&scan, 42, 1_000, 0));
}

#[test]
fn player_moving_up_a_high_ledge_without_takeoff_is_not_an_airshot() {
    let scan = history(vec![
        (960, movement_state(false, 240, 0)),
        (980, movement_state(false, 246, 90)),
        (990, movement_state(false, 256, 90)),
        (999, movement_state(false, 268, 90)),
    ]);
    assert!(!player_airborne_before_impact(&scan, 42, 1_000, 0));
}

#[test]
fn moving_victim_already_airborne_before_impact_is_an_airshot() {
    let scan = history(vec![
        (965, movement_state(true, 192, 0)),
        (975, movement_state(false, 198, 220)),
        (980, movement_state(false, 208, 180)),
        (990, movement_state(false, 228, 120)),
        (999, movement_state(false, 240, 70)),
    ]);
    assert!(player_airborne_before_impact(&scan, 42, 1_000, 0));
}

#[test]
fn loose_cannon_launch_after_collision_cannot_create_its_own_airshot() {
    let scan = history(vec![
        (980, movement_state(true, 128, 0)),
        (993, movement_state(true, 128, 0)),
        (995, movement_state(false, 130, 260)),
        (999, movement_state(false, 145, 220)),
        (1_000, movement_state(false, 150, 200)),
        (1_010, movement_state(false, 170, 180)),
    ]);
    assert!(!player_airborne_before_impact(
        &scan,
        42,
        1_000,
        AIRSHOT_LOOSE_CANNON_IMPACT_GUARD_TICKS,
    ));
}

#[test]
fn loose_cannon_can_still_confirm_victim_airborne_well_before_collision() {
    let scan = history(vec![
        (940, movement_state(true, 128, 0)),
        (950, movement_state(false, 136, 240)),
        (965, movement_state(false, 175, 170)),
        (972, movement_state(false, 193, 135)),
        (980, movement_state(false, 205, 110)),
        (990, movement_state(false, 216, 70)),
        (999, movement_state(false, 220, 260)),
    ]);
    assert!(player_airborne_before_impact(
        &scan,
        42,
        1_000,
        AIRSHOT_LOOSE_CANNON_IMPACT_GUARD_TICKS,
    ));
}

#[test]
fn airshot_geometry_uses_height_relative_to_attacker_not_world_height() {
    let at = |x: i64, y: i64, z: i64| record(vec![field("position", vector(x, y, z))]);
    let geometry = |attacker: &Record, victim: &Record| {
        let (height, away) = airshot_offsets(attacker, victim).unwrap();
        let (height, away) = (f64::from_bits(height.to_bits()), f64::from_bits(away.to_bits()));
        (height, away, height.atan2(away.max(0.001)).to_degrees())
    };
    let bonus = |height: f64, angle: f64| {
        airshot_style_bonus(
            Double::from_bits(height.to_bits()).unwrap(),
            Double::from_bits(angle.to_bits()).unwrap(),
        )
    };
    let attacker = at(0, 0, 1_000);
    let same_high_ledge = at(100, 0, 1_000);
    let victim_above = at(100, 0, 1_200);
    let (ledge_height, _, ledge_angle) = geometry(&attacker, &same_high_ledge);
    let (air_height, _, air_angle) = geometry(&attacker, &victim_above);
    assert_eq!(ledge_height, 0.0);
    assert_eq!(bonus(ledge_height, ledge_angle), 0);
    assert!(air_height >= 192.0);
    assert!(air_angle > 50.0);
    assert_eq!(bonus(air_height, air_angle), 17);
    let (_, away, _) = geometry(&attacker, &at(30, -40, 5));
    assert_eq!(away, 50.0);
    assert!(airshot_offsets(&attacker, &record(Vec::new())).is_none());
}

#[test]
fn a_pipe_that_moved_two_units_was_flown() {
    let number =
        |value: f64| Value::One(Scalar::Decimal(Double::from_bits(value.to_bits()).unwrap()));
    let seen = |tick: i64, x: f64, y: f64| Sample {
        tick,
        state: record(vec![
            field("projectile_type", text("pipe")),
            field("launcher_handle", Value::One(Scalar::Int(9))),
            field("position", Value::Many(vec![number(x), number(y), number(0.0)])),
        ]),
    };
    let attacker = record(vec![field("weapon_handles", Value::Many(vec![number(9.0), nested(vec![]), Value::One(Scalar::Int(9))]))]);
    let victim = record(vec![field("position", vector(1, 0, 0))]);
    let shot = |second: f64| {
        let mut scan = StateScan::empty();
        scan.projectile_tracks.push(Keyed {
            key: 77,
            value: vec![
                seen(990, 0.0, 0.0),
                seen(995, 0.5_f64.sqrt(), 0.0),
                seen(1_000, 0.5_f64.sqrt(), second),
            ],
        });
        matching_projectile(&attacker, &victim, "iron_bomber", 1_000, &scan).expect("a pipe")
    };
    // Two steps whose squares are 0.5 and 1.671574 make a way of two units.
    let far = shot(1.671_574_f64.sqrt());
    let length = f64::from_bits(far.path_length.to_bits());
    assert_eq!(length, 0.5_f64.sqrt() + 1.671_574_f64.sqrt());
    assert_eq!(far.airshot_eligible, length >= 2.0);
    assert!(far.airshot_eligible);
    assert!(!shot(1.671_5_f64.sqrt()).airshot_eligible);
    assert_eq!(far.flight_ms, 150);
    assert!(far.is_direct());
}

#[test]
fn steeper_higher_airshot_receives_more_style_points() {
    let bonus = |height: i64, elevation: i64| {
        airshot_style_bonus(Double::integer(height), Double::integer(elevation))
    };
    let low = bonus(80, 15);
    let medium = bonus(150, 30);
    let extreme = bonus(300, 55);
    assert!(low < medium);
    assert!(medium < extreme);
    assert_eq!(extreme, 20);
    assert_eq!(bonus(0, 55), 0);
}

#[test]
fn tf2_demo_support_events_are_read_as_bookmarks() {
    let events = vec![
        record(vec![
            field("tick", number(1_234)),
            field("name", text("bookmark")),
            field("value", text("nice frag")),
        ]),
        record(vec![
            field("tick", number(1_300)),
            field("name", text("killstreak")),
            field("value", text("3")),
        ]),
    ];
    let read = bookmark_entries(&Vec::new(), &events);
    assert_eq!(read.len(), 1);
    assert_eq!(read[0].tick, 1_234);
    assert_eq!(read[0].comment, "nice frag");
}

#[test]
fn empty_parser_bookmarks_do_not_hide_tf2_sidecar_bookmark() {
    let mut entries = bookmark_entries(&Vec::new(), &Vec::new());
    entries.extend(bookmark_entries(
        &Vec::new(),
        &vec![record(vec![
            field("tick", number(1234)),
            field("name", text("bookmark")),
            field("value", text("saved play")),
        ])],
    ));
    let mut candidates: Vec<Candidate> = Vec::new();
    append_bookmarks(
        &mut candidates,
        &merge_bookmarks(&entries),
        "marked.dem",
        &DemoContext::default(),
    );

    assert_eq!(candidates.len(), 1);
    assert_eq!(candidates[0].bookmark_tick, Some(1_234));
    assert_eq!(candidates[0].bookmark_comment, "saved play");
    assert_eq!(candidates[0].overall_score, BOOKMARK_SCORE);
    assert!(candidates[0].tags.iter().any(|tag| tag == "bookmark"));
}

#[test]
fn bookmark_candidate_inherits_nearby_frag_tags_and_score() {
    let original = Candidate {
        candidate_id: "frag".into(),
        source_demo: "marked.dem".into(),
        overall_score: 2_000,
        clip_start_tick: 900,
        clip_end_tick: 1_100,
        point_of_kill_ticks: vec![1_010],
        tags: vec!["airshot".into()],
        metrics: CandidateMetrics { kills: Some(1), ..CandidateMetrics::default() },
        ..Candidate::default()
    };
    let mut candidates = vec![original];

    append_bookmarks(
        &mut candidates,
        &marks(vec![(1000, "Bookmark", "airshot")]),
        "marked.dem",
        &DemoContext::default(),
    );

    assert_eq!(candidates.len(), 1);
    let bookmarked = &candidates[0];
    assert_eq!(bookmarked.candidate_id, "frag");
    assert_eq!(bookmarked.bookmark_tick, Some(1_000));
    assert_eq!(bookmarked.overall_score, 2_000 + BOOKMARK_SCORE);
    assert!(bookmarked.tags.iter().any(|tag| tag == "airshot"));
    assert!(bookmarked.tags.iter().any(|tag| tag == "bookmark"));
    assert_eq!(bookmarked.metrics.bookmark_score, Some(BOOKMARK_SCORE));
}

#[test]
fn separate_unlinked_bookmarks_remain_separate_candidates() {
    let mut candidates: Vec<Candidate> = Vec::new();
    append_bookmarks(
        &mut candidates,
        &marks(vec![(1000, "Bookmark", "first"), (1100, "Bookmark", "second")]),
        "marked.dem",
        &DemoContext::default(),
    );
    assert_eq!(candidates.len(), 2);
    assert_eq!(candidates[0].candidate_id, "bookmark-1000-0");
    assert_eq!(candidates[1].candidate_id, "bookmark-1100-1");
}

#[test]
fn a_mark_that_is_told_twice_is_set_once() {
    let merged = marks(vec![
        (1_200, "bookmark", "later"),
        (1_000, "bookmark", "Nice"),
        (1_000, "bookmark", " nice "),
    ]);
    assert_eq!(merged.len(), 2);
    assert_eq!(merged[0].tick, 1_000);
    assert_eq!(merged[1].tick, 1_200);
}

#[test]
fn the_best_candidates_come_first() {
    let candidate = |id: &str, score: i64, kills: u64| Candidate {
        candidate_id: id.into(),
        overall_score: score,
        metrics: CandidateMetrics { kills: Some(kills), ..CandidateMetrics::default() },
        ..Candidate::default()
    };
    let ranked = rank_candidates(vec![
        candidate("low single", 2_499, 1),
        candidate("single", 2_500, 1),
        candidate("double", 1_000, 2),
        candidate("best", 9_000, 3),
    ]);
    let ids: Vec<&str> = ranked.iter().map(|candidate| candidate.candidate_id.as_str()).collect();
    assert_eq!(ids, vec!["best", "single", "double"]);
}

#[test]
fn a_player_by_another_case_is_the_recorder() {
    let note = CaptureNote {
        classification: Some("POV".into()),
        confidence: Some("high".into()),
        evidence: Vec::new(),
    };
    let roster: Option<Vec<RosterPlayer>> = Some(vec![RosterPlayer {
        key: "7".into(),
        player: record(vec![field("name", text("Recorder")), field("user_id", number(7))]),
    }]);
    let context = capture_context(&note, &Vec::new(), "Recorder", &roster);
    assert_eq!(context.capture_type, "pov");
    assert_eq!(context.pov_player_user_id, Some(7));
    assert_eq!(context.analysis_scope, "pov_player_only");
}

#[test]
fn classes_and_teams_have_one_name() {
    assert_eq!(canonical_class(" 4 "), "demoman");
    assert_eq!(canonical_class("Demo"), "demo");
    assert_eq!(canonical_class("ÜBER"), "über");
    assert_eq!(canonical_team_value(&record(vec![field("team", number(2))]), "team"), "red");
    assert_eq!(canonical_team_value(&record(vec![field("team", text("BLUE"))]), "team"), "blu");
}

#[test]
fn a_config_tells_the_mode() {
    let verdict = classify_mode(
        "RGL Match Server",
        &vec!["exec rgl_6s_5cp_match".into()],
        &Vec::new(),
        false,
        &Vec::new(),
    );
    assert!(verdict.mode.contains("6"));
    let unknown = classify_mode("", &Vec::new(), &Vec::new(), false, &Vec::new());
    assert_ne!(unknown.mode, verdict.mode);
}

#[test]
fn an_item_schema_gives_slots_and_names() {
    assert_eq!(quoted_values("\t\"name\"\t\"value\""), vec!["name", "value"]);
    let items = parse_item_schema(
        "\"items_game\"\n{\n\t\"items\"\n\t{\n\t\t\"18\"\n\t\t{\n\t\t\t\"item_slot\"\t\"primary\"\n\t\t\t\"item_logname\"\t\"rocketlauncher\"\n\t\t}\n\t}\n}\n",
    );
    let rocket: Vec<&ItemInfo> = items.iter().filter(|item| item.index == 18).collect();
    assert_eq!(rocket.len(), 1);
    assert_eq!(rocket[0].slot, "primary");
}

fn event(tick: i64, kind: &str, fields: Vec<Field>) -> EventRecord {
    EventRecord {
        tick,
        demo_tick: tick,
        server_tick: None,
        packet_sequence: 0,
        event_index_in_packet: 0,
        event_type: kind.into(),
        event: record(fields),
    }
}

fn death(tick: i64, attacker: i64, victim: i64) -> EventRecord {
    event(
        tick,
        "player_death",
        vec![
            field("attacker", number(attacker)),
            field("user_id", number(victim)),
            field("weapon", text("tf_projectile_rocket")),
        ],
    )
}

fn match_events() -> Vec<EventRecord> {
    vec![
        event(100, "teamplay_round_start", vec![]),
        event(150, "teamplay_round_active", vec![]),
        event(
            160,
            "player_spawn",
            vec![
                field("user_id", number(5)),
                field("class", text("soldier")),
                field("team", number(2)),
            ],
        ),
        death(1_000, 5, 6),
        death(1_040, 5, 6),
        death(1_100, 5, 7),
        death(1_200, 5, 8),
        death(9_000, 6, 6),
        event(9_500, "teamplay_round_win", vec![field("team", number(2))]),
    ]
}

#[test]
fn rounds_are_numbered_from_one_and_lie_apart() {
    let mut events = match_events();
    events.push(event(9_600, "teamplay_round_start", vec![]));
    events.push(event(9_650, "teamplay_round_active", vec![]));
    events.push(event(12_000, "teamplay_round_win", vec![field("team", number(3))]));
    let rounds = build_rounds(&events, 20_000);
    assert_eq!(rounds.iter().map(|round| round.index).collect::<Vec<_>>(), vec![1, 2]);
    assert!(rounds[0].end <= rounds[1].start);
}

#[test]
fn a_change_inside_a_value_is_a_change() {
    let state = |tick: i64, charge: Value| StateRecord {
        server_tick: None,
        demo_tick: Some(tick),
        players: vec![record(vec![field("user_id", number(42)), field("medic_charge", charge)])],
        removed_players: Vec::new(),
        projectiles: Vec::new(),
        removed_projectiles: Vec::new(),
    };
    let charge = |percent: i64, swapped: bool| {
        let mut fields = vec![
            field("percent", number(percent)),
            field("kind", nested(vec![field("name", text("uber"))])),
        ];
        if swapped {
            fields.reverse();
        }
        nested(fields)
    };
    let mut tracker = StateTracker::new(&Vec::new(), &Vec::new());
    tracker.record(&state(10, charge(40, false)));
    tracker.record(&state(20, charge(40, true)));
    tracker.record(&state(30, charge(41, true)));
    tracker.record(&state(40, Value::Many(vec![charge(41, true)])));
    let scan = tracker.finish();
    let ticks: Vec<i64> =
        scan.player_history[0].value.iter().map(|sample| sample.tick).collect();
    assert_eq!(ticks, vec![10, 30, 40]);
}

#[test]
fn values_hold_the_same_whatever_the_order_of_their_fields() {
    let told = |names: &[&str]| {
        nested(names.iter().map(|name| field(&name[..1], text(&name[1..]))).collect())
    };
    assert!(told(&["a1", "b2"]).same(&told(&["b2", "a1"])));
    assert!(told(&["a1", "b2", "a3"]).same(&told(&["b2", "a1"])));
    assert!(!told(&["a1", "b2"]).same(&told(&["a1"])));
    assert!(!told(&["a1"]).same(&told(&["a1", "b2"])));
    assert!(!told(&["a1"]).same(&told(&["a2"])));
    assert!(!told(&["a1"]).same(&Value::Many(vec![told(&["a1"])])));
    let deep = Value::Many(vec![told(&["a1"]), number(3)]);
    assert!(deep.same(&deep.copy()));
    assert!(!number(1).same(&Value::One(Scalar::Decimal(Double::integer(1)))));
    let mixed = record(vec![field(
        "position",
        Value::Many(vec![number(1), told(&["a1"]), number(3), told(&[])]),
    )]);
    let place = mixed.vector("position").expect("three values");
    assert_eq!(place, (Double::integer(1), Double::zero(), Double::integer(3)));
}

#[test]
fn a_demo_is_analyzed_from_its_events() {
    let events = match_events();
    let rounds = build_rounds(&events, 10_000);
    assert_eq!(rounds.len(), 1);
    let note = CaptureNote { classification: None, confidence: None, evidence: Vec::new() };
    let gated = gate_kills(&events, 10_000, &note, "", &None, &Vec::new()).expect("small ticks");
    let mut deaths = gated.deaths;
    assert_eq!(deaths.len(), 3);
    assert_eq!(deaths[0].victim, 6);
    assert_eq!(deaths[1].victim, 7);
    assert_eq!(deaths[0].attacker_class, "soldier");

    let mut tracker = StateTracker::new(&deaths, &gated.rounds);
    tracker.record(&StateRecord {
        server_tick: None,
        demo_tick: Some(900),
        players: Vec::new(),
        removed_players: Vec::new(),
        projectiles: Vec::new(),
        removed_projectiles: Vec::new(),
    });
    let scan = tracker.finish();
    enrich_kills(&mut deaths, &events, &scan);

    let mut context = gated.context;
    let verdict = classify_mode("", &Vec::new(), &Vec::new(), false, &scan.roster_samples);
    let mode = verdict.mode.clone();
    set_mode(&mut context, verdict);
    assert_eq!(context.mode, mode);
    let names = DemoNames { source_demo: "match.dem".into(), map_name: "cp_process_final".into() };
    let analyzed = analyze_kills(
        deaths,
        &gated.rounds,
        &events,
        &marks(vec![(1_110, "bookmark", "nice")]),
        &context,
        &names,
    )
    .expect("small numbers");
    assert_eq!(analyzed.evidence.len(), 1);
    assert_eq!(analyzed.evidence[0].kills.len(), 3);
    let candidates = analyzed.candidates;
    assert_eq!(candidates.len(), 1);
    assert_eq!(candidates[0].point_of_kill_ticks, vec![1_000, 1_100, 1_200]);
    assert_eq!(candidates[0].clip_start_tick, 667);
    assert_eq!(candidates[0].clip_end_tick, 1_400);
    assert_eq!(candidates[0].map_name, "cp_process_final");
    assert_eq!(candidates[0].bookmark_tick, Some(1_110));
    assert_eq!(candidates[0].kill_count(), 3);
    assert!(candidates[0].overall_score >= BOOKMARK_SCORE);
    let mut united: Vec<String> = candidates[0]
        .tick_tags
        .iter()
        .flat_map(|group| group.tags.clone())
        .chain(candidates[0].sequence_tags.clone())
        .collect();
    united.sort();
    united.dedup();
    assert_eq!(candidates[0].tags, united);
    assert!(candidates[0].sequence_tags.contains(&"bookmark".to_string()));
}

#[test]
fn ticks_that_cannot_be_counted_on_from_are_refused() {
    let note = CaptureNote { classification: None, confidence: None, evidence: Vec::new() };
    let mut events = match_events();
    events.push(event(i64::MAX, "player_spawn", vec![]));
    assert!(gate_kills(&events, 10_000, &note, "", &None, &Vec::new()).is_none());
    let names = DemoNames { source_demo: String::new(), map_name: sanitize("") };
    let late = vec![Bookmark { tick: i64::MAX, comment: String::new() }];
    let none = analyze_kills(
        Vec::new(),
        &Vec::new(),
        &Vec::new(),
        &late,
        &DemoContext::default(),
        &names,
    );
    assert!(none.is_none());
}
