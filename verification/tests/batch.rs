use tf2_frag_demo_helper::batches::{
    batch_folder_name, batch_progress, combine_candidates, effective_parallelism,
    estimate_batch_preflight_from_jobs, estimated_remaining_seconds, machine_signature,
    matching_history, percentile_of, phase_verdict, plan_jobs, BatchDemo, PhaseVerdict,
    TimingSample,
};
use tf2_frag_demo_helper::floating::Double;
use tf2_frag_demo_helper::models::Candidate;
use tf2_frag_demo_helper::number::{
    i64_text, parse_i64, parse_u32, parse_u64, two_digit_text, u64_text,
};
use tf2_frag_demo_helper::preflight::{
    format_bytes, format_duration, lies_under, nearest_existing_parent, require_disk_space,
    select_disk, DiskSpace, MountedDisk, PathParts,
};
use tf2_frag_demo_helper::scheduler::{
    largest_first, percentile, sort_numbers, AdaptiveWorkerGate, DemoJob, MachineResources,
    PerformanceProfile, ResourcePlan, RuntimeGovernor, GIB, MIB,
};
use tf2_frag_demo_helper::text::{
    contains_text, ends_with, join, remove_chars, replace_chars, replace_text, same_ignoring_case,
    split, split_words, starts_with, trim,
};

fn texts(list: &[&str]) -> Vec<String> {
    list.iter().map(|text| text.to_string()).collect()
}

fn double(value: f64) -> Double {
    Double::from_bits(value.to_bits()).expect("a finite number")
}

fn parallelism(workers: usize, efficiency: f64) -> f64 {
    f64::from_bits(effective_parallelism(workers, double(efficiency)).to_bits())
}

#[test]
fn parallelism_scaling_keeps_one_worker_exact_and_discounts_contention() {
    assert_eq!(parallelism(1, 0.82), 1.0);
    assert!(parallelism(8, 0.82) > 6.0);
    assert!(parallelism(8, 0.82) < 8.0);
    assert_eq!(parallelism(8, 0.82), 1.0 + 7.0 * 0.82);
    assert_eq!(parallelism(100_000, 0.7), 1.0 + 99_999.0 * 0.7);
}

#[test]
fn percentile_uses_sorted_finite_positive_samples() {
    let values: [f64; 5] = [30.0, 10.0, f64::NAN, 20.0, -1.0];
    let told: Vec<Double> =
        values.iter().filter_map(|value| Double::from_bits(value.to_bits())).collect();
    assert_eq!(told.len(), 4);
    let of = |values: &Vec<Double>, share: f64| {
        percentile_of(values, double(share)).map(|value| f64::from_bits(value.to_bits()))
    };
    assert_eq!(of(&told, 0.50), Some(20.0));
    assert_eq!(of(&told, 0.90), Some(30.0));
    assert_eq!(of(&told, 7.0), Some(30.0));
    assert_eq!(of(&vec![double(0.0), double(-3.0)], 0.50), None);
    assert_eq!(of(&vec![double(5.5), double(1.25), double(2.0)], 0.0), Some(1.25));
}

#[test]
fn byte_and_duration_formatting_is_readable() {
    assert_eq!(format_bytes(1_073_741_824), "1.0 GB");
    assert_eq!(format_duration(3_661), "1h 1m 1s");
    assert_eq!(format_bytes(512), "512 B");
    assert_eq!(format_bytes(1_536), "1.5 KB");
    assert_eq!(format_duration(59), "59s");
    assert_eq!(format_duration(60), "1m 0s");
}

fn job(order: usize, source: u64, parsed: u64) -> DemoJob {
    DemoJob {
        order,
        demo_path: format!("{order}.dem"),
        export_directory: format!("out/{order}"),
        source_bytes: source,
        parsed_bytes: parsed,
    }
}

fn machine(processors: usize, total: u64, available: u64) -> MachineResources {
    MachineResources {
        logical_processors: processors,
        total_memory_bytes: total,
        available_memory_bytes: available,
    }
}

#[test]
fn larger_demos_come_first() {
    let jobs = largest_first(vec![job(0, 5, 1), job(1, 9, 3), job(2, 9, 9)], false);
    let orders: Vec<usize> = jobs.iter().map(|job| job.order).collect();
    assert_eq!(orders, vec![1, 2, 0]);
    let jobs = largest_first(jobs, true);
    let orders: Vec<usize> = jobs.iter().map(|job| job.order).collect();
    assert_eq!(orders, vec![2, 1, 0]);
    assert_eq!(sort_numbers(&vec![3, 1, 2]), vec![1, 2, 3]);
    assert_eq!(percentile(&vec![1, 2, 3, 4, 5]), 4);
    assert_eq!(percentile(&Vec::new()), 0);
}

#[test]
fn a_profile_bounds_the_workers() {
    assert_eq!(PerformanceProfile::from_setting("low").label(), "Low");
    assert_eq!(PerformanceProfile::from_setting("?").label(), "High");
    let jobs: Vec<DemoJob> = (0..16).map(|order| job(order, 100 * MIB, 0)).collect();
    let machine = || machine(16, 64 * GIB, 48 * GIB);
    let low = ResourcePlan::detect(&jobs, PerformanceProfile::Low, machine());
    let high = ResourcePlan::detect(&jobs, PerformanceProfile::High, machine());
    assert!(low.parse_worker_ceiling < high.parse_worker_ceiling);
    assert!(low.parse_workers >= 1);
    assert!(high.parse_worker_ceiling <= 16);
    assert_eq!(
        ResourcePlan::analysis_job_memory_bytes(0),
        ResourcePlan::analysis_job_memory_bytes(1)
    );
}

#[test]
fn admission_is_bounded_and_undone_by_release() {
    let governor = RuntimeGovernor::new(
        PerformanceProfile::High,
        GIB,
        machine(8, 32 * GIB, 24 * GIB),
    );
    let mut limit = AdaptiveWorkerGate::new(2, GIB, GIB);
    let first = limit.try_acquire_for(GIB, &governor).expect("room for one");
    let second = limit.try_acquire_for(GIB, &governor).expect("room for two");
    assert_eq!(limit.try_acquire_for(GIB, &governor), None);
    limit.release(first);
    assert!(limit.try_acquire_for(GIB, &governor).is_some());
    assert_eq!(first, second);
}

#[test]
fn a_busy_machine_is_given_pauses() {
    let mut governor = RuntimeGovernor::new(
        PerformanceProfile::Low,
        GIB,
        machine(8, 32 * GIB, 24 * GIB),
    );
    assert!(governor.refresh(10.0_f32.to_bits(), 24 * GIB).is_ok());
    assert!(!governor.pause_due(None));
    assert!(governor.refresh(100.0_f32.to_bits(), 24 * GIB).is_ok());
    assert!(governor.pause_due(None));
    let delay = governor.delay_ms;
    governor.note_pause(delay);
    let stats = governor.stats();
    assert_eq!(stats.target_cpu_percent, 55);
    assert_eq!(f32::from_bits(stats.peak_cpu), 100.0);
    assert_eq!(stats.throttle_count, 1);
    assert_eq!(stats.throttle_sleep_ms, delay);
    let faults = (0..5).filter(|_| governor.refresh(100.0_f32.to_bits(), 0).is_err()).count();
    assert!(faults > 0);
}

#[test]
fn loads_are_weighed_in_single_precision() {
    for profile in [PerformanceProfile::Low, PerformanceProfile::Medium, PerformanceProfile::High] {
        let mut governor = RuntimeGovernor::new(profile, GIB, machine(8, 32 * GIB, 24 * GIB));
        let target = profile.target_cpu_percent() as f32;
        let mut peak = 0.0_f32;
        let mut load = -1.0_f32;
        while load < 101.0 {
            assert!(governor.refresh(load.to_bits(), 24 * GIB).is_ok());
            let cpu = load.clamp(0.0, 100.0);
            peak = peak.max(cpu);
            let over = (cpu - target).max(0.0);
            let delay =
                if over < 1.0 { 0 } else { (10.0 + over * 3.0).round().clamp(10.0, 140.0) as u64 };
            assert_eq!(governor.delay_ms, delay, "a pause at {load}");
            assert_eq!(f32::from_bits(governor.peak_cpu), peak);
            assert_eq!(f32::from_bits(governor.observed_cpu), cpu);
            for limit in [0_usize, 1, 3, 6, 7, 8, 30, 1_000, 123_457, 16_777_217, usize::MAX] {
                let expected = if cpu <= target || cpu <= 0.0 {
                    limit.max(1)
                } else {
                    let scale = (target / cpu).clamp(0.25, 1.0);
                    ((limit as f32 * scale).floor() as usize).clamp(1, limit.max(1))
                };
                assert_eq!(governor.admission_limit(limit), expected, "{limit} at {load}");
            }
            load += 0.037_3;
        }
        assert!(governor.refresh(f32::NAN.to_bits(), 24 * GIB).is_ok());
        assert_eq!(governor.delay_ms, 0);
        assert_eq!(governor.admission_limit(8), 1);
        assert_eq!(f32::from_bits(governor.peak_cpu), 100.0);
    }
}

fn sample(machine: &str, profile: &str) -> TimingSample {
    TimingSample {
        machine: machine.into(),
        performance_profile: profile.into(),
        input_bytes: 100 * MIB,
        parse_output_bytes: 800 * MIB,
        parse_workers: 4,
        analysis_threads: 4,
        parse_wall_seconds: double(10.0),
        analysis_wall_seconds: double(2.0),
    }
}

#[test]
fn an_estimate_leaves_a_fifth_of_headroom() {
    let jobs: Vec<DemoJob> = (0..4).map(|order| job(order, 100 * MIB, 0)).collect();
    let plan = ResourcePlan::detect(
        &jobs,
        PerformanceProfile::Medium,
        machine(8, 32 * GIB, 24 * GIB),
    );
    let name = machine_signature(&plan);
    let samples = vec![sample(&name, "Medium"), sample("other", "Medium"), sample(&name, "High")];
    assert_eq!(matching_history(&samples, &name, "Medium"), vec![0]);
    let disk = DiskSpace { mount_point: "/".into(), available_bytes: 1 };
    let estimate =
        estimate_batch_preflight_from_jobs(&jobs, &samples, plan, &disk).expect("estimate");
    assert_eq!(estimate.demo_count, 4);
    assert_eq!(estimate.input_bytes, 400 * MIB);
    assert_eq!(estimate.history_samples, 1);
    assert!(estimate.estimated_parse_seconds >= 1);
    assert_eq!(estimate.safety_headroom_bytes, estimate.estimated_total_output_bytes / 5);
    assert_eq!(
        estimate.required_free_bytes,
        estimate.estimated_total_output_bytes + estimate.safety_headroom_bytes
    );
    assert!(!estimate.has_enough_space());
    assert!(estimate.summary().contains("BLOCKED"));
    let roomy = DiskSpace { mount_point: "/".into(), available_bytes: u64::MAX };
    assert!(estimate.ensure_space(roomy).is_ok());
    assert!(estimate.ensure_space(disk).is_err());
    let empty = ResourcePlan::detect(
        &Vec::new(),
        PerformanceProfile::Medium,
        machine(8, 32 * GIB, 24 * GIB),
    );
    let none = DiskSpace { mount_point: "/".into(), available_bytes: 1 };
    assert!(estimate_batch_preflight_from_jobs(&Vec::new(), &samples, empty, &none).is_err());
}

#[test]
fn a_history_scales_the_estimate_without_loss() {
    let mut small = job(1, 3_000_000_000, 0);
    small.export_directory = "out".into();
    let jobs = vec![small];
    let plan =
        ResourcePlan::detect(&jobs, PerformanceProfile::High, machine(8, 32 * GIB, 24 * GIB));
    let mut seen = sample(&machine_signature(&plan), "High");
    seen.input_bytes = 3;
    seen.parse_output_bytes = 100;
    seen.parse_workers = 1;
    seen.analysis_threads = 1;
    seen.parse_wall_seconds = double(0.000_000_001);
    seen.analysis_wall_seconds = double(0.000_000_001);
    let disk = DiskSpace { mount_point: "/".into(), available_bytes: u64::MAX };
    let workers = parallelism(plan.parse_worker_ceiling, 0.82);
    let threads = parallelism(plan.analysis_worker_ceiling, 0.70);
    let estimate =
        estimate_batch_preflight_from_jobs(&jobs, &vec![seen], plan, &disk).expect("estimate");
    assert_eq!(estimate.history_samples, 1);
    assert_eq!(estimate.estimated_parse_bytes, 100_000_000_000);
    let gib = 1_073_741_824.0_f64;
    let parse_rate = 0.000_000_001 * 1.0 / (3.0 / gib);
    let analysis_rate = 0.000_000_001 * 1.0 / (100.0 / gib);
    let parse = 3_000_000_000.0 / gib * parse_rate / workers;
    let analysis = 100_000_000_000.0 / gib * analysis_rate / threads;
    assert_eq!(estimate.estimated_parse_seconds, (parse * 1.10).ceil().max(1.0) as u64);
    assert_eq!(estimate.estimated_analysis_seconds, (analysis * 1.10).ceil().max(1.0) as u64);
}

#[test]
fn equal_jobs_keep_their_order() {
    let jobs = vec![job(0, 5, 1), job(1, 9, 2), job(2, 5, 3), job(3, 9, 4), job(4, 5, 5)];
    let order: Vec<usize> = largest_first(jobs, false).iter().map(|job| job.order).collect();
    assert_eq!(order, vec![1, 3, 0, 2, 4]);
}

#[test]
fn time_left_follows_from_what_is_done() {
    assert_eq!(estimated_remaining_seconds(0, 100, 1_000_000_000), None);
    assert_eq!(estimated_remaining_seconds(50, 100, 10_000_000_000), Some(10));
    assert_eq!(batch_progress(1, 0, 4), 0);
    assert!(batch_progress(1, 4, 4) <= batch_progress(2, 0, 4));
}

#[test]
fn every_demo_of_a_batch_has_its_folder() {
    let demo = |name: &str| BatchDemo {
        path: format!("/demos/{name}.dem"),
        stem: Some(name.into()),
        bytes: 7,
    };
    let jobs = plan_jobs(&vec![demo("a"), demo("b")], "/exports/batch", '/');
    assert_eq!(jobs.len(), 2);
    assert_ne!(jobs[0].export_directory, jobs[1].export_directory);
    assert!(jobs[1].export_directory.starts_with("/exports/batch/"));
    assert_ne!(batch_folder_name(1, "a", "now"), batch_folder_name(2, "a", "now"));
    let combined = combine_candidates(vec![
        Candidate { overall_score: 1, ..Candidate::default() },
        Candidate { overall_score: 5, ..Candidate::default() },
    ]);
    assert_eq!(combined[0].overall_score, 5);
}

#[test]
fn a_phase_fails_is_cancelled_or_is_done() {
    assert!(matches!(phase_verdict(Some("x".into()), true), PhaseVerdict::Failed(_)));
    assert!(matches!(phase_verdict(None, true), PhaseVerdict::Cancelled));
    assert!(matches!(phase_verdict(None, false), PhaseVerdict::Done));
}

fn parts(list: &[&str]) -> PathParts {
    PathParts { text: list.join("/"), components: texts(list) }
}

#[test]
fn the_deepest_mount_point_holds_a_path() {
    let disks = vec![
        MountedDisk { mount_point: parts(&["/"]), available_bytes: 1 },
        MountedDisk { mount_point: parts(&["/", "mnt", "videos"]), available_bytes: 2 },
        MountedDisk { mount_point: parts(&["/", "home"]), available_bytes: 3 },
    ];
    assert_eq!(select_disk(&parts(&["/", "mnt", "videos", "a"]), &disks), Some(1));
    assert_eq!(select_disk(&parts(&["/", "mnt"]), &disks), Some(0));
    assert_eq!(select_disk(&parts(&["D:"]), &disks), None);
    assert!(lies_under(&texts(&["a", "b"]), &texts(&["a"])));
    assert!(!lies_under(&texts(&["ab"]), &texts(&["a"])));
    assert_eq!(nearest_existing_parent(&vec![false, false, true]), Some(2));
    assert_eq!(nearest_existing_parent(&vec![false]), None);
    let disk = || DiskSpace { mount_point: "/".into(), available_bytes: 10 };
    assert!(require_disk_space(disk(), 10, "parsing").is_ok());
    let fault = require_disk_space(disk(), 11, "parsing").unwrap_err();
    assert!(fault.contains("parsing"));
}

#[test]
fn numbers_are_written_and_read_back() {
    for n in [0, 9, 10, 4_294_967_296, u64::MAX] {
        assert_eq!(u64_text(n), n.to_string());
        assert_eq!(parse_u64(&u64_text(n)), Some(n));
    }
    for n in [i64::MIN, -1, 0, i64::MAX] {
        assert_eq!(i64_text(n), n.to_string());
        assert_eq!(parse_i64(&i64_text(n)), Some(n));
    }
    for bad in ["", "-", "+", "1 ", "18446744073709551616", "a"] {
        assert_eq!(parse_u64(bad), bad.parse::<u64>().ok());
    }
    assert_eq!(parse_i64("-9223372036854775809"), None);
    assert_eq!(parse_u32("4294967296"), None);
    assert_eq!(parse_u32("+7"), "+7".parse::<u32>().ok());
    assert_eq!(two_digit_text(7), "07");
}

#[test]
fn texts_are_cut_and_put_together() {
    assert_eq!(split("a,,b", ','), texts(&["a", "", "b"]));
    assert_eq!(split_words("  a\tb\n c "), texts(&["a", "b", "c"]));
    assert_eq!(join(&texts(&["a", "b"]), ", "), "a, b");
    assert_eq!(trim(" \t a b\n"), "a b");
    assert_eq!(replace_chars("a-b_c", "-_", ' '), "a b c");
    assert_eq!(remove_chars("a b-c", " -"), "abc");
    assert_eq!(replace_text("aaa", "aa", "b"), "ba");
    assert!(contains_text("abc", "bc") && !contains_text("abc", "cb"));
    assert!(starts_with("abc", "ab") && ends_with("abc", "bc"));
    assert!(same_ignoring_case("Tf.EXE", "tf.exe") && !same_ignoring_case("a", "b"));
}
