//! How many jobs run at once: the plan for this computer, and the limit that
//! admits jobs while they run.
use vstd::prelude::*;
use crate::double::{
    divide_even, lemma_single_rises, nearest_double, nearest_single, rounded_even, rounded_up,
    to_double, to_single, SHORT_SIGNIFICAND,
};
use crate::number::{nat_text, u64_text};
use crate::text::{lower, same_text, to_lower, trim, trimmed, views};

verus! {

pub const MIB: u64 = 1024 * 1024;

pub const GIB: u64 = 1024 * 1024 * 1024;

/// One demo to parse and analyse.
#[derive(Debug)]
pub struct DemoJob {
    pub order: usize,
    pub demo_path: String,
    pub export_directory: String,
    pub source_bytes: u64,
    pub parsed_bytes: u64,
}

/// A preference of the user on top of what the computer allows.
#[derive(Clone, Copy, Debug, PartialEq, Eq, Structural)]
pub enum PerformanceProfile {
    Low,
    Medium,
    High,
}

/// The smaller of two numbers.
pub open spec fn least(a: int, b: int) -> int {
    if a <= b {
        a
    } else {
        b
    }
}

/// The larger of two numbers.
pub open spec fn greatest(a: int, b: int) -> int {
    if a >= b {
        a
    } else {
        b
    }
}

/// The number moved into a range.
pub open spec fn clamped(value: int, low: int, high: int) -> int {
    greatest(low, least(value, high))
}

fn min_u64(a: u64, b: u64) -> (out: u64)
    ensures
        out == least(a as int, b as int),
{
    if a <= b {
        a
    } else {
        b
    }
}

fn max_u64(a: u64, b: u64) -> (out: u64)
    ensures
        out == greatest(a as int, b as int),
{
    if a >= b {
        a
    } else {
        b
    }
}

fn min_usize(a: usize, b: usize) -> (out: usize)
    ensures
        out == least(a as int, b as int),
{
    if a <= b {
        a
    } else {
        b
    }
}

fn max_usize(a: usize, b: usize) -> (out: usize)
    ensures
        out == greatest(a as int, b as int),
{
    if a >= b {
        a
    } else {
        b
    }
}

impl PerformanceProfile {
    /// The profile that a setting names; anything unknown is `High`.
    pub open spec fn named(value: Seq<char>) -> PerformanceProfile {
        if lower(trimmed(value)) == "low"@ {
            PerformanceProfile::Low
        } else if lower(trimmed(value)) == "medium"@ {
            PerformanceProfile::Medium
        } else {
            PerformanceProfile::High
        }
    }

    /// The profile that a setting names; anything unknown is `High`.
    pub fn from_setting(value: &str) -> (out: Self)
        ensures
            out == PerformanceProfile::named(value@),
    {
        let name = to_lower(trim(value).as_str());
        if same_text(name.as_str(), "low") {
            PerformanceProfile::Low
        } else if same_text(name.as_str(), "medium") {
            PerformanceProfile::Medium
        } else {
            PerformanceProfile::High
        }
    }

    /// The name of the profile.
    pub open spec fn name(self) -> Seq<char> {
        match self {
            PerformanceProfile::Low => "Low"@,
            PerformanceProfile::Medium => "Medium"@,
            PerformanceProfile::High => "High"@,
        }
    }

    /// The name of the profile.
    pub fn label(self) -> (out: &'static str)
        ensures
            out@ == self.name(),
    {
        match self {
            PerformanceProfile::Low => "Low",
            PerformanceProfile::Medium => "Medium",
            PerformanceProfile::High => "High",
        }
    }

    /// The share of the maximum that the profile allows, in percent.
    pub open spec fn percent(self) -> nat {
        match self {
            PerformanceProfile::Low => 45,
            PerformanceProfile::Medium => 70,
            PerformanceProfile::High => 100,
        }
    }

    /// The same share as a double-precision factor: a significand over a power
    /// of two.
    pub open spec fn factor(self) -> (nat, nat) {
        match self {
            PerformanceProfile::Low => (8106479329266893, 18014398509481984),
            PerformanceProfile::Medium => (6305039478318694, 9007199254740992),
            PerformanceProfile::High => (1, 1),
        }
    }

    /// What the profile leaves of a maximum: the product in double precision,
    /// rounded, but at least one and at most the maximum.
    pub open spec fn scaled(self, maximum: nat) -> int {
        let (significand, power) = self.factor();
        let product = nearest_double(nearest_double(maximum) * significand);
        clamped(
            rounded_up(product, power) as int,
            1,
            greatest(maximum as int, 1),
        )
    }

    /// What the profile leaves of a maximum.
    pub fn scale(self, maximum: usize) -> (out: usize)
        ensures
            out == self.scaled(maximum as nat),
            1 <= out <= greatest(maximum as int, 1),
    {
        let (significand, power): (u128, u128) = match self {
            PerformanceProfile::Low => (8106479329266893, 18014398509481984),
            PerformanceProfile::Medium => (6305039478318694, 9007199254740992),
            PerformanceProfile::High => (1, 1),
        };
        let exact: u128 = to_double(maximum as u128);
        assert(exact * significand < 0x100_0000_0000_0000_0000_0000_0000_0000) by (nonlinear_arith)
            requires
                exact <= 2 * 0xffff_ffff_ffff_ffff,
                significand <= 8106479329266893,
        ;
        let product: u128 = to_double(exact * significand);
        let rounded: u128 = (2 * product + power) / (2 * power);
        let ceiling: usize = max_usize(maximum, 1);
        if rounded >= ceiling as u128 {
            ceiling
        } else if rounded < 1 {
            1
        } else {
            rounded as usize
        }
    }

    /// The whole-system load that the governor aims for, in percent.
    pub open spec fn load_target(self) -> nat {
        match self {
            PerformanceProfile::Low => 55,
            PerformanceProfile::Medium => 75,
            PerformanceProfile::High => 92,
        }
    }

    /// The whole-system load that the governor aims for, in percent.
    pub fn target_cpu_percent(self) -> (out: u32)
        ensures
            out == self.load_target(),
    {
        match self {
            PerformanceProfile::Low => 55,
            PerformanceProfile::Medium => 75,
            PerformanceProfile::High => 92,
        }
    }
}

// ---------------------------------------------------------------------------
// Ordering
// ---------------------------------------------------------------------------

/// A number put into an ascending sequence, behind those that are not larger.
pub open spec fn put_number(sorted: Seq<u64>, value: u64) -> Seq<u64>
    decreases sorted.len(),
{
    if sorted.len() > 0 && sorted.last() > value {
        put_number(sorted.drop_last(), value).push(sorted.last())
    } else {
        sorted.push(value)
    }
}

/// The numbers in ascending order.
pub open spec fn ascending_numbers(values: Seq<u64>) -> Seq<u64>
    decreases values.len(),
{
    if values.len() == 0 {
        values
    } else {
        put_number(ascending_numbers(values.drop_last()), values.last())
    }
}

/// The value below which three quarters of the others lie; zero where there is
/// no value.
pub open spec fn upper_quartile(values: Seq<u64>) -> int {
    if values.len() == 0 {
        0
    } else {
        ascending_numbers(values)[(3 * (values.len() - 1) + 3) / 4] as int
    }
}

/// Putting a number in keeps the order and adds just that number.
proof fn lemma_put_number(sorted: Seq<u64>, value: u64)
    requires
        forall|i: int, j: int| 0 <= i < j < sorted.len() ==> sorted[i] <= sorted[j],
    ensures
        put_number(sorted, value).len() == sorted.len() + 1,
        forall|i: int, j: int|
            0 <= i < j < sorted.len() + 1 ==> put_number(sorted, value)[i] <= put_number(
                sorted,
                value,
            )[j],
        put_number(sorted, value).to_multiset() == sorted.to_multiset().insert(value),
        forall|i: int|
            0 <= i < sorted.len() + 1 ==> put_number(sorted, value)[i] <= value || exists|k: int|
                0 <= k < sorted.len() && put_number(sorted, value)[i] == #[trigger] sorted[k],
    decreases sorted.len(),
{
    broadcast use vstd::seq_lib::group_to_multiset_ensures;

    let out = put_number(sorted, value);
    if sorted.len() > 0 && sorted.last() > value {
        let front = sorted.drop_last();
        lemma_put_number(front, value);
        let inner = put_number(front, value);
        assert(sorted =~= front.push(sorted.last()));
        assert forall|i: int| 0 <= i < inner.len() implies inner[i] <= sorted.last() by {
            if inner[i] > value {
                let k = choose|k: int| 0 <= k < front.len() && inner[i] == #[trigger] front[k];
                assert(sorted[k] <= sorted.last());
            }
        }
        assert forall|i: int| 0 <= i < out.len() implies out[i] <= value || exists|k: int|
            0 <= k < sorted.len() && out[i] == #[trigger] sorted[k] by {
            if i < inner.len() {
                if inner[i] > value {
                    let k = choose|k: int| 0 <= k < front.len() && inner[i] == #[trigger] front[k];
                    assert(out[i] == sorted[k]);
                }
            } else {
                assert(out[i] == sorted[sorted.len() - 1]);
            }
        }
        assert(sorted.to_multiset().insert(value) =~= front.to_multiset().insert(value).insert(
            sorted.last(),
        ));
    } else {
        assert forall|i: int, j: int| 0 <= i < j < out.len() implies out[i] <= out[j] by {
            if j == sorted.len() {
                assert(sorted.last() <= value);
            }
        }
        assert forall|i: int| 0 <= i < out.len() implies out[i] <= value || exists|k: int|
            0 <= k < sorted.len() && out[i] == #[trigger] sorted[k] by {
            if i < sorted.len() {
                assert(out[i] == sorted[i]);
            }
        }
    }
}

/// The numbers in ascending order are the same numbers, in ascending order.
pub proof fn law_ascending_numbers(values: Seq<u64>)
    ensures
        ascending_numbers(values).len() == values.len(),
        forall|i: int, j: int|
            0 <= i < j < values.len() ==> ascending_numbers(values)[i] <= ascending_numbers(
                values,
            )[j],
        ascending_numbers(values).to_multiset() == values.to_multiset(),
    decreases values.len(),
{
    broadcast use vstd::seq_lib::group_to_multiset_ensures;

    if values.len() > 0 {
        law_ascending_numbers(values.drop_last());
        lemma_put_number(ascending_numbers(values.drop_last()), values.last());
        assert(values =~= values.drop_last().push(values.last()));
    }
}

/// Puts a number into an ascending list, behind those that are not larger.
fn put_in_order(list: &mut Vec<u64>, value: u64)
    ensures
        final(list)@ == put_number(old(list)@, value),
{
    let mut at: usize = list.len();
    assert(list@.take(at as int) =~= list@);
    while at > 0 && list[at - 1] > value
        invariant
            at <= list.len(),
            list@ == old(list)@,
            put_number(list@, value) =~= put_number(list@.take(at as int), value) + list@.skip(
                at as int,
            ),
        decreases at,
    {
        proof {
            let now = list@.take(at as int);
            assert(now.last() == list@[at - 1]);
            assert(now.drop_last() =~= list@.take(at - 1));
            assert(put_number(now, value) + list@.skip(at as int) =~= put_number(
                list@.take(at - 1),
                value,
            ) + list@.skip(at - 1));
        }
        at -= 1;
    }
    proof {
        let now = list@.take(at as int);
        if at > 0 {
            assert(now.last() == list@[at - 1]);
        }
        assert(list@.insert(at as int, value) =~= now.push(value) + list@.skip(at as int));
    }
    list.insert(at, value);
}

/// The numbers in ascending order.
pub fn sort_numbers(values: &Vec<u64>) -> (out: Vec<u64>)
    ensures
        out@ == ascending_numbers(values@),
{
    let mut sorted: Vec<u64> = Vec::new();
    let mut i: usize = 0;
    assert(values@.take(0) =~= Seq::empty());
    while i < values.len()
        invariant
            i <= values.len(),
            sorted@ == ascending_numbers(values@.take(i as int)),
        decreases values.len() - i,
    {
        proof {
            assert(values@.take(i + 1).drop_last() =~= values@.take(i as int));
            assert(values@.take(i + 1).last() == values@[i as int]);
        }
        put_in_order(&mut sorted, values[i]);
        i += 1;
    }
    assert(values@.take(values.len() as int) =~= values@);
    sorted
}

/// The value below which three quarters of the others lie.
pub fn percentile(values: &Vec<u64>) -> (out: u64)
    ensures
        out == upper_quartile(values@),
{
    if values.len() == 0 {
        return 0;
    }
    let sorted = sort_numbers(values);
    proof {
        law_ascending_numbers(values@);
    }
    let index: u128 = (3 * (values.len() as u128 - 1) + 3) / 4;
    sorted[index as usize]
}

/// What jobs are ordered by.
pub open spec fn job_size(job: DemoJob, analysis: bool) -> u64 {
    if analysis {
        job.parsed_bytes
    } else {
        job.source_bytes
    }
}

/// A job put behind all those that are at least as large.
pub open spec fn put_job(sorted: Seq<DemoJob>, job: DemoJob, analysis: bool) -> Seq<DemoJob>
    decreases sorted.len(),
{
    if sorted.len() > 0 && job_size(sorted.last(), analysis) < job_size(job, analysis) {
        put_job(sorted.drop_last(), job, analysis).push(sorted.last())
    } else {
        sorted.push(job)
    }
}

/// The jobs by size, the largest first, jobs of one size in the order given.
pub open spec fn by_size(jobs: Seq<DemoJob>, analysis: bool) -> Seq<DemoJob>
    decreases jobs.len(),
{
    if jobs.len() == 0 {
        jobs
    } else {
        put_job(by_size(jobs.drop_last(), analysis), jobs.last(), analysis)
    }
}

proof fn lemma_put_job(sorted: Seq<DemoJob>, job: DemoJob, analysis: bool)
    requires
        forall|i: int, j: int|
            0 <= i < j < sorted.len() ==> job_size(sorted[i], analysis) >= job_size(
                sorted[j],
                analysis,
            ),
    ensures
        put_job(sorted, job, analysis).len() == sorted.len() + 1,
        put_job(sorted, job, analysis).to_multiset() == sorted.to_multiset().insert(job),
        forall|i: int, j: int|
            0 <= i < j < sorted.len() + 1 ==> job_size(
                #[trigger] put_job(sorted, job, analysis)[i],
                analysis,
            ) >= job_size(#[trigger] put_job(sorted, job, analysis)[j], analysis),
        forall|i: int|
            0 <= i < sorted.len() + 1 ==> job_size(
                #[trigger] put_job(sorted, job, analysis)[i],
                analysis,
            ) >= job_size(job, analysis) || exists|k: int|
                0 <= k < sorted.len() && put_job(sorted, job, analysis)[i] == #[trigger] sorted[k],
    decreases sorted.len(),
{
    broadcast use vstd::seq_lib::group_to_multiset_ensures;

    let out = put_job(sorted, job, analysis);
    if sorted.len() > 0 && job_size(sorted.last(), analysis) < job_size(job, analysis) {
        let front = sorted.drop_last();
        lemma_put_job(front, job, analysis);
        let inner = put_job(front, job, analysis);
        assert(sorted =~= front.push(sorted.last()));
        assert forall|i: int| 0 <= i < inner.len() implies job_size(#[trigger] inner[i], analysis)
            >= job_size(sorted.last(), analysis) by {
            if job_size(inner[i], analysis) < job_size(job, analysis) {
                let k = choose|k: int| 0 <= k < front.len() && inner[i] == #[trigger] front[k];
                assert(sorted[k] == front[k]);
            }
        }
        assert forall|i: int, j: int| 0 <= i < j < out.len() implies job_size(
            #[trigger] out[i],
            analysis,
        ) >= job_size(#[trigger] out[j], analysis) by {
            assert(out[i] == inner[i]);
            if j < inner.len() {
                assert(out[j] == inner[j]);
            }
        }
        assert forall|i: int| 0 <= i < out.len() implies job_size(#[trigger] out[i], analysis)
            >= job_size(job, analysis) || exists|k: int|
            0 <= k < sorted.len() && out[i] == #[trigger] sorted[k] by {
            if i < inner.len() {
                assert(out[i] == inner[i]);
                if job_size(inner[i], analysis) < job_size(job, analysis) {
                    let k = choose|k: int| 0 <= k < front.len() && inner[i] == #[trigger] front[k];
                    assert(out[i] == sorted[k]);
                }
            } else {
                assert(out[i] == sorted[sorted.len() - 1]);
            }
        }
        assert(sorted.to_multiset().insert(job) =~= front.to_multiset().insert(job).insert(
            sorted.last(),
        ));
    } else {
        assert forall|i: int, j: int| 0 <= i < j < out.len() implies job_size(
            #[trigger] out[i],
            analysis,
        ) >= job_size(#[trigger] out[j], analysis) by {
            assert(out[i] == sorted[i]);
            if j < sorted.len() {
                assert(out[j] == sorted[j]);
            } else if i < sorted.len() - 1 {
                assert(job_size(sorted[i], analysis) >= job_size(sorted.last(), analysis));
            }
        }
        assert forall|i: int| 0 <= i < out.len() implies job_size(#[trigger] out[i], analysis)
            >= job_size(job, analysis) || exists|k: int|
            0 <= k < sorted.len() && out[i] == #[trigger] sorted[k] by {
            if i < sorted.len() {
                assert(out[i] == sorted[i]);
            }
        }
    }
}

/// Ordering jobs by size loses none, adds none, and puts none before a larger
/// one.
pub proof fn law_jobs_by_size(jobs: Seq<DemoJob>, analysis: bool)
    ensures
        by_size(jobs, analysis).len() == jobs.len(),
        by_size(jobs, analysis).to_multiset() == jobs.to_multiset(),
        forall|i: int, j: int|
            0 <= i < j < jobs.len() ==> job_size(#[trigger] by_size(jobs, analysis)[i], analysis)
                >= job_size(#[trigger] by_size(jobs, analysis)[j], analysis),
    decreases jobs.len(),
{
    broadcast use vstd::seq_lib::group_to_multiset_ensures;

    if jobs.len() > 0 {
        law_jobs_by_size(jobs.drop_last(), analysis);
        lemma_put_job(by_size(jobs.drop_last(), analysis), jobs.last(), analysis);
        assert(jobs =~= jobs.drop_last().push(jobs.last()));
    }
}

/// The jobs of one size.
pub open spec fn of_size(jobs: Seq<DemoJob>, size: u64, analysis: bool) -> Seq<DemoJob>
    decreases jobs.len(),
{
    if jobs.len() == 0 {
        jobs
    } else {
        let before = of_size(jobs.drop_last(), size, analysis);
        if job_size(jobs.last(), analysis) == size {
            before.push(jobs.last())
        } else {
            before
        }
    }
}

proof fn lemma_put_job_keeps(sorted: Seq<DemoJob>, job: DemoJob, size: u64, analysis: bool)
    ensures
        of_size(put_job(sorted, job, analysis), size, analysis) == (if job_size(job, analysis)
            == size {
            of_size(sorted, size, analysis).push(job)
        } else {
            of_size(sorted, size, analysis)
        }),
    decreases sorted.len(),
{
    let out = put_job(sorted, job, analysis);
    if sorted.len() > 0 && job_size(sorted.last(), analysis) < job_size(job, analysis) {
        let front = sorted.drop_last();
        lemma_put_job_keeps(front, job, size, analysis);
        assert(out.drop_last() =~= put_job(front, job, analysis));
        assert(out.last() == sorted.last());
    } else {
        assert(out.drop_last() =~= sorted);
        assert(out.last() == job);
    }
}

/// Jobs of one size keep the order in which they were given.
pub proof fn law_equal_jobs_keep_their_order(jobs: Seq<DemoJob>, size: u64, analysis: bool)
    ensures
        of_size(by_size(jobs, analysis), size, analysis) == of_size(jobs, size, analysis),
    decreases jobs.len(),
{
    if jobs.len() > 0 {
        law_equal_jobs_keep_their_order(jobs.drop_last(), size, analysis);
        lemma_put_job_keeps(by_size(jobs.drop_last(), analysis), jobs.last(), size, analysis);
    }
}

fn size_of_job(job: &DemoJob, analysis: bool) -> (out: u64)
    ensures
        out == job_size(*job, analysis),
{
    if analysis {
        job.parsed_bytes
    } else {
        job.source_bytes
    }
}

fn put_job_in_order(list: &mut Vec<DemoJob>, job: DemoJob, analysis: bool)
    ensures
        final(list)@ == put_job(old(list)@, job, analysis),
{
    let size: u64 = size_of_job(&job, analysis);
    let mut at: usize = list.len();
    assert(list@.take(at as int) =~= list@);
    while at > 0 && size_of_job(&list[at - 1], analysis) < size
        invariant
            at <= list.len(),
            list@ == old(list)@,
            size == job_size(job, analysis),
            put_job(list@, job, analysis) =~= put_job(list@.take(at as int), job, analysis)
                + list@.skip(at as int),
        decreases at,
    {
        proof {
            let now = list@.take(at as int);
            assert(now.last() == list@[at - 1]);
            assert(now.drop_last() =~= list@.take(at - 1));
            assert(put_job(now, job, analysis) + list@.skip(at as int) =~= put_job(
                list@.take(at - 1),
                job,
                analysis,
            ) + list@.skip(at - 1));
        }
        at -= 1;
    }
    proof {
        let now = list@.take(at as int);
        if at > 0 {
            assert(now.last() == list@[at - 1]);
        }
        assert(list@.insert(at as int, job) =~= now.push(job) + list@.skip(at as int));
    }
    list.insert(at, job);
}

/// The jobs by size, the largest first.
pub fn largest_first(jobs: Vec<DemoJob>, analysis: bool) -> (out: Vec<DemoJob>)
    ensures
        out@ == by_size(jobs@, analysis),
{
    let mut rest = jobs;
    let mut out: Vec<DemoJob> = Vec::new();
    let ghost mut taken: nat = 0;
    assert(jobs@.skip(0) =~= jobs@);
    while rest.len() > 0
        invariant
            taken + rest.len() == jobs.len(),
            rest@ == jobs@.skip(taken as int),
            out@ == by_size(jobs@.take(taken as int), analysis),
        decreases rest.len(),
    {
        proof {
            assert(rest@[0] == jobs@[taken as int]);
            assert(jobs@.take(taken as int + 1).drop_last() =~= jobs@.take(taken as int));
            assert(jobs@.take(taken as int + 1).last() == jobs@[taken as int]);
        }
        let job = rest.remove(0);
        put_job_in_order(&mut out, job, analysis);
        proof {
            taken = taken + 1;
            assert(rest@ =~= jobs@.skip(taken as int));
        }
    }
    assert(jobs@.take(jobs.len() as int) =~= jobs@);
    out
}

// ---------------------------------------------------------------------------
// The plan
// ---------------------------------------------------------------------------

/// What the computer has to offer when a plan is made.
#[derive(Clone, Copy, Debug, PartialEq, Eq, Structural)]
pub struct MachineResources {
    pub logical_processors: usize,
    pub total_memory_bytes: u64,
    pub available_memory_bytes: u64,
}

/// How many workers run in each phase, and what each is expected to use.
#[derive(Debug)]
pub struct ResourcePlan {
    pub performance_profile: PerformanceProfile,
    pub logical_processors: usize,
    pub total_memory_bytes: u64,
    pub available_memory_bytes: u64,
    pub reserved_memory_bytes: u64,
    pub parse_workers: usize,
    pub analysis_workers: usize,
    pub parse_worker_ceiling: usize,
    pub analysis_worker_ceiling: usize,
    pub analysis_job_ceiling: usize,
    pub estimated_parse_worker_bytes: u64,
    pub estimated_analysis_worker_bytes: u64,
    pub reason: Vec<String>,
}

/// The memory left to the system, the game and the window.
pub open spec fn memory_reserve(total: int, available: int) -> int {
    least(greatest(total / 8, 2 * GIB as int), available / 3)
}

/// The memory that workers may share.
pub open spec fn memory_usable(total: int, available: int) -> int {
    greatest(available - memory_reserve(total, available), GIB as int)
}

/// The memory that one parser is expected to use.
pub open spec fn parse_memory(source_p75: int) -> int {
    clamped(256 * MIB + greatest(source_p75, 64 * MIB as int), 512 * MIB as int, 4 * GIB as int)
}

/// The memory that one analysis is expected to use.
pub open spec fn analysis_memory(parsed_bytes: int) -> int {
    if parsed_bytes > 0 {
        clamped(768 * MIB + least(3 * parsed_bytes, u64::MAX as int) / 4, GIB as int, 8 * GIB as int)
    } else {
        GIB as int
    }
}

/// The processors left to the system and the window.
pub open spec fn processor_reserve(logical: int) -> int {
    if logical >= 12 {
        2
    } else if logical >= 4 {
        1
    } else {
        0
    }
}

/// The processors that workers may use.
pub open spec fn processor_budget(logical: int) -> int {
    greatest(logical - processor_reserve(logical), 1)
}

/// The sizes of the demos.
pub open spec fn source_sizes(jobs: Seq<DemoJob>) -> Seq<u64> {
    Seq::new(jobs.len(), |i: int| jobs[i].source_bytes)
}

/// The sizes of those exports that were parsed already.
pub open spec fn parsed_sizes(jobs: Seq<DemoJob>) -> Seq<u64>
    decreases jobs.len(),
{
    if jobs.len() == 0 {
        Seq::empty()
    } else if jobs.last().parsed_bytes > 0 {
        parsed_sizes(jobs.drop_last()).push(jobs.last().parsed_bytes)
    } else {
        parsed_sizes(jobs.drop_last())
    }
}

/// Why the plan is what it is, in words.
pub open spec fn plan_reasons(
    profile: PerformanceProfile,
    logical: nat,
    reserved: nat,
    parsed_p75: nat,
) -> Seq<Seq<char>> {
    seq![
        profile.name()
            + " performance profile: "@
            + nat_text(profile.percent())
            + "% of this computer's safe dynamic worker maximum"@,
        nat_text(logical)
            + " logical processors; "@
            + nat_text(reserved)
            + " reserved for the OS/UI"@,
        "analysis sized from parsed exports; p75="@
            + nat_text(parsed_p75 / (MIB as nat))
            + " MiB"@,
        "live CPU governor target: at most "@
            + nat_text(profile.load_target())
            + "% whole-system load; foreground work can force it lower"@,
        "worker admission is rechecked from live CPU pressure and available memory before every job starts"@,
        "sustained critically low memory stops analysis cleanly before the operating system terminates it"@,
        "per-run benchmark logs and summaries are written beside the export"@,
    ]
}

fn profile_percent(profile: PerformanceProfile) -> (out: u64)
    ensures
        out == profile.percent(),
{
    match profile {
        PerformanceProfile::Low => 45,
        PerformanceProfile::Medium => 70,
        PerformanceProfile::High => 100,
    }
}

fn describe_plan(
    profile: PerformanceProfile,
    logical: usize,
    reserved: usize,
    parsed_p75: u64,
) -> (out: Vec<String>)
    ensures
        views(out@) == plan_reasons(profile, logical as nat, reserved as nat, parsed_p75 as nat),
{
    let mut out: Vec<String> = Vec::new();
    {
        let mut line = profile.label().to_owned();
        line.append(" performance profile: ");
        line.append(u64_text(profile_percent(profile)).as_str());
        line.append("% of this computer's safe dynamic worker maximum");
        out.push(line);
    }
    {
        let mut line = u64_text(logical as u64).as_str().to_owned();
        line.append(" logical processors; ");
        line.append(u64_text(reserved as u64).as_str());
        line.append(" reserved for the OS/UI");
        out.push(line);
    }
    {
        let mut line = "analysis sized from parsed exports; p75=".to_owned();
        line.append(u64_text(parsed_p75 / MIB).as_str());
        line.append(" MiB");
        out.push(line);
    }
    {
        let mut line = "live CPU governor target: at most ".to_owned();
        line.append(u64_text(profile.target_cpu_percent() as u64).as_str());
        line.append("% whole-system load; foreground work can force it lower");
        out.push(line);
    }
    out.push("worker admission is rechecked from live CPU pressure and available memory before every job starts".to_owned());
    out.push("sustained critically low memory stops analysis cleanly before the operating system terminates it".to_owned());
    out.push("per-run benchmark logs and summaries are written beside the export".to_owned());
    assert(views(out@) =~= plan_reasons(
        profile,
        logical as nat,
        reserved as nat,
        parsed_p75 as nat,
    ));
    out
}

fn collect_sizes(jobs: &Vec<DemoJob>) -> (out: (Vec<u64>, Vec<u64>))
    ensures
        out.0@ == source_sizes(jobs@),
        out.1@ == parsed_sizes(jobs@),
{
    let mut sources: Vec<u64> = Vec::new();
    let mut parsed: Vec<u64> = Vec::new();
    let mut i: usize = 0;
    while i < jobs.len()
        invariant
            i <= jobs.len(),
            sources@ == source_sizes(jobs@.take(i as int)),
            parsed@ == parsed_sizes(jobs@.take(i as int)),
        decreases jobs.len() - i,
    {
        proof {
            let next = jobs@.take(i + 1);
            assert(next.drop_last() =~= jobs@.take(i as int));
            assert(next.last() == jobs@[i as int]);
            assert(source_sizes(next) =~= source_sizes(jobs@.take(i as int)).push(
                jobs@[i as int].source_bytes,
            ));
        }
        sources.push(jobs[i].source_bytes);
        if jobs[i].parsed_bytes > 0 {
            parsed.push(jobs[i].parsed_bytes);
        }
        i += 1;
    }
    assert(jobs@.take(jobs.len() as int) =~= jobs@);
    (sources, parsed)
}

impl ResourcePlan {
    /// The plan for a list of jobs on a computer.
    pub fn detect(
        jobs: &Vec<DemoJob>,
        performance_profile: PerformanceProfile,
        machine: MachineResources,
    ) -> (out: Self)
        ensures
            out.performance_profile == performance_profile,
            out.logical_processors == machine.logical_processors,
            out.total_memory_bytes == machine.total_memory_bytes,
            out.available_memory_bytes == machine.available_memory_bytes,
            out.reserved_memory_bytes == memory_reserve(
                machine.total_memory_bytes as int,
                machine.available_memory_bytes as int,
            ),
            out.estimated_parse_worker_bytes == parse_memory(upper_quartile(source_sizes(jobs@))),
            out.estimated_analysis_worker_bytes == analysis_memory(
                upper_quartile(parsed_sizes(jobs@)),
            ),
            out.parse_worker_ceiling == performance_profile.scaled(
                least(
                    least(
                        processor_budget(machine.logical_processors as int),
                        greatest(
                            memory_usable(
                                machine.total_memory_bytes as int,
                                machine.available_memory_bytes as int,
                            ) / parse_memory(upper_quartile(source_sizes(jobs@))),
                            1,
                        ),
                    ),
                    greatest(jobs.len() as int, 1),
                ) as nat,
            ),
            out.parse_workers == out.parse_worker_ceiling,
            out.analysis_worker_ceiling == performance_profile.scaled(
                processor_budget(machine.logical_processors as int) as nat,
            ),
            out.analysis_workers == out.analysis_worker_ceiling,
            out.analysis_job_ceiling == least(
                least(
                    greatest(
                        memory_usable(
                            machine.total_memory_bytes as int,
                            machine.available_memory_bytes as int,
                        ) / analysis_memory(upper_quartile(parsed_sizes(jobs@))),
                        1,
                    ),
                    greatest(jobs.len() as int, 1),
                ),
                out.analysis_worker_ceiling as int,
            ),
            views(out.reason@) == plan_reasons(
                performance_profile,
                machine.logical_processors as nat,
                processor_reserve(machine.logical_processors as int) as nat,
                upper_quartile(parsed_sizes(jobs@)) as nat,
            ),
            1 <= out.parse_worker_ceiling,
            1 <= out.analysis_worker_ceiling,
            1 <= out.analysis_job_ceiling <= out.analysis_worker_ceiling,
    {
        let total: u64 = machine.total_memory_bytes;
        let available: u64 = machine.available_memory_bytes;
        let logical: usize = machine.logical_processors;
        let reserve: u64 = min_u64(max_u64(total / 8, 2 * GIB), available / 3);
        let usable: u64 = max_u64(available - reserve, GIB);
        let (sources, parsed) = collect_sizes(jobs);
        let source_p75: u64 = max_u64(percentile(&sources), 64 * MIB);
        let parsed_p75: u64 = percentile(&parsed);
        let capped_source: u64 = min_u64(source_p75, 4 * GIB);
        let parse_bytes: u64 = max_u64(512 * MIB, min_u64(256 * MIB + capped_source, 4 * GIB));
        let analysis_bytes: u64 = Self::analysis_job_memory_bytes(parsed_p75);
        let reserved_processors: usize = if logical >= 12 {
            2
        } else if logical >= 4 {
            1
        } else {
            0
        };
        let budget: usize = max_usize(logical - reserved_processors, 1);
        let count: usize = max_usize(jobs.len(), 1);
        let parse_limit: u64 = min_u64(max_u64(usable / parse_bytes, 1), count as u64);
        let analysis_limit: u64 = min_u64(max_u64(usable / analysis_bytes, 1), count as u64);
        let parse_hardware: usize = min_usize(budget, parse_limit as usize);
        let parse_ceiling: usize = performance_profile.scale(parse_hardware);
        let analysis_ceiling: usize = performance_profile.scale(budget);
        let job_ceiling: usize = min_usize(analysis_limit as usize, analysis_ceiling);
        ResourcePlan {
            performance_profile,
            logical_processors: logical,
            total_memory_bytes: total,
            available_memory_bytes: available,
            reserved_memory_bytes: reserve,
            parse_workers: parse_ceiling,
            analysis_workers: analysis_ceiling,
            parse_worker_ceiling: parse_ceiling,
            analysis_worker_ceiling: analysis_ceiling,
            analysis_job_ceiling: job_ceiling,
            estimated_parse_worker_bytes: parse_bytes,
            estimated_analysis_worker_bytes: analysis_bytes,
            reason: describe_plan(performance_profile, logical, reserved_processors, parsed_p75),
        }
    }

    /// The memory that the analysis of one export is expected to use.
    pub fn analysis_job_memory_bytes(parsed_bytes: u64) -> (out: u64)
        ensures
            out == analysis_memory(parsed_bytes as int),
            GIB <= out <= 8 * GIB,
    {
        if parsed_bytes > 0 {
            let tripled: u64 = if parsed_bytes <= u64::MAX / 3 {
                3 * parsed_bytes
            } else {
                u64::MAX
            };
            let share: u64 = min_u64(tripled / 4, 8 * GIB);
            max_u64(GIB, min_u64(768 * MIB + share, 8 * GIB))
        } else {
            GIB
        }
    }

    /// A worker limit for parsers.
    pub fn parser_gate(&self) -> (out: AdaptiveWorkerGate)
        ensures
            out.is_new(
                self.parse_worker_ceiling as int,
                self.estimated_parse_worker_bytes as int,
                self.reserved_memory_bytes,
            ),
    {
        AdaptiveWorkerGate::new(
            self.parse_worker_ceiling,
            self.estimated_parse_worker_bytes,
            self.reserved_memory_bytes,
        )
    }

    /// A worker limit for analyses.
    pub fn analyzer_gate(&self) -> (out: AdaptiveWorkerGate)
        ensures
            out.is_new(
                self.analysis_job_ceiling as int,
                self.estimated_analysis_worker_bytes as int,
                self.reserved_memory_bytes,
            ),
    {
        AdaptiveWorkerGate::new(
            self.analysis_job_ceiling,
            self.estimated_analysis_worker_bytes,
            self.reserved_memory_bytes,
        )
    }
}

// ---------------------------------------------------------------------------
// Limiting workers
// ---------------------------------------------------------------------------

/// Admits workers as far as processors and free memory allow.
#[derive(Clone, Copy, Debug, PartialEq, Eq, Structural)]
pub struct AdaptiveWorkerGate {
    pub ceiling: usize,
    pub worker_memory_bytes: u64,
    pub reserved_memory_bytes: u64,
    /// The limit at the last attempt.
    pub current_limit: usize,
    /// How many workers are at work.
    pub active: usize,
    /// The memory they were admitted with.
    pub reserved_bytes: u64,
}

/// The memory that the limit keeps free of what is available.
pub open spec fn gate_reserve(reserved: int, available: int) -> int {
    least(reserved, available / 2)
}

impl AdaptiveWorkerGate {
    /// A gate that nobody has passed.
    pub open spec fn is_new(&self, ceiling: int, worker_bytes: int, reserved: u64) -> bool {
        &&& self.ceiling == greatest(ceiling, 1)
        &&& self.worker_memory_bytes == greatest(worker_bytes, 1)
        &&& self.reserved_memory_bytes == reserved
        &&& self.current_limit == 1
        &&& self.active == 0
        &&& self.reserved_bytes == 0
    }

    /// Whether the bounds of the limit are positive.
    pub open spec fn wf(&self) -> bool {
        self.ceiling >= 1 && self.worker_memory_bytes >= 1
    }

    /// How many workers the free memory has room for.
    pub open spec fn memory_limit(&self, available: int) -> int {
        let usable = greatest(
            available - gate_reserve(self.reserved_memory_bytes as int, available),
            self.worker_memory_bytes as int,
        );
        clamped(usable / self.worker_memory_bytes as int, 1, self.ceiling as int)
    }

    /// Whether a worker that asks for some memory is admitted.
    pub open spec fn admits(&self, requested: int, available: int, limit: int) -> bool {
        let usable = available - gate_reserve(self.reserved_memory_bytes as int, available);
        &&& self.active < limit
        &&& self.active == 0 || least(
            self.reserved_bytes + greatest(requested, 1),
            u64::MAX as int,
        ) <= usable
    }

    /// A gate that nobody has passed.
    pub fn new(ceiling: usize, worker_memory_bytes: u64, reserved_memory_bytes: u64) -> (out: Self)
        ensures
            out.is_new(ceiling as int, worker_memory_bytes as int, reserved_memory_bytes),
            out.wf(),
    {
        AdaptiveWorkerGate {
            ceiling: max_usize(ceiling, 1),
            worker_memory_bytes: max_u64(worker_memory_bytes, 1),
            reserved_memory_bytes,
            current_limit: 1,
            active: 0,
            reserved_bytes: 0,
        }
    }

    /// How many workers the free memory and the load have room for.
    pub fn live_limit(&self, governor: &RuntimeGovernor) -> (out: usize)
        requires
            self.wf(),
        ensures
            out == governor.admission(self.memory_limit(governor.available_memory_bytes as int)),
            1 <= out <= self.ceiling,
    {
        let available: u64 = governor.available_memory_bytes;
        let reserve: u64 = min_u64(self.reserved_memory_bytes, available / 2);
        let usable: u64 = max_u64(available - reserve, self.worker_memory_bytes);
        let room: u64 = usable / self.worker_memory_bytes;
        let limit: usize = if room >= self.ceiling as u64 {
            self.ceiling
        } else if room < 1 {
            1
        } else {
            room as usize
        };
        governor.admission_limit(limit)
    }

    /// Lets a worker pass that asks for some memory, where there is room. One
    /// worker always has room. A worker that was let in is told what it has to
    /// hand back.
    pub fn try_acquire_for(&mut self, requested_memory_bytes: u64, governor: &RuntimeGovernor) -> (out:
        Option<u64>)
        requires
            old(self).wf(),
        ensures
            final(self).wf(),
            final(self).ceiling == old(self).ceiling,
            final(self).worker_memory_bytes == old(self).worker_memory_bytes,
            final(self).reserved_memory_bytes == old(self).reserved_memory_bytes,
            final(self).current_limit == governor.admission(
                old(self).memory_limit(governor.available_memory_bytes as int),
            ),
            out is Some <==> old(self).admits(
                requested_memory_bytes as int,
                governor.available_memory_bytes as int,
                final(self).current_limit as int,
            ),
            out matches Some(bytes) ==> {
                &&& bytes == greatest(requested_memory_bytes as int, 1)
                &&& final(self).active == old(self).active + 1
                &&& final(self).reserved_bytes == least(
                    old(self).reserved_bytes + bytes,
                    u64::MAX as int,
                )
            },
            out is None ==> final(self).active == old(self).active && final(self).reserved_bytes
                == old(self).reserved_bytes,
    {
        let requested: u64 = max_u64(requested_memory_bytes, 1);
        let limit: usize = self.live_limit(governor);
        let available: u64 = governor.available_memory_bytes;
        let reserve: u64 = min_u64(self.reserved_memory_bytes, available / 2);
        let usable: u64 = available - reserve;
        let total: u64 = if requested <= u64::MAX - self.reserved_bytes {
            self.reserved_bytes + requested
        } else {
            u64::MAX
        };
        self.current_limit = limit;
        if self.active < limit && (self.active == 0 || total <= usable) {
            self.active = self.active + 1;
            self.reserved_bytes = total;
            Some(requested)
        } else {
            None
        }
    }

    /// Takes a worker back that was admitted with some memory.
    pub fn release(&mut self, reserved_bytes: u64)
        ensures
            final(self).active == (if old(self).active > 0 {
                old(self).active - 1
            } else {
                0
            }),
            final(self).reserved_bytes == (if old(self).reserved_bytes > reserved_bytes {
                old(self).reserved_bytes - reserved_bytes
            } else {
                0
            }),
            final(self).ceiling == old(self).ceiling,
            final(self).worker_memory_bytes == old(self).worker_memory_bytes,
            final(self).reserved_memory_bytes == old(self).reserved_memory_bytes,
            final(self).current_limit == old(self).current_limit,
    {
        let active: usize = if self.active > 0 {
            self.active - 1
        } else {
            0
        };
        let reserved: u64 = if self.reserved_bytes > reserved_bytes {
            self.reserved_bytes - reserved_bytes
        } else {
            0
        };
        self.active = active;
        self.reserved_bytes = reserved;
    }
}

// ---------------------------------------------------------------------------
// The governor
// ---------------------------------------------------------------------------

/// Watches the load and the free memory of the whole system while a batch runs.
/// Loads are held as the bits of single-precision numbers of percent.
#[derive(Clone, Copy, Debug, PartialEq, Eq, Structural)]
pub struct RuntimeGovernor {
    pub profile: PerformanceProfile,
    pub critical_memory_bytes: u64,
    pub observed_cpu: u32,
    pub delay_ms: u64,
    pub peak_cpu: u32,
    pub throttle_count: u64,
    pub throttle_sleep_ms: u64,
    pub minimum_available_memory_bytes: u64,
    pub available_memory_bytes: u64,
    pub low_memory_samples: u8,
}

/// What a governor has seen and done so far. The target is in percent; the peak is
/// held as the bits of a single-precision number.
#[derive(Clone, Copy, Debug, PartialEq, Eq, Structural)]
pub struct RuntimeGovernorStats {
    pub target_cpu_percent: u32,
    pub peak_cpu: u32,
    pub throttle_count: u64,
    pub throttle_sleep_ms: u64,
    pub minimum_available_memory_bytes: u64,
}

/// The free memory below which a batch must not go on, for some physical memory
/// and the memory that the plan reserves.
pub open spec fn critical_memory(total: int, reserved: int) -> int {
    least(greatest(total / 32, 512 * MIB as int), greatest(reserved, 512 * MIB as int))
}

/// The bits of a load of all there is.
pub const FULL_LOAD: u32 = 0x42c8_0000;

/// How many parts a percent has in which loads from 32 percent on are told. Below
/// 128 percent single precision tells no finer ones apart.
pub const LOAD_PARTS: u64 = 0x4_0000;

/// Whether bits are those of a number.
pub open spec fn is_number(bits: u32) -> bool {
    bits <= 0x7f80_0000 || 0x8000_0000 <= bits <= 0xff80_0000
}

/// A load brought between nothing and all there is; what is no number stays.
pub open spec fn kept_load(bits: u32) -> u32 {
    if !is_number(bits) {
        bits
    } else if bits >= 0x8000_0000 {
        0
    } else if bits > FULL_LOAD {
        FULL_LOAD
    } else {
        bits
    }
}

/// A load of 32 percent or more in parts of a percent; nothing for one below, which
/// no target is, and for what is no load. The bits of the numbers from 32 to 64
/// count one part each, those of the numbers from there to 128 two.
pub open spec fn load_parts(bits: u32) -> nat {
    if 0x4200_0000 <= bits < 0x4280_0000 {
        (bits - 0x4200_0000 + 0x80_0000) as nat
    } else if 0x4280_0000 <= bits < 0x4300_0000 {
        (2 * (bits - 0x4280_0000 + 0x80_0000)) as nat
    } else {
        0
    }
}

/// How far a load is over the target, in parts of a percent. The difference is one
/// that single precision tells exactly.
pub open spec fn overload(load: u32, profile: PerformanceProfile) -> nat {
    let target = profile.load_target() * LOAD_PARTS as nat;
    if load_parts(load) > target {
        (load_parts(load) - target) as nat
    } else {
        0
    }
}

/// How long a worker pauses at a load, in milliseconds: not at all up to one
/// percent over the target, then ten milliseconds and three more per percent, each
/// result in single precision, rounded, and at most 140.
pub open spec fn pause_for(load: u32, profile: PerformanceProfile) -> int {
    let over = overload(load, profile);
    if over < LOAD_PARTS {
        0
    } else {
        let length = nearest_single(10 * LOAD_PARTS as nat + nearest_single(3 * over));
        clamped(rounded_up(length, LOAD_PARTS as nat) as int, 10, 140)
    }
}

fn keep_load(bits: u32) -> (out: u32)
    ensures
        out == kept_load(bits),
{
    if bits > 0x7f80_0000 && bits < 0x8000_0000 || bits > 0xff80_0000 {
        bits
    } else if bits >= 0x8000_0000 {
        0
    } else if bits > FULL_LOAD {
        FULL_LOAD
    } else {
        bits
    }
}

fn count_parts(bits: u32) -> (out: u64)
    ensures
        out == load_parts(bits),
        out <= 0x200_0000,
{
    if bits >= 0x4200_0000 && bits < 0x4280_0000 {
        (bits - 0x4200_0000) as u64 + 0x80_0000
    } else if bits >= 0x4280_0000 && bits < 0x4300_0000 {
        2 * ((bits - 0x4280_0000) as u64 + 0x80_0000)
    } else {
        0
    }
}

fn find_pause(load: u32, profile: PerformanceProfile) -> (out: u64)
    ensures
        out == pause_for(load, profile),
{
    let parts: u64 = count_parts(load);
    let target: u64 = profile.target_cpu_percent() as u64 * LOAD_PARTS;
    let over: u64 = if parts > target {
        parts - target
    } else {
        0
    };
    if over < LOAD_PARTS {
        return 0;
    }
    let length: u128 = to_single(10 * LOAD_PARTS as u128 + to_single(3 * over as u128));
    let rounded: u128 = (2 * length + LOAD_PARTS as u128) / (2 * LOAD_PARTS as u128);
    if rounded < 10 {
        10
    } else if rounded > 140 {
        140
    } else {
        rounded as u64
    }
}

impl RuntimeGovernor {
    /// A governor at the start of a batch.
    pub fn new(
        profile: PerformanceProfile,
        reserved_memory_bytes: u64,
        machine: MachineResources,
    ) -> (out: Self)
        ensures
            out.profile == profile,
            out.critical_memory_bytes == critical_memory(
                machine.total_memory_bytes as int,
                reserved_memory_bytes as int,
            ),
            out.observed_cpu == 0,
            out.delay_ms == 0,
            out.peak_cpu == 0,
            out.throttle_count == 0,
            out.throttle_sleep_ms == 0,
            out.minimum_available_memory_bytes == machine.available_memory_bytes,
            out.available_memory_bytes == machine.available_memory_bytes,
            out.low_memory_samples == 0,
    {
        RuntimeGovernor {
            profile,
            critical_memory_bytes: min_u64(
                max_u64(machine.total_memory_bytes / 32, 512 * MIB),
                max_u64(reserved_memory_bytes, 512 * MIB),
            ),
            observed_cpu: 0,
            delay_ms: 0,
            peak_cpu: 0,
            throttle_count: 0,
            throttle_sleep_ms: 0,
            minimum_available_memory_bytes: machine.available_memory_bytes,
            available_memory_bytes: machine.available_memory_bytes,
            low_memory_samples: 0,
        }
    }

    /// How many workers the load has room for, of those that memory has room for:
    /// all of them up to the target, and above it the share by which the load
    /// exceeds the target, but never less than a quarter. Share and product are in
    /// single precision. One where the load is no number.
    pub open spec fn admission(&self, memory_limit: int) -> int {
        let load = load_parts(self.observed_cpu);
        let target = self.profile.load_target() * LOAD_PARTS as nat;
        if !is_number(self.observed_cpu) {
            1
        } else if load <= target {
            greatest(memory_limit, 1)
        } else {
            let share = clamped(
                rounded_even(target * SHORT_SIGNIFICAND as nat, load) as int,
                0x40_0000,
                SHORT_SIGNIFICAND as int,
            );
            let scaled = nearest_single(nearest_single(memory_limit as nat) * share as nat);
            clamped(
                scaled as int / SHORT_SIGNIFICAND as int,
                1,
                greatest(memory_limit, 1),
            )
        }
    }

    /// How many workers the load has room for, of those that memory has room for.
    pub fn admission_limit(&self, memory_limit: usize) -> (out: usize)
        ensures
            out == self.admission(memory_limit as int),
            1 <= out <= greatest(memory_limit as int, 1),
    {
        let seen: u32 = self.observed_cpu;
        if seen > 0x7f80_0000 && seen < 0x8000_0000 || seen > 0xff80_0000 {
            return 1;
        }
        let load: u64 = count_parts(seen);
        let target: u64 = self.profile.target_cpu_percent() as u64 * LOAD_PARTS;
        if load <= target {
            return max_usize(memory_limit, 1);
        }
        let full: u128 = SHORT_SIGNIFICAND as u128;
        let near: u128 = divide_even(target as u128 * full, load as u128);
        let share: u128 = if near < 0x40_0000 {
            0x40_0000
        } else if near > full {
            full
        } else {
            near
        };
        let room: u128 = to_single(memory_limit as u128);
        assert(room * share <= 0x2_0000_0000_0000_0000 * 0x100_0000) by (nonlinear_arith)
            requires
                room <= 0x2_0000_0000_0000_0000,
                share <= 0x100_0000,
        ;
        let scaled: u128 = to_single(room * share) / full;
        let most: usize = max_usize(memory_limit, 1);
        if scaled >= most as u128 {
            most
        } else if scaled < 1 {
            1
        } else {
            scaled as usize
        }
    }

    /// Takes in a sample of load and free memory. The third sample in a row
    /// below the critical memory stops the batch.
    pub fn refresh(&mut self, load: u32, available: u64) -> (out: Result<(), u64>)
        ensures
            final(self).profile == old(self).profile,
            final(self).critical_memory_bytes == old(self).critical_memory_bytes,
            final(self).throttle_count == old(self).throttle_count,
            final(self).throttle_sleep_ms == old(self).throttle_sleep_ms,
            final(self).observed_cpu == kept_load(load),
            final(self).available_memory_bytes == available,
            final(self).peak_cpu == (if is_number(load) && kept_load(load) > old(self).peak_cpu {
                kept_load(load)
            } else {
                old(self).peak_cpu
            }),
            final(self).minimum_available_memory_bytes == least(
                old(self).minimum_available_memory_bytes as int,
                available as int,
            ),
            final(self).delay_ms == pause_for(kept_load(load), old(self).profile),
            final(self).low_memory_samples == (if available < old(self).critical_memory_bytes {
                least(old(self).low_memory_samples + 1, 255)
            } else {
                0
            }),
            out is Err <==> final(self).low_memory_samples >= 3,
            out matches Err(left) ==> left == available,
    {
        let cpu: u32 = keep_load(load);
        let peak: u32 = if cpu <= FULL_LOAD && cpu > self.peak_cpu {
            cpu
        } else {
            self.peak_cpu
        };
        let lowest: u64 = min_u64(self.minimum_available_memory_bytes, available);
        let delay: u64 = find_pause(cpu, self.profile);
        let samples: u8 = if available < self.critical_memory_bytes {
            if self.low_memory_samples < 255 {
                self.low_memory_samples + 1
            } else {
                255
            }
        } else {
            0
        };
        self.observed_cpu = cpu;
        self.available_memory_bytes = available;
        self.peak_cpu = peak;
        self.minimum_available_memory_bytes = lowest;
        self.delay_ms = delay;
        self.low_memory_samples = samples;
        if samples >= 3 {
            Err(available)
        } else {
            Ok(())
        }
    }

    /// Whether a worker is due for a pause, given how long ago its last one was.
    pub fn pause_due(&self, since_last_ms: Option<u64>) -> (out: bool)
        ensures
            out == (self.delay_ms > 0 && (since_last_ms is None || since_last_ms->0 >= 250)),
    {
        self.delay_ms > 0 && match since_last_ms {
            Some(elapsed) => elapsed >= 250,
            None => true,
        }
    }

    /// Notes that a worker has paused.
    pub fn note_pause(&mut self, delay: u64)
        ensures
            *final(self) == (RuntimeGovernor {
                throttle_count: final(self).throttle_count,
                throttle_sleep_ms: final(self).throttle_sleep_ms,
                ..*old(self)
            }),
            final(self).throttle_count == least(old(self).throttle_count + 1, u64::MAX as int),
            final(self).throttle_sleep_ms == least(
                old(self).throttle_sleep_ms + delay,
                u64::MAX as int,
            ),
    {
        let count: u64 = if self.throttle_count < u64::MAX {
            self.throttle_count + 1
        } else {
            u64::MAX
        };
        let slept: u64 = if delay <= u64::MAX - self.throttle_sleep_ms {
            self.throttle_sleep_ms + delay
        } else {
            u64::MAX
        };
        self.throttle_count = count;
        self.throttle_sleep_ms = slept;
    }

    /// What the governor has seen and done so far.
    pub fn stats(&self) -> (out: RuntimeGovernorStats)
        ensures
            out.target_cpu_percent == self.profile.load_target(),
            out.peak_cpu == self.peak_cpu,
            out.throttle_count == self.throttle_count,
            out.throttle_sleep_ms == self.throttle_sleep_ms,
            out.minimum_available_memory_bytes == self.minimum_available_memory_bytes,
    {
        RuntimeGovernorStats {
            target_cpu_percent: self.profile.target_cpu_percent(),
            peak_cpu: self.peak_cpu,
            throttle_count: self.throttle_count,
            throttle_sleep_ms: self.throttle_sleep_ms,
            minimum_available_memory_bytes: self.minimum_available_memory_bytes,
        }
    }
}

// ---------------------------------------------------------------------------
// Laws
// ---------------------------------------------------------------------------

/// A gate never lets in more workers than its ceiling, never over the limit of
/// the moment, and always lets in the first one.
pub proof fn law_gate_is_bounded(gate: AdaptiveWorkerGate, governor: RuntimeGovernor, requested: int)
    requires
        gate.wf(),
    ensures
        ({
            let limit = governor.admission(
                gate.memory_limit(governor.available_memory_bytes as int),
            );
            &&& 1 <= limit <= gate.ceiling
            &&& gate.admits(requested, governor.available_memory_bytes as int, limit)
                ==> gate.active + 1 <= limit
            &&& gate.active == 0 ==> gate.admits(
                requested,
                governor.available_memory_bytes as int,
                limit,
            )
        }),
{
}

/// Taking back a worker undoes letting it in, as long as the memory handed out
/// can be counted.
pub proof fn law_release_undoes_admission(
    before: AdaptiveWorkerGate,
    inside: AdaptiveWorkerGate,
    after: AdaptiveWorkerGate,
    bytes: u64,
)
    requires
        before.reserved_bytes + bytes <= u64::MAX,
        inside.active == before.active + 1,
        inside.reserved_bytes == least(before.reserved_bytes + bytes, u64::MAX as int),
        after.active == (if inside.active > 0 {
            inside.active - 1
        } else {
            0
        }),
        after.reserved_bytes == (if inside.reserved_bytes > bytes {
            inside.reserved_bytes - bytes
        } else {
            0
        }),
    ensures
        after.active == before.active,
        after.reserved_bytes == before.reserved_bytes,
{
}

/// A pause is either none at all or between ten and 140 milliseconds, and a
/// higher load never shortens it.
pub proof fn law_pauses_grow_with_load(low: u32, high: u32, profile: PerformanceProfile)
    requires
        low <= high <= FULL_LOAD,
    ensures
        pause_for(low, profile) <= pause_for(high, profile),
        pause_for(low, profile) == 0 || 10 <= pause_for(low, profile) <= 140,
{
    let (less, more) = (overload(low, profile), overload(high, profile));
    lemma_single_rises(3 * less, 3 * more);
    lemma_single_rises(
        10 * LOAD_PARTS as nat + nearest_single(3 * less),
        10 * LOAD_PARTS as nat + nearest_single(3 * more),
    );
    let short = nearest_single(10 * LOAD_PARTS as nat + nearest_single(3 * less));
    let long = nearest_single(10 * LOAD_PARTS as nat + nearest_single(3 * more));
    let parts = 2 * LOAD_PARTS as nat;
    assert((2 * short + LOAD_PARTS) / parts as int <= (2 * long + LOAD_PARTS) / parts as int)
        by (nonlinear_arith)
        requires
            short <= long,
            parts > 0,
    ;
}

/// The profiles use 45, 70 and 100 per cent of what is safe, and hold the load of the
/// whole computer to 55, 75 and 92 per cent; each is found under its name.
pub proof fn law_profiles_have_their_shares()
    ensures
        PerformanceProfile::Low.percent() == 45,
        PerformanceProfile::Medium.percent() == 70,
        PerformanceProfile::High.percent() == 100,
        PerformanceProfile::Low.load_target() == 55,
        PerformanceProfile::Medium.load_target() == 75,
        PerformanceProfile::High.load_target() == 92,
        PerformanceProfile::Low.name() == "Low"@,
        PerformanceProfile::Medium.name() == "Medium"@,
        PerformanceProfile::High.name() == "High"@,
        forall|value: Seq<char>|
            lower(trimmed(value)) == "low"@ ==> #[trigger] PerformanceProfile::named(value)
                == PerformanceProfile::Low,
        forall|value: Seq<char>|
            lower(trimmed(value)) == "medium"@ ==> #[trigger] PerformanceProfile::named(value)
                == PerformanceProfile::Medium,
        forall|value: Seq<char>|
            lower(trimmed(value)) != "low"@ && lower(trimmed(value)) != "medium"@
                ==> #[trigger] PerformanceProfile::named(value) == PerformanceProfile::High,
{
    reveal_strlit("low");
    reveal_strlit("medium");
    assert("low"@.len() == 3 && "medium"@.len() == 6);
}

/// A part of a factor is that of the profile: 45 and 70 per cent to within one part in a
/// thousand billions.
pub proof fn law_factors_are_the_shares(profile: PerformanceProfile)
    ensures
        ({
            let (significand, power) = profile.factor();
            let error = 100 * significand - profile.percent() * power;
            -(power as int) <= 1_000_000_000_000 * error <= power
        }),
{
}

/// Of the free memory an eighth of all there is, and at least two gigabytes, is left to
/// others, but never more than a third of what is free; workers may always share one.
pub proof fn law_memory_is_left_to_others(total: int, available: int)
    requires
        0 <= available <= total,
    ensures
        3 * memory_reserve(total, available) <= available,
        8 * memory_reserve(total, available) <= total || memory_reserve(total, available)
            <= 2_147_483_648,
        total <= 17_179_869_184 && available >= 6_442_450_944 ==> memory_reserve(total, available)
            == 2_147_483_648,
        memory_usable(total, available) >= 1_073_741_824,
        available >= 2_147_483_648 ==> memory_usable(total, available) + memory_reserve(
            total,
            available,
        ) == available,
{
}

/// A parser is expected to use a quarter of a gigabyte and its demo, from half a gigabyte
/// to four; an analysis more for a larger export, from one gigabyte to eight.
pub proof fn law_workers_are_sized(small: int, large: int)
    requires
        0 <= small <= large <= u64::MAX,
    ensures
        536_870_912 <= parse_memory(small) <= parse_memory(large) <= 4_294_967_296,
        1_073_741_824 <= analysis_memory(small) <= analysis_memory(large) <= 8_589_934_592,
        268_435_456 <= small <= 4_026_531_840 ==> parse_memory(small) == small + 268_435_456,
        536_870_912 <= small <= 10_000_000_000 ==> analysis_memory(small) == 805_306_368 + 3 * small / 4,
{
}

/// One of four processors or more is left to the system, and two of twelve or more;
/// workers have at least one, and no fewer where there are more.
pub proof fn law_processors_are_left_to_the_system(logical: int, more: int)
    requires
        1 <= logical <= more,
    ensures
        logical < 4 ==> processor_budget(logical) == logical,
        4 <= logical < 12 ==> processor_budget(logical) == logical - 1,
        logical >= 12 ==> processor_budget(logical) == logical - 2,
        1 <= processor_budget(logical),
        logical < more ==> processor_budget(logical) <= processor_budget(more),
{
}

/// The upper quartile is one of the values, in order the first that three quarters of the
/// way to the last lie at or before.
pub proof fn law_quartile_is_three_quarters_up(values: Seq<u64>) -> (at: int)
    requires
        values.len() > 0,
    ensures
        0 <= at < values.len(),
        upper_quartile(values) == ascending_numbers(values)[at],
        4 * at >= 3 * (values.len() - 1),
        4 * (at - 1) < 3 * (values.len() - 1),
{
    law_ascending_numbers(values);
    (3 * (values.len() - 1) + 3) / 4
}

/// The first worker is always let in; another is let in only below the limit, and where
/// what is asked for fits into the free memory with what was promised before.
pub proof fn law_first_worker_passes(gate: AdaptiveWorkerGate, requested: int, available: int, limit: int)
    requires
        0 <= requested <= u64::MAX - gate.reserved_bytes,
    ensures
        gate.active == 0 && limit > 0 ==> gate.admits(requested, available, limit),
        gate.active >= limit ==> !gate.admits(requested, available, limit),
        gate.active > 0 && requested > 0 && gate.reserved_bytes + requested > available
            && available >= 0 ==> !gate.admits(requested, available, limit),
{
}

/// A worker pauses only where the load is at least a percent over the target, and never
/// longer than 140 milliseconds.
pub proof fn law_pauses_are_short(load: u32, profile: PerformanceProfile)
    ensures
        load_parts(load) < (profile.load_target() + 1) * 262_144 ==> pause_for(load, profile) == 0,
        0 <= pause_for(load, profile) <= 140,
{
}

} // verus!
