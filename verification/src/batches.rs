//! Batches of demos: what they are expected to take, how far they are, and where
//! they go.
use vstd::prelude::*;
use crate::arrange::{arrange, in_order};
use crate::clips::{sanitize, sanitized};
use crate::double::{divide_even, nearest_double, rounded_even, to_double};
use crate::floating::{
    ceiling, endless, fraction, lemma_near_rises, lemma_one_positive, lemma_own_value, natural, one,
    product, quotient, rounded, sum, Double,
};
use crate::models::Candidate;
use crate::number::{int_text, nat_text, u64_text};
use crate::preflight::{
    bytes_text, duration_text, format_bytes, format_duration, require_disk_space, shortage_text,
    DiskSpace,
};
use crate::scheduler::{
    DemoJob, ResourcePlan,
};
use crate::text::{join, joined, same_text, views};
use crate::vdm::{three_digit_text, three_digits};

verus! {

/// How many bytes of export a byte of a demo becomes where nothing else is known.
pub open spec fn default_parse_ratio() -> int {
    fraction(32_584_887_884, 1_000_000_000) as int
}

/// How many seconds a worker parses a gibibyte of demos where nothing else is known.
pub open spec fn default_parse_rate() -> int {
    fraction(2611, 10) as int
}

/// How many seconds a thread analyses a gibibyte of exports where nothing else is
/// known.
pub open spec fn default_analysis_rate() -> int {
    fraction(134, 10) as int
}

/// How much of a worker each further one adds to parsing.
pub open spec fn parse_share() -> int {
    fraction(82, 100) as int
}

/// How much of a thread each further one adds to analysing.
pub open spec fn analysis_share() -> int {
    fraction(70, 100) as int
}

/// How many earlier batches are looked at.
pub const HISTORY_LIMIT: usize = 20;

// ---------------------------------------------------------------------------
// Numbers
// ---------------------------------------------------------------------------

/// The least of a number and the largest that is held.
pub open spec fn held(n: int) -> int {
    if n > u64::MAX {
        u64::MAX as int
    } else {
        n
    }
}

fn hold(n: u128) -> (out: u64)
    ensures
        out == held(n as int),
{
    if n > 0xffff_ffff_ffff_ffff {
        0xffff_ffff_ffff_ffff
    } else {
        n as u64
    }
}

/// How much several workers do of what one does, where each further one adds only
/// a part.
pub open spec fn parallelism(workers: int, each: int) -> int {
    if workers <= 1 {
        natural(1) as int
    } else {
        sum(natural(1) as int, product(natural((workers - 1) as nat) as int, each))
    }
}

/// How much several workers do of what one does.
pub fn effective_parallelism(workers: usize, additional_worker_efficiency: Double) -> (out: Double)
    requires
        additional_worker_efficiency.value() >= 0,
    ensures
        out.value() == parallelism(workers as int, additional_worker_efficiency.value()),
        out.value() > 0,
{
    if workers <= 1 {
        Double::natural(1)
    } else {
        let more = Double::natural(workers as u64 - 1);
        Double::natural(1).plus(more.times(additional_worker_efficiency))
    }
}

/// The less each further worker adds, the less they do together: contention is
/// never made up for.
pub proof fn law_contention_discounts(workers: int, each: int, alone: int)
    requires
        0 <= each <= alone,
    ensures
        parallelism(workers, each) <= parallelism(workers, alone),
{
    lemma_one_positive();
    lemma_own_value();
    if workers > 1 {
        let more = natural((workers - 1) as nat) as int;
        let unit = natural(1) as int;
        assert(0 <= more * each <= more * alone) by (nonlinear_arith)
            requires
                more >= 0,
                0 <= each <= alone,
        ;
        lemma_near_rises((more * each) as nat, (more * alone) as nat, one());
        lemma_near_rises(
            (unit + product(more, each)) as nat,
            (unit + product(more, alone)) as nat,
            1,
        );
    }
}

/// More workers never do less.
pub proof fn law_parallelism_grows(few: int, many: int, each: int)
    requires
        0 <= few <= many,
        0 <= each,
    ensures
        0 < natural(1) <= parallelism(few, each) <= parallelism(many, each),
{
    lemma_one_positive();
    let a = natural((few - 1) as nat) as int;
    let b = natural((many - 1) as nat) as int;
    let unit = natural(1) as int;
    lemma_own_value();
    if many > 1 {
        assert(b * each >= 0) by (nonlinear_arith)
            requires
                b >= 0,
                each >= 0,
        ;
        lemma_near_rises(natural(1), (unit + product(b, each)) as nat, 1);
    }
    if few > 1 {
        assert(a * each >= 0) by (nonlinear_arith)
            requires
                a >= 0,
                each >= 0,
        ;
        assert((few - 1) * one() <= (many - 1) * one()) by (nonlinear_arith)
            requires
                few <= many,
                one() > 0,
        ;
        lemma_near_rises((few - 1) as nat * one(), (many - 1) as nat * one(), 1);
        assert(a * each <= b * each) by (nonlinear_arith)
            requires
                a <= b,
                each >= 0,
        ;
        lemma_near_rises((a * each) as nat, (b * each) as nat, one());
        lemma_near_rises(
            (unit + product(a, each)) as nat,
            (unit + product(b, each)) as nat,
            1,
        );
        lemma_near_rises(natural(1), (unit + product(a, each)) as nat, 1);
    }
}

/// Whether a number counts: it is above zero and finite.
pub open spec fn counts(v: int) -> bool {
    0 < v < endless()
}

/// The numbers that count.
pub open spec fn counting(values: Seq<int>) -> Seq<int>
    decreases values.len(),
{
    if values.len() == 0 {
        Seq::empty()
    } else {
        let before = counting(values.drop_last());
        if counts(values.last()) {
            before.push(values.last())
        } else {
            before
        }
    }
}

/// Numbers in ascending order with another in its place.
pub open spec fn placed(values: Seq<int>, value: int) -> Seq<int>
    decreases values.len(),
{
    if values.len() == 0 || values.last() <= value {
        values.push(value)
    } else {
        placed(values.drop_last(), value).push(values.last())
    }
}

/// Numbers in ascending order.
pub open spec fn ascending_values(values: Seq<int>) -> Seq<int>
    decreases values.len(),
{
    if values.len() == 0 {
        Seq::empty()
    } else {
        placed(ascending_values(values.drop_last()), values.last())
    }
}

/// Numbers in ascending order are as many, in ascending order, and the same ones.
pub proof fn law_ascending_values(values: Seq<int>)
    ensures
        ascending_values(values).len() == values.len(),
        forall|i: int, j: int|
            0 <= i < j < values.len() ==> ascending_values(values)[i] <= ascending_values(
                values,
            )[j],
        ascending_values(values).to_multiset() == values.to_multiset(),
    decreases values.len(),
{
    broadcast use vstd::seq_lib::group_to_multiset_ensures;

    if values.len() > 0 {
        let rest = values.drop_last();
        law_ascending_values(rest);
        lemma_placed(ascending_values(rest), values.last());
        assert(rest.push(values.last()) =~= values);
    } else {
        assert(ascending_values(values) =~= values);
    }
}

proof fn lemma_placed(values: Seq<int>, value: int)
    requires
        forall|i: int, j: int| 0 <= i < j < values.len() ==> values[i] <= values[j],
    ensures
        placed(values, value).len() == values.len() + 1,
        forall|i: int, j: int|
            0 <= i < j <= values.len() ==> placed(values, value)[i] <= placed(values, value)[j],
        forall|i: int|
            0 <= i <= values.len() ==> #[trigger] placed(values, value)[i] <= value || (
            values.len() > 0 && placed(values, value)[i] <= values.last()),
        placed(values, value).to_multiset() == values.to_multiset().insert(value),
    decreases values.len(),
{
    broadcast use vstd::seq_lib::group_to_multiset_ensures;

    if values.len() > 0 && values.last() > value {
        let rest = values.drop_last();
        lemma_placed(rest, value);
        assert(rest.push(values.last()) =~= values);
        assert(values.to_multiset() =~= rest.to_multiset().insert(values.last()));
        assert(placed(values, value).to_multiset() =~= values.to_multiset().insert(value));
    }
}

/// A share of a whole: none where it is below zero, all where it is above one.
pub open spec fn kept_share(share: int) -> int {
    if share < 0 {
        0
    } else if share > natural(1) {
        natural(1) as int
    } else {
        share
    }
}

fn keep_share(share: Double) -> (out: Double)
    ensures
        out.value() == kept_share(share.value()),
        out.value() >= 0,
{
    let one = Double::natural(1);
    if share.less(Double::zero()) {
        Double::zero()
    } else if one.less(share) {
        one
    } else {
        share
    }
}

/// The number at a share of the way through others, in order; only those count that
/// are above zero and finite.
pub open spec fn share_of(values: Seq<int>, share: int) -> Option<int> {
    let some = counting(values);
    let at = rounded(product(natural((some.len() - 1) as nat) as int, kept_share(share)) as nat);
    if some.len() == 0 || at >= some.len() {
        None
    } else {
        Some(ascending_values(some)[at])
    }
}

/// The values of numbers.
pub open spec fn values_of(numbers: Seq<Double>) -> Seq<int> {
    Seq::new(numbers.len(), |i: int| numbers[i].value())
}

fn keep_counting(values: &Vec<Double>) -> (out: Vec<Double>)
    ensures
        values_of(out@) == counting(values_of(values@)),
{
    let ghost all = values_of(values@);
    let mut out: Vec<Double> = Vec::new();
    let mut i: usize = 0;
    assert(all.take(0) =~= Seq::empty());
    assert(values_of(out@) =~= Seq::empty());
    while i < values.len()
        invariant
            i <= values.len(),
            all == values_of(values@),
            values_of(out@) == counting(all.take(i as int)),
        decreases values.len() - i,
    {
        proof {
            assert(all.take(i + 1).drop_last() =~= all.take(i as int));
            assert(all.take(i + 1).last() == values@[i as int].value());
        }
        let value = values[i];
        if Double::zero().less(value) && value.is_finite() {
            let ghost before = values_of(out@);
            out.push(value);
            assert(values_of(out@) =~= before.push(value.value()));
        }
        i += 1;
    }
    assert(all.take(values.len() as int) =~= all);
    out
}

proof fn lemma_placed_at(values: Seq<int>, value: int, at: int)
    requires
        0 <= at <= values.len(),
        at == 0 || values[at - 1] <= value,
        forall|k: int| at <= k < values.len() ==> #[trigger] values[k] > value,
    ensures
        placed(values, value) == values.insert(at, value),
    decreases values.len(),
{
    if at == values.len() {
        assert(values.insert(at, value) =~= values.push(value));
    } else {
        let rest = values.drop_last();
        assert(values[values.len() - 1] > value);
        lemma_placed_at(rest, value, at);
        assert(rest.insert(at, value).push(values.last()) =~= values.insert(at, value));
    }
}

fn put_in_place(list: &mut Vec<Double>, value: Double)
    ensures
        values_of(final(list)@) == placed(values_of(old(list)@), value.value()),
{
    let ghost all = values_of(list@);
    let mut at: usize = list.len();
    while at > 0 && value.less(list[at - 1])
        invariant
            at <= list.len(),
            all == values_of(list@),
            forall|k: int| at <= k < list.len() ==> #[trigger] all[k] > value.value(),
        decreases at,
    {
        assert(all[at - 1] == list@[at - 1].value());
        at -= 1;
    }
    proof {
        if at > 0 {
            assert(all[at - 1] == list@[at - 1].value());
        }
        lemma_placed_at(all, value.value(), at as int);
    }
    list.insert(at, value);
    assert(values_of(list@) =~= all.insert(at as int, value.value()));
}

fn sort_values(values: &Vec<Double>) -> (out: Vec<Double>)
    ensures
        values_of(out@) == ascending_values(values_of(values@)),
        out.len() == values.len(),
{
    let ghost all = values_of(values@);
    let mut out: Vec<Double> = Vec::new();
    let mut i: usize = 0;
    assert(values_of(out@) =~= ascending_values(all.take(0)));
    while i < values.len()
        invariant
            i <= values.len(),
            all == values_of(values@),
            values_of(out@) == ascending_values(all.take(i as int)),
        decreases values.len() - i,
    {
        proof {
            assert(all.take(i + 1).drop_last() =~= all.take(i as int));
            assert(all.take(i + 1).last() == values@[i as int].value());
        }
        put_in_place(&mut out, values[i]);
        i += 1;
    }
    proof {
        assert(all.take(values.len() as int) =~= all);
        law_ascending_values(all);
        assert(values_of(out@).len() == out.len());
    }
    out
}

/// The number at a share of the way through others, in order.
pub fn percentile_of(values: &Vec<Double>, share: Double) -> (out: Option<Double>)
    ensures
        match out {
            Some(value) => share_of(values_of(values@), share.value()) == Some(value.value())
                && counts(value.value()),
            None => share_of(values_of(values@), share.value()) is None,
        },
{
    let some = keep_counting(values);
    assert(values_of(some@).len() == some.len());
    if some.len() == 0 {
        return None;
    }
    let at: u64 = Double::natural(some.len() as u64 - 1).times(keep_share(share)).rounded();
    if at >= some.len() as u64 {
        return None;
    }
    let sorted = sort_values(&some);
    let out = sorted[at as usize];
    proof {
        let known = values_of(some@);
        assert(values_of(sorted@)[at as int] == out.value());
        lemma_counting(values_of(values@));
        law_ascending_values(known);
        broadcast use vstd::seq_lib::group_to_multiset_ensures;

        let risen = ascending_values(known);
        assert(risen.contains(risen[at as int]));
        assert(risen.to_multiset().count(out.value()) > 0);
        assert(known.contains(out.value()));
    }
    Some(out)
}

proof fn lemma_counting(values: Seq<int>)
    ensures
        forall|v: int| #[trigger] counting(values).contains(v) ==> counts(v),
    decreases values.len(),
{
    if values.len() > 0 {
        let rest = values.drop_last();
        lemma_counting(rest);
        assert forall|v: int| #[trigger] counting(values).contains(v) implies counts(v) by {
            let all = counting(values);
            let known = counting(rest);
            let k = choose|k: int| 0 <= k < all.len() && all[k] == v;
            if k < known.len() {
                assert(known[k] == v);
                assert(known.contains(v));
            }
        }
    }
}

// ---------------------------------------------------------------------------
// Earlier batches
// ---------------------------------------------------------------------------

/// What an earlier batch took.
#[derive(Debug)]
pub struct TimingSample {
    pub machine: String,
    pub performance_profile: String,
    pub input_bytes: u64,
    pub parse_output_bytes: u64,
    pub parse_workers: usize,
    pub analysis_threads: usize,
    pub parse_wall_seconds: Double,
    pub analysis_wall_seconds: Double,
}

/// Whether an earlier batch tells something of one on a machine with a profile.
pub open spec fn is_comparable(sample: TimingSample, machine: Seq<char>, profile: Seq<char>) -> bool {
    sample.machine@ == machine && sample.performance_profile@ == profile && sample.input_bytes > 0
        && sample.parse_output_bytes > 0
}

/// The earlier batches that tell something, by position.
pub open spec fn comparable(
    samples: Seq<TimingSample>,
    machine: Seq<char>,
    profile: Seq<char>,
    upto: int,
) -> Seq<int>
    decreases upto,
{
    if upto <= 0 {
        Seq::empty()
    } else {
        let before = comparable(samples, machine, profile, upto - 1);
        if is_comparable(samples[upto - 1], machine, profile) {
            before.push(upto - 1)
        } else {
            before
        }
    }
}

/// The last of some positions.
pub open spec fn last_of(list: Seq<int>, count: int) -> Seq<int> {
    if list.len() > count {
        list.skip(list.len() - count)
    } else {
        list
    }
}

/// Positions as numbers.
pub open spec fn positions(list: Seq<usize>) -> Seq<int> {
    Seq::new(list.len(), |i: int| list[i] as int)
}

/// The earlier batches that are looked at, by position: the latest of those that
/// tell something.
pub fn matching_history(samples: &Vec<TimingSample>, machine: &str, profile: &str) -> (out: Vec<usize>)
    ensures
        positions(out@) == last_of(
            comparable(samples@, machine@, profile@, samples.len() as int),
            HISTORY_LIMIT as int,
        ),
        forall|k: int| 0 <= k < out.len() ==> #[trigger] out@[k] < samples.len(),
{
    let mut all: Vec<usize> = Vec::new();
    let mut i: usize = 0;
    assert(positions(all@) =~= Seq::empty());
    while i < samples.len()
        invariant
            i <= samples.len(),
            positions(all@) == comparable(samples@, machine@, profile@, i as int),
            forall|k: int| 0 <= k < all.len() ==> #[trigger] all@[k] < i,
        decreases samples.len() - i,
    {
        let sample = &samples[i];
        if same_text(sample.machine.as_str(), machine) && same_text(
            sample.performance_profile.as_str(),
            profile,
        ) && sample.input_bytes > 0 && sample.parse_output_bytes > 0 {
            let ghost before = positions(all@);
            all.push(i);
            assert(positions(all@) =~= before.push(i as int));
        }
        i += 1;
    }
    let start: usize = if all.len() > HISTORY_LIMIT {
        all.len() - HISTORY_LIMIT
    } else {
        0
    };
    let ghost known = positions(all@);
    let mut out: Vec<usize> = Vec::new();
    let mut j: usize = start;
    assert(positions(out@) =~= known.subrange(start as int, start as int));
    while j < all.len()
        invariant
            start <= j <= all.len(),
            known == positions(all@),
            positions(out@) == known.subrange(start as int, j as int),
            forall|k: int| 0 <= k < all.len() ==> #[trigger] all@[k] < samples.len(),
            forall|k: int| 0 <= k < out.len() ==> #[trigger] out@[k] < samples.len(),
        decreases all.len() - j,
    {
        let ghost before = positions(out@);
        out.push(all[j]);
        proof {
            assert(positions(out@) =~= before.push(known[j as int]));
            assert(known.subrange(start as int, j + 1) =~= known.subrange(
                start as int,
                j as int,
            ).push(known[j as int]));
        }
        j += 1;
    }
    assert(known.subrange(start as int, all.len() as int) =~= last_of(
        known,
        HISTORY_LIMIT as int,
    ));
    out
}

/// A number of bytes in gibibytes.
pub open spec fn gibibytes(bytes: int) -> nat {
    quotient(natural(bytes as nat), natural(1_073_741_824))
}

/// How many bytes of export a byte of a demo became.
pub open spec fn ratio_of(sample: TimingSample) -> int {
    quotient(
        natural(sample.parse_output_bytes as nat),
        natural(sample.input_bytes as nat),
    ) as int
}

/// How many seconds one worker takes for a gibibyte; zero where that is not known.
pub open spec fn rate_of(wall: int, workers: int, each: int, bytes: int) -> int {
    if gibibytes(bytes) > 0 && wall > 0 {
        quotient(product(wall, parallelism(workers, each)) as nat, gibibytes(bytes)) as int
    } else {
        0
    }
}

fn count_gibibytes(bytes: u64) -> (out: Double)
    ensures
        out.value() == gibibytes(bytes as int),
{
    Double::natural(bytes).over(Double::natural(1_073_741_824))
}

fn ratio(sample: &TimingSample) -> (out: Double)
    requires
        sample.input_bytes > 0,
    ensures
        out.value() == ratio_of(*sample),
{
    Double::natural(sample.parse_output_bytes).over(Double::natural(sample.input_bytes))
}

fn rate(wall: Double, workers: usize, each: Double, bytes: u64) -> (out: Double)
    requires
        each.value() >= 0,
    ensures
        out.value() == rate_of(wall.value(), workers as int, each.value(), bytes as int),
{
    let size = count_gibibytes(bytes);
    if Double::zero().less(size) && Double::zero().less(wall) {
        wall.times(effective_parallelism(workers, each)).over(size)
    } else {
        Double::zero()
    }
}

/// What earlier batches tell: the shares of export, and the times for parsing and
/// for analysing.
pub open spec fn history_values(
    samples: Seq<TimingSample>,
    chosen: Seq<int>,
    which: int,
) -> Seq<int> {
    Seq::new(
        chosen.len(),
        |i: int|
            {
                let sample = samples[chosen[i]];
                if which == 0 {
                    ratio_of(sample)
                } else if which == 1 {
                    rate_of(
                        sample.parse_wall_seconds.value(),
                        sample.parse_workers as int,
                        parse_share(),
                        sample.input_bytes as int,
                    )
                } else {
                    rate_of(
                        sample.analysis_wall_seconds.value(),
                        sample.analysis_threads as int,
                        analysis_share(),
                        sample.parse_output_bytes as int,
                    )
                }
            },
    )
}

fn list_values(samples: &Vec<TimingSample>, chosen: &Vec<usize>, which: u8) -> (out: Vec<Double>)
    requires
        forall|k: int| 0 <= k < chosen.len() ==> #[trigger] chosen@[k] < samples.len(),
        forall|k: int|
            0 <= k < chosen.len() ==> samples@[#[trigger] chosen@[k] as int].input_bytes > 0,
    ensures
        values_of(out@) == history_values(samples@, positions(chosen@), which as int),
{
    let ghost all = history_values(samples@, positions(chosen@), which as int);
    let mut out: Vec<Double> = Vec::new();
    let mut i: usize = 0;
    assert(values_of(out@) =~= all.take(0));
    while i < chosen.len()
        invariant
            i <= chosen.len(),
            all == history_values(samples@, positions(chosen@), which as int),
            values_of(out@) == all.take(i as int),
            forall|k: int| 0 <= k < chosen.len() ==> #[trigger] chosen@[k] < samples.len(),
            forall|k: int|
                0 <= k < chosen.len() ==> samples@[#[trigger] chosen@[k] as int].input_bytes > 0,
        decreases chosen.len() - i,
    {
        let sample = &samples[chosen[i]];
        let value = if which == 0 {
            ratio(sample)
        } else if which == 1 {
            rate(
                sample.parse_wall_seconds,
                sample.parse_workers,
                Double::fraction(82, 100),
                sample.input_bytes,
            )
        } else {
            rate(
                sample.analysis_wall_seconds,
                sample.analysis_threads,
                Double::fraction(70, 100),
                sample.parse_output_bytes,
            )
        };
        let ghost before = values_of(out@);
        out.push(value);
        proof {
            assert(values_of(out@) =~= before.push(value.value()));
            assert(all[i as int] == value.value());
            assert(all.take(i + 1) =~= all.take(i as int).push(all[i as int]));
        }
        i += 1;
    }
    assert(all.take(chosen.len() as int) =~= all);
    out
}

proof fn lemma_comparable(
    samples: Seq<TimingSample>,
    machine: Seq<char>,
    profile: Seq<char>,
    upto: int,
)
    ensures
        forall|k: int|
            0 <= k < comparable(samples, machine, profile, upto).len() ==> is_comparable(
                samples[#[trigger] comparable(samples, machine, profile, upto)[k]],
                machine,
                profile,
            ),
    decreases upto,
{
    if upto > 0 {
        lemma_comparable(samples, machine, profile, upto - 1);
        let before = comparable(samples, machine, profile, upto - 1);
        let all = comparable(samples, machine, profile, upto);
        assert forall|k: int| 0 <= k < all.len() implies is_comparable(
            samples[#[trigger] all[k]],
            machine,
            profile,
        ) by {
            if k < before.len() {
                assert(all[k] == before[k]);
            }
        }
    }
}

/// The name by which a machine is known again: its processors and its memory.
pub open spec fn machine_name(plan: ResourcePlan) -> Seq<char> {
    "cpu"@ + int_text(plan.logical_processors as int) + "-ram"@ + int_text(
        rounded(gibibytes(plan.total_memory_bytes as int)),
    ) + "g"@
}

/// The name by which a machine is known again.
pub fn machine_signature(plan: &ResourcePlan) -> (out: String)
    ensures
        out@ == machine_name(*plan),
{
    let whole: u64 = count_gibibytes(plan.total_memory_bytes).rounded();
    let mut out = "cpu".to_owned();
    out.append(u64_text(plan.logical_processors as u64).as_str());
    out.append("-ram");
    out.append(u64_text(whole).as_str());
    out.append("g");
    out
}

// ---------------------------------------------------------------------------
// What a batch is expected to take
// ---------------------------------------------------------------------------

/// What a batch is expected to take.
#[derive(Debug)]
pub struct BatchPreflight {
    pub demo_count: usize,
    pub input_bytes: u64,
    pub estimated_parse_bytes: u64,
    pub estimated_analysis_addition_bytes: u64,
    pub estimated_total_output_bytes: u64,
    pub safety_headroom_bytes: u64,
    pub required_free_bytes: u64,
    pub available_free_bytes: u64,
    pub output_volume: String,
    pub estimated_parse_seconds: u64,
    pub estimated_analysis_seconds: u64,
    pub history_samples: usize,
    pub plan: ResourcePlan,
}

/// How large demos are together.
pub open spec fn total_bytes(jobs: Seq<DemoJob>) -> int
    decreases jobs.len(),
{
    if jobs.len() == 0 {
        0
    } else {
        total_bytes(jobs.drop_last()) + jobs.last().source_bytes
    }
}

/// How long work takes, in seconds: the bytes at a rate, shared by workers, and a
/// tenth more; never less than one.
pub open spec fn work_seconds(bytes: int, rate: int, share: int) -> int {
    let all = quotient(product(gibibytes(bytes) as int, rate) as nat, share as nat);
    let seconds = ceiling(product(all as int, fraction(110, 100) as int) as nat);
    if seconds > 1 {
        seconds
    } else {
        1
    }
}

fn estimate_seconds(bytes: u64, rate: Double, share: Double) -> (out: u64)
    requires
        rate.value() >= 0,
        share.value() > 0,
    ensures
        out == work_seconds(bytes as int, rate.value(), share.value()),
{
    let all = count_gibibytes(bytes).times(rate).over(share);
    let seconds: u64 = all.times(Double::fraction(110, 100)).ceiling();
    if seconds > 1 {
        seconds
    } else {
        1
    }
}

/// A number, or another where there is none.
pub open spec fn or_default(value: Option<int>, otherwise: int) -> int {
    match value {
        Some(value) => value,
        None => otherwise,
    }
}

/// The share of export that is expected: what most earlier batches did not exceed,
/// but never less than is usual.
pub open spec fn expected_ratio(values: Seq<int>) -> int {
    let seen = or_default(share_of(values, fraction(90, 100) as int), default_parse_ratio());
    if seen > default_parse_ratio() {
        seen
    } else {
        default_parse_ratio()
    }
}

/// The rate that is expected: the middle of those of earlier batches.
pub open spec fn expected_rate(values: Seq<int>, otherwise: int) -> int {
    or_default(share_of(values, fraction(50, 100) as int), otherwise)
}

/// Whether an estimate is the one for some demos.
pub open spec fn estimates_batch(
    estimate: BatchPreflight,
    jobs: Seq<DemoJob>,
    samples: Seq<TimingSample>,
    plan: ResourcePlan,
    disk: DiskSpace,
) -> bool {
    let input = total_bytes(jobs);
    let chosen = last_of(
        comparable(
            samples,
            machine_name(plan),
            plan.performance_profile.name(),
            samples.len() as int,
        ),
        HISTORY_LIMIT as int,
    );
    let parsed = ceiling(
        product(
            natural(input as nat) as int,
            expected_ratio(history_values(samples, chosen, 0)),
        ) as nat,
    );
    let added = ceiling(product(natural(input as nat) as int, fraction(2, 100) as int) as nat);
    let all = held(parsed + added);
    &&& estimate.demo_count == jobs.len()
    &&& estimate.input_bytes == input
    &&& estimate.estimated_parse_bytes == parsed
    &&& estimate.estimated_analysis_addition_bytes == added
    &&& estimate.estimated_total_output_bytes == all
    &&& estimate.safety_headroom_bytes == all / 5
    &&& estimate.required_free_bytes == held(all + all / 5)
    &&& estimate.available_free_bytes == disk.available_bytes
    &&& estimate.output_volume@ == disk.mount_point@
    &&& estimate.estimated_parse_seconds == work_seconds(
        input,
        expected_rate(history_values(samples, chosen, 1), default_parse_rate()),
        parallelism(plan.parse_worker_ceiling as int, parse_share()),
    )
    &&& estimate.estimated_analysis_seconds == work_seconds(
        parsed,
        expected_rate(history_values(samples, chosen, 2), default_analysis_rate()),
        parallelism(plan.analysis_worker_ceiling as int, analysis_share()),
    )
    &&& estimate.history_samples == chosen.len()
    &&& estimate.plan == plan
}

fn add_sizes(jobs: &Vec<DemoJob>) -> (out: u64)
    requires
        total_bytes(jobs@) <= u64::MAX,
    ensures
        out == total_bytes(jobs@),
{
    let mut out: u64 = 0;
    let mut i: usize = 0;
    assert(jobs@.take(0) =~= Seq::empty());
    while i < jobs.len()
        invariant
            i <= jobs.len(),
            total_bytes(jobs@) <= u64::MAX,
            out == total_bytes(jobs@.take(i as int)),
        decreases jobs.len() - i,
    {
        proof {
            assert(jobs@.take(i + 1).drop_last() =~= jobs@.take(i as int));
            assert(jobs@.take(i + 1).last() == jobs@[i as int]);
            lemma_total_grows(jobs@, i + 1);
        }
        out = out + jobs[i].source_bytes;
        i += 1;
    }
    assert(jobs@.take(jobs.len() as int) =~= jobs@);
    out
}

proof fn lemma_total_grows(jobs: Seq<DemoJob>, upto: int)
    requires
        0 <= upto <= jobs.len(),
    ensures
        0 <= total_bytes(jobs.take(upto)) <= total_bytes(jobs),
    decreases jobs.len(),
{
    if upto < jobs.len() {
        lemma_total_grows(jobs.drop_last(), upto);
        assert(jobs.drop_last().take(upto) =~= jobs.take(upto));
    } else {
        assert(jobs.take(upto) =~= jobs);
        lemma_total_positive(jobs);
    }
}

proof fn lemma_total_positive(jobs: Seq<DemoJob>)
    ensures
        0 <= total_bytes(jobs),
    decreases jobs.len(),
{
    if jobs.len() > 0 {
        lemma_total_positive(jobs.drop_last());
    }
}

fn choose_value(value: Option<Double>, otherwise: Double) -> (out: Double)
    requires
        value matches Some(value) ==> value.value() >= 0,
        otherwise.value() >= 0,
    ensures
        out.value() == (match value {
            Some(value) => value.value(),
            None => otherwise.value(),
        }),
        out.value() >= 0,
{
    match value {
        Some(value) => value,
        None => otherwise,
    }
}

/// What is expected of a batch of demos; refuses where the demos are empty.
pub fn estimate_batch_preflight_from_jobs(
    jobs: &Vec<DemoJob>,
    samples: &Vec<TimingSample>,
    plan: ResourcePlan,
    disk: &DiskSpace,
) -> (out: Result<BatchPreflight, String>)
    requires
        total_bytes(jobs@) <= u64::MAX,
    ensures
        match out {
            Ok(estimate) => total_bytes(jobs@) > 0 && estimates_batch(
                estimate,
                jobs@,
                samples@,
                plan,
                *disk,
            ),
            Err(words) => total_bytes(jobs@) == 0 && words@ == "the selected demos are empty"@,
        },
{
    let input = add_sizes(jobs);
    if input == 0 {
        return Err("the selected demos are empty".to_owned());
    }
    let machine = machine_signature(&plan);
    let profile = plan.performance_profile.label();
    let chosen = matching_history(samples, machine.as_str(), profile);
    proof {
        let all = comparable(samples@, machine@, profile@, samples.len() as int);
        lemma_comparable(samples@, machine@, profile@, samples.len() as int);
        assert forall|k: int| 0 <= k < chosen.len() implies samples@[#[trigger] chosen@[k] as int].input_bytes
            > 0 by {
            let known = last_of(all, HISTORY_LIMIT as int);
            assert(known == positions(chosen@));
            assert(known.len() == chosen.len());
            assert(known[k] == chosen@[k]);
            if all.len() > HISTORY_LIMIT {
                assert(known[k] == all[all.len() - HISTORY_LIMIT + k]);
            } else {
                assert(known[k] == all[k]);
            }
        }
    }
    let ratios = list_values(samples, &chosen, 0);
    let parse_rates = list_values(samples, &chosen, 1);
    let analysis_rates = list_values(samples, &chosen, 2);
    let usual = Double::fraction(32_584_887_884, 1_000_000_000);
    let seen = choose_value(percentile_of(&ratios, Double::fraction(90, 100)), usual);
    let ratio = if usual.less(seen) {
        seen
    } else {
        usual
    };
    let parsed = Double::natural(input).times(ratio).ceiling();
    let added = Double::natural(input).times(Double::fraction(2, 100)).ceiling();
    let all: u64 = hold(parsed as u128 + added as u128);
    let spare: u64 = all / 5;
    let required: u64 = hold(all as u128 + spare as u128);
    let middle = Double::fraction(50, 100);
    let parse_rate = choose_value(
        percentile_of(&parse_rates, middle),
        Double::fraction(2611, 10),
    );
    let analysis_rate = choose_value(
        percentile_of(&analysis_rates, middle),
        Double::fraction(134, 10),
    );
    let parse_share = effective_parallelism(plan.parse_worker_ceiling, Double::fraction(82, 100));
    let analysis_share = effective_parallelism(
        plan.analysis_worker_ceiling,
        Double::fraction(70, 100),
    );
    let parse_seconds = estimate_seconds(input, parse_rate, parse_share);
    let analysis_seconds = estimate_seconds(parsed, analysis_rate, analysis_share);
    let estimate = BatchPreflight {
        demo_count: jobs.len(),
        input_bytes: input,
        estimated_parse_bytes: parsed,
        estimated_analysis_addition_bytes: added,
        estimated_total_output_bytes: all,
        safety_headroom_bytes: spare,
        required_free_bytes: required,
        available_free_bytes: disk.available_bytes,
        output_volume: disk.mount_point.clone(),
        estimated_parse_seconds: parse_seconds,
        estimated_analysis_seconds: analysis_seconds,
        history_samples: chosen.len(),
        plan,
    };
    assert(chosen.len() == positions(chosen@).len());
    Ok(estimate)
}

/// The room that is asked for is never less than what the batch is expected to
/// take, and a fifth more, as long as that can be held.
pub proof fn law_estimate_leaves_headroom(
    estimate: BatchPreflight,
    jobs: Seq<DemoJob>,
    samples: Seq<TimingSample>,
    plan: ResourcePlan,
    disk: DiskSpace,
)
    requires
        estimates_batch(estimate, jobs, samples, plan, disk),
    ensures
        estimate.required_free_bytes >= estimate.estimated_total_output_bytes
            >= estimate.estimated_parse_bytes,
        estimate.required_free_bytes < u64::MAX ==> estimate.required_free_bytes
            == estimate.estimated_total_output_bytes + estimate.estimated_total_output_bytes / 5,
        estimate.estimated_parse_seconds >= 1,
        estimate.estimated_analysis_seconds >= 1,
{
    lemma_total_positive(jobs);
}

/// A size in gibibytes, with one decimal.
pub open spec fn gib_text(bytes: nat) -> Seq<char> {
    let tenths = rounded_even(10 * nearest_double(bytes), 1_073_741_824);
    nat_text(tenths / 10) + "."@ + nat_text(tenths % 10)
}

fn write_gib(bytes: u64) -> (out: String)
    ensures
        out@ == gib_text(bytes as nat),
{
    let size: u128 = to_double(bytes as u128);
    let tenths: u128 = divide_even(10 * size, 1_073_741_824);
    let mut out = u64_text((tenths / 10) as u64);
    out.append(".");
    out.append(u64_text((tenths % 10) as u64).as_str());
    out
}

impl BatchPreflight {
    /// Whether the batch fits.
    pub open spec fn fits(&self) -> bool {
        self.available_free_bytes >= self.required_free_bytes
    }

    /// Whether the batch fits.
    pub fn has_enough_space(&self) -> (r: bool)
        ensures
            r == self.fits(),
    {
        self.available_free_bytes >= self.required_free_bytes
    }

    /// Whether the batch fits on a disk; what is missing where it does not.
    pub fn ensure_space(&self, disk: DiskSpace) -> (out: Result<DiskSpace, String>)
        ensures
            match out {
                Ok(same) => same == disk && disk.available_bytes >= self.required_free_bytes,
                Err(text) => disk.available_bytes < self.required_free_bytes && text@
                    == shortage_text(
                    disk,
                    self.required_free_bytes as int,
                    "demo parsing and candidate analysis"@,
                ),
            },
    {
        require_disk_space(disk, self.required_free_bytes, "demo parsing and candidate analysis")
    }

    /// Whether the batch fits, in words.
    pub open spec fn verdict(&self) -> Seq<char> {
        if self.fits() {
            "PASS"@
        } else {
            "BLOCKED — insufficient free space"@
        }
    }

    fn write_verdict(&self) -> (out: &'static str)
        ensures
            out@ == self.verdict(),
    {
        if self.has_enough_space() {
            "PASS"
        } else {
            "BLOCKED — insufficient free space"
        }
    }

    /// Whether the batch fits, in a word.
    pub open spec fn short_verdict(&self) -> Seq<char> {
        if self.fits() {
            "PASS"@
        } else {
            "BLOCKED"@
        }
    }

    fn write_short_verdict(&self) -> (out: &'static str)
        ensures
            out@ == self.short_verdict(),
    {
        if self.has_enough_space() {
            "PASS"
        } else {
            "BLOCKED"
        }
    }

    /// How long the batch takes, in seconds.
    pub open spec fn total_seconds(&self) -> int {
        held(self.estimated_parse_seconds + self.estimated_analysis_seconds)
    }

    fn add_seconds(&self) -> (out: u64)
        ensures
            out == self.total_seconds(),
    {
        hold(self.estimated_parse_seconds as u128 + self.estimated_analysis_seconds as u128)
    }

    /// What the times rest on.
    pub open spec fn basis(&self) -> Seq<char> {
        if self.history_samples > 0 {
            int_text(self.history_samples as int) + " successful same-machine run(s)"@
        } else {
            "supplied benchmark defaults; this computer will self-calibrate after successful runs"@
        }
    }

    fn write_basis(&self) -> (out: String)
        ensures
            out@ == self.basis(),
    {
        if self.history_samples > 0 {
            let mut out = u64_text(self.history_samples as u64);
            out.append(" successful same-machine run(s)");
            out
        } else {
            "supplied benchmark defaults; this computer will self-calibrate after successful runs".to_owned()
        }
    }

    /// The estimate in words.
    pub open spec fn words(&self) -> Seq<char> {
        "Pre-flight estimate ("@
            + self.verdict()
            + ")\n"@
            + int_text(self.demo_count as int)
            + " demo(s), "@
            + bytes_text(self.input_bytes as nat)
            + " source input\nEstimated time: "@
            + duration_text(self.estimated_parse_seconds as nat)
            + " parsing + "@
            + duration_text(self.estimated_analysis_seconds as nat)
            + " analysis = "@
            + duration_text(self.total_seconds() as nat)
            + " total\nEstimated export: "@
            + bytes_text(self.estimated_parse_bytes as nat)
            + " parsed data + "@
            + bytes_text(self.estimated_analysis_addition_bytes as nat)
            + " analysis data = "@
            + bytes_text(self.estimated_total_output_bytes as nat)
            + "\nRequired free space with 20% safety headroom: "@
            + bytes_text(self.required_free_bytes as nat)
            + "\nAvailable on "@
            + self.output_volume@
            + ": "@
            + bytes_text(self.available_free_bytes as nat)
            + "\n"@
            + self.plan.performance_profile.name()
            + " performance: up to "@
            + int_text(self.plan.parse_worker_ceiling as int)
            + " parser workers and "@
            + int_text(self.plan.analysis_worker_ceiling as int)
            + " analyzer threads\nTiming basis: "@
            + self.basis()
    }

    /// The estimate in words.
    pub fn summary(&self) -> (out: String)
        ensures
            out@ == self.words(),
    {
        let mut out = "Pre-flight estimate (".to_owned();
        out.append(self.write_verdict());
        out.append(")\n");
        out.append(u64_text(self.demo_count as u64).as_str());
        out.append(" demo(s), ");
        out.append(format_bytes(self.input_bytes).as_str());
        out.append(" source input\nEstimated time: ");
        out.append(format_duration(self.estimated_parse_seconds).as_str());
        out.append(" parsing + ");
        out.append(format_duration(self.estimated_analysis_seconds).as_str());
        out.append(" analysis = ");
        out.append(format_duration(self.add_seconds()).as_str());
        out.append(" total\nEstimated export: ");
        out.append(format_bytes(self.estimated_parse_bytes).as_str());
        out.append(" parsed data + ");
        out.append(format_bytes(self.estimated_analysis_addition_bytes).as_str());
        out.append(" analysis data = ");
        out.append(format_bytes(self.estimated_total_output_bytes).as_str());
        out.append("\nRequired free space with 20% safety headroom: ");
        out.append(format_bytes(self.required_free_bytes).as_str());
        out.append("\nAvailable on ");
        out.append(self.output_volume.as_str());
        out.append(": ");
        out.append(format_bytes(self.available_free_bytes).as_str());
        out.append("\n");
        out.append(self.plan.performance_profile.label());
        out.append(" performance: up to ");
        out.append(u64_text(self.plan.parse_worker_ceiling as u64).as_str());
        out.append(" parser workers and ");
        out.append(u64_text(self.plan.analysis_worker_ceiling as u64).as_str());
        out.append(" analyzer threads\nTiming basis: ");
        out.append(self.write_basis().as_str());
        out
    }

    /// How a batch is run, in words.
    pub open spec fn plan_words(&self) -> Seq<char> {
        "RUST ADAPTIVE RESOURCE PLAN\nPerformance profile: "@
            + self.plan.performance_profile.name()
            + "\nWhole-system CPU target: "@
            + int_text(self.plan.performance_profile.load_target() as int)
            + "%\nLogical processors: "@
            + int_text(self.plan.logical_processors as int)
            + "\nAvailable RAM: "@
            + gib_text(self.plan.available_memory_bytes as nat)
            + " GB\nReserved RAM: "@
            + gib_text(self.plan.reserved_memory_bytes as nat)
            + " GB\nParser worker ceiling: "@
            + int_text(self.plan.parse_worker_ceiling as int)
            + "\nAnalyzer Rayon thread ceiling: "@
            + int_text(self.plan.analysis_worker_ceiling as int)
            + "\nConcurrent analyzer demo ceiling: "@
            + int_text(self.plan.analysis_job_ceiling as int)
            + "\nWorker admission: rechecked before each job from live CPU and RAM pressure\nIn-phase analysis throttling: enabled\nWindows batch priority: below normal (foreground applications take precedence)\n\nTIME PREFLIGHT\nEstimated parser time: "@
            + duration_text(self.estimated_parse_seconds as nat)
            + "\nEstimated analyzer time: "@
            + duration_text(self.estimated_analysis_seconds as nat)
            + "\nEstimated total time: "@
            + duration_text(self.total_seconds() as nat)
            + "\nSame-machine timing samples: "@
            + int_text(self.history_samples as int)
            + "\n\n"@
    }

    /// What a batch takes of a disk, in words.
    pub open spec fn disk_words(&self) -> Seq<char> {
        "DISK PREFLIGHT\nOutput volume: "@
            + self.output_volume@
            + "\nInput demos: "@
            + bytes_text(self.input_bytes as nat)
            + "\nEstimated parse output: "@
            + bytes_text(self.estimated_parse_bytes as nat)
            + "\nEstimated analysis additions: "@
            + bytes_text(self.estimated_analysis_addition_bytes as nat)
            + "\nEstimated output total: "@
            + bytes_text(self.estimated_total_output_bytes as nat)
            + "\nSafety headroom (20%): "@
            + bytes_text(self.safety_headroom_bytes as nat)
            + "\nRequired free space: "@
            + bytes_text(self.required_free_bytes as nat)
            + "\nCurrently free: "@
            + bytes_text(self.available_free_bytes as nat)
            + "\nStatus: "@
            + self.short_verdict()
            + "\n\n"@
            + joined(views(self.plan.reason@), "\n"@)
            + "\n"@
    }

    fn write_plan(&self) -> (out: String)
        ensures
            out@ == self.plan_words(),
    {
        let mut out = "RUST ADAPTIVE RESOURCE PLAN\nPerformance profile: ".to_owned();
        out.append(self.plan.performance_profile.label());
        out.append("\nWhole-system CPU target: ");
        out.append(u64_text(self.plan.performance_profile.target_cpu_percent() as u64).as_str());
        out.append("%\nLogical processors: ");
        out.append(u64_text(self.plan.logical_processors as u64).as_str());
        out.append("\nAvailable RAM: ");
        out.append(write_gib(self.plan.available_memory_bytes).as_str());
        out.append(" GB\nReserved RAM: ");
        out.append(write_gib(self.plan.reserved_memory_bytes).as_str());
        out.append(" GB\nParser worker ceiling: ");
        out.append(u64_text(self.plan.parse_worker_ceiling as u64).as_str());
        out.append("\nAnalyzer Rayon thread ceiling: ");
        out.append(u64_text(self.plan.analysis_worker_ceiling as u64).as_str());
        out.append("\nConcurrent analyzer demo ceiling: ");
        out.append(u64_text(self.plan.analysis_job_ceiling as u64).as_str());
        out.append("\nWorker admission: rechecked before each job from live CPU and RAM pressure\nIn-phase analysis throttling: enabled\nWindows batch priority: below normal (foreground applications take precedence)\n\nTIME PREFLIGHT\nEstimated parser time: ");
        out.append(format_duration(self.estimated_parse_seconds).as_str());
        out.append("\nEstimated analyzer time: ");
        out.append(format_duration(self.estimated_analysis_seconds).as_str());
        out.append("\nEstimated total time: ");
        out.append(format_duration(self.add_seconds()).as_str());
        out.append("\nSame-machine timing samples: ");
        out.append(u64_text(self.history_samples as u64).as_str());
        out.append("\n\n");
        out
    }

    fn write_disk(&self) -> (out: String)
        ensures
            out@ == self.disk_words(),
    {
        let mut out = "DISK PREFLIGHT\nOutput volume: ".to_owned();
        out.append(self.output_volume.as_str());
        out.append("\nInput demos: ");
        out.append(format_bytes(self.input_bytes).as_str());
        out.append("\nEstimated parse output: ");
        out.append(format_bytes(self.estimated_parse_bytes).as_str());
        out.append("\nEstimated analysis additions: ");
        out.append(format_bytes(self.estimated_analysis_addition_bytes).as_str());
        out.append("\nEstimated output total: ");
        out.append(format_bytes(self.estimated_total_output_bytes).as_str());
        out.append("\nSafety headroom (20%): ");
        out.append(format_bytes(self.safety_headroom_bytes).as_str());
        out.append("\nRequired free space: ");
        out.append(format_bytes(self.required_free_bytes).as_str());
        out.append("\nCurrently free: ");
        out.append(format_bytes(self.available_free_bytes).as_str());
        out.append("\nStatus: ");
        out.append(self.write_short_verdict());
        out.append("\n\n");
        out.append(join(&self.plan.reason, "\n").as_str());
        out.append("\n");
        out
    }

    /// What is kept with a batch of what was expected of it.
    pub fn preflight_text(&self) -> (out: String)
        ensures
            out@ == self.plan_words() + self.disk_words(),
    {
        let mut out = self.write_plan();
        out.append(self.write_disk().as_str());
        out
    }
}

// ---------------------------------------------------------------------------
// Running a batch
// ---------------------------------------------------------------------------

/// A time in nanoseconds, in seconds.
pub open spec fn seconds_of(ns: int) -> int {
    sum(
        natural((ns / 1_000_000_000) as nat) as int,
        quotient(natural((ns % 1_000_000_000) as nat), natural(1_000_000_000)) as int,
    )
}

/// How long a batch still takes, in seconds, where part of it is done; nothing
/// where that cannot be told.
pub open spec fn remaining_seconds(done: int, total: int, elapsed_ns: int) -> Option<int> {
    if done == 0 || total <= done || elapsed_ns == 0 {
        None
    } else {
        let elapsed = seconds_of(elapsed_ns);
        let each_second = quotient(natural(done as nat), elapsed as nat);
        if elapsed > 0 && counts(each_second as int) {
            Some(ceiling(quotient(natural((total - done) as nat), each_second)))
        } else {
            None
        }
    }
}

/// How long a batch still takes, in seconds.
pub fn estimated_remaining_seconds(completed_bytes: u64, total_bytes: u64, elapsed_ns: u64) -> (out: Option<
    u64,
>)
    ensures
        match out {
            Some(seconds) => remaining_seconds(
                completed_bytes as int,
                total_bytes as int,
                elapsed_ns as int,
            ) == Some(seconds as int),
            None => remaining_seconds(
                completed_bytes as int,
                total_bytes as int,
                elapsed_ns as int,
            ) is None,
        },
{
    if completed_bytes == 0 || total_bytes <= completed_bytes || elapsed_ns == 0 {
        return None;
    }
    let whole = Double::natural(elapsed_ns / 1_000_000_000);
    let part = Double::natural(elapsed_ns % 1_000_000_000).over(Double::natural(1_000_000_000));
    let elapsed = whole.plus(part);
    if !Double::zero().less(elapsed) {
        return None;
    }
    let each_second = Double::natural(completed_bytes).over(elapsed);
    if Double::zero().less(each_second) && each_second.is_finite() {
        Some(Double::natural(total_bytes - completed_bytes).over(each_second).ceiling())
    } else {
        None
    }
}

/// The folder of a batch: named after its demo where it has only one.
pub fn batch_folder_name(demos: usize, stem: &str, time: &str) -> (out: String)
    ensures
        out@ == (if demos == 1 {
            stem@ + "_export_"@ + time@
        } else {
            "tf2_demo_batch_export_"@ + time@
        }),
{
    if demos == 1 {
        let mut out = stem.to_owned();
        out.append("_export_");
        out.append(time);
        out
    } else {
        let mut out = "tf2_demo_batch_export_".to_owned();
        out.append(time);
        out
    }
}

/// A demo of a batch.
#[derive(Debug)]
pub struct BatchDemo {
    pub path: String,
    /// The name of the file, without its extension.
    pub stem: Option<String>,
    pub bytes: u64,
}

/// The name of a demo, where it has one.
pub open spec fn demo_stem(demo: BatchDemo) -> Seq<char> {
    match demo.stem {
        Some(stem) => stem@,
        None => "demo"@,
    }
}

/// Where the export of a demo goes.
pub open spec fn export_folder(
    root: Seq<char>,
    demos: int,
    order: int,
    demo: BatchDemo,
    separator: char,
) -> Seq<char> {
    if demos == 1 {
        root
    } else {
        crate::prepare::below(
            root,
            three_digits(order) + "_"@ + sanitized(demo_stem(demo)) + "_export"@,
            separator,
        )
    }
}

/// Whether jobs are those of some demos.
pub open spec fn are_jobs(
    jobs: Seq<DemoJob>,
    demos: Seq<BatchDemo>,
    root: Seq<char>,
    separator: char,
) -> bool {
    &&& jobs.len() == demos.len()
    &&& forall|i: int|
        0 <= i < jobs.len() ==> {
            &&& (#[trigger] jobs[i]).order == i + 1
            &&& jobs[i].demo_path@ == demos[i].path@
            &&& jobs[i].export_directory@ == export_folder(
                root,
                demos.len() as int,
                i + 1,
                demos[i],
                separator,
            )
            &&& jobs[i].source_bytes == demos[i].bytes
            &&& jobs[i].parsed_bytes == 0
        }
}

/// The jobs of a batch, one for each demo.
pub fn plan_jobs(demos: &Vec<BatchDemo>, root: &str, separator: char) -> (out: Vec<DemoJob>)
    requires
        demos.len() < usize::MAX,
    ensures
        are_jobs(out@, demos@, root@, separator),
{
    let mut out: Vec<DemoJob> = Vec::new();
    let mut i: usize = 0;
    while i < demos.len()
        invariant
            i <= demos.len(),
            demos.len() < usize::MAX,
            out.len() == i,
            forall|k: int|
                0 <= k < i ==> {
                    &&& (#[trigger] out@[k]).order == k + 1
                    &&& out@[k].demo_path@ == demos@[k].path@
                    &&& out@[k].export_directory@ == export_folder(
                        root@,
                        demos.len() as int,
                        k + 1,
                        demos@[k],
                        separator,
                    )
                    &&& out@[k].source_bytes == demos@[k].bytes
                    &&& out@[k].parsed_bytes == 0
                },
        decreases demos.len() - i,
    {
        let demo = &demos[i];
        let folder = if demos.len() == 1 {
            root.to_owned()
        } else {
            let mut name = three_digit_text(i as u64 + 1);
            name.append("_");
            match &demo.stem {
                Some(stem) => name.append(sanitize(stem.as_str()).as_str()),
                None => name.append(sanitize("demo").as_str()),
            }
            name.append("_export");
            crate::prepare::path_below(root, name.as_str(), separator)
        };
        out.push(
            DemoJob {
                order: i + 1,
                demo_path: demo.path.clone(),
                export_directory: folder,
                source_bytes: demo.bytes,
                parsed_bytes: 0,
            },
        );
        i += 1;
    }
    out
}

/// The candidates of all demos of a batch, the best first.
pub fn combine_candidates(candidates: Vec<Candidate>) -> (out: Vec<Candidate>)
    ensures
        out@ == in_order(candidates@),
{
    arrange(candidates)
}

/// How far a batch is, in thousandths: the first half is parsing.
pub open spec fn progress_thousandths(phase: int, done: int, total: int) -> int {
    (if phase == 2 {
        500int
    } else {
        0
    }) + done * 500 / total
}

/// How far a batch is, in thousandths.
pub fn batch_progress(phase: u8, done: usize, total: usize) -> (out: u32)
    requires
        total > 0,
        done <= total,
    ensures
        out == progress_thousandths(phase as int, done as int, total as int),
        out <= 1000,
{
    let part: u128 = done as u128 * 500 / total as u128;
    proof {
        assert(part <= 500) by (nonlinear_arith)
            requires
                part == done * 500 / (total as int),
                done <= total,
                total > 0,
        ;
    }
    if phase == 2 {
        500 + part as u32
    } else {
        part as u32
    }
}

/// What became of a phase of a batch.
#[derive(Debug)]
pub enum PhaseVerdict {
    Failed(String),
    Cancelled,
    Done,
}

/// What became of a phase: an error counts before a wish to stop.
pub fn phase_verdict(error: Option<String>, cancelled: bool) -> (out: PhaseVerdict)
    ensures
        match error {
            Some(words) => out == PhaseVerdict::Failed(words),
            None => if cancelled {
                out == PhaseVerdict::Cancelled
            } else {
                out == PhaseVerdict::Done
            },
        },
{
    match error {
        Some(words) => PhaseVerdict::Failed(words),
        None => if cancelled {
            PhaseVerdict::Cancelled
        } else {
            PhaseVerdict::Done
        },
    }
}

proof fn lemma_comparable_all(
    samples: Seq<TimingSample>,
    machine: Seq<char>,
    profile: Seq<char>,
    upto: int,
)
    requires
        0 <= upto <= samples.len(),
    ensures
        forall|k: int|
            0 <= k < comparable(samples, machine, profile, upto).len() ==> 0
                <= #[trigger] comparable(samples, machine, profile, upto)[k] < upto
                && is_comparable(
                samples[comparable(samples, machine, profile, upto)[k]],
                machine,
                profile,
            ),
        forall|j: int, k: int|
            0 <= j < k < comparable(samples, machine, profile, upto).len()
                ==> #[trigger] comparable(samples, machine, profile, upto)[j]
                < #[trigger] comparable(samples, machine, profile, upto)[k],
        forall|i: int|
            0 <= i < upto && is_comparable(#[trigger] samples[i], machine, profile) ==> comparable(
                samples,
                machine,
                profile,
                upto,
            ).contains(i),
    decreases upto,
{
    if upto > 0 {
        lemma_comparable_all(samples, machine, profile, upto - 1);
        let known = comparable(samples, machine, profile, upto - 1);
        let all = comparable(samples, machine, profile, upto);
        assert forall|k: int| 0 <= k < all.len() implies 0 <= #[trigger] all[k] < upto
            && is_comparable(samples[all[k]], machine, profile) by {
            if k < known.len() {
                assert(all[k] == known[k]);
            }
        }
        assert forall|j: int, k: int| 0 <= j < k < all.len() implies #[trigger] all[j]
            < #[trigger] all[k] by {
            assert(all[j] == known[j]);
            if k < known.len() {
                assert(all[k] == known[k]);
            }
        }
        assert forall|i: int|
            0 <= i < upto && is_comparable(
                #[trigger] samples[i],
                machine,
                profile,
            ) implies all.contains(i) by {
            if i < upto - 1 {
                assert(known.contains(i));
                let k = choose|k: int| 0 <= k < known.len() && known[k] == i;
                assert(all[k] == i);
            } else {
                assert(all[known.len() as int] == i);
            }
        }
    }
}

/// An estimate looks at the last twenty batches of this machine in this profile that read
/// and wrote something: no others, and none is passed over for an earlier one.
pub proof fn law_last_twenty_batches_count(
    samples: Seq<TimingSample>,
    machine: Seq<char>,
    profile: Seq<char>,
    i: int,
)
    ensures
        ({
            let all = comparable(samples, machine, profile, samples.len() as int);
            let chosen = last_of(all, HISTORY_LIMIT as int);
            &&& chosen.len() <= 20
            &&& all.len() >= 20 ==> chosen.len() == 20
            &&& chosen.contains(i) ==> 0 <= i < samples.len() && samples[i].machine@ == machine
                && samples[i].performance_profile@ == profile && samples[i].input_bytes > 0
                && samples[i].parse_output_bytes > 0
            &&& 0 <= i < samples.len() && samples[i].machine@ == machine
                && samples[i].performance_profile@ == profile && samples[i].input_bytes > 0
                && samples[i].parse_output_bytes > 0 && (all.len() <= 20 || i >= chosen[0])
                ==> chosen.contains(i)
        }),
{
    lemma_comparable_all(samples, machine, profile, samples.len() as int);
    let all = comparable(samples, machine, profile, samples.len() as int);
    let chosen = last_of(all, HISTORY_LIMIT as int);
    if chosen.contains(i) {
        let k = choose|k: int| 0 <= k < chosen.len() && chosen[k] == i;
        if all.len() > 20 {
            assert(all[k + all.len() - 20] == i);
        } else {
            assert(all[k] == i);
        }
    }
    if 0 <= i < samples.len() && is_comparable(samples[i], machine, profile) {
        assert(all.contains(i));
        let k = choose|k: int| 0 <= k < all.len() && all[k] == i;
        if all.len() > 20 {
            let first = all.len() - 20;
            assert(chosen[0] == all[first]);
            if i >= chosen[0] {
                if k < first {
                    assert(all[k] < all[first]);
                }
                assert(chosen[k - first] == i);
            }
        }
    }
}

/// Without earlier batches a gibibyte is expected to take a worker 261.1 seconds to parse
/// and a thread 13.4 seconds to analyse, and each further worker to add 82, each further
/// thread 70 per cent of one.
pub proof fn law_first_estimates_are_fixed()
    ensures
        expected_rate(Seq::empty(), default_parse_rate()) == fraction(2611, 10),
        expected_rate(Seq::empty(), default_analysis_rate()) == fraction(134, 10),
        expected_ratio(Seq::empty()) == fraction(32_584_887_884, 1_000_000_000),
        parse_share() == fraction(82, 100),
        analysis_share() == fraction(70, 100),
{
    assert(counting(Seq::<int>::empty()).len() == 0);
}

/// The export is never expected to be smaller than is usual, whatever earlier batches
/// wrote.
pub proof fn law_exports_are_not_underestimated(values: Seq<int>)
    ensures
        expected_ratio(values) >= fraction(32_584_887_884, 1_000_000_000),
{
}

/// The demos of two batches have the bytes of both.
pub proof fn law_bytes_add_up(a: Seq<DemoJob>, b: Seq<DemoJob>, job: DemoJob)
    ensures
        total_bytes(a + b) == total_bytes(a) + total_bytes(b),
        total_bytes(a.push(job)) == total_bytes(a) + job.source_bytes,
    decreases b.len(),
{
    assert(a.push(job).drop_last() =~= a);
    if b.len() == 0 {
        assert(a + b =~= a);
    } else {
        assert((a + b).drop_last() =~= a + b.drop_last());
        assert((a + b).last() == b.last());
        law_bytes_add_up(a, b.drop_last(), job);
    }
}

} // verus!
