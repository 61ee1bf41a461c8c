//! Which part of a demo is recorded for a candidate, which parts fit into one
//! playback, and how recordings are named.
use vstd::prelude::*;
use crate::models::{runs, split_runs, Candidate};
use crate::number::{
    int_text, law_written_numbers_read_back, lemma_nat_text, lemma_number_is_plain, nat_of, nat_text,
    parse_u32, u64_text,
};
use crate::settings::AppSettings;
use crate::text::{
    char_is_alnum, chars_of, is_alnum, is_digit, join, joined, lower, same_fold,
    same_ignoring_case, string_between, string_of, to_lower, to_upper, upper, upper_char, views,
    without,
};

verus! {

/// How long after a clip the recorder still writes.
pub const RECORDING_FLUSH_TICKS: i64 = 133;

/// How many ticks must lie between two actions of a playback.
pub const VDM_ACTION_GAP_TICKS: i64 = 2;

/// How far one safe seek goes.
pub const MANUAL_SEEK_STEP_TICKS: i64 = 15_000;

// ---------------------------------------------------------------------------
// Windows
// ---------------------------------------------------------------------------

/// How many ticks a number of seconds lasts, rounded.
pub open spec fn second_ticks(seconds: u32) -> int {
    (seconds as int * 666_666_667 + 5_000_000) / 10_000_000
}

fn ticks_of_seconds(seconds: u32) -> (out: i128)
    ensures
        out == second_ticks(seconds),
        0 <= out <= 300_000_000_000,
{
    (seconds as i128 * 666_666_667 + 5_000_000) / 10_000_000
}

/// The first tick of a candidate's kills, else of its clip.
pub open spec fn first_tick(candidate: Candidate) -> i64 {
    if candidate.point_of_kill_ticks.len() > 0 {
        candidate.point_of_kill_ticks@[0]
    } else {
        candidate.clip_start_tick
    }
}

/// The last tick of a candidate's kills, else of its clip.
pub open spec fn last_tick(candidate: Candidate) -> i64 {
    if candidate.point_of_kill_ticks.len() > 0 {
        candidate.point_of_kill_ticks@.last()
    } else {
        candidate.clip_end_tick
    }
}

/// Where the recording of a candidate starts.
pub open spec fn window_start(candidate: Candidate, settings: AppSettings) -> int {
    let start = first_tick(candidate) - second_ticks(settings.lead_seconds);
    if start > 0 {
        start
    } else {
        0
    }
}

/// Where the recording of a candidate ends: after it starts, in any case.
pub open spec fn window_end(candidate: Candidate, settings: AppSettings) -> int {
    let end = last_tick(candidate) + second_ticks(settings.outro_seconds);
    if end > window_start(candidate, settings) {
        end
    } else {
        window_start(candidate, settings) + 1
    }
}

/// Whether the window of a candidate, and what is recorded after it, lies within
/// the range of ticks.
pub open spec fn window_fits(candidate: Candidate, settings: AppSettings) -> bool {
    window_end(candidate, settings) <= i64::MAX - 1000
}

/// The part of a demo that is recorded for a candidate.
pub fn clip_window(candidate: &Candidate, settings: &AppSettings) -> (out: (i64, i64))
    requires
        window_fits(*candidate, *settings),
    ensures
        out.0 == window_start(*candidate, *settings),
        out.1 == window_end(*candidate, *settings),
        0 <= out.0 < out.1,
{
    let count: usize = candidate.point_of_kill_ticks.len();
    let first: i64 = if count > 0 {
        candidate.point_of_kill_ticks[0]
    } else {
        candidate.clip_start_tick
    };
    let last: i64 = if count > 0 {
        candidate.point_of_kill_ticks[count - 1]
    } else {
        candidate.clip_end_tick
    };
    let early: i128 = first as i128 - ticks_of_seconds(settings.lead_seconds);
    let start: i128 = if early > 0 {
        early
    } else {
        0
    };
    let late: i128 = last as i128 + ticks_of_seconds(settings.outro_seconds);
    let end: i128 = if late > start {
        late
    } else {
        start + 1
    };
    (start as i64, end as i64)
}

/// Every clip shows all of its candidate's kills, where they come in order, and
/// lasts at least a tick.
pub proof fn law_window_holds_the_kills(candidate: Candidate, settings: AppSettings)
    requires
        forall|i: int, j: int|
            0 <= i <= j < candidate.point_of_kill_ticks.len()
                ==> candidate.point_of_kill_ticks@[i] <= candidate.point_of_kill_ticks@[j],
        forall|i: int|
            0 <= i < candidate.point_of_kill_ticks.len()
                ==> #[trigger] candidate.point_of_kill_ticks@[i] >= 0,
    ensures
        window_start(candidate, settings) < window_end(candidate, settings),
        forall|i: int|
            0 <= i < candidate.point_of_kill_ticks.len() ==> window_start(candidate, settings)
                <= #[trigger] candidate.point_of_kill_ticks@[i] <= window_end(candidate, settings),
{
    assert(second_ticks(settings.lead_seconds) >= 0);
    assert(second_ticks(settings.outro_seconds) >= 0);
    let ticks = candidate.point_of_kill_ticks@;
    assert forall|i: int| 0 <= i < ticks.len() implies window_start(candidate, settings)
        <= #[trigger] ticks[i] <= window_end(candidate, settings) by {
        assert(ticks[0] <= ticks[i]);
        assert(ticks[i] <= ticks[ticks.len() - 1]);
    }
}

// ---------------------------------------------------------------------------
// Playbacks
// ---------------------------------------------------------------------------

/// Windows spread over playbacks: which windows each takes, and when it is done
/// with the last of them.
pub struct Passes {
    pub windows: Seq<Seq<int>>,
    pub done: Seq<int>,
}

/// The first playback that is done early enough for a window.
pub open spec fn first_free(done: Seq<int>, start: int) -> Option<int>
    decreases done.len(),
{
    if done.len() == 0 {
        None
    } else {
        match first_free(done.drop_last(), start) {
            Some(i) => Some(i),
            None => if start > done.last() + VDM_ACTION_GAP_TICKS {
                Some(done.len() - 1)
            } else {
                None
            },
        }
    }
}

/// Windows spread over playbacks, one after another, each to the first playback
/// that is free for it.
pub open spec fn passes_of(windows: Seq<(i64, i64)>) -> Passes
    decreases windows.len(),
{
    if windows.len() == 0 {
        Passes { windows: Seq::empty(), done: Seq::empty() }
    } else {
        let before = passes_of(windows.drop_last());
        let index = windows.len() - 1;
        let (start, end) = windows.last();
        match first_free(before.done, start as int) {
            Some(p) => Passes {
                windows: before.windows.update(p, before.windows[p].push(index)),
                done: before.done.update(p, end + RECORDING_FLUSH_TICKS),
            },
            None => Passes {
                windows: before.windows.push(seq![index]),
                done: before.done.push(end + RECORDING_FLUSH_TICKS),
            },
        }
    }
}

/// Whether one window is over, with what the recorder still writes, before
/// another starts.
pub open spec fn comes_clear(windows: Seq<(i64, i64)>, a: int, b: int) -> bool {
    windows[b].0 > windows[a].1 + RECORDING_FLUSH_TICKS + VDM_ACTION_GAP_TICKS
}

/// Whether the windows of a playback come one after another.
pub open spec fn clear_pass(windows: Seq<(i64, i64)>, pass: Seq<int>) -> bool {
    forall|k: int|
        0 <= k && k + 1 < pass.len() ==> comes_clear(windows, #[trigger] pass[k], pass[k + 1])
}

/// Whether a playback takes windows in the order in which they were given.
pub open spec fn rising_pass(pass: Seq<int>, count: int) -> bool {
    &&& pass.len() > 0
    &&& forall|k: int| 0 <= k < pass.len() ==> 0 <= #[trigger] pass[k] < count
    &&& forall|k: int, l: int|
        0 <= k < l < pass.len() ==> #[trigger] pass[k] < #[trigger] pass[l]
}

/// How many playbacks take a window.
pub open spec fn taken_by(passes: Seq<Seq<int>>, index: int) -> nat
    decreases passes.len(),
{
    if passes.len() == 0 {
        0
    } else {
        taken_by(passes.drop_last(), index) + if passes.last().contains(index) {
            1nat
        } else {
            0
        }
    }
}

proof fn lemma_first_free(done: Seq<int>, start: int)
    ensures
        first_free(done, start) matches Some(p) ==> 0 <= p < done.len() && start > done[p]
            + VDM_ACTION_GAP_TICKS,
    decreases done.len(),
{
    if done.len() > 0 {
        lemma_first_free(done.drop_last(), start);
    }
}

proof fn lemma_taken_update(passes: Seq<Seq<int>>, p: int, pass: Seq<int>, index: int)
    requires
        0 <= p < passes.len(),
    ensures
        taken_by(passes.update(p, pass), index) + (if passes[p].contains(index) {
            1nat
        } else {
            0
        }) == taken_by(passes, index) + (if pass.contains(index) {
            1nat
        } else {
            0
        }),
    decreases passes.len(),
{
    let out = passes.update(p, pass);
    if p == passes.len() - 1 {
        assert(out.drop_last() =~= passes.drop_last());
    } else {
        assert(out.drop_last() =~= passes.drop_last().update(p, pass));
        lemma_taken_update(passes.drop_last(), p, pass, index);
    }
}

proof fn lemma_none_taken(passes: Seq<Seq<int>>, index: int)
    requires
        forall|p: int| 0 <= p < passes.len() ==> !(#[trigger] passes[p]).contains(index),
    ensures
        taken_by(passes, index) == 0,
    decreases passes.len(),
{
    if passes.len() > 0 {
        assert(forall|p: int|
            0 <= p < passes.len() - 1 ==> #[trigger] passes.drop_last()[p] == passes[p]);
        lemma_none_taken(passes.drop_last(), index);
    }
}

proof fn lemma_passes(windows: Seq<(i64, i64)>)
    ensures
        passes_of(windows).windows.len() == passes_of(windows).done.len(),
        forall|p: int|
            0 <= p < passes_of(windows).windows.len() ==> {
                let pass = #[trigger] passes_of(windows).windows[p];
                &&& rising_pass(pass, windows.len() as int)
                &&& clear_pass(windows, pass)
                &&& passes_of(windows).done[p] == windows[pass.last()].1 + RECORDING_FLUSH_TICKS
            },
        forall|i: int|
            0 <= i < windows.len() ==> #[trigger] taken_by(passes_of(windows).windows, i) == 1,
    decreases windows.len(),
{
    if windows.len() > 0 {
        let rest = windows.drop_last();
        lemma_passes(rest);
        let before = passes_of(rest);
        let out = passes_of(windows);
        let index = windows.len() - 1;
        let (start, end) = windows.last();
        lemma_first_free(before.done, start as int);
        assert forall|p: int| 0 <= p < before.windows.len() implies !(
        #[trigger] before.windows[p]).contains(index) by {
            assert(rising_pass(before.windows[p], rest.len() as int));
        }
        lemma_none_taken(before.windows, index);
        match first_free(before.done, start as int) {
            Some(p) => {
                let old_pass = before.windows[p];
                let pass = old_pass.push(index);
                assert(rising_pass(old_pass, rest.len() as int));
                assert(clear_pass(rest, old_pass));
                assert(clear_pass(windows, pass)) by {
                    assert forall|k: int| 0 <= k && k + 1 < pass.len() implies comes_clear(
                        windows,
                        #[trigger] pass[k],
                        pass[k + 1],
                    ) by {
                        assert(pass[k] == old_pass[k]);
                        assert(rest[old_pass[k]] == windows[old_pass[k]]);
                        if k + 1 < old_pass.len() {
                            assert(pass[k + 1] == old_pass[k + 1]);
                            assert(comes_clear(rest, old_pass[k], old_pass[k + 1]));
                            assert(rest[old_pass[k + 1]] == windows[old_pass[k + 1]]);
                        } else {
                            assert(old_pass[k] == old_pass.last());
                        }
                    }
                }
                assert forall|q: int| 0 <= q < out.windows.len() implies {
                    let pass = #[trigger] out.windows[q];
                    &&& rising_pass(pass, windows.len() as int)
                    &&& clear_pass(windows, pass)
                    &&& out.done[q] == windows[pass.last()].1 + RECORDING_FLUSH_TICKS
                } by {
                    if q != p {
                        let other = before.windows[q];
                        assert(out.windows[q] == other);
                        lemma_widen(windows, other);
                    }
                }
                assert forall|i: int| 0 <= i < windows.len() implies #[trigger] taken_by(
                    out.windows,
                    i,
                ) == 1 by {
                    lemma_taken_update(before.windows, p, pass, i);
                    if i < rest.len() {
                        assert(taken_by(before.windows, i) == 1);
                        if old_pass.contains(i) {
                            let k = choose|k: int| 0 <= k < old_pass.len() && old_pass[k] == i;
                            assert(pass[k] == i);
                        }
                        if pass.contains(i) {
                            let k = choose|k: int| 0 <= k < pass.len() && pass[k] == i;
                            assert(old_pass[k] == i);
                        }
                    } else {
                        assert(pass[old_pass.len() as int] == index);
                    }
                }
            },
            None => {
                let pass = seq![index];
                assert(out.windows.drop_last() =~= before.windows);
                assert forall|q: int| 0 <= q < out.windows.len() implies {
                    let pass = #[trigger] out.windows[q];
                    &&& rising_pass(pass, windows.len() as int)
                    &&& clear_pass(windows, pass)
                    &&& out.done[q] == windows[pass.last()].1 + RECORDING_FLUSH_TICKS
                } by {
                    if q < before.windows.len() {
                        let other = before.windows[q];
                        assert(out.windows[q] == other);
                        lemma_widen(windows, other);
                    }
                }
                assert forall|i: int| 0 <= i < windows.len() implies #[trigger] taken_by(
                    out.windows,
                    i,
                ) == 1 by {
                    if i < rest.len() {
                        assert(taken_by(before.windows, i) == 1);
                    } else {
                        assert(pass[0] == index);
                    }
                }
            },
        }
    }
}

proof fn lemma_widen(windows: Seq<(i64, i64)>, pass: Seq<int>)
    requires
        windows.len() > 0,
        rising_pass(pass, windows.len() - 1),
        clear_pass(windows.drop_last(), pass),
    ensures
        rising_pass(pass, windows.len() as int),
        clear_pass(windows, pass),
        windows[pass.last()] == windows.drop_last()[pass.last()],
{
    assert forall|k: int| 0 <= k && k + 1 < pass.len() implies comes_clear(
        windows,
        #[trigger] pass[k],
        pass[k + 1],
    ) by {
        assert(comes_clear(windows.drop_last(), pass[k], pass[k + 1]));
        assert(0 <= pass[k] < windows.len() - 1);
        assert(0 <= pass[k + 1] < windows.len() - 1);
    }
}

/// Every window is recorded in exactly one playback; within a playback windows
/// come in the order in which they were given, and each starts only when the one
/// before it is over and written. No window is changed.
pub proof fn law_passes_record_every_window(windows: Seq<(i64, i64)>)
    ensures
        forall|i: int|
            0 <= i < windows.len() ==> #[trigger] taken_by(passes_of(windows).windows, i) == 1,
        forall|p: int|
            0 <= p < passes_of(windows).windows.len() ==> rising_pass(
                #[trigger] passes_of(windows).windows[p],
                windows.len() as int,
            ) && clear_pass(windows, passes_of(windows).windows[p]),
{
    lemma_passes(windows);
}

/// Whether windows come in the order of their starts, and none ends before it starts.
pub open spec fn in_turn(windows: Seq<(i64, i64)>) -> bool {
    &&& forall|i: int| 0 <= i < windows.len() ==> (#[trigger] windows[i]).0 <= windows[i].1
    &&& forall|i: int, j: int|
        0 <= i < j < windows.len() ==> (#[trigger] windows[i]).0 <= (#[trigger] windows[j]).0
}

/// Whether windows can be spread over a number of playbacks as a plan says: no two
/// of one playback get in each other's way.
pub open spec fn can_be_played(windows: Seq<(i64, i64)>, plan: Seq<int>, count: nat) -> bool {
    &&& plan.len() == windows.len()
    &&& forall|i: int| 0 <= i < plan.len() ==> 0 <= #[trigger] plan[i] < count
    &&& forall|i: int, j: int|
        0 <= i < j < plan.len() && #[trigger] plan[i] == #[trigger] plan[j] ==> comes_clear(
            windows,
            i,
            j,
        ) || comes_clear(windows, j, i)
}

/// Whether windows all get in each other's way.
spec fn is_crowd(windows: Seq<(i64, i64)>, crowd: Seq<int>) -> bool {
    &&& forall|k: int| 0 <= k < crowd.len() ==> 0 <= #[trigger] crowd[k] < windows.len()
    &&& forall|k: int, l: int|
        0 <= k < l < crowd.len() ==> #[trigger] crowd[k] != #[trigger] crowd[l] && !comes_clear(
            windows,
            crowd[k],
            crowd[l],
        ) && !comes_clear(windows, crowd[l], crowd[k])
}

proof fn lemma_none_free(done: Seq<int>, start: int)
    requires
        first_free(done, start) is None,
    ensures
        forall|p: int|
            0 <= p < done.len() ==> start <= #[trigger] done[p] + VDM_ACTION_GAP_TICKS,
    decreases done.len(),
{
    if done.len() > 0 {
        lemma_none_free(done.drop_last(), start);
        assert forall|p: int| 0 <= p < done.len() implies start <= #[trigger] done[p]
            + VDM_ACTION_GAP_TICKS by {
            if p < done.len() - 1 {
                assert(done.drop_last()[p] == done[p]);
            }
        }
    }
}

proof fn lemma_crowd(windows: Seq<(i64, i64)>) -> (crowd: Seq<int>)
    requires
        in_turn(windows),
    ensures
        is_crowd(windows, crowd),
        crowd.len() == passes_of(windows).windows.len(),
    decreases windows.len(),
{
    if windows.len() == 0 {
        Seq::empty()
    } else {
        let rest = windows.drop_last();
        assert(in_turn(rest)) by {
            assert forall|i: int| 0 <= i < rest.len() implies (#[trigger] rest[i]).0 <= rest[i].1 by {
                assert(windows[i].0 <= windows[i].1);
            }
            assert forall|i: int, j: int| 0 <= i < j < rest.len() implies (#[trigger] rest[i]).0
                <= (#[trigger] rest[j]).0 by {
                assert(windows[i].0 <= windows[j].0);
            }
        }
        let before = passes_of(rest);
        let index = windows.len() - 1;
        let (start, end) = windows.last();
        match first_free(before.done, start as int) {
            Some(p) => {
                let crowd = lemma_crowd(rest);
                lemma_first_free(before.done, start as int);
                lemma_passes(rest);
                assert forall|k: int, l: int| 0 <= k < l < crowd.len() implies #[trigger] crowd[k]
                    != #[trigger] crowd[l] && !comes_clear(windows, crowd[k], crowd[l])
                    && !comes_clear(windows, crowd[l], crowd[k]) by {
                    assert(!comes_clear(rest, crowd[k], crowd[l]));
                }
                crowd
            },
            None => {
                lemma_passes(rest);
                lemma_none_free(before.done, start as int);
                let lasts = Seq::new(
                    before.windows.len(),
                    |p: int| before.windows[p].last(),
                );
                let crowd = lasts.push(index);
                assert forall|k: int| 0 <= k < lasts.len() implies 0 <= #[trigger] lasts[k]
                    < rest.len() && windows[lasts[k]] == rest[lasts[k]] && start
                    <= windows[lasts[k]].1 + RECORDING_FLUSH_TICKS + VDM_ACTION_GAP_TICKS
                    && windows[lasts[k]].0 <= start by {
                    let pass = before.windows[k];
                    assert(rising_pass(pass, rest.len() as int));
                    assert(pass[pass.len() - 1] == lasts[k]);
                    assert(before.done[k] == rest[pass.last()].1 + RECORDING_FLUSH_TICKS);
                    assert(windows[lasts[k]].0 <= windows[index].0);
                }
                assert forall|k: int| 0 <= k < crowd.len() implies 0 <= #[trigger] crowd[k]
                    < windows.len() by {
                    if k < lasts.len() {
                        assert(crowd[k] == lasts[k]);
                    }
                }
                assert forall|k: int, l: int| 0 <= k < l < crowd.len() implies #[trigger] crowd[k]
                    != #[trigger] crowd[l] && !comes_clear(windows, crowd[k], crowd[l])
                    && !comes_clear(windows, crowd[l], crowd[k]) by {
                    assert(crowd[k] == lasts[k]);
                    assert(windows[index] == (start, end));
                    assert(windows[index].0 <= windows[index].1);
                    if l < lasts.len() {
                        assert(crowd[l] == lasts[l]);
                        if lasts[k] == lasts[l] {
                            lemma_shared_window(before.windows, k, l, lasts[k]);
                        }
                    }
                }
                crowd
            },
        }
    }
}

proof fn lemma_taken_at_least(passes: Seq<Seq<int>>, p: int, index: int)
    requires
        0 <= p < passes.len(),
        passes[p].contains(index),
    ensures
        taken_by(passes, index) >= 1,
    decreases passes.len(),
{
    if p < passes.len() - 1 {
        lemma_taken_at_least(passes.drop_last(), p, index);
    }
}

proof fn lemma_shared_window(passes: Seq<Seq<int>>, p: int, q: int, index: int)
    requires
        0 <= p < q < passes.len(),
        passes[p].len() > 0,
        passes[q].len() > 0,
        passes[p].last() == index,
        passes[q].last() == index,
    ensures
        taken_by(passes, index) >= 2,
    decreases passes.len(),
{
    assert(passes[p][passes[p].len() - 1] == index);
    assert(passes[q][passes[q].len() - 1] == index);
    if q < passes.len() - 1 {
        let rest = passes.drop_last();
        assert(rest[p] == passes[p] && rest[q] == passes[q]);
        lemma_shared_window(rest, p, q, index);
    } else {
        assert(passes.drop_last()[p] == passes[p]);
        lemma_taken_at_least(passes.drop_last(), p, index);
    }
}

/// Windows that come in turn are recorded in as few playbacks as possible: whatever
/// plan keeps those of one playback out of each other's way needs no fewer.
pub proof fn law_passes_are_few(windows: Seq<(i64, i64)>, plan: Seq<int>, count: nat)
    requires
        in_turn(windows),
        can_be_played(windows, plan, count),
    ensures
        passes_of(windows).windows.len() <= count,
{
    if windows.len() > 0 {
        let crowd = lemma_crowd(windows);
        let used = Seq::new(crowd.len(), |k: int| plan[crowd[k]]);
        assert forall|k: int, l: int| 0 <= k < used.len() && 0 <= l < used.len() && k != l implies
            used[k] != used[l] by {
            let (a, b) = if k < l {
                (k, l)
            } else {
                (l, k)
            };
            assert(crowd[a] != crowd[b]);
            let (i, j) = if crowd[a] < crowd[b] {
                (crowd[a], crowd[b])
            } else {
                (crowd[b], crowd[a])
            };
            if plan[i] == plan[j] {
                assert(comes_clear(windows, i, j) || comes_clear(windows, j, i));
            }
        }
        assert(used.no_duplicates());
        used.unique_seq_to_set();
        assert(0 <= plan[0] < count);
        vstd::set_lib::lemma_int_range(0, count as int);
        assert(used.to_set().subset_of(vstd::set_lib::set_int_range(0, count as int))) by {
            assert forall|v: int| used.to_set().contains(v) implies #[trigger] vstd::set_lib::set_int_range(
                0,
                count as int,
            ).contains(v) by {
                let k = choose|k: int| 0 <= k < used.len() && used[k] == v;
                assert(0 <= plan[crowd[k]] < count);
            }
        }
        vstd::set_lib::lemma_len_subset(used.to_set(), vstd::set_lib::set_int_range(0, count as int));
    }
}

/// What positions hold.
pub open spec fn index_lists(lists: Seq<Vec<usize>>) -> Seq<Seq<int>> {
    Seq::new(lists.len(), |p: int| Seq::new(lists[p]@.len(), |k: int| lists[p]@[k] as int))
}

fn find_free(done: &Vec<i128>, start: i64) -> (out: Option<usize>)
    requires
        forall|p: int| 0 <= p < done.len() ==> i64::MIN <= #[trigger] done@[p] <= i64::MAX + 133,
    ensures
        match out {
            Some(p) => p < done.len() && first_free(wide(done@), start as int) == Some(p as int),
            None => first_free(wide(done@), start as int) is None,
        },
{
    let ghost all = wide(done@);
    let mut found: Option<usize> = None;
    let mut i: usize = 0;
    while i < done.len()
        invariant
            i <= done.len(),
            all == wide(done@),
            forall|p: int|
                0 <= p < done.len() ==> i64::MIN <= #[trigger] done@[p] <= i64::MAX + 133,
            match found {
                Some(p) => p < i && first_free(all.take(i as int), start as int) == Some(p as int),
                None => first_free(all.take(i as int), start as int) is None,
            },
        decreases done.len() - i,
    {
        proof {
            assert(all.take(i + 1).drop_last() =~= all.take(i as int));
            assert(all.take(i + 1).last() == done@[i as int]);
        }
        if found.is_none() && start as i128 > done[i] + VDM_ACTION_GAP_TICKS as i128 {
            found = Some(i);
        }
        i += 1;
    }
    assert(all.take(done.len() as int) =~= all);
    found
}

/// Numbers without a bound.
pub open spec fn wide(list: Seq<i128>) -> Seq<int> {
    Seq::new(list.len(), |i: int| list[i] as int)
}

/// Windows spread over playbacks.
pub fn partition_recording_windows(windows: &Vec<(i64, i64)>) -> (out: Vec<Vec<usize>>)
    ensures
        index_lists(out@) == passes_of(windows@).windows,
{
    let mut passes: Vec<Vec<usize>> = Vec::new();
    let mut done: Vec<i128> = Vec::new();
    let mut i: usize = 0;
    proof {
        assert(index_lists(passes@) =~= passes_of(windows@.take(0)).windows);
        assert(wide(done@) =~= passes_of(windows@.take(0)).done);
    }
    while i < windows.len()
        invariant
            i <= windows.len(),
            passes.len() == done.len(),
            index_lists(passes@) == passes_of(windows@.take(i as int)).windows,
            wide(done@) == passes_of(windows@.take(i as int)).done,
            forall|p: int|
                0 <= p < done.len() ==> i64::MIN <= #[trigger] done@[p] <= i64::MAX + 133,
        decreases windows.len() - i,
    {
        proof {
            assert(windows@.take(i + 1).drop_last() =~= windows@.take(i as int));
            assert(windows@.take(i + 1).last() == windows@[i as int]);
        }
        let (start, end) = windows[i];
        let over: i128 = end as i128 + RECORDING_FLUSH_TICKS as i128;
        let ghost before = index_lists(passes@);
        let ghost was_done = wide(done@);
        match find_free(&done, start) {
            Some(p) => {
                let ghost known = passes@[p as int]@;
                passes[p].push(i);
                done.set(p, over);
                proof {
                    assert(before[p as int] =~= Seq::new(known.len(), |k: int| known[k] as int));
                    assert(index_lists(passes@)[p as int] =~= before[p as int].push(i as int));
                    assert(index_lists(passes@) =~= before.update(
                        p as int,
                        before[p as int].push(i as int),
                    ));
                    assert(wide(done@) =~= was_done.update(p as int, over as int));
                }
            },
            None => {
                let mut pass: Vec<usize> = Vec::new();
                pass.push(i);
                passes.push(pass);
                done.push(over);
                proof {
                    assert(index_lists(passes@)[before.len() as int] =~= seq![i as int]);
                    assert(index_lists(passes@) =~= before.push(seq![i as int]));
                    assert(wide(done@) =~= was_done.push(over as int));
                }
            },
        }
        i += 1;
    }
    assert(windows@.take(windows.len() as int) =~= windows@);
    passes
}

/// The windows of candidates.
pub open spec fn windows_of(candidates: Seq<Candidate>, settings: AppSettings) -> Seq<(i64, i64)> {
    Seq::new(
        candidates.len(),
        |i: int|
            (
                window_start(candidates[i], settings) as i64,
                window_end(candidates[i], settings) as i64,
            ),
    )
}

/// Whether the windows of candidates lie within the range of ticks.
pub open spec fn windows_fit(candidates: Seq<Candidate>, settings: AppSettings) -> bool {
    forall|i: int| 0 <= i < candidates.len() ==> window_fits(#[trigger] candidates[i], settings)
}

/// The windows of candidates.
pub fn list_windows(candidates: &Vec<Candidate>, settings: &AppSettings) -> (out: Vec<(i64, i64)>)
    requires
        windows_fit(candidates@, *settings),
    ensures
        out@ == windows_of(candidates@, *settings),
{
    let mut out: Vec<(i64, i64)> = Vec::new();
    let mut i: usize = 0;
    while i < candidates.len()
        invariant
            i <= candidates.len(),
            windows_fit(candidates@, *settings),
            out.len() == i,
            forall|k: int|
                0 <= k < i ==> #[trigger] out@[k] == windows_of(candidates@, *settings)[k],
        decreases candidates.len() - i,
    {
        out.push(clip_window(&candidates[i], settings));
        i += 1;
    }
    assert(out@ =~= windows_of(candidates@, *settings));
    out
}

/// Candidates spread over playbacks, by position.
pub fn split_recording_passes(candidates: &Vec<Candidate>, settings: &AppSettings) -> (out: Vec<
    Vec<usize>,
>)
    requires
        windows_fit(candidates@, *settings),
    ensures
        index_lists(out@) == passes_of(windows_of(candidates@, *settings)).windows,
{
    partition_recording_windows(&list_windows(candidates, settings))
}

// ---------------------------------------------------------------------------
// Seeking
// ---------------------------------------------------------------------------

/// Whether the camera must be told whom to follow: in a recording of the whole
/// match, and where no player is known to have recorded.
pub open spec fn needs_focus(candidate: Candidate) -> bool {
    &&& candidate.attacker_user_id > 0
    &&& {
        ||| same_fold(candidate.demo_context.capture_type@, "stv"@)
        ||| same_fold(candidate.demo_context.analysis_scope@, "all_players"@)
            && candidate.demo_context.pov_player_user_id is None
    }
}

/// Whether the camera must be told whom to follow.
pub fn candidate_needs_spectator_focus(candidate: &Candidate) -> (r: bool)
    ensures
        r == needs_focus(*candidate),
{
    candidate.attacker_user_id > 0 && (same_ignoring_case(
        candidate.demo_context.capture_type.as_str(),
        "stv",
    ) || (same_ignoring_case(candidate.demo_context.analysis_scope.as_str(), "all_players")
        && candidate.demo_context.pov_player_user_id.is_none()))
}

/// The ticks that safe seeks go to, from a tick on to a target.
pub open spec fn seeks_from(tick: int, target: int) -> Seq<int>
    decreases (if tick < target {
        target - tick
    } else {
        0
    }),
{
    if tick < target {
        seq![tick] + seeks_from(tick + MANUAL_SEEK_STEP_TICKS, target)
    } else if target > 0 {
        seq![target]
    } else {
        Seq::empty()
    }
}

/// The ticks that safe seeks go to on the way to a target.
pub open spec fn seeks_to(target: int) -> Seq<int> {
    seeks_from(
        MANUAL_SEEK_STEP_TICKS as int,
        if target > 0 {
            target
        } else {
            0
        },
    )
}

/// What ticks hold.
pub open spec fn tick_values(list: Seq<i64>) -> Seq<int> {
    Seq::new(list.len(), |i: int| list[i] as int)
}

/// The ticks that safe seeks go to on the way to a target.
pub fn manual_seek_targets(target_tick: i64) -> (out: Vec<i64>)
    ensures
        tick_values(out@) == seeks_to(target_tick as int),
{
    let target: i64 = if target_tick > 0 {
        target_tick
    } else {
        0
    };
    let mut out: Vec<i64> = Vec::new();
    let mut tick: i128 = MANUAL_SEEK_STEP_TICKS as i128;
    assert(tick_values(out@) + seeks_from(tick as int, target as int) =~= seeks_from(
        tick as int,
        target as int,
    ));
    while tick < target as i128
        invariant
            0 < tick <= i64::MAX + MANUAL_SEEK_STEP_TICKS,
            tick_values(out@) + seeks_from(tick as int, target as int) == seeks_from(
                MANUAL_SEEK_STEP_TICKS as int,
                target as int,
            ),
        decreases i64::MAX + MANUAL_SEEK_STEP_TICKS - tick,
    {
        let ghost before = tick_values(out@);
        out.push(tick as i64);
        proof {
            assert(tick_values(out@) =~= before.push(tick as int));
            assert(before + (seq![tick as int] + seeks_from(
                tick + MANUAL_SEEK_STEP_TICKS,
                target as int,
            )) =~= before.push(tick as int) + seeks_from(
                tick + MANUAL_SEEK_STEP_TICKS,
                target as int,
            ));
        }
        tick = tick + MANUAL_SEEK_STEP_TICKS as i128;
    }
    let ghost before = tick_values(out@);
    if target > 0 {
        out.push(target);
        assert(tick_values(out@) =~= before + seq![target as int]);
    } else {
        assert(before + Seq::<int>::empty() =~= before);
    }
    out
}

proof fn lemma_seeks(tick: int, target: int)
    requires
        tick > 0,
        target > 0,
        target > tick - MANUAL_SEEK_STEP_TICKS,
    ensures
        seeks_from(tick, target).len() > 0,
        seeks_from(tick, target).last() == target,
        seeks_from(tick, target)[0] <= tick,
        seeks_from(tick, target)[0] > tick - MANUAL_SEEK_STEP_TICKS,
        forall|i: int|
            0 <= i < seeks_from(tick, target).len() ==> #[trigger] seeks_from(tick, target)[i]
                <= target,
        forall|i: int|
            0 <= i && i + 1 < seeks_from(tick, target).len() ==> 0 < seeks_from(tick, target)[i + 1]
                - #[trigger] seeks_from(tick, target)[i] <= MANUAL_SEEK_STEP_TICKS,
    decreases (if tick < target {
        target - tick
    } else {
        0
    }),
{
    if tick < target {
        lemma_seeks(tick + MANUAL_SEEK_STEP_TICKS, target);
        let rest = seeks_from(tick + MANUAL_SEEK_STEP_TICKS, target);
        let all = seeks_from(tick, target);
        assert(all == seq![tick] + rest);
        assert(all.last() == rest.last());
        assert forall|i: int| 0 <= i < all.len() implies #[trigger] all[i] <= target by {
            if i > 0 {
                assert(all[i] == rest[i - 1]);
            }
        }
        assert forall|i: int| 0 <= i && i + 1 < all.len() implies 0 < all[i + 1]
            - #[trigger] all[i] <= MANUAL_SEEK_STEP_TICKS by {
            if i > 0 {
                assert(all[i] == rest[i - 1]);
                assert(all[i + 1] == rest[i]);
            }
        }
    }
}

/// No seek goes past the target, and there are none where it lies at the start.
pub proof fn lemma_seeks_below(target: int)
    ensures
        target <= 0 ==> seeks_to(target).len() == 0,
        forall|i: int| 0 <= i < seeks_to(target).len() ==> #[trigger] seeks_to(target)[i] <= target,
{
    if target > 0 {
        lemma_seeks(MANUAL_SEEK_STEP_TICKS as int, target);
    }
}

/// Seeks end at the target, and none goes further than the step.
pub proof fn law_seeks_are_short(target: int)
    requires
        target > 0,
    ensures
        seeks_to(target).len() > 0,
        seeks_to(target).last() == target,
        0 < seeks_to(target)[0] <= 15_000,
        forall|i: int|
            0 <= i && i + 1 < seeks_to(target).len() ==> 0 < seeks_to(target)[i + 1]
                - #[trigger] seeks_to(target)[i] <= 15_000,
{
    lemma_seeks(MANUAL_SEEK_STEP_TICKS as int, target);
}

// ---------------------------------------------------------------------------
// Names
// ---------------------------------------------------------------------------

/// Whether a character may stand in a name.
pub open spec fn plain_char(c: char) -> bool {
    is_alnum(c) || c == '-' || c == '_'
}

/// A text with every character that may not stand in a name replaced.
pub open spec fn sanitized(text: Seq<char>) -> Seq<char> {
    Seq::new(
        text.len(),
        |i: int|
            if plain_char(text[i]) {
                text[i]
            } else {
                '_'
            },
    )
}

/// A text with every character that may not stand in a name replaced.
pub fn sanitize(text: &str) -> (out: String)
    ensures
        out@ == sanitized(text@),
{
    let chars = chars_of(text);
    let mut out: Vec<char> = Vec::new();
    let mut i: usize = 0;
    while i < chars.len()
        invariant
            i <= chars.len(),
            out.len() == i,
            forall|k: int| 0 <= k < i ==> #[trigger] out@[k] == sanitized(chars@)[k],
        decreases chars.len() - i,
    {
        let c = chars[i];
        if char_is_alnum(c) || c == '-' || c == '_' {
            out.push(c);
        } else {
            out.push('_');
        }
        i += 1;
    }
    assert(out@ =~= sanitized(chars@));
    string_of(&out)
}

/// A sanitized text holds only plain characters, keeps its length, and stays as
/// it is when it is sanitized again.
pub proof fn law_sanitized(text: Seq<char>)
    ensures
        sanitized(text).len() == text.len(),
        forall|i: int| 0 <= i < text.len() ==> plain_char(#[trigger] sanitized(text)[i]),
        sanitized(sanitized(text)) == sanitized(text),
{
    assert(sanitized(sanitized(text)) =~= sanitized(text));
}

/// A text with a comma before every third character from the end.
pub open spec fn grouped(text: Seq<char>, upto: int) -> Seq<char>
    decreases upto,
{
    if upto <= 0 {
        Seq::empty()
    } else {
        let before = grouped(text, upto - 1);
        let index = upto - 1;
        if index > 0 && (text.len() - index) % 3 == 0 {
            before.push(',').push(text[index])
        } else {
            before.push(text[index])
        }
    }
}

/// A number with a comma between groups of three digits.
pub fn format_number(value: u64) -> (out: String)
    ensures
        out@ == grouped(nat_text(value as nat), nat_text(value as nat).len() as int),
{
    let text = u64_text(value);
    let chars = chars_of(text.as_str());
    let mut out = String::new();
    let mut i: usize = 0;
    assert(out@ =~= grouped(chars@, 0));
    while i < chars.len()
        invariant
            i <= chars.len(),
            out@ == grouped(chars@, i as int),
        decreases chars.len() - i,
    {
        if i > 0 && (chars.len() - i) % 3 == 0 {
            out.push(',');
        }
        out.push(chars[i]);
        i += 1;
    }
    out
}

proof fn lemma_grouped(text: Seq<char>, upto: int)
    requires
        0 <= upto <= text.len(),
        forall|i: int| 0 <= i < text.len() ==> is_digit(#[trigger] text[i]),
    ensures
        without(grouped(text, upto), seq![',']) == text.take(upto),
    decreases upto,
{
    reveal_with_fuel(without, 3);
    if upto > 0 {
        lemma_grouped(text, upto - 1);
        let before = grouped(text, upto - 1);
        let c = text[upto - 1];
        let drop = seq![','];
        assert(is_digit(c));
        assert(!drop.contains(c));
        assert(drop[0] == ',');
        assert(drop.contains(','));
        assert(before.push(c).drop_last() =~= before);
        assert(before.push(',').drop_last() =~= before);
        assert(before.push(',').push(c).drop_last() =~= before.push(','));
        assert(text.take(upto) =~= text.take(upto - 1).push(c));
    } else {
        assert(without(grouped(text, upto), seq![',']) =~= text.take(0));
    }
}

/// Grouping only adds commas: without them the number reads as it was.
pub proof fn law_grouping_keeps_digits(value: nat)
    ensures
        without(grouped(nat_text(value), nat_text(value).len() as int), seq![',']) == nat_text(
            value,
        ),
{
    lemma_nat_text(value);
    let text = nat_text(value);
    lemma_grouped(text, text.len() as int);
    assert(text.take(text.len() as int) =~= text);
}

/// A text split at the first occurrence of a character.
pub open spec fn split_first(text: Seq<char>, c: char) -> Option<(Seq<char>, Seq<char>)>
    decreases text.len(),
{
    if text.len() == 0 {
        None
    } else if text[0] == c {
        Some((Seq::empty(), text.skip(1)))
    } else {
        match split_first(text.skip(1), c) {
            Some((before, after)) => Some((seq![text[0]] + before, after)),
            None => None,
        }
    }
}

/// The width and the height that a text names.
pub open spec fn resolution_of(text: Seq<char>) -> (int, int) {
    match split_first(text, 'x') {
        Some((width, height)) => match (nat_of(width), nat_of(height)) {
            (Some(w), Some(h)) if w <= u32::MAX && h <= u32::MAX => (w as int, h as int),
            _ => (2560, 1440),
        },
        None => (2560, 1440),
    }
}

proof fn lemma_split_first(text: Seq<char>, c: char, at: int)
    requires
        0 <= at <= text.len(),
        forall|i: int| 0 <= i < at ==> #[trigger] text[i] != c,
        at < text.len() ==> text[at] == c,
    ensures
        split_first(text, c) == (if at < text.len() {
            Some((text.take(at), text.skip(at + 1)))
        } else {
            None
        }),
    decreases text.len(),
{
    if text.len() == 0 {
    } else if at == 0 {
        assert(text.take(0) =~= Seq::empty());
    } else {
        let rest = text.skip(1);
        assert(forall|i: int| 0 <= i < rest.len() ==> #[trigger] rest[i] == text[i + 1]);
        assert(text[0] != c);
        lemma_split_first(rest, c, at - 1);
        if at < text.len() {
            assert(seq![text[0]] + rest.take(at - 1) =~= text.take(at));
            assert(rest.skip(at) =~= text.skip(at + 1));
        }
    }
}

/// The width and the height that a text names.
pub fn parse_resolution(value: &str) -> (out: (u32, u32))
    ensures
        (out.0 as int, out.1 as int) == resolution_of(value@),
{
    let chars = chars_of(value);
    let mut at: usize = 0;
    while at < chars.len() && chars[at] != 'x'
        invariant
            at <= chars.len(),
            forall|i: int| 0 <= i < at ==> #[trigger] chars@[i] != 'x',
        decreases chars.len() - at,
    {
        at += 1;
    }
    proof {
        lemma_split_first(chars@, 'x', at as int);
    }
    if at < chars.len() {
        let width = string_between(&chars, 0, at);
        let height = string_between(&chars, at + 1, chars.len());
        proof {
            assert(chars@.subrange(0, at as int) =~= chars@.take(at as int));
            assert(chars@.subrange(at + 1, chars.len() as int) =~= chars@.skip(at + 1));
        }
        if let Some(w) = parse_u32(width.as_str()) {
            if let Some(h) = parse_u32(height.as_str()) {
                return (w, h);
            }
        }
    }
    (2560, 1440)
}

/// A word with its first letter large and the others small.
pub open spec fn capital(word: Seq<char>) -> Seq<char> {
    if word.len() == 0 {
        word
    } else {
        seq![upper_char(word[0])] + lower(word.skip(1))
    }
}

/// Words with their first letters large.
pub open spec fn capitals(words: Seq<Seq<char>>) -> Seq<Seq<char>> {
    Seq::new(words.len(), |i: int| capital(words[i]))
}

/// The words of an identifier as a title; another title where it has none.
pub open spec fn title_of(tag: Seq<char>, otherwise: Seq<char>) -> Seq<char> {
    if runs(tag).len() == 0 {
        otherwise
    } else {
        joined(capitals(runs(tag)), " "@)
    }
}

/// A word with its first letter large and the others small.
pub fn capitalize(word: &str) -> (out: String)
    ensures
        out@ == capital(word@),
{
    let chars = chars_of(word);
    if chars.len() == 0 {
        return word.to_owned();
    }
    let head = string_between(&chars, 0, 1);
    let tail = string_between(&chars, 1, chars.len());
    let mut out = to_upper(head.as_str());
    out.append(to_lower(tail.as_str()).as_str());
    proof {
        assert(upper(head@) =~= seq![upper_char(chars@[0])]);
        assert(tail@ =~= chars@.skip(1));
    }
    out
}

/// The words of an identifier as a title.
pub fn make_title(tag: &str, otherwise: &str) -> (out: String)
    ensures
        out@ == title_of(tag@, otherwise@),
{
    let words = split_runs(tag);
    if words.len() == 0 {
        assert(views(words@).len() == 0);
        return otherwise.to_owned();
    }
    assert(views(words@).len() > 0);
    let mut out: Vec<String> = Vec::new();
    let mut i: usize = 0;
    while i < words.len()
        invariant
            i <= words.len(),
            out.len() == i,
            forall|k: int| 0 <= k < i ==> (#[trigger] out@[k])@ == capital(words@[k]@),
        decreases words.len() - i,
    {
        out.push(capitalize(words[i].as_str()));
        i += 1;
    }
    assert(views(out@) =~= capitals(views(words@)));
    join(&out, " ")
}

/// The folder that the recording of a candidate is filed in.
pub fn candidate_output_category(candidate: &Candidate) -> (out: String)
    ensures
        out@ == title_of(candidate.primary(), "Other"@),
{
    let tag = candidate.inferred_primary_tag();
    make_title(tag.as_str(), "Other")
}

/// The recording of a candidate starts its lead before the first kill and ends its outro
/// after the last, at 66.6666667 ticks a second to the nearest tick, but never before the
/// demo does.
pub proof fn law_windows_keep_lead_and_outro(candidate: Candidate, settings: AppSettings)
    requires
        candidate.point_of_kill_ticks.len() > 0,
        candidate.point_of_kill_ticks@[0] >= 0,
        candidate.point_of_kill_ticks@[0] <= candidate.point_of_kill_ticks@.last(),
    ensures
        ({
            let first = candidate.point_of_kill_ticks@[0];
            let last = candidate.point_of_kill_ticks@.last();
            let start = window_start(candidate, settings);
            let end = window_end(candidate, settings);
            let lead = settings.lead_seconds * 666_666_667;
            let outro = settings.outro_seconds * 666_666_667;
            &&& 0 <= start <= first
            &&& start > 0 ==> -5_000_000 <= 10_000_000 * (first - start) - lead <= 5_000_000
            &&& start == 0 ==> 10_000_000 * first - lead <= 5_000_000
            &&& start < end
            &&& last <= end
            &&& settings.outro_seconds > 0 ==> -5_000_000 <= 10_000_000 * (end - last) - outro
                <= 5_000_000
        }),
{
}

/// A candidate without kills is recorded from the start of its clip to the end.
pub proof fn law_windows_without_kills(candidate: Candidate, settings: AppSettings)
    requires
        candidate.point_of_kill_ticks.len() == 0,
        0 <= candidate.clip_start_tick < candidate.clip_end_tick,
        settings.lead_seconds == 0,
        settings.outro_seconds == 0,
    ensures
        window_start(candidate, settings) == candidate.clip_start_tick,
        window_end(candidate, settings) == candidate.clip_end_tick,
{
}

/// Of two windows that one playback records one after the other, the later starts more
/// than 135 ticks after the earlier has ended.
pub proof fn law_windows_of_a_pass_are_apart(windows: Seq<(i64, i64)>, p: int, k: int)
    requires
        0 <= p < passes_of(windows).windows.len(),
        0 <= k,
        k + 1 < passes_of(windows).windows[p].len(),
    ensures
        ({
            let pass = passes_of(windows).windows[p];
            windows[pass[k + 1]].0 - windows[pass[k]].1 > 135
        }),
{
    law_passes_record_every_window(windows);
    let pass = passes_of(windows).windows[p];
    assert(clear_pass(windows, pass));
    assert(comes_clear(windows, pass[k], pass[k + 1]));
}

/// A resolution that is written with an x between two numbers is read as it is; any text
/// without an x is read as 2560 by 1440.
pub proof fn law_resolutions_read_back(width: u32, height: u32, text: Seq<char>)
    requires
        !text.contains('x'),
    ensures
        resolution_of(int_text(width as int) + seq!['x'] + int_text(height as int)) == (
            width as int,
            height as int,
        ),
        resolution_of(text) == (2560int, 1440int),
{
    let a = int_text(width as int);
    let b = int_text(height as int);
    let all = a + seq!['x'] + b;
    law_written_numbers_read_back(width as int);
    law_written_numbers_read_back(height as int);
    lemma_number_is_plain(width as int);
    assert forall|i: int| 0 <= i < a.len() implies #[trigger] all[i] != 'x' by {
        assert(all[i] == a[i]);
    }
    lemma_split_first(all, 'x', a.len() as int);
    assert(all.take(a.len() as int) =~= a);
    assert(all.skip(a.len() as int + 1) =~= b);
    assert forall|i: int| 0 <= i < text.len() implies #[trigger] text[i] != 'x' by {
        assert(text.contains(text[i]));
    }
    lemma_split_first(text, 'x', text.len() as int);
}

/// The camera is told whom to follow in a demo of the server, and in one of which no
/// player is known to be the one who recorded it, where the attacker is known.
pub proof fn law_server_demos_need_focus(candidate: Candidate)
    ensures
        candidate.attacker_user_id <= 0 ==> !needs_focus(candidate),
        candidate.attacker_user_id > 0 && same_fold(candidate.demo_context.capture_type@, "stv"@)
            ==> needs_focus(candidate),
        candidate.demo_context.pov_player_user_id is Some && !same_fold(
            candidate.demo_context.capture_type@,
            "stv"@,
        ) ==> !needs_focus(candidate),
{
}

} // verus!
