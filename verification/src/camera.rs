//! Which players a camera follows for a candidate, and at which ticks.
use vstd::prelude::*;
use crate::arrange::{arrange, in_order, is_ordered, law_order_is_kept, law_order_keeps_all, Ranked};
use crate::order::{insert_number, rising};

verus! {

// ---------------------------------------------------------------------------
// Kills
// ---------------------------------------------------------------------------

/// What is told of a kill.
#[derive(Clone, Copy, Debug, PartialEq, Eq, Structural)]
pub struct KillTold {
    pub event_tick: Option<i64>,
    pub demo_tick: Option<i64>,
    pub victim_user_id: Option<i64>,
}

/// A kill that a camera can show.
#[derive(Clone, Copy, Debug, PartialEq, Eq, Structural)]
pub struct KillSpec {
    pub event_tick: i64,
    pub demo_tick: i64,
    pub victim_user_id: i64,
}

/// The kill that is told of, where its ticks and its victim are known.
pub open spec fn shown_kill(told: KillTold) -> Option<KillSpec> {
    match (told.event_tick, told.victim_user_id) {
        (Some(event_tick), Some(victim_user_id)) => {
            let demo_tick = match told.demo_tick {
                Some(tick) => tick,
                None => event_tick,
            };
            if event_tick > 0 && demo_tick > 0 && victim_user_id > 0 {
                Some(KillSpec { event_tick, demo_tick, victim_user_id })
            } else {
                None
            }
        },
        _ => None,
    }
}

/// The kill that is told of, where its ticks and its victim are known.
pub fn kill_spec(told: &KillTold) -> (out: Option<KillSpec>)
    ensures
        out == shown_kill(*told),
{
    match (told.event_tick, told.victim_user_id) {
        (Some(event_tick), Some(victim_user_id)) => {
            let demo_tick: i64 = match told.demo_tick {
                Some(tick) => tick,
                None => event_tick,
            };
            if event_tick > 0 && demo_tick > 0 && victim_user_id > 0 {
                Some(KillSpec { event_tick, demo_tick, victim_user_id })
            } else {
                None
            }
        },
        _ => None,
    }
}

/// The kills that a camera can show.
pub open spec fn shown_kills(told: Seq<KillTold>) -> Seq<KillSpec>
    decreases told.len(),
{
    if told.len() == 0 {
        Seq::empty()
    } else {
        let before = shown_kills(told.drop_last());
        match shown_kill(told.last()) {
            Some(kill) => before.push(kill),
            None => before,
        }
    }
}

/// A list with a number behind it, where it is not there already.
pub open spec fn noted(list: Seq<i64>, number: i64) -> Seq<i64> {
    if list.contains(number) {
        list
    } else {
        list.push(number)
    }
}

/// The event ticks of the kills at a demo tick, each once.
pub open spec fn events_at(kills: Seq<KillSpec>, tick: i64) -> Seq<i64>
    decreases kills.len(),
{
    if kills.len() == 0 {
        Seq::empty()
    } else {
        let before = events_at(kills.drop_last(), tick);
        if kills.last().demo_tick == tick {
            noted(before, kills.last().event_tick)
        } else {
            before
        }
    }
}

/// The victims of the kills at a demo tick, each once.
pub open spec fn victims_at(kills: Seq<KillSpec>, tick: i64) -> Seq<i64>
    decreases kills.len(),
{
    if kills.len() == 0 {
        Seq::empty()
    } else {
        let before = victims_at(kills.drop_last(), tick);
        if kills.last().demo_tick == tick {
            noted(before, kills.last().victim_user_id)
        } else {
            before
        }
    }
}

/// The demo ticks of kills.
pub open spec fn demo_ticks(kills: Seq<KillSpec>) -> Set<i64>
    decreases kills.len(),
{
    if kills.len() == 0 {
        Set::empty()
    } else {
        demo_ticks(kills.drop_last()).insert(kills.last().demo_tick)
    }
}

/// The kills at one demo tick.
#[derive(Debug)]
pub struct KillGroup {
    pub demo_tick: i64,
    pub event_ticks: Vec<i64>,
    pub victim_user_ids: Vec<i64>,
}

/// The ticks of groups.
pub open spec fn group_ticks(groups: Seq<KillGroup>) -> Seq<i64> {
    Seq::new(groups.len(), |i: int| groups[i].demo_tick)
}

/// Whether a group holds the kills at its tick.
pub open spec fn groups_at(group: KillGroup, kills: Seq<KillSpec>) -> bool {
    &&& group.event_ticks@ == events_at(kills, group.demo_tick)
    &&& group.victim_user_ids@ == victims_at(kills, group.demo_tick)
}

/// Whether groups are those of kills, in the order of their ticks.
pub open spec fn are_groups(groups: Seq<KillGroup>, kills: Seq<KillSpec>) -> bool {
    &&& rising(group_ticks(groups))
    &&& group_ticks(groups).to_set() == demo_ticks(kills)
    &&& forall|i: int| 0 <= i < groups.len() ==> groups_at(#[trigger] groups[i], kills)
}

fn note(list: &mut Vec<i64>, number: i64)
    ensures
        final(list)@ == noted(old(list)@, number),
{
    let mut i: usize = 0;
    while i < list.len()
        invariant
            i <= list.len(),
            *list == *old(list),
            forall|k: int| 0 <= k < i ==> list@[k] != number,
        decreases list.len() - i,
    {
        if list[i] == number {
            return ;
        }
        i += 1;
    }
    list.push(number);
}

fn list_shown_kills(told: &Vec<KillTold>) -> (out: Vec<KillSpec>)
    ensures
        out@ == shown_kills(told@),
{
    let mut out: Vec<KillSpec> = Vec::new();
    let mut i: usize = 0;
    assert(told@.take(0) =~= Seq::empty());
    while i < told.len()
        invariant
            i <= told.len(),
            out@ == shown_kills(told@.take(i as int)),
        decreases told.len() - i,
    {
        proof {
            assert(told@.take(i + 1).drop_last() =~= told@.take(i as int));
        }
        if let Some(kill) = kill_spec(&told[i]) {
            out.push(kill);
        }
        i += 1;
    }
    assert(told@.take(told.len() as int) =~= told@);
    out
}

fn group_at(kills: &Vec<KillSpec>, tick: i64) -> (out: KillGroup)
    ensures
        out.demo_tick == tick,
        groups_at(out, kills@),
{
    let mut event_ticks: Vec<i64> = Vec::new();
    let mut victim_user_ids: Vec<i64> = Vec::new();
    let mut i: usize = 0;
    assert(kills@.take(0) =~= Seq::empty());
    while i < kills.len()
        invariant
            i <= kills.len(),
            event_ticks@ == events_at(kills@.take(i as int), tick),
            victim_user_ids@ == victims_at(kills@.take(i as int), tick),
        decreases kills.len() - i,
    {
        proof {
            assert(kills@.take(i + 1).drop_last() =~= kills@.take(i as int));
        }
        if kills[i].demo_tick == tick {
            note(&mut event_ticks, kills[i].event_tick);
            note(&mut victim_user_ids, kills[i].victim_user_id);
        }
        i += 1;
    }
    assert(kills@.take(kills.len() as int) =~= kills@);
    KillGroup { demo_tick: tick, event_ticks, victim_user_ids }
}

/// The kills that a camera can show, those at one demo tick together.
pub fn kill_groups(told: &Vec<KillTold>) -> (out: Vec<KillGroup>)
    ensures
        are_groups(out@, shown_kills(told@)),
{
    let kills = list_shown_kills(told);
    let mut ticks: Vec<i64> = Vec::new();
    let mut i: usize = 0;
    assert(kills@.take(0) =~= Seq::empty());
    assert(ticks@.to_set() =~= Set::empty());
    while i < kills.len()
        invariant
            i <= kills.len(),
            rising(ticks@),
            ticks@.to_set() == demo_ticks(kills@.take(i as int)),
        decreases kills.len() - i,
    {
        proof {
            assert(kills@.take(i + 1).drop_last() =~= kills@.take(i as int));
        }
        insert_number(&mut ticks, kills[i].demo_tick);
        i += 1;
    }
    assert(kills@.take(kills.len() as int) =~= kills@);
    let mut out: Vec<KillGroup> = Vec::new();
    let mut k: usize = 0;
    assert(group_ticks(out@) =~= ticks@.take(0));
    while k < ticks.len()
        invariant
            k <= ticks.len(),
            group_ticks(out@) == ticks@.take(k as int),
            forall|j: int| 0 <= j < out.len() ==> groups_at(#[trigger] out@[j], kills@),
        decreases ticks.len() - k,
    {
        let ghost before = group_ticks(out@);
        out.push(group_at(&kills, ticks[k]));
        proof {
            assert(group_ticks(out@) =~= before.push(ticks@[k as int]));
            assert(ticks@.take(k + 1) =~= ticks@.take(k as int).push(ticks@[k as int]));
        }
        k += 1;
    }
    assert(ticks@.take(ticks.len() as int) =~= ticks@);
    out
}

/// The demo ticks of the kills that a camera can show come after the start of the
/// demo, and each group has a victim.
pub proof fn law_groups_have_victims(groups: Seq<KillGroup>, told: Seq<KillTold>)
    requires
        are_groups(groups, shown_kills(told)),
    ensures
        forall|i: int|
            0 <= i < groups.len() ==> (#[trigger] groups[i]).demo_tick > 0
                && groups[i].victim_user_ids.len() > 0 && groups[i].event_ticks.len() > 0,
{
    let kills = shown_kills(told);
    lemma_shown_positive(told);
    assert forall|i: int| 0 <= i < groups.len() implies (#[trigger] groups[i]).demo_tick > 0
        && groups[i].victim_user_ids.len() > 0 && groups[i].event_ticks.len() > 0 by {
        let ticks = group_ticks(groups);
        assert(ticks[i] == groups[i].demo_tick);
        assert(ticks.to_set().contains(groups[i].demo_tick));
        lemma_tick_has_kill(kills, groups[i].demo_tick);
        assert(groups_at(groups[i], kills));
    }
}

proof fn lemma_shown_positive(told: Seq<KillTold>)
    ensures
        forall|i: int|
            0 <= i < shown_kills(told).len() ==> (#[trigger] shown_kills(told)[i]).demo_tick > 0,
    decreases told.len(),
{
    if told.len() > 0 {
        let before = shown_kills(told.drop_last());
        let kills = shown_kills(told);
        lemma_shown_positive(told.drop_last());
        assert forall|i: int| 0 <= i < kills.len() implies (#[trigger] kills[i]).demo_tick > 0 by {
            if i < before.len() {
                assert(kills[i] == before[i]);
            }
        }
    }
}

proof fn lemma_tick_has_kill(kills: Seq<KillSpec>, tick: i64)
    requires
        demo_ticks(kills).contains(tick),
        forall|i: int| 0 <= i < kills.len() ==> (#[trigger] kills[i]).demo_tick > 0,
    ensures
        tick > 0,
        events_at(kills, tick).len() > 0,
        victims_at(kills, tick).len() > 0,
    decreases kills.len(),
{
    let before = kills.drop_last();
    assert forall|i: int| 0 <= i < before.len() implies (#[trigger] before[i]).demo_tick > 0 by {
        assert(before[i] == kills[i]);
    }
    if kills.last().demo_tick == tick {
        assert(kills[kills.len() - 1].demo_tick > 0);
    } else {
        lemma_tick_has_kill(before, tick);
    }
}

// ---------------------------------------------------------------------------
// Windows
// ---------------------------------------------------------------------------

/// Ticks from a first to a last.
#[derive(Clone, Copy, Debug, PartialEq, Eq, Structural)]
pub struct TrackWindow {
    pub start_tick: i64,
    pub end_tick: i64,
}

impl TrackWindow {
    /// Whether a tick is in the window.
    pub open spec fn holds(self, tick: i64) -> bool {
        self.start_tick <= tick <= self.end_tick
    }

    /// Whether a tick is in the window.
    pub fn contains(self, tick: i64) -> (r: bool)
        ensures
            r == self.holds(tick),
    {
        tick >= self.start_tick && tick <= self.end_tick
    }
}

impl Ranked for TrackWindow {
    open spec fn before(self, other: Self) -> bool {
        self.start_tick < other.start_tick
    }

    proof fn before_orders(a: Self, b: Self, c: Self) {
    }

    fn comes_before(&self, other: &Self) -> (r: bool) {
        self.start_tick < other.start_tick
    }
}

/// Whether a tick is in one of some windows.
pub open spec fn covers(windows: Seq<TrackWindow>, tick: i64) -> bool {
    exists|i: int| 0 <= i < windows.len() && (#[trigger] windows[i]).holds(tick)
}

/// Whether a tick is in one of some windows.
pub fn windows_cover(windows: &Vec<TrackWindow>, tick: i64) -> (r: bool)
    ensures
        r == covers(windows@, tick),
{
    let mut i: usize = 0;
    while i < windows.len()
        invariant
            i <= windows.len(),
            forall|k: int| 0 <= k < i ==> !(#[trigger] windows@[k]).holds(tick),
        decreases windows.len() - i,
    {
        if windows[i].contains(tick) {
            assert(windows@[i as int].holds(tick));
            return true;
        }
        i += 1;
    }
    false
}

/// Windows that touch or overlap made one.
pub open spec fn coalesced(windows: Seq<TrackWindow>) -> Seq<TrackWindow>
    decreases windows.len(),
{
    if windows.len() == 0 {
        Seq::empty()
    } else {
        let before = coalesced(windows.drop_last());
        let window = windows.last();
        if before.len() > 0 && window.start_tick <= before.last().end_tick + 1 {
            before.drop_last().push(
                TrackWindow {
                    start_tick: before.last().start_tick,
                    end_tick: if before.last().end_tick > window.end_tick {
                        before.last().end_tick
                    } else {
                        window.end_tick
                    },
                },
            )
        } else {
            before.push(window)
        }
    }
}

fn coalesce(windows: &Vec<TrackWindow>) -> (out: Vec<TrackWindow>)
    ensures
        out@ == coalesced(windows@),
{
    let mut out: Vec<TrackWindow> = Vec::new();
    let mut i: usize = 0;
    assert(windows@.take(0) =~= Seq::empty());
    while i < windows.len()
        invariant
            i <= windows.len(),
            out@ == coalesced(windows@.take(i as int)),
        decreases windows.len() - i,
    {
        let ghost before = out@;
        proof {
            assert(windows@.take(i + 1).drop_last() =~= windows@.take(i as int));
        }
        let window = windows[i];
        let n = out.len();
        if n > 0 && (out[n - 1].end_tick == i64::MAX || window.start_tick <= out[n - 1].end_tick
            + 1) {
            let last = out[n - 1];
            let end_tick: i64 = if last.end_tick > window.end_tick {
                last.end_tick
            } else {
                window.end_tick
            };
            let wider = TrackWindow { start_tick: last.start_tick, end_tick };
            out.set(n - 1, wider);
            assert(out@ =~= before.drop_last().push(wider));
        } else {
            out.push(window);
        }
        i += 1;
    }
    assert(windows@.take(windows.len() as int) =~= windows@);
    out
}

/// Whether each window starts after the tick that follows those before it.
pub open spec fn are_apart(windows: Seq<TrackWindow>) -> bool {
    forall|i: int, j: int|
        0 <= i < j < windows.len() ==> (#[trigger] windows[i]).end_tick + 1 < (
        #[trigger] windows[j]).start_tick
}

/// Windows in order that are made one where they touch hold the same ticks as
/// before, stand apart from each other, and begin and end where windows did.
pub proof fn law_coalesced_windows(windows: Seq<TrackWindow>)
    requires
        is_ordered(windows),
    ensures
        forall|tick: i64| #[trigger] covers(coalesced(windows), tick) == covers(windows, tick),
        are_apart(coalesced(windows)),
        coalesced(windows).len() <= windows.len(),
        forall|k: int|
            0 <= k < coalesced(windows).len() ==> begins(windows, #[trigger] coalesced(windows)[k])
                && ends(windows, coalesced(windows)[k]),
        windows.len() > 0 ==> coalesced(windows).len() > 0 && coalesced(windows).last().start_tick
            <= windows.last().start_tick,
    decreases windows.len(),
{
    if windows.len() > 0 {
        let rest = windows.drop_last();
        let window = windows.last();
        assert forall|i: int, j: int| 0 <= i < j < rest.len() implies !(#[trigger] rest[j]).before(
            #[trigger] rest[i],
        ) by {
            assert(!windows[j].before(windows[i]));
        }
        law_coalesced_windows(rest);
        let before = coalesced(rest);
        let out = coalesced(windows);
        if rest.len() > 0 {
            assert(!windows[windows.len() - 1].before(windows[windows.len() - 2]));
            assert(rest.last() == windows[windows.len() - 2]);
        }
        let merges = before.len() > 0 && window.start_tick <= before.last().end_tick + 1;
        assert forall|i: int, j: int| 0 <= i < j < out.len() implies (#[trigger] out[i]).end_tick + 1
            < (#[trigger] out[j]).start_tick by {
            assert(out[i] == before[i]);
            if j < before.len() {
                assert(before[i].end_tick + 1 < before[j].start_tick);
            } else {
                let last = before.len() - 1;
                if i < last {
                    assert(before[i].end_tick + 1 < before[last].start_tick);
                }
            }
        }
        assert forall|tick: i64| #[trigger] covers(out, tick) == covers(windows, tick) by {
            lemma_covers_rest(windows, tick);
            assert(covers(before, tick) == covers(rest, tick));
            if covers(out, tick) {
                let k = choose|k: int| 0 <= k < out.len() && (#[trigger] out[k]).holds(tick);
                if k < out.len() - 1 {
                    assert(before[k] == out[k]);
                    assert(covers(before, tick));
                } else if merges {
                    let last = before.len() - 1;
                    if tick <= before[last].end_tick {
                        assert(before[last].holds(tick));
                        assert(covers(before, tick));
                    } else {
                        assert(window.holds(tick));
                    }
                } else {
                    assert(window.holds(tick));
                }
            }
            if window.holds(tick) {
                assert(out[out.len() - 1].holds(tick));
            }
            if covers(before, tick) {
                let k = choose|k: int| 0 <= k < before.len() && (#[trigger] before[k]).holds(tick);
                assert(out[k].holds(tick));
            }
        }
        assert forall|k: int| 0 <= k < out.len() implies begins(windows, #[trigger] out[k]) && ends(
            windows,
            out[k],
        ) by {
            let end = windows.len() - 1;
            if k < before.len() {
                assert(begins(rest, before[k]) && ends(rest, before[k]));
                let a = choose|a: int|
                    0 <= a < rest.len() && (#[trigger] rest[a]).start_tick == before[k].start_tick;
                let b = choose|b: int|
                    0 <= b < rest.len() && (#[trigger] rest[b]).end_tick == before[k].end_tick;
                assert(windows[a].start_tick == before[k].start_tick);
                assert(windows[b].end_tick == before[k].end_tick);
            }
            assert(windows[end] == window);
        }
    }
}

proof fn lemma_apart_stays(windows: Seq<TrackWindow>)
    requires
        are_apart(windows),
    ensures
        coalesced(windows) == windows,
    decreases windows.len(),
{
    if windows.len() == 0 {
        assert(coalesced(windows) =~= windows);
    } else {
        let rest = windows.drop_last();
        assert forall|i: int, j: int| 0 <= i < j < rest.len() implies (
        #[trigger] rest[i]).end_tick + 1 < (#[trigger] rest[j]).start_tick by {
            assert(windows[i].end_tick + 1 < windows[j].start_tick);
        }
        lemma_apart_stays(rest);
        if rest.len() > 0 {
            assert(windows[windows.len() - 2].end_tick + 1 < windows[windows.len() - 1].start_tick);
        }
        assert(rest.push(windows.last()) =~= windows);
    }
}

proof fn lemma_coalesced_ordered(windows: Seq<TrackWindow>)
    requires
        is_ordered(windows),
    ensures
        is_ordered(coalesced(windows)),
        forall|k: int|
            0 <= k < coalesced(windows).len() ==> (#[trigger] coalesced(windows)[k]).start_tick
                <= windows.last().start_tick,
    decreases windows.len(),
{
    if windows.len() > 0 {
        let rest = windows.drop_last();
        assert forall|i: int, j: int| 0 <= i < j < rest.len() implies !(#[trigger] rest[j]).before(
            #[trigger] rest[i],
        ) by {
            assert(!windows[j].before(windows[i]));
        }
        lemma_coalesced_ordered(rest);
        let before = coalesced(rest);
        let out = coalesced(windows);
        if rest.len() > 0 {
            assert(!windows[windows.len() - 1].before(windows[windows.len() - 2]));
        }
        assert forall|k: int| 0 <= k < out.len() implies (#[trigger] out[k]).start_tick
            <= windows.last().start_tick by {
            if k < before.len() {
                assert(before[k].start_tick <= rest.last().start_tick);
            }
        }
        assert forall|i: int, j: int| 0 <= i < j < out.len() implies !(#[trigger] out[j]).before(
            #[trigger] out[i],
        ) by {
            if j < before.len() {
                assert(!before[j].before(before[i]));
            } else {
                assert(before[i].start_tick <= rest.last().start_tick);
            }
        }
    }
}

/// Making windows one twice changes nothing more.
pub proof fn law_coalescing_twice(windows: Seq<TrackWindow>)
    ensures
        coalesced(in_order(coalesced(in_order(windows)))) == coalesced(in_order(windows)),
{
    let once = coalesced(in_order(windows));
    law_order_keeps_all(windows);
    law_coalesced_windows(in_order(windows));
    lemma_coalesced_ordered(in_order(windows));
    law_order_is_kept(once);
    lemma_apart_stays(once);
}

/// Whether one of some windows begins where another does.
pub open spec fn begins(windows: Seq<TrackWindow>, window: TrackWindow) -> bool {
    exists|a: int| 0 <= a < windows.len() && (#[trigger] windows[a]).start_tick == window.start_tick
}

/// Whether one of some windows ends where another does.
pub open spec fn ends(windows: Seq<TrackWindow>, window: TrackWindow) -> bool {
    exists|b: int| 0 <= b < windows.len() && (#[trigger] windows[b]).end_tick == window.end_tick
}

proof fn lemma_covers_rest(windows: Seq<TrackWindow>, tick: i64)
    requires
        windows.len() > 0,
    ensures
        covers(windows, tick) == (covers(windows.drop_last(), tick) || windows.last().holds(tick)),
{
    let rest = windows.drop_last();
    if covers(windows, tick) {
        let k = choose|k: int| 0 <= k < windows.len() && (#[trigger] windows[k]).holds(tick);
        if k < rest.len() {
            assert(rest[k].holds(tick));
        }
    }
    if covers(rest, tick) {
        let k = choose|k: int| 0 <= k < rest.len() && (#[trigger] rest[k]).holds(tick);
        assert(windows[k].holds(tick));
    }
    assert(windows[windows.len() - 1] == windows.last());
}

/// The windows of a player.
#[derive(Debug)]
pub struct UserWindows {
    pub user_id: i64,
    pub windows: Vec<TrackWindow>,
}

/// The windows of a player.
pub open spec fn windows_of(list: Seq<UserWindows>, user: i64) -> Seq<TrackWindow>
    decreases list.len(),
{
    if list.len() == 0 {
        Seq::empty()
    } else if list.last().user_id == user {
        list.last().windows@
    } else {
        windows_of(list.drop_last(), user)
    }
}

/// Makes the windows of each player one where they touch.
pub fn coalesce_track_windows(list: &mut Vec<UserWindows>)
    ensures
        final(list).len() == old(list).len(),
        forall|i: int|
            0 <= i < old(list).len() ==> (#[trigger] final(list)@[i]).user_id == old(
                list,
            )@[i].user_id && final(list)@[i].windows@ == coalesced(
                in_order(old(list)@[i].windows@),
            ),
{
    let ghost start = list@;
    let mut i: usize = 0;
    while i < list.len()
        invariant
            i <= list.len(),
            list.len() == start.len(),
            forall|k: int|
                0 <= k < i ==> (#[trigger] list@[k]).user_id == start[k].user_id
                    && list@[k].windows@ == coalesced(in_order(start[k].windows@)),
            forall|k: int| i <= k < start.len() ==> #[trigger] list@[k] == start[k],
        decreases list.len() - i,
    {
        let mut windows: Vec<TrackWindow> = Vec::new();
        let mut k: usize = 0;
        while k < list[i].windows.len()
            invariant
                i < list.len(),
                k <= list@[i as int].windows.len(),
                windows@ == list@[i as int].windows@.take(k as int),
            decreases list@[i as int].windows.len() - k,
        {
            let window = list[i].windows[k];
            windows.push(window);
            proof {
                let all = list@[i as int].windows@;
                assert(all.take(k + 1) =~= all.take(k as int).push(all[k as int]));
            }
            k += 1;
        }
        assert(windows@ =~= start[i as int].windows@);
        let merged = coalesce(&arrange(windows));
        let user_id = list[i].user_id;
        list.set(i, UserWindows { user_id, windows: merged });
        i += 1;
    }
}

/// The place of the windows of a player.
fn find_user(list: &Vec<UserWindows>, user: i64) -> (out: Option<usize>)
    ensures
        match out {
            Some(at) => at < list.len() && list@[at as int].user_id == user
                && list@[at as int].windows@ == windows_of(list@, user) && forall|k: int|
                at < k < list.len() ==> (#[trigger] list@[k]).user_id != user,
            None => windows_of(list@, user) == Seq::<TrackWindow>::empty() && forall|k: int|
                0 <= k < list.len() ==> (#[trigger] list@[k]).user_id != user,
        },
{
    let mut i: usize = list.len();
    assert(list@.take(list.len() as int) =~= list@);
    while i > 0
        invariant
            i <= list.len(),
            windows_of(list@, user) == windows_of(list@.take(i as int), user),
            forall|k: int| i <= k < list.len() ==> (#[trigger] list@[k]).user_id != user,
        decreases i,
    {
        i -= 1;
        proof {
            assert(list@.take(i + 1).drop_last() =~= list@.take(i as int));
            assert(list@.take(i + 1).last() == list@[i as int]);
        }
        if list[i].user_id == user {
            return Some(i);
        }
    }
    assert(list@.take(0) =~= Seq::empty());
    None
}

/// Whether a tick is in one of the windows of a player.
pub fn user_is_covered(list: &Vec<UserWindows>, user: i64, tick: i64) -> (r: bool)
    ensures
        r == covers(windows_of(list@, user), tick),
{
    match find_user(list, user) {
        Some(at) => windows_cover(&list[at].windows, tick),
        None => false,
    }
}

proof fn lemma_windows_of_changed(list: Seq<UserWindows>, at: int, changed: UserWindows, user: i64)
    requires
        0 <= at < list.len(),
        changed.user_id == list[at].user_id,
        forall|k: int| at < k < list.len() ==> (#[trigger] list[k]).user_id != changed.user_id,
    ensures
        windows_of(list.update(at, changed), user) == (if user == changed.user_id {
            changed.windows@
        } else {
            windows_of(list, user)
        }),
    decreases list.len(),
{
    let now = list.update(at, changed);
    if at == list.len() - 1 {
        assert(now.drop_last() =~= list.drop_last());
    } else {
        assert(now.drop_last() =~= list.drop_last().update(at, changed));
        let rest = list.drop_last();
        assert forall|k: int| at < k < rest.len() implies (#[trigger] rest[k]).user_id
            != changed.user_id by {
            assert(list[k].user_id != changed.user_id);
        }
        assert(list[list.len() - 1].user_id != changed.user_id);
        lemma_windows_of_changed(rest, at, changed, user);
    }
}

/// Whether a window was put behind those of one player, and nothing else changed.
pub open spec fn pushed(
    list: Seq<UserWindows>,
    user: i64,
    window: TrackWindow,
    out: Seq<UserWindows>,
) -> bool {
    forall|other: i64| #[trigger]
        windows_of(out, other) == (if other == user {
            windows_of(list, other).push(window)
        } else {
            windows_of(list, other)
        })
}

fn push_window(list: &mut Vec<UserWindows>, user: i64, window: TrackWindow)
    ensures
        pushed(old(list)@, user, window, final(list)@),
{
    let ghost before = list@;
    match find_user(list, user) {
        Some(at) => {
            let mut windows: Vec<TrackWindow> = Vec::new();
            let mut k: usize = 0;
            while k < list[at].windows.len()
                invariant
                    at < list.len(),
                    k <= list@[at as int].windows.len(),
                    windows@ == list@[at as int].windows@.take(k as int),
                decreases list@[at as int].windows.len() - k,
            {
                let known = list[at].windows[k];
                windows.push(known);
                proof {
                    let all = list@[at as int].windows@;
                    assert(all.take(k + 1) =~= all.take(k as int).push(all[k as int]));
                }
                k += 1;
            }
            windows.push(window);
            let changed = UserWindows { user_id: user, windows };
            let ghost now = changed;
            list.set(at, changed);
            proof {
                assert(now.windows@ =~= windows_of(before, user).push(window));
                assert forall|other: i64| #[trigger]
                    windows_of(list@, other) == (if other == user {
                        windows_of(before, other).push(window)
                    } else {
                        windows_of(before, other)
                    }) by {
                    lemma_windows_of_changed(before, at as int, now, other);
                }
            }
        },
        None => {
            let mut windows: Vec<TrackWindow> = Vec::new();
            windows.push(window);
            list.push(UserWindows { user_id: user, windows });
            proof {
                assert(list@.drop_last() =~= before);
                assert(list@.last().windows@ =~= Seq::<TrackWindow>::empty().push(window));
            }
        },
    }
}

/// A number held within the range of ticks.
pub open spec fn held(n: int) -> i64 {
    if n > i64::MAX {
        i64::MAX
    } else if n < i64::MIN {
        i64::MIN
    } else {
        n as i64
    }
}

/// A tick some ticks later.
pub fn later(tick: i64, ticks: i64) -> (out: i64)
    ensures
        out == held(tick + ticks),
{
    let sum: i128 = tick as i128 + ticks as i128;
    if sum > i64::MAX as i128 {
        i64::MAX
    } else if sum < i64::MIN as i128 {
        i64::MIN
    } else {
        sum as i64
    }
}

/// The tick from which a camera follows a clip.
pub open spec fn follow_from(clip_start: i64) -> i64 {
    if held(clip_start + 2) > 0 {
        held(clip_start + 2)
    } else {
        0
    }
}

/// The tick from which a camera follows a clip.
pub fn track_start(clip_start: i64) -> (out: i64)
    ensures
        out == follow_from(clip_start),
{
    let start = later(clip_start, 2);
    if start > 0 {
        start
    } else {
        0
    }
}

/// The windows that a group of kills asks of a player, once for each time that the
/// player is one of its victims.
pub open spec fn victim_windows(victims: Seq<i64>, user: i64, window: TrackWindow) -> Seq<
    TrackWindow,
>
    decreases victims.len(),
{
    if victims.len() == 0 {
        Seq::empty()
    } else {
        let before = victim_windows(victims.drop_last(), user, window);
        if victims.last() == user {
            before.push(window)
        } else {
            before
        }
    }
}

/// The windows that groups of kills ask of a player.
pub open spec fn group_windows(groups: Seq<KillGroup>, user: i64, start: i64, gap: int) -> Seq<
    TrackWindow,
>
    decreases groups.len(),
{
    if groups.len() == 0 {
        Seq::empty()
    } else {
        group_windows(groups.drop_last(), user, start, gap) + victim_windows(
            groups.last().victim_user_ids@,
            user,
            TrackWindow { start_tick: start, end_tick: held(groups.last().demo_tick + gap) },
        )
    }
}

/// The windows that a candidate asks of a player.
pub open spec fn asked_windows(
    groups: Seq<KillGroup>,
    attacker: i64,
    user: i64,
    start: i64,
    gap: int,
) -> Seq<TrackWindow> {
    (if user == attacker {
        seq![TrackWindow { start_tick: start, end_tick: held(groups.last().demo_tick + gap) }]
    } else {
        Seq::empty()
    }) + group_windows(groups, user, start, gap)
}

/// Asks for the attacker and the victims of a candidate, from the start of its
/// clip to some ticks after their kill; nothing where no kill can be shown.
pub fn ask_windows(
    list: &mut Vec<UserWindows>,
    groups: &Vec<KillGroup>,
    attacker: i64,
    clip_start: i64,
    gap_ticks: i64,
) -> (r: bool)
    ensures
        r == (groups.len() > 0),
        !r ==> final(list)@ == old(list)@,
        r ==> forall|user: i64| #[trigger]
            windows_of(final(list)@, user) == windows_of(old(list)@, user) + asked_windows(
                groups@,
                attacker,
                user,
                follow_from(clip_start),
                gap_ticks as int,
            ),
{
    if groups.len() == 0 {
        return false;
    }
    let ghost before = list@;
    let start = track_start(clip_start);
    let last = groups.len() - 1;
    let whole = TrackWindow { start_tick: start, end_tick: later(groups[last].demo_tick, gap_ticks) };
    push_window(list, attacker, whole);
    let ghost first = list@;
    let mut i: usize = 0;
    proof {
        assert(groups@.take(0) =~= Seq::empty());
        assert forall|user: i64| #[trigger]
            windows_of(list@, user) == windows_of(first, user) + group_windows(
                groups@.take(0),
                user,
                start,
                gap_ticks as int,
            ) by {
            assert(windows_of(first, user) + Seq::<TrackWindow>::empty() =~= windows_of(
                first,
                user,
            ));
        }
    }
    while i < groups.len()
        invariant
            i <= groups.len(),
            forall|user: i64| #[trigger]
                windows_of(list@, user) == windows_of(first, user) + group_windows(
                    groups@.take(i as int),
                    user,
                    start,
                    gap_ticks as int,
                ),
        decreases groups.len() - i,
    {
        let ghost known = list@;
        let victims = &groups[i].victim_user_ids;
        let window = TrackWindow {
            start_tick: start,
            end_tick: later(groups[i].demo_tick, gap_ticks),
        };
        let mut k: usize = 0;
        proof {
            assert(victims@.take(0) =~= Seq::empty());
            assert forall|user: i64| #[trigger]
                windows_of(list@, user) == windows_of(known, user) + victim_windows(
                    victims@.take(0),
                    user,
                    window,
                ) by {
                assert(windows_of(known, user) + Seq::<TrackWindow>::empty() =~= windows_of(
                    known,
                    user,
                ));
            }
        }
        while k < victims.len()
            invariant
                k <= victims.len(),
                forall|user: i64| #[trigger]
                    windows_of(list@, user) == windows_of(known, user) + victim_windows(
                        victims@.take(k as int),
                        user,
                        window,
                    ),
            decreases victims.len() - k,
        {
            let ghost so_far = list@;
            push_window(list, victims[k], window);
            proof {
                assert(victims@.take(k + 1).drop_last() =~= victims@.take(k as int));
                assert forall|user: i64| #[trigger]
                    windows_of(list@, user) == windows_of(known, user) + victim_windows(
                        victims@.take(k + 1),
                        user,
                        window,
                    ) by {
                    assert(windows_of(so_far, user) == windows_of(known, user) + victim_windows(
                        victims@.take(k as int),
                        user,
                        window,
                    ));
                    let old_part = victim_windows(victims@.take(k as int), user, window);
                    assert((windows_of(known, user) + old_part).push(window) =~= windows_of(
                        known,
                        user,
                    ) + old_part.push(window));
                }
            }
            k += 1;
        }
        proof {
            assert(victims@.take(victims.len() as int) =~= victims@);
            assert(groups@.take(i + 1).drop_last() =~= groups@.take(i as int));
            assert forall|user: i64| #[trigger]
                windows_of(list@, user) == windows_of(first, user) + group_windows(
                    groups@.take(i + 1),
                    user,
                    start,
                    gap_ticks as int,
                ) by {
                assert(windows_of(known, user) == windows_of(first, user) + group_windows(
                    groups@.take(i as int),
                    user,
                    start,
                    gap_ticks as int,
                ));
                let a = windows_of(first, user);
                let b = group_windows(groups@.take(i as int), user, start, gap_ticks as int);
                let c = victim_windows(victims@, user, window);
                assert((a + b) + c =~= a + (b + c));
            }
        }
        i += 1;
    }
    proof {
        assert(groups@.take(groups.len() as int) =~= groups@);
        assert forall|user: i64| #[trigger]
            windows_of(list@, user) == windows_of(before, user) + asked_windows(
                groups@,
                attacker,
                user,
                follow_from(clip_start),
                gap_ticks as int,
            ) by {
            let a = windows_of(before, user);
            let b = group_windows(groups@, user, start, gap_ticks as int);
            assert(a.push(whole) + b =~= a + (seq![whole] + b));
            assert(a + b =~= a + (Seq::<TrackWindow>::empty() + b));
        }
    }
    true
}

/// A kill can be shown where its ticks and its victim are known and above zero; a kill that
/// is told no tick of the demo has that of its event.
pub proof fn law_kills_with_ticks_can_be_shown(told: KillTold)
    ensures
        shown_kill(told) is Some <==> told.event_tick is Some && told.event_tick->0 > 0
            && told.victim_user_id is Some && told.victim_user_id->0 > 0 && (told.demo_tick is Some
            ==> told.demo_tick->0 > 0),
        shown_kill(told) matches Some(kill) ==> Some(kill.event_tick) == told.event_tick && Some(
            kill.victim_user_id,
        ) == told.victim_user_id && (told.demo_tick is Some ==> Some(kill.demo_tick)
            == told.demo_tick) && (told.demo_tick is None ==> kill.demo_tick == kill.event_tick),
{
}

proof fn lemma_noted(list: Seq<i64>, number: i64, other: i64)
    ensures
        noted(list, number).contains(number),
        list.contains(other) ==> noted(list, number).contains(other),
{
    if !list.contains(number) {
        assert(list.push(number)[list.len() as int] == number);
        if list.contains(other) {
            let k = choose|k: int| 0 <= k < list.len() && list[k] == other;
            assert(list.push(number)[k] == other);
        }
    }
}

proof fn lemma_grouped_kill(kills: Seq<KillSpec>, i: int)
    requires
        0 <= i < kills.len(),
    ensures
        demo_ticks(kills).contains(kills[i].demo_tick),
        events_at(kills, kills[i].demo_tick).contains(kills[i].event_tick),
        victims_at(kills, kills[i].demo_tick).contains(kills[i].victim_user_id),
    decreases kills.len(),
{
    let rest = kills.drop_last();
    let tick = kills[i].demo_tick;
    if i < rest.len() {
        assert(rest[i] == kills[i]);
        lemma_grouped_kill(rest, i);
    }
    lemma_noted(events_at(rest, tick), kills.last().event_tick, kills[i].event_tick);
    lemma_noted(victims_at(rest, tick), kills.last().victim_user_id, kills[i].victim_user_id);
}

/// Every kill stands in the group of its tick, with its event and its victim.
pub proof fn law_kills_stand_in_their_group(groups: Seq<KillGroup>, kills: Seq<KillSpec>, i: int)
    requires
        are_groups(groups, kills),
        0 <= i < kills.len(),
    ensures
        exists|g: int|
            #![trigger groups[g]]
            0 <= g < groups.len() && groups[g].demo_tick == kills[i].demo_tick
                && groups[g].event_ticks@.contains(kills[i].event_tick)
                && groups[g].victim_user_ids@.contains(kills[i].victim_user_id),
{
    lemma_grouped_kill(kills, i);
    let ticks = group_ticks(groups);
    assert(ticks.to_set().contains(kills[i].demo_tick));
    let g = choose|g: int| 0 <= g < ticks.len() && ticks[g] == kills[i].demo_tick;
    assert(groups_at(groups[g], kills));
}

/// Players are followed from two ticks after the start of a clip.
pub proof fn law_players_are_followed_from_the_start(clip_start: i64)
    requires
        0 <= clip_start <= i64::MAX - 2,
    ensures
        follow_from(clip_start) == clip_start + 2,
{
}

proof fn lemma_followed_victim(victims: Seq<i64>, v: int, window: TrackWindow)
    requires
        0 <= v < victims.len(),
    ensures
        victim_windows(victims, victims[v], window).contains(window),
    decreases victims.len(),
{
    let before = victim_windows(victims.drop_last(), victims[v], window);
    let out = victim_windows(victims, victims[v], window);
    if v < victims.len() - 1 {
        assert(victims.drop_last()[v] == victims[v]);
        lemma_followed_victim(victims.drop_last(), v, window);
        let k = choose|k: int| 0 <= k < before.len() && before[k] == window;
        assert(out[k] == window);
    } else {
        assert(out[before.len() as int] == window);
    }
}

/// A victim is followed until some ticks after each of their deaths.
pub proof fn law_victims_are_followed(
    groups: Seq<KillGroup>,
    g: int,
    v: int,
    attacker: i64,
    start: i64,
    gap: int,
) -> (at: int)
    requires
        0 <= g < groups.len(),
        0 <= v < groups[g].victim_user_ids.len(),
        i64::MIN <= groups[g].demo_tick + gap <= i64::MAX,
    ensures
        ({
            let asked = asked_windows(
                groups,
                attacker,
                groups[g].victim_user_ids@[v],
                start,
                gap,
            );
            0 <= at < asked.len() && asked[at].start_tick == start && asked[at].end_tick
                == groups[g].demo_tick + gap
        }),
{
    let user = groups[g].victim_user_ids@[v];
    let window = TrackWindow { start_tick: start, end_tick: held(groups[g].demo_tick + gap) };
    lemma_group_followed(groups, g, v, start, gap);
    let own = group_windows(groups, user, start, gap);
    let k = choose|k: int| 0 <= k < own.len() && own[k] == window;
    let asked = asked_windows(groups, attacker, user, start, gap);
    let at = asked.len() - own.len() + k;
    assert(asked[at] == window);
    at
}

proof fn lemma_group_followed(groups: Seq<KillGroup>, g: int, v: int, start: i64, gap: int)
    requires
        0 <= g < groups.len(),
        0 <= v < groups[g].victim_user_ids.len(),
    ensures
        group_windows(groups, groups[g].victim_user_ids@[v], start, gap).contains(
            TrackWindow { start_tick: start, end_tick: held(groups[g].demo_tick + gap) },
        ),
    decreases groups.len(),
{
    let user = groups[g].victim_user_ids@[v];
    let window = TrackWindow { start_tick: start, end_tick: held(groups[g].demo_tick + gap) };
    let rest = groups.drop_last();
    let before = group_windows(rest, user, start, gap);
    let out = group_windows(groups, user, start, gap);
    if g < rest.len() {
        assert(rest[g] == groups[g]);
        lemma_group_followed(rest, g, v, start, gap);
        let k = choose|k: int| 0 <= k < before.len() && before[k] == window;
        assert(out[k] == window);
    } else {
        let own = victim_windows(groups[g].victim_user_ids@, user, window);
        lemma_followed_victim(groups[g].victim_user_ids@, v, window);
        let k = choose|k: int| 0 <= k < own.len() && own[k] == window;
        assert(out[before.len() + k] == window);
    }
}

/// The attacker is followed until some ticks after the last kill.
pub proof fn law_attackers_are_followed(
    groups: Seq<KillGroup>,
    attacker: i64,
    start: i64,
    gap: int,
)
    requires
        groups.len() > 0,
        i64::MIN <= groups.last().demo_tick + gap <= i64::MAX,
    ensures
        asked_windows(groups, attacker, attacker, start, gap).len() > 0,
        asked_windows(groups, attacker, attacker, start, gap)[0].start_tick == start,
        asked_windows(groups, attacker, attacker, start, gap)[0].end_tick == groups.last().demo_tick
            + gap,
{
}

} // verus!
