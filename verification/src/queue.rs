//! The playbacks of a batch: which demo is played when, and which clips are
//! recorded in it.
use vstd::prelude::*;
use crate::arrange::{arrange, in_order, law_order_keeps_all, Ranked};
use crate::clips::{
    index_lists, law_passes_record_every_window, partition_recording_windows, passes_of,
    rising_pass, taken_by,
};
use crate::order::{lex_less, text_less};
use crate::text::{same_text, views};

verus! {

/// Whether a path, by its parts, comes before another.
pub open spec fn path_less(a: Seq<Seq<char>>, b: Seq<Seq<char>>) -> bool
    decreases a.len(),
{
    if b.len() == 0 {
        false
    } else if a.len() == 0 {
        true
    } else if a[0] == b[0] {
        path_less(a.skip(1), b.skip(1))
    } else {
        lex_less(a[0], b[0])
    }
}

/// Whether one path comes before another.
pub fn path_before(a: &Vec<String>, b: &Vec<String>) -> (r: bool)
    ensures
        r == path_less(views(a@), views(b@)),
{
    let ghost left = views(a@);
    let ghost right = views(b@);
    let mut i: usize = 0;
    assert(left.skip(0) =~= left && right.skip(0) =~= right);
    while i < a.len() && i < b.len()
        invariant
            i <= a.len(),
            i <= b.len(),
            left == views(a@),
            right == views(b@),
            path_less(left, right) == path_less(left.skip(i as int), right.skip(i as int)),
        decreases a.len() - i,
    {
        proof {
            assert(left.skip(i as int)[0] == a@[i as int]@);
            assert(right.skip(i as int)[0] == b@[i as int]@);
            assert(left.skip(i as int).skip(1) =~= left.skip(i + 1));
            assert(right.skip(i as int).skip(1) =~= right.skip(i + 1));
        }
        if !same_text(a[i].as_str(), b[i].as_str()) {
            return text_less(a[i].as_str(), b[i].as_str());
        }
        i += 1;
    }
    i < b.len()
}

/// Whether two paths are one.
pub fn same_path(a: &Vec<String>, b: &Vec<String>) -> (r: bool)
    ensures
        r == (views(a@) == views(b@)),
{
    if a.len() != b.len() {
        assert(views(a@).len() != views(b@).len());
        return false;
    }
    let mut i: usize = 0;
    while i < a.len()
        invariant
            i <= a.len(),
            a.len() == b.len(),
            forall|k: int| 0 <= k < i ==> views(a@)[k] == #[trigger] views(b@)[k],
        decreases a.len() - i,
    {
        assert(views(a@)[i as int] == a@[i as int]@ && views(b@)[i as int] == b@[i as int]@);
        if !same_text(a[i].as_str(), b[i].as_str()) {
            return false;
        }
        i += 1;
    }
    assert(views(a@) =~= views(b@));
    true
}

/// The path of a demo, where the demo is there.
pub open spec fn demo_of(source: Option<Vec<String>>) -> Option<Seq<Seq<char>>> {
    match source {
        Some(parts) => Some(views(parts@)),
        None => None,
    }
}

/// A demo put among others, in order, unless it is there.
pub open spec fn demo_added(demos: Seq<Seq<Seq<char>>>, demo: Seq<Seq<char>>) -> Seq<Seq<Seq<char>>>
    decreases demos.len(),
{
    if demos.len() == 0 {
        seq![demo]
    } else if demos[0] == demo {
        demos
    } else if path_less(demo, demos[0]) {
        seq![demo] + demos
    } else {
        seq![demos[0]] + demo_added(demos.skip(1), demo)
    }
}

/// The demos of the first sources, each once, in order.
pub open spec fn demos_of(sources: Seq<Option<Vec<String>>>, upto: int) -> Seq<Seq<Seq<char>>>
    decreases upto,
{
    if upto <= 0 {
        Seq::empty()
    } else {
        let before = demos_of(sources, upto - 1);
        match demo_of(sources[upto - 1]) {
            Some(demo) => demo_added(before, demo),
            None => before,
        }
    }
}

/// A clip of a demo, by its position and its window.
#[derive(Clone, Copy, Debug)]
pub struct TimedClip {
    pub at: usize,
    pub start: i64,
    pub end: i64,
}

impl Ranked for TimedClip {
    open spec fn before(self, other: Self) -> bool {
        self.start < other.start
    }

    proof fn before_orders(a: Self, b: Self, c: Self) {
    }

    fn comes_before(&self, other: &Self) -> (r: bool) {
        self.start < other.start
    }
}

/// The clips of a demo among the first.
pub open spec fn clips_of_demo(
    sources: Seq<Option<Vec<String>>>,
    windows: Seq<(i64, i64)>,
    demo: Seq<Seq<char>>,
    upto: int,
) -> Seq<TimedClip>
    decreases upto,
{
    if upto <= 0 {
        Seq::empty()
    } else {
        let before = clips_of_demo(sources, windows, demo, upto - 1);
        if demo_of(sources[upto - 1]) == Some(demo) {
            before.push(
                TimedClip {
                    at: (upto - 1) as usize,
                    start: windows[upto - 1].0,
                    end: windows[upto - 1].1,
                },
            )
        } else {
            before
        }
    }
}

/// The windows of clips.
pub open spec fn timed_windows(clips: Seq<TimedClip>) -> Seq<(i64, i64)> {
    Seq::new(clips.len(), |i: int| (clips[i].start, clips[i].end))
}

/// A playback of a demo, and the clips that are recorded in it, by position.
#[derive(Debug)]
pub struct Playback {
    pub demo: Vec<String>,
    pub clips: Vec<usize>,
}

/// A playback, with its texts as sequences.
pub struct PlaybackModel {
    pub demo: Seq<Seq<char>>,
    pub clips: Seq<int>,
}

impl Playback {
    /// The playback, with its texts as sequences.
    pub open spec fn model(&self) -> PlaybackModel {
        PlaybackModel {
            demo: views(self.demo@),
            clips: Seq::new(self.clips@.len(), |k: int| self.clips@[k] as int),
        }
    }
}

/// The playbacks, with their texts as sequences.
pub open spec fn playback_models(list: Seq<Playback>) -> Seq<PlaybackModel> {
    Seq::new(list.len(), |i: int| list[i].model())
}

/// The clips of a pass.
pub open spec fn pass_clips(clips: Seq<TimedClip>, pass: Seq<int>) -> Seq<int> {
    Seq::new(pass.len(), |k: int| clips[pass[k]].at as int)
}

/// The playbacks that a demo needs.
pub open spec fn playbacks_of(demo: Seq<Seq<char>>, clips: Seq<TimedClip>) -> Seq<PlaybackModel> {
    let passes = passes_of(timed_windows(clips)).windows;
    Seq::new(
        passes.len(),
        |p: int| PlaybackModel { demo, clips: pass_clips(clips, passes[p]) },
    )
}

/// The playbacks that the first demos need.
pub open spec fn queue_of(
    demos: Seq<Seq<Seq<char>>>,
    sources: Seq<Option<Vec<String>>>,
    windows: Seq<(i64, i64)>,
    upto: int,
) -> Seq<PlaybackModel>
    decreases upto,
{
    if upto <= 0 {
        Seq::empty()
    } else {
        queue_of(demos, sources, windows, upto - 1) + playbacks_of(
            demos[upto - 1],
            in_order(clips_of_demo(sources, windows, demos[upto - 1], sources.len() as int)),
        )
    }
}

/// The playbacks of a batch: demo by demo, in order, each as often as it takes to
/// record all of its clips.
pub open spec fn queued(sources: Seq<Option<Vec<String>>>, windows: Seq<(i64, i64)>) -> Seq<
    PlaybackModel,
> {
    let demos = demos_of(sources, sources.len() as int);
    queue_of(demos, sources, windows, demos.len() as int)
}

/// Whether a playback of a list records a clip.
pub open spec fn records(list: Seq<PlaybackModel>, clip: int) -> bool {
    exists|p: int| 0 <= p < list.len() && (#[trigger] list[p]).clips.contains(clip)
}

/// The paths of demos.
pub open spec fn path_views(list: Seq<Vec<String>>) -> Seq<Seq<Seq<char>>> {
    Seq::new(list.len(), |i: int| views(list[i]@))
}

fn copy_path(path: &Vec<String>) -> (out: Vec<String>)
    ensures
        views(out@) == views(path@),
{
    crate::text::clone_list(path)
}

proof fn lemma_added_at(demos: Seq<Seq<Seq<char>>>, demo: Seq<Seq<char>>, at: int)
    requires
        0 <= at <= demos.len(),
        at == demos.len() || path_less(demo, demos[at]),
        forall|k: int|
            0 <= k < at ==> #[trigger] demos[k] != demo && !path_less(demo, demos[k]),
        at < demos.len() ==> demos[at] != demo,
    ensures
        demo_added(demos, demo) == demos.insert(at, demo),
    decreases at,
{
    if at == 0 {
        assert(demo_added(demos, demo) =~= demos.insert(0, demo));
    } else {
        let rest = demos.skip(1);
        assert(demos[0] != demo && !path_less(demo, demos[0]));
        assert forall|k: int| 0 <= k < at - 1 implies #[trigger] rest[k] != demo && !path_less(
            demo,
            rest[k],
        ) by {
            assert(demos[k + 1] != demo && !path_less(demo, demos[k + 1]));
        }
        lemma_added_at(rest, demo, at - 1);
        assert(seq![demos[0]] + rest.insert(at - 1, demo) =~= demos.insert(at, demo));
    }
}

proof fn lemma_added_known(demos: Seq<Seq<Seq<char>>>, demo: Seq<Seq<char>>, at: int)
    requires
        0 <= at < demos.len(),
        demos[at] == demo,
        forall|k: int|
            0 <= k < at ==> #[trigger] demos[k] != demo && !path_less(demo, demos[k]),
    ensures
        demo_added(demos, demo) == demos,
    decreases at,
{
    if at > 0 {
        let rest = demos.skip(1);
        assert(demos[0] != demo && !path_less(demo, demos[0]));
        assert forall|k: int| 0 <= k < at - 1 implies #[trigger] rest[k] != demo && !path_less(
            demo,
            rest[k],
        ) by {
            assert(demos[k + 1] != demo && !path_less(demo, demos[k + 1]));
        }
        lemma_added_known(rest, demo, at - 1);
        assert(seq![demos[0]] + rest =~= demos);
    }
}

fn add_demo(demos: &mut Vec<Vec<String>>, demo: &Vec<String>)
    ensures
        path_views(final(demos)@) == demo_added(path_views(old(demos)@), views(demo@)),
{
    let ghost before = path_views(demos@);
    let ghost wanted = views(demo@);
    let mut i: usize = 0;
    while i < demos.len()
        invariant
            i <= demos.len(),
            before == path_views(demos@),
            wanted == views(demo@),
            *demos == *old(demos),
            forall|k: int|
                0 <= k < i ==> #[trigger] before[k] != wanted && !path_less(wanted, before[k]),
        decreases demos.len() - i,
    {
        assert(before[i as int] == views(demos@[i as int]@));
        if same_path(&demos[i], demo) {
            proof {
                lemma_added_known(before, wanted, i as int);
            }
            return ;
        }
        if path_before(demo, &demos[i]) {
            proof {
                lemma_added_at(before, wanted, i as int);
            }
            demos.insert(i, copy_path(demo));
            assert(path_views(demos@) =~= before.insert(i as int, wanted));
            return ;
        }
        i += 1;
    }
    proof {
        lemma_added_at(before, wanted, i as int);
    }
    demos.push(copy_path(demo));
    assert(path_views(demos@) =~= before.insert(i as int, wanted));
}

fn list_demos(sources: &Vec<Option<Vec<String>>>) -> (out: Vec<Vec<String>>)
    ensures
        path_views(out@) == demos_of(sources@, sources.len() as int),
{
    let mut out: Vec<Vec<String>> = Vec::new();
    let mut i: usize = 0;
    assert(path_views(out@) =~= Seq::empty());
    while i < sources.len()
        invariant
            i <= sources.len(),
            path_views(out@) == demos_of(sources@, i as int),
        decreases sources.len() - i,
    {
        if let Some(demo) = &sources[i] {
            add_demo(&mut out, demo);
        }
        i += 1;
    }
    out
}

fn list_clips(
    sources: &Vec<Option<Vec<String>>>,
    windows: &Vec<(i64, i64)>,
    demo: &Vec<String>,
) -> (out: Vec<TimedClip>)
    requires
        windows.len() == sources.len(),
    ensures
        out@ == clips_of_demo(sources@, windows@, views(demo@), sources.len() as int),
{
    let mut out: Vec<TimedClip> = Vec::new();
    let mut i: usize = 0;
    assert(out@ =~= Seq::empty());
    while i < sources.len()
        invariant
            i <= sources.len(),
            windows.len() == sources.len(),
            out@ == clips_of_demo(sources@, windows@, views(demo@), i as int),
        decreases sources.len() - i,
    {
        if let Some(source) = &sources[i] {
            if same_path(source, demo) {
                let window = windows[i];
                out.push(TimedClip { at: i, start: window.0, end: window.1 });
            }
        }
        i += 1;
    }
    out
}

fn list_timed_windows(clips: &Vec<TimedClip>) -> (out: Vec<(i64, i64)>)
    ensures
        out@ == timed_windows(clips@),
{
    let mut out: Vec<(i64, i64)> = Vec::new();
    let mut i: usize = 0;
    while i < clips.len()
        invariant
            i <= clips.len(),
            out@ == timed_windows(clips@).take(i as int),
        decreases clips.len() - i,
    {
        out.push((clips[i].start, clips[i].end));
        assert(timed_windows(clips@).take(i + 1) =~= timed_windows(clips@).take(i as int).push(
            timed_windows(clips@)[i as int],
        ));
        i += 1;
    }
    assert(timed_windows(clips@).take(clips.len() as int) =~= timed_windows(clips@));
    out
}

fn list_pass(clips: &Vec<TimedClip>, pass: &Vec<usize>) -> (out: Vec<usize>)
    requires
        forall|k: int| 0 <= k < pass.len() ==> #[trigger] pass@[k] < clips.len(),
    ensures
        Seq::new(out@.len(), |k: int| out@[k] as int) == pass_clips(
            clips@,
            Seq::new(pass@.len(), |k: int| pass@[k] as int),
        ),
{
    let mut out: Vec<usize> = Vec::new();
    let mut i: usize = 0;
    while i < pass.len()
        invariant
            i <= pass.len(),
            out.len() == i,
            forall|k: int| 0 <= k < pass.len() ==> #[trigger] pass@[k] < clips.len(),
            forall|k: int| 0 <= k < i ==> #[trigger] out@[k] == clips@[pass@[k] as int].at,
        decreases pass.len() - i,
    {
        out.push(clips[pass[i]].at);
        i += 1;
    }
    assert(Seq::new(out@.len(), |k: int| out@[k] as int) =~= pass_clips(
        clips@,
        Seq::new(pass@.len(), |k: int| pass@[k] as int),
    ));
    out
}

fn add_playbacks(list: &mut Vec<Playback>, demo: &Vec<String>, clips: &Vec<TimedClip>)
    ensures
        playback_models(final(list)@) == playback_models(old(list)@) + playbacks_of(
            views(demo@),
            clips@,
        ),
{
    let windows = list_timed_windows(clips);
    let passes = partition_recording_windows(&windows);
    let ghost before = playback_models(list@);
    let ghost all = playbacks_of(views(demo@), clips@);
    let ghost plan = passes_of(timed_windows(clips@)).windows;
    proof {
        law_passes_record_every_window(timed_windows(clips@));
    }
    let mut i: usize = 0;
    assert(before + all.take(0) =~= before);
    while i < passes.len()
        invariant
            i <= passes.len(),
            plan == passes_of(timed_windows(clips@)).windows,
            index_lists(passes@) == plan,
            all == playbacks_of(views(demo@), clips@),
            forall|p: int|
                0 <= p < plan.len() ==> rising_pass(#[trigger] plan[p], clips.len() as int),
            playback_models(list@) == before + all.take(i as int),
        decreases passes.len() - i,
    {
        let ghost so_far = playback_models(list@);
        proof {
            assert(index_lists(passes@)[i as int] == plan[i as int]);
            assert(rising_pass(plan[i as int], clips.len() as int));
            assert forall|k: int| 0 <= k < passes@[i as int].len() implies #[trigger] passes@[i as int]@[k]
                < clips.len() by {
                assert(plan[i as int][k] == passes@[i as int]@[k]);
            }
        }
        let taken = list_pass(clips, &passes[i]);
        let playback = Playback { demo: copy_path(demo), clips: taken };
        let ghost model = playback.model();
        list.push(playback);
        proof {
            assert(model.clips =~= all[i as int].clips);
            assert(model == all[i as int]);
            assert(playback_models(list@) =~= so_far.push(model));
            assert(before + all.take(i + 1) =~= (before + all.take(i as int)).push(all[i as int]));
        }
        i += 1;
    }
    assert(all.take(passes.len() as int) =~= all);
}

/// The playbacks of a batch, where the windows of the clips are known.
pub fn queue_playbacks(sources: &Vec<Option<Vec<String>>>, windows: &Vec<(i64, i64)>) -> (out: Vec<
    Playback,
>)
    requires
        windows.len() == sources.len(),
    ensures
        playback_models(out@) == queued(sources@, windows@),
{
    let demos = list_demos(sources);
    let ghost all = path_views(demos@);
    let mut out: Vec<Playback> = Vec::new();
    let mut i: usize = 0;
    assert(playback_models(out@) =~= Seq::empty());
    while i < demos.len()
        invariant
            i <= demos.len(),
            windows.len() == sources.len(),
            all == path_views(demos@),
            playback_models(out@) == queue_of(all, sources@, windows@, i as int),
        decreases demos.len() - i,
    {
        assert(all[i as int] == views(demos@[i as int]@));
        let clips = arrange(list_clips(sources, windows, &demos[i]));
        add_playbacks(&mut out, &demos[i], &clips);
        i += 1;
    }
    out
}

proof fn lemma_demo_listed(sources: Seq<Option<Vec<String>>>, upto: int, i: int)
    requires
        0 <= i < upto <= sources.len(),
        demo_of(sources[i]) is Some,
    ensures
        demos_of(sources, upto).contains(demo_of(sources[i])->0),
    decreases upto,
{
    let before = demos_of(sources, upto - 1);
    let demo = demo_of(sources[i])->0;
    if i < upto - 1 {
        lemma_demo_listed(sources, upto - 1, i);
        if let Some(next) = demo_of(sources[upto - 1]) {
            lemma_added_keeps(before, next);
        }
    } else {
        lemma_added_keeps(before, demo);
    }
}

proof fn lemma_added_keeps(demos: Seq<Seq<Seq<char>>>, demo: Seq<Seq<char>>)
    ensures
        demo_added(demos, demo).contains(demo),
        forall|d: Seq<Seq<char>>| demos.contains(d) ==> #[trigger] demo_added(demos, demo).contains(d),
    decreases demos.len(),
{
    let out = demo_added(demos, demo);
    if demos.len() == 0 {
        assert(out[0] == demo);
    } else if demos[0] == demo {
        assert(out[0] == demo);
    } else if path_less(demo, demos[0]) {
        assert(out[0] == demo);
        assert forall|d: Seq<Seq<char>>| demos.contains(d) implies #[trigger] out.contains(d) by {
            let k = choose|k: int| 0 <= k < demos.len() && demos[k] == d;
            assert(out[k + 1] == d);
        }
    } else {
        let rest = demos.skip(1);
        lemma_added_keeps(rest, demo);
        let tail = demo_added(rest, demo);
        let at = choose|k: int| 0 <= k < tail.len() && tail[k] == demo;
        assert(out[at + 1] == demo);
        assert forall|d: Seq<Seq<char>>| demos.contains(d) implies #[trigger] out.contains(d) by {
            let k = choose|k: int| 0 <= k < demos.len() && demos[k] == d;
            if k == 0 {
                assert(out[0] == d);
            } else {
                assert(rest[k - 1] == d);
                assert(rest.contains(d));
                assert(tail.contains(d));
                let m = choose|m: int| 0 <= m < tail.len() && tail[m] == d;
                assert(out[m + 1] == d);
            }
        }
    }
}

proof fn lemma_clip_listed(
    sources: Seq<Option<Vec<String>>>,
    windows: Seq<(i64, i64)>,
    upto: int,
    i: int,
)
    requires
        0 <= i < upto <= sources.len(),
        upto <= usize::MAX,
        demo_of(sources[i]) is Some,
    ensures
        exists|k: int|
            0 <= k < clips_of_demo(sources, windows, demo_of(sources[i])->0, upto).len() && (
            #[trigger] clips_of_demo(sources, windows, demo_of(sources[i])->0, upto)[k]).at == i,
    decreases upto,
{
    let demo = demo_of(sources[i])->0;
    let before = clips_of_demo(sources, windows, demo, upto - 1);
    let after = clips_of_demo(sources, windows, demo, upto);
    if i < upto - 1 {
        lemma_clip_listed(sources, windows, upto - 1, i);
        let k = choose|k: int| 0 <= k < before.len() && (#[trigger] before[k]).at == i;
        assert(after[k] == before[k]);
    } else {
        assert(after[after.len() - 1].at == i);
    }
}

proof fn lemma_taken_somewhere(passes: Seq<Seq<int>>, index: int)
    requires
        taken_by(passes, index) >= 1,
    ensures
        exists|p: int| 0 <= p < passes.len() && (#[trigger] passes[p]).contains(index),
    decreases passes.len(),
{
    if !passes.last().contains(index) {
        lemma_taken_somewhere(passes.drop_last(), index);
        let p = choose|p: int|
            0 <= p < passes.drop_last().len() && (#[trigger] passes.drop_last()[p]).contains(index);
        assert(passes[p].contains(index));
    } else {
        assert(passes[passes.len() - 1].contains(index));
    }
}

proof fn lemma_queue_holds(
    demos: Seq<Seq<Seq<char>>>,
    sources: Seq<Option<Vec<String>>>,
    windows: Seq<(i64, i64)>,
    upto: int,
    d: int,
    clip: int,
)
    requires
        0 <= d < upto <= demos.len(),
        records(
            playbacks_of(
                demos[d],
                in_order(clips_of_demo(sources, windows, demos[d], sources.len() as int)),
            ),
            clip,
        ),
    ensures
        records(queue_of(demos, sources, windows, upto), clip),
    decreases upto,
{
    let before = queue_of(demos, sources, windows, upto - 1);
    let own = playbacks_of(
        demos[upto - 1],
        in_order(clips_of_demo(sources, windows, demos[upto - 1], sources.len() as int)),
    );
    let all = queue_of(demos, sources, windows, upto);
    if d < upto - 1 {
        lemma_queue_holds(demos, sources, windows, upto - 1, d, clip);
        let p = choose|p: int| 0 <= p < before.len() && (#[trigger] before[p]).clips.contains(clip);
        assert(all[p] == before[p]);
    } else {
        let p = choose|p: int| 0 <= p < own.len() && (#[trigger] own[p]).clips.contains(clip);
        assert(all[before.len() + p] == own[p]);
    }
}

/// Every clip whose demo is there is recorded in some playback.
pub proof fn law_every_clip_is_played(
    sources: Seq<Option<Vec<String>>>,
    windows: Seq<(i64, i64)>,
    clip: int,
)
    requires
        windows.len() == sources.len(),
        sources.len() <= usize::MAX,
        0 <= clip < sources.len(),
        sources[clip] is Some,
    ensures
        records(queued(sources, windows), clip),
{
    broadcast use vstd::seq_lib::group_to_multiset_ensures;

    let demo = demo_of(sources[clip])->0;
    let demos = demos_of(sources, sources.len() as int);
    lemma_demo_listed(sources, sources.len() as int, clip);
    let d = choose|d: int| 0 <= d < demos.len() && demos[d] == demo;
    let listed = clips_of_demo(sources, windows, demo, sources.len() as int);
    lemma_clip_listed(sources, windows, sources.len() as int, clip);
    let k = choose|k: int| 0 <= k < listed.len() && (#[trigger] listed[k]).at == clip;
    let item = listed[k];
    let clips = in_order(listed);
    law_order_keeps_all(listed);
    assert(listed.contains(item));
    assert(listed.to_multiset().count(item) > 0);
    assert(clips.to_multiset().count(item) > 0);
    assert(clips.contains(item));
    let m = choose|m: int| 0 <= m < clips.len() && clips[m] == item;
    let passes = passes_of(timed_windows(clips)).windows;
    law_passes_record_every_window(timed_windows(clips));
    assert(taken_by(passes, m) == 1);
    lemma_taken_somewhere(passes, m);
    let p = choose|p: int| 0 <= p < passes.len() && (#[trigger] passes[p]).contains(m);
    let q = choose|q: int| 0 <= q < passes[p].len() && passes[p][q] == m;
    let own = playbacks_of(demo, clips);
    assert(own[p].clips[q] == clip);
    assert(own[p].clips.contains(clip));
    assert(records(own, clip));
    lemma_queue_holds(demos, sources, windows, demos.len() as int, d, clip);
}

proof fn lemma_listed_clips(
    sources: Seq<Option<Vec<String>>>,
    windows: Seq<(i64, i64)>,
    demo: Seq<Seq<char>>,
    upto: int,
    k: int,
)
    requires
        0 <= upto <= sources.len() <= usize::MAX,
        0 <= k < clips_of_demo(sources, windows, demo, upto).len(),
    ensures
        clips_of_demo(sources, windows, demo, upto)[k].at < upto,
        demo_of(sources[clips_of_demo(sources, windows, demo, upto)[k].at as int]) == Some(demo),
        clips_of_demo(sources, windows, demo, upto)[k].start == windows[clips_of_demo(
            sources,
            windows,
            demo,
            upto,
        )[k].at as int].0,
    decreases upto,
{
    if upto > 0 {
        let before = clips_of_demo(sources, windows, demo, upto - 1);
        if k < before.len() {
            lemma_listed_clips(sources, windows, demo, upto - 1, k);
        }
    }
}

proof fn lemma_queued_from(
    demos: Seq<Seq<Seq<char>>>,
    sources: Seq<Option<Vec<String>>>,
    windows: Seq<(i64, i64)>,
    upto: int,
    p: int,
) -> (place: (int, int))
    requires
        0 <= upto <= demos.len(),
        0 <= p < queue_of(demos, sources, windows, upto).len(),
    ensures
        ({
            let own = playbacks_of(
                demos[place.0],
                in_order(
                    clips_of_demo(sources, windows, demos[place.0], sources.len() as int),
                ),
            );
            0 <= place.0 < upto && 0 <= place.1 < own.len() && queue_of(
                demos,
                sources,
                windows,
                upto,
            )[p] == own[place.1]
        }),
    decreases upto,
{
    let before = queue_of(demos, sources, windows, upto - 1);
    if p < before.len() {
        lemma_queued_from(demos, sources, windows, upto - 1, p)
    } else {
        (upto - 1, p - before.len())
    }
}

/// A playback records clips of its own demo alone.
pub proof fn law_playbacks_keep_to_their_demo(
    sources: Seq<Option<Vec<String>>>,
    windows: Seq<(i64, i64)>,
    p: int,
    k: int,
)
    requires
        windows.len() == sources.len(),
        sources.len() <= usize::MAX,
        0 <= p < queued(sources, windows).len(),
        0 <= k < queued(sources, windows)[p].clips.len(),
    ensures
        0 <= queued(sources, windows)[p].clips[k] < sources.len(),
        demo_of(sources[queued(sources, windows)[p].clips[k]]) == Some(
            queued(sources, windows)[p].demo,
        ),
{
    broadcast use vstd::seq_lib::group_to_multiset_ensures;

    let demos = demos_of(sources, sources.len() as int);
    let (d, q) = lemma_queued_from(demos, sources, windows, demos.len() as int, p);
    let listed = clips_of_demo(sources, windows, demos[d], sources.len() as int);
    let clips = in_order(listed);
    law_order_keeps_all(listed);
    let passes = passes_of(timed_windows(clips)).windows;
    law_passes_record_every_window(timed_windows(clips));
    assert(rising_pass(passes[q], clips.len() as int));
    let item = clips[passes[q][k]];
    assert(clips.contains(item));
    assert(clips.to_multiset().count(item) > 0);
    assert(listed.to_multiset().count(item) > 0);
    assert(listed.contains(item));
    let m = choose|m: int| 0 <= m < listed.len() && listed[m] == item;
    lemma_listed_clips(sources, windows, demos[d], sources.len() as int, m);
}

} // verus!
