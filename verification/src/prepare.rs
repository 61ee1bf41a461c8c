//! The clips of a batch before they are recorded: what each is called, and where
//! it goes.
use vstd::prelude::*;
use vstd::seq_lib::seq_to_set_is_finite;
use vstd::set_lib::lemma_len_subset;
use crate::clips::{
    candidate_output_category, clip_window, sanitize, sanitized, title_of, window_end, window_fits,
    window_start,
};
use crate::encoding::{encoded_extension, extension_for, optional};
use crate::hashes::{key_of, recording_key, recording_key_token, token_of};
use crate::models::Candidate;
use crate::number::{i64_text, int_text, law_written_numbers_read_back, u64_text};
use crate::settings::AppSettings;
use crate::text::{
    begins_with, contains_text, has_text, list_contains, same_text, starts_with, trim, trimmed,
    views,
};
use crate::vdm::{three_digit_text, three_digits};

verus! {

/// How the names of recording sessions begin.
pub open spec fn session_prefix() -> Seq<char> {
    "tf2fragdemohelper_batch_"@
}

/// The path of something in a folder.
pub open spec fn below(folder: Seq<char>, name: Seq<char>, separator: char) -> Seq<char> {
    if folder.len() == 0 {
        name
    } else if folder.last() == separator || folder.last() == '/' {
        folder + name
    } else {
        folder.push(separator) + name
    }
}

/// The path of something in a folder.
pub fn path_below(folder: &str, name: &str, separator: char) -> (out: String)
    ensures
        out@ == below(folder@, name@, separator),
{
    let n: usize = folder.unicode_len();
    let mut out = folder.to_owned();
    if n > 0 {
        let last = folder.get_char(n - 1);
        if last != separator && last != '/' {
            out.push(separator);
        }
        out.append(name);
        out
    } else {
        proof {
            assert(folder@ =~= Seq::empty());
        }
        name.to_owned()
    }
}

proof fn lemma_below_differs(folder: Seq<char>, a: Seq<char>, b: Seq<char>, separator: char)
    requires
        below(folder, a, separator) == below(folder, b, separator),
    ensures
        a == b,
{
    if folder.len() > 0 {
        let head = if folder.last() == separator || folder.last() == '/' {
            folder
        } else {
            folder.push(separator)
        };
        assert((head + a).skip(head.len() as int) =~= a);
        assert((head + b).skip(head.len() as int) =~= b);
    }
}

// ---------------------------------------------------------------------------
// Names that nothing else has
// ---------------------------------------------------------------------------

/// A name with a number behind it, from the second use on.
pub open spec fn numbered(base: Seq<char>, n: int) -> Seq<char> {
    if n == 1 {
        base
    } else {
        base + "_"@ + int_text(n)
    }
}

/// What is known of where recordings go.
#[derive(Debug)]
pub struct OutputFolder {
    /// The folder of all recordings.
    pub root: String,
    pub separator: char,
    pub encoded: bool,
    pub extension: String,
    /// The paths that are there already.
    pub taken: Vec<String>,
}

impl OutputFolder {
    /// Where a recording of a category goes.
    pub open spec fn place(&self, category: Seq<char>, identifier: Seq<char>) -> Seq<char> {
        if self.encoded {
            below(
                below(below(self.root@, "Videos"@, self.separator), category, self.separator),
                identifier + "."@ + self.extension@,
                self.separator,
            )
        } else {
            below(
                below(self.root@, "Image Sequences"@, self.separator),
                identifier,
                self.separator,
            )
        }
    }

    /// Whether an identifier is free.
    pub open spec fn is_free(
        &self,
        category: Seq<char>,
        identifier: Seq<char>,
        reserved: Seq<Seq<char>>,
    ) -> bool {
        !views(self.taken@).contains(self.place(category, identifier)) && !reserved.contains(
            identifier,
        )
    }

    /// Whether a number is the first that makes a name free.
    pub open spec fn first_free(
        &self,
        category: Seq<char>,
        base: Seq<char>,
        reserved: Seq<Seq<char>>,
        n: int,
    ) -> bool {
        &&& n >= 1
        &&& self.is_free(category, numbered(base, n), reserved)
        &&& forall|m: int|
            1 <= m < n ==> !self.is_free(category, #[trigger] numbered(base, m), reserved)
    }

    /// Where a recording of a category goes.
    pub fn output_path(&self, category: &str, identifier: &str) -> (out: String)
        ensures
            out@ == self.place(category@, identifier@),
    {
        if self.encoded {
            let videos = path_below(self.root.as_str(), "Videos", self.separator);
            let folder = path_below(videos.as_str(), category, self.separator);
            let mut name = identifier.to_owned();
            name.append(".");
            name.append(self.extension.as_str());
            path_below(folder.as_str(), name.as_str(), self.separator)
        } else {
            let sequences = path_below(self.root.as_str(), "Image Sequences", self.separator);
            path_below(sequences.as_str(), identifier, self.separator)
        }
    }

    proof fn lemma_places_differ(&self, category: Seq<char>, base: Seq<char>, m: int, n: int)
        requires
            1 <= m,
            1 <= n,
            self.place(category, numbered(base, m)) == self.place(category, numbered(base, n)),
        ensures
            m == n,
    {
        let a = numbered(base, m);
        let b = numbered(base, n);
        let end = "."@ + self.extension@;
        if self.encoded {
            lemma_below_differs(
                below(below(self.root@, "Videos"@, self.separator), category, self.separator),
                a + "."@ + self.extension@,
                b + "."@ + self.extension@,
                self.separator,
            );
            assert(a + "."@ + self.extension@ =~= a + end);
            assert(b + "."@ + self.extension@ =~= b + end);
            assert((a + end).take(a.len() as int) =~= a);
            assert((b + end).take(b.len() as int) =~= b);
        } else {
            lemma_below_differs(
                below(self.root@, "Image Sequences"@, self.separator),
                a,
                b,
                self.separator,
            );
        }
        assert(a == b);
        lemma_numbered(base, m);
        lemma_numbered(base, n);
    }

    /// One of as many numbers as there are names in use, and one more, is free.
    proof fn lemma_some_number_is_free(
        &self,
        category: Seq<char>,
        base: Seq<char>,
        reserved: Seq<Seq<char>>,
        count: int,
    )
        requires
            count > self.taken.len() + reserved.len(),
        ensures
            exists|n: int|
                1 <= n <= count && self.is_free(category, #[trigger] numbered(base, n), reserved),
    {
        broadcast use seq_to_set_is_finite;

        if forall|n: int|
            1 <= n <= count ==> !self.is_free(category, #[trigger] numbered(base, n), reserved) {
            let places = Seq::new(
                count as nat,
                |i: int| self.place(category, numbered(base, i + 1)),
            );
            let used = views(self.taken@) + Seq::new(
                reserved.len(),
                |i: int| self.place(category, reserved[i]),
            );
            assert(places.no_duplicates()) by {
                assert forall|i: int, j: int|
                    0 <= i < places.len() && 0 <= j < places.len() && i != j implies places[i]
                    != places[j] by {
                    if places[i] == places[j] {
                        self.lemma_places_differ(category, base, i + 1, j + 1);
                    }
                }
            }
            assert(places.to_set().subset_of(used.to_set())) by {
                assert forall|x: Seq<char>| places.to_set().contains(x) implies used.to_set().contains(
                    x,
                ) by {
                    let i = choose|i: int| 0 <= i < places.len() && places[i] == x;
                    let name = numbered(base, i + 1);
                    assert(!self.is_free(category, name, reserved));
                    if views(self.taken@).contains(x) {
                        let k = choose|k: int|
                            0 <= k < views(self.taken@).len() && views(self.taken@)[k] == x;
                        assert(used[k] == x);
                    } else {
                        let k = choose|k: int| 0 <= k < reserved.len() && reserved[k] == name;
                        assert(used[views(self.taken@).len() + k] == x);
                    }
                }
            }
            places.unique_seq_to_set();
            used.lemma_cardinality_of_set();
            lemma_len_subset(places.to_set(), used.to_set());
            assert(false);
        }
    }
}

proof fn lemma_numbered(base: Seq<char>, n: int)
    requires
        n >= 1,
    ensures
        n == 1 ==> numbered(base, n).len() == base.len(),
        n > 1 ==> numbered(base, n).len() > base.len() && numbered(base, n).skip(
            base.len() as int + 1,
        ) == int_text(n),
        crate::number::int_of(int_text(n)) == Some(n),
{
    reveal_strlit("_");
    law_written_numbers_read_back(n);
    if n > 1 {
        assert(numbered(base, n).skip(base.len() as int + 1) =~= int_text(n));
    }
}

/// An identifier that neither a recording nor another clip of the batch has: the
/// base itself, or the base with the first number that makes it free.
pub fn unique_recording_identifier(
    folder: &OutputFolder,
    category: &str,
    base: &str,
    reserved: &Vec<String>,
) -> (out: String)
    requires
        folder.taken.len() + reserved.len() < usize::MAX,
    ensures
        folder.is_free(category@, out@, views(reserved@)),
        exists|n: int|
            #[trigger] folder.first_free(category@, base@, views(reserved@), n) && out@
                == numbered(base@, n),
{
    let ghost names = views(reserved@);
    let count: usize = folder.taken.len() + reserved.len() + 1;
    let mut n: usize = 1;
    loop
        invariant
            1 <= n <= count,
            names == views(reserved@),
            count == folder.taken.len() + reserved.len() + 1,
            forall|m: int|
                1 <= m < n ==> !folder.is_free(category@, #[trigger] numbered(base@, m), names),
        decreases count - n,
    {
        let identifier = if n == 1 {
            base.to_owned()
        } else {
            let mut text = base.to_owned();
            text.append("_");
            text.append(u64_text(n as u64).as_str());
            text
        };
        assert(identifier@ == numbered(base@, n as int));
        let path = folder.output_path(category, identifier.as_str());
        if !list_contains(&folder.taken, path.as_str()) && !list_contains(
            reserved,
            identifier.as_str(),
        ) {
            assert(folder.first_free(category@, base@, names, n as int));
            return identifier;
        }
        proof {
            folder.lemma_some_number_is_free(category@, base@, names, count as int);
            let free = choose|f: int|
                1 <= f <= count && folder.is_free(category@, #[trigger] numbered(base@, f), names);
            assert(n < free);
        }
        n += 1;
    }
}

/// The identifier of a clip depends only on its name and on the names in use.
pub proof fn law_identifier_is_unique(
    folder: OutputFolder,
    category: Seq<char>,
    base: Seq<char>,
    reserved: Seq<Seq<char>>,
    m: int,
    n: int,
)
    requires
        folder.first_free(category, base, reserved, m),
        folder.first_free(category, base, reserved, n),
    ensures
        m == n,
{
    if m < n {
        assert(!folder.is_free(category, numbered(base, m), reserved));
    }
    if n < m {
        assert(!folder.is_free(category, numbered(base, n), reserved));
    }
}

// ---------------------------------------------------------------------------
// Clips
// ---------------------------------------------------------------------------

/// A clip that is ready to be recorded.
#[derive(Debug)]
pub struct PreparedClip {
    pub order: usize,
    pub candidate_id: String,
    pub source_demo: String,
    pub attacker_user_id: i64,
    pub candidate_start_tick: i64,
    pub candidate_end_tick: i64,
    pub start_tick: i64,
    pub end_tick: i64,
    pub config_base: String,
    pub capture_base: String,
    pub recording_key: String,
    pub demo_signature: String,
    pub recording_identifier: String,
    pub working_path: Option<String>,
    pub final_output_path: String,
    pub frames_path: Option<String>,
    pub audio_path: Option<String>,
    pub replace_existing: bool,
}

/// What is known of the demo of a candidate.
#[derive(Debug)]
pub struct DemoSource {
    /// The name of the file, without its extension.
    pub stem: Option<String>,
    pub signature: String,
}

/// What a batch is prepared with.
#[derive(Debug)]
pub struct BatchPlan {
    pub session_name: String,
    pub session: String,
    pub replace_existing: bool,
    pub folder: OutputFolder,
}

/// The name of a candidate in names.
pub open spec fn candidate_name(id: Seq<char>) -> Seq<char> {
    if trimmed(id).len() == 0 {
        "candidate"@
    } else {
        sanitized(id)
    }
}

/// The name that the identifier of a clip is made of.
pub open spec fn identifier_base(
    candidate: Candidate,
    source: DemoSource,
    settings: AppSettings,
) -> Seq<char> {
    sanitized(
        match source.stem {
            Some(stem) => stem@,
            None => "demo"@,
        },
    ) + "__"@ + candidate_name(candidate.candidate_id@) + "__t"@ + int_text(
        window_start(candidate, settings),
    ) + "-"@ + int_text(window_end(candidate, settings)) + "__k"@ + token_of(
        key_of(candidate, source.signature@),
    )
}

impl PreparedClip {
    /// Whether this is the clip of a candidate, where some identifiers are in use.
    pub open spec fn prepares(
        &self,
        order: int,
        candidate: Candidate,
        source: DemoSource,
        settings: AppSettings,
        plan: BatchPlan,
        reserved: Seq<Seq<char>>,
    ) -> bool {
        let category = title_of(candidate.primary(), "Other"@);
        let sep = plan.folder.separator;
        let name = candidate_name(candidate.candidate_id@);
        &&& self.order == order
        &&& self.candidate_id@ == candidate.candidate_id@
        &&& self.source_demo@ == candidate.source_demo@
        &&& self.attacker_user_id == candidate.attacker_user_id
        &&& self.candidate_start_tick == candidate.clip_start_tick
        &&& self.candidate_end_tick == candidate.clip_end_tick
        &&& self.start_tick == window_start(candidate, settings)
        &&& self.end_tick == window_end(candidate, settings)
        &&& self.config_base@ == three_digits(order) + "_"@ + name + "_t"@ + int_text(
            candidate.clip_start_tick as int,
        ) + "-"@ + int_text(candidate.clip_end_tick as int)
        &&& self.capture_base@ == "tf2frag_"@ + plan.session_name@ + "_"@ + three_digits(order)
        &&& self.recording_key@ == key_of(candidate, source.signature@)
        &&& self.demo_signature@ == source.signature@
        &&& exists|n: int|
            #[trigger] plan.folder.first_free(
                category,
                identifier_base(candidate, source, settings),
                reserved,
                n,
            ) && self.recording_identifier@ == numbered(
                identifier_base(candidate, source, settings),
                n,
            )
        &&& self.final_output_path@ == plan.folder.place(category, self.recording_identifier@)
        &&& self.replace_existing == plan.replace_existing
        &&& if plan.folder.encoded {
            &&& optional(self.working_path) == Some(
                below(below(plan.session@, "working"@, sep), three_digits(order), sep),
            )
            &&& self.frames_path is None
            &&& self.audio_path is None
        } else {
            &&& self.working_path is None
            &&& optional(self.frames_path) == Some(
                below(self.final_output_path@, "Frames"@, sep),
            )
            &&& optional(self.audio_path) == Some(below(self.final_output_path@, "Audio"@, sep))
        }
    }
}

/// The identifiers of clips.
pub open spec fn identifiers(clips: Seq<PreparedClip>) -> Seq<Seq<char>> {
    Seq::new(clips.len(), |i: int| clips[i].recording_identifier@)
}

/// The candidates whose demo is there, by position.
pub open spec fn with_demo(sources: Seq<Option<DemoSource>>) -> Seq<int>
    decreases sources.len(),
{
    if sources.len() == 0 {
        Seq::empty()
    } else {
        let before = with_demo(sources.drop_last());
        if sources.last() is Some {
            before.push(sources.len() - 1)
        } else {
            before
        }
    }
}

/// Whether clips are those of the candidates whose demo is there, in order, each
/// with an identifier of its own.
pub open spec fn prepared(
    clips: Seq<PreparedClip>,
    candidates: Seq<Candidate>,
    sources: Seq<Option<DemoSource>>,
    settings: AppSettings,
    plan: BatchPlan,
) -> bool {
    &&& clips.len() == with_demo(sources).len()
    &&& forall|k: int|
        0 <= k < clips.len() ==> (#[trigger] clips[k]).prepares(
            with_demo(sources)[k] + 1,
            candidates[with_demo(sources)[k]],
            sources[with_demo(sources)[k]]->0,
            settings,
            plan,
            identifiers(clips).take(k),
        )
}

proof fn lemma_with_demo(sources: Seq<Option<DemoSource>>)
    ensures
        with_demo(sources).len() <= sources.len(),
        forall|k: int|
            0 <= k < with_demo(sources).len() ==> 0 <= #[trigger] with_demo(sources)[k]
                < sources.len() && sources[with_demo(sources)[k]] is Some,
    decreases sources.len(),
{
    if sources.len() > 0 {
        lemma_with_demo(sources.drop_last());
        let before = with_demo(sources.drop_last());
        assert forall|k: int| 0 <= k < with_demo(sources).len() implies 0 <= #[trigger] with_demo(
            sources,
        )[k] < sources.len() && sources[with_demo(sources)[k]] is Some by {
            if k < before.len() {
                assert(with_demo(sources)[k] == before[k]);
            }
        }
    }
}

/// No two clips of a batch share an identifier, nor does any take that of a
/// recording that is there.
pub proof fn law_clips_have_their_own_names(
    clips: Seq<PreparedClip>,
    candidates: Seq<Candidate>,
    sources: Seq<Option<DemoSource>>,
    settings: AppSettings,
    plan: BatchPlan,
)
    requires
        prepared(clips, candidates, sources, settings, plan),
    ensures
        identifiers(clips).no_duplicates(),
        forall|k: int|
            0 <= k < clips.len() ==> !views(plan.folder.taken@).contains(
                (#[trigger] clips[k]).final_output_path@,
            ),
{
    let names = identifiers(clips);
    assert forall|j: int, k: int| 0 <= j < k < names.len() implies names[j] != names[k] by {
        let clip = clips[k];
        assert(clip.prepares(
            with_demo(sources)[k] + 1,
            candidates[with_demo(sources)[k]],
            sources[with_demo(sources)[k]]->0,
            settings,
            plan,
            names.take(k),
        ));
        assert(names.take(k)[j] == names[j]);
        assert(names.take(k).contains(names[j]));
    }
}

fn name_candidate(id: &str) -> (out: String)
    ensures
        out@ == candidate_name(id@),
{
    if trim(id).as_str().is_empty() {
        "candidate".to_owned()
    } else {
        sanitize(id)
    }
}

fn make_identifier_base(
    candidate: &Candidate,
    source: &DemoSource,
    settings: &AppSettings,
    window: (i64, i64),
    key: &str,
) -> (out: String)
    requires
        window.0 == window_start(*candidate, *settings),
        window.1 == window_end(*candidate, *settings),
        key@ == key_of(*candidate, source.signature@),
    ensures
        out@ == identifier_base(*candidate, *source, *settings),
{
    let mut out = match &source.stem {
        Some(stem) => sanitize(stem.as_str()),
        None => sanitize("demo"),
    };
    out.append("__");
    out.append(name_candidate(candidate.candidate_id.as_str()).as_str());
    out.append("__t");
    out.append(i64_text(window.0).as_str());
    out.append("-");
    out.append(i64_text(window.1).as_str());
    out.append("__k");
    out.append(recording_key_token(key));
    out
}

fn prepare_clip(
    order: usize,
    candidate: &Candidate,
    source: &DemoSource,
    settings: &AppSettings,
    plan: &BatchPlan,
    reserved: &Vec<String>,
) -> (out: PreparedClip)
    requires
        window_fits(*candidate, *settings),
        plan.folder.taken.len() + reserved.len() < usize::MAX,
    ensures
        out.prepares(
            order as int,
            *candidate,
            *source,
            *settings,
            *plan,
            views(reserved@),
        ),
{
    let sep = plan.folder.separator;
    let window = clip_window(candidate, settings);
    let key = recording_key(candidate, source.signature.as_str());
    let base = make_identifier_base(candidate, source, settings, window, key.as_str());
    let category = candidate_output_category(candidate);
    let identifier = unique_recording_identifier(
        &plan.folder,
        category.as_str(),
        base.as_str(),
        reserved,
    );
    let number = three_digit_text(order as u64);
    let mut config_base = number.clone();
    config_base.append("_");
    config_base.append(name_candidate(candidate.candidate_id.as_str()).as_str());
    config_base.append("_t");
    config_base.append(i64_text(candidate.clip_start_tick).as_str());
    config_base.append("-");
    config_base.append(i64_text(candidate.clip_end_tick).as_str());
    let mut capture_base = "tf2frag_".to_owned();
    capture_base.append(plan.session_name.as_str());
    capture_base.append("_");
    capture_base.append(number.as_str());
    let place = plan.folder.output_path(category.as_str(), identifier.as_str());
    let (working, frames, audio) = if plan.folder.encoded {
        let folder = path_below(plan.session.as_str(), "working", sep);
        (Some(path_below(folder.as_str(), number.as_str(), sep)), None, None)
    } else {
        (
            None,
            Some(path_below(place.as_str(), "Frames", sep)),
            Some(path_below(place.as_str(), "Audio", sep)),
        )
    };
    PreparedClip {
        order,
        candidate_id: candidate.candidate_id.clone(),
        source_demo: candidate.source_demo.clone(),
        attacker_user_id: candidate.attacker_user_id,
        candidate_start_tick: candidate.clip_start_tick,
        candidate_end_tick: candidate.clip_end_tick,
        start_tick: window.0,
        end_tick: window.1,
        config_base,
        capture_base,
        recording_key: key,
        demo_signature: source.signature.clone(),
        recording_identifier: identifier,
        working_path: working,
        final_output_path: place,
        frames_path: frames,
        audio_path: audio,
        replace_existing: plan.replace_existing,
    }
}

/// How a batch in some settings is kept: as files of one extension, or as
/// folders of images.
pub fn output_folder(settings: &AppSettings, root: String, separator: char, taken: Vec<String>) -> (out:
    OutputFolder)
    ensures
        out.root == root,
        out.separator == separator,
        out.taken == taken,
        out.encoded == !has_text(settings.recording_format@, "Image"@),
        out.extension@ == extension_for(settings.recording_format@),
{
    OutputFolder {
        root,
        separator,
        encoded: !contains_text(settings.recording_format.as_str(), "Image"),
        extension: encoded_extension(settings).to_owned(),
        taken,
    }
}

/// The clips of a batch: one for every candidate whose demo is there.
pub fn prepare_recording_clips(
    candidates: &Vec<Candidate>,
    sources: &Vec<Option<DemoSource>>,
    settings: &AppSettings,
    plan: &BatchPlan,
) -> (out: Vec<PreparedClip>)
    requires
        sources.len() == candidates.len(),
        candidates.len() < usize::MAX,
        plan.folder.taken.len() + candidates.len() < usize::MAX,
        forall|i: int|
            0 <= i < candidates.len() ==> window_fits(#[trigger] candidates@[i], *settings),
    ensures
        prepared(out@, candidates@, sources@, *settings, *plan),
{
    let mut out: Vec<PreparedClip> = Vec::new();
    let mut reserved: Vec<String> = Vec::new();
    let mut i: usize = 0;
    assert(views(reserved@) =~= identifiers(out@));
    while i < candidates.len()
        invariant
            i <= candidates.len(),
            sources.len() == candidates.len(),
            candidates.len() < usize::MAX,
            plan.folder.taken.len() + candidates.len() < usize::MAX,
            forall|k: int|
                0 <= k < candidates.len() ==> window_fits(#[trigger] candidates@[k], *settings),
            out.len() == reserved.len(),
            out.len() <= i,
            views(reserved@) == identifiers(out@),
            prepared(out@, candidates@, sources@.take(i as int), *settings, *plan),
        decreases candidates.len() - i,
    {
        let ghost known = sources@.take(i as int);
        let ghost next = sources@.take(i + 1);
        let ghost before = out@;
        proof {
            assert(next.drop_last() =~= known);
            assert(next.last() == sources@[i as int]);
            lemma_with_demo(known);
        }
        if let Some(source) = &sources[i] {
            let clip = prepare_clip(i + 1, &candidates[i], source, settings, plan, &reserved);
            let ghost names = views(reserved@);
            let ghost name = clip.recording_identifier@;
            reserved.push(clip.recording_identifier.clone());
            out.push(clip);
            proof {
                assert(views(reserved@) =~= names.push(name));
                assert(identifiers(out@) =~= identifiers(before).push(name));
                assert(identifiers(out@).take(before.len() as int) =~= identifiers(before));
                assert forall|k: int| 0 <= k < out@.len() implies (#[trigger] out@[k]).prepares(
                    with_demo(next)[k] + 1,
                    candidates@[with_demo(next)[k]],
                    next[with_demo(next)[k]]->0,
                    *settings,
                    *plan,
                    identifiers(out@).take(k),
                ) by {
                    if k < before.len() {
                        assert(out@[k] == before[k]);
                        assert(with_demo(next)[k] == with_demo(known)[k]);
                        assert(next[with_demo(known)[k]] == known[with_demo(known)[k]]);
                        assert(identifiers(out@).take(k) =~= identifiers(before).take(k));
                    }
                }
            }
        } else {
            proof {
                assert forall|k: int| 0 <= k < out@.len() implies (#[trigger] out@[k]).prepares(
                    with_demo(next)[k] + 1,
                    candidates@[with_demo(next)[k]],
                    next[with_demo(next)[k]]->0,
                    *settings,
                    *plan,
                    identifiers(out@).take(k),
                ) by {
                    assert(next[with_demo(known)[k]] == known[with_demo(known)[k]]);
                }
            }
        }
        i += 1;
    }
    assert(sources@.take(candidates.len() as int) =~= sources@);
    out
}

// ---------------------------------------------------------------------------
// Clips that a manifest keeps
// ---------------------------------------------------------------------------

/// A clip as a manifest keeps it.
#[derive(Debug)]
pub struct StoredRecordingClip {
    pub order: usize,
    pub source_demo: String,
    pub candidate_id: String,
    pub recording_key: String,
    pub demo_content_signature: String,
    pub start_tick: i64,
    pub end_tick: i64,
    pub candidate_clip_start_tick: Option<i64>,
    pub candidate_clip_end_tick: Option<i64>,
    pub attacker_user_id: i64,
    pub recording_identifier: String,
    pub expected_output_path: String,
    pub actual_output_path: Option<String>,
    pub output_fingerprint: Option<String>,
    pub working_path: Option<String>,
    pub frames_path: Option<String>,
    pub audio_path: Option<String>,
    pub native_capture_base: String,
    pub replace_existing: bool,
}

fn clone_text(text: &Option<String>) -> (out: Option<String>)
    ensures
        out == *text,
{
    match text {
        Some(text) => Some(text.clone()),
        None => None,
    }
}

/// What a manifest keeps of a clip before it is recorded.
pub open spec fn stored_clip(clip: PreparedClip) -> StoredRecordingClip {
    StoredRecordingClip {
        order: clip.order,
        source_demo: clip.source_demo,
        candidate_id: clip.candidate_id,
        recording_key: clip.recording_key,
        demo_content_signature: clip.demo_signature,
        start_tick: clip.start_tick,
        end_tick: clip.end_tick,
        candidate_clip_start_tick: Some(clip.candidate_start_tick),
        candidate_clip_end_tick: Some(clip.candidate_end_tick),
        attacker_user_id: clip.attacker_user_id,
        recording_identifier: clip.recording_identifier,
        expected_output_path: clip.final_output_path,
        actual_output_path: None,
        output_fingerprint: None,
        working_path: clip.working_path,
        frames_path: clip.frames_path,
        audio_path: clip.audio_path,
        native_capture_base: clip.capture_base,
        replace_existing: clip.replace_existing,
    }
}

/// What a manifest keeps of a clip before it is recorded.
pub fn store_clip(clip: &PreparedClip) -> (out: StoredRecordingClip)
    ensures
        out == stored_clip(*clip),
{
    StoredRecordingClip {
        order: clip.order,
        source_demo: clip.source_demo.clone(),
        candidate_id: clip.candidate_id.clone(),
        recording_key: clip.recording_key.clone(),
        demo_content_signature: clip.demo_signature.clone(),
        start_tick: clip.start_tick,
        end_tick: clip.end_tick,
        candidate_clip_start_tick: Some(clip.candidate_start_tick),
        candidate_clip_end_tick: Some(clip.candidate_end_tick),
        attacker_user_id: clip.attacker_user_id,
        recording_identifier: clip.recording_identifier.clone(),
        expected_output_path: clip.final_output_path.clone(),
        actual_output_path: None,
        output_fingerprint: None,
        working_path: clone_text(&clip.working_path),
        frames_path: clone_text(&clip.frames_path),
        audio_path: clone_text(&clip.audio_path),
        native_capture_base: clip.capture_base.clone(),
        replace_existing: clip.replace_existing,
    }
}

/// The clip that a manifest keeps; its configuration is named like its
/// recording.
pub open spec fn kept_clip(stored: StoredRecordingClip) -> PreparedClip {
    PreparedClip {
        order: stored.order,
        candidate_id: stored.candidate_id,
        source_demo: stored.source_demo,
        attacker_user_id: stored.attacker_user_id,
        candidate_start_tick: match stored.candidate_clip_start_tick {
            Some(tick) => tick,
            None => stored.start_tick,
        },
        candidate_end_tick: match stored.candidate_clip_end_tick {
            Some(tick) => tick,
            None => stored.end_tick,
        },
        start_tick: stored.start_tick,
        end_tick: stored.end_tick,
        config_base: stored.recording_identifier,
        capture_base: stored.native_capture_base,
        recording_key: stored.recording_key,
        demo_signature: stored.demo_content_signature,
        recording_identifier: stored.recording_identifier,
        working_path: stored.working_path,
        final_output_path: stored.expected_output_path,
        frames_path: stored.frames_path,
        audio_path: stored.audio_path,
        replace_existing: stored.replace_existing,
    }
}

/// A clip is read back from a manifest as it was put there, but for the name of its
/// configuration, which is that of its recording.
pub proof fn law_clip_reads_back(clip: PreparedClip)
    ensures
        kept_clip(stored_clip(clip)) == (PreparedClip {
            config_base: clip.recording_identifier,
            ..clip
        }),
{
}

/// The clip that a manifest keeps.
pub fn prepared_clip_from_manifest(stored: &StoredRecordingClip) -> (out: PreparedClip)
    ensures
        out == kept_clip(*stored),
{
    PreparedClip {
        order: stored.order,
        candidate_id: stored.candidate_id.clone(),
        source_demo: stored.source_demo.clone(),
        attacker_user_id: stored.attacker_user_id,
        candidate_start_tick: match stored.candidate_clip_start_tick {
            Some(tick) => tick,
            None => stored.start_tick,
        },
        candidate_end_tick: match stored.candidate_clip_end_tick {
            Some(tick) => tick,
            None => stored.end_tick,
        },
        start_tick: stored.start_tick,
        end_tick: stored.end_tick,
        config_base: stored.recording_identifier.clone(),
        capture_base: stored.native_capture_base.clone(),
        recording_key: stored.recording_key.clone(),
        demo_signature: stored.demo_content_signature.clone(),
        recording_identifier: stored.recording_identifier.clone(),
        working_path: clone_text(&stored.working_path),
        final_output_path: stored.expected_output_path.clone(),
        frames_path: clone_text(&stored.frames_path),
        audio_path: clone_text(&stored.audio_path),
        replace_existing: stored.replace_existing,
    }
}

/// The candidate that a clip is of, as far as the clip tells.
pub fn clip_candidate(clip: &PreparedClip) -> (out: Candidate)
    ensures
        out.candidate_id@ == clip.candidate_id@,
        out.source_demo@ == clip.source_demo@,
        out.attacker_user_id == clip.attacker_user_id,
        out.clip_start_tick == clip.candidate_start_tick,
        out.clip_end_tick == clip.candidate_end_tick,
        out.map_name@ == Seq::<char>::empty(),
        out.round_index == 0,
        out.overall_score == 0,
        out.attacker_class@ == Seq::<char>::empty(),
        out.attacker_team@ == Seq::<char>::empty(),
        out.attacker_name is None,
        out.point_of_kill_ticks@ == Seq::<i64>::empty(),
        out.tags@ == Seq::<String>::empty(),
        out.tick_tags@.len() == 0,
        out.sequence_tags@ == Seq::<String>::empty(),
        out.primary_tag@ == Seq::<char>::empty(),
        out.metrics.kills is None && out.metrics.bookmarks is None && out.metrics.bookmark_score
            is None && out.metrics.duration_seconds is None,
        out.kills@.len() == 0,
        out.score_breakdown@.len() == 0,
        out.demo_context.is_blank(),
        out.bookmark_comment@ == Seq::<char>::empty(),
        out.bookmark_tick is None,
{
    let mut out = Candidate::default();
    out.candidate_id = clip.candidate_id.clone();
    out.source_demo = clip.source_demo.clone();
    out.attacker_user_id = clip.attacker_user_id;
    out.clip_start_tick = clip.candidate_start_tick;
    out.clip_end_tick = clip.candidate_end_tick;
    out
}

/// Whether a clip of a manifest is called by a name.
pub open spec fn answers_to(clip: StoredRecordingClip, name: Seq<char>) -> bool {
    clip.native_capture_base@ == name || clip.recording_identifier@ == name
        || clip.candidate_id@ == name
}

/// The first clip of a manifest that is called by a name.
pub fn find_stored_clip(clips: &Vec<StoredRecordingClip>, name: &str) -> (out: Option<usize>)
    ensures
        match out {
            Some(at) => at < clips.len() && answers_to(clips@[at as int], name@) && forall|k: int|
                0 <= k < at ==> !answers_to(#[trigger] clips@[k], name@),
            None => forall|k: int|
                0 <= k < clips.len() ==> !answers_to(#[trigger] clips@[k], name@),
        },
{
    let mut i: usize = 0;
    while i < clips.len()
        invariant
            i <= clips.len(),
            forall|k: int| 0 <= k < i ==> !answers_to(#[trigger] clips@[k], name@),
        decreases clips.len() - i,
    {
        let clip = &clips[i];
        if same_text(clip.native_capture_base.as_str(), name) || same_text(
            clip.recording_identifier.as_str(),
            name,
        ) || same_text(clip.candidate_id.as_str(), name) {
            return Some(i);
        }
        i += 1;
    }
    None
}

/// Whether a folder is one of the recording sessions: it lies directly in their
/// folder, and is named like one.
pub fn is_managed_recording_session(root: &str, parent: &Option<String>, name: &Option<String>) -> (r:
    bool)
    ensures
        r == (optional(*parent) == Some(root@) && (optional(*name) matches Some(name)
            && begins_with(name, session_prefix()))),
{
    let direct = match parent {
        Some(parent) => same_text(parent.as_str(), root),
        None => false,
    };
    let named = match name {
        Some(name) => starts_with(name.as_str(), "tf2fragdemohelper_batch_"),
        None => false,
    };
    direct && named
}

/// A path below a folder begins with the folder and ends with the name, and has one
/// separator between them.
pub proof fn law_paths_join_with_one_separator(
    folder: Seq<char>,
    name: Seq<char>,
    separator: char,
)
    requires
        folder.len() > 0,
    ensures
        begins_with(below(folder, name, separator), folder),
        below(folder, name, separator).skip(
            below(folder, name, separator).len() - name.len(),
        ) == name,
        folder.last() == separator || folder.last() == '/' ==> below(folder, name, separator).len()
            == folder.len() + name.len(),
        folder.last() != separator && folder.last() != '/' ==> below(folder, name, separator).len()
            == folder.len() + 1 + name.len() && below(
            folder,
            name,
            separator,
        )[folder.len() as int] == separator,
{
    let path = below(folder, name, separator);
    assert(path.subrange(0, folder.len() as int) =~= folder);
    assert(path.skip(path.len() - name.len()) =~= name);
}

/// Videos are kept by category, with their extension; images are kept in a folder of their
/// own.
pub proof fn law_recordings_have_their_place(
    folder: OutputFolder,
    category: Seq<char>,
    identifier: Seq<char>,
)
    ensures
        folder.encoded ==> folder.place(category, identifier) == below(
            below(below(folder.root@, "Videos"@, folder.separator), category, folder.separator),
            identifier + "."@ + folder.extension@,
            folder.separator,
        ),
        !folder.encoded ==> folder.place(category, identifier) == below(
            below(folder.root@, "Image Sequences"@, folder.separator),
            identifier,
            folder.separator,
        ),
{
}

/// The clips keep the order of the candidates, and every candidate whose demo is there has
/// one.
pub proof fn law_candidates_with_demos_are_prepared(sources: Seq<Option<DemoSource>>, i: int)
    requires
        0 <= i < sources.len(),
    ensures
        with_demo(sources).contains(i) <==> sources[i] is Some,
        forall|a: int, b: int|
            0 <= a < b < with_demo(sources).len() ==> #[trigger] with_demo(sources)[a]
                < #[trigger] with_demo(sources)[b],
        forall|a: int|
            0 <= a < with_demo(sources).len() ==> 0 <= #[trigger] with_demo(sources)[a]
                < sources.len(),
    decreases sources.len(),
{
    let rest = sources.drop_last();
    let before = with_demo(rest);
    let out = with_demo(sources);
    if rest.len() > 0 {
        law_candidates_with_demos_are_prepared(
            rest,
            if i < rest.len() {
                i
            } else {
                0
            },
        );
    }
    if i < rest.len() {
        assert(rest[i] == sources[i]);
        if before.contains(i) {
            let k = choose|k: int| 0 <= k < before.len() && before[k] == i;
            assert(out[k] == i);
        }
        if out.contains(i) {
            let k = choose|k: int| 0 <= k < out.len() && out[k] == i;
            assert(before[k] == i);
        }
    } else if sources.last() is Some {
        assert(out[before.len() as int] == i);
    } else if out.contains(i) {
        let k = choose|k: int| 0 <= k < out.len() && out[k] == i;
        assert(before[k] == i);
    }
}

} // verus!
