//! Making recorded clips whole: which files belong to a clip, what they are
//! called in the end, and which clips are done.
use vstd::prelude::*;
use crate::encoding::optional;
use crate::number::{int_text, u64_text};
use crate::order::{lemma_lex_irreflexive, lemma_lex_transitive, lex_less, text_less};
use crate::settings::AppSettings;
use crate::text::{
    begins_with, chars_of, contains_text, has_text, list_contains, lower, same_fold,
    same_ignoring_case, same_text, starts_with, string_between, to_lower, views,
};

verus! {

// ---------------------------------------------------------------------------
// What is told while a batch is recorded
// ---------------------------------------------------------------------------

/// What is told while clips are recorded.
#[derive(Debug)]
pub enum RecordingProgress {
    Status(String),
    ClipStarted { candidate_id: String, current: usize, total: usize },
    ClipCompleted { candidate_id: String, output_path: String },
    Finished { completed: usize, failed: usize, session: Option<String> },
    ManualFinished { output_path: String, session: Option<String> },
}

/// What is known of a session that is recorded by hand.
#[derive(Debug)]
pub struct ManualHlaeLaunch {
    pub target_tick: i64,
    pub output_path: String,
    pub session: String,
    pub director_session: String,
}

/// What is told when a clip is made whole after the game was closed.
pub fn consolidating_status(order: usize, total: usize, candidate_id: &str) -> (out: String)
    ensures
        out@ == "Consolidating recorded candidate "@ + int_text(order as int) + " / "@ + int_text(
            total as int,
        ) + ": "@ + candidate_id@,
{
    let mut out = "Consolidating recorded candidate ".to_owned();
    out.append(u64_text(order as u64).as_str());
    out.append(" / ");
    out.append(u64_text(total as u64).as_str());
    out.append(": ");
    out.append(candidate_id);
    out
}

// ---------------------------------------------------------------------------
// Which files there are
// ---------------------------------------------------------------------------

/// A file that was found.
#[derive(Debug)]
pub struct FoundFile {
    pub name: String,
    pub size: u64,
}

/// Whether anything was recorded of a clip whose images begin with a name.
pub fn image_artifacts_exist(files: &Vec<FoundFile>, capture_base: &str) -> (r: bool)
    ensures
        r == exists|i: int|
            0 <= i < files.len() && begins_with((#[trigger] files@[i]).name@, capture_base@)
                && files@[i].size > 0,
{
    let mut i: usize = 0;
    while i < files.len()
        invariant
            i <= files.len(),
            forall|k: int|
                0 <= k < i ==> !(begins_with((#[trigger] files@[k]).name@, capture_base@)
                    && files@[k].size > 0),
        decreases files.len() - i,
    {
        if starts_with(files[i].name.as_str(), capture_base) && files[i].size > 0 {
            return true;
        }
        i += 1;
    }
    false
}

/// Whether anything was recorded of a clip that is kept as a video and its sound.
pub fn video_artifacts_exist(video_size: Option<u64>, audio_size: Option<u64>) -> (r: bool)
    ensures
        r == ((video_size matches Some(n) && n > 0) || (audio_size matches Some(n) && n > 0)),
{
    let video = match video_size {
        Some(n) => n > 0,
        None => false,
    };
    let audio = match audio_size {
        Some(n) => n > 0,
        None => false,
    };
    video || audio
}

/// Where the last dot of a text stands, up to a place.
pub open spec fn last_dot(text: Seq<char>, upto: int) -> Option<int>
    decreases upto,
{
    if upto <= 0 {
        None
    } else if text[upto - 1] == '.' {
        Some(upto - 1)
    } else {
        last_dot(text, upto - 1)
    }
}

/// What stands behind the last dot of the name of a file, unless the name begins
/// with that dot or is two dots.
pub open spec fn extension_of(name: Seq<char>) -> Option<Seq<char>> {
    match last_dot(name, name.len() as int) {
        Some(at) if at > 0 && name != ".."@ => Some(name.skip(at + 1)),
        _ => None,
    }
}

/// The extension of the name of a file.
pub fn file_extension(name: &str) -> (out: Option<String>)
    ensures
        optional(out) == extension_of(name@),
{
    let chars = chars_of(name);
    let mut i: usize = chars.len();
    let two_dots = same_text(name, "..");
    while i > 0
        invariant
            i <= chars.len(),
            chars@ == name@,
            two_dots == (name@ == ".."@),
            last_dot(name@, name@.len() as int) == last_dot(name@, i as int),
        decreases i,
    {
        if chars[i - 1] == '.' {
            if i - 1 == 0 || two_dots {
                return None;
            }
            let out = string_between(&chars, i, chars.len());
            assert(out@ =~= name@.skip(i as int));
            return Some(out);
        }
        i -= 1;
    }
    None
}

/// Whether a file is an image of a sequence.
pub open spec fn is_frame(file: FoundFile) -> bool {
    extension_of(file.name@) matches Some(extension) && (lower(extension) == "tga"@ || lower(
        extension,
    ) == "jpg"@ || lower(extension) == "jpeg"@) && file.size > 0
}

/// Whether a folder holds an image of a sequence.
pub open spec fn has_frame(files: Seq<FoundFile>) -> bool {
    exists|i: int| 0 <= i < files.len() && is_frame(#[trigger] files[i])
}

fn holds_frame(files: &Vec<FoundFile>) -> (r: bool)
    ensures
        r == has_frame(files@),
{
    let mut i: usize = 0;
    while i < files.len()
        invariant
            i <= files.len(),
            forall|k: int| 0 <= k < i ==> !is_frame(#[trigger] files@[k]),
        decreases files.len() - i,
    {
        if let Some(extension) = file_extension(files[i].name.as_str()) {
            let plain = to_lower(extension.as_str());
            if (same_text(plain.as_str(), "tga") || same_text(plain.as_str(), "jpg") || same_text(
                plain.as_str(),
                "jpeg",
            )) && files[i].size > 0 {
                assert(is_frame(files@[i as int]));
                return true;
            }
        }
        i += 1;
    }
    false
}

/// Whether a recording is there: a file that holds something, or a folder with at
/// least one image that does.
pub fn output_still_exists(file_size: Option<u64>, folder: &Option<Vec<FoundFile>>) -> (r: bool)
    ensures
        r == (match file_size {
            Some(size) => size > 0,
            None => match *folder {
                Some(files) => has_frame(files@),
                None => false,
            },
        }),
{
    if let Some(size) = file_size {
        return size > 0;
    }
    match folder {
        Some(files) => holds_frame(files),
        None => false,
    }
}

// ---------------------------------------------------------------------------
// Videos
// ---------------------------------------------------------------------------

/// A folder in which a recording may have been put.
#[derive(Debug)]
pub struct TakeFolder {
    pub name: String,
    pub has_media: bool,
}

/// Whether a folder holds a take.
pub open spec fn is_take(take: TakeFolder) -> bool {
    take.has_media && begins_with(take.name@, "take"@)
}

/// The folder that holds the recording of a clip: the working folder itself, or
/// the first take, by name, with a recording; `None` stands for the working
/// folder.
pub fn find_encoded_take_directory(working_has_media: bool, takes: &Vec<TakeFolder>) -> (out: Option<
    usize,
>)
    ensures
        match out {
            Some(at) => !working_has_media && at < takes.len() && is_take(takes@[at as int])
                && forall|k: int|
                0 <= k < takes.len() && is_take(#[trigger] takes@[k]) ==> !lex_less(
                    takes@[k].name@,
                    takes@[at as int].name@,
                ),
            None => working_has_media || forall|k: int|
                0 <= k < takes.len() ==> !is_take(#[trigger] takes@[k]),
        },
{
    if working_has_media {
        return None;
    }
    let mut best: Option<usize> = None;
    let mut i: usize = 0;
    while i < takes.len()
        invariant
            i <= takes.len(),
            match best {
                Some(at) => at < i && is_take(takes@[at as int]) && forall|k: int|
                    0 <= k < i && is_take(#[trigger] takes@[k]) ==> !lex_less(
                        takes@[k].name@,
                        takes@[at as int].name@,
                    ),
                None => forall|k: int| 0 <= k < i ==> !is_take(#[trigger] takes@[k]),
            },
        decreases takes.len() - i,
    {
        if takes[i].has_media && starts_with(takes[i].name.as_str(), "take") {
            match best {
                None => {
                    best = Some(i);
                    proof {
                        lemma_lex_irreflexive(takes@[i as int].name@);
                    }
                },
                Some(at) => {
                    if text_less(takes[i].name.as_str(), takes[at].name.as_str()) {
                        best = Some(i);
                        proof {
                            let new = takes@[i as int].name@;
                            let old_name = takes@[at as int].name@;
                            lemma_lex_irreflexive(new);
                            assert forall|k: int|
                                0 <= k < i + 1 && is_take(#[trigger] takes@[k]) implies !lex_less(
                                takes@[k].name@,
                                new,
                            ) by {
                                if k < i && lex_less(takes@[k].name@, new) {
                                    lemma_lex_transitive(takes@[k].name@, new, old_name);
                                }
                            }
                        }
                    }
                },
            }
        }
        i += 1;
    }
    best
}

/// What the program that joins video and sound is told, one word after another.
pub open spec fn mux_words(settings: AppSettings, video: Seq<char>, audio: Seq<char>, to: Seq<char>) -> Seq<
    Seq<char>,
> {
    let head = seq![
        "-y"@,
        "-v"@,
        "error"@,
        "-i"@,
        video,
        "-i"@,
        audio,
        "-map"@,
        "0:v:0"@,
        "-map"@,
        "1:a:0"@,
        "-c:v"@,
        "copy"@,
    ];
    let sound = if has_text(settings.recording_format@, "AVI"@) || settings.recording_format@
        == "MOV - DNxHR"@ {
        seq!["-c:a"@, "pcm_s16le"@, "-shortest"@]
    } else {
        seq![
            "-c:a"@,
            "aac"@,
            "-b:a"@,
            int_text(settings.mp4_audio_bitrate_kbps as int) + "k"@,
            "-movflags"@,
            "+faststart"@,
            "-shortest"@,
        ]
    };
    head + sound + seq![to]
}

fn add_word(list: &mut Vec<String>, word: &str)
    ensures
        views(final(list)@) == views(old(list)@).push(word@),
{
    let ghost before = views(list@);
    list.push(word.to_owned());
    assert(views(list@) =~= before.push(word@));
}

/// What the program that joins video and sound is told.
pub fn mux_arguments(settings: &AppSettings, video: &str, audio: &str, to: &str) -> (out: Vec<String>)
    ensures
        views(out@) == mux_words(*settings, video@, audio@, to@),
{
    let mut out: Vec<String> = Vec::new();
    add_word(&mut out, "-y");
    add_word(&mut out, "-v");
    add_word(&mut out, "error");
    add_word(&mut out, "-i");
    add_word(&mut out, video);
    add_word(&mut out, "-i");
    add_word(&mut out, audio);
    add_word(&mut out, "-map");
    add_word(&mut out, "0:v:0");
    add_word(&mut out, "-map");
    add_word(&mut out, "1:a:0");
    add_word(&mut out, "-c:v");
    add_word(&mut out, "copy");
    if contains_text(settings.recording_format.as_str(), "AVI") || same_text(
        settings.recording_format.as_str(),
        "MOV - DNxHR",
    ) {
        add_word(&mut out, "-c:a");
        add_word(&mut out, "pcm_s16le");
        add_word(&mut out, "-shortest");
    } else {
        let mut rate = u64_text(settings.mp4_audio_bitrate_kbps as u64);
        rate.append("k");
        add_word(&mut out, "-c:a");
        add_word(&mut out, "aac");
        add_word(&mut out, "-b:a");
        add_word(&mut out, rate.as_str());
        add_word(&mut out, "-movflags");
        add_word(&mut out, "+faststart");
        add_word(&mut out, "-shortest");
    }
    add_word(&mut out, to);
    assert(views(out@) =~= mux_words(*settings, video@, audio@, to@));
    out
}

// ---------------------------------------------------------------------------
// Image sequences
// ---------------------------------------------------------------------------

/// Where a file of an image sequence goes.
#[derive(Debug)]
pub struct ImageMove {
    /// Whether it is the sound.
    pub is_audio: bool,
    pub name: String,
}

/// Whether a file is sound.
pub open spec fn is_sound(name: Seq<char>) -> bool {
    extension_of(name) matches Some(extension) && same_fold(extension, "wav"@)
}

/// The name that a file of an image sequence gets.
pub open spec fn moved_name(name: Seq<char>, capture_base: Seq<char>, identifier: Seq<char>) -> Seq<
    char,
> {
    if is_sound(name) {
        identifier + ".wav"@
    } else if begins_with(name, capture_base) {
        "frame"@ + name.skip(capture_base.len() as int)
    } else {
        "frame"@ + name
    }
}

fn move_of(name: &str, capture_base: &str, identifier: &str) -> (out: ImageMove)
    ensures
        out.is_audio == is_sound(name@),
        out.name@ == moved_name(name@, capture_base@, identifier@),
{
    let sound = match file_extension(name) {
        Some(extension) => same_ignoring_case(extension.as_str(), "wav"),
        None => false,
    };
    if sound {
        let mut to = identifier.to_owned();
        to.append(".wav");
        return ImageMove { is_audio: true, name: to };
    }
    let mut to = "frame".to_owned();
    if starts_with(name, capture_base) {
        let chars = chars_of(name);
        let head: usize = capture_base.unicode_len();
        let tail = string_between(&chars, head, chars.len());
        assert(tail@ =~= name@.skip(head as int));
        to.append(tail.as_str());
    } else {
        to.append(name);
    }
    ImageMove { is_audio: false, name: to }
}

/// What is said where nothing was recorded of an image sequence.
pub fn no_frames_fault(candidate_id: &str) -> (out: String)
    ensures
        out@ == "TF2 produced no non-empty TGA/JPG frames for "@ + candidate_id@,
{
    let mut out = "TF2 produced no non-empty TGA/JPG frames for ".to_owned();
    out.append(candidate_id);
    out
}

/// Where the files of an image sequence go; refuses where there is no image, and
/// none was put in place before.
pub fn plan_image_sequence(
    sources: &Vec<String>,
    frames_are_there: bool,
    capture_base: &str,
    identifier: &str,
    candidate_id: &str,
) -> (out: Result<Vec<ImageMove>, String>)
    ensures
        match out {
            Ok(moves) => {
                &&& frames_are_there || exists|i: int|
                    0 <= i < sources.len() && !is_sound((#[trigger] sources@[i])@)
                &&& moves.len() == sources.len()
                &&& forall|i: int|
                    0 <= i < moves.len() ==> (#[trigger] moves@[i]).is_audio == is_sound(
                        sources@[i]@,
                    ) && moves@[i].name@ == moved_name(
                        sources@[i]@,
                        capture_base@,
                        identifier@,
                    )
            },
            Err(words) => {
                &&& !frames_are_there
                &&& forall|i: int| 0 <= i < sources.len() ==> is_sound((#[trigger] sources@[i])@)
                &&& words@ == "TF2 produced no non-empty TGA/JPG frames for "@ + candidate_id@
            },
        },
{
    let mut moves: Vec<ImageMove> = Vec::new();
    let mut has_frame = frames_are_there;
    let mut i: usize = 0;
    while i < sources.len()
        invariant
            i <= sources.len(),
            moves.len() == i,
            has_frame == (frames_are_there || exists|k: int|
                0 <= k < i && !is_sound((#[trigger] sources@[k])@)),
            forall|k: int|
                0 <= k < i ==> (#[trigger] moves@[k]).is_audio == is_sound(sources@[k]@)
                    && moves@[k].name@ == moved_name(sources@[k]@, capture_base@, identifier@),
        decreases sources.len() - i,
    {
        let step = move_of(sources[i].as_str(), capture_base, identifier);
        if !step.is_audio {
            has_frame = true;
        }
        moves.push(step);
        i += 1;
    }
    if has_frame {
        Ok(moves)
    } else {
        Err(no_frames_fault(candidate_id))
    }
}

// ---------------------------------------------------------------------------
// Which clips are done
// ---------------------------------------------------------------------------

/// The clips of a session that are done, and those that failed.
#[derive(Debug)]
pub struct ClipLedger {
    pub completed: Vec<String>,
    pub failed: Vec<String>,
}

impl ClipLedger {
    /// Whether no clip is noted twice.
    pub open spec fn well_formed(&self) -> bool {
        &&& views(self.completed@).no_duplicates()
        &&& views(self.failed@).no_duplicates()
        &&& forall|name: Seq<char>|
            #[trigger] views(self.completed@).contains(name) ==> !views(self.failed@).contains(name)
    }

    /// Whether a clip was dealt with.
    pub open spec fn knows(&self, name: Seq<char>) -> bool {
        views(self.completed@).contains(name) || views(self.failed@).contains(name)
    }

    /// A ledger without clips.
    pub fn new() -> (out: ClipLedger)
        ensures
            out.well_formed(),
            views(out.completed@) == Seq::<Seq<char>>::empty(),
            views(out.failed@) == Seq::<Seq<char>>::empty(),
    {
        let out = ClipLedger { completed: Vec::new(), failed: Vec::new() };
        assert(views(out.completed@) =~= Seq::empty());
        assert(views(out.failed@) =~= Seq::empty());
        out
    }

    /// Whether a clip was dealt with.
    pub fn is_known(&self, config_base: &str) -> (r: bool)
        ensures
            r == self.knows(config_base@),
    {
        list_contains(&self.completed, config_base) || list_contains(&self.failed, config_base)
    }

    /// Notes what came of a clip, unless it was dealt with.
    pub fn settle(&mut self, config_base: &str, done: bool)
        requires
            old(self).well_formed(),
        ensures
            final(self).well_formed(),
            views(final(self).completed@) == (if done && !old(self).knows(config_base@) {
                views(old(self).completed@).push(config_base@)
            } else {
                views(old(self).completed@)
            }),
            views(final(self).failed@) == (if !done && !old(self).knows(config_base@) {
                views(old(self).failed@).push(config_base@)
            } else {
                views(old(self).failed@)
            }),
    {
        let ghost name = config_base@;
        let ghost was_done = views(self.completed@);
        let ghost was_failed = views(self.failed@);
        if self.is_known(config_base) {
            return ;
        }
        if done {
            self.completed.push(config_base.to_owned());
            proof {
                assert(views(self.completed@) =~= was_done.push(name));
                lemma_pushed(was_done, name);
            }
        } else {
            self.failed.push(config_base.to_owned());
            proof {
                assert(views(self.failed@) =~= was_failed.push(name));
                lemma_pushed(was_failed, name);
            }
        }
    }
}

proof fn lemma_pushed(list: Seq<Seq<char>>, name: Seq<char>)
    ensures
        list.push(name).contains(name),
        forall|other: Seq<char>|
            #[trigger] list.push(name).contains(other) ==> list.contains(other) || other == name,
{
    assert(list.push(name)[list.len() as int] == name);
    assert forall|other: Seq<char>| #[trigger] list.push(name).contains(other) implies list.contains(
        other,
    ) || other == name by {
        let k = choose|k: int| 0 <= k < list.push(name).len() && list.push(name)[k] == other;
        if k < list.len() {
            assert(list[k] == other);
        }
    }
}

/// The recordings that a new one takes the place of.
pub open spec fn superseded(previous: Seq<Seq<char>>, output: Seq<char>) -> Seq<Seq<char>>
    decreases previous.len(),
{
    if previous.len() == 0 {
        Seq::empty()
    } else {
        let before = superseded(previous.drop_last(), output);
        if previous.last() == output {
            before
        } else {
            before.push(previous.last())
        }
    }
}

/// The recordings to remove once a new one is in the index: those that it was
/// to replace, but never the new one itself.
pub fn outputs_to_remove(previous: &Vec<String>, replace_existing: bool, output: &str) -> (out: Vec<
    String,
>)
    ensures
        views(out@) == (if replace_existing {
            superseded(views(previous@), output@)
        } else {
            Seq::empty()
        }),
        !views(out@).contains(output@),
{
    let mut out: Vec<String> = Vec::new();
    let ghost all = views(previous@);
    assert(views(out@) =~= Seq::empty());
    if !replace_existing {
        return out;
    }
    let mut i: usize = 0;
    assert(all.take(0) =~= Seq::empty());
    while i < previous.len()
        invariant
            i <= previous.len(),
            all == views(previous@),
            views(out@) == superseded(all.take(i as int), output@),
        decreases previous.len() - i,
    {
        proof {
            assert(all.take(i + 1).drop_last() =~= all.take(i as int));
            assert(all.take(i + 1).last() == previous@[i as int]@);
        }
        if !same_text(previous[i].as_str(), output) {
            add_word(&mut out, previous[i].as_str());
        }
        i += 1;
    }
    proof {
        assert(all.take(previous.len() as int) =~= all);
        lemma_superseded(all, output@);
    }
    out
}

proof fn lemma_superseded(previous: Seq<Seq<char>>, output: Seq<char>)
    ensures
        !superseded(previous, output).contains(output),
    decreases previous.len(),
{
    if previous.len() > 0 {
        lemma_superseded(previous.drop_last(), output);
        lemma_pushed(superseded(previous.drop_last(), output), previous.last());
    }
}

/// What came of a clip that was recorded.
#[derive(Debug)]
pub struct RecordedClip {
    pub completed: bool,
    /// Why it failed.
    pub error: Option<String>,
    /// The recordings that it takes the place of.
    pub removed: Vec<String>,
}

impl RecordedClip {
    /// The state that the manifest notes.
    pub fn status(&self) -> (out: &'static str)
        ensures
            out@ == (if self.completed {
                "Completed"@
            } else {
                "Failed"@
            }),
    {
        if self.completed {
            "Completed"
        } else {
            "Failed"
        }
    }
}

/// Why a clip failed: it could not be made whole, or not be recorded in the index.
pub open spec fn clip_fault(result: Result<String, String>, index_fault: Option<String>) -> Option<
    Seq<char>,
> {
    match result {
        Err(error) => Some(error@),
        Ok(_) => optional(index_fault),
    }
}

/// Notes what came of a clip, from what making it whole gave, why it could not be
/// recorded in the index, and the recordings that were there before. A clip that was
/// dealt with is left alone.
pub fn finish_recorded_clip(
    config_base: &str,
    replace_existing: bool,
    result: &Result<String, String>,
    index_fault: &Option<String>,
    previous: &Vec<String>,
    ledger: &mut ClipLedger,
) -> (out: Option<RecordedClip>)
    requires
        old(ledger).well_formed(),
    ensures
        final(ledger).well_formed(),
        out is None <==> old(ledger).knows(config_base@),
        out is None ==> *final(ledger) == *old(ledger),
        out matches Some(clip) ==> {
            let fault = clip_fault(*result, *index_fault);
            &&& clip.completed == (fault is None)
            &&& optional(clip.error) == fault
            &&& views(clip.removed@) == (match *result {
                Ok(output) if fault is None && replace_existing => superseded(
                    views(previous@),
                    output@,
                ),
                _ => Seq::empty(),
            })
            &&& views(final(ledger).completed@) == (if fault is None {
                views(old(ledger).completed@).push(config_base@)
            } else {
                views(old(ledger).completed@)
            })
            &&& views(final(ledger).failed@) == (if fault is Some {
                views(old(ledger).failed@).push(config_base@)
            } else {
                views(old(ledger).failed@)
            })
        },
{
    if ledger.is_known(config_base) {
        return None;
    }
    let (error, removed) = match result {
        Err(error) => (Some(error.clone()), Vec::new()),
        Ok(output) => match index_fault {
            Some(fault) => (Some(fault.clone()), Vec::new()),
            None => (None, outputs_to_remove(previous, replace_existing, output.as_str())),
        },
    };
    let completed = error.is_none();
    ledger.settle(config_base, completed);
    if !completed {
        assert(views(removed@) =~= Seq::empty());
    }
    Some(RecordedClip { completed, error, removed })
}

/// Whether the folder of a recording that was removed is kept though it is empty.
pub fn keeps_folder(name: &Option<String>) -> (r: bool)
    ensures
        r == (optional(*name) == Some("Videos"@) || optional(*name) == Some("Image Sequences"@)),
{
    match name {
        Some(name) => same_text(name.as_str(), "Videos") || same_text(
            name.as_str(),
            "Image Sequences",
        ),
        None => false,
    }
}

/// What is noted of recordings that were replaced.
pub open spec fn replacement_note(removed: int) -> Seq<char> {
    if removed > 0 {
        "; replaced "@ + int_text(removed) + " previous output(s)"@
    } else {
        Seq::empty()
    }
}

/// What is noted of a clip that is done.
pub fn completed_note(candidate_id: &str, output: &str, removed: usize) -> (out: String)
    ensures
        out@ == "COMPLETED "@ + candidate_id@ + " -> "@ + output@ + replacement_note(
            removed as int,
        ),
{
    let mut out = "COMPLETED ".to_owned();
    out.append(candidate_id);
    out.append(" -> ");
    out.append(output);
    let ghost before = out@;
    if removed > 0 {
        out.append("; replaced ");
        out.append(u64_text(removed as u64).as_str());
        out.append(" previous output(s)");
        assert(out@ =~= before + replacement_note(removed as int));
    } else {
        assert(out@ =~= before + replacement_note(removed as int));
    }
    out
}

proof fn lemma_last_dot(text: Seq<char>, at: int, upto: int)
    requires
        0 <= at < upto <= text.len(),
        text[at] == '.',
        forall|i: int| at < i < upto ==> #[trigger] text[i] != '.',
    ensures
        last_dot(text, upto) == Some(at),
    decreases upto,
{
    if at < upto - 1 {
        lemma_last_dot(text, at, upto - 1);
    }
}

/// The extension of a file is what stands behind the last dot of its name.
pub proof fn law_extensions_are_found(stem: Seq<char>, extension: Seq<char>)
    requires
        stem.len() > 0,
        stem != "."@,
        !extension.contains('.'),
    ensures
        extension_of(stem + seq!['.'] + extension) == Some(extension),
{
    let name = stem + seq!['.'] + extension;
    let at = stem.len() as int;
    assert(name[at] == '.');
    assert forall|i: int| at < i < name.len() implies #[trigger] name[i] != '.' by {
        assert(name[i] == extension[i - at - 1]);
        assert(extension.contains(extension[i - at - 1]));
    }
    lemma_last_dot(name, at, name.len() as int);
    assert(name.skip(at + 1) =~= extension);
    reveal_strlit("..");
    reveal_strlit(".");
    if name == ".."@ {
        assert(name.len() == 2);
        assert(stem =~= "."@) by {
            assert(stem[0] == name[0]);
        }
    }
}

/// An image of a sequence is a file that is not empty, with one of three extensions in any
/// case.
pub proof fn law_frames_are_images(file: FoundFile)
    ensures
        file.size == 0 ==> !is_frame(file),
        is_frame(file) <==> file.size > 0 && (extension_of(file.name@) matches Some(extension) && (
        lower(extension) == "tga"@ || lower(extension) == "jpg"@ || lower(extension) == "jpeg"@)),
{
}

/// The files of an image sequence are named anew: a frame by its number behind "frame",
/// and the sound after the clip.
pub proof fn law_frames_are_renamed(base: Seq<char>, rest: Seq<char>, identifier: Seq<char>)
    ensures
        !is_sound(base + rest) ==> moved_name(base + rest, base, identifier) == "frame"@ + rest,
        is_sound(base + rest) ==> moved_name(base + rest, base, identifier) == identifier + ".wav"@,
{
    assert((base + rest).skip(base.len() as int) =~= rest);
    assert((base + rest).take(base.len() as int) =~= base);
}

/// Once a new recording is there, the others that it was to replace go, and it stays.
pub proof fn law_new_recording_stays(previous: Seq<Seq<char>>, output: Seq<char>, path: Seq<char>)
    ensures
        superseded(previous, output).contains(path) <==> previous.contains(path) && path != output,
    decreases previous.len(),
{
    let all = superseded(previous, output);
    if previous.len() > 0 {
        let rest = previous.drop_last();
        let known = superseded(rest, output);
        law_new_recording_stays(rest, output, path);
        if previous.contains(path) {
            let k = choose|k: int| 0 <= k < previous.len() && previous[k] == path;
            if k < rest.len() {
                assert(rest[k] == path);
                assert(rest.contains(path));
            }
        }
        if rest.contains(path) {
            let k = choose|k: int| 0 <= k < rest.len() && rest[k] == path;
            assert(previous[k] == path);
        }
        assert(previous[previous.len() - 1] == previous.last());
        if known.contains(path) {
            let k = choose|k: int| 0 <= k < known.len() && known[k] == path;
            assert(all[k] == path);
        }
        if all.contains(path) {
            let k = choose|k: int| 0 <= k < all.len() && all[k] == path;
            if k < known.len() {
                assert(known[k] == path);
            }
        }
        if all.len() > known.len() {
            assert(all[known.len() as int] == previous.last());
        }
    } else {
        assert(all =~= Seq::empty());
    }
}

/// Picture and sound are put together without touching the picture: the first stream of
/// the video and the first of the sound go to one file.
pub proof fn law_muxing_keeps_the_picture(
    settings: AppSettings,
    video: Seq<char>,
    audio: Seq<char>,
    to: Seq<char>,
)
    ensures
        ({
            let words = mux_words(settings, video, audio, to);
            &&& words.len() > 13
            &&& words[3] == "-i"@ && words[4] == video
            &&& words[5] == "-i"@ && words[6] == audio
            &&& words[7] == "-map"@ && words[8] == "0:v:0"@
            &&& words[9] == "-map"@ && words[10] == "1:a:0"@
            &&& words[11] == "-c:v"@ && words[12] == "copy"@
            &&& words[13] == "-c:a"@
            &&& words.last() == to
            &&& has_text(settings.recording_format@, "AVI"@) || settings.recording_format@
                == "MOV - DNxHR"@ ==> words[14] == "pcm_s16le"@
        }),
{
}

} // verus!
