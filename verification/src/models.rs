//! What the analysis finds in a demo: candidates for a clip, with their kills,
//! their tags and the evidence for their score.
use vstd::prelude::*;
use crate::floating::{fraction, natural, product, quotient, Double};
use crate::order::{
    ascending, law_ascending_is_unique, lemma_lex_irreflexive, lemma_lex_total,
    lemma_lex_transitive, lex_less, members, sorted_distinct, text_less,
};
use crate::text::{
    char_is_alnum, chars_of, clone_list, is_alnum, lemma_views_push, list_contains, lower, same_text,
    string_between, string_of, to_lower, trim, trimmed, views,
};

verus! {

// ---------------------------------------------------------------------------
// Data
// ---------------------------------------------------------------------------

/// How a demo was recorded and what kind of match it shows.
#[derive(Debug)]
pub struct DemoContext {
    pub capture_type: String,
    pub capture_confidence: String,
    pub capture_evidence: Vec<String>,
    pub header_nick: Option<String>,
    pub analysis_scope: String,
    pub pov_player_user_id: Option<i64>,
    pub roster_match_available: bool,
    pub scope_reason: String,
    pub mode: String,
    pub mode_label: String,
    pub mode_confidence: String,
    pub mode_evidence: Vec<String>,
}

/// The tags of the kills at one demo tick.
#[derive(Debug)]
pub struct TickTagGroup {
    pub demo_tick: i64,
    pub server_ticks: Vec<i64>,
    pub tags: Vec<String>,
}

/// What is kept of one kill of a candidate.
#[derive(Debug)]
pub struct KillRecord {
    pub attacker_name: Option<String>,
    pub attacker_state_name: Option<String>,
    pub victim_user_id: Option<i64>,
    pub victim_name: Option<String>,
    pub victim_state_name: Option<String>,
    pub victim_class: Option<String>,
    pub weapon: Option<String>,
    pub tick: Option<i64>,
    pub server_tick: Option<i64>,
    pub victim_airborne: bool,
    pub airshot_eligible: bool,
    pub direct_impact: bool,
    pub double_donk: bool,
    pub kritzkrieg_boost: bool,
    pub uber_drop: bool,
    pub rocket_jump_victim: bool,
}

/// One line of the evidence for a score. Points are held in hundredths.
#[derive(Debug)]
pub struct ScoreItem {
    pub reason: Option<String>,
    pub points: Option<i64>,
    pub event_tick: Option<i64>,
    pub count: Option<u64>,
}

/// The measures of a candidate that are looked at again after the analysis.
/// Scores are held in hundredths of a point.
#[derive(Clone, Copy, Debug, PartialEq, Eq, Structural)]
pub struct CandidateMetrics {
    pub kills: Option<u64>,
    pub bookmarks: Option<u64>,
    pub bookmark_score: Option<i64>,
    pub duration_seconds: Option<Double>,
}

/// A moment worth a clip. The score is held in hundredths of a point.
#[derive(Debug)]
pub struct Candidate {
    pub candidate_id: String,
    pub source_demo: String,
    pub map_name: String,
    pub round_index: i64,
    pub overall_score: i64,
    pub attacker_user_id: i64,
    pub attacker_class: String,
    pub attacker_team: String,
    pub attacker_name: Option<String>,
    pub clip_start_tick: i64,
    pub clip_end_tick: i64,
    pub point_of_kill_ticks: Vec<i64>,
    /// Every tag, of single kills and of the sequence.
    pub tags: Vec<String>,
    /// The tags of the kills at each distinct demo tick.
    pub tick_tags: Vec<TickTagGroup>,
    /// The tags of the sequence as a whole.
    pub sequence_tags: Vec<String>,
    /// The tag after which the recording's folder is named.
    pub primary_tag: String,
    pub metrics: CandidateMetrics,
    pub kills: Vec<KillRecord>,
    pub score_breakdown: Vec<ScoreItem>,
    pub demo_context: DemoContext,
    pub bookmark_comment: String,
    pub bookmark_tick: Option<i64>,
}

impl DemoContext {
    /// Nothing is known.
    pub open spec fn is_blank(&self) -> bool {
        &&& self.capture_type@ == Seq::<char>::empty()
        &&& self.capture_confidence@ == Seq::<char>::empty()
        &&& self.capture_evidence@ == Seq::<String>::empty()
        &&& self.header_nick is None
        &&& self.analysis_scope@ == Seq::<char>::empty()
        &&& self.pov_player_user_id is None
        &&& !self.roster_match_available
        &&& self.scope_reason@ == Seq::<char>::empty()
        &&& self.mode@ == Seq::<char>::empty()
        &&& self.mode_label@ == Seq::<char>::empty()
        &&& self.mode_confidence@ == Seq::<char>::empty()
        &&& self.mode_evidence@ == Seq::<String>::empty()
    }
}

impl Default for DemoContext {
    fn default() -> (out: Self)
        ensures
            out.is_blank(),
    {
        DemoContext {
            capture_type: String::new(),
            capture_confidence: String::new(),
            capture_evidence: Vec::new(),
            header_nick: None,
            analysis_scope: String::new(),
            pov_player_user_id: None,
            roster_match_available: false,
            scope_reason: String::new(),
            mode: String::new(),
            mode_label: String::new(),
            mode_confidence: String::new(),
            mode_evidence: Vec::new(),
        }
    }
}

impl Clone for DemoContext {
    fn clone(&self) -> (out: Self)
        ensures
            out.capture_type == self.capture_type,
            out.capture_confidence == self.capture_confidence,
            out.capture_evidence@ == self.capture_evidence@,
            out.header_nick == self.header_nick,
            out.analysis_scope == self.analysis_scope,
            out.pov_player_user_id == self.pov_player_user_id,
            out.roster_match_available == self.roster_match_available,
            out.scope_reason == self.scope_reason,
            out.mode == self.mode,
            out.mode_label == self.mode_label,
            out.mode_confidence == self.mode_confidence,
            out.mode_evidence@ == self.mode_evidence@,
    {
        DemoContext {
            capture_type: self.capture_type.clone(),
            capture_confidence: self.capture_confidence.clone(),
            capture_evidence: clone_list(&self.capture_evidence),
            header_nick: match &self.header_nick {
                Some(nick) => Some(nick.clone()),
                None => None,
            },
            analysis_scope: self.analysis_scope.clone(),
            pov_player_user_id: self.pov_player_user_id,
            roster_match_available: self.roster_match_available,
            scope_reason: self.scope_reason.clone(),
            mode: self.mode.clone(),
            mode_label: self.mode_label.clone(),
            mode_confidence: self.mode_confidence.clone(),
            mode_evidence: clone_list(&self.mode_evidence),
        }
    }
}

impl Default for TickTagGroup {
    fn default() -> (out: Self)
        ensures
            out.demo_tick == 0,
            out.server_ticks@ == Seq::<i64>::empty(),
            out.tags@ == Seq::<String>::empty(),
    {
        TickTagGroup { demo_tick: 0, server_ticks: Vec::new(), tags: Vec::new() }
    }
}

impl Default for KillRecord {
    fn default() -> (out: Self)
        ensures
            out == (KillRecord {
                attacker_name: None,
                attacker_state_name: None,
                victim_user_id: None,
                victim_name: None,
                victim_state_name: None,
                victim_class: None,
                weapon: None,
                tick: None,
                server_tick: None,
                victim_airborne: false,
                airshot_eligible: false,
                direct_impact: false,
                double_donk: false,
                kritzkrieg_boost: false,
                uber_drop: false,
                rocket_jump_victim: false,
            }),
    {
        KillRecord {
            attacker_name: None,
            attacker_state_name: None,
            victim_user_id: None,
            victim_name: None,
            victim_state_name: None,
            victim_class: None,
            weapon: None,
            tick: None,
            server_tick: None,
            victim_airborne: false,
            airshot_eligible: false,
            direct_impact: false,
            double_donk: false,
            kritzkrieg_boost: false,
            uber_drop: false,
            rocket_jump_victim: false,
        }
    }
}

impl Default for ScoreItem {
    fn default() -> (out: Self)
        ensures
            out == (ScoreItem { reason: None, points: None, event_tick: None, count: None }),
    {
        ScoreItem { reason: None, points: None, event_tick: None, count: None }
    }
}

impl Default for CandidateMetrics {
    fn default() -> (out: Self)
        ensures
            out == (CandidateMetrics {
                kills: None,
                bookmarks: None,
                bookmark_score: None,
                duration_seconds: None,
            }),
    {
        CandidateMetrics {
            kills: None,
            bookmarks: None,
            bookmark_score: None,
            duration_seconds: None,
        }
    }
}

impl Default for Candidate {
    fn default() -> (out: Self)
        ensures
            out.candidate_id@ == Seq::<char>::empty(),
            out.source_demo@ == Seq::<char>::empty(),
            out.map_name@ == Seq::<char>::empty(),
            out.round_index == 0,
            out.overall_score == 0,
            out.attacker_user_id == 0,
            out.attacker_class@ == Seq::<char>::empty(),
            out.attacker_team@ == Seq::<char>::empty(),
            out.attacker_name is None,
            out.clip_start_tick == 0,
            out.clip_end_tick == 0,
            out.point_of_kill_ticks@ == Seq::<i64>::empty(),
            out.tags@ == Seq::<String>::empty(),
            out.tick_tags@ == Seq::<TickTagGroup>::empty(),
            out.sequence_tags@ == Seq::<String>::empty(),
            out.primary_tag@ == Seq::<char>::empty(),
            out.metrics.kills is None,
            out.metrics.bookmarks is None,
            out.metrics.bookmark_score is None,
            out.metrics.duration_seconds is None,
            out.kills@ == Seq::<KillRecord>::empty(),
            out.score_breakdown@ == Seq::<ScoreItem>::empty(),
            out.demo_context.is_blank(),
            out.bookmark_comment@ == Seq::<char>::empty(),
            out.bookmark_tick is None,
    {
        Candidate {
            candidate_id: String::new(),
            source_demo: String::new(),
            map_name: String::new(),
            round_index: 0,
            overall_score: 0,
            attacker_user_id: 0,
            attacker_class: String::new(),
            attacker_team: String::new(),
            attacker_name: None,
            clip_start_tick: 0,
            clip_end_tick: 0,
            point_of_kill_ticks: Vec::new(),
            tags: Vec::new(),
            tick_tags: Vec::new(),
            sequence_tags: Vec::new(),
            primary_tag: String::new(),
            metrics: CandidateMetrics::default(),
            kills: Vec::new(),
            score_breakdown: Vec::new(),
            demo_context: DemoContext::default(),
            bookmark_comment: String::new(),
            bookmark_tick: None,
        }
    }
}

// ---------------------------------------------------------------------------
// Words of identifiers
// ---------------------------------------------------------------------------

/// The runs of letters and digits completed by the end of a text, and the run
/// still open there.
pub open spec fn run_state(s: Seq<char>) -> (Seq<Seq<char>>, Seq<char>)
    decreases s.len(),
{
    if s.len() == 0 {
        (Seq::empty(), Seq::empty())
    } else {
        let (done, open) = run_state(s.drop_last());
        if is_alnum(s.last()) {
            (done, open.push(s.last()))
        } else {
            (crate::text::close_word(done, open), Seq::empty())
        }
    }
}

/// The runs of ASCII letters and digits in a text.
pub open spec fn runs(s: Seq<char>) -> Seq<Seq<char>> {
    crate::text::close_word(run_state(s).0, run_state(s).1)
}

/// The runs of ASCII letters and digits in a text.
pub fn split_runs(text: &str) -> (out: Vec<String>)
    ensures
        views(out@) == runs(text@),
{
    broadcast use lemma_views_push;

    let chars = chars_of(text);
    let mut out: Vec<String> = Vec::new();
    let mut current: Vec<char> = Vec::new();
    let mut i: usize = 0;
    assert(views(out@) =~= Seq::empty());
    while i < chars.len()
        invariant
            i <= chars.len(),
            run_state(chars@.take(i as int)) == (views(out@), current@),
        decreases chars.len() - i,
    {
        proof {
            let next = chars@.take(i + 1);
            assert(next.drop_last() =~= chars@.take(i as int));
            assert(next.last() == chars@[i as int]);
        }
        if char_is_alnum(chars[i]) {
            current.push(chars[i]);
        } else {
            if current.len() > 0 {
                out.push(string_of(&current));
            }
            current = Vec::new();
        }
        i += 1;
    }
    assert(chars@.take(chars.len() as int) =~= chars@);
    if current.len() > 0 {
        out.push(string_of(&current));
    }
    out
}

/// A word without a plural `s`, where more than four letters are there.
pub open spec fn singular(word: Seq<char>) -> Seq<char> {
    if word.len() > 4 && word.last() == 's' {
        word.drop_last()
    } else {
        word
    }
}

/// The words of an identifier, without regard to case, number and order.
pub open spec fn word_set(value: Seq<char>) -> Set<Seq<char>> {
    Seq::new(runs(lower(value)).len(), |i: int| singular(runs(lower(value))[i])).to_set()
}

/// The words of an identifier in ascending order.
pub open spec fn word_list(value: Seq<char>) -> Seq<Seq<char>> {
    choose|list: Seq<Seq<char>>| #[trigger] ascending(list) && list.to_set() == word_set(value)
}

fn singular_form(word: &str) -> (out: String)
    ensures
        out@ == singular(word@),
{
    let chars = chars_of(word);
    if chars.len() > 4 && chars[chars.len() - 1] == 's' {
        let out = string_between(&chars, 0, chars.len() - 1);
        assert(out@ =~= word@.drop_last());
        out
    } else {
        word.to_owned()
    }
}

/// The words of an identifier in ascending order.
pub fn normalized_words(value: &str) -> (out: Vec<String>)
    ensures
        views(out@) == word_list(value@),
        ascending(views(out@)),
        members(out@) == word_set(value@),
{
    broadcast use lemma_views_push;

    let found = split_runs(to_lower(value).as_str());
    let ghost all = Seq::new(
        runs(lower(value@)).len(),
        |i: int| singular(runs(lower(value@))[i]),
    );
    let mut words: Vec<String> = Vec::new();
    let mut i: usize = 0;
    while i < found.len()
        invariant
            i <= found.len(),
            views(found@) == runs(lower(value@)),
            all == Seq::new(
                runs(lower(value@)).len(),
                |i: int| singular(runs(lower(value@))[i]),
            ),
            all.len() == found.len(),
            views(words@) == all.take(i as int),
        decreases found.len() - i,
    {
        assert(views(found@)[i as int] == found@[i as int]@);
        let word = singular_form(found[i].as_str());
        assert(all.take(i + 1) =~= all.take(i as int).push(word@));
        words.push(word);
        i += 1;
    }
    assert(all.take(found.len() as int) =~= all);
    let out = sorted_distinct(&words);
    proof {
        assert(ascending(views(out@)) && views(out@).to_set() == word_set(value@));
        law_ascending_is_unique(views(out@), word_list(value@));
    }
    out
}

// ---------------------------------------------------------------------------
// The primary tag
// ---------------------------------------------------------------------------

/// Pairs of a sequence tag and the reason that earns it, where the wording of
/// the reason is more descriptive than the tag.
pub open spec fn paired(tag: Seq<char>, reason: Seq<char>) -> bool {
    ||| tag == "multi_kill"@ && reason == "additional_kills"@
    ||| tag == "double_airshot_sequence"@ && reason == "multiple_confirmed_airshots"@
    ||| tag == "team_wipe"@ && reason == "sequence_finished_enemy_team"@
    ||| tag == "medic_force"@ && reason == "enemy_medic_forced_uber_after_sequence"@
    ||| tag == "player_count_swing"@ && reason == "sequence_created_player_count_window"@
    ||| tag == "round_clinch"@ && reason == "team_won_immediately_after_sequence"@
    ||| tag == "building_to_kill_sequence"@ && reason == "building_destruction_led_to_kills"@
    ||| tag == "capture_denial_followup"@ && reason == "kill_sequence_blocked_capture"@
    ||| tag == "payload_progress_followup"@ && reason == "kill_sequence_led_to_payload_progress"@
}

fn is_paired(tag: &str, reason: &str) -> (r: bool)
    ensures
        r == paired(tag@, reason@),
{
    (same_text(tag, "multi_kill") && same_text(reason, "additional_kills")) || (same_text(
        tag,
        "double_airshot_sequence",
    ) && same_text(reason, "multiple_confirmed_airshots")) || (same_text(tag, "team_wipe")
        && same_text(reason, "sequence_finished_enemy_team")) || (same_text(tag, "medic_force")
        && same_text(reason, "enemy_medic_forced_uber_after_sequence")) || (same_text(
        tag,
        "player_count_swing",
    ) && same_text(reason, "sequence_created_player_count_window")) || (same_text(
        tag,
        "round_clinch",
    ) && same_text(reason, "team_won_immediately_after_sequence")) || (same_text(
        tag,
        "building_to_kill_sequence",
    ) && same_text(reason, "building_destruction_led_to_kills")) || (same_text(
        tag,
        "capture_denial_followup",
    ) && same_text(reason, "kill_sequence_blocked_capture")) || (same_text(
        tag,
        "payload_progress_followup",
    ) && same_text(reason, "kill_sequence_led_to_payload_progress"))
}

/// How many of the first words occur among the second.
pub open spec fn shared_words(a: Seq<Seq<char>>, b: Seq<Seq<char>>) -> nat
    decreases a.len(),
{
    if a.len() == 0 {
        0
    } else {
        shared_words(a.drop_last(), b) + if b.contains(a.last()) {
            1nat
        } else {
            0
        }
    }
}

/// How strongly a reason speaks for a tag: all words found, or a pairing, counts in
/// full; a share of the words counts with 65 percent.
pub open spec fn match_strength(tag: Seq<char>, reason: Seq<char>) -> int {
    let tag_words = word_list(tag);
    let reason_words = word_list(reason);
    let shared = shared_words(tag_words, reason_words);
    if tag_words.len() == 0 || reason_words.len() == 0 {
        0
    } else if shared == tag_words.len() || paired(tag, reason) {
        natural(1) as int
    } else if shared == 0 {
        0
    } else {
        product(
            quotient(natural(shared), natural(tag_words.len())) as int,
            fraction(65, 100) as int,
        )
    }
}

/// How strongly a reason speaks for a tag.
pub fn tag_reason_match_strength(tag: &str, reason: &str) -> (out: Double)
    ensures
        out.value() == match_strength(tag@, reason@),
        out.value() >= 0,
{
    let tag_words = normalized_words(tag);
    let reason_words = normalized_words(reason);
    if tag_words.len() == 0 || reason_words.len() == 0 {
        return Double::zero();
    }
    let mut shared: usize = 0;
    let mut i: usize = 0;
    while i < tag_words.len()
        invariant
            i <= tag_words.len(),
            shared <= i,
            shared == shared_words(views(tag_words@).take(i as int), views(reason_words@)),
        decreases tag_words.len() - i,
    {
        proof {
            let next = views(tag_words@).take(i + 1);
            assert(next.drop_last() =~= views(tag_words@).take(i as int));
            assert(next.last() == tag_words@[i as int]@);
        }
        if list_contains(&reason_words, tag_words[i].as_str()) {
            shared += 1;
        }
        i += 1;
    }
    assert(views(tag_words@).take(tag_words.len() as int) =~= views(tag_words@));
    if shared == tag_words.len() || is_paired(tag, reason) {
        Double::natural(1)
    } else if shared == 0 {
        Double::zero()
    } else {
        Double::natural(shared as u64).over(Double::natural(tag_words.len() as u64)).times(
            Double::fraction(65, 100),
        )
    }
}

/// What one line of the evidence is worth for a tag.
pub open spec fn item_worth(tag: Seq<char>, item: ScoreItem) -> int {
    match item.points {
        Some(points) if points > 0 => {
            let reason = match item.reason {
                Some(reason) => reason@,
                None => Seq::empty(),
            };
            if match_strength(tag, reason) > 0 {
                product(fraction(points as nat, 100) as int, match_strength(tag, reason))
            } else {
                0
            }
        },
        _ => 0,
    }
}

/// What the strongest line of the evidence is worth for a tag.
pub open spec fn evidence(tag: Seq<char>, items: Seq<ScoreItem>) -> int
    decreases items.len(),
{
    if items.len() == 0 {
        0
    } else {
        let before = evidence(tag, items.drop_last());
        let worth = item_worth(tag, items.last());
        if worth > before {
            worth
        } else {
            before
        }
    }
}

fn tag_evidence(tag: &str, items: &Vec<ScoreItem>) -> (out: Double)
    ensures
        out.value() == evidence(tag@, items@),
{
    let mut best = Double::zero();
    let mut i: usize = 0;
    while i < items.len()
        invariant
            i <= items.len(),
            best.value() == evidence(tag@, items@.take(i as int)),
            best.value() >= 0,
        decreases items.len() - i,
    {
        proof {
            let next = items@.take(i + 1);
            assert(next.drop_last() =~= items@.take(i as int));
            assert(next.last() == items@[i as int]);
        }
        if let Some(points) = items[i].points {
            if points > 0 {
                let strength = match &items[i].reason {
                    Some(reason) => tag_reason_match_strength(tag, reason.as_str()),
                    None => tag_reason_match_strength(tag, ""),
                };
                proof {
                    reveal_strlit("");
                    assert(""@ =~= Seq::<char>::empty());
                }
                if Double::zero().less(strength) {
                    let worth = Double::fraction(points as u64, 100).times(strength);
                    if best.less(worth) {
                        best = worth;
                    }
                }
            }
        }
        i += 1;
    }
    assert(items@.take(items.len() as int) =~= items@);
    best
}

/// At how many ticks a tag was earned.
pub open spec fn tick_count(tag: Seq<char>, groups: Seq<TickTagGroup>) -> nat
    decreases groups.len(),
{
    if groups.len() == 0 {
        0
    } else {
        tick_count(tag, groups.drop_last()) + if views(groups.last().tags@).contains(tag) {
            1nat
        } else {
            0
        }
    }
}

fn count_ticks(tag: &str, groups: &Vec<TickTagGroup>) -> (out: usize)
    ensures
        out == tick_count(tag@, groups@),
{
    let mut count: usize = 0;
    let mut i: usize = 0;
    while i < groups.len()
        invariant
            i <= groups.len(),
            count <= i,
            count == tick_count(tag@, groups@.take(i as int)),
        decreases groups.len() - i,
    {
        proof {
            let next = groups@.take(i + 1);
            assert(next.drop_last() =~= groups@.take(i as int));
            assert(next.last() == groups@[i as int]);
        }
        if list_contains(&groups[i].tags, tag) {
            count += 1;
        }
        i += 1;
    }
    assert(groups@.take(groups.len() as int) =~= groups@);
    count
}

/// What tags are ranked by: the worth of the evidence, then the number of ticks, then
/// whether the tag stands for the sequence, then the number of words.
pub struct TagRank {
    pub evidence: int,
    pub ticks: nat,
    pub sequence_wide: bool,
    pub specificity: nat,
}

/// The rank of a tag.
pub open spec fn rank_of(
    tag: Seq<char>,
    tick_tags: Seq<TickTagGroup>,
    sequence_tags: Seq<Seq<char>>,
    items: Seq<ScoreItem>,
) -> TagRank {
    TagRank {
        evidence: evidence(tag, items),
        ticks: tick_count(tag, tick_tags),
        sequence_wide: sequence_tags.contains(tag),
        specificity: word_list(tag).len(),
    }
}

/// Whether the first rank is higher, where a tie in rank goes to the text that
/// stands earlier.
pub open spec fn outranks(a: TagRank, a_tag: Seq<char>, b: TagRank, b_tag: Seq<char>) -> bool {
    if a.evidence != b.evidence {
        a.evidence > b.evidence
    } else if a.ticks != b.ticks {
        a.ticks > b.ticks
    } else if a.sequence_wide != b.sequence_wide {
        a.sequence_wide
    } else if a.specificity != b.specificity {
        a.specificity > b.specificity
    } else {
        lex_less(a_tag, b_tag)
    }
}

/// The tag of the highest rank in a list.
pub open spec fn highest(
    tags: Seq<Seq<char>>,
    tick_tags: Seq<TickTagGroup>,
    sequence_tags: Seq<Seq<char>>,
    items: Seq<ScoreItem>,
) -> Option<Seq<char>>
    decreases tags.len(),
{
    if tags.len() == 0 {
        None
    } else {
        let tag = tags.last();
        match highest(tags.drop_last(), tick_tags, sequence_tags, items) {
            None => Some(tag),
            Some(best) => if outranks(
                rank_of(tag, tick_tags, sequence_tags, items),
                tag,
                rank_of(best, tick_tags, sequence_tags, items),
                best,
            ) {
                Some(tag)
            } else {
                Some(best)
            },
        }
    }
}

/// The texts of a list that are more than white space.
pub open spec fn worded(list: Seq<Seq<char>>) -> Seq<Seq<char>>
    decreases list.len(),
{
    if list.len() == 0 {
        list
    } else if trimmed(list.last()).len() > 0 {
        worded(list.drop_last()).push(list.last())
    } else {
        worded(list.drop_last())
    }
}

/// The texts of a list in ascending order, each once.
pub open spec fn ordered(list: Seq<Seq<char>>) -> Seq<Seq<char>> {
    choose|out: Seq<Seq<char>>| #[trigger] ascending(out) && out.to_set() == list.to_set()
}

/// The rank of a tag, as plain values.
struct TagStanding {
    evidence: Double,
    ticks: usize,
    sequence_wide: bool,
    specificity: usize,
}

impl TagStanding {
    spec fn model(&self) -> TagRank {
        TagRank {
            evidence: self.evidence.value(),
            ticks: self.ticks as nat,
            sequence_wide: self.sequence_wide,
            specificity: self.specificity as nat,
        }
    }
}

fn make_rank(
    tag: &str,
    tick_tags: &Vec<TickTagGroup>,
    sequence_tags: &Vec<String>,
    items: &Vec<ScoreItem>,
) -> (out: TagStanding)
    ensures
        out.model() == rank_of(tag@, tick_tags@, views(sequence_tags@), items@),
{
    let words = normalized_words(tag);
    assert(views(words@).len() == words.len());
    TagStanding {
        evidence: tag_evidence(tag, items),
        ticks: count_ticks(tag, tick_tags),
        sequence_wide: list_contains(sequence_tags, tag),
        specificity: words.len(),
    }
}

fn rank_is_higher(a: &TagStanding, a_tag: &str, b: &TagStanding, b_tag: &str) -> (r: bool)
    ensures
        r == outranks(a.model(), a_tag@, b.model(), b_tag@),
{
    if a.evidence.less(b.evidence) {
        false
    } else if b.evidence.less(a.evidence) {
        true
    } else if a.ticks != b.ticks {
        a.ticks > b.ticks
    } else if a.sequence_wide != b.sequence_wide {
        a.sequence_wide
    } else if a.specificity != b.specificity {
        a.specificity > b.specificity
    } else {
        text_less(a_tag, b_tag)
    }
}

fn worded_only(list: &Vec<String>) -> (out: Vec<String>)
    ensures
        views(out@) == worded(views(list@)),
{
    broadcast use lemma_views_push;

    let mut out: Vec<String> = Vec::new();
    let mut i: usize = 0;
    assert(views(out@) =~= worded(views(list@).take(0)));
    while i < list.len()
        invariant
            i <= list.len(),
            views(out@) == worded(views(list@).take(i as int)),
        decreases list.len() - i,
    {
        proof {
            let next = views(list@).take(i + 1);
            assert(next.drop_last() =~= views(list@).take(i as int));
            assert(next.last() == list@[i as int]@);
        }
        let bare = trim(list[i].as_str());
        if !bare.as_str().is_empty() {
            out.push(list[i].clone());
        }
        i += 1;
    }
    assert(views(list@).take(list.len() as int) =~= views(list@));
    out
}

/// The tag that the evidence speaks for most strongly.
pub fn infer_primary_tag(
    tags: &Vec<String>,
    tick_tags: &Vec<TickTagGroup>,
    sequence_tags: &Vec<String>,
    score_breakdown: &Vec<ScoreItem>,
) -> (out: Option<String>)
    ensures
        match out {
            Some(tag) => worded(views(tags@)).len() > 0 && highest(
                ordered(worded(views(tags@))),
                tick_tags@,
                views(sequence_tags@),
                score_breakdown@,
            ) == Some(tag@),
            None => worded(views(tags@)).len() == 0,
        },
{
    let unique = sorted_distinct(&worded_only(tags));
    proof {
        assert(ascending(views(unique@)) && views(unique@).to_set() == worded(
            views(tags@),
        ).to_set());
        law_ascending_is_unique(views(unique@), ordered(worded(views(tags@))));
    }
    if unique.len() == 0 {
        proof {
            let list = worded(views(tags@));
            if list.len() > 0 {
                assert(list.to_set().contains(list[0]));
                assert(views(unique@).to_set().contains(list[0]));
            }
        }
        return None;
    }
    assert(worded(views(tags@)).len() > 0) by {
        assert(views(unique@).to_set().contains(views(unique@)[0]));
        assert(worded(views(tags@)).to_set().contains(views(unique@)[0]));
    }
    let mut best: usize = 0;
    let mut best_rank = make_rank(unique[0].as_str(), tick_tags, sequence_tags, score_breakdown);
    let mut i: usize = 1;
    proof {
        let one = views(unique@).take(1);
        assert(one.drop_last() =~= Seq::empty());
        assert(one.last() == unique@[0]@);
        assert(highest(one.drop_last(), tick_tags@, views(sequence_tags@), score_breakdown@)
            is None);
    }
    while i < unique.len()
        invariant
            1 <= i <= unique.len(),
            best < i,
            best_rank.model() == rank_of(
                unique@[best as int]@,
                tick_tags@,
                views(sequence_tags@),
                score_breakdown@,
            ),
            highest(
                views(unique@).take(i as int),
                tick_tags@,
                views(sequence_tags@),
                score_breakdown@,
            ) == Some(unique@[best as int]@),
        decreases unique.len() - i,
    {
        proof {
            let next = views(unique@).take(i + 1);
            assert(next.drop_last() =~= views(unique@).take(i as int));
            assert(next.last() == unique@[i as int]@);
        }
        let rank = make_rank(unique[i].as_str(), tick_tags, sequence_tags, score_breakdown);
        if rank_is_higher(&rank, unique[i].as_str(), &best_rank, unique[best].as_str()) {
            best = i;
            best_rank = rank;
        }
        i += 1;
    }
    assert(views(unique@).take(unique.len() as int) =~= views(unique@));
    Some(unique[best].clone())
}

/// The first group with tags of the earliest tick that has any; its index.
pub open spec fn earliest_group(groups: Seq<TickTagGroup>) -> Option<int>
    decreases groups.len(),
{
    if groups.len() == 0 {
        None
    } else {
        let last = groups.len() - 1;
        match earliest_group(groups.drop_last()) {
            None => if groups.last().tags.len() > 0 {
                Some(last)
            } else {
                None
            },
            Some(best) => if groups.last().tags.len() > 0 && groups.last().demo_tick
                < groups[best].demo_tick {
                Some(last)
            } else {
                Some(best)
            },
        }
    }
}

/// The first text of a list that is more than white space.
pub open spec fn first_worded(list: Seq<Seq<char>>) -> Option<Seq<char>> {
    if worded(list).len() > 0 {
        Some(worded(list)[0])
    } else {
        None
    }
}

/// The first tag on the earliest tick.
pub open spec fn earliest_tag(groups: Seq<TickTagGroup>) -> Option<Seq<char>> {
    match earliest_group(groups) {
        Some(best) => first_worded(views(groups[best].tags@)),
        None => None,
    }
}

/// The tag of a candidate comes from the earliest tick that has any tags, and of
/// several groups at that tick from the first.
pub proof fn law_earliest_tick_comes_first(groups: Seq<TickTagGroup>)
    ensures
        earliest_group(groups) matches Some(best) ==> 0 <= best < groups.len()
            && groups[best].tags.len() > 0 && forall|i: int|
            0 <= i < groups.len() && (#[trigger] groups[i]).tags.len() > 0 ==> {
                ||| groups[best].demo_tick < groups[i].demo_tick
                ||| groups[best].demo_tick == groups[i].demo_tick && best <= i
            },
        earliest_group(groups) is None ==> forall|i: int|
            0 <= i < groups.len() ==> (#[trigger] groups[i]).tags.len() == 0,
    decreases groups.len(),
{
    if groups.len() > 0 {
        law_earliest_tick_comes_first(groups.drop_last());
        assert(forall|i: int|
            0 <= i < groups.len() - 1 ==> #[trigger] groups[i] == groups.drop_last()[i]);
    }
}

/// The tag after which a recording is filed: the first tag on the earliest tick,
/// else the tag chosen before where it is still there, else the tag that the
/// evidence speaks for.
pub open spec fn primary_from(
    groups: Seq<TickTagGroup>,
    chosen: Seq<char>,
    tags: Seq<Seq<char>>,
    sequence_tags: Seq<Seq<char>>,
    breakdown: Seq<ScoreItem>,
) -> Seq<char> {
    match earliest_tag(groups) {
        Some(tag) => tag,
        None => if trimmed(chosen).len() > 0 && tags.contains(chosen) {
            chosen
        } else if worded(tags).len() == 0 {
            "other"@
        } else {
            highest(ordered(worded(tags)), groups, sequence_tags, breakdown)->0
        },
    }
}

impl Candidate {
    /// How many kills the candidate has.
    pub fn kill_count(&self) -> (out: usize)
        ensures
            out == self.kill_total(),
    {
        match self.metrics.kills {
            Some(kills) => kills as usize,
            None => self.kills.len(),
        }
    }

    /// How many kills the candidate has.
    pub open spec fn kill_total(&self) -> usize {
        match self.metrics.kills {
            Some(kills) => kills as usize,
            None => self.kills.len(),
        }
    }

    /// The tag after which the candidate's recording is filed.
    pub open spec fn primary(&self) -> Seq<char> {
        primary_from(
            self.tick_tags@,
            self.primary_tag@,
            views(self.tags@),
            views(self.sequence_tags@),
            self.score_breakdown@,
        )
    }

    /// The tag after which the candidate's recording is filed.
    pub fn inferred_primary_tag(&self) -> (out: String)
        ensures
            out@ == self.primary(),
    {
        if let Some(tag) = find_earliest_tag(&self.tick_tags) {
            return tag;
        }
        let bare = trim(self.primary_tag.as_str());
        if !bare.as_str().is_empty() && list_contains(&self.tags, self.primary_tag.as_str()) {
            return self.primary_tag.clone();
        }
        match infer_primary_tag(
            &self.tags,
            &self.tick_tags,
            &self.sequence_tags,
            &self.score_breakdown,
        ) {
            Some(tag) => tag,
            None => "other".to_owned(),
        }
    }
}

fn find_earliest_tag(groups: &Vec<TickTagGroup>) -> (out: Option<String>)
    ensures
        match out {
            Some(tag) => earliest_tag(groups@) == Some(tag@),
            None => earliest_tag(groups@) is None,
        },
{
    let mut best: Option<usize> = None;
    let mut i: usize = 0;
    while i < groups.len()
        invariant
            i <= groups.len(),
            match best {
                Some(b) => b < i && earliest_group(groups@.take(i as int)) == Some(b as int),
                None => earliest_group(groups@.take(i as int)) is None,
            },
        decreases groups.len() - i,
    {
        proof {
            let next = groups@.take(i + 1);
            assert(next.drop_last() =~= groups@.take(i as int));
            assert(next.last() == groups@[i as int]);
            if best is Some {
                assert(next[best->0 as int] == groups@[best->0 as int]);
            }
        }
        if groups[i].tags.len() > 0 {
            match best {
                Some(b) => {
                    if groups[i].demo_tick < groups[b].demo_tick {
                        best = Some(i);
                    }
                },
                None => {
                    best = Some(i);
                },
            }
        }
        i += 1;
    }
    assert(groups@.take(groups.len() as int) =~= groups@);
    match best {
        Some(b) => {
            let kept = worded_only(&groups[b].tags);
            if kept.len() > 0 {
                assert(views(kept@)[0] == kept@[0]@);
                Some(kept[0].clone())
            } else {
                assert(views(kept@).len() == 0);
                None
            }
        },
        None => None,
    }
}

proof fn lemma_outranks(
    a: TagRank,
    a_tag: Seq<char>,
    b: TagRank,
    b_tag: Seq<char>,
    c: TagRank,
    c_tag: Seq<char>,
)
    ensures
        outranks(a, a_tag, b, b_tag) && outranks(b, b_tag, c, c_tag) ==> outranks(
            a,
            a_tag,
            c,
            c_tag,
        ),
        !outranks(a, a_tag, b, b_tag) && !outranks(b, b_tag, c, c_tag) ==> !outranks(
            a,
            a_tag,
            c,
            c_tag,
        ),
{
    lemma_lex_total(a_tag, b_tag);
    lemma_lex_total(b_tag, c_tag);
    lemma_lex_total(a_tag, c_tag);
    if lex_less(a_tag, b_tag) && lex_less(b_tag, c_tag) {
        lemma_lex_transitive(a_tag, b_tag, c_tag);
    }
    if lex_less(a_tag, c_tag) && lex_less(c_tag, b_tag) {
        lemma_lex_transitive(a_tag, c_tag, b_tag);
    }
    if lex_less(b_tag, a_tag) && lex_less(a_tag, c_tag) {
        lemma_lex_transitive(b_tag, a_tag, c_tag);
    }
}

/// The tag that is chosen by the evidence is one of the tags, and none has stronger
/// evidence; of several with the strongest, none is on more ticks.
pub proof fn law_strongest_tag_is_chosen(
    tags: Seq<Seq<char>>,
    tick_tags: Seq<TickTagGroup>,
    sequence_tags: Seq<Seq<char>>,
    items: Seq<ScoreItem>,
)
    requires
        tags.len() > 0,
    ensures
        highest(tags, tick_tags, sequence_tags, items) matches Some(best) && tags.contains(best)
            && forall|i: int|
            #![trigger tags[i]]
            0 <= i < tags.len() ==> evidence(tags[i], items) <= evidence(best, items) && (evidence(
                tags[i],
                items,
            ) == evidence(best, items) ==> tick_count(tags[i], tick_tags) <= tick_count(
                best,
                tick_tags,
            )),
{
    lemma_highest(tags, tick_tags, sequence_tags, items);
}

proof fn lemma_highest(
    tags: Seq<Seq<char>>,
    tick_tags: Seq<TickTagGroup>,
    sequence_tags: Seq<Seq<char>>,
    items: Seq<ScoreItem>,
)
    ensures
        match highest(tags, tick_tags, sequence_tags, items) {
            Some(best) => tags.contains(best) && forall|i: int|
                #![trigger tags[i]]
                0 <= i < tags.len() ==> !outranks(
                    rank_of(tags[i], tick_tags, sequence_tags, items),
                    tags[i],
                    rank_of(best, tick_tags, sequence_tags, items),
                    best,
                ),
            None => tags.len() == 0,
        },
    decreases tags.len(),
{
    if tags.len() > 0 {
        let rest = tags.drop_last();
        let last = tags.len() - 1;
        let tag = tags.last();
        lemma_highest(rest, tick_tags, sequence_tags, items);
        assert(tags[last] == tag);
        lemma_lex_irreflexive(tag);
        if let Some(known) = highest(rest, tick_tags, sequence_tags, items) {
            let k = choose|k: int| 0 <= k < rest.len() && rest[k] == known;
            assert(tags[k] == known);
            lemma_lex_irreflexive(known);
            let best = highest(tags, tick_tags, sequence_tags, items)->0;
            assert forall|i: int|
                #![trigger tags[i]]
                0 <= i < tags.len() implies !outranks(
                rank_of(tags[i], tick_tags, sequence_tags, items),
                tags[i],
                rank_of(best, tick_tags, sequence_tags, items),
                best,
            ) by {
                if i < last {
                    assert(rest[i] == tags[i]);
                    lemma_outranks(
                        rank_of(rest[i], tick_tags, sequence_tags, items),
                        rest[i],
                        rank_of(tag, tick_tags, sequence_tags, items),
                        tag,
                        rank_of(known, tick_tags, sequence_tags, items),
                        known,
                    );
                }
            }
        }
    }
}

/// The evidence for a tag is what its strongest line is worth: no line is worth more, and
/// where it is worth anything, some line is worth that.
pub proof fn law_evidence_is_the_strongest_line(tag: Seq<char>, items: Seq<ScoreItem>)
    ensures
        evidence(tag, items) >= 0,
        forall|i: int|
            0 <= i < items.len() ==> item_worth(tag, #[trigger] items[i]) <= evidence(tag, items),
        evidence(tag, items) > 0 ==> exists|i: int|
            0 <= i < items.len() && item_worth(tag, #[trigger] items[i]) == evidence(tag, items),
    decreases items.len(),
{
    if items.len() > 0 {
        let rest = items.drop_last();
        let last = items.len() - 1;
        law_evidence_is_the_strongest_line(tag, rest);
        assert(items[last] == items.last());
        assert forall|i: int| 0 <= i < last implies #[trigger] items[i] == rest[i] by {
        }
        if evidence(tag, rest) > 0 {
            let i = choose|i: int|
                0 <= i < rest.len() && item_worth(tag, #[trigger] rest[i]) == evidence(tag, rest);
            assert(items[i] == rest[i]);
        }
    }
}

/// A line without points, or that takes points away, speaks for no tag.
pub proof fn law_losses_speak_for_no_tag(tag: Seq<char>, item: ScoreItem)
    requires
        item.points matches Some(points) ==> points <= 0,
    ensures
        item_worth(tag, item) == 0,
{
}

/// A recording is filed under the first tag of the earliest tick where there is one, else
/// under the tag that was chosen where it is still there, and under "other" without tags.
pub proof fn law_recordings_are_filed(
    groups: Seq<TickTagGroup>,
    chosen: Seq<char>,
    tags: Seq<Seq<char>>,
    sequence_tags: Seq<Seq<char>>,
    breakdown: Seq<ScoreItem>,
)
    ensures
        earliest_tag(groups) matches Some(tag) ==> primary_from(
            groups,
            chosen,
            tags,
            sequence_tags,
            breakdown,
        ) == tag,
        earliest_tag(groups) is None && tags.contains(chosen) && trimmed(chosen).len() > 0
            ==> primary_from(groups, chosen, tags, sequence_tags, breakdown) == chosen,
        earliest_tag(groups) is None && tags.len() == 0 ==> primary_from(
            groups,
            chosen,
            tags,
            sequence_tags,
            breakdown,
        ) == "other"@,
{
}

} // verus!
