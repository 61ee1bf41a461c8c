//! What is told of a candidate in words.
use vstd::prelude::*;
use crate::double::{show_tenths, shown_tenths};
use crate::encoding::optional;
use crate::floating::{natural, quotient, tenths, Double};
use crate::models::{ordered, Candidate, KillRecord, ScoreItem};
use crate::number::{i64_text, int_text, nat_text, u64_text};
use crate::order::{ascending, law_ascending_is_unique, sorted_distinct};
use crate::preflight::u128_text;
use crate::space::tick_rate;
use crate::text::{
    begins_with, chars_of, has_text, join, joined, lemma_text_has_itself, lemma_text_stays,
    list_contains, lower, replace_chars, replaced, same_text, string_between, to_lower, to_upper,
    trim, trimmed, upper, views,
};

verus! {

// ---------------------------------------------------------------------------
// Names
// ---------------------------------------------------------------------------

/// The upper case of a text by Unicode's rules, as `str::to_uppercase` gives it.
pub uninterp spec fn unicode_upper(text: Seq<char>) -> Seq<char>;

/// Wraps `str::to_uppercase`: the result is the text in upper case by Unicode's
/// rules, which depends on the text alone. Nothing is said of what those rules
/// are.
#[verifier::external_body]
pub(crate) fn to_uppercase(text: &str) -> (out: String)
    ensures
        out@ == unicode_upper(text@),
{
    text.to_uppercase()
}

/// A name with spaces between its words.
pub open spec fn spaced(value: Seq<char>) -> Seq<char> {
    replaced(trimmed(value), seq!['_', '-'], ' ')
}

/// A name with spaces between its words, whose first letter is given.
pub open spec fn capitalized_with(words: Seq<char>, first: Seq<char>) -> Seq<char> {
    if words.len() == 0 {
        Seq::empty()
    } else {
        first + words.skip(1)
    }
}

/// A name as it is shown: with spaces between its words, and a capital letter.
pub open spec fn humanized(value: Seq<char>) -> Seq<char> {
    capitalized_with(spaced(value), unicode_upper(spaced(value).take(1)))
}

/// A name with its first letter replaced.
pub fn capitalize_with(words: &str, first: &str) -> (out: String)
    ensures
        out@ == capitalized_with(words@, first@),
{
    let chars = chars_of(words);
    if chars.len() == 0 {
        let out = String::new();
        assert(out@ =~= Seq::empty());
        return out;
    }
    let rest = string_between(&chars, 1, chars.len());
    assert(rest@ =~= words@.skip(1));
    let mut out = first.to_owned();
    out.append(rest.as_str());
    out
}

/// A name as it is shown.
pub fn humanize_identifier(value: &str) -> (out: String)
    ensures
        out@ == humanized(value@),
{
    proof {
        reveal_strlit("_-");
        assert("_-"@ =~= seq!['_', '-']);
    }
    let words = replace_chars(trim(value).as_str(), "_-", ' ');
    let chars = chars_of(words.as_str());
    let head: usize = if chars.len() > 0 {
        1
    } else {
        0
    };
    let first = string_between(&chars, 0, head);
    proof {
        if head == 1 {
            assert(first@ =~= words@.take(1));
        }
    }
    capitalize_with(words.as_str(), to_uppercase(first.as_str()).as_str())
}

/// The first of two names that is known.
pub open spec fn either(a: Option<Seq<char>>, b: Option<Seq<char>>) -> Option<Seq<char>> {
    if a is Some {
        a
    } else {
        b
    }
}

/// How a weapon is called, the first part.
pub open spec fn weapon_first(value: Seq<char>) -> Option<Seq<char>> {
    if value == "grenadelauncher"@ || value == "tf_projectile_pipe"@ {
        Some("Grenade Launcher"@)
    } else if value == "stickybomb_launcher"@ || value == "tf_projectile_pipe_remote"@ {
        Some("Stickybomb Launcher"@)
    } else if value == "quickiebomb_launcher"@ {
        Some("Quickiebomb Launcher"@)
    } else if value == "loch_n_load"@ {
        Some("Loch-n-Load"@)
    } else if value == "iron_bomber"@ {
        Some("Iron Bomber"@)
    } else if value == "loose_cannon"@ || value == "loose_cannon_impact"@ || value == "loose_cannon_explosion"@ {
        Some("Loose Cannon"@)
    } else if value == "rocketlauncher"@ {
        Some("Rocket Launcher"@)
    } else if value == "directhit"@ {
        Some("Direct Hit"@)
    } else if value == "blackbox"@ {
        Some("Black Box"@)
    } else if value == "liberty_launcher"@ {
        Some("Liberty Launcher"@)
    } else if value == "airstrike"@ {
        Some("Air Strike"@)
    } else if value == "market_gardener"@ {
        Some("Market Gardener"@)
    } else {
        None
    }
}

fn find_weapon_first(value: &str) -> (out: Option<&'static str>)
    ensures
        match out {
            Some(text) => weapon_first(value@) == Some(text@),
            None => weapon_first(value@) is None,
        },
{
    if same_text(value, "grenadelauncher") || same_text(value, "tf_projectile_pipe") {
        Some("Grenade Launcher")
    } else if same_text(value, "stickybomb_launcher") || same_text(value, "tf_projectile_pipe_remote") {
        Some("Stickybomb Launcher")
    } else if same_text(value, "quickiebomb_launcher") {
        Some("Quickiebomb Launcher")
    } else if same_text(value, "loch_n_load") {
        Some("Loch-n-Load")
    } else if same_text(value, "iron_bomber") {
        Some("Iron Bomber")
    } else if same_text(value, "loose_cannon") || same_text(value, "loose_cannon_impact") || same_text(value, "loose_cannon_explosion") {
        Some("Loose Cannon")
    } else if same_text(value, "rocketlauncher") {
        Some("Rocket Launcher")
    } else if same_text(value, "directhit") {
        Some("Direct Hit")
    } else if same_text(value, "blackbox") {
        Some("Black Box")
    } else if same_text(value, "liberty_launcher") {
        Some("Liberty Launcher")
    } else if same_text(value, "airstrike") {
        Some("Air Strike")
    } else if same_text(value, "market_gardener") {
        Some("Market Gardener")
    } else {
        None
    }
}

/// How a weapon is called, the second part.
pub open spec fn weapon_second(value: Seq<char>) -> Option<Seq<char>> {
    if value == "sniperrifle"@ {
        Some("Sniper Rifle"@)
    } else if value == "compound_bow"@ || value == "huntsman"@ {
        Some("Huntsman"@)
    } else if value == "crusaders_crossbow"@ || value == "crossbow"@ {
        Some("Crusader's Crossbow"@)
    } else if value == "knife"@ {
        Some("Knife"@)
    } else if value == "backburner"@ {
        Some("Backburner"@)
    } else if value == "flaregun"@ {
        Some("Flare Gun"@)
    } else if value == "detonator"@ {
        Some("Detonator"@)
    } else if value == "scorch_shot"@ {
        Some("Scorch Shot"@)
    } else if value == ""@ {
        Some("Unknown weapon"@)
    } else {
        None
    }
}

fn find_weapon_second(value: &str) -> (out: Option<&'static str>)
    ensures
        match out {
            Some(text) => weapon_second(value@) == Some(text@),
            None => weapon_second(value@) is None,
        },
{
    if same_text(value, "sniperrifle") {
        Some("Sniper Rifle")
    } else if same_text(value, "compound_bow") || same_text(value, "huntsman") {
        Some("Huntsman")
    } else if same_text(value, "crusaders_crossbow") || same_text(value, "crossbow") {
        Some("Crusader's Crossbow")
    } else if same_text(value, "knife") {
        Some("Knife")
    } else if same_text(value, "backburner") {
        Some("Backburner")
    } else if same_text(value, "flaregun") {
        Some("Flare Gun")
    } else if same_text(value, "detonator") {
        Some("Detonator")
    } else if same_text(value, "scorch_shot") {
        Some("Scorch Shot")
    } else if same_text(value, "") {
        Some("Unknown weapon")
    } else {
        None
    }
}

/// How a weapon is called.
pub open spec fn plain_weapon(value: Seq<char>) -> Seq<char> {
    let known = either(weapon_first(value), weapon_second(value));
    match known {
        Some(text) => text,
        None => humanized(value),
    }
}

/// How a weapon is called.
pub fn say_plain_weapon(value: &str) -> (out: String)
    ensures
        out@ == plain_weapon(value@),
{
    if let Some(text) = find_weapon_first(value) {
        return text.to_owned();
    }
    if let Some(text) = find_weapon_second(value) {
        return text.to_owned();
    }
    humanize_identifier(value)
}

/// How a weapon is called.
pub open spec fn weapon_name(value: Seq<char>) -> Seq<char> {
    plain_weapon(lower(trimmed(value)))
}

/// How a weapon is called.
pub fn humanize_weapon(value: &str) -> (out: String)
    ensures
        out@ == weapon_name(value@),
{
    say_plain_weapon(to_lower(trim(value).as_str()).as_str())
}

/// How a tag is called, the first part.
pub open spec fn tag_first(value: Seq<char>) -> Option<Seq<char>> {
    if value == "confirmed_airshot"@ {
        Some("confirmed airshot"@)
    } else if value == "direct_airshot"@ {
        Some("direct-hit airshot"@)
    } else if value == "long_flight_airshot"@ {
        Some("long-flight airshot"@)
    } else if value == "high_airshot"@ {
        Some("high relative airshot"@)
    } else if value == "skyward_airshot"@ {
        Some("steep skyward airshot"@)
    } else if value == "extreme_airshot"@ {
        Some("extreme skyward airshot"@)
    } else if value == "double_airshot_sequence"@ {
        Some("double-airshot sequence"@)
    } else if value == "airborne_projectile_kill"@ {
        Some("airborne projectile kill"@)
    } else if value == "rocket_jump_victim"@ {
        Some("rocket-jumping opponent kill"@)
    } else if value == "double_donk"@ {
        Some("double donk"@)
    } else if value == "market_garden"@ {
        Some("Market Garden"@)
    } else if value == "medic_pick"@ {
        Some("Medic pick"@)
    } else {
        None
    }
}

fn find_tag_first(value: &str) -> (out: Option<&'static str>)
    ensures
        match out {
            Some(text) => tag_first(value@) == Some(text@),
            None => tag_first(value@) is None,
        },
{
    if same_text(value, "confirmed_airshot") {
        Some("confirmed airshot")
    } else if same_text(value, "direct_airshot") {
        Some("direct-hit airshot")
    } else if same_text(value, "long_flight_airshot") {
        Some("long-flight airshot")
    } else if same_text(value, "high_airshot") {
        Some("high relative airshot")
    } else if same_text(value, "skyward_airshot") {
        Some("steep skyward airshot")
    } else if same_text(value, "extreme_airshot") {
        Some("extreme skyward airshot")
    } else if same_text(value, "double_airshot_sequence") {
        Some("double-airshot sequence")
    } else if same_text(value, "airborne_projectile_kill") {
        Some("airborne projectile kill")
    } else if same_text(value, "rocket_jump_victim") {
        Some("rocket-jumping opponent kill")
    } else if same_text(value, "double_donk") {
        Some("double donk")
    } else if same_text(value, "market_garden") {
        Some("Market Garden")
    } else if same_text(value, "medic_pick") {
        Some("Medic pick")
    } else {
        None
    }
}

/// How a tag is called, the second part.
pub open spec fn tag_second(value: Seq<char>) -> Option<Seq<char>> {
    if value == "uber_drop"@ {
        Some("Über drop"@)
    } else if value == "medic_force"@ {
        Some("forced enemy Über"@)
    } else if value == "demoman_pick"@ {
        Some("Demoman pick"@)
    } else if value == "backstab"@ {
        Some("backstab"@)
    } else if value == "taunt_kill"@ {
        Some("taunt kill"@)
    } else if value == "shield_bash_kill"@ {
        Some("shield-bash kill"@)
    } else if value == "charge_melee_kill"@ {
        Some("charge melee kill"@)
    } else if value == "multi_kill"@ {
        Some("multi-kill"@)
    } else if value == "three_kill"@ {
        Some("three-kill sequence"@)
    } else if value == "four_kill_plus"@ {
        Some("four-or-more-kill sequence"@)
    } else if value == "rapid_sequence"@ {
        Some("rapid sequence"@)
    } else if value == "team_wipe"@ {
        Some("team wipe"@)
    } else {
        None
    }
}

fn find_tag_second(value: &str) -> (out: Option<&'static str>)
    ensures
        match out {
            Some(text) => tag_second(value@) == Some(text@),
            None => tag_second(value@) is None,
        },
{
    if same_text(value, "uber_drop") {
        Some("Über drop")
    } else if same_text(value, "medic_force") {
        Some("forced enemy Über")
    } else if same_text(value, "demoman_pick") {
        Some("Demoman pick")
    } else if same_text(value, "backstab") {
        Some("backstab")
    } else if same_text(value, "taunt_kill") {
        Some("taunt kill")
    } else if same_text(value, "shield_bash_kill") {
        Some("shield-bash kill")
    } else if same_text(value, "charge_melee_kill") {
        Some("charge melee kill")
    } else if same_text(value, "multi_kill") {
        Some("multi-kill")
    } else if same_text(value, "three_kill") {
        Some("three-kill sequence")
    } else if same_text(value, "four_kill_plus") {
        Some("four-or-more-kill sequence")
    } else if same_text(value, "rapid_sequence") {
        Some("rapid sequence")
    } else if same_text(value, "team_wipe") {
        Some("team wipe")
    } else {
        None
    }
}

/// How a tag is called, the third part.
pub open spec fn tag_third(value: Seq<char>) -> Option<Seq<char>> {
    if value == "player_count_swing"@ {
        Some("player-count swing"@)
    } else if value == "kills_to_secure_cap"@ {
        Some("kills that secured a capture"@)
    } else if value == "capture_denial_followup"@ {
        Some("capture denial"@)
    } else if value == "payload_progress_followup"@ {
        Some("payload progress after the frags"@)
    } else if value == "round_clinch"@ {
        Some("round-clinching sequence"@)
    } else if value == "late_round"@ {
        Some("late-round frags"@)
    } else if value == "random_full_crit"@ {
        Some("random full critical hit"@)
    } else {
        None
    }
}

fn find_tag_third(value: &str) -> (out: Option<&'static str>)
    ensures
        match out {
            Some(text) => tag_third(value@) == Some(text@),
            None => tag_third(value@) is None,
        },
{
    if same_text(value, "player_count_swing") {
        Some("player-count swing")
    } else if same_text(value, "kills_to_secure_cap") {
        Some("kills that secured a capture")
    } else if same_text(value, "capture_denial_followup") {
        Some("capture denial")
    } else if same_text(value, "payload_progress_followup") {
        Some("payload progress after the frags")
    } else if same_text(value, "round_clinch") {
        Some("round-clinching sequence")
    } else if same_text(value, "late_round") {
        Some("late-round frags")
    } else if same_text(value, "random_full_crit") {
        Some("random full critical hit")
    } else {
        None
    }
}

/// How a tag is called.
pub open spec fn tag_name(value: Seq<char>) -> Seq<char> {
    let known = either(tag_first(value), either(tag_second(value), tag_third(value)));
    match known {
        Some(text) => text,
        None => lower(humanized(value)),
    }
}

/// How a tag is called.
pub fn say_tag_name(value: &str) -> (out: String)
    ensures
        out@ == tag_name(value@),
{
    if let Some(text) = find_tag_first(value) {
        return text.to_owned();
    }
    if let Some(text) = find_tag_second(value) {
        return text.to_owned();
    }
    if let Some(text) = find_tag_third(value) {
        return text.to_owned();
    }
    to_lower(humanize_identifier(value).as_str())
}

/// How a tag is called.
pub fn friendly_tag(value: &str) -> (out: String)
    ensures
        out@ == tag_name(value@),
{
    say_tag_name(value)
}

/// How a line of the evidence is called, the first part.
pub open spec fn reason_first(value: Seq<char>) -> Option<Seq<char>> {
    if value == "candidate_base"@ {
        Some("Base candidate value"@)
    } else if value == "confirmed_kritzkrieg_boosted_kill"@ {
        Some("Kritzkrieg-boosted kill"@)
    } else if value == "confirmed_market_garden"@ {
        Some("Confirmed Market Garden"@)
    } else if value == "confirmed_loose_cannon_double_donk"@ {
        Some("Confirmed Loose Cannon double donk"@)
    } else if value == "confirmed_sniper_dropshot"@ {
        Some("Confirmed airborne Sniper dropshot"@)
    } else if value == "confirmed_shield_bash_kill"@ {
        Some("Confirmed shield-bash kill"@)
    } else if value == "shield_charge_followed_by_melee_kill"@ {
        Some("Shield charge followed by a melee kill"@)
    } else if value == "player_melee_kill"@ {
        Some("Melee kill"@)
    } else if value == "confirmed_spy_backstab"@ {
        Some("Confirmed backstab"@)
    } else if value == "confirmed_taunt_kill"@ {
        Some("Confirmed taunt kill"@)
    } else if value == "medic_pick"@ {
        Some("Medic pick"@)
    } else if value == "confirmed_uber_drop"@ {
        Some("Medic killed with Über ready"@)
    } else {
        None
    }
}

fn find_reason_first(value: &str) -> (out: Option<&'static str>)
    ensures
        match out {
            Some(text) => reason_first(value@) == Some(text@),
            None => reason_first(value@) is None,
        },
{
    if same_text(value, "candidate_base") {
        Some("Base candidate value")
    } else if same_text(value, "confirmed_kritzkrieg_boosted_kill") {
        Some("Kritzkrieg-boosted kill")
    } else if same_text(value, "confirmed_market_garden") {
        Some("Confirmed Market Garden")
    } else if same_text(value, "confirmed_loose_cannon_double_donk") {
        Some("Confirmed Loose Cannon double donk")
    } else if same_text(value, "confirmed_sniper_dropshot") {
        Some("Confirmed airborne Sniper dropshot")
    } else if same_text(value, "confirmed_shield_bash_kill") {
        Some("Confirmed shield-bash kill")
    } else if same_text(value, "shield_charge_followed_by_melee_kill") {
        Some("Shield charge followed by a melee kill")
    } else if same_text(value, "player_melee_kill") {
        Some("Melee kill")
    } else if same_text(value, "confirmed_spy_backstab") {
        Some("Confirmed backstab")
    } else if same_text(value, "confirmed_taunt_kill") {
        Some("Confirmed taunt kill")
    } else if same_text(value, "medic_pick") {
        Some("Medic pick")
    } else if same_text(value, "confirmed_uber_drop") {
        Some("Medic killed with Über ready")
    } else {
        None
    }
}

/// How a line of the evidence is called, the second part.
pub open spec fn reason_second(value: Seq<char>) -> Option<Seq<char>> {
    if value == "demoman_pick"@ {
        Some("Demoman pick"@)
    } else if value == "state_confirmed_airshot"@ {
        Some("Confirmed airshot from player and projectile state"@)
    } else if value == "direct_airshot_proximity"@ {
        Some("Direct-hit airshot"@)
    } else if value == "long_flight_airshot"@ {
        Some("Long-flight airshot"@)
    } else if value == "relative_height_airshot_style"@ {
        Some("Relative height and upward aim bonus"@)
    } else if value == "state_confirmed_airborne_victim"@ {
        Some("Projectile kill on an airborne opponent"@)
    } else if value == "rocket_jump_victim"@ {
        Some("Killed a rocket-jumping opponent"@)
    } else if value == "streak_10_plus"@ {
        Some("Extended kill streak"@)
    } else if value == "random_full_crit"@ {
        Some("Random full-crit penalty"@)
    } else if value == "additional_kills"@ {
        Some("Additional unique victims"@)
    } else if value == "three_kill"@ {
        Some("Three-kill sequence bonus"@)
    } else if value == "four_kill_plus"@ {
        Some("Four-or-more-kill sequence bonus"@)
    } else {
        None
    }
}

fn find_reason_second(value: &str) -> (out: Option<&'static str>)
    ensures
        match out {
            Some(text) => reason_second(value@) == Some(text@),
            None => reason_second(value@) is None,
        },
{
    if same_text(value, "demoman_pick") {
        Some("Demoman pick")
    } else if same_text(value, "state_confirmed_airshot") {
        Some("Confirmed airshot from player and projectile state")
    } else if same_text(value, "direct_airshot_proximity") {
        Some("Direct-hit airshot")
    } else if same_text(value, "long_flight_airshot") {
        Some("Long-flight airshot")
    } else if same_text(value, "relative_height_airshot_style") {
        Some("Relative height and upward aim bonus")
    } else if same_text(value, "state_confirmed_airborne_victim") {
        Some("Projectile kill on an airborne opponent")
    } else if same_text(value, "rocket_jump_victim") {
        Some("Killed a rocket-jumping opponent")
    } else if same_text(value, "streak_10_plus") {
        Some("Extended kill streak")
    } else if same_text(value, "random_full_crit") {
        Some("Random full-crit penalty")
    } else if same_text(value, "additional_kills") {
        Some("Additional unique victims")
    } else if same_text(value, "three_kill") {
        Some("Three-kill sequence bonus")
    } else if same_text(value, "four_kill_plus") {
        Some("Four-or-more-kill sequence bonus")
    } else {
        None
    }
}

/// How a line of the evidence is called, the third part.
pub open spec fn reason_third(value: Seq<char>) -> Option<Seq<char>> {
    if value == "multiple_confirmed_airshots"@ {
        Some("Multiple confirmed airshots"@)
    } else if value == "sequence_finished_enemy_team"@ {
        Some("Sequence eliminated every remaining enemy"@)
    } else if value == "enemy_medic_forced_uber_after_sequence"@ {
        Some("Sequence forced the enemy Medic to Über"@)
    } else if value == "sequence_created_player_count_window"@ {
        Some("Sequence created a player advantage"@)
    } else if value == "sack_uber_recovery_after_losses"@ {
        Some("Recovered an Über disadvantage after team losses"@)
    } else if value == "sack_uber_medic_equalizer"@ {
        Some("Medic pick equalized the Über situation"@)
    } else if value == "rapid_sequence"@ {
        Some("Rapid multi-kill sequence"@)
    } else if value == "projectile_sequence"@ {
        Some("Projectile frag sequence"@)
    } else if value == "late_round"@ {
        Some("Late-round impact"@)
    } else if value == "team_won_immediately_after_sequence"@ {
        Some("Team won immediately after the sequence"@)
    } else if value == "building_destruction_led_to_kills"@ {
        Some("Building destruction led into the frags"@)
    } else if value == "kills_to_secure_cap"@ {
        Some("Frags directly secured a capture"@)
    } else {
        None
    }
}

fn find_reason_third(value: &str) -> (out: Option<&'static str>)
    ensures
        match out {
            Some(text) => reason_third(value@) == Some(text@),
            None => reason_third(value@) is None,
        },
{
    if same_text(value, "multiple_confirmed_airshots") {
        Some("Multiple confirmed airshots")
    } else if same_text(value, "sequence_finished_enemy_team") {
        Some("Sequence eliminated every remaining enemy")
    } else if same_text(value, "enemy_medic_forced_uber_after_sequence") {
        Some("Sequence forced the enemy Medic to Über")
    } else if same_text(value, "sequence_created_player_count_window") {
        Some("Sequence created a player advantage")
    } else if same_text(value, "sack_uber_recovery_after_losses") {
        Some("Recovered an Über disadvantage after team losses")
    } else if same_text(value, "sack_uber_medic_equalizer") {
        Some("Medic pick equalized the Über situation")
    } else if same_text(value, "rapid_sequence") {
        Some("Rapid multi-kill sequence")
    } else if same_text(value, "projectile_sequence") {
        Some("Projectile frag sequence")
    } else if same_text(value, "late_round") {
        Some("Late-round impact")
    } else if same_text(value, "team_won_immediately_after_sequence") {
        Some("Team won immediately after the sequence")
    } else if same_text(value, "building_destruction_led_to_kills") {
        Some("Building destruction led into the frags")
    } else if same_text(value, "kills_to_secure_cap") {
        Some("Frags directly secured a capture")
    } else {
        None
    }
}

/// How a line of the evidence is called, the fourth part.
pub open spec fn reason_fourth(value: Seq<char>) -> Option<Seq<char>> {
    if value == "kill_sequence_blocked_capture"@ {
        Some("Frag sequence denied a capture"@)
    } else if value == "kill_sequence_led_to_payload_progress"@ {
        Some("Frag sequence enabled payload progress"@)
    } else if value == "bookmark"@ {
        Some("User-bookmarked moment"@)
    } else {
        None
    }
}

fn find_reason_fourth(value: &str) -> (out: Option<&'static str>)
    ensures
        match out {
            Some(text) => reason_fourth(value@) == Some(text@),
            None => reason_fourth(value@) is None,
        },
{
    if same_text(value, "kill_sequence_blocked_capture") {
        Some("Frag sequence denied a capture")
    } else if same_text(value, "kill_sequence_led_to_payload_progress") {
        Some("Frag sequence enabled payload progress")
    } else if same_text(value, "bookmark") {
        Some("User-bookmarked moment")
    } else {
        None
    }
}

/// How a line of the evidence is called.
pub open spec fn reason_name(value: Seq<char>) -> Seq<char> {
    let known = either(reason_first(value), either(reason_second(value), either(reason_third(value), reason_fourth(value))));
    match known {
        Some(text) => text,
        None => humanized(value),
    }
}

/// How a line of the evidence is called.
pub fn say_reason_name(value: &str) -> (out: String)
    ensures
        out@ == reason_name(value@),
{
    if let Some(text) = find_reason_first(value) {
        return text.to_owned();
    }
    if let Some(text) = find_reason_second(value) {
        return text.to_owned();
    }
    if let Some(text) = find_reason_third(value) {
        return text.to_owned();
    }
    if let Some(text) = find_reason_fourth(value) {
        return text.to_owned();
    }
    humanize_identifier(value)
}

/// How a line of the evidence is called.
pub fn friendly_score_reason(value: &str) -> (out: String)
    ensures
        out@ == reason_name(value@),
{
    say_reason_name(value)
}

// ---------------------------------------------------------------------------
// Lists
// ---------------------------------------------------------------------------

/// Texts as they are listed in a sentence.
pub open spec fn human_joined(list: Seq<Seq<char>>) -> Seq<char> {
    if list.len() == 0 {
        Seq::empty()
    } else if list.len() == 1 {
        list[0]
    } else if list.len() == 2 {
        list[0] + " and "@ + list[1]
    } else {
        joined(list.drop_last(), ", "@) + ", and "@ + list.last()
    }
}

/// Texts as they are listed in a sentence.
pub fn human_join(list: &Vec<String>) -> (out: String)
    ensures
        out@ == human_joined(views(list@)),
{
    let ghost all = views(list@);
    if list.len() == 0 {
        let out = String::new();
        assert(out@ =~= Seq::empty());
        return out;
    }
    if list.len() == 1 {
        assert(all[0] == list@[0]@);
        return list[0].clone();
    }
    if list.len() == 2 {
        assert(all[0] == list@[0]@ && all[1] == list@[1]@);
        let mut out = list[0].clone();
        out.append(" and ");
        out.append(list[1].as_str());
        return out;
    }
    let mut front: Vec<String> = Vec::new();
    let mut i: usize = 0;
    assert(views(front@) =~= all.take(0));
    while i < list.len() - 1
        invariant
            list.len() > 2,
            i <= list.len() - 1,
            all == views(list@),
            views(front@) == all.take(i as int),
        decreases list.len() - i,
    {
        let ghost before = views(front@);
        front.push(list[i].clone());
        proof {
            assert(views(front@) =~= before.push(all[i as int]));
            assert(all.take(i + 1) =~= all.take(i as int).push(all[i as int]));
        }
        i += 1;
    }
    proof {
        assert(all.take(list.len() - 1) =~= all.drop_last());
        assert(all.last() == list@[list.len() - 1]@);
    }
    let mut out = join(&front, ", ");
    out.append(", and ");
    out.append(list[list.len() - 1].as_str());
    out
}

// ---------------------------------------------------------------------------
// Players and kills
// ---------------------------------------------------------------------------

/// A name that is more than white space, without the white space around it.
pub open spec fn real_name(name: Option<String>) -> Option<Seq<char>> {
    match name {
        Some(name) if trimmed(name@).len() > 0 => Some(trimmed(name@)),
        _ => None,
    }
}

fn find_name(name: &Option<String>) -> (out: Option<String>)
    ensures
        optional(out) == real_name(*name),
{
    match name {
        Some(name) => {
            let bare = trim(name.as_str());
            if bare.as_str().is_empty() {
                None
            } else {
                Some(bare)
            }
        },
        None => None,
    }
}

/// A player by number.
pub open spec fn numbered_player(id: int) -> Seq<char> {
    "Player #"@ + int_text(id)
}

fn say_player(id: i64) -> (out: String)
    ensures
        out@ == numbered_player(id as int),
{
    let mut out = "Player #".to_owned();
    out.append(i64_text(id).as_str());
    out
}

/// The name of the player that a candidate is of, where it is known.
pub open spec fn known_player(candidate: Candidate) -> Option<Seq<char>> {
    if real_name(candidate.attacker_name) is Some {
        real_name(candidate.attacker_name)
    } else if candidate.kills.len() > 0 && real_name(candidate.kills@[0].attacker_name) is Some {
        real_name(candidate.kills@[0].attacker_name)
    } else if candidate.kills.len() > 0 && real_name(candidate.kills@[0].attacker_state_name)
        is Some {
        real_name(candidate.kills@[0].attacker_state_name)
    } else if candidate.demo_context.pov_player_user_id == Some(candidate.attacker_user_id) {
        optional(candidate.demo_context.header_nick)
    } else {
        None
    }
}

/// The name of the player that a candidate is of.
pub open spec fn player_name(candidate: Candidate) -> Seq<char> {
    match known_player(candidate) {
        Some(name) => name,
        None => numbered_player(candidate.attacker_user_id as int),
    }
}

/// The name of the player that a candidate is of.
pub fn candidate_player_name(candidate: &Candidate) -> (out: String)
    ensures
        out@ == player_name(*candidate),
{
    if let Some(name) = find_name(&candidate.attacker_name) {
        return name;
    }
    if candidate.kills.len() > 0 {
        if let Some(name) = find_name(&candidate.kills[0].attacker_name) {
            return name;
        }
        if let Some(name) = find_name(&candidate.kills[0].attacker_state_name) {
            return name;
        }
    }
    if candidate.demo_context.pov_player_user_id == Some(candidate.attacker_user_id) {
        if let Some(name) = &candidate.demo_context.header_nick {
            return name.clone();
        }
    }
    say_player(candidate.attacker_user_id)
}

/// A note, where something holds.
pub open spec fn note_if(holds: bool, words: Seq<char>) -> Seq<Seq<char>> {
    if holds {
        seq![words]
    } else {
        Seq::empty()
    }
}

/// What is noted of a kill.
pub open spec fn notes_of(kill: KillRecord) -> Seq<Seq<char>> {
    let airshot = kill.victim_airborne && kill.airshot_eligible;
    note_if(airshot, "confirmed airshot"@) + note_if(
        kill.victim_airborne && kill.direct_impact,
        "direct hit"@,
    ) + note_if(kill.double_donk, "double donk"@) + note_if(
        kill.kritzkrieg_boost,
        "Kritzkrieg boosted"@,
    ) + note_if(kill.uber_drop, "Über drop"@) + note_if(
        kill.rocket_jump_victim && !airshot,
        "rocket-jumping opponent"@,
    )
}

fn add_note(list: &mut Vec<String>, holds: bool, words: &str)
    ensures
        views(final(list)@) == views(old(list)@) + note_if(holds, words@),
{
    let ghost before = views(list@);
    if holds {
        list.push(words.to_owned());
    }
    assert(views(list@) =~= before + note_if(holds, words@));
}

/// What is noted of a kill.
pub fn kill_notes(kill: &KillRecord) -> (out: Vec<String>)
    ensures
        views(out@) == notes_of(*kill),
{
    let airshot = kill.victim_airborne && kill.airshot_eligible;
    let mut out: Vec<String> = Vec::new();
    assert(views(out@) =~= Seq::empty());
    add_note(&mut out, airshot, "confirmed airshot");
    assert(views(out@) =~= note_if(airshot, "confirmed airshot"@));
    add_note(&mut out, kill.victim_airborne && kill.direct_impact, "direct hit");
    add_note(&mut out, kill.double_donk, "double donk");
    add_note(&mut out, kill.kritzkrieg_boost, "Kritzkrieg boosted");
    add_note(&mut out, kill.uber_drop, "Über drop");
    add_note(&mut out, kill.rocket_jump_victim && !airshot, "rocket-jumping opponent");
    out
}

/// The one who is killed, by name.
pub open spec fn victim_name(kill: KillRecord) -> Seq<char> {
    if real_name(kill.victim_name) is Some {
        real_name(kill.victim_name)->0
    } else if real_name(kill.victim_state_name) is Some {
        real_name(kill.victim_state_name)->0
    } else {
        numbered_player(
            match kill.victim_user_id {
                Some(id) => id as int,
                None => 0,
            },
        )
    }
}

/// The class of the one who is killed.
pub open spec fn victim_class(kill: KillRecord) -> Seq<char> {
    match real_name(kill.victim_class) {
        Some(class) => humanized(class),
        None => Seq::empty(),
    }
}

/// The one who is killed, as it is shown.
pub open spec fn victim_shown(kill: KillRecord) -> Seq<char> {
    if victim_class(kill).len() == 0 {
        victim_name(kill)
    } else {
        victim_name(kill) + " ("@ + victim_class(kill) + ")"@
    }
}

fn show_victim(kill: &KillRecord) -> (out: String)
    ensures
        out@ == victim_shown(*kill),
{
    let name = match find_name(&kill.victim_name) {
        Some(name) => name,
        None => match find_name(&kill.victim_state_name) {
            Some(name) => name,
            None => say_player(
                match kill.victim_user_id {
                    Some(id) => id,
                    None => 0,
                },
            ),
        },
    };
    let class = match find_name(&kill.victim_class) {
        Some(class) => humanize_identifier(class.as_str()),
        None => {
            let class = String::new();
            assert(class@ =~= Seq::empty());
            class
        },
    };
    if class.as_str().is_empty() {
        return name;
    }
    let mut out = name;
    out.append(" (");
    out.append(class.as_str());
    out.append(")");
    out
}

/// The weapon of a kill, as it is shown.
pub open spec fn weapon_shown(kill: KillRecord) -> Seq<char> {
    weapon_name(
        match kill.weapon {
            Some(weapon) => weapon@,
            None => Seq::empty(),
        },
    )
}

fn show_weapon(kill: &KillRecord) -> (out: String)
    ensures
        out@ == weapon_shown(*kill),
{
    match &kill.weapon {
        Some(weapon) => humanize_weapon(weapon.as_str()),
        None => {
            let none = String::new();
            assert(none@ =~= Seq::empty());
            humanize_weapon(none.as_str())
        },
    }
}

/// A line on a kill.
pub open spec fn kill_line(number: int, kill: KillRecord) -> Seq<char> {
    int_text(number) + ". Tick "@ + int_text(
        match kill.tick {
            Some(tick) => tick as int,
            None => 0,
        },
    ) + " — "@ + victim_shown(kill) + " with "@ + weapon_shown(kill) + (if notes_of(kill).len()
        == 0 {
        Seq::empty()
    } else {
        " ("@ + joined(notes_of(kill), ", "@) + ")"@
    })
}

fn say_kill(number: usize, kill: &KillRecord) -> (out: String)
    ensures
        out@ == kill_line(number as int, *kill),
{
    let notes = kill_notes(kill);
    assert(notes.len() == views(notes@).len());
    let mut out = u64_text(number as u64);
    out.append(". Tick ");
    out.append(
        i64_text(
            match kill.tick {
                Some(tick) => tick,
                None => 0,
            },
        ).as_str(),
    );
    out.append(" — ");
    out.append(show_victim(kill).as_str());
    out.append(" with ");
    out.append(show_weapon(kill).as_str());
    let ghost before = out@;
    if notes.len() > 0 {
        let mut note = " (".to_owned();
        note.append(join(&notes, ", ").as_str());
        note.append(")");
        out.append(note.as_str());
    } else {
        assert(out@ =~= before + Seq::<char>::empty());
    }
    out
}

/// The lines on the first kills.
pub open spec fn kill_lines(kills: Seq<KillRecord>, upto: int) -> Seq<Seq<char>> {
    Seq::new(upto as nat, |i: int| kill_line(i + 1, kills[i]))
}

/// Those who are killed, each once, as they come.
pub open spec fn victims_of(kills: Seq<KillRecord>, upto: int) -> Seq<Seq<char>>
    decreases upto,
{
    if upto <= 0 {
        Seq::empty()
    } else {
        let before = victims_of(kills, upto - 1);
        let victim = victim_shown(kills[upto - 1]);
        if before.contains(victim) {
            before
        } else {
            before.push(victim)
        }
    }
}

/// The weapons of kills that are known, as they come.
pub open spec fn known_weapons(kills: Seq<KillRecord>, upto: int) -> Seq<Seq<char>>
    decreases upto,
{
    if upto <= 0 {
        Seq::empty()
    } else {
        let before = known_weapons(kills, upto - 1);
        let weapon = weapon_shown(kills[upto - 1]);
        if weapon == "Unknown weapon"@ {
            before
        } else {
            before.push(weapon)
        }
    }
}

fn list_kills(kills: &Vec<KillRecord>) -> (out: Vec<String>)
    requires
        kills.len() < usize::MAX,
    ensures
        views(out@) == kill_lines(kills@, kills.len() as int),
{
    let mut out: Vec<String> = Vec::new();
    let mut i: usize = 0;
    assert(views(out@) =~= kill_lines(kills@, 0));
    while i < kills.len()
        invariant
            i <= kills.len(),
            kills.len() < usize::MAX,
            views(out@) == kill_lines(kills@, i as int),
        decreases kills.len() - i,
    {
        let ghost before = views(out@);
        let line = say_kill(i + 1, &kills[i]);
        let ghost text = line@;
        out.push(line);
        proof {
            assert(views(out@) =~= before.push(text));
            assert(kill_lines(kills@, i + 1) =~= before.push(text));
        }
        i += 1;
    }
    out
}

fn list_victims(kills: &Vec<KillRecord>) -> (out: Vec<String>)
    ensures
        views(out@) == victims_of(kills@, kills.len() as int),
{
    let mut out: Vec<String> = Vec::new();
    let mut i: usize = 0;
    assert(views(out@) =~= Seq::empty());
    while i < kills.len()
        invariant
            i <= kills.len(),
            views(out@) == victims_of(kills@, i as int),
        decreases kills.len() - i,
    {
        let ghost before = views(out@);
        let victim = show_victim(&kills[i]);
        if !list_contains(&out, victim.as_str()) {
            let ghost text = victim@;
            out.push(victim);
            assert(views(out@) =~= before.push(text));
        }
        i += 1;
    }
    out
}

fn list_weapons(kills: &Vec<KillRecord>) -> (out: Vec<String>)
    ensures
        views(out@) == ordered(known_weapons(kills@, kills.len() as int)),
{
    let mut all: Vec<String> = Vec::new();
    let mut i: usize = 0;
    assert(views(all@) =~= Seq::empty());
    while i < kills.len()
        invariant
            i <= kills.len(),
            views(all@) == known_weapons(kills@, i as int),
        decreases kills.len() - i,
    {
        let ghost before = views(all@);
        let weapon = show_weapon(&kills[i]);
        if !same_text(weapon.as_str(), "Unknown weapon") {
            let ghost text = weapon@;
            all.push(weapon);
            assert(views(all@) =~= before.push(text));
        }
        i += 1;
    }
    let out = sorted_distinct(&all);
    proof {
        let list = views(all@);
        assert(ascending(views(out@)) && views(out@).to_set() == list.to_set());
        law_ascending_is_unique(views(out@), ordered(list));
    }
    out
}

// ---------------------------------------------------------------------------
// Numbers
// ---------------------------------------------------------------------------

/// A number of tenths, with its point.
pub open spec fn point_text(tenths: nat) -> Seq<char> {
    nat_text(tenths / 10) + "."@ + nat_text(tenths % 10)
}

fn write_point(tenths: u128) -> (out: String)
    ensures
        out@ == point_text(tenths as nat),
{
    let whole: u128 = tenths / 10;
    let mut out = u128_text(whole);
    out.append(".");
    out.append(u64_text((tenths % 10) as u64).as_str());
    out
}

/// How far a number is from zero.
pub open spec fn distance(n: int) -> nat {
    if n < 0 {
        (-n) as nat
    } else {
        n as nat
    }
}

/// Points, held in hundredths, as they are shown.
pub open spec fn points_text(hundredths: int, signed: bool) -> Seq<char> {
    (if hundredths < 0 {
        "-"@
    } else if signed {
        "+"@
    } else {
        Seq::empty()
    }) + point_text(shown_tenths(distance(hundredths), 100))
}

/// Points, held in hundredths, as they are shown.
pub fn show_points(hundredths: i64, signed: bool) -> (out: String)
    ensures
        out@ == points_text(hundredths as int, signed),
{
    let size: u64 = if hundredths < 0 {
        if hundredths == i64::MIN {
            0x8000_0000_0000_0000
        } else {
            (0 - hundredths) as u64
        }
    } else {
        hundredths as u64
    };
    let number = write_point(show_tenths(size, 100));
    let mut out = String::new();
    assert(out@ =~= Seq::empty());
    if hundredths < 0 {
        out.append("-");
        assert(out@ =~= "-"@);
    } else if signed {
        out.append("+");
        assert(out@ =~= "+"@);
    }
    out.append(number.as_str());
    out
}

/// How long the kills of a candidate take, in tenths of a second as they are shown;
/// nothing where they take no time.
pub open spec fn sequence_tenths(candidate: Candidate) -> Option<int> {
    match candidate.metrics.duration_seconds {
        Some(seconds) => if seconds.value() > 0 {
            Some(tenths(seconds.value() as nat) as int)
        } else {
            None
        },
        None => {
            let kills = candidate.kills@;
            let first = if kills.len() > 0 && kills[0].server_tick is Some {
                kills[0].server_tick->0 as int
            } else {
                0
            };
            let last = if kills.len() > 0 && kills.last().server_tick is Some {
                kills.last().server_tick->0 as int
            } else {
                first
            };
            if last > first {
                Some(tenths(quotient(natural((last - first) as nat), tick_rate())) as int)
            } else {
                None
            }
        },
    }
}

fn find_sequence_tenths(candidate: &Candidate) -> (out: Option<u128>)
    ensures
        match out {
            Some(shown) => sequence_tenths(*candidate) == Some(shown as int),
            None => sequence_tenths(*candidate) is None,
        },
{
    if let Some(seconds) = candidate.metrics.duration_seconds {
        if Double::zero().less(seconds) {
            return Some(seconds.tenths());
        }
        return None;
    }
    let kills = &candidate.kills;
    let first: i64 = if kills.len() > 0 {
        match kills[0].server_tick {
            Some(tick) => tick,
            None => 0,
        }
    } else {
        0
    };
    let last: i64 = if kills.len() > 0 {
        match kills[kills.len() - 1].server_tick {
            Some(tick) => tick,
            None => first,
        }
    } else {
        first
    };
    if last > first {
        let ticks: u64 = (last as i128 - first as i128) as u64;
        let rate = Double::fraction(666_666_667, 10_000_000);
        Some(Double::natural(ticks).over(rate).tenths())
    } else {
        None
    }
}

// ---------------------------------------------------------------------------
// Candidates
// ---------------------------------------------------------------------------

/// A text, or another where it is empty.
pub open spec fn unless_empty(text: Seq<char>, otherwise: Seq<char>) -> Seq<char> {
    if text.len() == 0 {
        otherwise
    } else {
        text
    }
}

/// The class of the player.
pub open spec fn class_shown(candidate: Candidate) -> Seq<char> {
    if candidate.attacker_class@.len() == 0 {
        "Unknown class"@
    } else {
        humanized(candidate.attacker_class@)
    }
}

/// The team of the player.
pub open spec fn team_shown(candidate: Candidate) -> Seq<char> {
    if candidate.attacker_team@.len() == 0 {
        "Unknown team"@
    } else {
        upper(candidate.attacker_team@)
    }
}

/// The kind of server.
pub open spec fn server_type(candidate: Candidate) -> Seq<char> {
    unless_empty(candidate.demo_context.mode_label@, "Unknown / Mixed"@)
}

/// The kind of server.
pub fn candidate_server_type(candidate: &Candidate) -> (out: String)
    ensures
        out@ == server_type(*candidate),
{
    if candidate.demo_context.mode_label.as_str().is_empty() {
        "Unknown / Mixed".to_owned()
    } else {
        candidate.demo_context.mode_label.clone()
    }
}

/// The name of the demo that a candidate is from.
pub open spec fn demo_shown(candidate: Candidate, file: Option<Seq<char>>) -> Seq<char> {
    match file {
        Some(name) => name,
        None => candidate.source_demo@,
    }
}

/// What is told of where a candidate is from.
pub open spec fn map_meta(candidate: Candidate, file: Option<Seq<char>>) -> Seq<char> {
    let round = if candidate.round_index > 0 {
        " • Round "@ + int_text(candidate.round_index as int)
    } else {
        Seq::empty()
    };
    let demo = demo_shown(candidate, file);
    if demo.len() == 0 {
        server_type(candidate) + round
    } else {
        server_type(candidate) + round + " • "@ + demo
    }
}

fn say_map_meta(candidate: &Candidate, file: &Option<String>) -> (out: String)
    ensures
        out@ == map_meta(*candidate, optional(*file)),
{
    let demo = match file {
        Some(name) => name.clone(),
        None => candidate.source_demo.clone(),
    };
    let mut round = String::new();
    assert(round@ =~= Seq::empty());
    if candidate.round_index > 0 {
        round.append(" • Round ");
        assert(round@ =~= " • Round "@);
        round.append(i64_text(candidate.round_index).as_str());
    }
    let mut out = candidate_server_type(candidate);
    out.append(round.as_str());
    if !demo.as_str().is_empty() {
        out.append(" • ");
        out.append(demo.as_str());
    }
    out
}

/// How the summary of a candidate begins.
pub open spec fn summary_start(candidate: Candidate) -> Seq<char> {
    let player = player_name(candidate);
    let map = unless_empty(candidate.map_name@, "Unknown map"@);
    let comment = trimmed(candidate.bookmark_comment@);
    if candidate.kill_total() == 0 {
        if comment.len() == 0 {
            player + " has a bookmarked moment on "@ + map + "."@
        } else {
            player + " has a bookmarked moment on "@ + map + ": "@ + comment
        }
    } else if candidate.kill_total() == 1 {
        player + ", playing "@ + class_shown(candidate) + " for "@ + team_shown(candidate)
            + ", gets a kill on "@ + map
    } else {
        player + ", playing "@ + class_shown(candidate) + " for "@ + team_shown(candidate)
            + ", gets a "@ + int_text(candidate.kill_total() as int) + "-kill sequence on "@ + map
    }
}

fn say_class(candidate: &Candidate) -> (out: String)
    ensures
        out@ == class_shown(*candidate),
{
    if candidate.attacker_class.as_str().is_empty() {
        "Unknown class".to_owned()
    } else {
        humanize_identifier(candidate.attacker_class.as_str())
    }
}

fn say_team(candidate: &Candidate) -> (out: String)
    ensures
        out@ == team_shown(*candidate),
{
    if candidate.attacker_team.as_str().is_empty() {
        "Unknown team".to_owned()
    } else {
        to_upper(candidate.attacker_team.as_str())
    }
}

fn say_map(candidate: &Candidate) -> (out: String)
    ensures
        out@ == unless_empty(candidate.map_name@, "Unknown map"@),
{
    if candidate.map_name.as_str().is_empty() {
        "Unknown map".to_owned()
    } else {
        candidate.map_name.clone()
    }
}

fn say_summary_start(candidate: &Candidate) -> (out: String)
    ensures
        out@ == summary_start(*candidate),
{
    let count = candidate.kill_count();
    let mut out = candidate_player_name(candidate);
    let map = say_map(candidate);
    if count == 0 {
        let comment = trim(candidate.bookmark_comment.as_str());
        out.append(" has a bookmarked moment on ");
        out.append(map.as_str());
        if comment.as_str().is_empty() {
            out.append(".");
        } else {
            out.append(": ");
            out.append(comment.as_str());
        }
        return out;
    }
    out.append(", playing ");
    out.append(say_class(candidate).as_str());
    out.append(" for ");
    out.append(say_team(candidate).as_str());
    if count == 1 {
        out.append(", gets a kill on ");
    } else {
        out.append(", gets a ");
        out.append(u64_text(count as u64).as_str());
        out.append("-kill sequence on ");
    }
    out.append(map.as_str());
    out
}

/// A part of a sentence, where there is anything to list.
pub open spec fn listed(start: Seq<char>, list: Seq<Seq<char>>, end: Seq<char>) -> Seq<char> {
    if list.len() == 0 {
        Seq::empty()
    } else {
        start + human_joined(list) + end
    }
}

fn add_listed(out: &mut String, start: &str, list: &Vec<String>, end: &str)
    ensures
        final(out)@ == old(out)@ + listed(start@, views(list@), end@),
{
    let ghost before = out@;
    assert(views(list@).len() == list.len());
    if list.len() > 0 {
        let mut part = start.to_owned();
        part.append(human_join(list).as_str());
        part.append(end);
        out.append(part.as_str());
    } else {
        assert(out@ =~= before + Seq::<char>::empty());
    }
}

/// The tags that a summary points out, the most telling first.
pub open spec fn highlight_order() -> Seq<Seq<char>> {
    seq![
        "team_wipe"@,
        "kills_to_secure_cap"@,
        "capture_denial_followup"@,
        "round_clinch"@,
        "uber_drop"@,
        "medic_force"@,
        "double_airshot_sequence"@,
        "confirmed_airshot"@,
        "direct_airshot"@,
        "double_donk"@,
        "market_garden"@,
        "backstab"@,
        "taunt_kill"@,
        "shield_bash_kill"@,
        "charge_melee_kill"@,
        "three_kill"@,
        "four_kill_plus"@,
        "rapid_sequence"@,
        "player_count_swing"@,
        "medic_pick"@,
        "demoman_pick"@,
        "late_round"@,
    ]
}

/// The tags of a candidate that are pointed out, of the first in order: no more
/// than five.
pub open spec fn highlights(tags: Seq<Seq<char>>, order: Seq<Seq<char>>, upto: int) -> Seq<Seq<char>>
    decreases upto,
{
    if upto <= 0 {
        Seq::empty()
    } else {
        let before = highlights(tags, order, upto - 1);
        if before.len() < 5 && tags.contains(order[upto - 1]) {
            before.push(tag_name(order[upto - 1]))
        } else {
            before
        }
    }
}

fn list_highlight_order() -> (out: Vec<String>)
    ensures
        views(out@) == highlight_order(),
{
    let mut out: Vec<String> = Vec::new();
    out.push("team_wipe".to_owned());
    out.push("kills_to_secure_cap".to_owned());
    out.push("capture_denial_followup".to_owned());
    out.push("round_clinch".to_owned());
    out.push("uber_drop".to_owned());
    out.push("medic_force".to_owned());
    out.push("double_airshot_sequence".to_owned());
    out.push("confirmed_airshot".to_owned());
    out.push("direct_airshot".to_owned());
    out.push("double_donk".to_owned());
    out.push("market_garden".to_owned());
    out.push("backstab".to_owned());
    out.push("taunt_kill".to_owned());
    out.push("shield_bash_kill".to_owned());
    out.push("charge_melee_kill".to_owned());
    out.push("three_kill".to_owned());
    out.push("four_kill_plus".to_owned());
    out.push("rapid_sequence".to_owned());
    out.push("player_count_swing".to_owned());
    out.push("medic_pick".to_owned());
    out.push("demoman_pick".to_owned());
    out.push("late_round".to_owned());
    assert(views(out@) =~= highlight_order());
    out
}

fn list_highlights(tags: &Vec<String>) -> (out: Vec<String>)
    ensures
        views(out@) == highlights(
            views(tags@),
            highlight_order(),
            highlight_order().len() as int,
        ),
{
    let order = list_highlight_order();
    let ghost all = highlight_order();
    let mut out: Vec<String> = Vec::new();
    let mut i: usize = 0;
    assert(views(out@) =~= Seq::empty());
    while i < order.len()
        invariant
            i <= order.len(),
            all == views(order@),
            all == highlight_order(),
            views(out@) == highlights(views(tags@), all, i as int),
        decreases order.len() - i,
    {
        let ghost before = views(out@);
        assert(all[i as int] == order@[i as int]@);
        assert(out.len() == before.len());
        if out.len() < 5 && list_contains(tags, order[i].as_str()) {
            let name = friendly_tag(order[i].as_str());
            let ghost text = name@;
            out.push(name);
            assert(views(out@) =~= before.push(text));
        }
        i += 1;
    }
    assert(order.len() == all.len());
    out
}

/// What is told of how long the kills take.
pub open spec fn time_told(candidate: Candidate) -> Seq<char> {
    match sequence_tenths(candidate) {
        Some(tenths) if candidate.kill_total() > 1 => " over "@ + point_text(tenths as nat)
            + " seconds"@,
        _ => Seq::empty(),
    }
}

/// A sentence with its full stop.
pub open spec fn stopped(text: Seq<char>) -> Seq<char> {
    if text.len() > 0 && text.last() == '.' {
        text
    } else {
        text.push('.')
    }
}

/// The summary of a candidate.
pub open spec fn summary_of(candidate: Candidate) -> Seq<char> {
    stopped(
        summary_start(candidate) + time_told(candidate) + listed(
            ", eliminating "@,
            victims_of(candidate.kills@, candidate.kills.len() as int),
            Seq::empty(),
        ) + listed(
            " with "@,
            ordered(known_weapons(candidate.kills@, candidate.kills.len() as int)),
            Seq::empty(),
        ),
    ) + listed(
        " Highlights include "@,
        highlights(
            views(candidate.tags@),
            highlight_order(),
            highlight_order().len() as int,
        ),
        "."@,
    )
}

fn say_summary(candidate: &Candidate) -> (out: String)
    ensures
        out@ == summary_of(*candidate),
{
    let mut out = say_summary_start(candidate);
    let ghost start = out@;
    match find_sequence_tenths(candidate) {
        Some(tenths) => {
            if candidate.kill_count() > 1 {
                let mut part = " over ".to_owned();
                part.append(write_point(tenths).as_str());
                part.append(" seconds");
                out.append(part.as_str());
            } else {
                assert(out@ =~= start + Seq::<char>::empty());
            }
        },
        None => {
            assert(out@ =~= start + Seq::<char>::empty());
        },
    }
    proof {
        reveal_strlit("");
        assert(""@ =~= Seq::empty());
    }
    add_listed(&mut out, ", eliminating ", &list_victims(&candidate.kills), "");
    add_listed(&mut out, " with ", &list_weapons(&candidate.kills), "");
    let n: usize = out.as_str().unicode_len();
    let ended = n > 0 && out.as_str().get_char(n - 1) == '.';
    if !ended {
        out.push('.');
    }
    add_listed(&mut out, " Highlights include ", &list_highlights(&candidate.tags), ".");
    out
}

/// A line of the evidence for a score.
pub open spec fn score_line(number: int, item: ScoreItem) -> Seq<char> {
    int_text(number) + ". "@ + reason_name(
        match item.reason {
            Some(reason) => reason@,
            None => "score adjustment"@,
        },
    ) + ": "@ + points_text(
        match item.points {
            Some(points) => points as int,
            None => 0,
        },
        true,
    ) + " points"@ + (match item.event_tick {
        Some(tick) if tick > 0 => " at server tick "@ + int_text(tick as int),
        _ => Seq::empty(),
    }) + (match item.count {
        Some(count) if count > 0 => " ("@ + int_text(count as int) + " counted)"@,
        _ => Seq::empty(),
    })
}

fn say_score(number: usize, item: &ScoreItem) -> (out: String)
    ensures
        out@ == score_line(number as int, *item),
{
    let mut out = u64_text(number as u64);
    out.append(". ");
    match &item.reason {
        Some(reason) => out.append(friendly_score_reason(reason.as_str()).as_str()),
        None => out.append(friendly_score_reason("score adjustment").as_str()),
    }
    out.append(": ");
    out.append(
        show_points(
            match item.points {
                Some(points) => points,
                None => 0,
            },
            true,
        ).as_str(),
    );
    out.append(" points");
    let mut tick_part = String::new();
    assert(tick_part@ =~= Seq::empty());
    if let Some(tick) = item.event_tick {
        if tick > 0 {
            tick_part.append(" at server tick ");
            assert(tick_part@ =~= " at server tick "@);
            tick_part.append(i64_text(tick).as_str());
        }
    }
    out.append(tick_part.as_str());
    let mut count_part = String::new();
    assert(count_part@ =~= Seq::empty());
    if let Some(count) = item.count {
        if count > 0 {
            count_part.append(" (");
            assert(count_part@ =~= " ("@);
            count_part.append(u64_text(count).as_str());
            count_part.append(" counted)");
        }
    }
    out.append(count_part.as_str());
    out
}

/// The lines of the evidence for a score.
pub open spec fn score_lines(items: Seq<ScoreItem>, upto: int) -> Seq<Seq<char>> {
    Seq::new(upto as nat, |i: int| score_line(i + 1, items[i]))
}

fn list_scores(items: &Vec<ScoreItem>) -> (out: Vec<String>)
    requires
        items.len() < usize::MAX,
    ensures
        views(out@) == score_lines(items@, items.len() as int),
{
    let mut out: Vec<String> = Vec::new();
    let mut i: usize = 0;
    assert(views(out@) =~= score_lines(items@, 0));
    while i < items.len()
        invariant
            i <= items.len(),
            items.len() < usize::MAX,
            views(out@) == score_lines(items@, i as int),
        decreases items.len() - i,
    {
        let ghost before = views(out@);
        let line = say_score(i + 1, &items[i]);
        let ghost text = line@;
        out.push(line);
        proof {
            assert(views(out@) =~= before.push(text));
            assert(score_lines(items@, i + 1) =~= before.push(text));
        }
        i += 1;
    }
    out
}

/// The names of tags.
pub open spec fn tag_names(tags: Seq<Seq<char>>) -> Seq<Seq<char>> {
    Seq::new(tags.len(), |i: int| tag_name(tags[i]))
}

fn list_tag_names(tags: &Vec<String>) -> (out: Vec<String>)
    ensures
        views(out@) == tag_names(views(tags@)),
{
    let ghost all = tag_names(views(tags@));
    let mut out: Vec<String> = Vec::new();
    let mut i: usize = 0;
    assert(views(out@) =~= all.take(0));
    while i < tags.len()
        invariant
            i <= tags.len(),
            all == tag_names(views(tags@)),
            views(out@) == all.take(i as int),
        decreases tags.len() - i,
    {
        let ghost before = views(out@);
        out.push(friendly_tag(tags[i].as_str()));
        proof {
            assert(views(tags@)[i as int] == tags@[i as int]@);
            assert(views(out@) =~= before.push(all[i as int]));
            assert(all.take(i + 1) =~= all.take(i as int).push(all[i as int]));
        }
        i += 1;
    }
    assert(all.take(tags.len() as int) =~= all);
    out
}

/// All that is told of a candidate.
#[derive(Debug)]
pub struct CandidateDetailText {
    pub player: String,
    pub player_meta: String,
    pub map: String,
    pub map_meta: String,
    pub score: String,
    pub score_meta: String,
    pub summary: String,
    pub kills: String,
    pub score_breakdown: String,
    pub tags: String,
}

/// Lines one below the other, or a text where there is none.
pub open spec fn lines_or(lines: Seq<Seq<char>>, separator: Seq<char>, otherwise: Seq<char>) -> Seq<
    char,
> {
    if lines.len() == 0 {
        otherwise
    } else {
        joined(lines, separator)
    }
}

fn join_or(lines: &Vec<String>, separator: &str, otherwise: &str) -> (out: String)
    ensures
        out@ == lines_or(views(lines@), separator@, otherwise@),
{
    assert(views(lines@).len() == lines.len());
    if lines.len() == 0 {
        otherwise.to_owned()
    } else {
        join(lines, separator)
    }
}

/// What is told of the clip of a candidate.
pub open spec fn score_meta(candidate: Candidate) -> Seq<char> {
    int_text(candidate.kill_total() as int) + " "@ + (if candidate.kill_total() == 1 {
        "kill"@
    } else {
        "kills"@
    }) + " • Clip ticks "@ + int_text(candidate.clip_start_tick as int) + "–"@ + int_text(
        candidate.clip_end_tick as int,
    )
}

fn say_score_meta(candidate: &Candidate) -> (out: String)
    ensures
        out@ == score_meta(*candidate),
{
    let count = candidate.kill_count();
    let mut out = u64_text(count as u64);
    out.append(" ");
    if count == 1 {
        out.append("kill");
    } else {
        out.append("kills");
    }
    out.append(" • Clip ticks ");
    out.append(i64_text(candidate.clip_start_tick).as_str());
    out.append("–");
    out.append(i64_text(candidate.clip_end_tick).as_str());
    out
}

/// What is told of the player of a candidate.
pub open spec fn player_meta(candidate: Candidate) -> Seq<char> {
    class_shown(candidate) + " • "@ + team_shown(candidate) + " • User ID #"@ + int_text(
        candidate.attacker_user_id as int,
    )
}

fn say_player_meta(candidate: &Candidate) -> (out: String)
    ensures
        out@ == player_meta(*candidate),
{
    let mut out = say_class(candidate);
    out.append(" • ");
    out.append(say_team(candidate).as_str());
    out.append(" • User ID #");
    out.append(i64_text(candidate.attacker_user_id).as_str());
    out
}

/// All that is told of a candidate, where the name of the file of its demo is
/// known or not.
pub fn candidate_detail_text(candidate: &Candidate, demo_file: &Option<String>) -> (out:
    CandidateDetailText)
    requires
        candidate.kills.len() < usize::MAX,
        candidate.score_breakdown.len() < usize::MAX,
    ensures
        out.player@ == player_name(*candidate),
        out.player_meta@ == player_meta(*candidate),
        out.map@ == unless_empty(candidate.map_name@, "Unknown map"@),
        out.map_meta@ == map_meta(*candidate, optional(*demo_file)),
        out.score@ == points_text(candidate.overall_score as int, false) + " POINTS"@,
        out.score_meta@ == score_meta(*candidate),
        out.summary@ == summary_of(*candidate),
        out.kills@ == lines_or(
            kill_lines(candidate.kills@, candidate.kills.len() as int),
            "\n"@,
            "No parsed kill events are attached to this bookmarked candidate."@,
        ),
        out.score_breakdown@ == lines_or(
            score_lines(candidate.score_breakdown@, candidate.score_breakdown.len() as int),
            "\n"@,
            "No itemized score evidence is available for this imported candidate."@,
        ),
        out.tags@ == lines_or(
            tag_names(views(candidate.tags@)),
            "  •  "@,
            "No frag tags were assigned."@,
        ),
{
    let mut score = show_points(candidate.overall_score, false);
    score.append(" POINTS");
    CandidateDetailText {
        player: candidate_player_name(candidate),
        player_meta: say_player_meta(candidate),
        map: say_map(candidate),
        map_meta: say_map_meta(candidate, demo_file),
        score,
        score_meta: say_score_meta(candidate),
        summary: say_summary(candidate),
        kills: join_or(
            &list_kills(&candidate.kills),
            "\n",
            "No parsed kill events are attached to this bookmarked candidate.",
        ),
        score_breakdown: join_or(
            &list_scores(&candidate.score_breakdown),
            "\n",
            "No itemized score evidence is available for this imported candidate.",
        ),
        tags: join_or(&list_tag_names(&candidate.tags), "  •  ", "No frag tags were assigned."),
    }
}

/// What is worth mentioning of a candidate is told of its tags, in five phrases at most.
pub proof fn law_highlights_are_few(tags: Seq<Seq<char>>, order: Seq<Seq<char>>, upto: int)
    requires
        0 <= upto <= order.len(),
    ensures
        highlights(tags, order, upto).len() <= 5,
        forall|i: int|
            #![trigger order[i]]
            0 <= i < upto && tags.contains(order[i]) && highlights(tags, order, upto).len() < 5
                ==> highlights(tags, order, upto).contains(tag_name(order[i])),
        forall|k: int|
            #![trigger highlights(tags, order, upto)[k]]
            0 <= k < highlights(tags, order, upto).len() ==> exists|i: int|
                #![trigger order[i]]
                0 <= i < upto && tags.contains(order[i]) && highlights(tags, order, upto)[k]
                    == tag_name(order[i]),
    decreases upto,
{
    if upto > 0 {
        law_highlights_are_few(tags, order, upto - 1);
        let before = highlights(tags, order, upto - 1);
        let out = highlights(tags, order, upto);
        assert forall|i: int|
            #![trigger order[i]]
            0 <= i < upto && tags.contains(order[i]) && out.len() < 5 implies out.contains(
            tag_name(order[i]),
        ) by {
            if i < upto - 1 {
                let k = choose|k: int| 0 <= k < before.len() && before[k] == tag_name(order[i]);
                assert(out[k] == tag_name(order[i]));
            } else {
                assert(out[out.len() - 1] == tag_name(order[i]));
            }
        }
        assert forall|k: int|
            #![trigger highlights(tags, order, upto)[k]]
            0 <= k < out.len() implies exists|i: int|
            #![trigger order[i]]
            0 <= i < upto && tags.contains(order[i]) && out[k] == tag_name(order[i]) by {
            if k < before.len() {
                assert(before[k] == out[k]);
                let i = choose|i: int|
                    #![trigger order[i]]
                    0 <= i < upto - 1 && tags.contains(order[i]) && before[k] == tag_name(order[i]);
                assert(order[i] == order[i]);
            } else {
                assert(tags.contains(order[upto - 1]));
            }
        }
    }
}

/// Every victim is named, and none twice.
pub proof fn law_victims_are_named_once(kills: Seq<KillRecord>, upto: int)
    requires
        0 <= upto <= kills.len(),
    ensures
        victims_of(kills, upto).no_duplicates(),
        forall|i: int|
            0 <= i < upto ==> victims_of(kills, upto).contains(
                victim_shown(#[trigger] kills[i]),
            ),
        victims_of(kills, upto).len() <= upto,
    decreases upto,
{
    if upto > 0 {
        law_victims_are_named_once(kills, upto - 1);
        let before = victims_of(kills, upto - 1);
        let out = victims_of(kills, upto);
        assert forall|i: int| 0 <= i < upto implies out.contains(
            victim_shown(#[trigger] kills[i]),
        ) by {
            if i < upto - 1 {
                let k = choose|k: int| 0 <= k < before.len() && before[k] == victim_shown(kills[i]);
                assert(out[k] == victim_shown(kills[i]));
            } else if !before.contains(victim_shown(kills[i])) {
                assert(out[out.len() - 1] == victim_shown(kills[i]));
            }
        }
    }
}

/// The notes of a kill tell what made it special, and nothing else.
#[verifier::rlimit(60)]
#[verifier::spinoff_prover]
pub proof fn law_notes_tell_what_was_special(kill: KillRecord)
    ensures
        notes_of(kill).contains("confirmed airshot"@) <==> kill.victim_airborne
            && kill.airshot_eligible,
        notes_of(kill).contains("direct hit"@) <==> kill.victim_airborne && kill.direct_impact,
        notes_of(kill).contains("double donk"@) <==> kill.double_donk,
        notes_of(kill).contains("Kritzkrieg boosted"@) <==> kill.kritzkrieg_boost,
        notes_of(kill).contains("Über drop"@) <==> kill.uber_drop,
        notes_of(kill).contains("rocket-jumping opponent"@) <==> kill.rocket_jump_victim && !(
        kill.victim_airborne && kill.airshot_eligible),
{
    reveal_strlit("confirmed airshot");
    reveal_strlit("direct hit");
    reveal_strlit("double donk");
    reveal_strlit("Kritzkrieg boosted");
    reveal_strlit("Über drop");
    reveal_strlit("rocket-jumping opponent");
    assert("confirmed airshot"@.len() == 17 && "direct hit"@.len() == 10 && "double donk"@.len()
        == 11 && "Kritzkrieg boosted"@.len() == 18 && "Über drop"@.len() == 9
        && "rocket-jumping opponent"@.len() == 23);
    let airshot = kill.victim_airborne && kill.airshot_eligible;
    let a = note_if(airshot, "confirmed airshot"@);
    let b = note_if(kill.victim_airborne && kill.direct_impact, "direct hit"@);
    let c = note_if(kill.double_donk, "double donk"@);
    let d = note_if(kill.kritzkrieg_boost, "Kritzkrieg boosted"@);
    let e = note_if(kill.uber_drop, "Über drop"@);
    let f = note_if(kill.rocket_jump_victim && !airshot, "rocket-jumping opponent"@);
    lemma_either_holds(a, b);
    lemma_either_holds(a + b, c);
    lemma_either_holds(a + b + c, d);
    lemma_either_holds(a + b + c + d, e);
    lemma_either_holds(a + b + c + d + e, f);
    lemma_note(airshot, "confirmed airshot"@);
    lemma_note(kill.victim_airborne && kill.direct_impact, "direct hit"@);
    lemma_note(kill.double_donk, "double donk"@);
    lemma_note(kill.kritzkrieg_boost, "Kritzkrieg boosted"@);
    lemma_note(kill.uber_drop, "Über drop"@);
    lemma_note(kill.rocket_jump_victim && !airshot, "rocket-jumping opponent"@);
}

proof fn lemma_either_holds(a: Seq<Seq<char>>, b: Seq<Seq<char>>)
    ensures
        forall|x: Seq<char>| #[trigger] (a + b).contains(x) <==> a.contains(x) || b.contains(x),
{
    assert forall|x: Seq<char>| #[trigger] (a + b).contains(x) <==> a.contains(x) || b.contains(
        x,
    ) by {
        if a.contains(x) {
            let i = choose|i: int| 0 <= i < a.len() && a[i] == x;
            assert((a + b)[i] == x);
        }
        if b.contains(x) {
            let i = choose|i: int| 0 <= i < b.len() && b[i] == x;
            assert((a + b)[a.len() + i] == x);
        }
    }
}

proof fn lemma_note(holds: bool, words: Seq<char>)
    ensures
        forall|x: Seq<char>| #[trigger] note_if(holds, words).contains(x) <==> holds && x == words,
{
    if holds {
        assert(note_if(holds, words)[0] == words);
    }
}

/// A player is called by the first name that is known, a victim too; else by their number.
pub proof fn law_players_are_called_by_name(candidate: Candidate, kill: KillRecord)
    ensures
        candidate.attacker_name matches Some(name) ==> trimmed(name@).len() > 0 ==> player_name(
            candidate,
        ) == trimmed(name@),
        kill.victim_name matches Some(name) ==> trimmed(name@).len() > 0 ==> victim_name(kill)
            == trimmed(name@),
        real_name(kill.victim_name) is None ==> (kill.victim_state_name matches Some(name)
            ==> trimmed(name@).len() > 0 ==> victim_name(kill) == trimmed(name@)),
        real_name(kill.victim_name) is None && real_name(kill.victim_state_name) is None
            && kill.victim_user_id is Some ==> victim_name(kill) == "Player #"@ + int_text(
            kill.victim_user_id->0 as int,
        ),
{
}

proof fn lemma_joined_holds(parts: Seq<Seq<char>>, sep: Seq<char>, i: int)
    requires
        0 <= i < parts.len(),
    ensures
        has_text(joined(parts, sep), parts[i]),
    decreases parts.len(),
{
    lemma_text_has_itself(parts[i]);
    let none = Seq::<char>::empty();
    if parts.len() > 1 {
        let rest = parts.drop_last();
        if i < rest.len() {
            assert(rest[i] == parts[i]);
            lemma_joined_holds(rest, sep, i);
            lemma_text_stays(none, joined(rest, sep), sep + parts.last(), parts[i]);
            assert(none + joined(rest, sep) + (sep + parts.last()) =~= joined(parts, sep));
        } else {
            lemma_text_stays(joined(rest, sep) + sep, parts.last(), none, parts[i]);
            assert(joined(rest, sep) + sep + parts.last() + none =~= joined(parts, sep));
        }
    }
}

/// A list in words holds each of its items.
#[verifier::rlimit(60)]
#[verifier::spinoff_prover]
pub proof fn law_lists_hold_their_items(list: Seq<Seq<char>>, i: int)
    requires
        0 <= i < list.len(),
    ensures
        has_text(human_joined(list), list[i]),
{
    let none = Seq::<char>::empty();
    lemma_text_has_itself(list[i]);
    if list.len() == 2 {
        if i == 0 {
            lemma_text_stays(none, list[0], " and "@ + list[1], list[0]);
            assert(none + list[0] + (" and "@ + list[1]) =~= human_joined(list));
        } else {
            lemma_text_stays(list[0] + " and "@, list[1], none, list[1]);
            assert(list[0] + " and "@ + list[1] + none =~= human_joined(list));
        }
    } else if list.len() > 2 {
        let rest = list.drop_last();
        let start = joined(rest, ", "@);
        if i < rest.len() {
            assert(rest[i] == list[i]);
            lemma_joined_holds(rest, ", "@, i);
            lemma_text_stays(none, start, ", and "@ + list.last(), list[i]);
            assert(none + start + (", and "@ + list.last()) =~= human_joined(list));
        } else {
            lemma_text_stays(start + ", and "@, list.last(), none, list[i]);
            assert(start + ", and "@ + list.last() + none =~= human_joined(list));
        }
    }
}

proof fn lemma_line_parts(
    number: Seq<char>,
    tick: Seq<char>,
    victim: Seq<char>,
    weapon: Seq<char>,
    tail: Seq<char>,
)
    ensures
        ({
            let line = number + ". Tick "@ + tick + " — "@ + victim + " with "@ + weapon + tail;
            &&& has_text(line, victim)
            &&& has_text(line, weapon)
            &&& begins_with(line, number + ". Tick "@ + tick)
        }),
{
    let line = number + ". Tick "@ + tick + " — "@ + victim + " with "@ + weapon + tail;
    let head = number + ". Tick "@ + tick;
    lemma_text_has_itself(victim);
    lemma_text_has_itself(weapon);
    lemma_text_stays(head + " — "@, victim, " with "@ + weapon + tail, victim);
    assert(head + " — "@ + victim + (" with "@ + weapon + tail) =~= line);
    lemma_text_stays(head + " — "@ + victim + " with "@, weapon, tail, weapon);
    assert(line.subrange(0, head.len() as int) =~= head);
}

/// The line of a kill begins with its number and its tick, and names the victim and the
/// weapon.
pub proof fn law_kill_lines_name_victim_and_weapon(number: int, kill: KillRecord)
    ensures
        has_text(kill_line(number, kill), victim_shown(kill)),
        has_text(kill_line(number, kill), weapon_shown(kill)),
        kill.tick matches Some(tick) ==> begins_with(
            kill_line(number, kill),
            int_text(number) + ". Tick "@ + int_text(tick as int),
        ),
{
    let tick = int_text(
        match kill.tick {
            Some(tick) => tick as int,
            None => 0,
        },
    );
    let tail = if notes_of(kill).len() == 0 {
        Seq::empty()
    } else {
        " ("@ + joined(notes_of(kill), ", "@) + ")"@
    };
    lemma_line_parts(int_text(number), tick, victim_shown(kill), weapon_shown(kill), tail);
}

/// Points below zero are shown with a minus; others have a plus where signs are asked for.
pub proof fn law_points_have_their_sign(hundredths: int, signed: bool)
    ensures
        hundredths < 0 ==> points_text(hundredths, signed)[0] == '-',
        hundredths >= 0 && signed ==> points_text(hundredths, signed)[0] == '+' && points_text(
            hundredths,
            true,
        ).skip(1) == points_text(hundredths, false),
        hundredths < 0 ==> points_text(hundredths, signed).skip(1) == points_text(
            -hundredths,
            false,
        ),
{
    reveal_strlit("-");
    reveal_strlit("+");
    let shown = point_text(shown_tenths(distance(hundredths), 100));
    assert(distance(-hundredths) == distance(hundredths));
    if hundredths < 0 {
        assert(points_text(hundredths, signed).skip(1) =~= shown);
        assert(points_text(-hundredths, false) =~= shown);
    } else if signed {
        assert(points_text(hundredths, true).skip(1) =~= shown);
        assert(points_text(hundredths, false) =~= shown);
    }
}

} // verus!
