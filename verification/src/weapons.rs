//! What a weapon is: the families that kills are told apart by.
use vstd::prelude::*;
use crate::text::{contains_text, has_text, same_text};

verus! {

/// Whether a weapon makes projectile kills.
pub open spec fn projectile_weapon(weapon: Seq<char>) -> bool {
    ||| weapon == "rocketlauncher"@
    ||| weapon == "directhit"@
    ||| weapon == "blackbox"@
    ||| weapon == "liberty_launcher"@
    ||| weapon == "airstrike"@
    ||| weapon == "grenadelauncher"@
    ||| weapon == "loch_n_load"@
    ||| weapon == "iron_bomber"@
    ||| weapon == "stickybomb_launcher"@
    ||| weapon == "quickiebomb_launcher"@
    ||| weapon == "flaregun"@
    ||| weapon == "detonator"@
    ||| weapon == "scorch_shot"@
    ||| weapon == "compound_bow"@
    ||| weapon == "crusaders_crossbow"@
    ||| weapon == "syringegun_medic"@
    ||| weapon == "rescue_ranger"@
    ||| weapon == "righteous_bison"@
    ||| weapon == "loose_cannon"@
    ||| weapon == "loose_cannon_impact"@
    ||| weapon == "loose_cannon_explosion"@
}

/// Whether a weapon makes projectile kills.
pub fn is_projectile_weapon(weapon: &str) -> (r: bool)
    ensures
        r == projectile_weapon(weapon@),
{
    same_text(weapon, "rocketlauncher") || same_text(weapon, "directhit") ||
        same_text(weapon, "blackbox") || same_text(weapon, "liberty_launcher") ||
        same_text(weapon, "airstrike") || same_text(weapon, "grenadelauncher") ||
        same_text(weapon, "loch_n_load") || same_text(weapon, "iron_bomber") ||
        same_text(weapon, "stickybomb_launcher") ||
        same_text(weapon, "quickiebomb_launcher") || same_text(weapon, "flaregun") ||
        same_text(weapon, "detonator") || same_text(weapon, "scorch_shot") ||
        same_text(weapon, "compound_bow") || same_text(weapon, "crusaders_crossbow") ||
        same_text(weapon, "syringegun_medic") || same_text(weapon, "rescue_ranger") ||
        same_text(weapon, "righteous_bison") || same_text(weapon, "loose_cannon") ||
        same_text(weapon, "loose_cannon_impact") || same_text(weapon, "loose_cannon_explosion")
}

/// Whether a weapon fires pipes.
pub open spec fn pipe_weapon(weapon: Seq<char>) -> bool {
    ||| weapon == "grenadelauncher"@
    ||| weapon == "loch_n_load"@
    ||| weapon == "iron_bomber"@
}

/// Whether a weapon fires pipes.
pub fn is_pipe_weapon(weapon: &str) -> (r: bool)
    ensures
        r == pipe_weapon(weapon@),
{
    same_text(weapon, "grenadelauncher") || same_text(weapon, "loch_n_load") ||
        same_text(weapon, "iron_bomber")
}

/// Whether a weapon fires rockets.
pub open spec fn rocket_weapon(weapon: Seq<char>) -> bool {
    ||| weapon == "rocketlauncher"@
    ||| weapon == "directhit"@
    ||| weapon == "blackbox"@
    ||| weapon == "liberty_launcher"@
    ||| weapon == "airstrike"@
}

/// Whether a weapon fires rockets.
pub fn is_rocket_weapon(weapon: &str) -> (r: bool)
    ensures
        r == rocket_weapon(weapon@),
{
    same_text(weapon, "rocketlauncher") || same_text(weapon, "directhit") ||
        same_text(weapon, "blackbox") || same_text(weapon, "liberty_launcher") ||
        same_text(weapon, "airstrike")
}

/// Whether a weapon is a bow.
pub open spec fn huntsman_weapon(weapon: Seq<char>) -> bool {
    ||| weapon == "compound_bow"@
    ||| weapon == "huntsman"@
}

/// Whether a weapon is a bow.
pub fn is_huntsman_weapon(weapon: &str) -> (r: bool)
    ensures
        r == huntsman_weapon(weapon@),
{
    same_text(weapon, "compound_bow") || same_text(weapon, "huntsman")
}

/// Whether a weapon is a crossbow.
pub open spec fn crossbow_weapon(weapon: Seq<char>) -> bool {
    ||| weapon == "crusaders_crossbow"@
    ||| weapon == "crossbow"@
}

/// Whether a weapon is a crossbow.
pub fn is_crossbow_weapon(weapon: &str) -> (r: bool)
    ensures
        r == crossbow_weapon(weapon@),
{
    same_text(weapon, "crusaders_crossbow") || same_text(weapon, "crossbow")
}

/// Whether a weapon is a rifle with a scope.
pub open spec fn scoped_rifle(weapon: Seq<char>) -> bool {
    ||| weapon == "sniperrifle"@
    ||| weapon == "sniperrifle_classic"@
    ||| weapon == "sniperrifle_decap"@
}

/// Whether a weapon is a rifle with a scope.
pub fn is_scoped_rifle(weapon: &str) -> (r: bool)
    ensures
        r == scoped_rifle(weapon@),
{
    same_text(weapon, "sniperrifle") || same_text(weapon, "sniperrifle_classic") ||
        same_text(weapon, "sniperrifle_decap")
}

/// Whether a weapon is a melee weapon by its name.
pub open spec fn melee_name(weapon: Seq<char>) -> bool {
    ||| weapon == "bottle"@
    ||| weapon == "sword"@
    ||| weapon == "eyelander"@
    ||| weapon == "headtaker"@
    ||| weapon == "golfclub"@
    ||| weapon == "scotsmans_skullcutter"@
    ||| weapon == "skullcutter"@
    ||| weapon == "paintrain"@
    ||| weapon == "pain_train"@
    ||| weapon == "ullapool_caber"@
    ||| weapon == "battleaxe"@
    ||| weapon == "claidheamh_mor"@
    ||| weapon == "claidheamohmor"@
    ||| weapon == "half_zatoichi"@
    ||| weapon == "katana"@
    ||| weapon == "persian_persuader"@
    ||| weapon == "fryingpan"@
    ||| weapon == "golden_fryingpan"@
    ||| weapon == "saxxy"@
    ||| weapon == "conscientious_objector"@
    ||| weapon == "freedom_staff"@
    ||| weapon == "ham_shank"@
    ||| weapon == "memory_maker"@
    ||| weapon == "necro_smasher"@
    ||| weapon == "crossing_guard"@
    ||| weapon == "prinny_machete"@
    ||| weapon == "bat"@
    ||| weapon == "bat_wood"@
    ||| weapon == "sandman"@
    ||| weapon == "wrap_assassin"@
    ||| weapon == "atomizer"@
    ||| weapon == "fan_o_war"@
    ||| weapon == "holy_mackerel"@
    ||| weapon == "boston_basher"@
    ||| weapon == "three_rune_blade"@
    ||| weapon == "sun_on_a_stick"@
    ||| weapon == "candy_cane"@
    ||| weapon == "fish"@
    ||| weapon == "fists"@
    ||| weapon == "gloves"@
    ||| weapon == "holiday_punch"@
    ||| weapon == "kgb"@
    ||| weapon == "warrior_spirit"@
    ||| weapon == "eviction_notice"@
    ||| weapon == "fireaxe"@
    ||| weapon == "back_scratcher"@
    ||| weapon == "powerjack"@
    ||| weapon == "homewrecker"@
    ||| weapon == "maul"@
    ||| weapon == "neon_annihilator"@
    ||| weapon == "thirddegree"@
    ||| weapon == "volcano_fragment"@
    ||| weapon == "axtinguisher"@
    ||| weapon == "postal_pummeler"@
    ||| weapon == "shovel"@
    ||| weapon == "equalizer"@
    ||| weapon == "escape_plan"@
    ||| weapon == "market_gardener"@
    ||| weapon == "disciplinary_action"@
    ||| weapon == "wrench"@
    ||| weapon == "gunslinger"@
    ||| weapon == "southern_hospitality"@
    ||| weapon == "jag"@
    ||| weapon == "eureka_effect"@
    ||| weapon == "bonesaw"@
    ||| weapon == "ubersaw"@
    ||| weapon == "vita_saw"@
    ||| weapon == "amputator"@
    ||| weapon == "solemn_vow"@
    ||| weapon == "knife"@
    ||| weapon == "kunai"@
    ||| weapon == "eternal_reward"@
    ||| weapon == "wanga_prick"@
    ||| weapon == "big_earner"@
    ||| weapon == "spy_cicle"@
    ||| weapon == "black_rose"@
    ||| weapon == "sharp_dresser"@
    ||| weapon == "tribalkukri"@
    ||| weapon == "shahanshah"@
    ||| weapon == "bushwacka"@
    ||| weapon == "kukri"@
}

/// Whether a weapon is a melee weapon by its name.
pub fn is_melee_name(weapon: &str) -> (r: bool)
    ensures
        r == melee_name(weapon@),
{
    same_text(weapon, "bottle") || same_text(weapon, "sword") ||
        same_text(weapon, "eyelander") || same_text(weapon, "headtaker") ||
        same_text(weapon, "golfclub") || same_text(weapon, "scotsmans_skullcutter") ||
        same_text(weapon, "skullcutter") || same_text(weapon, "paintrain") ||
        same_text(weapon, "pain_train") || same_text(weapon, "ullapool_caber") ||
        same_text(weapon, "battleaxe") || same_text(weapon, "claidheamh_mor") ||
        same_text(weapon, "claidheamohmor") || same_text(weapon, "half_zatoichi") ||
        same_text(weapon, "katana") || same_text(weapon, "persian_persuader") ||
        same_text(weapon, "fryingpan") || same_text(weapon, "golden_fryingpan") ||
        same_text(weapon, "saxxy") || same_text(weapon, "conscientious_objector") ||
        same_text(weapon, "freedom_staff") || same_text(weapon, "ham_shank") ||
        same_text(weapon, "memory_maker") || same_text(weapon, "necro_smasher") ||
        same_text(weapon, "crossing_guard") || same_text(weapon, "prinny_machete") ||
        same_text(weapon, "bat") || same_text(weapon, "bat_wood") ||
        same_text(weapon, "sandman") || same_text(weapon, "wrap_assassin") ||
        same_text(weapon, "atomizer") || same_text(weapon, "fan_o_war") ||
        same_text(weapon, "holy_mackerel") || same_text(weapon, "boston_basher") ||
        same_text(weapon, "three_rune_blade") || same_text(weapon, "sun_on_a_stick") ||
        same_text(weapon, "candy_cane") || same_text(weapon, "fish") ||
        same_text(weapon, "fists") || same_text(weapon, "gloves") ||
        same_text(weapon, "holiday_punch") || same_text(weapon, "kgb") ||
        same_text(weapon, "warrior_spirit") || same_text(weapon, "eviction_notice") ||
        same_text(weapon, "fireaxe") || same_text(weapon, "back_scratcher") ||
        same_text(weapon, "powerjack") || same_text(weapon, "homewrecker") ||
        same_text(weapon, "maul") || same_text(weapon, "neon_annihilator") ||
        same_text(weapon, "thirddegree") || same_text(weapon, "volcano_fragment") ||
        same_text(weapon, "axtinguisher") || same_text(weapon, "postal_pummeler") ||
        same_text(weapon, "shovel") || same_text(weapon, "equalizer") ||
        same_text(weapon, "escape_plan") || same_text(weapon, "market_gardener") ||
        same_text(weapon, "disciplinary_action") || same_text(weapon, "wrench") ||
        same_text(weapon, "gunslinger") || same_text(weapon, "southern_hospitality") ||
        same_text(weapon, "jag") || same_text(weapon, "eureka_effect") ||
        same_text(weapon, "bonesaw") || same_text(weapon, "ubersaw") ||
        same_text(weapon, "vita_saw") || same_text(weapon, "amputator") ||
        same_text(weapon, "solemn_vow") || same_text(weapon, "knife") ||
        same_text(weapon, "kunai") || same_text(weapon, "eternal_reward") ||
        same_text(weapon, "wanga_prick") || same_text(weapon, "big_earner") ||
        same_text(weapon, "spy_cicle") || same_text(weapon, "black_rose") ||
        same_text(weapon, "sharp_dresser") || same_text(weapon, "tribalkukri") ||
        same_text(weapon, "shahanshah") || same_text(weapon, "bushwacka") ||
        same_text(weapon, "kukri")
}

/// Whether a weapon is counted among projectile kills on airborne players.
pub open spec fn airborne_weapon(weapon: Seq<char>) -> bool {
    ||| weapon == "rocketlauncher"@
    ||| weapon == "directhit"@
    ||| weapon == "blackbox"@
    ||| weapon == "liberty_launcher"@
    ||| weapon == "airstrike"@
    ||| weapon == "grenadelauncher"@
    ||| weapon == "loch_n_load"@
    ||| weapon == "iron_bomber"@
    ||| weapon == "loose_cannon"@
    ||| weapon == "loose_cannon_impact"@
    ||| weapon == "loose_cannon_explosion"@
    ||| weapon == "flaregun"@
    ||| weapon == "detonator"@
    ||| weapon == "scorch_shot"@
    ||| weapon == "compound_bow"@
    ||| weapon == "huntsman"@
}

/// Whether a weapon is counted among projectile kills on airborne players.
pub fn is_airborne_weapon(weapon: &str) -> (r: bool)
    ensures
        r == airborne_weapon(weapon@),
{
    same_text(weapon, "rocketlauncher") || same_text(weapon, "directhit") ||
        same_text(weapon, "blackbox") || same_text(weapon, "liberty_launcher") ||
        same_text(weapon, "airstrike") || same_text(weapon, "grenadelauncher") ||
        same_text(weapon, "loch_n_load") || same_text(weapon, "iron_bomber") ||
        same_text(weapon, "loose_cannon") || same_text(weapon, "loose_cannon_impact") ||
        same_text(weapon, "loose_cannon_explosion") || same_text(weapon, "flaregun") ||
        same_text(weapon, "detonator") || same_text(weapon, "scorch_shot") ||
        same_text(weapon, "compound_bow") || same_text(weapon, "huntsman")
}

/// Whether the name of a weapon tells that it fires projectiles.
pub open spec fn projectile_family(weapon: Seq<char>) -> bool {
    ||| has_text(weapon, "rocket"@)
    ||| has_text(weapon, "directhit"@)
    ||| has_text(weapon, "blackbox"@)
    ||| has_text(weapon, "grenade"@)
    ||| has_text(weapon, "loch"@)
    ||| has_text(weapon, "iron_bomber"@)
    ||| has_text(weapon, "loose_cannon"@)
    ||| has_text(weapon, "flare"@)
    ||| has_text(weapon, "huntsman"@)
    ||| has_text(weapon, "crossbow"@)
}

/// Whether the name of a weapon tells that it fires projectiles.
pub fn is_projectile_family(weapon: &str) -> (r: bool)
    ensures
        r == projectile_family(weapon@),
{
    contains_text(weapon, "rocket") || contains_text(weapon, "directhit") ||
        contains_text(weapon, "blackbox") || contains_text(weapon, "grenade") ||
        contains_text(weapon, "loch") || contains_text(weapon, "iron_bomber") ||
        contains_text(weapon, "loose_cannon") || contains_text(weapon, "flare") ||
        contains_text(weapon, "huntsman") || contains_text(weapon, "crossbow")
}

/// Whether the name of a weapon makes a sequence one of projectiles.
pub open spec fn sequence_family(weapon: Seq<char>) -> bool {
    ||| has_text(weapon, "rocket"@)
    ||| has_text(weapon, "grenade"@)
    ||| has_text(weapon, "flare"@)
    ||| has_text(weapon, "huntsman"@)
    ||| has_text(weapon, "crossbow"@)
    ||| has_text(weapon, "loose_cannon"@)
}

/// Whether the name of a weapon makes a sequence one of projectiles.
pub fn is_sequence_family(weapon: &str) -> (r: bool)
    ensures
        r == sequence_family(weapon@),
{
    contains_text(weapon, "rocket") || contains_text(weapon, "grenade") ||
        contains_text(weapon, "flare") || contains_text(weapon, "huntsman") ||
        contains_text(weapon, "crossbow") || contains_text(weapon, "loose_cannon")
}

/// Whether the name of a weapon makes its kill count among projectile kills.
pub open spec fn counted_family(weapon: Seq<char>) -> bool {
    ||| has_text(weapon, "rocket"@)
    ||| has_text(weapon, "grenade"@)
    ||| has_text(weapon, "loch"@)
    ||| has_text(weapon, "iron_bomber"@)
    ||| has_text(weapon, "loose_cannon"@)
    ||| has_text(weapon, "flare"@)
    ||| has_text(weapon, "huntsman"@)
    ||| has_text(weapon, "crossbow"@)
}

/// Whether the name of a weapon makes its kill count among projectile kills.
pub fn is_counted_family(weapon: &str) -> (r: bool)
    ensures
        r == counted_family(weapon@),
{
    contains_text(weapon, "rocket") || contains_text(weapon, "grenade") ||
        contains_text(weapon, "loch") || contains_text(weapon, "iron_bomber") ||
        contains_text(weapon, "loose_cannon") || contains_text(weapon, "flare") ||
        contains_text(weapon, "huntsman") || contains_text(weapon, "crossbow")
}

/// The tag of a weapon that has one of its own.
pub open spec fn own_tag(weapon: Seq<char>) -> Option<Seq<char>> {
    if weapon == "market_gardener"@ {
        Some("market_gardener"@)
    } else if weapon == "axtinguisher"@ {
        Some("axtinguisher"@)
    } else if weapon == "backburner"@ {
        Some("backburner"@)
    } else if weapon == "ambassador"@ {
        Some("ambassador"@)
    } else if weapon == "kunai"@ {
        Some("kunai"@)
    } else if weapon == "eternal_reward"@ {
        Some("eternal_reward"@)
    } else if weapon == "tribalkukri"@ {
        Some("tribalman's_shiv"@)
    } else {
        None
    }
}

/// The tag of a weapon that has one of its own.
pub fn find_own_tag(weapon: &str) -> (out: Option<&'static str>)
    ensures
        match out {
            Some(tag) => own_tag(weapon@) == Some(tag@),
            None => own_tag(weapon@) is None,
        },
{
    if same_text(weapon, "market_gardener") {
        Some("market_gardener")
    } else if same_text(weapon, "axtinguisher") {
        Some("axtinguisher")
    } else if same_text(weapon, "backburner") {
        Some("backburner")
    } else if same_text(weapon, "ambassador") {
        Some("ambassador")
    } else if same_text(weapon, "kunai") {
        Some("kunai")
    } else if same_text(weapon, "eternal_reward") {
        Some("eternal_reward")
    } else if same_text(weapon, "tribalkukri") {
        Some("tribalman's_shiv")
    } else {
        None
    }
}

/// The name of the taunt that a custom kill was made with.
pub open spec fn taunt_named(custom: int) -> Option<Seq<char>> {
    if custom == 7 {
        Some("hadouken"@)
    } else if custom == 9 {
        Some("high_noon"@)
    } else if custom == 10 {
        Some("grand_slam"@)
    } else if custom == 13 {
        Some("fencing"@)
    } else if custom == 15 {
        Some("arrow_stab"@)
    } else if custom == 21 {
        Some("grenade_taunt"@)
    } else if custom == 24 {
        Some("barbarian_swing"@)
    } else if custom == 29 {
        Some("uberslice"@)
    } else if custom == 33 {
        Some("engineer_guitar_smash"@)
    } else if custom == 38 {
        Some("engineer_arm_impale"@)
    } else if custom == 52 {
        Some("armageddon"@)
    } else if custom == 60 {
        Some("allclass_guitar_riff"@)
    } else if custom == 80 {
        Some("gas_blast"@)
    } else {
        None
    }
}

/// The name of the taunt that a custom kill was made with.
pub fn taunt_kill_name(custom: i64) -> (out: Option<&'static str>)
    ensures
        match out {
            Some(name) => taunt_named(custom as int) == Some(name@),
            None => taunt_named(custom as int) is None,
        },
{
    if custom == 7 {
        Some("hadouken")
    } else if custom == 9 {
        Some("high_noon")
    } else if custom == 10 {
        Some("grand_slam")
    } else if custom == 13 {
        Some("fencing")
    } else if custom == 15 {
        Some("arrow_stab")
    } else if custom == 21 {
        Some("grenade_taunt")
    } else if custom == 24 {
        Some("barbarian_swing")
    } else if custom == 29 {
        Some("uberslice")
    } else if custom == 33 {
        Some("engineer_guitar_smash")
    } else if custom == 38 {
        Some("engineer_arm_impale")
    } else if custom == 52 {
        Some("armageddon")
    } else if custom == 60 {
        Some("allclass_guitar_riff")
    } else if custom == 80 {
        Some("gas_blast")
    } else {
        None
    }
}

/// The weapon ids of melee weapons.
pub open spec fn melee_id(id: int) -> bool {
    1 <= id <= 11 || id == 64 || id == 72 || id == 74 || id == 82 || id == 96 || id == 104 || id
        == 106
}

/// Whether a projectile of some kind can come from a weapon.
pub open spec fn fired_by(projectile: Seq<char>, weapon: Seq<char>) -> bool {
    ||| has_text(projectile, "rocket"@) && (has_text(weapon, "rocket"@) || has_text(
        weapon,
        "directhit"@,
    ) || has_text(weapon, "blackbox"@) || has_text(weapon, "liberty"@) || has_text(
        weapon,
        "airstrike"@,
    ))
    ||| has_text(projectile, "pipe"@) && (has_text(weapon, "grenade"@) || has_text(weapon, "loch"@)
        || has_text(weapon, "iron_bomber"@))
    ||| has_text(projectile, "cannon"@) && has_text(weapon, "loose_cannon"@)
    ||| has_text(projectile, "flare"@) && has_text(weapon, "flare"@)
    ||| (has_text(projectile, "arrow"@) || has_text(projectile, "unknown"@)) && (has_text(
        weapon,
        "huntsman"@,
    ) || has_text(weapon, "crossbow"@))
}

/// Whether a projectile of some kind can come from a weapon.
pub fn projectile_matches_weapon(projectile: &str, weapon: &str) -> (r: bool)
    ensures
        r == fired_by(projectile@, weapon@),
{
    (contains_text(projectile, "rocket") && (contains_text(weapon, "rocket") || contains_text(
        weapon,
        "directhit",
    ) || contains_text(weapon, "blackbox") || contains_text(weapon, "liberty") || contains_text(
        weapon,
        "airstrike",
    ))) || (contains_text(projectile, "pipe") && (contains_text(weapon, "grenade")
        || contains_text(weapon, "loch") || contains_text(weapon, "iron_bomber"))) || (
    contains_text(projectile, "cannon") && contains_text(weapon, "loose_cannon")) || (
    contains_text(projectile, "flare") && contains_text(weapon, "flare")) || ((contains_text(
        projectile,
        "arrow",
    ) || contains_text(projectile, "unknown")) && (contains_text(weapon, "huntsman")
        || contains_text(weapon, "crossbow")))
}

/// Rockets, pipes and bows are projectiles that are told on players in the air, and no
/// weapon fires two kinds.
#[verifier::rlimit(60)]
#[verifier::spinoff_prover]
pub proof fn law_families_fit_together(weapon: Seq<char>)
    ensures
        rocket_weapon(weapon) || pipe_weapon(weapon) ==> projectile_weapon(weapon)
            && airborne_weapon(weapon),
        huntsman_weapon(weapon) ==> airborne_weapon(weapon),
        sequence_family(weapon) ==> counted_family(weapon),
        counted_family(weapon) ==> projectile_family(weapon),
        projectile_family(weapon) && !counted_family(weapon) ==> has_text(weapon, "directhit"@)
            || has_text(weapon, "blackbox"@),
        !(rocket_weapon(weapon) && pipe_weapon(weapon)),
{
    reveal_strlit("rocketlauncher");
    reveal_strlit("directhit");
    reveal_strlit("blackbox");
    reveal_strlit("liberty_launcher");
    reveal_strlit("airstrike");
    reveal_strlit("grenadelauncher");
    reveal_strlit("loch_n_load");
    reveal_strlit("iron_bomber");
    assert("rocketlauncher"@[0] == 'r' && "directhit"@[0] == 'd' && "blackbox"@[0] == 'b'
        && "liberty_launcher"@.len() == 16 && "airstrike"@[0] == 'a');
    assert("grenadelauncher"@[0] == 'g' && "loch_n_load"@.len() == 11 && "loch_n_load"@[0] == 'l'
        && "iron_bomber"@[0] == 'i');
}

/// What is a rocket and nothing else comes from a launcher of rockets, and from no other
/// weapon; so it is with pipes.
pub proof fn law_projectiles_come_from_their_weapons(projectile: Seq<char>, weapon: Seq<char>)
    requires
        !has_text(projectile, "cannon"@),
        !has_text(projectile, "flare"@),
        !has_text(projectile, "arrow"@),
        !has_text(projectile, "unknown"@),
    ensures
        has_text(projectile, "rocket"@) && !has_text(projectile, "pipe"@) ==> (fired_by(
            projectile,
            weapon,
        ) <==> has_text(weapon, "rocket"@) || has_text(weapon, "directhit"@) || has_text(
            weapon,
            "blackbox"@,
        ) || has_text(weapon, "liberty"@) || has_text(weapon, "airstrike"@)),
        has_text(projectile, "pipe"@) && !has_text(projectile, "rocket"@) ==> (fired_by(
            projectile,
            weapon,
        ) <==> has_text(weapon, "grenade"@) || has_text(weapon, "loch"@) || has_text(
            weapon,
            "iron_bomber"@,
        )),
        !has_text(projectile, "pipe"@) && !has_text(projectile, "rocket"@) ==> !fired_by(
            projectile,
            weapon,
        ),
{
}

/// A projectile comes from no weapon whose name tells of none, and an arrow that is not told
/// apart comes from a bow or a crossbow.
pub proof fn law_projectiles_need_a_launcher(projectile: Seq<char>, weapon: Seq<char>)
    ensures
        fired_by(projectile, weapon) ==> projectile_family(weapon) || has_text(
            weapon,
            "liberty"@,
        ) || has_text(weapon, "airstrike"@),
        (has_text(projectile, "arrow"@) || has_text(projectile, "unknown"@)) && (has_text(
            weapon,
            "huntsman"@,
        ) || has_text(weapon, "crossbow"@)) ==> fired_by(projectile, weapon),
        has_text(projectile, "flare"@) && has_text(weapon, "flare"@) ==> fired_by(
            projectile,
            weapon,
        ),
        has_text(projectile, "cannon"@) && has_text(weapon, "loose_cannon"@) ==> fired_by(
            projectile,
            weapon,
        ),
{
}

/// The kills that are taunts are told by their numbers.
pub proof fn law_taunts_are_numbered(custom: int)
    ensures
        taunt_named(custom) is Some <==> custom == 7 || custom == 9 || custom == 10 || custom == 13
            || custom == 15 || custom == 21 || custom == 24 || custom == 29 || custom == 33
            || custom == 38 || custom == 52 || custom == 60 || custom == 80,
        custom == 7 ==> taunt_named(custom) == Some("hadouken"@),
        custom == 9 ==> taunt_named(custom) == Some("high_noon"@),
        custom == 10 ==> taunt_named(custom) == Some("grand_slam"@),
        custom == 13 ==> taunt_named(custom) == Some("fencing"@),
        custom == 15 ==> taunt_named(custom) == Some("arrow_stab"@),
        custom == 21 ==> taunt_named(custom) == Some("grenade_taunt"@),
        custom == 24 ==> taunt_named(custom) == Some("barbarian_swing"@),
        custom == 29 ==> taunt_named(custom) == Some("uberslice"@),
        custom == 33 ==> taunt_named(custom) == Some("engineer_guitar_smash"@),
        custom == 38 ==> taunt_named(custom) == Some("engineer_arm_impale"@),
        custom == 52 ==> taunt_named(custom) == Some("armageddon"@),
        custom == 60 ==> taunt_named(custom) == Some("allclass_guitar_riff"@),
        custom == 80 ==> taunt_named(custom) == Some("gas_blast"@),
{
}

} // verus!
