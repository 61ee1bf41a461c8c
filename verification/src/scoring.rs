//! What a kill, and a sequence of kills, is worth: tags and points.
use vstd::prelude::*;
use crate::deaths::{AirshotGeometry, Death, ProjectileEvidence};
use crate::order::{ascending, insert_text, members};
use crate::floating::{
    integer, lemma_natural_positive, lemma_natural_rises, lemma_one_positive, natural, one,
    Double,
};
use crate::record::{bool_of, lookup, vector_of};
use crate::text::{lower, same_fold, same_ignoring_case, same_text, to_lower, views};
use crate::weapons::{
    crossbow_weapon, find_own_tag, huntsman_weapon, is_crossbow_weapon, is_huntsman_weapon,
    is_melee_name, is_pipe_weapon, is_projectile_family, is_projectile_weapon, is_rocket_weapon,
    is_scoped_rifle, melee_id, melee_name, own_tag, pipe_weapon, projectile_family,
    projectile_weapon, rocket_weapon, scoped_rifle, taunt_kill_name, taunt_named,
};

verus! {

// ---------------------------------------------------------------------------
// One kill
// ---------------------------------------------------------------------------

/// Whether a kill was made with a melee weapon: by the slot where it is known,
/// else by the weapon.
pub open spec fn melee(kill: Death) -> bool {
    if kill.weapon_slot@.len() > 0 {
        same_fold(kill.weapon_slot@, "melee"@)
    } else {
        melee_id(kill.weapon_id as int) || melee_name(kill.weapon@)
    }
}

/// Whether a kill was made with a melee weapon.
pub fn is_melee(kill: &Death) -> (r: bool)
    ensures
        r == melee(*kill),
{
    if !kill.weapon_slot.as_str().is_empty() {
        return same_ignoring_case(kill.weapon_slot.as_str(), "melee");
    }
    let id: i64 = kill.weapon_id;
    (1 <= id && id <= 11) || id == 64 || id == 72 || id == 74 || id == 82 || id == 96 || id == 104
        || id == 106 || is_melee_name(kill.weapon.as_str())
}

/// A boosted critical kill.
pub open spec fn kritz_kill(kill: Death) -> bool {
    kill.state.confirmed_kritzkrieg_boost && kill.crit_type > 0
}

/// A critical kill with the Market Gardener while blast jumping.
pub open spec fn market_garden(kill: Death, weapon: Seq<char>) -> bool {
    weapon == "market_gardener"@ && kill.crit_type > 0 && bool_of(
        lookup(kill.state.attacker.model(), "blast_jumping"@),
    ) == Some(true)
}

/// The vertical speed of the attacker.
pub open spec fn fall_speed(kill: Death) -> int {
    match vector_of(lookup(kill.state.attacker.model(), "velocity"@)) {
        Some(v) => v.2,
        None => 0,
    }
}

/// A scoped kill of a falling Sniper.
pub open spec fn dropshot(kill: Death, weapon: Seq<char>) -> bool {
    &&& kill.attacker_class@ == "sniper"@
    &&& scoped_rifle(weapon)
    &&& bool_of(lookup(kill.state.attacker.model(), "scoped"@)) == Some(true)
    &&& bool_of(lookup(kill.state.attacker.model(), "on_ground"@)) == Some(false)
    &&& fall_speed(kill) < integer(-20)
}

/// A kill with a shield.
pub open spec fn shield_bash(kill: Death) -> bool {
    kill.custom_kill == 23
}

/// A melee kill at the end of a shield charge.
pub open spec fn charge_melee(kill: Death) -> bool {
    !shield_bash(kill) && kill.attacker_class@ == "demoman"@ && melee(kill)
        && kill.state.attacker_recent_shield_charge_tick is Some
}

/// A stab in the back.
pub open spec fn backstab(kill: Death) -> bool {
    kill.custom_kill == 2
}

/// A melee kill that is nothing more special.
pub open spec fn plain_melee(kill: Death, weapon: Seq<char>) -> bool {
    melee(kill) && !backstab(kill) && taunt_named(kill.custom_kill as int) is None && !shield_bash(
        kill,
    ) && !charge_melee(kill) && !market_garden(kill, weapon)
}

/// A projectile kill of a player who was in the air before the impact.
pub open spec fn airshot(kill: Death) -> bool {
    kill.state.victim_airborne_before_projectile_impact && kill.state.projectile is Some
        && kill.state.projectile->0.airshot_eligible
}

impl ProjectileEvidence {
    /// Whether the projectile went off within 64 units of the victim.
    pub open spec fn direct(&self) -> bool {
        self.distance.value() <= natural(64)
    }

    /// Whether the projectile went off within 64 units of the victim.
    pub fn is_direct(&self) -> (r: bool)
        ensures
            r == self.direct(),
    {
        !Double::natural(64).less(self.distance)
    }
}

/// An airshot with a direct hit.
pub open spec fn direct_airshot(kill: Death) -> bool {
    airshot(kill) && kill.state.projectile->0.direct()
}

/// An airshot after half a second of flight or more.
pub open spec fn long_airshot(kill: Death) -> bool {
    airshot(kill) && kill.state.projectile->0.flight_ms >= 500
}

/// The points for height and angle of an airshot, at most 20; neither counts
/// without the other.
pub open spec fn style_points(relative_height: int, elevation: int) -> int {
    if relative_height <= 0 || elevation <= 0 {
        0
    } else {
        let height_points: int = if relative_height >= natural(256) {
            10
        } else if relative_height >= natural(192) {
            7
        } else if relative_height >= natural(128) {
            4
        } else if relative_height >= natural(64) {
            2
        } else {
            0
        };
        let angle_points: int = if elevation >= natural(50) {
            10
        } else if elevation >= natural(35) {
            7
        } else if elevation >= natural(20) {
            4
        } else if elevation >= natural(10) {
            2
        } else {
            0
        };
        height_points + angle_points
    }
}

/// The points for height and angle of an airshot.
pub fn airshot_style_bonus(relative_height: Double, elevation: Double) -> (out: i64)
    ensures
        out == style_points(relative_height.value(), elevation.value()),
        0 <= out <= 20,
{
    if !Double::zero().less(relative_height) || !Double::zero().less(elevation) {
        return 0;
    }
    let height_points: i64 = if reaches(relative_height, 256) {
        10
    } else if reaches(relative_height, 192) {
        7
    } else if reaches(relative_height, 128) {
        4
    } else if reaches(relative_height, 64) {
        2
    } else {
        0
    };
    let angle_points: i64 = if reaches(elevation, 50) {
        10
    } else if reaches(elevation, 35) {
        7
    } else if reaches(elevation, 20) {
        4
    } else if reaches(elevation, 10) {
        2
    } else {
        0
    };
    height_points + angle_points
}

fn reaches(number: Double, least: u64) -> (r: bool)
    ensures
        r == (number.value() >= natural(least as nat)),
{
    !number.less(Double::natural(least))
}

/// The height of the victim over the attacker; zero where it is not known.
pub open spec fn height_of(kill: Death) -> int {
    match kill.state.geometry {
        Some(g) => g.relative_height.value(),
        None => 0,
    }
}

/// The angle up to the victim; zero where it is not known.
pub open spec fn elevation_of(kill: Death) -> int {
    match kill.state.geometry {
        Some(g) => g.elevation.value(),
        None => 0,
    }
}

/// The points for height and angle of a kill.
pub open spec fn style_of(kill: Death) -> int {
    style_points(height_of(kill), elevation_of(kill))
}

/// An airshot with points for height and angle.
pub open spec fn styled_airshot(kill: Death) -> bool {
    airshot(kill) && style_of(kill) > 0
}

/// A projectile kill of an airborne player that is not a confirmed airshot.
pub open spec fn airborne_kill(kill: Death, weapon: Seq<char>) -> bool {
    !airshot(kill) && kill.state.victim_airborne_before_projectile_impact && projectile_family(
        weapon,
    )
}

/// A kill of a player who was rocket jumping.
pub open spec fn jumper_kill(kill: Death, weapon: Seq<char>) -> bool {
    !airshot(kill) && !airborne_kill(kill, weapon) && kill.rocket_jump_victim
}

/// A full critical hit that nothing explains.
pub open spec fn random_crit(kill: Death, weapon: Seq<char>) -> bool {
    kill.crit_type == 2 && !charge_melee(kill) && !kill.state.confirmed_kritzkrieg_boost && weapon
        != "market_gardener"@ && !backstab(kill)
}

/// What is true of a kill.
pub struct KillFacts {
    pub kritz: bool,
    pub market: bool,
    pub dropshot: bool,
    pub bash: bool,
    pub charge: bool,
    pub melee: bool,
    pub stab: bool,
    pub taunt: bool,
    pub medic: bool,
    pub demoman: bool,
    pub airshot: bool,
    pub direct: bool,
    pub long: bool,
    pub height: Double,
    pub elevation: Double,
    pub style: i64,
    pub airborne: bool,
    pub jumper: bool,
    pub random_crit: bool,
}

impl KillFacts {
    /// The facts of a kill, given its weapon in lower case.
    pub open spec fn of(&self, kill: Death, weapon: Seq<char>) -> bool {
        &&& self.kritz == kritz_kill(kill)
        &&& self.market == market_garden(kill, weapon)
        &&& self.dropshot == dropshot(kill, weapon)
        &&& self.bash == shield_bash(kill)
        &&& self.charge == charge_melee(kill)
        &&& self.melee == plain_melee(kill, weapon)
        &&& self.stab == backstab(kill)
        &&& self.taunt == (taunt_named(kill.custom_kill as int) is Some)
        &&& self.medic == (kill.victim_class@ == "medic"@)
        &&& self.demoman == (kill.victim_class@ == "demoman"@)
        &&& self.airshot == airshot(kill)
        &&& self.direct == direct_airshot(kill)
        &&& self.long == long_airshot(kill)
        &&& self.height.value() == height_of(kill)
        &&& self.elevation.value() == elevation_of(kill)
        &&& self.style == (if airshot(kill) {
            style_of(kill)
        } else {
            0
        })
        &&& 0 <= self.style <= 20
        &&& self.airborne == airborne_kill(kill, weapon)
        &&& self.jumper == jumper_kill(kill, weapon)
        &&& self.random_crit == random_crit(kill, weapon)
    }
}

pub(crate) fn gather_facts(kill: &Death, weapon: &str) -> (out: KillFacts)
    ensures
        out.of(*kill, weapon@),
{
    let gardener = same_text(weapon, "market_gardener");
    let market = gardener && kill.crit_type > 0 && kill.state.attacker.is_set("blast_jumping");
    let speed = match kill.state.attacker.vector("velocity") {
        Some(v) => v.2,
        None => Double::zero(),
    };
    let grounded = kill.state.attacker.flag("on_ground");
    let in_air = match grounded {
        Some(on_ground) => !on_ground,
        None => false,
    };
    let dropshot = same_text(kill.attacker_class.as_str(), "sniper") && is_scoped_rifle(weapon)
        && kill.state.attacker.is_set("scoped") && in_air && speed.less(Double::integer(-20));
    let bash = kill.custom_kill == 23;
    let with_melee = is_melee(kill);
    let charge = !bash && same_text(kill.attacker_class.as_str(), "demoman") && with_melee
        && kill.state.attacker_recent_shield_charge_tick.is_some();
    let stab = kill.custom_kill == 2;
    let taunt = taunt_kill_name(kill.custom_kill).is_some();
    let airborne_victim = kill.state.victim_airborne_before_projectile_impact;
    let (eligible, near, flown): (bool, bool, bool) = match &kill.state.projectile {
        Some(p) => (p.airshot_eligible, p.is_direct(), p.flight_ms >= 500),
        None => (false, false, false),
    };
    let airshot = airborne_victim && eligible;
    let (height, elevation): (Double, Double) = match kill.state.geometry {
        Some(g) => (g.relative_height, g.elevation),
        None => (Double::zero(), Double::zero()),
    };
    let style: i64 = if airshot {
        airshot_style_bonus(height, elevation)
    } else {
        0
    };
    let airborne = !airshot && airborne_victim && is_projectile_family(weapon);
    KillFacts {
        kritz: kill.state.confirmed_kritzkrieg_boost && kill.crit_type > 0,
        market,
        dropshot,
        bash,
        charge,
        melee: with_melee && !stab && !taunt && !bash && !charge && !market,
        stab,
        taunt,
        medic: same_text(kill.victim_class.as_str(), "medic"),
        demoman: same_text(kill.victim_class.as_str(), "demoman"),
        airshot,
        direct: airshot && near,
        long: airshot && flown,
        height,
        elevation,
        style,
        airborne,
        jumper: !airshot && !airborne && kill.rocket_jump_victim,
        random_crit: kill.crit_type == 2 && !charge && !kill.state.confirmed_kritzkrieg_boost
            && !gardener && !stab,
    }
}

/// A set of tags with one added under a condition.
pub open spec fn tag_if(tags: Set<Seq<char>>, condition: bool, tag: Seq<char>) -> Set<Seq<char>> {
    if condition {
        tags.insert(tag)
    } else {
        tags
    }
}

pub(crate) fn put_if(tags: &mut Vec<String>, condition: bool, tag: &str)
    requires
        ascending(views(old(tags)@)),
    ensures
        ascending(views(final(tags)@)),
        members(final(tags)@) == tag_if(members(old(tags)@), condition, tag@),
{
    if condition {
        insert_text(tags, tag);
    }
}

/// The tags of a kill's weapon added to others.
#[verifier::opaque]
pub open spec fn with_weapon_tags(base: Set<Seq<char>>, kill: Death, weapon: Seq<char>) -> Set<Seq<char>> {
    let s0 = tag_if(base, projectile_weapon(weapon), "projectile_kill"@);
    let s1 = tag_if(s0, pipe_weapon(weapon), "pipe"@);
    let s2 = tag_if(s1, rocket_weapon(weapon), "rocket"@);
    let s3 = tag_if(s2, huntsman_weapon(weapon), "huntsman"@);
    let s4 = tag_if(s3, crossbow_weapon(weapon), "crossbow"@);
    let s5 = match own_tag(weapon) {
        Some(tag) => s4.insert(tag),
        None => s4,
    };
    s5
}

fn add_weapon_tags(tags: &mut Vec<String>, kill: &Death, weapon: &str, facts: &KillFacts)
    requires
        ascending(views(old(tags)@)),
        facts.of(*kill, weapon@),
    ensures
        ascending(views(final(tags)@)),
        members(final(tags)@) == with_weapon_tags(members(old(tags)@), *kill, weapon@),
{
    proof {
        reveal(with_weapon_tags);
    }
    put_if(tags, is_projectile_weapon(weapon), "projectile_kill");
    put_if(tags, is_pipe_weapon(weapon), "pipe");
    put_if(tags, is_rocket_weapon(weapon), "rocket");
    put_if(tags, is_huntsman_weapon(weapon), "huntsman");
    put_if(tags, is_crossbow_weapon(weapon), "crossbow");
    if let Some(tag) = find_own_tag(weapon) {
        insert_text(tags, tag);
    }
}

/// The tags for how a kill was made added to others.
#[verifier::opaque]
pub open spec fn with_skill_tags(base: Set<Seq<char>>, kill: Death, weapon: Seq<char>) -> Set<Seq<char>> {
    let s0 = tag_if(base, kritz_kill(kill), "kritzkrieg_kill"@);
    let s1 = tag_if(s0, market_garden(kill, weapon), "market_garden"@);
    let s2 = tag_if(s1, kill.state.confirmed_double_donk, "double_donk"@);
    let s3 = tag_if(s2, dropshot(kill, weapon), "sniper_dropshot"@);
    let s4 = tag_if(s3, shield_bash(kill) || charge_melee(kill), "demoknight"@);
    let s5 = tag_if(s4, shield_bash(kill), "shield_bash_kill"@);
    let s6 = tag_if(s5, charge_melee(kill), "charge_melee_kill"@);
    let s7 = tag_if(s6, plain_melee(kill, weapon), "melee_kill"@);
    let s8 = tag_if(s7, backstab(kill), "backstab"@);
    let s9 = tag_if(s8, taunt_named(kill.custom_kill as int) is Some, "taunt_kill"@);
    s9
}

fn add_skill_tags(tags: &mut Vec<String>, kill: &Death, weapon: &str, facts: &KillFacts)
    requires
        ascending(views(old(tags)@)),
        facts.of(*kill, weapon@),
    ensures
        ascending(views(final(tags)@)),
        members(final(tags)@) == with_skill_tags(members(old(tags)@), *kill, weapon@),
{
    proof {
        reveal(with_skill_tags);
    }
    put_if(tags, facts.kritz, "kritzkrieg_kill");
    put_if(tags, facts.market, "market_garden");
    put_if(tags, kill.state.confirmed_double_donk, "double_donk");
    put_if(tags, facts.dropshot, "sniper_dropshot");
    put_if(tags, facts.bash || facts.charge, "demoknight");
    put_if(tags, facts.bash, "shield_bash_kill");
    put_if(tags, facts.charge, "charge_melee_kill");
    put_if(tags, facts.melee, "melee_kill");
    put_if(tags, facts.stab, "backstab");
    put_if(tags, facts.taunt, "taunt_kill");
}

/// The tags for whom a kill hit, and how squarely, added to others.
#[verifier::opaque]
pub open spec fn with_victim_tags(base: Set<Seq<char>>, kill: Death, weapon: Seq<char>) -> Set<Seq<char>> {
    let s0 = tag_if(base, kill.victim_class@ == "medic"@, "medic_pick"@);
    let s1 = tag_if(s0, kill.victim_class@ == "medic"@ && kill.state.confirmed_uber_drop, "uber_drop"@);
    let s2 = tag_if(s1, kill.victim_class@ == "demoman"@, "demoman_pick"@);
    let s3 = tag_if(s2, airshot(kill), "confirmed_airshot"@);
    let s4 = tag_if(s3, direct_airshot(kill), "direct_airshot"@);
    let s5 = tag_if(s4, long_airshot(kill), "long_flight_airshot"@);
    s5
}

fn add_victim_tags(tags: &mut Vec<String>, kill: &Death, weapon: &str, facts: &KillFacts)
    requires
        ascending(views(old(tags)@)),
        facts.of(*kill, weapon@),
    ensures
        ascending(views(final(tags)@)),
        members(final(tags)@) == with_victim_tags(members(old(tags)@), *kill, weapon@),
{
    proof {
        reveal(with_victim_tags);
    }
    put_if(tags, facts.medic, "medic_pick");
    put_if(tags, facts.medic && kill.state.confirmed_uber_drop, "uber_drop");
    put_if(tags, facts.demoman, "demoman_pick");
    put_if(tags, facts.airshot, "confirmed_airshot");
    put_if(tags, facts.direct, "direct_airshot");
    put_if(tags, facts.long, "long_flight_airshot");
}

/// The tags for style and circumstance of a kill added to others.
#[verifier::opaque]
pub open spec fn with_airshot_tags(base: Set<Seq<char>>, kill: Death, weapon: Seq<char>) -> Set<Seq<char>> {
    let s0 = tag_if(base, styled_airshot(kill) && height_of(kill) >= natural(128), "high_airshot"@);
    let s1 = tag_if(s0, styled_airshot(kill) && elevation_of(kill) >= natural(35), "skyward_airshot"@);
    let s2 = tag_if(s1, styled_airshot(kill) && height_of(kill) >= natural(256) && elevation_of(kill) >= natural(50), "extreme_airshot"@);
    let s3 = tag_if(s2, airborne_kill(kill, weapon), "airborne_projectile_kill"@);
    let s4 = tag_if(s3, jumper_kill(kill, weapon), "rocket_jump_victim"@);
    let s5 = tag_if(s4, kill.kill_streak_total >= 10, "streak_10_plus"@);
    let s6 = tag_if(s5, random_crit(kill, weapon), "random_full_crit"@);
    s6
}

fn add_airshot_tags(tags: &mut Vec<String>, kill: &Death, weapon: &str, facts: &KillFacts)
    requires
        ascending(views(old(tags)@)),
        facts.of(*kill, weapon@),
    ensures
        ascending(views(final(tags)@)),
        members(final(tags)@) == with_airshot_tags(members(old(tags)@), *kill, weapon@),
{
    proof {
        reveal(with_airshot_tags);
    }
    put_if(tags, facts.style > 0 && reaches(facts.height, 128), "high_airshot");
    put_if(tags, facts.style > 0 && reaches(facts.elevation, 35), "skyward_airshot");
    put_if(tags, facts.style > 0 && reaches(facts.height, 256) && reaches(facts.elevation, 50), "extreme_airshot");
    put_if(tags, facts.airborne, "airborne_projectile_kill");
    put_if(tags, facts.jumper, "rocket_jump_victim");
    put_if(tags, kill.kill_streak_total >= 10, "streak_10_plus");
    put_if(tags, facts.random_crit, "random_full_crit");
}

/// The tags of a kill added to others, given its weapon in lower case.
pub open spec fn with_kill_tags(base: Set<Seq<char>>, kill: Death, weapon: Seq<char>) -> Set<
    Seq<char>,
> {
    let weapon_tags = with_weapon_tags(base, kill, weapon);
    let skill_tags = with_skill_tags(weapon_tags, kill, weapon);
    let victim_tags = with_victim_tags(skill_tags, kill, weapon);
    let airshot_tags = with_airshot_tags(victim_tags, kill, weapon);
    airshot_tags
}

/// Tags of a kill that are added to others are those that it has by itself.
pub proof fn lemma_kill_tags_are_added(base: Set<Seq<char>>, kill: Death, weapon: Seq<char>)
    ensures
        with_kill_tags(base, kill, weapon) == base.union(
            with_kill_tags(Set::empty(), kill, weapon),
        ),
{
    let none = Set::<Seq<char>>::empty();
    let w = with_weapon_tags(none, kill, weapon);
    let s = with_skill_tags(none, kill, weapon);
    let v = with_victim_tags(none, kill, weapon);
    let a = with_airshot_tags(none, kill, weapon);
    lemma_weapon_tags_are_added(base, kill, weapon);
    lemma_skill_tags_are_added(base.union(w), kill, weapon);
    lemma_skill_tags_are_added(w, kill, weapon);
    lemma_victim_tags_are_added(base.union(w).union(s), kill, weapon);
    lemma_victim_tags_are_added(w.union(s), kill, weapon);
    lemma_airshot_tags_are_added(base.union(w).union(s).union(v), kill, weapon);
    lemma_airshot_tags_are_added(w.union(s).union(v), kill, weapon);
    assert(base.union(w).union(s).union(v).union(a) =~= base.union(
        w.union(s).union(v).union(a),
    ));
}

proof fn lemma_weapon_tags_are_added(base: Set<Seq<char>>, kill: Death, weapon: Seq<char>)
    ensures
        with_weapon_tags(base, kill, weapon) == base.union(
            with_weapon_tags(Set::empty(), kill, weapon),
        ),
{
    reveal(with_weapon_tags);
    assert(with_weapon_tags(base, kill, weapon) =~= base.union(
        with_weapon_tags(Set::empty(), kill, weapon),
    ));
}

proof fn lemma_skill_tags_are_added(base: Set<Seq<char>>, kill: Death, weapon: Seq<char>)
    ensures
        with_skill_tags(base, kill, weapon) == base.union(
            with_skill_tags(Set::empty(), kill, weapon),
        ),
{
    reveal(with_skill_tags);
    assert(with_skill_tags(base, kill, weapon) =~= base.union(
        with_skill_tags(Set::empty(), kill, weapon),
    ));
}

proof fn lemma_victim_tags_are_added(base: Set<Seq<char>>, kill: Death, weapon: Seq<char>)
    ensures
        with_victim_tags(base, kill, weapon) == base.union(
            with_victim_tags(Set::empty(), kill, weapon),
        ),
{
    reveal(with_victim_tags);
    assert(with_victim_tags(base, kill, weapon) =~= base.union(
        with_victim_tags(Set::empty(), kill, weapon),
    ));
}

proof fn lemma_airshot_tags_are_added(base: Set<Seq<char>>, kill: Death, weapon: Seq<char>)
    ensures
        with_airshot_tags(base, kill, weapon) == base.union(
            with_airshot_tags(Set::empty(), kill, weapon),
        ),
{
    reveal(with_airshot_tags);
    assert(with_airshot_tags(base, kill, weapon) =~= base.union(
        with_airshot_tags(Set::empty(), kill, weapon),
    ));
}

pub(crate) fn add_kill_tags(tags: &mut Vec<String>, kill: &Death, weapon: &str, facts: &KillFacts)
    requires
        ascending(views(old(tags)@)),
        facts.of(*kill, weapon@),
    ensures
        ascending(views(final(tags)@)),
        members(final(tags)@) == with_kill_tags(members(old(tags)@), *kill, weapon@),
{
    add_weapon_tags(tags, kill, weapon, facts);
    add_skill_tags(tags, kill, weapon, facts);
    add_victim_tags(tags, kill, weapon, facts);
    add_airshot_tags(tags, kill, weapon, facts);
}

/// The tags of a kill, in ascending order.
pub fn kill_tags(kill: &Death) -> (out: Vec<String>)
    ensures
        ascending(views(out@)),
        members(out@) == tags_under(*kill, lower(kill.weapon@)),
{
    let weapon = to_lower(kill.weapon.as_str());
    let facts = gather_facts(kill, weapon.as_str());
    let mut tags: Vec<String> = Vec::new();
    assert(members(tags@) =~= Set::empty());
    add_kill_tags(&mut tags, kill, weapon.as_str(), &facts);
    tags
}

// ---------------------------------------------------------------------------
// What a kill is tagged for
// ---------------------------------------------------------------------------

/// A number that tells texts apart, from their length and some of their letters.
#[verifier::opaque]
pub open spec fn print_of(text: Seq<char>) -> int {
    text.len() + 1000 * (text[0] as int) + 1000000 * (text[3] as int)
}

/// The prints of the tags of kills.
pub proof fn lemma_tags_differ()
    ensures
        print_of("projectile_kill"@) == 106112015,
        print_of("pipe"@) == 101112004,
        print_of("rocket"@) == 107114006,
        print_of("huntsman"@) == 116104008,
        print_of("crossbow"@) == 115099008,
        print_of("market_gardener"@) == 107109015,
        print_of("axtinguisher"@) == 105097012,
        print_of("backburner"@) == 107098010,
        print_of("ambassador"@) == 97097010,
        print_of("kunai"@) == 97107005,
        print_of("eternal_reward"@) == 114101014,
        print_of("tribalman's_shiv"@) == 98116016,
        print_of("kritzkrieg_kill"@) == 116107015,
        print_of("market_garden"@) == 107109013,
        print_of("double_donk"@) == 98100011,
        print_of("sniper_dropshot"@) == 112115015,
        print_of("demoknight"@) == 111100010,
        print_of("shield_bash_kill"@) == 101115016,
        print_of("charge_melee_kill"@) == 114099017,
        print_of("melee_kill"@) == 101109010,
        print_of("backstab"@) == 107098008,
        print_of("taunt_kill"@) == 110116010,
        print_of("medic_pick"@) == 105109010,
        print_of("uber_drop"@) == 114117009,
        print_of("demoman_pick"@) == 111100012,
        print_of("confirmed_airshot"@) == 102099017,
        print_of("direct_airshot"@) == 101100014,
        print_of("long_flight_airshot"@) == 103108019,
        print_of("high_airshot"@) == 104104012,
        print_of("skyward_airshot"@) == 119115015,
        print_of("extreme_airshot"@) == 114101015,
        print_of("airborne_projectile_kill"@) == 98097024,
        print_of("rocket_jump_victim"@) == 107114018,
        print_of("streak_10_plus"@) == 101115014,
        print_of("random_full_crit"@) == 100114016,
{
    reveal(print_of);
    reveal_strlit("projectile_kill");
    reveal_strlit("pipe");
    reveal_strlit("rocket");
    reveal_strlit("huntsman");
    reveal_strlit("crossbow");
    reveal_strlit("market_gardener");
    reveal_strlit("axtinguisher");
    reveal_strlit("backburner");
    reveal_strlit("ambassador");
    reveal_strlit("kunai");
    reveal_strlit("eternal_reward");
    reveal_strlit("tribalman's_shiv");
    reveal_strlit("kritzkrieg_kill");
    reveal_strlit("market_garden");
    reveal_strlit("double_donk");
    reveal_strlit("sniper_dropshot");
    reveal_strlit("demoknight");
    reveal_strlit("shield_bash_kill");
    reveal_strlit("charge_melee_kill");
    reveal_strlit("melee_kill");
    reveal_strlit("backstab");
    reveal_strlit("taunt_kill");
    reveal_strlit("medic_pick");
    reveal_strlit("uber_drop");
    reveal_strlit("demoman_pick");
    reveal_strlit("confirmed_airshot");
    reveal_strlit("direct_airshot");
    reveal_strlit("long_flight_airshot");
    reveal_strlit("high_airshot");
    reveal_strlit("skyward_airshot");
    reveal_strlit("extreme_airshot");
    reveal_strlit("airborne_projectile_kill");
    reveal_strlit("rocket_jump_victim");
    reveal_strlit("streak_10_plus");
    reveal_strlit("random_full_crit");
}

/// The tags of a kill, given its weapon in lower case.
pub open spec fn tags_under(kill: Death, weapon: Seq<char>) -> Set<Seq<char>> {
    with_kill_tags(Set::empty(), kill, weapon)
}

proof fn lemma_not_of_weapon(kill: Death, weapon: Seq<char>, tag: Seq<char>)
    requires
        print_of(tag) != print_of("projectile_kill"@),
        print_of(tag) != print_of("pipe"@),
        print_of(tag) != print_of("rocket"@),
        print_of(tag) != print_of("huntsman"@),
        print_of(tag) != print_of("crossbow"@),
        print_of(tag) != print_of("market_gardener"@),
        print_of(tag) != print_of("axtinguisher"@),
        print_of(tag) != print_of("backburner"@),
        print_of(tag) != print_of("ambassador"@),
        print_of(tag) != print_of("kunai"@),
        print_of(tag) != print_of("eternal_reward"@),
        print_of(tag) != print_of("tribalman's_shiv"@),
    ensures
        !with_weapon_tags(Set::empty(), kill, weapon).contains(tag),
{
    reveal(with_weapon_tags);
}

proof fn lemma_not_of_skill(kill: Death, weapon: Seq<char>, tag: Seq<char>)
    requires
        print_of(tag) != print_of("kritzkrieg_kill"@),
        print_of(tag) != print_of("market_garden"@),
        print_of(tag) != print_of("double_donk"@),
        print_of(tag) != print_of("sniper_dropshot"@),
        print_of(tag) != print_of("demoknight"@),
        print_of(tag) != print_of("shield_bash_kill"@),
        print_of(tag) != print_of("charge_melee_kill"@),
        print_of(tag) != print_of("melee_kill"@),
        print_of(tag) != print_of("backstab"@),
        print_of(tag) != print_of("taunt_kill"@),
    ensures
        !with_skill_tags(Set::empty(), kill, weapon).contains(tag),
{
    reveal(with_skill_tags);
}

proof fn lemma_not_of_victim(kill: Death, weapon: Seq<char>, tag: Seq<char>)
    requires
        print_of(tag) != print_of("medic_pick"@),
        print_of(tag) != print_of("uber_drop"@),
        print_of(tag) != print_of("demoman_pick"@),
        print_of(tag) != print_of("confirmed_airshot"@),
        print_of(tag) != print_of("direct_airshot"@),
        print_of(tag) != print_of("long_flight_airshot"@),
    ensures
        !with_victim_tags(Set::empty(), kill, weapon).contains(tag),
{
    reveal(with_victim_tags);
}

proof fn lemma_not_of_airshot(kill: Death, weapon: Seq<char>, tag: Seq<char>)
    requires
        print_of(tag) != print_of("high_airshot"@),
        print_of(tag) != print_of("skyward_airshot"@),
        print_of(tag) != print_of("extreme_airshot"@),
        print_of(tag) != print_of("airborne_projectile_kill"@),
        print_of(tag) != print_of("rocket_jump_victim"@),
        print_of(tag) != print_of("streak_10_plus"@),
        print_of(tag) != print_of("random_full_crit"@),
    ensures
        !with_airshot_tags(Set::empty(), kill, weapon).contains(tag),
{
    reveal(with_airshot_tags);
}

proof fn lemma_parts(kill: Death, weapon: Seq<char>)
    ensures
        ({
                    let none = Set::<Seq<char>>::empty();
            tags_under(kill, weapon) == with_weapon_tags(none, kill, weapon).union(
                with_skill_tags(none, kill, weapon),
            ).union(with_victim_tags(none, kill, weapon)).union(
                with_airshot_tags(none, kill, weapon),
            )
        }),
{
    let none = Set::<Seq<char>>::empty();
    let w = with_weapon_tags(none, kill, weapon);
    let s = with_skill_tags(none, kill, weapon);
    let v = with_victim_tags(none, kill, weapon);
    lemma_skill_tags_are_added(w, kill, weapon);
    lemma_victim_tags_are_added(w.union(s), kill, weapon);
    lemma_airshot_tags_are_added(w.union(s).union(v), kill, weapon);
}

proof fn lemma_weapon_part(kill: Death, weapon: Seq<char>, tag: Seq<char>)
    requires
        print_of(tag) != 116107015,
        print_of(tag) != 107109013,
        print_of(tag) != 98100011,
        print_of(tag) != 112115015,
        print_of(tag) != 111100010,
        print_of(tag) != 101115016,
        print_of(tag) != 114099017,
        print_of(tag) != 101109010,
        print_of(tag) != 107098008,
        print_of(tag) != 110116010,
        print_of(tag) != 105109010,
        print_of(tag) != 114117009,
        print_of(tag) != 111100012,
        print_of(tag) != 102099017,
        print_of(tag) != 101100014,
        print_of(tag) != 103108019,
        print_of(tag) != 104104012,
        print_of(tag) != 119115015,
        print_of(tag) != 114101015,
        print_of(tag) != 98097024,
        print_of(tag) != 107114018,
        print_of(tag) != 101115014,
        print_of(tag) != 100114016,
    ensures
        tags_under(kill, weapon).contains(tag) <==> with_weapon_tags(
            Set::empty(),
            kill,
            weapon,
        ).contains(tag),
{
    lemma_tags_differ();
    lemma_parts(kill, weapon);
    lemma_not_of_skill(kill, weapon, tag);
    lemma_not_of_victim(kill, weapon, tag);
    lemma_not_of_airshot(kill, weapon, tag);
}

proof fn lemma_skill_part(kill: Death, weapon: Seq<char>, tag: Seq<char>)
    requires
        print_of(tag) != 106112015,
        print_of(tag) != 101112004,
        print_of(tag) != 107114006,
        print_of(tag) != 116104008,
        print_of(tag) != 115099008,
        print_of(tag) != 107109015,
        print_of(tag) != 105097012,
        print_of(tag) != 107098010,
        print_of(tag) != 97097010,
        print_of(tag) != 97107005,
        print_of(tag) != 114101014,
        print_of(tag) != 98116016,
        print_of(tag) != 105109010,
        print_of(tag) != 114117009,
        print_of(tag) != 111100012,
        print_of(tag) != 102099017,
        print_of(tag) != 101100014,
        print_of(tag) != 103108019,
        print_of(tag) != 104104012,
        print_of(tag) != 119115015,
        print_of(tag) != 114101015,
        print_of(tag) != 98097024,
        print_of(tag) != 107114018,
        print_of(tag) != 101115014,
        print_of(tag) != 100114016,
    ensures
        tags_under(kill, weapon).contains(tag) <==> with_skill_tags(
            Set::empty(),
            kill,
            weapon,
        ).contains(tag),
{
    lemma_tags_differ();
    lemma_parts(kill, weapon);
    lemma_not_of_weapon(kill, weapon, tag);
    lemma_not_of_victim(kill, weapon, tag);
    lemma_not_of_airshot(kill, weapon, tag);
}

proof fn lemma_victim_part(kill: Death, weapon: Seq<char>, tag: Seq<char>)
    requires
        print_of(tag) != 106112015,
        print_of(tag) != 101112004,
        print_of(tag) != 107114006,
        print_of(tag) != 116104008,
        print_of(tag) != 115099008,
        print_of(tag) != 107109015,
        print_of(tag) != 105097012,
        print_of(tag) != 107098010,
        print_of(tag) != 97097010,
        print_of(tag) != 97107005,
        print_of(tag) != 114101014,
        print_of(tag) != 98116016,
        print_of(tag) != 116107015,
        print_of(tag) != 107109013,
        print_of(tag) != 98100011,
        print_of(tag) != 112115015,
        print_of(tag) != 111100010,
        print_of(tag) != 101115016,
        print_of(tag) != 114099017,
        print_of(tag) != 101109010,
        print_of(tag) != 107098008,
        print_of(tag) != 110116010,
        print_of(tag) != 104104012,
        print_of(tag) != 119115015,
        print_of(tag) != 114101015,
        print_of(tag) != 98097024,
        print_of(tag) != 107114018,
        print_of(tag) != 101115014,
        print_of(tag) != 100114016,
    ensures
        tags_under(kill, weapon).contains(tag) <==> with_victim_tags(
            Set::empty(),
            kill,
            weapon,
        ).contains(tag),
{
    lemma_tags_differ();
    lemma_parts(kill, weapon);
    lemma_not_of_weapon(kill, weapon, tag);
    lemma_not_of_skill(kill, weapon, tag);
    lemma_not_of_airshot(kill, weapon, tag);
}

proof fn lemma_airshot_part(kill: Death, weapon: Seq<char>, tag: Seq<char>)
    requires
        print_of(tag) != 106112015,
        print_of(tag) != 101112004,
        print_of(tag) != 107114006,
        print_of(tag) != 116104008,
        print_of(tag) != 115099008,
        print_of(tag) != 107109015,
        print_of(tag) != 105097012,
        print_of(tag) != 107098010,
        print_of(tag) != 97097010,
        print_of(tag) != 97107005,
        print_of(tag) != 114101014,
        print_of(tag) != 98116016,
        print_of(tag) != 116107015,
        print_of(tag) != 107109013,
        print_of(tag) != 98100011,
        print_of(tag) != 112115015,
        print_of(tag) != 111100010,
        print_of(tag) != 101115016,
        print_of(tag) != 114099017,
        print_of(tag) != 101109010,
        print_of(tag) != 107098008,
        print_of(tag) != 110116010,
        print_of(tag) != 105109010,
        print_of(tag) != 114117009,
        print_of(tag) != 111100012,
        print_of(tag) != 102099017,
        print_of(tag) != 101100014,
        print_of(tag) != 103108019,
    ensures
        tags_under(kill, weapon).contains(tag) <==> with_airshot_tags(
            Set::empty(),
            kill,
            weapon,
        ).contains(tag),
{
    lemma_tags_differ();
    lemma_parts(kill, weapon);
    lemma_not_of_weapon(kill, weapon, tag);
    lemma_not_of_skill(kill, weapon, tag);
    lemma_not_of_victim(kill, weapon, tag);
}

/// A text with another print than every tag of kills is none of a kill's tags.
pub proof fn lemma_no_kill_tag(kill: Death, weapon: Seq<char>, tag: Seq<char>)
    requires
        print_of(tag) != 106112015,
        print_of(tag) != 101112004,
        print_of(tag) != 107114006,
        print_of(tag) != 116104008,
        print_of(tag) != 115099008,
        print_of(tag) != 107109015,
        print_of(tag) != 105097012,
        print_of(tag) != 107098010,
        print_of(tag) != 97097010,
        print_of(tag) != 97107005,
        print_of(tag) != 114101014,
        print_of(tag) != 98116016,
        print_of(tag) != 116107015,
        print_of(tag) != 107109013,
        print_of(tag) != 98100011,
        print_of(tag) != 112115015,
        print_of(tag) != 111100010,
        print_of(tag) != 101115016,
        print_of(tag) != 114099017,
        print_of(tag) != 101109010,
        print_of(tag) != 107098008,
        print_of(tag) != 110116010,
        print_of(tag) != 105109010,
        print_of(tag) != 114117009,
        print_of(tag) != 111100012,
        print_of(tag) != 102099017,
        print_of(tag) != 101100014,
        print_of(tag) != 103108019,
        print_of(tag) != 104104012,
        print_of(tag) != 119115015,
        print_of(tag) != 114101015,
        print_of(tag) != 98097024,
        print_of(tag) != 107114018,
        print_of(tag) != 101115014,
        print_of(tag) != 100114016,
    ensures
        !tags_under(kill, weapon).contains(tag),
{
    lemma_tags_differ();
    lemma_parts(kill, weapon);
    lemma_not_of_weapon(kill, weapon, tag);
    lemma_not_of_skill(kill, weapon, tag);
    lemma_not_of_victim(kill, weapon, tag);
    lemma_not_of_airshot(kill, weapon, tag);
}

/// A kill is tagged by the number that the game gives it: 2 is a stab in the back, which
/// is neither a melee kill nor a lucky one, 23 is a blow with a shield, and thirteen
/// numbers are taunts.
pub proof fn law_custom_kills_are_tagged(kill: Death, weapon: Seq<char>)
    ensures
        tags_under(kill, weapon).contains("backstab"@) <==> kill.custom_kill == 2,
        kill.custom_kill == 2 ==> !tags_under(kill, weapon).contains("melee_kill"@)
            && !tags_under(kill, weapon).contains("random_full_crit"@),
        tags_under(kill, weapon).contains("shield_bash_kill"@) <==> kill.custom_kill == 23,
        kill.custom_kill == 23 ==> tags_under(kill, weapon).contains("demoknight"@)
            && !tags_under(kill, weapon).contains("melee_kill"@) && !tags_under(kill, weapon).contains(
            "charge_melee_kill"@,
        ),
        tags_under(kill, weapon).contains("taunt_kill"@) <==> (kill.custom_kill == 7 || kill.custom_kill
            == 9 || kill.custom_kill == 10 || kill.custom_kill == 13 || kill.custom_kill == 15
            || kill.custom_kill == 21 || kill.custom_kill == 24 || kill.custom_kill == 29
            || kill.custom_kill == 33 || kill.custom_kill == 38 || kill.custom_kill == 52
            || kill.custom_kill == 60 || kill.custom_kill == 80),
        tags_under(kill, weapon).contains("taunt_kill"@) ==> !tags_under(kill, weapon).contains(
            "melee_kill"@,
        ),
{
    lemma_tags_differ();
    lemma_skill_part(kill, weapon, "backstab"@);
    lemma_skill_part(kill, weapon, "melee_kill"@);
    lemma_airshot_part(kill, weapon, "random_full_crit"@);
    lemma_skill_part(kill, weapon, "shield_bash_kill"@);
    lemma_skill_part(kill, weapon, "demoknight"@);
    lemma_skill_part(kill, weapon, "charge_melee_kill"@);
    lemma_skill_part(kill, weapon, "taunt_kill"@);
    reveal(with_skill_tags);
    reveal(with_airshot_tags);
}

/// A kill with a melee weapon has one tag for how it was made: a blow in a shield charge
/// is a Demoman's, and any other is a plain one unless the game or a jump makes it more.
pub proof fn law_melee_kills_are_tagged(kill: Death, weapon: Seq<char>)
    ensures
        tags_under(kill, weapon).contains("charge_melee_kill"@) <==> kill.custom_kill != 23
            && kill.attacker_class@ == "demoman"@ && melee(kill)
            && kill.state.attacker_recent_shield_charge_tick is Some,
        tags_under(kill, weapon).contains("demoknight"@) <==> tags_under(kill, weapon).contains(
            "charge_melee_kill"@,
        ) || tags_under(kill, weapon).contains("shield_bash_kill"@),
        tags_under(kill, weapon).contains("market_garden"@) <==> weapon
            == "market_gardener"@ && kill.crit_type > 0 && bool_of(
            lookup(kill.state.attacker.model(), "blast_jumping"@),
        ) == Some(true),
        melee(kill) <==> tags_under(kill, weapon).contains("melee_kill"@) || melee(kill) && (
        tags_under(kill, weapon).contains("backstab"@) || tags_under(kill, weapon).contains("taunt_kill"@)
            || tags_under(kill, weapon).contains("demoknight"@) || tags_under(kill, weapon).contains(
            "market_garden"@,
        )),
        tags_under(kill, weapon).contains("melee_kill"@) ==> !tags_under(kill, weapon).contains("backstab"@)
            && !tags_under(kill, weapon).contains("taunt_kill"@) && !tags_under(kill, weapon).contains(
            "demoknight"@,
        ) && !tags_under(kill, weapon).contains("market_garden"@),
{
    lemma_tags_differ();
    lemma_skill_part(kill, weapon, "charge_melee_kill"@);
    lemma_skill_part(kill, weapon, "demoknight"@);
    lemma_skill_part(kill, weapon, "shield_bash_kill"@);
    lemma_skill_part(kill, weapon, "market_garden"@);
    lemma_skill_part(kill, weapon, "melee_kill"@);
    lemma_skill_part(kill, weapon, "backstab"@);
    lemma_skill_part(kill, weapon, "taunt_kill"@);
    reveal(with_skill_tags);
}

/// A kill with a known slot is a melee kill where the slot says so, whatever its weapon
/// is called.
pub proof fn law_slot_tells_melee(kill: Death)
    requires
        kill.weapon_slot@.len() > 0,
    ensures
        melee(kill) <==> same_fold(kill.weapon_slot@, "melee"@),
{
}

/// A full critical hit is luck unless a boost, a shield charge, a stab in the back or the
/// Market Gardener explains it; a boost counts where the hit was critical at all.
pub proof fn law_critical_kills_are_tagged(kill: Death, weapon: Seq<char>)
    ensures
        tags_under(kill, weapon).contains("random_full_crit"@) <==> kill.crit_type == 2
            && kill.custom_kill != 2 && !kill.state.confirmed_kritzkrieg_boost && weapon != "market_gardener"@ && !tags_under(kill, weapon).contains("charge_melee_kill"@),
        tags_under(kill, weapon).contains("kritzkrieg_kill"@) <==> kill.state.confirmed_kritzkrieg_boost
            && kill.crit_type > 0,
        !(tags_under(kill, weapon).contains("kritzkrieg_kill"@) && tags_under(kill, weapon).contains(
            "random_full_crit"@,
        )),
        tags_under(kill, weapon).contains("double_donk"@) <==> kill.state.confirmed_double_donk,
        tags_under(kill, weapon).contains("streak_10_plus"@) <==> kill.kill_streak_total >= 10,
{
    lemma_tags_differ();
    lemma_airshot_part(kill, weapon, "random_full_crit"@);
    lemma_skill_part(kill, weapon, "charge_melee_kill"@);
    lemma_skill_part(kill, weapon, "kritzkrieg_kill"@);
    lemma_skill_part(kill, weapon, "double_donk"@);
    lemma_airshot_part(kill, weapon, "streak_10_plus"@);
    reveal(with_airshot_tags);
    reveal(with_skill_tags);
}

/// A kill is tagged for whom it hit: a Medic, one who lost a charge with it, a Demoman.
pub proof fn law_victims_are_tagged(kill: Death, weapon: Seq<char>)
    ensures
        tags_under(kill, weapon).contains("medic_pick"@) <==> kill.victim_class@ == "medic"@,
        tags_under(kill, weapon).contains("uber_drop"@) <==> kill.victim_class@ == "medic"@
            && kill.state.confirmed_uber_drop,
        tags_under(kill, weapon).contains("demoman_pick"@) <==> kill.victim_class@ == "demoman"@,
{
    lemma_tags_differ();
    lemma_victim_part(kill, weapon, "medic_pick"@);
    lemma_victim_part(kill, weapon, "uber_drop"@);
    lemma_victim_part(kill, weapon, "demoman_pick"@);
    reveal(with_victim_tags);
}

/// An airshot is a kill of a player in the air with a projectile that can make one. It is
/// direct where the projectile came within 64 units, long after half a second, high from
/// 128 units over the attacker and skyward from 35 degrees up.
pub proof fn law_airshots_are_tagged(kill: Death, weapon: Seq<char>)
    ensures
        tags_under(kill, weapon).contains("confirmed_airshot"@)
            <==> kill.state.victim_airborne_before_projectile_impact && (
        kill.state.projectile matches Some(projectile) && projectile.airshot_eligible),
        tags_under(kill, weapon).contains("direct_airshot"@) <==> tags_under(kill, weapon).contains(
            "confirmed_airshot"@,
        ) && kill.state.projectile->0.distance.value() <= natural(64),
        tags_under(kill, weapon).contains("long_flight_airshot"@) <==> tags_under(kill, weapon).contains(
            "confirmed_airshot"@,
        ) && kill.state.projectile->0.flight_ms >= 500,
        tags_under(kill, weapon).contains("high_airshot"@) <==> tags_under(kill, weapon).contains(
            "confirmed_airshot"@,
        ) && (kill.state.geometry matches Some(g) && g.relative_height.value() >= natural(128)
            && g.elevation.value() > 0),
        tags_under(kill, weapon).contains("skyward_airshot"@) <==> tags_under(kill, weapon).contains(
            "confirmed_airshot"@,
        ) && (kill.state.geometry matches Some(g) && g.relative_height.value() > 0
            && g.elevation.value() >= natural(35)),
        tags_under(kill, weapon).contains("extreme_airshot"@) <==> tags_under(kill, weapon).contains(
            "confirmed_airshot"@,
        ) && (kill.state.geometry matches Some(g) && g.relative_height.value() >= natural(256)
            && g.elevation.value() >= natural(50)),
{
    lemma_tags_differ();
    lemma_styles();
    lemma_victim_part(kill, weapon, "confirmed_airshot"@);
    lemma_victim_part(kill, weapon, "direct_airshot"@);
    lemma_victim_part(kill, weapon, "long_flight_airshot"@);
    lemma_airshot_part(kill, weapon, "high_airshot"@);
    lemma_airshot_part(kill, weapon, "skyward_airshot"@);
    lemma_airshot_part(kill, weapon, "extreme_airshot"@);
    reveal(with_victim_tags);
    reveal(with_airshot_tags);
}

proof fn lemma_styles()
    ensures
        0 < natural(10) <= natural(20) <= natural(35) <= natural(50),
        0 < natural(64) <= natural(128) <= natural(192) <= natural(256),
{
    lemma_natural_positive(10);
    lemma_natural_positive(64);
    lemma_natural_rises(10, 20);
    lemma_natural_rises(20, 35);
    lemma_natural_rises(35, 50);
    lemma_natural_rises(64, 128);
    lemma_natural_rises(128, 192);
    lemma_natural_rises(192, 256);
}

/// Of what is told of a victim in the air, one thing is said: a confirmed airshot, else a
/// kill with a weapon that fires projectiles, else a rocket jump.
pub proof fn law_victims_in_the_air_are_tagged_once(kill: Death, weapon: Seq<char>)
    ensures
        tags_under(kill, weapon).contains("airborne_projectile_kill"@) <==> !tags_under(kill, weapon).contains(
            "confirmed_airshot"@,
        ) && kill.state.victim_airborne_before_projectile_impact && projectile_family(
            weapon,
        ),
        tags_under(kill, weapon).contains("rocket_jump_victim"@) <==> !tags_under(kill, weapon).contains(
            "confirmed_airshot"@,
        ) && !tags_under(kill, weapon).contains("airborne_projectile_kill"@) && kill.rocket_jump_victim,
        tags_under(kill, weapon).contains("sniper_dropshot"@) <==> kill.attacker_class@ == "sniper"@
            && scoped_rifle(weapon) && bool_of(
            lookup(kill.state.attacker.model(), "scoped"@),
        ) == Some(true) && bool_of(lookup(kill.state.attacker.model(), "on_ground"@)) == Some(false)
            && (vector_of(lookup(kill.state.attacker.model(), "velocity"@)) matches Some(v) && v.2
            < integer(-20)),
{
    lemma_tags_differ();
    lemma_down();
    lemma_airshot_part(kill, weapon, "airborne_projectile_kill"@);
    lemma_victim_part(kill, weapon, "confirmed_airshot"@);
    lemma_airshot_part(kill, weapon, "rocket_jump_victim"@);
    lemma_skill_part(kill, weapon, "sniper_dropshot"@);
    reveal(with_airshot_tags);
    reveal(with_victim_tags);
    reveal(with_skill_tags);
}

proof fn lemma_down()
    ensures
        integer(-20) <= 0,
{
    lemma_one_positive();
    assert(-20 * one() < 0) by (nonlinear_arith)
        requires
            one() > 0,
    ;
}

/// A kill is tagged for what its weapon fires: a rocket, a pipe, an arrow or a bolt. A
/// kill with a rocket or a pipe is one with a projectile.
pub proof fn law_fired_weapons_are_tagged(kill: Death, weapon: Seq<char>)
    ensures
        ({
                    let tags = tags_under(kill, weapon);
            &&& tags.contains("rocket"@) <==> weapon == "rocketlauncher"@ || weapon
                == "directhit"@ || weapon == "blackbox"@ || weapon == "liberty_launcher"@ || weapon
                == "airstrike"@
            &&& tags.contains("pipe"@) <==> weapon == "grenadelauncher"@ || weapon
                == "loch_n_load"@ || weapon == "iron_bomber"@
            &&& tags.contains("huntsman"@) <==> weapon == "compound_bow"@ || weapon == "huntsman"@
            &&& tags.contains("crossbow"@) <==> weapon == "crusaders_crossbow"@ || weapon
                == "crossbow"@
            &&& tags.contains("rocket"@) || tags.contains("pipe"@) ==> tags.contains(
                "projectile_kill"@,
            )
        }),
{
    lemma_tags_differ();
    lemma_weapon_part(kill, weapon, "rocket"@);
    lemma_weapon_part(kill, weapon, "pipe"@);
    lemma_weapon_part(kill, weapon, "huntsman"@);
    lemma_weapon_part(kill, weapon, "crossbow"@);
    lemma_weapon_part(kill, weapon, "projectile_kill"@);
    reveal(with_weapon_tags);
}

/// A kill with a weapon of note is tagged with its name.
pub proof fn law_weapons_of_note_are_tagged(kill: Death, weapon: Seq<char>)
    ensures
        ({
                    let tags = tags_under(kill, weapon);
            &&& tags.contains("kunai"@) <==> weapon == "kunai"@
            &&& tags.contains("ambassador"@) <==> weapon == "ambassador"@
            &&& tags.contains("backburner"@) <==> weapon == "backburner"@
            &&& tags.contains("axtinguisher"@) <==> weapon == "axtinguisher"@
            &&& tags.contains("eternal_reward"@) <==> weapon == "eternal_reward"@
            &&& tags.contains("market_gardener"@) <==> weapon == "market_gardener"@
        }),
{
    lemma_tags_differ();
    lemma_weapon_part(kill, weapon, "kunai"@);
    lemma_weapon_part(kill, weapon, "ambassador"@);
    lemma_weapon_part(kill, weapon, "backburner"@);
    lemma_weapon_part(kill, weapon, "axtinguisher"@);
    lemma_weapon_part(kill, weapon, "eternal_reward"@);
    lemma_weapon_part(kill, weapon, "market_gardener"@);
    reveal(with_weapon_tags);
}

// ---------------------------------------------------------------------------
// Points
// ---------------------------------------------------------------------------

/// One line of the evidence for a score. Points are in hundredths.
#[derive(Debug)]
pub struct ScoreLine<T> {
    pub reason: T,
    pub points: i64,
    pub event_tick: Option<i64>,
    pub count: Option<u64>,
    /// The kill of the sequence that the line is about.
    pub kill: Option<usize>,
    pub detail: LineDetail<T>,
}

/// What a line rests on, besides its kill.
#[derive(Debug)]
pub enum LineDetail<T> {
    Nothing,
    /// The weapon of the kill, with the number of its definition.
    Weapon { name: T, definition: i64 },
    /// The taunt that the kill was made with.
    Taunt { name: T },
    /// The charge that the record of the kill's victim holds.
    VictimCharge,
    /// The projectile that the state of the kill holds.
    Projectile,
    /// How far from the victim the projectile was.
    Distance { units: Double },
    /// How long the projectile flew.
    Flight { ms: u64 },
    /// How the victim stood to the attacker.
    Stance { geometry: AirshotGeometry },
    /// How many enemies were alive before the sequence.
    EnemiesAlive { count: usize },
    /// The charges that the sequence forced.
    ForcedCharges,
    /// The time in which the team had the better numbers; the friends who were
    /// back in it are told with the sequence.
    Window {
        friendly_alive_before: usize,
        enemy_alive_before: usize,
        enemy_alive_after: usize,
        window_ticks: i64,
        earliest_enemy_respawn_tick: i64,
    },
    /// What the team had lost before the first kill, whose state holds when.
    Losses {
        recent_friendly_deaths: usize,
        player_disadvantage_before: usize,
        friendly_medic_charge: Option<Double>,
        enemy_medic_charge: Option<Double>,
    },
    /// The objective that followed, by position.
    Objective { at: usize },
    /// The push of the payload that followed, by position, and who made it.
    Push { at: usize, pusher: i64 },
}

impl LineDetail<String> {
    /// The detail with what its text holds.
    pub open spec fn model(&self) -> LineDetail<Seq<char>> {
        match *self {
            LineDetail::Nothing => LineDetail::Nothing,
            LineDetail::Weapon { name, definition } => LineDetail::Weapon { name: name@, definition },
            LineDetail::Taunt { name } => LineDetail::Taunt { name: name@ },
            LineDetail::VictimCharge => LineDetail::VictimCharge,
            LineDetail::Projectile => LineDetail::Projectile,
            LineDetail::Distance { units } => LineDetail::Distance { units },
            LineDetail::Flight { ms } => LineDetail::Flight { ms },
            LineDetail::Stance { geometry } => LineDetail::Stance { geometry },
            LineDetail::EnemiesAlive { count } => LineDetail::EnemiesAlive { count },
            LineDetail::ForcedCharges => LineDetail::ForcedCharges,
            LineDetail::Window {
                friendly_alive_before,
                enemy_alive_before,
                enemy_alive_after,
                window_ticks,
                earliest_enemy_respawn_tick,
            } => LineDetail::Window {
                friendly_alive_before,
                enemy_alive_before,
                enemy_alive_after,
                window_ticks,
                earliest_enemy_respawn_tick,
            },
            LineDetail::Losses {
                recent_friendly_deaths,
                player_disadvantage_before,
                friendly_medic_charge,
                enemy_medic_charge,
            } => LineDetail::Losses {
                recent_friendly_deaths,
                player_disadvantage_before,
                friendly_medic_charge,
                enemy_medic_charge,
            },
            LineDetail::Objective { at } => LineDetail::Objective { at },
            LineDetail::Push { at, pusher } => LineDetail::Push { at, pusher },
        }
    }
}

/// The weapon of a kill.
pub open spec fn weapon_detail(kill: Death) -> LineDetail<Seq<char>> {
    LineDetail::Weapon { name: kill.weapon@, definition: kill.weapon_def_index }
}

fn weapon_told(kill: &Death) -> (out: LineDetail<String>)
    ensures
        out.model() == weapon_detail(*kill),
{
    LineDetail::Weapon { name: kill.weapon.clone(), definition: kill.weapon_def_index }
}

/// The taunt of a kill, if it was made with one.
pub open spec fn taunt_detail(kill: Death) -> LineDetail<Seq<char>> {
    match taunt_named(kill.custom_kill as int) {
        Some(name) => LineDetail::Taunt { name },
        None => LineDetail::Nothing,
    }
}

fn taunt_told(kill: &Death) -> (out: LineDetail<String>)
    ensures
        out.model() == taunt_detail(*kill),
{
    match taunt_kill_name(kill.custom_kill) {
        Some(name) => LineDetail::Taunt { name: name.to_owned() },
        None => LineDetail::Nothing,
    }
}

/// How far from the victim the projectile of a kill was, if it has one.
pub open spec fn distance_detail(kill: Death) -> LineDetail<Seq<char>> {
    match kill.state.projectile {
        Some(projectile) => LineDetail::Distance { units: projectile.distance },
        None => LineDetail::Nothing,
    }
}

fn distance_told(kill: &Death) -> (out: LineDetail<String>)
    ensures
        out.model() == distance_detail(*kill),
{
    match &kill.state.projectile {
        Some(projectile) => LineDetail::Distance { units: projectile.distance },
        None => LineDetail::Nothing,
    }
}

/// How long the projectile of a kill flew, if it has one.
pub open spec fn flight_detail(kill: Death) -> LineDetail<Seq<char>> {
    match kill.state.projectile {
        Some(projectile) => LineDetail::Flight { ms: projectile.flight_ms },
        None => LineDetail::Nothing,
    }
}

fn flight_told(kill: &Death) -> (out: LineDetail<String>)
    ensures
        out.model() == flight_detail(*kill),
{
    match &kill.state.projectile {
        Some(projectile) => LineDetail::Flight { ms: projectile.flight_ms },
        None => LineDetail::Nothing,
    }
}

/// How the victim of a kill stood to the attacker, where that is known.
pub open spec fn stance_detail(kill: Death) -> LineDetail<Seq<char>> {
    match kill.state.geometry {
        Some(geometry) => LineDetail::Stance { geometry },
        None => LineDetail::Nothing,
    }
}

fn stance_told(kill: &Death) -> (out: LineDetail<String>)
    ensures
        out.model() == stance_detail(*kill),
{
    match kill.state.geometry {
        Some(geometry) => LineDetail::Stance { geometry },
        None => LineDetail::Nothing,
    }
}

impl ScoreLine<String> {
    /// The line with what its text holds.
    pub open spec fn model(&self) -> ScoreLine<Seq<char>> {
        ScoreLine {
            reason: self.reason@,
            points: self.points,
            event_tick: self.event_tick,
            count: self.count,
            kill: self.kill,
            detail: self.detail.model(),
        }
    }
}

/// What lines hold.
pub open spec fn line_models(lines: Seq<ScoreLine<String>>) -> Seq<ScoreLine<Seq<char>>> {
    Seq::new(lines.len(), |i: int| lines[i].model())
}

/// The line for a kill.
pub open spec fn kill_line(reason: Seq<char>, points: i64, kill: Death, index: int) -> ScoreLine<
    Seq<char>,
> {
    told_line(reason, points, kill, index, LineDetail::Nothing)
}

/// The line for a kill, with what it rests on.
pub open spec fn told_line(
    reason: Seq<char>,
    points: i64,
    kill: Death,
    index: int,
    detail: LineDetail<Seq<char>>,
) -> ScoreLine<Seq<char>> {
    ScoreLine {
        reason,
        points,
        event_tick: Some(kill.event_tick),
        count: None,
        kill: Some(index as usize),
        detail,
    }
}

/// Lines with one added under a condition.
pub open spec fn line_if(
    lines: Seq<ScoreLine<Seq<char>>>,
    condition: bool,
    line: ScoreLine<Seq<char>>,
) -> Seq<ScoreLine<Seq<char>>> {
    if condition {
        lines.push(line)
    } else {
        lines
    }
}

/// The points of lines together.
pub open spec fn total(lines: Seq<ScoreLine<Seq<char>>>) -> int
    decreases lines.len(),
{
    if lines.len() == 0 {
        0
    } else {
        total(lines.drop_last()) + lines.last().points
    }
}

/// The lines for how a kill was made added to others.
#[verifier::opaque]
pub open spec fn with_skill_lines(
    base: Seq<ScoreLine<Seq<char>>>,
    kill: Death,
    weapon: Seq<char>,
    index: int,
) -> Seq<ScoreLine<Seq<char>>> {
    let l0 = line_if(base, kritz_kill(kill), kill_line("confirmed_kritzkrieg_boosted_kill"@, 800i64, kill, index));
    let l1 = line_if(l0, market_garden(kill, weapon), kill_line("confirmed_market_garden"@, 2000i64, kill, index));
    let l2 = line_if(l1, kill.state.confirmed_double_donk, kill_line("confirmed_loose_cannon_double_donk"@, 1800i64, kill, index));
    let l3 = line_if(l2, dropshot(kill, weapon), kill_line("confirmed_sniper_dropshot"@, 1800i64, kill, index));
    let l4 = line_if(l3, shield_bash(kill), kill_line("confirmed_shield_bash_kill"@, 2200i64, kill, index));
    let l5 = line_if(l4, charge_melee(kill), told_line("shield_charge_followed_by_melee_kill"@, 1600i64, kill, index, weapon_detail(kill)));
    l5
}

fn add_skill_lines(lines: &mut ScoreSheet, kill: &Death, weapon: &str, facts: &KillFacts, index: usize)
    requires
        old(lines).wf(0),
        old(lines).lines.len() <= 0x1_ffff_ffff_ff80,
        facts.of(*kill, weapon@),
    ensures
        final(lines).wf(0),
        final(lines).model() == with_skill_lines(old(lines).model(), *kill, weapon@, index as int),
        final(lines).lines.len() <= old(lines).lines.len() + 6,
{
    proof {
        reveal(with_skill_lines);
    }
    put_line(lines, facts.kritz, "confirmed_kritzkrieg_boosted_kill", 800, kill, index);
    put_line(lines, facts.market, "confirmed_market_garden", 2000, kill, index);
    put_line(lines, kill.state.confirmed_double_donk, "confirmed_loose_cannon_double_donk", 1800, kill, index);
    put_line(lines, facts.dropshot, "confirmed_sniper_dropshot", 1800, kill, index);
    put_line(lines, facts.bash, "confirmed_shield_bash_kill", 2200, kill, index);
    put_told(lines, facts.charge, "shield_charge_followed_by_melee_kill", 1600, kill, index, weapon_told(kill));
}

/// The lines for whom a kill hit added to others.
#[verifier::opaque]
pub open spec fn with_target_lines(
    base: Seq<ScoreLine<Seq<char>>>,
    kill: Death,
    weapon: Seq<char>,
    index: int,
) -> Seq<ScoreLine<Seq<char>>> {
    let l0 = line_if(base, plain_melee(kill, weapon), told_line("player_melee_kill"@, 1500i64, kill, index, weapon_detail(kill)));
    let l1 = line_if(l0, backstab(kill), kill_line("confirmed_spy_backstab"@, 2000i64, kill, index));
    let l2 = line_if(l1, taunt_named(kill.custom_kill as int) is Some, told_line("confirmed_taunt_kill"@, 2500i64, kill, index, taunt_detail(kill)));
    let l3 = line_if(l2, kill.victim_class@ == "medic"@, kill_line("medic_pick"@, 1800i64, kill, index));
    let l4 = line_if(l3, kill.victim_class@ == "medic"@ && kill.state.confirmed_uber_drop, told_line("confirmed_uber_drop"@, 2000i64, kill, index, LineDetail::VictimCharge));
    let l5 = line_if(l4, kill.victim_class@ == "demoman"@, kill_line("demoman_pick"@, 1000i64, kill, index));
    l5
}

fn add_target_lines(lines: &mut ScoreSheet, kill: &Death, weapon: &str, facts: &KillFacts, index: usize)
    requires
        old(lines).wf(0),
        old(lines).lines.len() <= 0x1_ffff_ffff_ff80,
        facts.of(*kill, weapon@),
    ensures
        final(lines).wf(0),
        final(lines).model() == with_target_lines(old(lines).model(), *kill, weapon@, index as int),
        final(lines).lines.len() <= old(lines).lines.len() + 6,
{
    proof {
        reveal(with_target_lines);
    }
    put_told(lines, facts.melee, "player_melee_kill", 1500, kill, index, weapon_told(kill));
    put_line(lines, facts.stab, "confirmed_spy_backstab", 2000, kill, index);
    put_told(lines, facts.taunt, "confirmed_taunt_kill", 2500, kill, index, taunt_told(kill));
    put_line(lines, facts.medic, "medic_pick", 1800, kill, index);
    put_told(lines, facts.medic && kill.state.confirmed_uber_drop, "confirmed_uber_drop", 2000, kill, index, LineDetail::VictimCharge);
    put_line(lines, facts.demoman, "demoman_pick", 1000, kill, index);
}

/// The lines for an airshot added to others.
#[verifier::opaque]
pub open spec fn with_airshot_lines(
    base: Seq<ScoreLine<Seq<char>>>,
    kill: Death,
    weapon: Seq<char>,
    index: int,
) -> Seq<ScoreLine<Seq<char>>> {
    let l0 = line_if(base, airshot(kill), told_line("state_confirmed_airshot"@, 2000i64, kill, index, LineDetail::Projectile));
    let l1 = line_if(l0, direct_airshot(kill), told_line("direct_airshot_proximity"@, 600i64, kill, index, distance_detail(kill)));
    let l2 = line_if(l1, long_airshot(kill), told_line("long_flight_airshot"@, 500i64, kill, index, flight_detail(kill)));
    let l3 = line_if(l2, styled_airshot(kill), told_line("relative_height_airshot_style"@, (100 * style_of(kill)) as i64, kill, index, stance_detail(kill)));
    l3
}

fn add_airshot_lines(lines: &mut ScoreSheet, kill: &Death, weapon: &str, facts: &KillFacts, index: usize)
    requires
        old(lines).wf(0),
        old(lines).lines.len() <= 0x1_ffff_ffff_ff80,
        facts.of(*kill, weapon@),
    ensures
        final(lines).wf(0),
        final(lines).model() == with_airshot_lines(old(lines).model(), *kill, weapon@, index as int),
        final(lines).lines.len() <= old(lines).lines.len() + 6,
{
    proof {
        reveal(with_airshot_lines);
    }
    put_told(lines, facts.airshot, "state_confirmed_airshot", 2000, kill, index, LineDetail::Projectile);
    put_told(lines, facts.direct, "direct_airshot_proximity", 600, kill, index, distance_told(kill));
    put_told(lines, facts.long, "long_flight_airshot", 500, kill, index, flight_told(kill));
    put_told(lines, facts.style > 0, "relative_height_airshot_style", 100 * facts.style, kill, index, stance_told(kill));
}

/// The lines for circumstances of a kill added to others.
#[verifier::opaque]
pub open spec fn with_luck_lines(
    base: Seq<ScoreLine<Seq<char>>>,
    kill: Death,
    weapon: Seq<char>,
    index: int,
) -> Seq<ScoreLine<Seq<char>>> {
    let l0 = line_if(base, airborne_kill(kill, weapon), kill_line("state_confirmed_airborne_victim"@, 800i64, kill, index));
    let l1 = line_if(l0, jumper_kill(kill, weapon), kill_line("rocket_jump_victim"@, 1000i64, kill, index));
    let l2 = line_if(l1, kill.kill_streak_total >= 10, kill_line("streak_10_plus"@, 500i64, kill, index));
    let l3 = line_if(l2, random_crit(kill, weapon), kill_line("random_full_crit"@, -1200i64, kill, index));
    l3
}

fn add_luck_lines(lines: &mut ScoreSheet, kill: &Death, weapon: &str, facts: &KillFacts, index: usize)
    requires
        old(lines).wf(0),
        old(lines).lines.len() <= 0x1_ffff_ffff_ff80,
        facts.of(*kill, weapon@),
    ensures
        final(lines).wf(0),
        final(lines).model() == with_luck_lines(old(lines).model(), *kill, weapon@, index as int),
        final(lines).lines.len() <= old(lines).lines.len() + 6,
{
    proof {
        reveal(with_luck_lines);
    }
    put_line(lines, facts.airborne, "state_confirmed_airborne_victim", 800, kill, index);
    put_line(lines, facts.jumper, "rocket_jump_victim", 1000, kill, index);
    put_line(lines, kill.kill_streak_total >= 10, "streak_10_plus", 500, kill, index);
    put_line(lines, facts.random_crit, "random_full_crit", -1200, kill, index);
}

/// The lines of a kill added to others, given its weapon in lower case.
pub open spec fn with_kill_lines(
    base: Seq<ScoreLine<Seq<char>>>,
    kill: Death,
    weapon: Seq<char>,
    index: int,
) -> Seq<ScoreLine<Seq<char>>> {
    let skill_lines = with_skill_lines(base, kill, weapon, index);
    let target_lines = with_target_lines(skill_lines, kill, weapon, index);
    let airshot_lines = with_airshot_lines(target_lines, kill, weapon, index);
    let luck_lines = with_luck_lines(airshot_lines, kill, weapon, index);
    luck_lines
}

/// Lines and the points they add up to.
pub struct ScoreSheet {
    pub lines: Vec<ScoreLine<String>>,
    pub points: i64,
}

impl ScoreSheet {
    /// The points are those of the lines, and their size is bounded by the number
    /// of lines.
    pub open spec fn wf(&self, slack: int) -> bool {
        &&& self.points == total(line_models(self.lines@))
        &&& -2500 * self.lines.len() - slack <= self.points <= 2500 * self.lines.len() + slack
    }

    /// What the lines hold.
    pub open spec fn model(&self) -> Seq<ScoreLine<Seq<char>>> {
        line_models(self.lines@)
    }
}

fn put_line(
    sheet: &mut ScoreSheet,
    condition: bool,
    reason: &str,
    points: i64,
    kill: &Death,
    index: usize,
)
    requires
        old(sheet).wf(0),
        -2500 <= points <= 2500,
        old(sheet).lines.len() <= 0x2_0000_0000_0000,
    ensures
        final(sheet).wf(0),
        final(sheet).model() == line_if(
            old(sheet).model(),
            condition,
            kill_line(reason@, points, *kill, index as int),
        ),
        final(sheet).lines.len() <= old(sheet).lines.len() + 1,
{
    put_told(sheet, condition, reason, points, kill, index, LineDetail::Nothing);
}

fn put_told(
    sheet: &mut ScoreSheet,
    condition: bool,
    reason: &str,
    points: i64,
    kill: &Death,
    index: usize,
    detail: LineDetail<String>,
)
    requires
        old(sheet).wf(0),
        -2500 <= points <= 2500,
        old(sheet).lines.len() <= 0x2_0000_0000_0000,
    ensures
        final(sheet).wf(0),
        final(sheet).model() == line_if(
            old(sheet).model(),
            condition,
            told_line(reason@, points, *kill, index as int, detail.model()),
        ),
        final(sheet).lines.len() <= old(sheet).lines.len() + 1,
{
    if condition {
        let line = ScoreLine {
            reason: reason.to_owned(),
            points,
            event_tick: Some(kill.event_tick),
            count: None,
            kill: Some(index),
            detail,
        };
        let ghost before = sheet.lines@;
        sheet.points = sheet.points + points;
        sheet.lines.push(line);
        proof {
            assert(line_models(sheet.lines@) =~= line_models(before).push(line.model()));
            assert(line_models(sheet.lines@).drop_last() =~= line_models(before));
        }
    }
}

pub(crate) fn add_kill_lines(
    lines: &mut ScoreSheet,
    kill: &Death,
    weapon: &str,
    facts: &KillFacts,
    index: usize,
)
    requires
        old(lines).wf(0),
        old(lines).lines.len() <= 0x1_ffff_ffff_ff00,
        facts.of(*kill, weapon@),
    ensures
        final(lines).wf(0),
        final(lines).model() == with_kill_lines(
            old(lines).model(),
            *kill,
            weapon@,
            index as int,
        ),
        final(lines).lines.len() <= old(lines).lines.len() + 24,
{
    add_skill_lines(lines, kill, weapon, facts, index);
    add_target_lines(lines, kill, weapon, facts, index);
    add_airshot_lines(lines, kill, weapon, facts, index);
    add_luck_lines(lines, kill, weapon, facts, index);
}

// ---------------------------------------------------------------------------
// What a kill is worth
// ---------------------------------------------------------------------------

/// What a line adds under a condition.
pub proof fn lemma_line_if(
    lines: Seq<ScoreLine<Seq<char>>>,
    condition: bool,
    line: ScoreLine<Seq<char>>,
)
    ensures
        total(line_if(lines, condition, line)) == total(lines) + (if condition {
            line.points as int
        } else {
            0
        }),
        forall|other: ScoreLine<Seq<char>>|
            #![trigger line_if(lines, condition, line).contains(other)]
            #![trigger lines.contains(other)]
            line_if(lines, condition, line).contains(other) <==> lines.contains(other) || condition
                && other == line,
{
    let more = lines.push(line);
    assert(more.drop_last() =~= lines);
    assert forall|other: ScoreLine<Seq<char>>| #[trigger] more.contains(other) <==> lines.contains(
        other,
    ) || other == line by {
        if lines.contains(other) {
            let i = choose|i: int| 0 <= i < lines.len() && lines[i] == other;
            assert(more[i] == other);
        }
        if other == line {
            assert(more[lines.len() as int] == other);
        }
        if more.contains(other) {
            let i = choose|i: int| 0 <= i < more.len() && more[i] == other;
            if i < lines.len() {
                assert(lines[i] == other);
            }
        }
    }
}

/// Some points where something holds.
pub open spec fn worth(holds: bool, points: int) -> int {
    if holds {
        points
    } else {
        0
    }
}

proof fn lemma_skill_lines(
    base: Seq<ScoreLine<Seq<char>>>,
    kill: Death,
    weapon: Seq<char>,
    index: int,
)
    ensures
        total(with_skill_lines(base, kill, weapon, index)) == total(base) + worth(kritz_kill(kill), 800) + worth(market_garden(kill, weapon), 2000) + worth(kill.state.confirmed_double_donk, 1800) + worth(dropshot(kill, weapon), 1800) + worth(shield_bash(kill), 2200) + worth(charge_melee(kill), 1600),
        forall|line: ScoreLine<Seq<char>>| base.contains(line) ==> #[trigger] with_skill_lines(
            base,
            kill,
            weapon,
            index,
        ).contains(line),
        kritz_kill(kill) ==> with_skill_lines(base, kill, weapon, index).contains(kill_line("confirmed_kritzkrieg_boosted_kill"@, 800i64, kill, index)),
        market_garden(kill, weapon) ==> with_skill_lines(base, kill, weapon, index).contains(kill_line("confirmed_market_garden"@, 2000i64, kill, index)),
        kill.state.confirmed_double_donk ==> with_skill_lines(base, kill, weapon, index).contains(kill_line("confirmed_loose_cannon_double_donk"@, 1800i64, kill, index)),
        dropshot(kill, weapon) ==> with_skill_lines(base, kill, weapon, index).contains(kill_line("confirmed_sniper_dropshot"@, 1800i64, kill, index)),
        shield_bash(kill) ==> with_skill_lines(base, kill, weapon, index).contains(kill_line("confirmed_shield_bash_kill"@, 2200i64, kill, index)),
        charge_melee(kill) ==> with_skill_lines(base, kill, weapon, index).contains(told_line("shield_charge_followed_by_melee_kill"@, 1600i64, kill, index, weapon_detail(kill))),
{
    reveal(with_skill_lines);
    let x0 = kill_line("confirmed_kritzkrieg_boosted_kill"@, 800i64, kill, index);
    lemma_line_if(base, kritz_kill(kill), x0);
    let l0 = line_if(base, kritz_kill(kill), x0);
    let x1 = kill_line("confirmed_market_garden"@, 2000i64, kill, index);
    lemma_line_if(l0, market_garden(kill, weapon), x1);
    let l1 = line_if(l0, market_garden(kill, weapon), x1);
    let x2 = kill_line("confirmed_loose_cannon_double_donk"@, 1800i64, kill, index);
    lemma_line_if(l1, kill.state.confirmed_double_donk, x2);
    let l2 = line_if(l1, kill.state.confirmed_double_donk, x2);
    let x3 = kill_line("confirmed_sniper_dropshot"@, 1800i64, kill, index);
    lemma_line_if(l2, dropshot(kill, weapon), x3);
    let l3 = line_if(l2, dropshot(kill, weapon), x3);
    let x4 = kill_line("confirmed_shield_bash_kill"@, 2200i64, kill, index);
    lemma_line_if(l3, shield_bash(kill), x4);
    let l4 = line_if(l3, shield_bash(kill), x4);
    let x5 = told_line("shield_charge_followed_by_melee_kill"@, 1600i64, kill, index, weapon_detail(kill));
    lemma_line_if(l4, charge_melee(kill), x5);
    let l5 = line_if(l4, charge_melee(kill), x5);
}

proof fn lemma_target_lines(
    base: Seq<ScoreLine<Seq<char>>>,
    kill: Death,
    weapon: Seq<char>,
    index: int,
)
    ensures
        total(with_target_lines(base, kill, weapon, index)) == total(base) + worth(plain_melee(kill, weapon), 1500) + worth(backstab(kill), 2000) + worth(taunt_named(kill.custom_kill as int) is Some, 2500) + worth(kill.victim_class@ == "medic"@, 1800) + worth(kill.victim_class@ == "medic"@ && kill.state.confirmed_uber_drop, 2000) + worth(kill.victim_class@ == "demoman"@, 1000),
        forall|line: ScoreLine<Seq<char>>| base.contains(line) ==> #[trigger] with_target_lines(
            base,
            kill,
            weapon,
            index,
        ).contains(line),
        plain_melee(kill, weapon) ==> with_target_lines(base, kill, weapon, index).contains(told_line("player_melee_kill"@, 1500i64, kill, index, weapon_detail(kill))),
        backstab(kill) ==> with_target_lines(base, kill, weapon, index).contains(kill_line("confirmed_spy_backstab"@, 2000i64, kill, index)),
        taunt_named(kill.custom_kill as int) is Some ==> with_target_lines(base, kill, weapon, index).contains(told_line("confirmed_taunt_kill"@, 2500i64, kill, index, taunt_detail(kill))),
        kill.victim_class@ == "medic"@ ==> with_target_lines(base, kill, weapon, index).contains(kill_line("medic_pick"@, 1800i64, kill, index)),
        kill.victim_class@ == "medic"@ && kill.state.confirmed_uber_drop ==> with_target_lines(base, kill, weapon, index).contains(told_line("confirmed_uber_drop"@, 2000i64, kill, index, LineDetail::VictimCharge)),
        kill.victim_class@ == "demoman"@ ==> with_target_lines(base, kill, weapon, index).contains(kill_line("demoman_pick"@, 1000i64, kill, index)),
{
    reveal(with_target_lines);
    let x0 = told_line("player_melee_kill"@, 1500i64, kill, index, weapon_detail(kill));
    lemma_line_if(base, plain_melee(kill, weapon), x0);
    let l0 = line_if(base, plain_melee(kill, weapon), x0);
    let x1 = kill_line("confirmed_spy_backstab"@, 2000i64, kill, index);
    lemma_line_if(l0, backstab(kill), x1);
    let l1 = line_if(l0, backstab(kill), x1);
    let x2 = told_line("confirmed_taunt_kill"@, 2500i64, kill, index, taunt_detail(kill));
    lemma_line_if(l1, taunt_named(kill.custom_kill as int) is Some, x2);
    let l2 = line_if(l1, taunt_named(kill.custom_kill as int) is Some, x2);
    let x3 = kill_line("medic_pick"@, 1800i64, kill, index);
    lemma_line_if(l2, kill.victim_class@ == "medic"@, x3);
    let l3 = line_if(l2, kill.victim_class@ == "medic"@, x3);
    let x4 = told_line("confirmed_uber_drop"@, 2000i64, kill, index, LineDetail::VictimCharge);
    lemma_line_if(l3, kill.victim_class@ == "medic"@ && kill.state.confirmed_uber_drop, x4);
    let l4 = line_if(l3, kill.victim_class@ == "medic"@ && kill.state.confirmed_uber_drop, x4);
    let x5 = kill_line("demoman_pick"@, 1000i64, kill, index);
    lemma_line_if(l4, kill.victim_class@ == "demoman"@, x5);
    let l5 = line_if(l4, kill.victim_class@ == "demoman"@, x5);
}

proof fn lemma_airshot_lines(
    base: Seq<ScoreLine<Seq<char>>>,
    kill: Death,
    weapon: Seq<char>,
    index: int,
)
    ensures
        total(with_airshot_lines(base, kill, weapon, index)) == total(base) + worth(airshot(kill), 2000) + worth(direct_airshot(kill), 600) + worth(long_airshot(kill), 500) + worth(styled_airshot(kill), 100 * style_of(kill)),
        forall|line: ScoreLine<Seq<char>>| base.contains(line) ==> #[trigger] with_airshot_lines(
            base,
            kill,
            weapon,
            index,
        ).contains(line),
        airshot(kill) ==> with_airshot_lines(base, kill, weapon, index).contains(told_line("state_confirmed_airshot"@, 2000i64, kill, index, LineDetail::Projectile)),
        direct_airshot(kill) ==> with_airshot_lines(base, kill, weapon, index).contains(told_line("direct_airshot_proximity"@, 600i64, kill, index, distance_detail(kill))),
        long_airshot(kill) ==> with_airshot_lines(base, kill, weapon, index).contains(told_line("long_flight_airshot"@, 500i64, kill, index, flight_detail(kill))),
        styled_airshot(kill) ==> with_airshot_lines(base, kill, weapon, index).contains(told_line("relative_height_airshot_style"@, (100 * style_of(kill)) as i64, kill, index, stance_detail(kill))),
{
    reveal(with_airshot_lines);
    let x0 = told_line("state_confirmed_airshot"@, 2000i64, kill, index, LineDetail::Projectile);
    lemma_line_if(base, airshot(kill), x0);
    let l0 = line_if(base, airshot(kill), x0);
    let x1 = told_line("direct_airshot_proximity"@, 600i64, kill, index, distance_detail(kill));
    lemma_line_if(l0, direct_airshot(kill), x1);
    let l1 = line_if(l0, direct_airshot(kill), x1);
    let x2 = told_line("long_flight_airshot"@, 500i64, kill, index, flight_detail(kill));
    lemma_line_if(l1, long_airshot(kill), x2);
    let l2 = line_if(l1, long_airshot(kill), x2);
    let x3 = told_line("relative_height_airshot_style"@, (100 * style_of(kill)) as i64, kill, index, stance_detail(kill));
    lemma_line_if(l2, styled_airshot(kill), x3);
    let l3 = line_if(l2, styled_airshot(kill), x3);
}

proof fn lemma_luck_lines(
    base: Seq<ScoreLine<Seq<char>>>,
    kill: Death,
    weapon: Seq<char>,
    index: int,
)
    ensures
        total(with_luck_lines(base, kill, weapon, index)) == total(base) + worth(airborne_kill(kill, weapon), 800) + worth(jumper_kill(kill, weapon), 1000) + worth(kill.kill_streak_total >= 10, 500) + worth(random_crit(kill, weapon), -1200),
        forall|line: ScoreLine<Seq<char>>| base.contains(line) ==> #[trigger] with_luck_lines(
            base,
            kill,
            weapon,
            index,
        ).contains(line),
        airborne_kill(kill, weapon) ==> with_luck_lines(base, kill, weapon, index).contains(kill_line("state_confirmed_airborne_victim"@, 800i64, kill, index)),
        jumper_kill(kill, weapon) ==> with_luck_lines(base, kill, weapon, index).contains(kill_line("rocket_jump_victim"@, 1000i64, kill, index)),
        kill.kill_streak_total >= 10 ==> with_luck_lines(base, kill, weapon, index).contains(kill_line("streak_10_plus"@, 500i64, kill, index)),
        random_crit(kill, weapon) ==> with_luck_lines(base, kill, weapon, index).contains(kill_line("random_full_crit"@, -1200i64, kill, index)),
{
    reveal(with_luck_lines);
    let x0 = kill_line("state_confirmed_airborne_victim"@, 800i64, kill, index);
    lemma_line_if(base, airborne_kill(kill, weapon), x0);
    let l0 = line_if(base, airborne_kill(kill, weapon), x0);
    let x1 = kill_line("rocket_jump_victim"@, 1000i64, kill, index);
    lemma_line_if(l0, jumper_kill(kill, weapon), x1);
    let l1 = line_if(l0, jumper_kill(kill, weapon), x1);
    let x2 = kill_line("streak_10_plus"@, 500i64, kill, index);
    lemma_line_if(l1, kill.kill_streak_total >= 10, x2);
    let l2 = line_if(l1, kill.kill_streak_total >= 10, x2);
    let x3 = kill_line("random_full_crit"@, -1200i64, kill, index);
    lemma_line_if(l2, random_crit(kill, weapon), x3);
    let l3 = line_if(l2, random_crit(kill, weapon), x3);
}

/// The lines of a kill that stands at a place of its sequence.
pub open spec fn lines_under(kill: Death, weapon: Seq<char>, index: int) -> Seq<ScoreLine<Seq<char>>> {
    with_kill_lines(Seq::empty(), kill, weapon, index)
}

/// The lines of a kill add its points to those of others.
pub proof fn lemma_kill_lines_add(
    base: Seq<ScoreLine<Seq<char>>>,
    kill: Death,
    weapon: Seq<char>,
    index: int,
)
    ensures
        total(with_kill_lines(base, kill, weapon, index)) == total(base) + total(
            lines_under(kill, weapon, index),
        ),
{
    let none = Seq::<ScoreLine<Seq<char>>>::empty();
    let skill = with_skill_lines(none, kill, weapon, index);
    let target = with_target_lines(skill, kill, weapon, index);
    let shot = with_airshot_lines(target, kill, weapon, index);
    lemma_skill_lines(none, kill, weapon, index);
    lemma_target_lines(skill, kill, weapon, index);
    lemma_airshot_lines(target, kill, weapon, index);
    lemma_luck_lines(shot, kill, weapon, index);
    let more = with_skill_lines(base, kill, weapon, index);
    let aimed = with_target_lines(more, kill, weapon, index);
    let flown = with_airshot_lines(aimed, kill, weapon, index);
    lemma_skill_lines(base, kill, weapon, index);
    lemma_target_lines(more, kill, weapon, index);
    lemma_airshot_lines(aimed, kill, weapon, index);
    lemma_luck_lines(flown, kill, weapon, index);
}

/// A kill is worth what its tags are worth, and for an airshot up to 20 points more for
/// height and angle. Points are in hundredths.
pub proof fn law_tags_are_worth_points(kill: Death, weapon: Seq<char>, index: int)
    ensures
        ({
            let tags = tags_under(kill, weapon);
            total(lines_under(kill, weapon, index)) == worth(tags.contains("kritzkrieg_kill"@), 800)
                + worth(tags.contains("market_garden"@), 2000)
                + worth(tags.contains("double_donk"@), 1800)
                + worth(tags.contains("sniper_dropshot"@), 1800)
                + worth(tags.contains("shield_bash_kill"@), 2200)
                + worth(tags.contains("charge_melee_kill"@), 1600)
                + worth(tags.contains("melee_kill"@), 1500)
                + worth(tags.contains("backstab"@), 2000)
                + worth(tags.contains("taunt_kill"@), 2500)
                + worth(tags.contains("medic_pick"@), 1800)
                + worth(tags.contains("uber_drop"@), 2000)
                + worth(tags.contains("demoman_pick"@), 1000)
                + worth(tags.contains("confirmed_airshot"@), 2000)
                + worth(tags.contains("direct_airshot"@), 600)
                + worth(tags.contains("long_flight_airshot"@), 500)
                + worth(tags.contains("airborne_projectile_kill"@), 800)
                + worth(tags.contains("rocket_jump_victim"@), 1000)
                + worth(tags.contains("streak_10_plus"@), 500)
                + worth(tags.contains("random_full_crit"@), -1200)
                + worth(tags.contains("confirmed_airshot"@), 100 * style_of(kill))
        }),
{
    let none = Seq::<ScoreLine<Seq<char>>>::empty();
    let skill = with_skill_lines(none, kill, weapon, index);
    let target = with_target_lines(skill, kill, weapon, index);
    let shot = with_airshot_lines(target, kill, weapon, index);
    lemma_skill_lines(none, kill, weapon, index);
    lemma_target_lines(skill, kill, weapon, index);
    lemma_airshot_lines(target, kill, weapon, index);
    lemma_luck_lines(shot, kill, weapon, index);
    law_custom_kills_are_tagged(kill, weapon);
    law_melee_kills_are_tagged(kill, weapon);
    law_critical_kills_are_tagged(kill, weapon);
    law_victims_are_tagged(kill, weapon);
    law_airshots_are_tagged(kill, weapon);
    law_victims_in_the_air_are_tagged_once(kill, weapon);
    lemma_plain_melee(kill, weapon);
    lemma_dropshot(kill, weapon);
}

proof fn lemma_plain_melee(kill: Death, weapon: Seq<char>)
    ensures
        tags_under(kill, weapon).contains("melee_kill"@) == plain_melee(kill, weapon),
{
    lemma_tags_differ();
    lemma_skill_part(kill, weapon, "melee_kill"@);
    reveal(with_skill_tags);
}

proof fn lemma_dropshot(kill: Death, weapon: Seq<char>)
    ensures
        tags_under(kill, weapon).contains("sniper_dropshot"@) == dropshot(kill, weapon),
{
    lemma_tags_differ();
    lemma_skill_part(kill, weapon, "sniper_dropshot"@);
    reveal(with_skill_tags);
}

/// Every tag of a kill that is worth points has its line, which tells when the kill was
/// and which of its sequence it is.
pub proof fn law_tags_have_their_lines(kill: Death, weapon: Seq<char>, index: int)
    ensures
        ({
            let tags = tags_under(kill, weapon);
            let lines = lines_under(kill, weapon, index);
            &&& tags.contains("kritzkrieg_kill"@) ==> lines.contains(
                kill_line("confirmed_kritzkrieg_boosted_kill"@, 800i64, kill, index),
            )
            &&& tags.contains("market_garden"@) ==> lines.contains(
                kill_line("confirmed_market_garden"@, 2000i64, kill, index),
            )
            &&& tags.contains("double_donk"@) ==> lines.contains(
                kill_line("confirmed_loose_cannon_double_donk"@, 1800i64, kill, index),
            )
            &&& tags.contains("sniper_dropshot"@) ==> lines.contains(
                kill_line("confirmed_sniper_dropshot"@, 1800i64, kill, index),
            )
            &&& tags.contains("shield_bash_kill"@) ==> lines.contains(
                kill_line("confirmed_shield_bash_kill"@, 2200i64, kill, index),
            )
            &&& tags.contains("charge_melee_kill"@) ==> lines.contains(
                told_line("shield_charge_followed_by_melee_kill"@, 1600i64, kill, index, weapon_detail(kill)),
            )
            &&& tags.contains("melee_kill"@) ==> lines.contains(
                told_line("player_melee_kill"@, 1500i64, kill, index, weapon_detail(kill)),
            )
            &&& tags.contains("backstab"@) ==> lines.contains(
                kill_line("confirmed_spy_backstab"@, 2000i64, kill, index),
            )
            &&& tags.contains("taunt_kill"@) ==> lines.contains(
                told_line("confirmed_taunt_kill"@, 2500i64, kill, index, taunt_detail(kill)),
            )
            &&& tags.contains("medic_pick"@) ==> lines.contains(
                kill_line("medic_pick"@, 1800i64, kill, index),
            )
            &&& tags.contains("uber_drop"@) ==> lines.contains(
                told_line("confirmed_uber_drop"@, 2000i64, kill, index, LineDetail::VictimCharge),
            )
            &&& tags.contains("demoman_pick"@) ==> lines.contains(
                kill_line("demoman_pick"@, 1000i64, kill, index),
            )
            &&& tags.contains("confirmed_airshot"@) ==> lines.contains(
                told_line("state_confirmed_airshot"@, 2000i64, kill, index, LineDetail::Projectile),
            )
            &&& tags.contains("direct_airshot"@) ==> lines.contains(
                told_line("direct_airshot_proximity"@, 600i64, kill, index, distance_detail(kill)),
            )
            &&& tags.contains("long_flight_airshot"@) ==> lines.contains(
                told_line("long_flight_airshot"@, 500i64, kill, index, flight_detail(kill)),
            )
            &&& tags.contains("airborne_projectile_kill"@) ==> lines.contains(
                kill_line("state_confirmed_airborne_victim"@, 800i64, kill, index),
            )
            &&& tags.contains("rocket_jump_victim"@) ==> lines.contains(
                kill_line("rocket_jump_victim"@, 1000i64, kill, index),
            )
            &&& tags.contains("streak_10_plus"@) ==> lines.contains(
                kill_line("streak_10_plus"@, 500i64, kill, index),
            )
            &&& tags.contains("random_full_crit"@) ==> lines.contains(
                kill_line("random_full_crit"@, -1200i64, kill, index),
            )
        }),
{
    let none = Seq::<ScoreLine<Seq<char>>>::empty();
    let skill = with_skill_lines(none, kill, weapon, index);
    let target = with_target_lines(skill, kill, weapon, index);
    let shot = with_airshot_lines(target, kill, weapon, index);
    lemma_skill_lines(none, kill, weapon, index);
    lemma_target_lines(skill, kill, weapon, index);
    lemma_airshot_lines(target, kill, weapon, index);
    lemma_luck_lines(shot, kill, weapon, index);
    law_custom_kills_are_tagged(kill, weapon);
    law_melee_kills_are_tagged(kill, weapon);
    law_critical_kills_are_tagged(kill, weapon);
    law_victims_are_tagged(kill, weapon);
    law_airshots_are_tagged(kill, weapon);
    law_victims_in_the_air_are_tagged_once(kill, weapon);
    lemma_plain_melee(kill, weapon);
    lemma_dropshot(kill, weapon);
}

/// The points for height and angle of an airshot: up to ten for each, in steps at 64,
/// 128, 192 and 256 units and at 10, 20, 35 and 50 degrees, and none for one alone.
pub proof fn law_style_points_rise(height: int, elevation: int, higher: int, steeper: int)
    requires
        height <= higher,
        elevation <= steeper,
    ensures
        0 <= style_points(height, elevation) <= style_points(higher, steeper) <= 20,
        height <= 0 || elevation <= 0 ==> style_points(height, elevation) == 0,
        height >= natural(256) && elevation >= natural(50) ==> style_points(height, elevation) == 20,
        natural(192) <= height < natural(256) && natural(35) <= elevation < natural(50)
            ==> style_points(height, elevation) == 14,
        natural(128) <= height < natural(192) && natural(20) <= elevation < natural(35)
            ==> style_points(height, elevation) == 8,
        natural(64) <= height < natural(128) && natural(10) <= elevation < natural(20)
            ==> style_points(height, elevation) == 4,
        height < natural(64) && elevation < natural(10) ==> style_points(height, elevation) == 0,
{
    lemma_styles();
}

} // verus!
