//! Keys bound during manual recording sessions.
use vstd::prelude::*;
use crate::text::{
    char_is_alnum, chars_of, is_alnum, is_space, lemma_fold_upper, lemma_trimmed, lower,
    lower_char, same_fold, same_ignoring_case, same_text, to_upper, trim, trim_end, trim_start,
    trimmed, upper, views,
};

verus! {

/// The key bound to each action of a manual session.
#[derive(Debug)]
pub struct MirvShortcuts {
    pub advance_time: String,
    pub toggle_hud: String,
    pub show_help: String,
    pub back_one_second: String,
    pub safe_restart: String,
    pub next_kill_tick: String,
    pub pause_resume: String,
    pub enter_camera: String,
    pub add_keyframe: String,
    pub play_campath: String,
    pub draw_campath: String,
    pub start_recording: String,
    pub stop_recording: String,
    pub print_keyframes: String,
    pub save_campath: String,
    pub load_campath: String,
    pub execute_director_action: String,
    pub overlay_panel_toggle: String,
    pub overlay_interaction_toggle: String,
    /// Which generation of defaults the overlay panel key was saved under.
    pub overlay_panel_toggle_default_version: u8,
}

/// Where the overlay panel key stands in the list of keys.
pub open spec fn panel_slot() -> int {
    17
}

/// The keys bound where nothing else was chosen, in the order of the fields.
pub open spec fn default_keys() -> Seq<Seq<char>> {
    seq![
        "["@,
        "]"@,
        "1"@,
        "2"@,
        "3"@,
        "4"@,
        "5"@,
        "6"@,
        "7"@,
        "8"@,
        "/"@,
        "9"@,
        "0"@,
        "-"@,
        "="@,
        "F8"@,
        "'"@,
        "C"@,
        "F11"@,
    ]
}

/// The names of the arrow keys, which steer the demo player and are never bound.
pub open spec fn arrow_key(value: Seq<char>) -> bool {
    let name = upper(trimmed(value));
    name == "UPARROW"@ || name == "DOWNARROW"@ || name == "LEFTARROW"@ || name == "RIGHTARROW"@
}

/// The names of the keys without a character that may be bound.
pub open spec fn named_key(name: Seq<char>) -> bool {
    name == "SPACE"@ || name == "TAB"@ || name == "ENTER"@ || name == "BACKSPACE"@ || name == "DEL"@
        || name == "INS"@ || name == "HOME"@ || name == "END"@ || name == "PGUP"@ || name == "PGDN"@
        || name == "SCROLLLOCK"@ || name == "PAUSE"@ || name == "F1"@ || name == "F2"@ || name
        == "F3"@ || name == "F4"@ || name == "F5"@ || name == "F6"@ || name == "F7"@ || name
        == "F8"@ || name == "F9"@ || name == "F10"@ || name == "F11"@ || name == "F12"@
}

/// The characters whose keys may be bound.
pub open spec fn printable_key(c: char) -> bool {
    is_alnum(c) || c == '_' || c == '[' || c == ']' || c == '-' || c == '=' || c == ',' || c == '.'
        || c == '/' || c == '\''
}

/// The key that is bound for a wish, given what to bind where it cannot be met.
pub open spec fn bound_key(value: Seq<char>, fallback: Seq<char>) -> Seq<char> {
    let wish = trimmed(value);
    if !arrow_key(wish) && named_key(upper(wish)) {
        upper(wish)
    } else if !arrow_key(wish) && wish.len() == 1 && printable_key(wish[0]) {
        wish
    } else {
        fallback
    }
}

/// No two keys are the same up to case.
pub open spec fn distinct_keys(keys: Seq<Seq<char>>) -> bool {
    forall|i: int, j: int|
        0 <= i < j < keys.len() ==> !same_fold(#[trigger] keys[i], #[trigger] keys[j])
}

/// The overlay panel key after the short-lived defaults of earlier generations
/// have been moved on.
pub open spec fn migrated_panel(value: Seq<char>, version: int) -> Seq<char> {
    if (version == 0 && same_fold(value, "HOME"@)) || (version == 1 && same_fold(value, "Y"@)) || (
    version == 2 && same_fold(value, "S"@)) {
        "C"@
    } else {
        value
    }
}

/// The keys that are bound for a list of wishes, before repetition is looked at.
pub open spec fn bound_keys(wishes: Seq<Seq<char>>) -> Seq<Seq<char>> {
    Seq::new(default_keys().len(), |i: int| bound_key(wishes[i], default_keys()[i]))
}

/// The keys after normalising.
pub open spec fn normal_keys(keys: Seq<Seq<char>>, version: int) -> Seq<Seq<char>> {
    let bound = bound_keys(
        keys.update(panel_slot(), migrated_panel(keys[panel_slot()], version)),
    );
    if distinct_keys(bound) {
        bound
    } else {
        default_keys()
    }
}

/// The generation recorded after normalising.
pub open spec fn normal_version(keys: Seq<Seq<char>>, version: int) -> int {
    let bound = bound_keys(
        keys.update(panel_slot(), migrated_panel(keys[panel_slot()], version)),
    );
    if version <= 2 || !distinct_keys(bound) {
        3
    } else {
        version
    }
}

impl MirvShortcuts {
    /// The keys in the order of the fields.
    pub open spec fn keys(&self) -> Seq<Seq<char>> {
        seq![
            self.advance_time@,
            self.toggle_hud@,
            self.show_help@,
            self.back_one_second@,
            self.safe_restart@,
            self.next_kill_tick@,
            self.pause_resume@,
            self.enter_camera@,
            self.add_keyframe@,
            self.play_campath@,
            self.draw_campath@,
            self.start_recording@,
            self.stop_recording@,
            self.print_keyframes@,
            self.save_campath@,
            self.load_campath@,
            self.execute_director_action@,
            self.overlay_panel_toggle@,
            self.overlay_interaction_toggle@,
        ]
    }

    /// The keys in the order of the fields.
    pub fn key_list(&self) -> (out: Vec<String>)
        ensures
            views(out@) == self.keys(),
            out.len() == 19,
    {
        let mut out: Vec<String> = Vec::new();
        out.push(self.advance_time.clone());
        out.push(self.toggle_hud.clone());
        out.push(self.show_help.clone());
        out.push(self.back_one_second.clone());
        out.push(self.safe_restart.clone());
        out.push(self.next_kill_tick.clone());
        out.push(self.pause_resume.clone());
        out.push(self.enter_camera.clone());
        out.push(self.add_keyframe.clone());
        out.push(self.play_campath.clone());
        out.push(self.draw_campath.clone());
        out.push(self.start_recording.clone());
        out.push(self.stop_recording.clone());
        out.push(self.print_keyframes.clone());
        out.push(self.save_campath.clone());
        out.push(self.load_campath.clone());
        out.push(self.execute_director_action.clone());
        out.push(self.overlay_panel_toggle.clone());
        out.push(self.overlay_interaction_toggle.clone());
        assert(views(out@) =~= self.keys());
        out
    }

    /// Whether a key name is one of the arrow keys.
    pub fn is_reserved_arrow_key(value: &str) -> (r: bool)
        ensures
            r == arrow_key(value@),
    {
        let name = to_upper(trim(value).as_str());
        same_text(name.as_str(), "UPARROW") || same_text(name.as_str(), "DOWNARROW") || same_text(
            name.as_str(),
            "LEFTARROW",
        ) || same_text(name.as_str(), "RIGHTARROW")
    }

    /// The key to bind for a wish: a named key in upper case, or a single
    /// character; anything else gives the fallback.
    pub fn normalized_key(value: &str, fallback: &str) -> (out: String)
        ensures
            out@ == bound_key(value@, fallback@),
    {
        let wish = trim(value);
        let name = to_upper(wish.as_str());
        let arrow = Self::is_reserved_arrow_key(wish.as_str());
        if !arrow && is_named_key(name.as_str()) {
            name
        } else {
            let chars = chars_of(wish.as_str());
            if !arrow && chars.len() == 1 && is_printable_key(chars[0]) {
                wish
            } else {
                fallback.to_owned()
            }
        }
    }

    /// Brings the keys into a state in which every action has a key of its own.
    pub fn normalize(&mut self)
        ensures
            final(self).keys() == normal_keys(
                old(self).keys(),
                old(self).overlay_panel_toggle_default_version as int,
            ),
            final(self).overlay_panel_toggle_default_version == normal_version(
                old(self).keys(),
                old(self).overlay_panel_toggle_default_version as int,
            ),
    {
        let version: u8 = self.overlay_panel_toggle_default_version;
        let panel = self.overlay_panel_toggle.clone();
        let moved = (version == 0 && same_ignoring_case(panel.as_str(), "HOME")) || (version == 1
            && same_ignoring_case(panel.as_str(), "Y")) || (version == 2 && same_ignoring_case(
            panel.as_str(),
            "S",
        ));
        if moved {
            self.overlay_panel_toggle = "C".to_owned();
        }
        let wishes = self.key_list();
        let ghost wanted = old(self).keys().update(
            panel_slot(),
            migrated_panel(old(self).keys()[panel_slot()], version as int),
        );
        assert(self.keys() =~= wanted);
        let defaults = MirvShortcuts::default();
        let fallbacks = defaults.key_list();
        let mut keys: Vec<String> = Vec::new();
        let mut i: usize = 0;
        while i < 19
            invariant
                i <= 19,
                views(wishes@) == wanted,
                views(fallbacks@) == default_keys(),
                wanted.len() == 19,
                wishes.len() == 19,
                fallbacks.len() == 19,
                views(keys@) == bound_keys(wanted).take(i as int),
            decreases 19 - i,
        {
            assert(views(wishes@)[i as int] == wishes@[i as int]@);
            assert(views(fallbacks@)[i as int] == fallbacks@[i as int]@);
            let key = Self::normalized_key(wishes[i].as_str(), fallbacks[i].as_str());
            proof {
                assert(views(keys@.push(key)) =~= views(keys@).push(key@));
                assert(bound_keys(wanted).take(i + 1) =~= bound_keys(wanted).take(i as int).push(
                    key@,
                ));
            }
            keys.push(key);
            i += 1;
        }
        assert(bound_keys(wanted).take(19) =~= bound_keys(wanted));
        if keys_are_distinct(&keys) {
            let next_version: u8 = if version <= 2 {
                3
            } else {
                version
            };
            *self = shortcuts_from(&keys, next_version);
        } else {
            *self = defaults;
        }
    }
}

fn is_named_key(name: &str) -> (r: bool)
    ensures
        r == named_key(name@),
{
    same_text(name, "SPACE") || same_text(name, "TAB") || same_text(name, "ENTER") || same_text(
        name,
        "BACKSPACE",
    ) || same_text(name, "DEL") || same_text(name, "INS") || same_text(name, "HOME") || same_text(
        name,
        "END",
    ) || same_text(name, "PGUP") || same_text(name, "PGDN") || same_text(name, "SCROLLLOCK")
        || same_text(name, "PAUSE") || same_text(name, "F1") || same_text(name, "F2") || same_text(
        name,
        "F3",
    ) || same_text(name, "F4") || same_text(name, "F5") || same_text(name, "F6") || same_text(
        name,
        "F7",
    ) || same_text(name, "F8") || same_text(name, "F9") || same_text(name, "F10") || same_text(
        name,
        "F11",
    ) || same_text(name, "F12")
}

fn is_printable_key(c: char) -> (r: bool)
    ensures
        r == printable_key(c),
{
    char_is_alnum(c) || c == '_' || c == '[' || c == ']' || c == '-' || c == '=' || c == ',' || c
        == '.' || c == '/' || c == '\''
}

/// Whether no two keys of the list are the same up to case.
fn keys_are_distinct(keys: &Vec<String>) -> (r: bool)
    ensures
        r == distinct_keys(views(keys@)),
{
    let mut i: usize = 0;
    while i < keys.len()
        invariant
            i <= keys.len(),
            forall|p: int, q: int|
                0 <= p < q < keys.len() && p < i ==> !same_fold(
                    #[trigger] views(keys@)[p],
                    #[trigger] views(keys@)[q],
                ),
        decreases keys.len() - i,
    {
        let mut j: usize = i + 1;
        while j < keys.len()
            invariant
                i < j <= keys.len(),
                forall|q: int|
                    i < q < j ==> !same_fold(
                        views(keys@)[i as int],
                        #[trigger] views(keys@)[q],
                    ),
            decreases keys.len() - j,
        {
            if same_ignoring_case(keys[i].as_str(), keys[j].as_str()) {
                assert(same_fold(views(keys@)[i as int], views(keys@)[j as int]));
                return false;
            }
            j += 1;
        }
        i += 1;
    }
    true
}

fn shortcuts_from(keys: &Vec<String>, version: u8) -> (out: MirvShortcuts)
    requires
        keys.len() == 19,
    ensures
        out.keys() == views(keys@),
        out.overlay_panel_toggle_default_version == version,
{
    let out = MirvShortcuts {
        advance_time: keys[0].clone(),
        toggle_hud: keys[1].clone(),
        show_help: keys[2].clone(),
        back_one_second: keys[3].clone(),
        safe_restart: keys[4].clone(),
        next_kill_tick: keys[5].clone(),
        pause_resume: keys[6].clone(),
        enter_camera: keys[7].clone(),
        add_keyframe: keys[8].clone(),
        play_campath: keys[9].clone(),
        draw_campath: keys[10].clone(),
        start_recording: keys[11].clone(),
        stop_recording: keys[12].clone(),
        print_keyframes: keys[13].clone(),
        save_campath: keys[14].clone(),
        load_campath: keys[15].clone(),
        execute_director_action: keys[16].clone(),
        overlay_panel_toggle: keys[17].clone(),
        overlay_interaction_toggle: keys[18].clone(),
        overlay_panel_toggle_default_version: version,
    };
    assert(out.keys() =~= views(keys@));
    out
}

impl Clone for MirvShortcuts {
    fn clone(&self) -> (out: Self)
        ensures
            out.keys() == self.keys(),
            out.overlay_panel_toggle_default_version == self.overlay_panel_toggle_default_version,
    {
        shortcuts_from(&self.key_list(), self.overlay_panel_toggle_default_version)
    }
}

impl Default for MirvShortcuts {
    fn default() -> (out: Self)
        ensures
            out.keys() == default_keys(),
            out.overlay_panel_toggle_default_version == 3,
    {
        MirvShortcuts {
            advance_time: "[".to_owned(),
            toggle_hud: "]".to_owned(),
            show_help: "1".to_owned(),
            back_one_second: "2".to_owned(),
            safe_restart: "3".to_owned(),
            next_kill_tick: "4".to_owned(),
            pause_resume: "5".to_owned(),
            enter_camera: "6".to_owned(),
            add_keyframe: "7".to_owned(),
            play_campath: "8".to_owned(),
            draw_campath: "/".to_owned(),
            start_recording: "9".to_owned(),
            stop_recording: "0".to_owned(),
            print_keyframes: "-".to_owned(),
            save_campath: "=".to_owned(),
            load_campath: "F8".to_owned(),
            execute_director_action: "'".to_owned(),
            overlay_panel_toggle: "C".to_owned(),
            overlay_interaction_toggle: "F11".to_owned(),
            overlay_panel_toggle_default_version: 3,
        }
    }
}

// ---------------------------------------------------------------------------
// Laws
// ---------------------------------------------------------------------------

/// A text that neither begins nor ends with white space is its own trimming,
/// and so is its upper case.
proof fn lemma_trimmed_upper(s: Seq<char>)
    requires
        trimmed(s) == s,
    ensures
        trimmed(upper(s)) == upper(s),
{
    lemma_trimmed(s);
    if s.len() > 0 {
        assert(!is_space(upper(s)[0]));
        assert(!is_space(upper(s).last()));
        assert(trim_start(upper(s)) == upper(s));
        assert(trim_end(upper(s)) == upper(s));
    } else {
        assert(upper(s) =~= s);
    }
}

/// Every default key is short, is its own trimming and is in upper case.
proof fn lemma_default_keys(i: int)
    requires
        0 <= i < 19,
    ensures
        default_keys().len() == 19,
        1 <= default_keys()[i].len() <= 3,
        trimmed(default_keys()[i]) == default_keys()[i],
        upper(default_keys()[i]) == default_keys()[i],
        !arrow_key(default_keys()[i]),
{
    reveal_default_keys();
    let key = default_keys()[i];
    assert(!is_space(key[0]) && !is_space(key.last()));
    assert(trim_start(key) == key);
    assert(trim_end(key) == key);
    assert(upper(key) =~= key);
    reveal_strlit("UPARROW");
    reveal_strlit("DOWNARROW");
    reveal_strlit("LEFTARROW");
    reveal_strlit("RIGHTARROW");
}

/// What the default keys are, character by character.
proof fn reveal_default_keys()
    ensures
        default_keys().len() == 19,
        default_keys()[0] == seq!['['],
        default_keys()[1] == seq![']'],
        default_keys()[2] == seq!['1'],
        default_keys()[3] == seq!['2'],
        default_keys()[4] == seq!['3'],
        default_keys()[5] == seq!['4'],
        default_keys()[6] == seq!['5'],
        default_keys()[7] == seq!['6'],
        default_keys()[8] == seq!['7'],
        default_keys()[9] == seq!['8'],
        default_keys()[10] == seq!['/'],
        default_keys()[11] == seq!['9'],
        default_keys()[12] == seq!['0'],
        default_keys()[13] == seq!['-'],
        default_keys()[14] == seq!['='],
        default_keys()[15] == seq!['F', '8'],
        default_keys()[16] == seq!['\''],
        default_keys()[17] == seq!['C'],
        default_keys()[18] == seq!['F', '1', '1'],
{
    reveal_strlit("[");
    reveal_strlit("]");
    reveal_strlit("1");
    reveal_strlit("2");
    reveal_strlit("3");
    reveal_strlit("4");
    reveal_strlit("5");
    reveal_strlit("6");
    reveal_strlit("7");
    reveal_strlit("8");
    reveal_strlit("/");
    reveal_strlit("9");
    reveal_strlit("0");
    reveal_strlit("-");
    reveal_strlit("=");
    reveal_strlit("F8");
    reveal_strlit("'");
    reveal_strlit("C");
    reveal_strlit("F11");
}

/// The default keys do not repeat.
proof fn lemma_default_keys_distinct()
    ensures
        distinct_keys(default_keys()),
{
    reveal_default_keys();
    let keys = default_keys();
    assert forall|i: int, j: int| 0 <= i < j < keys.len() implies !same_fold(
        #[trigger] keys[i],
        #[trigger] keys[j],
    ) by {
        assert(lower(keys[i]).len() == keys[i].len());
        assert(lower(keys[j]).len() == keys[j].len());
        assert(lower(keys[i])[0] == lower_char(keys[i][0]));
        assert(lower(keys[j])[0] == lower_char(keys[j][0]));
    }
}

/// A bound key is never an arrow key, and binding it again gives it again.
proof fn lemma_bound_key(value: Seq<char>, i: int)
    requires
        0 <= i < 19,
    ensures
        !arrow_key(bound_key(value, default_keys()[i])),
        bound_key(bound_key(value, default_keys()[i]), default_keys()[i]) == bound_key(
            value,
            default_keys()[i],
        ),
{
    let fallback = default_keys()[i];
    let wish = trimmed(value);
    let key = bound_key(value, fallback);
    lemma_default_keys(i);
    lemma_trimmed(value);
    lemma_trimmed(wish);
    lemma_trimmed_upper(wish);
    lemma_fold_upper(wish);
    lemma_trimmed(key);
    if !arrow_key(wish) && named_key(upper(wish)) {
        assert(key == upper(wish));
    } else if !arrow_key(wish) && wish.len() == 1 && printable_key(wish[0]) {
        assert(key == wish);
    } else {
        assert(key == fallback);
    }
}

/// After normalising, every action has a key of its own, up to case, and no
/// action has an arrow key.
pub proof fn law_normal_keys_are_usable(keys: Seq<Seq<char>>, version: int)
    requires
        keys.len() == 19,
    ensures
        normal_keys(keys, version).len() == 19,
        distinct_keys(normal_keys(keys, version)),
        forall|i: int| 0 <= i < 19 ==> !arrow_key(#[trigger] normal_keys(keys, version)[i]),
{
    let wanted = keys.update(panel_slot(), migrated_panel(keys[panel_slot()], version));
    lemma_default_keys_distinct();
    assert forall|i: int| 0 <= i < 19 implies !arrow_key(
        #[trigger] normal_keys(keys, version)[i],
    ) by {
        lemma_default_keys(i);
        lemma_bound_key(wanted[i], i);
    }
}

/// Normalising twice gives what normalising once gives.
pub proof fn law_normalizing_keys_is_idempotent(keys: Seq<Seq<char>>, version: int)
    requires
        keys.len() == 19,
        version >= 0,
    ensures
        normal_keys(normal_keys(keys, version), normal_version(keys, version)) == normal_keys(
            keys,
            version,
        ),
        normal_version(normal_keys(keys, version), normal_version(keys, version))
            == normal_version(keys, version),
{
    let wanted = keys.update(panel_slot(), migrated_panel(keys[panel_slot()], version));
    let once = normal_keys(keys, version);
    law_normal_keys_are_usable(keys, version);
    assert(normal_version(keys, version) >= 3);
    assert(once.update(panel_slot(), once[panel_slot()]) =~= once);
    assert forall|i: int| 0 <= i < 19 implies bound_key(once[i], default_keys()[i]) == once[i] by {
        lemma_bound_key(wanted[i], i);
        lemma_default_keys(i);
        lemma_bound_key(default_keys()[i], i);
    }
    assert(bound_keys(once) =~= once);
}

/// The keys that the panel had by default before are moved to the one that it has now, and
/// a key that was chosen is not.
pub proof fn law_old_panel_keys_are_moved(keys: Seq<Seq<char>>, version: int)
    requires
        keys.len() == 19,
    ensures
        version == 0 && same_fold(keys[17], "HOME"@) ==> normal_keys(keys, version)[17] == "C"@,
        version == 1 && same_fold(keys[17], "Y"@) ==> normal_keys(keys, version)[17] == "C"@,
        version == 2 && same_fold(keys[17], "S"@) ==> normal_keys(keys, version)[17] == "C"@,
        version >= 3 ==> normal_keys(keys, version) == bound_keys(keys) || normal_keys(
            keys,
            version,
        ) == default_keys(),
        normal_version(keys, version) >= 3,
{
    lemma_default_keys(17);
    lemma_bound_key(default_keys()[17], 17);
    assert(default_keys()[17] == "C"@);
    assert(bound_key("C"@, "C"@) == "C"@);
    if version >= 3 {
        assert(keys.update(17, keys[17]) =~= keys);
    }
}

/// Where two actions would share a key, every action has the key that it has by default.
pub proof fn law_shared_keys_are_reset(keys: Seq<Seq<char>>, version: int, i: int, j: int)
    requires
        keys.len() == 19,
        version >= 3,
        0 <= i < j < 19,
        same_fold(bound_keys(keys)[i], bound_keys(keys)[j]),
    ensures
        normal_keys(keys, version) == default_keys(),
{
    assert(keys.update(17, keys[17]) =~= keys);
    lemma_default_keys(0);
}

} // verus!
