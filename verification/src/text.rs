//! Text primitives: what a string is, as a sequence of characters, and the
//! operations on such sequences that the rest of the library is stated over.
use vstd::prelude::*;

verus! {

// ---------------------------------------------------------------------------
// Characters
// ---------------------------------------------------------------------------

/// `String::push` appends one character to the end of the string.
pub assume_specification[ String::push ](s: &mut String, c: char)
    ensures
        final(s)@ == old(s)@.push(c),
;

/// The code points of Unicode's `White_Space` property.
pub open spec fn is_space(c: char) -> bool {
    let v = c as int;
    ||| 0x09 <= v <= 0x0d
    ||| v == 0x20
    ||| v == 0x85
    ||| v == 0xa0
    ||| v == 0x1680
    ||| 0x2000 <= v <= 0x200a
    ||| v == 0x2028
    ||| v == 0x2029
    ||| v == 0x202f
    ||| v == 0x205f
    ||| v == 0x3000
}

/// Whether a character is white space.
pub fn char_is_space(c: char) -> (r: bool)
    ensures
        r == is_space(c),
{
    let v: u32 = c as u32;
    (0x09 <= v && v <= 0x0d) || v == 0x20 || v == 0x85 || v == 0xa0 || v == 0x1680 || (0x2000 <= v
        && v <= 0x200a) || v == 0x2028 || v == 0x2029 || v == 0x202f || v == 0x205f || v == 0x3000
}

/// Whether a character is an ASCII decimal digit.
pub open spec fn is_digit(c: char) -> bool {
    '0' <= c && c <= '9'
}

/// Whether a character is an ASCII letter or digit.
pub open spec fn is_alnum(c: char) -> bool {
    ||| is_digit(c)
    ||| 'a' <= c && c <= 'z'
    ||| 'A' <= c && c <= 'Z'
}

/// Whether a character is an ASCII letter or digit.
pub fn char_is_alnum(c: char) -> (r: bool)
    ensures
        r == is_alnum(c),
{
    ('0' <= c && c <= '9') || ('a' <= c && c <= 'z') || ('A' <= c && c <= 'Z')
}

/// The value of an ASCII decimal digit.
pub open spec fn digit_value(c: char) -> int {
    c as int - '0' as int
}

/// The ASCII decimal digit of a value below ten.
pub open spec fn digit_of(d: int) -> char {
    ('0' as int + d) as char
}

/// ASCII lower case of one character; other characters are kept.
pub open spec fn lower_char(c: char) -> char {
    if 'A' <= c && c <= 'Z' {
        (c as int + 32) as char
    } else {
        c
    }
}

/// ASCII upper case of one character; other characters are kept.
pub open spec fn upper_char(c: char) -> char {
    if 'a' <= c && c <= 'z' {
        (c as int - 32) as char
    } else {
        c
    }
}

fn lower_one(c: char) -> (r: char)
    ensures
        r == lower_char(c),
{
    if 'A' <= c && c <= 'Z' {
        (c as u8 + 32) as char
    } else {
        c
    }
}

fn upper_one(c: char) -> (r: char)
    ensures
        r == upper_char(c),
{
    if 'a' <= c && c <= 'z' {
        (c as u8 - 32) as char
    } else {
        c
    }
}

// ---------------------------------------------------------------------------
// Strings as sequences
// ---------------------------------------------------------------------------

/// The characters of a string, in order.
pub fn chars_of(text: &str) -> (out: Vec<char>)
    ensures
        out@ == text@,
{
    let mut out: Vec<char> = Vec::new();
    for c in it: text.chars()
        invariant
            out@ == it.seq().take(it.index() as int),
            it.seq() == text@,
    {
        out.push(c);
    }
    out
}

/// The string made of the characters from `from` up to `to`.
pub fn string_between(chars: &Vec<char>, from: usize, to: usize) -> (out: String)
    requires
        from <= to <= chars.len(),
    ensures
        out@ == chars@.subrange(from as int, to as int),
{
    let mut out = String::new();
    let mut i: usize = from;
    while i < to
        invariant
            from <= i <= to <= chars.len(),
            out@ == chars@.subrange(from as int, i as int),
        decreases to - i,
    {
        out.push(chars[i]);
        i += 1;
    }
    out
}

/// The string made of the given characters.
pub fn string_of(chars: &Vec<char>) -> (out: String)
    ensures
        out@ == chars@,
{
    string_between(chars, 0, chars.len())
}

/// Whether two strings hold the same characters.
pub fn same_text(a: &str, b: &str) -> (same: bool)
    ensures
        same == (a@ == b@),
{
    a.to_owned() == b.to_owned()
}

/// What a list of strings holds.
pub open spec fn views(list: Seq<String>) -> Seq<Seq<char>> {
    Seq::new(list.len(), |i: int| list[i]@)
}

/// Appending a string appends what it holds.
pub broadcast proof fn lemma_views_push(list: Seq<String>, item: String)
    ensures
        #[trigger] views(list.push(item)) == views(list).push(item@),
{
    assert(views(list.push(item)) =~= views(list).push(item@));
}

/// Whether a list of strings holds the given text.
pub fn list_contains(list: &Vec<String>, text: &str) -> (found: bool)
    ensures
        found == views(list@).contains(text@),
{
    let mut i: usize = 0;
    while i < list.len()
        invariant
            i <= list.len(),
            forall|j: int| 0 <= j < i ==> views(list@)[j] != text@,
        decreases list.len() - i,
    {
        if same_text(list[i].as_str(), text) {
            assert(views(list@)[i as int] == text@);
            return true;
        }
        i += 1;
    }
    false
}

/// A copy of a list of strings.
pub fn clone_list(list: &Vec<String>) -> (out: Vec<String>)
    ensures
        out@ == list@,
{
    let mut out: Vec<String> = Vec::new();
    let mut i: usize = 0;
    while i < list.len()
        invariant
            i <= list.len(),
            out@ == list@.take(i as int),
        decreases list.len() - i,
    {
        out.push(list[i].clone());
        i += 1;
    }
    out
}

// ---------------------------------------------------------------------------
// Case
// ---------------------------------------------------------------------------

/// ASCII lower case of a text.
pub open spec fn lower(s: Seq<char>) -> Seq<char> {
    Seq::new(s.len(), |i: int| lower_char(s[i]))
}

/// ASCII upper case of a text.
pub open spec fn upper(s: Seq<char>) -> Seq<char> {
    Seq::new(s.len(), |i: int| upper_char(s[i]))
}

/// A copy in ASCII lower case.
pub fn to_lower(text: &str) -> (out: String)
    ensures
        out@ == lower(text@),
{
    let chars = chars_of(text);
    let mut out = String::new();
    let mut i: usize = 0;
    while i < chars.len()
        invariant
            i <= chars.len(),
            out@ == lower(chars@).take(i as int),
        decreases chars.len() - i,
    {
        out.push(lower_one(chars[i]));
        i += 1;
    }
    out
}

/// A copy in ASCII upper case.
pub fn to_upper(text: &str) -> (out: String)
    ensures
        out@ == upper(text@),
{
    let chars = chars_of(text);
    let mut out = String::new();
    let mut i: usize = 0;
    while i < chars.len()
        invariant
            i <= chars.len(),
            out@ == upper(chars@).take(i as int),
        decreases chars.len() - i,
    {
        out.push(upper_one(chars[i]));
        i += 1;
    }
    out
}

/// Whether two texts are the same up to ASCII case.
pub open spec fn same_fold(a: Seq<char>, b: Seq<char>) -> bool {
    lower(a) == lower(b)
}

/// Whether two strings are the same up to ASCII case.
pub fn same_ignoring_case(a: &str, b: &str) -> (same: bool)
    ensures
        same == same_fold(a@, b@),
{
    to_lower(a) == to_lower(b)
}

/// Being the same up to case is unaffected by upper-casing one side.
pub proof fn lemma_fold_upper(s: Seq<char>)
    ensures
        lower(upper(s)) == lower(s),
        upper(upper(s)) == upper(s),
        upper(lower(s)) == upper(s),
{
    assert(lower(upper(s)) =~= lower(s));
    assert(upper(upper(s)) =~= upper(s));
    assert(upper(lower(s)) =~= upper(s));
}

// ---------------------------------------------------------------------------
// Trimming
// ---------------------------------------------------------------------------

/// The text without its leading white space.
pub open spec fn trim_start(s: Seq<char>) -> Seq<char>
    decreases s.len(),
{
    if s.len() > 0 && is_space(s[0]) {
        trim_start(s.skip(1))
    } else {
        s
    }
}

/// The text without its trailing white space.
pub open spec fn trim_end(s: Seq<char>) -> Seq<char>
    decreases s.len(),
{
    if s.len() > 0 && is_space(s.last()) {
        trim_end(s.drop_last())
    } else {
        s
    }
}

/// The text without its leading and trailing white space.
pub open spec fn trimmed(s: Seq<char>) -> Seq<char> {
    trim_end(trim_start(s))
}

/// A copy without leading and trailing white space.
pub fn trim(text: &str) -> (out: String)
    ensures
        out@ == trimmed(text@),
{
    let chars = chars_of(text);
    let mut from: usize = 0;
    proof {
        assert(chars@.skip(0) =~= chars@);
    }
    while from < chars.len() && char_is_space(chars[from])
        invariant
            from <= chars.len(),
            trim_start(chars@.skip(from as int)) == trim_start(chars@),
        decreases chars.len() - from,
    {
        proof {
            assert(chars@.skip(from as int).skip(1) =~= chars@.skip(from as int + 1));
        }
        from += 1;
    }
    let mut to: usize = chars.len();
    proof {
        assert(trim_start(chars@) == chars@.skip(from as int));
        assert(chars@.skip(from as int) =~= chars@.subrange(from as int, to as int));
    }
    while from < to && char_is_space(chars[to - 1])
        invariant
            from <= to <= chars.len(),
            trim_end(chars@.subrange(from as int, to as int)) == trimmed(chars@),
        decreases to,
    {
        proof {
            let s = chars@.subrange(from as int, to as int);
            assert(s.last() == chars@[to - 1]);
            assert(s.drop_last() =~= chars@.subrange(from as int, to - 1));
        }
        to -= 1;
    }
    proof {
        let s = chars@.subrange(from as int, to as int);
        if from < to {
            assert(s.last() == chars@[to - 1]);
        }
    }
    string_between(&chars, from, to)
}

/// Trimming keeps nothing but a stretch of the text.
proof fn lemma_trim_start_shape(s: Seq<char>)
    ensures
        trim_start(s).len() <= s.len(),
        trim_start(s) == s.skip(s.len() - trim_start(s).len()),
        trim_start(s).len() > 0 ==> !is_space(trim_start(s)[0]),
    decreases s.len(),
{
    if s.len() > 0 && is_space(s[0]) {
        lemma_trim_start_shape(s.skip(1));
        assert(s.skip(1).skip(s.skip(1).len() - trim_start(s).len()) =~= s.skip(
            s.len() - trim_start(s).len(),
        ));
    } else {
        assert(s.skip(0) =~= s);
    }
}

/// What trailing trimming leaves.
proof fn lemma_trim_end_shape(s: Seq<char>)
    ensures
        trim_end(s).len() <= s.len(),
        trim_end(s) == s.take(trim_end(s).len() as int),
        trim_end(s).len() > 0 ==> !is_space(trim_end(s).last()),
    decreases s.len(),
{
    if s.len() > 0 && is_space(s.last()) {
        lemma_trim_end_shape(s.drop_last());
        assert(s.drop_last().take(trim_end(s).len() as int) =~= s.take(trim_end(s).len() as int));
    } else {
        assert(s.take(s.len() as int) =~= s);
    }
}

/// A trimmed text begins and ends with something other than white space, and
/// trimming it again changes nothing.
pub proof fn lemma_trimmed(s: Seq<char>)
    ensures
        trimmed(s).len() > 0 ==> !is_space(trimmed(s)[0]) && !is_space(trimmed(s).last()),
        trimmed(trimmed(s)) == trimmed(s),
{
    lemma_trim_start_shape(s);
    lemma_trim_end_shape(trim_start(s));
    let t = trimmed(s);
    if t.len() > 0 {
        assert(t[0] == trim_start(s)[0]);
    }
    assert(trim_start(t) == t);
}

// ---------------------------------------------------------------------------
// Searching
// ---------------------------------------------------------------------------

/// Whether `needle` stands in `hay` at `at`.
pub open spec fn occurs_at(hay: Seq<char>, needle: Seq<char>, at: int) -> bool {
    0 <= at && at + needle.len() <= hay.len() && hay.subrange(at, at + needle.len()) == needle
}

/// Whether `needle` stands somewhere in `hay`.
pub open spec fn has_text(hay: Seq<char>, needle: Seq<char>) -> bool {
    exists|at: int| occurs_at(hay, needle, at)
}

/// What stands in a text stands in every text that is made longer.
pub proof fn lemma_text_stays(before: Seq<char>, hay: Seq<char>, after: Seq<char>, needle: Seq<char>)
    requires
        has_text(hay, needle),
    ensures
        has_text(before + hay + after, needle),
{
    let at = choose|at: int| occurs_at(hay, needle, at);
    let all = before + hay + after;
    let there = before.len() + at;
    assert(all.subrange(there, there + needle.len()) =~= hay.subrange(at, at + needle.len()));
    assert(occurs_at(all, needle, there));
}

/// Every text stands in itself.
pub proof fn lemma_text_has_itself(text: Seq<char>)
    ensures
        has_text(text, text),
{
    assert(text.subrange(0, text.len() as int) =~= text);
    assert(occurs_at(text, text, 0));
}

/// Whether `needle` stands in `hay` at `at`.
pub fn chars_occur_at(hay: &Vec<char>, needle: &Vec<char>, at: usize) -> (r: bool)
    requires
        at <= hay.len(),
    ensures
        r == occurs_at(hay@, needle@, at as int),
{
    if needle.len() > hay.len() - at {
        return false;
    }
    let mut i: usize = 0;
    while i < needle.len()
        invariant
            i <= needle.len(),
            at + needle.len() <= hay.len(),
            forall|j: int| 0 <= j < i ==> hay@[at + j] == needle@[j],
        decreases needle.len() - i,
    {
        if hay[at + i] != needle[i] {
            proof {
                let sub = hay@.subrange(at as int, at + needle@.len());
                assert(sub[i as int] == hay@[at + i]);
            }
            return false;
        }
        i += 1;
    }
    assert(hay@.subrange(at as int, at + needle@.len()) =~= needle@);
    true
}

/// Whether `needle` stands somewhere in `hay`.
pub fn contains_text(hay: &str, needle: &str) -> (found: bool)
    ensures
        found == has_text(hay@, needle@),
{
    let hay_chars = chars_of(hay);
    let needle_chars = chars_of(needle);
    let mut at: usize = 0;
    while at <= hay_chars.len() && needle_chars.len() <= hay_chars.len() - at
        invariant
            at <= hay_chars.len() + 1,
            hay_chars@ == hay@,
            needle_chars@ == needle@,
            forall|j: int| 0 <= j < at ==> !occurs_at(hay@, needle@, j),
        decreases hay_chars.len() + 1 - at,
    {
        if chars_occur_at(&hay_chars, &needle_chars, at) {
            return true;
        }
        if at == hay_chars.len() {
            assert(forall|j: int| !occurs_at(hay@, needle@, j));
            return false;
        }
        at += 1;
    }
    false
}

/// Whether `text` begins with `prefix`.
pub open spec fn begins_with(text: Seq<char>, prefix: Seq<char>) -> bool {
    occurs_at(text, prefix, 0)
}

/// Whether `text` ends with `suffix`.
pub open spec fn ends_in(text: Seq<char>, suffix: Seq<char>) -> bool {
    occurs_at(text, suffix, text.len() - suffix.len())
}

/// Whether `text` begins with `prefix`.
pub fn starts_with(text: &str, prefix: &str) -> (r: bool)
    ensures
        r == begins_with(text@, prefix@),
{
    let a = chars_of(text);
    let b = chars_of(prefix);
    chars_occur_at(&a, &b, 0)
}

/// Whether `text` ends with `suffix`.
pub fn ends_with(text: &str, suffix: &str) -> (r: bool)
    ensures
        r == ends_in(text@, suffix@),
{
    let a = chars_of(text);
    let b = chars_of(suffix);
    if b.len() > a.len() {
        return false;
    }
    chars_occur_at(&a, &b, a.len() - b.len())
}

// ---------------------------------------------------------------------------
// Splitting, joining and replacing
// ---------------------------------------------------------------------------

/// The pieces of a text between occurrences of a separator. There is one more
/// piece than there are separators.
pub open spec fn pieces(s: Seq<char>, sep: char) -> Seq<Seq<char>>
    decreases s.len(),
{
    if s.len() == 0 {
        seq![Seq::<char>::empty()]
    } else {
        let before = pieces(s.drop_last(), sep);
        if s.last() == sep {
            before.push(Seq::<char>::empty())
        } else {
            before.drop_last().push(before.last().push(s.last()))
        }
    }
}

/// There is always at least one piece.
pub proof fn lemma_pieces_nonempty(s: Seq<char>, sep: char)
    ensures
        pieces(s, sep).len() >= 1,
    decreases s.len(),
{
    if s.len() > 0 {
        lemma_pieces_nonempty(s.drop_last(), sep);
    }
}

/// The pieces of a text between occurrences of a separator.
pub fn split(text: &str, sep: char) -> (out: Vec<String>)
    ensures
        views(out@) == pieces(text@, sep),
{
    broadcast use lemma_views_push;

    let chars = chars_of(text);
    let mut out: Vec<String> = Vec::new();
    let mut current = String::new();
    let mut i: usize = 0;
    assert(views(out@).push(current@) =~= pieces(chars@.take(0), sep));
    while i < chars.len()
        invariant
            i <= chars.len(),
            views(out@).push(current@) == pieces(chars@.take(i as int), sep),
        decreases chars.len() - i,
    {
        proof {
            let next = chars@.take(i + 1);
            assert(next.drop_last() =~= chars@.take(i as int));
            assert(next.last() == chars@[i as int]);
            assert(views(out@).push(current@).drop_last() =~= views(out@));
        }
        if chars[i] == sep {
            out.push(current);
            current = String::new();
        } else {
            current.push(chars[i]);
        }
        i += 1;
    }
    assert(chars@.take(chars.len() as int) =~= chars@);
    out.push(current);
    out
}

/// The words completed by the end of a text, and the word still open there.
pub open spec fn word_state(s: Seq<char>) -> (Seq<Seq<char>>, Seq<char>)
    decreases s.len(),
{
    if s.len() == 0 {
        (Seq::empty(), Seq::empty())
    } else {
        let (done, open) = word_state(s.drop_last());
        if is_space(s.last()) {
            (close_word(done, open), Seq::empty())
        } else {
            (done, open.push(s.last()))
        }
    }
}

/// The words with the open word added, unless that is empty.
pub open spec fn close_word(done: Seq<Seq<char>>, open: Seq<char>) -> Seq<Seq<char>> {
    if open.len() > 0 {
        done.push(open)
    } else {
        done
    }
}

/// The stretches of a text between white space, without the empty ones.
pub open spec fn words(s: Seq<char>) -> Seq<Seq<char>> {
    close_word(word_state(s).0, word_state(s).1)
}

/// The stretches of a text between white space, without the empty ones.
pub fn split_words(text: &str) -> (out: Vec<String>)
    ensures
        views(out@) == words(text@),
{
    broadcast use lemma_views_push;

    let chars = chars_of(text);
    let mut out: Vec<String> = Vec::new();
    let mut current: Vec<char> = Vec::new();
    let mut i: usize = 0;
    assert(views(out@) =~= Seq::empty());
    while i < chars.len()
        invariant
            i <= chars.len(),
            word_state(chars@.take(i as int)) == (views(out@), current@),
        decreases chars.len() - i,
    {
        proof {
            let next = chars@.take(i + 1);
            assert(next.drop_last() =~= chars@.take(i as int));
            assert(next.last() == chars@[i as int]);
        }
        if char_is_space(chars[i]) {
            if current.len() > 0 {
                out.push(string_of(&current));
            }
            current = Vec::new();
        } else {
            current.push(chars[i]);
        }
        i += 1;
    }
    assert(chars@.take(chars.len() as int) =~= chars@);
    if current.len() > 0 {
        out.push(string_of(&current));
    }
    out
}

/// The parts one after another with the separator between them.
pub open spec fn joined(parts: Seq<Seq<char>>, sep: Seq<char>) -> Seq<char>
    decreases parts.len(),
{
    if parts.len() == 0 {
        Seq::empty()
    } else if parts.len() == 1 {
        parts[0]
    } else {
        joined(parts.drop_last(), sep) + sep + parts.last()
    }
}

/// The parts one after another with the separator between them.
pub fn join(parts: &Vec<String>, sep: &str) -> (out: String)
    ensures
        out@ == joined(views(parts@), sep@),
{
    let mut out = String::new();
    let mut i: usize = 0;
    assert(views(parts@).take(0) =~= Seq::empty());
    while i < parts.len()
        invariant
            i <= parts.len(),
            out@ == joined(views(parts@).take(i as int), sep@),
        decreases parts.len() - i,
    {
        proof {
            let next = views(parts@).take(i + 1);
            assert(next.drop_last() =~= views(parts@).take(i as int));
            assert(next.last() == parts@[i as int]@);
            if i == 0 {
                assert(next[0] == parts@[0]@);
                assert(Seq::<char>::empty() + parts@[0]@ =~= parts@[0]@);
            }
        }
        if i > 0 {
            out.append(sep);
        }
        out.append(parts[i].as_str());
        i += 1;
    }
    assert(views(parts@).take(parts.len() as int) =~= views(parts@));
    out
}

/// A text in which every character of `from` is replaced by `to`.
pub open spec fn replaced(s: Seq<char>, from: Seq<char>, to: char) -> Seq<char> {
    Seq::new(
        s.len(),
        |i: int|
            if from.contains(s[i]) {
                to
            } else {
                s[i]
            },
    )
}

/// A copy in which every character of `from` is replaced by `to`.
pub fn replace_chars(text: &str, from: &str, to: char) -> (out: String)
    ensures
        out@ == replaced(text@, from@, to),
{
    let chars = chars_of(text);
    let set = chars_of(from);
    let mut out = String::new();
    let mut i: usize = 0;
    while i < chars.len()
        invariant
            i <= chars.len(),
            chars@ == text@,
            set@ == from@,
            out@ == replaced(text@, from@, to).take(i as int),
        decreases chars.len() - i,
    {
        if char_in(chars[i], &set) {
            out.push(to);
        } else {
            out.push(chars[i]);
        }
        i += 1;
    }
    out
}

/// Whether a character is one of the given ones.
pub fn char_in(c: char, set: &Vec<char>) -> (r: bool)
    ensures
        r == set@.contains(c),
{
    let mut i: usize = 0;
    while i < set.len()
        invariant
            i <= set.len(),
            forall|j: int| 0 <= j < i ==> set@[j] != c,
        decreases set.len() - i,
    {
        if set[i] == c {
            assert(set@[i as int] == c);
            return true;
        }
        i += 1;
    }
    false
}

/// A text without the characters of `drop`.
pub open spec fn without(s: Seq<char>, drop: Seq<char>) -> Seq<char>
    decreases s.len(),
{
    if s.len() == 0 {
        Seq::empty()
    } else if drop.contains(s.last()) {
        without(s.drop_last(), drop)
    } else {
        without(s.drop_last(), drop).push(s.last())
    }
}

/// A copy without the characters of `drop`.
pub fn remove_chars(text: &str, drop: &str) -> (out: String)
    ensures
        out@ == without(text@, drop@),
{
    let chars = chars_of(text);
    let set = chars_of(drop);
    let mut out = String::new();
    let mut i: usize = 0;
    while i < chars.len()
        invariant
            i <= chars.len(),
            chars@ == text@,
            set@ == drop@,
            out@ == without(text@.take(i as int), drop@),
        decreases chars.len() - i,
    {
        proof {
            let next = text@.take(i + 1);
            assert(next.drop_last() =~= text@.take(i as int));
            assert(next.last() == text@[i as int]);
        }
        if !char_in(chars[i], &set) {
            out.push(chars[i]);
        }
        i += 1;
    }
    assert(text@.take(chars.len() as int) =~= text@);
    out
}

/// A text with every occurrence of another, from the left, replaced.
pub open spec fn with_replaced(text: Seq<char>, from: Seq<char>, to: Seq<char>) -> Seq<char>
    decreases text.len(),
{
    if text.len() == 0 || from.len() == 0 {
        text
    } else if occurs_at(text, from, 0) {
        to + with_replaced(text.skip(from.len() as int), from, to)
    } else {
        seq![text[0]] + with_replaced(text.skip(1), from, to)
    }
}

/// Where no occurrence of a text crosses from one text into the next, replacing
/// it goes through the two one after the other.
pub proof fn lemma_replaced_apart(a: Seq<char>, b: Seq<char>, from: Seq<char>, to: Seq<char>)
    requires
        from.len() > 0,
        forall|i: int|
            0 <= i < a.len() && a.len() < i + from.len() ==> !#[trigger] occurs_at(a + b, from, i),
    ensures
        with_replaced(a + b, from, to) == with_replaced(a, from, to) + with_replaced(b, from, to),
    decreases a.len(),
{
    let all = a + b;
    if a.len() == 0 {
        assert(all =~= b);
        assert(with_replaced(a, from, to) + with_replaced(b, from, to) =~= with_replaced(
            b,
            from,
            to,
        ));
    } else {
        let n = from.len() as int;
        if occurs_at(all, from, 0) {
            assert(n <= a.len());
            assert(all.subrange(0, n) =~= a.subrange(0, n));
            let rest = a.skip(n);
            assert(all.skip(n) =~= rest + b);
            assert forall|i: int| 0 <= i < rest.len() && rest.len() < i + n implies
                !#[trigger] occurs_at(rest + b, from, i) by {
                assert((rest + b).subrange(i, i + n) =~= all.subrange(i + n, i + n + n) || i + n
                    > (rest + b).len());
                assert(!occurs_at(all, from, i + n));
            }
            lemma_replaced_apart(rest, b, from, to);
            assert(to + (with_replaced(rest, from, to) + with_replaced(b, from, to)) =~= (to
                + with_replaced(rest, from, to)) + with_replaced(b, from, to));
        } else {
            if n <= a.len() {
                assert(all.subrange(0, n) =~= a.subrange(0, n));
            }
            let rest = a.skip(1);
            assert(all.skip(1) =~= rest + b);
            assert forall|i: int| 0 <= i < rest.len() && rest.len() < i + n implies
                !#[trigger] occurs_at(rest + b, from, i) by {
                assert((rest + b).subrange(i, i + n) =~= all.subrange(i + 1, i + 1 + n) || i + n
                    > (rest + b).len());
                assert(!occurs_at(all, from, i + 1));
            }
            lemma_replaced_apart(rest, b, from, to);
            assert(seq![a[0]] + (with_replaced(rest, from, to) + with_replaced(b, from, to)) =~= (
            seq![a[0]] + with_replaced(rest, from, to)) + with_replaced(b, from, to));
        }
    }
}

/// A text in which another does not start anywhere stays as it is.
pub proof fn lemma_nothing_replaced(text: Seq<char>, from: Seq<char>, to: Seq<char>)
    requires
        forall|i: int| 0 <= i < text.len() ==> !#[trigger] occurs_at(text, from, i),
    ensures
        with_replaced(text, from, to) == text,
    decreases text.len(),
{
    if text.len() > 0 && from.len() > 0 {
        let rest = text.skip(1);
        assert forall|i: int| 0 <= i < rest.len() implies !#[trigger] occurs_at(rest, from, i) by {
            assert(!occurs_at(text, from, i + 1));
            if i + from.len() <= rest.len() {
                assert(rest.subrange(i, i + from.len()) =~= text.subrange(
                    i + 1,
                    i + 1 + from.len(),
                ));
            }
        }
        assert(!occurs_at(text, from, 0));
        lemma_nothing_replaced(rest, from, to);
        assert(seq![text[0]] + rest =~= text);
    }
}

/// A text with every occurrence of another, from the left, replaced.
pub fn replace_text(text: &str, from: &str, to: &str) -> (out: String)
    ensures
        out@ == with_replaced(text@, from@, to@),
{
    let chars = chars_of(text);
    let wanted = chars_of(from);
    if wanted.len() == 0 {
        return text.to_owned();
    }
    let mut out = String::new();
    let mut i: usize = 0;
    proof {
        assert(chars@.skip(0) =~= chars@);
        assert(out@ + with_replaced(chars@, from@, to@) =~= with_replaced(chars@, from@, to@));
    }
    while i < chars.len()
        invariant
            i <= chars.len(),
            wanted@ == from@,
            wanted.len() > 0,
            out@ + with_replaced(chars@.skip(i as int), from@, to@) == with_replaced(
                chars@,
                from@,
                to@,
            ),
        decreases chars.len() - i,
    {
        let ghost rest = chars@.skip(i as int);
        let ghost before = out@;
        let here = chars_occur_at(&chars, &wanted, i);
        proof {
            lemma_occurs_in_rest(chars@, from@, i as int);
        }
        if here {
            out.append(to);
            proof {
                assert(rest.skip(from@.len() as int) =~= chars@.skip(i + from@.len()));
                assert(before + (to@ + with_replaced(chars@.skip(i + from@.len()), from@, to@))
                    =~= (before + to@) + with_replaced(chars@.skip(i + from@.len()), from@, to@));
            }
            i += wanted.len();
        } else {
            out.push(chars[i]);
            proof {
                assert(rest[0] == chars@[i as int]);
                assert(rest.skip(1) =~= chars@.skip(i + 1));
                assert(before + (seq![chars@[i as int]] + with_replaced(
                    chars@.skip(i + 1),
                    from@,
                    to@,
                )) =~= before.push(chars@[i as int]) + with_replaced(
                    chars@.skip(i + 1),
                    from@,
                    to@,
                ));
            }
            i += 1;
        }
    }
    proof {
        assert(chars@.skip(i as int) =~= Seq::empty());
        assert(out@ + Seq::<char>::empty() =~= out@);
    }
    out
}

proof fn lemma_occurs_in_rest(hay: Seq<char>, needle: Seq<char>, at: int)
    requires
        0 <= at <= hay.len(),
    ensures
        occurs_at(hay, needle, at) == occurs_at(hay.skip(at), needle, 0),
{
    if at + needle.len() <= hay.len() {
        assert(hay.subrange(at, at + needle.len()) =~= hay.skip(at).subrange(
            0,
            needle.len() as int,
        ));
    }
}

/// What a text is parted into has no separator in it, and makes the text again when the
/// separators are put back.
pub proof fn law_pieces_make_the_text(s: Seq<char>, sep: char)
    ensures
        pieces(s, sep).len() >= 1,
        joined(pieces(s, sep), seq![sep]) == s,
        forall|i: int| 0 <= i < pieces(s, sep).len() ==> !(#[trigger] pieces(s, sep)[i]).contains(sep),
    decreases s.len(),
{
    if s.len() == 0 {
        assert(pieces(s, sep)[0] == Seq::<char>::empty());
        assert(joined(pieces(s, sep), seq![sep]) =~= s);
    } else {
        let rest = s.drop_last();
        let before = pieces(rest, sep);
        let out = pieces(s, sep);
        law_pieces_make_the_text(rest, sep);
        if s.last() == sep {
            assert(out.drop_last() =~= before);
            assert(joined(out, seq![sep]) =~= joined(before, seq![sep]) + seq![sep]
                + Seq::<char>::empty());
            assert(joined(out, seq![sep]) =~= s);
            assert forall|i: int| 0 <= i < out.len() implies !(#[trigger] out[i]).contains(sep) by {
                if i < before.len() {
                    assert(out[i] == before[i]);
                }
            }
        } else {
            assert(out.drop_last() =~= before.drop_last());
            assert(out.last() == before.last().push(s.last()));
            if before.len() == 1 {
                assert(joined(out, seq![sep]) == out[0]);
                assert(joined(before, seq![sep]) == before[0]);
            }
            assert(joined(out, seq![sep]) =~= joined(before, seq![sep]).push(s.last()));
            assert(joined(out, seq![sep]) =~= s);
            assert forall|i: int| 0 <= i < out.len() implies !(#[trigger] out[i]).contains(sep) by {
                if i < before.len() - 1 {
                    assert(out[i] == before[i]);
                } else {
                    let last = before[before.len() - 1];
                    assert(out[i] == last.push(s.last()));
                    if out[i].contains(sep) {
                        let k = choose|k: int| 0 <= k < out[i].len() && out[i][k] == sep;
                        assert(last[k] == sep);
                    }
                }
            }
        }
    }
}

/// The words of a text hold no space and are never empty.
pub proof fn law_words_are_parted_by_space(s: Seq<char>, w: int, k: int)
    requires
        0 <= w < words(s).len(),
    ensures
        words(s)[w].len() > 0,
        0 <= k < words(s)[w].len() ==> !is_space(words(s)[w][k]),
{
    lemma_words_so_far(s);
    let (done, open) = word_state(s);
    if w < done.len() {
        assert(words(s)[w] == done[w]);
    } else {
        assert(words(s)[w] == open);
    }
}

proof fn lemma_words_so_far(s: Seq<char>)
    ensures
        forall|w: int| 0 <= w < word_state(s).0.len() ==> (#[trigger] word_state(s).0[w]).len() > 0,
        forall|w: int, k: int|
            0 <= w < word_state(s).0.len() && 0 <= k < word_state(s).0[w].len() ==> !is_space(
                #[trigger] word_state(s).0[w][k],
            ),
        forall|k: int|
            0 <= k < word_state(s).1.len() ==> !is_space(#[trigger] word_state(s).1[k]),
    decreases s.len(),
{
    if s.len() > 0 {
        lemma_words_so_far(s.drop_last());
        let (done, open) = word_state(s.drop_last());
        let now = word_state(s).0;
        assert forall|w: int| 0 <= w < now.len() implies (#[trigger] now[w]).len() > 0 && (forall|
            k: int,
        |
            0 <= k < now[w].len() ==> !is_space(#[trigger] now[w][k])) by {
            if w < done.len() {
                assert(now[w] == done[w]);
                assert(word_state(s.drop_last()).0[w].len() > 0);
                assert forall|k: int| 0 <= k < now[w].len() implies !is_space(
                    #[trigger] now[w][k],
                ) by {
                    assert(!is_space(word_state(s.drop_last()).0[w][k]));
                }
            } else {
                assert(now[w] == open);
                assert forall|k: int| 0 <= k < now[w].len() implies !is_space(
                    #[trigger] now[w][k],
                ) by {
                    assert(!is_space(word_state(s.drop_last()).1[k]));
                }
            }
        }
        assert forall|w: int, k: int|
            0 <= w < word_state(s).0.len() && 0 <= k < word_state(s).0[w].len() implies !is_space(
            #[trigger] word_state(s).0[w][k],
        ) by {
            assert(now[w].len() > 0);
        }
    }
}

/// Letters without accents have their small and large forms; all else stays.
pub proof fn law_letters_change_case(c: char)
    ensures
        'A' <= c <= 'Z' ==> 'a' <= lower_char(c) <= 'z' && upper_char(lower_char(c)) == c,
        'a' <= c <= 'z' ==> 'A' <= upper_char(c) <= 'Z' && lower_char(upper_char(c)) == c,
        !('A' <= c <= 'Z') ==> lower_char(c) == c,
        !('a' <= c <= 'z') ==> upper_char(c) == c,
        lower_char('Q') == 'q' && upper_char('q') == 'Q',
{
}

} // verus!
