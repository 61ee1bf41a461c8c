//! How demos, recordings and clips are told apart: by digests of what they hold.
use sha2::{Digest, Sha256};
use vstd::prelude::*;
use vstd::utf8::{
    decode_utf8, encode_utf8, encode_utf8_decode_utf8, encode_utf8_valid_utf8, is_ascii_chars,
    is_ascii_chars_encode_utf8, is_char_boundary, is_char_boundary_iff_not_is_continuation_byte,
    is_char_boundary_start_end_of_seq, is_continuation_byte,
};
use crate::models::Candidate;
use crate::number::{i64_text, int_text, law_written_numbers_read_back, nat_text, u64_text};
use crate::text::{join, joined, replace_chars, replaced, views};

verus! {

// ---------------------------------------------------------------------------
// Digests
// ---------------------------------------------------------------------------

/// The SHA-256 digest of bytes, as `sha2::Sha256` gives it.
pub uninterp spec fn sha256(data: Seq<u8>) -> Seq<u8>;

/// Wraps `sha2::Sha256::digest`: the result is the digest of the bytes, which
/// depends on them alone and has 32 bytes. Nothing more is said of it.
#[verifier::external_body]
fn sha256_of(data: &Vec<u8>) -> (out: Vec<u8>)
    ensures
        out@ == sha256(data@),
        out@.len() == 32,
{
    Sha256::digest(data.as_slice()).to_vec()
}

/// A digit of a hexadecimal number.
pub open spec fn hex_digit(n: int) -> char {
    if n < 10 {
        (48 + n) as char
    } else {
        (87 + n) as char
    }
}

/// Bytes as a hexadecimal number, two small digits for each.
pub open spec fn hex_text(bytes: Seq<u8>) -> Seq<char> {
    Seq::new(
        2 * bytes.len(),
        |i: int|
            hex_digit(
                if i % 2 == 0 {
                    bytes[i / 2] as int / 16
                } else {
                    bytes[i / 2] as int % 16
                },
            ),
    )
}

/// Wraps `hex::encode`: each byte becomes two hexadecimal digits, the higher one
/// first, with small letters.
#[verifier::external_body]
fn hex_of(bytes: &Vec<u8>) -> (out: String)
    ensures
        out@ == hex_text(bytes@),
{
    hex::encode(bytes.as_slice())
}

/// The digest of bytes as a hexadecimal number.
pub open spec fn digest_text(data: Seq<u8>) -> Seq<char> {
    hex_text(sha256(data))
}

/// The digest of bytes as a hexadecimal number.
pub fn digest(data: &Vec<u8>) -> (out: String)
    ensures
        out@ == digest_text(data@),
{
    hex_of(&sha256_of(data))
}

fn add_bytes(out: &mut Vec<u8>, more: &[u8])
    ensures
        final(out)@ == old(out)@ + more@,
{
    let ghost before = out@;
    let mut i: usize = 0;
    assert(before + more@.take(0) =~= before);
    while i < more.len()
        invariant
            i <= more.len(),
            out@ == before + more@.take(i as int),
        decreases more.len() - i,
    {
        out.push(more[i]);
        assert(before + more@.take(i + 1) =~= (before + more@.take(i as int)).push(
            more@[i as int],
        ));
        i += 1;
    }
    assert(more@.take(more.len() as int) =~= more@);
}

/// A number in eight bytes, the lowest first.
pub open spec fn eight_bytes(v: int) -> Seq<u8> {
    seq![
        (v % 256) as u8,
        (v / 0x100 % 256) as u8,
        (v / 0x1_0000 % 256) as u8,
        (v / 0x100_0000 % 256) as u8,
        (v / 0x1_0000_0000 % 256) as u8,
        (v / 0x100_0000_0000 % 256) as u8,
        (v / 0x1_0000_0000_0000 % 256) as u8,
        (v / 0x100_0000_0000_0000 % 256) as u8,
    ]
}

/// A number that may be negative as one that is not, in the range of eight bytes.
pub open spec fn unsigned(v: i64) -> int {
    if v < 0 {
        v + 0x1_0000_0000_0000_0000
    } else {
        v as int
    }
}

fn add_number(out: &mut Vec<u8>, v: u64)
    ensures
        final(out)@ == old(out)@ + eight_bytes(v as int),
{
    let ghost before = out@;
    out.push((v % 256) as u8);
    out.push((v / 0x100 % 256) as u8);
    out.push((v / 0x1_0000 % 256) as u8);
    out.push((v / 0x100_0000 % 256) as u8);
    out.push((v / 0x1_0000_0000 % 256) as u8);
    out.push((v / 0x100_0000_0000 % 256) as u8);
    out.push((v / 0x1_0000_0000_0000 % 256) as u8);
    out.push((v / 0x100_0000_0000_0000 % 256) as u8);
    assert(out@ =~= before + eight_bytes(v as int));
}

fn to_unsigned(v: i64) -> (out: u64)
    ensures
        out == unsigned(v),
{
    if v < 0 {
        (v as i128 + 0x1_0000_0000_0000_0000) as u64
    } else {
        v as u64
    }
}

// ---------------------------------------------------------------------------
// Demos and files
// ---------------------------------------------------------------------------

/// What tells a demo from others, from its length and its first megabyte.
pub fn demo_signature(length: u64, head: &Vec<u8>) -> (out: String)
    ensures
        out@ == digest_text(eight_bytes(length as int) + head@),
{
    let mut data: Vec<u8> = Vec::new();
    add_number(&mut data, length);
    add_bytes(&mut data, head.as_slice());
    assert(data@ =~= eight_bytes(length as int) + head@);
    digest(&data)
}

/// Bytes that may be missing.
pub open spec fn optional_bytes(bytes: Option<Vec<u8>>) -> Seq<u8> {
    match bytes {
        Some(bytes) => bytes@,
        None => Seq::empty(),
    }
}

/// What tells a demo from others wherever it lies: its length, with a digest of
/// its start, its end and its length.
pub open spec fn portable_signature(length: nat, head: Seq<u8>, tail: Seq<u8>) -> Seq<char> {
    nat_text(length) + ":"@ + digest_text(head + tail + encode_utf8(nat_text(length)))
}

/// What tells a demo from others wherever it lies. The end is there only of a
/// demo that is longer than its start.
pub fn portable_demo_signature(length: u64, head: &Vec<u8>, tail: &Option<Vec<u8>>) -> (out: String)
    ensures
        out@ == portable_signature(length as nat, head@, optional_bytes(*tail)),
{
    let size = u64_text(length);
    let mut data: Vec<u8> = Vec::new();
    add_bytes(&mut data, head.as_slice());
    assert(data@ =~= head@);
    match tail {
        Some(tail) => {
            add_bytes(&mut data, tail.as_slice());
        },
        None => {
            assert(head@ + Seq::<u8>::empty() =~= head@);
        },
    }
    add_bytes(&mut data, size.as_str().as_bytes());
    let mut out = size;
    out.append(":");
    out.append(digest(&data).as_str());
    out
}

/// What tells a file from others: a digest of all of it.
pub fn file_fingerprint(content: &Vec<u8>) -> (out: String)
    ensures
        out@ == digest_text(content@),
{
    digest(content)
}

/// What is looked at of a file of a recording: its name below the recording, its
/// length, its start, and its end where it is longer than its start.
#[derive(Debug)]
pub struct FileSample {
    pub relative: String,
    pub length: u64,
    pub head: Vec<u8>,
    pub tail: Option<Vec<u8>>,
}

impl FileSample {
    /// The bytes of the file that are looked at.
    pub open spec fn bytes(&self) -> Seq<u8> {
        encode_utf8(replaced(self.relative@, "\\"@, '/')) + eight_bytes(self.length as int)
            + self.head@ + optional_bytes(self.tail)
    }
}

/// The bytes of files that are looked at, one after another.
pub open spec fn sampled_bytes(files: Seq<FileSample>) -> Seq<u8>
    decreases files.len(),
{
    if files.len() == 0 {
        Seq::empty()
    } else {
        sampled_bytes(files.drop_last()) + files.last().bytes()
    }
}

/// What tells a recording of several files from others.
pub fn output_fingerprint(files: &Vec<FileSample>) -> (out: String)
    ensures
        out@ == digest_text(sampled_bytes(files@)),
{
    let mut data: Vec<u8> = Vec::new();
    let mut i: usize = 0;
    assert(data@ =~= sampled_bytes(files@.take(0)));
    while i < files.len()
        invariant
            i <= files.len(),
            data@ == sampled_bytes(files@.take(i as int)),
        decreases files.len() - i,
    {
        let file = &files[i];
        let ghost before = data@;
        proof {
            assert(files@.take(i + 1).drop_last() =~= files@.take(i as int));
            assert(files@.take(i + 1).last() == files@[i as int]);
        }
        let name = replace_chars(file.relative.as_str(), "\\", '/');
        add_bytes(&mut data, name.as_str().as_bytes());
        add_number(&mut data, file.length);
        add_bytes(&mut data, file.head.as_slice());
        if let Some(tail) = &file.tail {
            add_bytes(&mut data, tail.as_slice());
        }
        assert(data@ =~= before + file.bytes());
        i += 1;
    }
    assert(files@.take(files.len() as int) =~= files@);
    digest(&data)
}

// ---------------------------------------------------------------------------
// Clips
// ---------------------------------------------------------------------------

/// Ticks as texts.
pub open spec fn tick_texts(ticks: Seq<i64>) -> Seq<Seq<char>> {
    Seq::new(ticks.len(), |i: int| int_text(ticks[i] as int))
}

/// What a clip is known by: the demo, the player, and the kills or, where there
/// are none, the clip itself.
pub open spec fn identity(candidate: Candidate, demo: Seq<char>) -> Seq<Seq<char>> {
    let who = seq!["v1"@, demo, int_text(candidate.attacker_user_id as int)];
    if candidate.point_of_kill_ticks.len() == 0 {
        who + seq![
            int_text(candidate.clip_start_tick as int),
            int_text(candidate.clip_end_tick as int),
        ]
    } else {
        who + tick_texts(candidate.point_of_kill_ticks@)
    }
}

/// The key that a clip is recorded under.
pub open spec fn key_of(candidate: Candidate, demo: Seq<char>) -> Seq<char> {
    digest_text(encode_utf8(joined(identity(candidate, demo), "|"@)))
}

/// The key that a clip is recorded under, where its demo is known.
pub fn recording_key(candidate: &Candidate, demo: &str) -> (out: String)
    ensures
        out@ == key_of(*candidate, demo@),
{
    let mut parts: Vec<String> = Vec::new();
    parts.push("v1".to_owned());
    parts.push(demo.to_owned());
    parts.push(i64_text(candidate.attacker_user_id));
    let ghost who = seq!["v1"@, demo@, int_text(candidate.attacker_user_id as int)];
    assert(views(parts@) =~= who);
    if candidate.point_of_kill_ticks.len() == 0 {
        parts.push(i64_text(candidate.clip_start_tick));
        parts.push(i64_text(candidate.clip_end_tick));
    } else {
        let ticks = &candidate.point_of_kill_ticks;
        let ghost texts = tick_texts(ticks@);
        let mut i: usize = 0;
        assert(who + texts.take(0) =~= who);
        while i < ticks.len()
            invariant
                i <= ticks.len(),
                texts == tick_texts(ticks@),
                views(parts@) == who + texts.take(i as int),
            decreases ticks.len() - i,
        {
            let ghost before = views(parts@);
            parts.push(i64_text(ticks[i]));
            proof {
                assert(views(parts@) =~= before.push(texts[i as int]));
                assert(who + texts.take(i + 1) =~= (who + texts.take(i as int)).push(
                    texts[i as int],
                ));
            }
            i += 1;
        }
        assert(texts.take(ticks.len() as int) =~= texts);
    }
    assert(views(parts@) =~= identity(*candidate, demo@));
    let text = join(&parts, "|");
    let mut data: Vec<u8> = Vec::new();
    add_bytes(&mut data, text.as_str().as_bytes());
    assert(data@ =~= encode_utf8(text@));
    digest(&data)
}

/// The key that a clip was recorded under before.
pub open spec fn legacy_key_of(candidate: Candidate, demo: Seq<char>) -> Seq<char> {
    digest_text(
        encode_utf8(demo) + eight_bytes(unsigned(candidate.clip_start_tick)) + eight_bytes(
            unsigned(candidate.clip_end_tick),
        ) + eight_bytes(unsigned(candidate.attacker_user_id)),
    )
}

/// The key that a clip was recorded under before.
pub fn legacy_recording_key(candidate: &Candidate, demo: &str) -> (out: String)
    ensures
        out@ == legacy_key_of(*candidate, demo@),
{
    let mut data: Vec<u8> = Vec::new();
    add_bytes(&mut data, demo.as_bytes());
    assert(data@ =~= encode_utf8(demo@));
    add_number(&mut data, to_unsigned(candidate.clip_start_tick));
    add_number(&mut data, to_unsigned(candidate.clip_end_tick));
    add_number(&mut data, to_unsigned(candidate.attacker_user_id));
    digest(&data)
}

/// The first 24 bytes of a text, where it can be cut there; else all of it.
pub open spec fn token_of(key: Seq<char>) -> Seq<char> {
    let bytes = encode_utf8(key);
    if is_char_boundary(bytes, 24) {
        decode_utf8(bytes.subrange(0, 24))
    } else {
        key
    }
}

/// The part of a key that stands in names.
pub fn recording_key_token(key: &str) -> (out: &str)
    ensures
        out@ == token_of(key@),
{
    if key.is_char_boundary(24) {
        let out = key.split_at(24).0;
        proof {
            encode_utf8_decode_utf8(out@);
        }
        out
    } else {
        key
    }
}

/// The value of a hexadecimal digit.
pub open spec fn hex_value(c: char) -> int {
    if '0' <= c <= '9' {
        c as int - '0' as int
    } else {
        c as int - 'a' as int + 10
    }
}

/// A digest is written in lower-case hexadecimal, two digits for each byte, the higher one
/// first.
pub proof fn law_hexadecimal_reads_back(bytes: Seq<u8>, i: int)
    requires
        0 <= i < bytes.len(),
    ensures
        hex_text(bytes).len() == 2 * bytes.len(),
        bytes[i] == 16 * hex_value(hex_text(bytes)[2 * i]) + hex_value(hex_text(bytes)[2 * i + 1]),
        '0' <= hex_text(bytes)[2 * i] <= '9' || 'a' <= hex_text(bytes)[2 * i] <= 'f',
        '0' <= hex_text(bytes)[2 * i + 1] <= '9' || 'a' <= hex_text(bytes)[2 * i + 1] <= 'f',
{
    let b = bytes[i] as int;
    assert((2 * i) / 2 == i && (2 * i + 1) / 2 == i && (2 * i) % 2 == 0 && (2 * i + 1) % 2 == 1);
    assert(hex_text(bytes)[2 * i] == hex_digit(b / 16));
    assert(hex_text(bytes)[2 * i + 1] == hex_digit(b % 16));
    assert(0 <= b / 16 < 16 && 0 <= b % 16 < 16);
}

/// A number is hashed by its eight bytes, the lowest first.
pub proof fn law_numbers_are_hashed_whole(v: int)
    requires
        0 <= v <= u64::MAX,
    ensures
        eight_bytes(v).len() == 8,
        v == eight_bytes(v)[0] + 0x100 * eight_bytes(v)[1] + 0x1_0000 * eight_bytes(v)[2]
            + 0x100_0000 * eight_bytes(v)[3] + 0x1_0000_0000 * eight_bytes(v)[4]
            + 0x100_0000_0000 * eight_bytes(v)[5] + 0x1_0000_0000_0000 * eight_bytes(v)[6]
            + 0x100_0000_0000_0000 * eight_bytes(v)[7],
{
    assert(v / 0x1_0000 == v / 0x100 / 256);
    assert(v / 0x100_0000 == v / 0x1_0000 / 256);
    assert(v / 0x1_0000_0000 == v / 0x100_0000 / 256);
    assert(v / 0x100_0000_0000 == v / 0x1_0000_0000 / 256);
    assert(v / 0x1_0000_0000_0000 == v / 0x100_0000_0000 / 256);
    assert(v / 0x100_0000_0000_0000 == v / 0x1_0000_0000_0000 / 256);
    assert(0 <= v / 0x100_0000_0000_0000 < 256);
}

/// A negative number is hashed as the number of 64 bits that it wraps to.
pub proof fn law_negative_numbers_wrap(v: i64)
    ensures
        0 <= unsigned(v) <= u64::MAX,
        (unsigned(v) - v) % 0x1_0000_0000_0000_0000 == 0,
{
}

/// The kills of a candidate and who made them tell its recordings; the window of the clip
/// plays no part, unless there are no kills.
pub proof fn law_kills_tell_recordings(a: Candidate, b: Candidate, demo: Seq<char>)
    requires
        a.attacker_user_id == b.attacker_user_id,
        a.point_of_kill_ticks@ == b.point_of_kill_ticks@,
    ensures
        a.point_of_kill_ticks.len() > 0 ==> key_of(a, demo) == key_of(b, demo),
        a.clip_start_tick == b.clip_start_tick && a.clip_end_tick == b.clip_end_tick ==> key_of(
            a,
            demo,
        ) == key_of(b, demo) && legacy_key_of(a, demo) == legacy_key_of(b, demo),
{
}

/// What a recording is told by differs between candidates with other kills, another
/// attacker or, without kills, another window.
pub proof fn law_other_kills_are_other_recordings(
    a: Candidate,
    b: Candidate,
    demo: Seq<char>,
    other: Seq<char>,
)
    requires
        identity(a, demo) == identity(b, other),
    ensures
        demo == other,
        a.attacker_user_id == b.attacker_user_id,
        a.point_of_kill_ticks.len() > 0 && b.point_of_kill_ticks.len() > 0
            ==> a.point_of_kill_ticks@ == b.point_of_kill_ticks@,
        a.point_of_kill_ticks.len() == 0 && b.point_of_kill_ticks.len() == 0 ==> a.clip_start_tick
            == b.clip_start_tick && a.clip_end_tick == b.clip_end_tick,
{
    let x = identity(a, demo);
    let y = identity(b, other);
    assert(x[1] == demo && y[1] == other);
    assert(x[2] == int_text(a.attacker_user_id as int) && y[2] == int_text(
        b.attacker_user_id as int,
    ));
    law_written_numbers_read_back(a.attacker_user_id as int);
    law_written_numbers_read_back(b.attacker_user_id as int);
    if a.point_of_kill_ticks.len() > 0 && b.point_of_kill_ticks.len() > 0 {
        let p = a.point_of_kill_ticks@;
        let q = b.point_of_kill_ticks@;
        assert(x.len() == 3 + p.len() && y.len() == 3 + q.len());
        assert forall|k: int| 0 <= k < p.len() implies p[k] == q[k] by {
            assert(x[3 + k] == int_text(p[k] as int) && y[3 + k] == int_text(q[k] as int));
            law_written_numbers_read_back(p[k] as int);
            law_written_numbers_read_back(q[k] as int);
        }
        assert(p =~= q);
    }
    if a.point_of_kill_ticks.len() == 0 && b.point_of_kill_ticks.len() == 0 {
        assert(x[3] == int_text(a.clip_start_tick as int) && y[3] == int_text(
            b.clip_start_tick as int,
        ));
        assert(x[4] == int_text(a.clip_end_tick as int) && y[4] == int_text(
            b.clip_end_tick as int,
        ));
        law_written_numbers_read_back(a.clip_start_tick as int);
        law_written_numbers_read_back(b.clip_start_tick as int);
        law_written_numbers_read_back(a.clip_end_tick as int);
        law_written_numbers_read_back(b.clip_end_tick as int);
    }
}

/// Files whose names differ in the direction of their slashes alone are the same file.
pub proof fn law_slashes_do_not_tell_files(a: FileSample, b: FileSample)
    requires
        a.length == b.length,
        a.head@ == b.head@,
        optional_bytes(a.tail) == optional_bytes(b.tail),
        a.relative@.len() == b.relative@.len(),
        forall|i: int|
            0 <= i < a.relative@.len() ==> #[trigger] a.relative@[i] == b.relative@[i] || (
            a.relative@[i] == '\\' && b.relative@[i] == '/'),
    ensures
        a.bytes() == b.bytes(),
{
    reveal_strlit("\\");
    let from = "\\"@;
    assert(from.len() == 1 && from[0] == '\\');
    assert(from.contains('\\'));
    assert(!from.contains('/'));
    assert(replaced(a.relative@, from, '/') =~= replaced(b.relative@, from, '/'));
}

/// The token of a plain key is its first twenty-four characters.
pub proof fn law_tokens_begin_their_keys(key: Seq<char>)
    requires
        is_ascii_chars(key),
        key.len() >= 24,
    ensures
        token_of(key) == key.subrange(0, 24),
{
    let bytes = encode_utf8(key);
    let head = key.subrange(0, 24);
    is_ascii_chars_encode_utf8(key);
    assert(is_ascii_chars(head));
    is_ascii_chars_encode_utf8(head);
    encode_utf8_decode_utf8(head);
    encode_utf8_valid_utf8(key);
    assert(bytes.subrange(0, 24) =~= encode_utf8(head)) by {
        assert forall|i: int| 0 <= i < 24 implies bytes[i] == encode_utf8(head)[i] by {
            assert(key[i] as u8 == bytes[i]);
            assert(head[i] as u8 == encode_utf8(head)[i]);
        }
    }
    if key.len() == 24 {
        is_char_boundary_start_end_of_seq(bytes);
    } else {
        let b = bytes[24];
        assert(key[24] as u8 == b);
        assert(b <= 0x7f);
        is_char_boundary_iff_not_is_continuation_byte(bytes, 24);
        assert(!is_continuation_byte(b));
    }
}

} // verus!
