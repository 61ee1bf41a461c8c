//! Decimal notation of integers, written and read.
use vstd::prelude::*;
use crate::text::{chars_of, digit_of, digit_value, is_digit};

verus! {

/// The decimal notation of a natural number.
pub open spec fn nat_text(n: nat) -> Seq<char>
    decreases n,
{
    if n < 10 {
        seq![digit_of(n as int)]
    } else {
        nat_text(n / 10).push(digit_of((n % 10) as int))
    }
}

/// The decimal notation of an integer.
pub open spec fn int_text(n: int) -> Seq<char> {
    if n < 0 {
        seq!['-'] + nat_text((-n) as nat)
    } else {
        nat_text(n as nat)
    }
}

/// The value of a run of decimal digits.
pub open spec fn digits_value(s: Seq<char>) -> nat
    decreases s.len(),
{
    if s.len() == 0 {
        0
    } else {
        (digits_value(s.drop_last()) * 10 + digit_value(s.last())) as nat
    }
}

/// Whether a text is a nonempty run of decimal digits.
pub open spec fn all_digits(s: Seq<char>) -> bool {
    s.len() > 0 && forall|i: int| 0 <= i < s.len() ==> is_digit(#[trigger] s[i])
}

/// The number a text stands for: decimal digits with an optional sign.
pub open spec fn int_of(s: Seq<char>) -> Option<int> {
    if s.len() > 0 && s[0] == '-' {
        if all_digits(s.skip(1)) {
            Some(-(digits_value(s.skip(1)) as int))
        } else {
            None
        }
    } else {
        match nat_of(s) {
            Some(n) => Some(n as int),
            None => None,
        }
    }
}

/// The natural number a text stands for: decimal digits, with a plus sign
/// allowed before them.
pub open spec fn nat_of(s: Seq<char>) -> Option<nat> {
    let digits = if s.len() > 0 && s[0] == '+' {
        s.skip(1)
    } else {
        s
    };
    if all_digits(digits) {
        Some(digits_value(digits))
    } else {
        None
    }
}

/// What a reader for the range `low..=high` gives for a text.
pub open spec fn ranged(value: Option<int>, low: int, high: int) -> Option<int> {
    match value {
        Some(v) if low <= v <= high => Some(v),
        _ => None,
    }
}

/// The decimal notation of an unsigned number.
pub fn u64_text(n: u64) -> (out: String)
    ensures
        out@ == nat_text(n as nat),
    decreases n,
{
    if n < 10 {
        let mut out = String::new();
        out.push((48 + n as u8) as char);
        assert(out@ =~= nat_text(n as nat));
        out
    } else {
        let mut out = u64_text(n / 10);
        out.push((48 + (n % 10) as u8) as char);
        out
    }
}

/// The decimal notation of a signed number.
pub fn i64_text(n: i64) -> (out: String)
    ensures
        out@ == int_text(n as int),
{
    if n < 0 {
        let magnitude: u64 = (-(n + 1)) as u64 + 1;
        let mut out = String::new();
        out.push('-');
        out.append(u64_text(magnitude).as_str());
        assert(out@ =~= seq!['-'] + nat_text((-n) as nat));
        out
    } else {
        u64_text(n as u64)
    }
}

/// Two decimal digits, with a leading zero where needed.
pub open spec fn two_digits(n: int) -> Seq<char> {
    if n < 10 {
        seq!['0'] + nat_text(n as nat)
    } else {
        nat_text(n as nat)
    }
}

/// Two decimal digits, with a leading zero where needed.
pub fn two_digit_text(n: u64) -> (out: String)
    ensures
        out@ == two_digits(n as int),
{
    if n < 10 {
        let mut out = String::new();
        out.push('0');
        out.append(u64_text(n).as_str());
        assert(out@ =~= two_digits(n as int));
        out
    } else {
        u64_text(n)
    }
}

/// The digits from `from` on: `None` unless they are all digits and there is at
/// least one; a value over `u64::MAX` comes back as `u64::MAX + 1`.
fn read_digits(chars: &Vec<char>, from: usize) -> (out: Option<u128>)
    requires
        from <= chars.len(),
    ensures
        out is Some <==> all_digits(chars@.skip(from as int)),
        out matches Some(v) ==> v == (if digits_value(chars@.skip(from as int)) <= u64::MAX {
            digits_value(chars@.skip(from as int)) as int
        } else {
            u64::MAX + 1
        }),
{
    if from == chars.len() {
        return None;
    }
    let ghost tail = chars@.skip(from as int);
    let mut value: u128 = 0;
    let mut i: usize = from;
    while i < chars.len()
        invariant
            from <= i <= chars.len(),
            tail == chars@.skip(from as int),
            forall|j: int| 0 <= j < i - from ==> is_digit(#[trigger] tail[j]),
            value == (if digits_value(tail.take(i - from)) <= u64::MAX {
                digits_value(tail.take(i - from)) as int
            } else {
                u64::MAX + 1
            }),
        decreases chars.len() - i,
    {
        let c = chars[i];
        proof {
            assert(tail[i - from] == c);
            assert(tail.take(i + 1 - from).drop_last() =~= tail.take(i - from));
            assert(tail.take(i + 1 - from).last() == c);
        }
        if !('0' <= c && c <= '9') {
            assert(!is_digit(tail[i - from]));
            return None;
        }
        let digit: u128 = (c as u32 - 48) as u128;
        let next: u128 = value * 10 + digit;
        if next > 0xffff_ffff_ffff_ffff {
            value = 0x1_0000_0000_0000_0000;
        } else {
            value = next;
        }
        i += 1;
    }
    assert(tail.take(chars.len() - from) =~= tail);
    Some(value)
}

/// Reads a signed number; `None` where the text is not one or is out of range.
pub fn parse_i64(text: &str) -> (out: Option<i64>)
    ensures
        out is Some <==> ranged(int_of(text@), i64::MIN as int, i64::MAX as int) is Some,
        out matches Some(v) ==> int_of(text@) == Some(v as int),
{
    let chars = chars_of(text);
    if chars.len() > 0 && chars[0] == '-' {
        match read_digits(&chars, 1) {
            Some(v) => if v <= 0x7fff_ffff_ffff_ffff {
                Some(-(v as i64))
            } else if v == 0x8000_0000_0000_0000 {
                Some(i64::MIN)
            } else {
                None
            },
            None => None,
        }
    } else {
        match parse_u64(text) {
            Some(v) => if v <= 0x7fff_ffff_ffff_ffff {
                Some(v as i64)
            } else {
                None
            },
            None => None,
        }
    }
}

/// Reads an unsigned number; `None` where the text is not one or is out of
/// range.
pub fn parse_u64(text: &str) -> (out: Option<u64>)
    ensures
        out is Some <==> (nat_of(text@) is Some && nat_of(text@)->0 <= u64::MAX),
        out matches Some(v) ==> nat_of(text@) == Some(v as nat),
{
    let chars = chars_of(text);
    assert(chars@.skip(0) =~= chars@);
    let from: usize = if chars.len() > 0 && chars[0] == '+' {
        1
    } else {
        0
    };
    match read_digits(&chars, from) {
        Some(v) => if v <= 0xffff_ffff_ffff_ffff {
            Some(v as u64)
        } else {
            None
        },
        None => None,
    }
}

/// Reads an unsigned number of at most 32 bits.
pub fn parse_u32(text: &str) -> (out: Option<u32>)
    ensures
        out is Some <==> (nat_of(text@) is Some && nat_of(text@)->0 <= u32::MAX),
        out matches Some(v) ==> nat_of(text@) == Some(v as nat),
{
    match parse_u64(text) {
        Some(v) => if v <= 0xffff_ffff {
            Some(v as u32)
        } else {
            None
        },
        None => None,
    }
}

/// Decimal notation is a nonempty run of digits whose value is the number, and
/// it has no leading zero unless it is the number zero.
pub proof fn lemma_nat_text(n: nat)
    ensures
        all_digits(nat_text(n)),
        digits_value(nat_text(n)) == n,
        nat_text(n).len() > 1 ==> nat_text(n)[0] != '0',
    decreases n,
{
    if n < 10 {
        assert(nat_text(n).drop_last() =~= Seq::empty());
        assert(digits_value(nat_text(n).drop_last()) == 0);
    } else {
        lemma_nat_text(n / 10);
        assert(nat_text(n).drop_last() =~= nat_text(n / 10));
        assert(nat_text(n)[0] == nat_text(n / 10)[0]);
        if n / 10 < 10 {
            assert(nat_text(n / 10)[0] != '0');
        } else {
            lemma_nat_text(n / 10 / 10);
        }
    }
}

/// A written number begins with a digit or a minus sign.
pub proof fn lemma_number_begins(n: int)
    ensures
        int_text(n).len() > 0,
        is_digit(int_text(n)[0]) || int_text(n)[0] == '-',
{
    if n >= 0 {
        lemma_nat_text(n as nat);
    }
}

/// A written number holds digits, behind a minus sign where it is negative.
pub proof fn lemma_number_is_plain(n: int)
    ensures
        forall|i: int|
            0 <= i < int_text(n).len() ==> is_digit(#[trigger] int_text(n)[i]) || int_text(n)[i]
                == '-',
{
    if n >= 0 {
        lemma_nat_text(n as nat);
    } else {
        lemma_nat_text((-n) as nat);
    }
}

/// Reading what was written gives the number back.
pub proof fn law_written_numbers_read_back(n: int)
    ensures
        int_of(int_text(n)) == Some(n),
        n >= 0 ==> nat_of(int_text(n)) == Some(n as nat),
{
    if n < 0 {
        lemma_nat_text((-n) as nat);
        assert(int_text(n).skip(1) =~= nat_text((-n) as nat));
    } else {
        lemma_nat_text(n as nat);
        assert(is_digit(nat_text(n as nat)[0]));
    }
}

} // verus!
