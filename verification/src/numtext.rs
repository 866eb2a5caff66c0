//! Decimal text for 64-bit signed integers: rendering (`print` output) and
//! parsing (literal resolution), each proved against one spec-level
//! definition, with a round-trip law connecting them.
use vstd::prelude::*;

verus! {

pub open spec fn is_digit(c: char) -> bool {
    '0' <= c && c <= '9'
}

/// Numeric value of a decimal digit character.
pub open spec fn digit_val(c: char) -> int {
    c as u32 - '0' as u32
}

/// The decimal digit character for `d` in `0..=9`.
pub open spec fn digit_char(d: int) -> char {
    if d == 0 {
        '0'
    } else if d == 1 {
        '1'
    } else if d == 2 {
        '2'
    } else if d == 3 {
        '3'
    } else if d == 4 {
        '4'
    } else if d == 5 {
        '5'
    } else if d == 6 {
        '6'
    } else if d == 7 {
        '7'
    } else if d == 8 {
        '8'
    } else {
        '9'
    }
}

/// The decimal digit string of `n`, most significant digit first, no sign.
pub open spec fn dec_digits(n: nat) -> Seq<char>
    decreases n,
{
    if n < 10 {
        seq![digit_char(n as int)]
    } else {
        dec_digits(n / 10) + seq![digit_char((n % 10) as int)]
    }
}

/// The decimal text of an integer: a `-` sign for negatives, then digits.
pub open spec fn dec_str(n: int) -> Seq<char> {
    if n < 0 {
        seq!['-'] + dec_digits((-n) as nat)
    } else {
        dec_digits(n as nat)
    }
}

pub open spec fn all_digits(s: Seq<char>) -> bool {
    forall|i: int| 0 <= i < s.len() ==> is_digit(#[trigger] s[i])
}

/// The integer denoted by a digit string, most significant digit first.
pub open spec fn digits_val(s: Seq<char>) -> int
    decreases s.len(),
{
    if s.len() == 0 {
        0
    } else {
        digits_val(s.drop_last()) * 10 + digit_val(s.last())
    }
}

/// The digit part of an integer literal: everything after an optional
/// leading sign.
pub open spec fn literal_digits(s: Seq<char>) -> Seq<char> {
    if s.len() > 0 && (s[0] == '-' || s[0] == '+') {
        s.subrange(1, s.len() as int)
    } else {
        s
    }
}

/// The signed value denoted by an integer literal (meaningful only when the
/// digit part is well formed).
pub open spec fn literal_val(s: Seq<char>) -> int {
    if s.len() > 0 && s[0] == '-' {
        -digits_val(literal_digits(s))
    } else {
        digits_val(literal_digits(s))
    }
}

/// Whether `s` is the text of a 64-bit signed integer: an optional sign,
/// one or more decimal digits, and a value within `i64` range.
pub open spec fn is_i64_literal(s: Seq<char>) -> bool {
    &&& literal_digits(s).len() > 0
    &&& all_digits(literal_digits(s))
    &&& i64::MIN <= literal_val(s) <= i64::MAX
}

/// What parsing a literal as a 64-bit integer yields.
pub open spec fn spec_parse_i64(s: Seq<char>) -> Option<i64> {
    if is_i64_literal(s) {
        Some(literal_val(s) as i64)
    } else {
        None
    }
}

/// Relies on `String::push`: appends the given character to the end of the
/// string (std documentation).
pub assume_specification[ std::string::String::push ](s: &mut std::string::String, ch: char)
    ensures
        final(s)@ == old(s)@.push(ch),
;

/// The decimal digit character for a digit value.
pub fn digit_to_char(d: u64) -> (c: char)
    requires
        d < 10,
    ensures
        c == digit_char(d as int),
{
    if d == 0 {
        '0'
    } else if d == 1 {
        '1'
    } else if d == 2 {
        '2'
    } else if d == 3 {
        '3'
    } else if d == 4 {
        '4'
    } else if d == 5 {
        '5'
    } else if d == 6 {
        '6'
    } else if d == 7 {
        '7'
    } else if d == 8 {
        '8'
    } else {
        '9'
    }
}

/// The numeric value of a decimal digit character.
pub fn char_to_digit(c: char) -> (d: u64)
    requires
        is_digit(c),
    ensures
        d == digit_val(c),
        d < 10,
{
    (c as u32 - '0' as u32) as u64
}

fn u64_to_digits(n: u64) -> (s: String)
    ensures
        s@ == dec_digits(n as nat),
    decreases n,
{
    if n < 10 {
        let mut s = String::new();
        s.push(digit_to_char(n));
        assert(s@ =~= dec_digits(n as nat));
        s
    } else {
        let mut s = u64_to_digits(n / 10);
        s.push(digit_to_char(n % 10));
        assert(s@ =~= dec_digits(n as nat));
        s
    }
}

/// Renders `n` as decimal text.
pub fn i64_to_string(n: i64) -> (s: String)
    ensures
        s@ == dec_str(n as int),
{
    if n >= 0 {
        u64_to_digits(n as u64)
    } else {
        let mag: u64 = if n == i64::MIN {
            9223372036854775808u64
        } else {
            (-n) as u64
        };
        assert(mag == -(n as int));
        let mut s = String::new();
        s.push('-');
        let digits = u64_to_digits(mag);
        s.append(digits.as_str());
        assert(s@ =~= dec_str(n as int));
        s
    }
}

/// Parses `s` as a 64-bit signed integer exactly when it is an integer
/// literal in range.
pub fn parse_i64(s: &str) -> (r: Option<i64>)
    ensures
        r == spec_parse_i64(s@),
{
    let len = s.unicode_len();
    let ghost digits = literal_digits(s@);
    if len == 0 {
        return None;
    }
    let first = s.get_char(0);
    let (neg, start) = if first == '-' {
        (true, 1)
    } else if first == '+' {
        (false, 1)
    } else {
        (false, 0)
    };
    assert(digits =~= s@.subrange(start as int, len as int));
    if start == len {
        return None;
    }
    let mut mag: u64 = 0;
    let mut i: usize = start;
    while i < len
        invariant
            start <= i <= len,
            len == s@.len(),
            start < len,
            digits == literal_digits(s@),
            digits == s@.subrange(start as int, len as int),
            neg == (s@[0] == '-'),
            all_digits(s@.subrange(start as int, i as int)),
            mag == digits_val(s@.subrange(start as int, i as int)),
        decreases len - i,
    {
        let c = s.get_char(i);
        if !(c >= '0' && c <= '9') {
            proof {
                assert(digits[i - start as int] == s@[i as int]);
                assert(!all_digits(digits));
                assert(!is_i64_literal(s@));
            }
            return None;
        }
        let d = char_to_digit(c);
        let ghost pre = s@.subrange(start as int, i as int);
        let ghost cur = s@.subrange(start as int, i as int + 1);
        assert(cur.drop_last() =~= pre && cur.last() == c);
        assert(digits_val(cur) == mag * 10 + digit_val(c));
        let step = match mag.checked_mul(10) {
            Some(m10) => m10.checked_add(d),
            None => None,
        };
        match step {
            Some(m) => {
                mag = m;
            },
            None => {
                proof {
                    assert(digits_val(cur) > u64::MAX);
                    assert(cur =~= digits.subrange(0, i + 1 - start as int));
                    if all_digits(digits) {
                        lemma_digits_val_prefix_le(digits, i + 1 - start as int);
                        assert(digits_val(digits) > u64::MAX);
                    }
                    assert(!is_i64_literal(s@));
                }
                return None;
            },
        }
        i += 1;
    }
    assert(digits =~= s@.subrange(start as int, len as int));
    if neg {
        if mag > 9223372036854775808u64 {
            proof {
                assert(literal_val(s@) == -digits_val(digits));
            }
            None
        } else if mag == 9223372036854775808u64 {
            Some(i64::MIN)
        } else {
            Some(-(mag as i64))
        }
    } else {
        if mag > i64::MAX as u64 {
            None
        } else {
            Some(mag as i64)
        }
    }
}

/// A digit string's value is at least the value of each of its prefixes.
proof fn lemma_digits_val_prefix_le(s: Seq<char>, i: int)
    requires
        0 <= i <= s.len(),
        all_digits(s),
    ensures
        digits_val(s) >= digits_val(s.subrange(0, i)) >= 0,
    decreases s.len() - i,
{
    let pre = s.subrange(0, i);
    assert(all_digits(pre));
    lemma_digits_val_nonneg(pre);
    if i == s.len() {
        assert(pre =~= s);
    } else {
        let cur = s.subrange(0, i + 1);
        assert(cur.drop_last() =~= pre && cur.last() == s[i]);
        assert(is_digit(s[i]));
        assert(digits_val(cur) == digits_val(pre) * 10 + digit_val(s[i]));
        lemma_digits_val_prefix_le(s, i + 1);
    }
}

/// A digit string's value is non-negative.
pub proof fn lemma_digits_val_nonneg(s: Seq<char>)
    requires
        all_digits(s),
    ensures
        digits_val(s) >= 0,
    decreases s.len(),
{
    if s.len() > 0 {
        assert(all_digits(s.drop_last())) by {
            assert(forall|i: int| 0 <= i < s.len() - 1 ==> s.drop_last()[i] == s[i]);
        }
        lemma_digits_val_nonneg(s.drop_last());
        assert(is_digit(s.last()));
    }
}

/// The decimal digits of `n` are digits, start with no sign, and denote `n`.
pub proof fn lemma_dec_digits_val(n: nat)
    ensures
        dec_digits(n).len() >= 1,
        all_digits(dec_digits(n)),
        digits_val(dec_digits(n)) == n,
        is_digit(dec_digits(n)[0]),
    decreases n,
{
    if n < 10 {
        let s = dec_digits(n);
        assert(s =~= seq![digit_char(n as int)]);
        assert(s.drop_last() =~= Seq::<char>::empty());
        assert(digits_val(Seq::<char>::empty()) == 0);
        assert(digit_val(digit_char(n as int)) == n);
    } else {
        lemma_dec_digits_val(n / 10);
        let pre = dec_digits(n / 10);
        let s = dec_digits(n);
        assert(s.drop_last() =~= pre && s.last() == digit_char((n % 10) as int));
        assert(forall|i: int| 0 <= i < s.len() - 1 ==> s[i] == pre[i]);
        assert(digit_val(digit_char((n % 10) as int)) == n % 10);
        assert(digits_val(s) == (n / 10) * 10 + n % 10);
        assert((n / 10) * 10 + n % 10 == n) by {
            vstd::arithmetic::div_mod::lemma_fundamental_div_mod(n as int, 10);
        }
    }
}

/// Round trip: rendering an integer and parsing the text gives it back.
pub proof fn lemma_parse_of_render(n: i64)
    ensures
        spec_parse_i64(dec_str(n as int)) == Some(n),
{
    let s = dec_str(n as int);
    if n >= 0 {
        lemma_dec_digits_val(n as nat);
        assert(literal_digits(s) == s);
        assert(digits_val(s) == n);
    } else {
        let mag = (-(n as int)) as nat;
        lemma_dec_digits_val(mag);
        assert(s[0] == '-');
        assert(literal_digits(s) =~= dec_digits(mag));
        assert(literal_val(s) == -digits_val(dec_digits(mag)));
        assert(literal_val(s) == n);
    }
}

} // verus!
