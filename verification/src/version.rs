//! Version codes: five characters in base 36 that sort as the times that they
//! were made at.

use crate::text::{
    ascii_alnum, chars_of, is_ascii_alnum, is_lower_alnum, lemma_lex_lt_asymmetric,
    lemma_lex_lt_concat, lemma_lex_lt_irreflexive, lex_lt, string_of,
};
use crate::time::{is_instant, Instant, Timestamp, EPOCH_SECS, MIN_SECS};
use vstd::arithmetic::div_mod::{
    lemma_div_denominator, lemma_fundamental_div_mod_converse, lemma_mod_breakdown,
    lemma_mod_decreases, lemma_small_mod,
};
use vstd::arithmetic::power::{lemma_pow_positive, pow};
use vstd::prelude::*;
use vstd::string::StringExecFns;

verus! {

/// The digit of base 36 with the value `d`: `0` to `9`, then `a` to `z`.
pub open spec fn digit_char(d: int) -> char {
    if d < 10 {
        (48 + d) as char
    } else {
        (87 + d) as char
    }
}

/// The value of a digit of base 36, in either case; `None` for any other character.
pub open spec fn digit_value(c: char) -> Option<int> {
    if '0' <= c <= '9' {
        Some(c as int - 48)
    } else if 'a' <= c <= 'z' {
        Some(c as int - 87)
    } else if 'A' <= c <= 'Z' {
        Some(c as int - 55)
    } else {
        None
    }
}

/// The last `width` digits of `n` in base 36, the most significant first, with
/// zeros where `n` has no more digits.
pub open spec fn base36(n: nat, width: nat) -> Seq<char>
    decreases width,
{
    if width == 0 {
        Seq::empty()
    } else {
        base36(n / 36, (width - 1) as nat).push(digit_char((n % 36) as int))
    }
}

/// Whether every character is a digit of base 36.
pub open spec fn all_digits(s: Seq<char>) -> bool {
    forall|i: int| 0 <= i < s.len() ==> (#[trigger] digit_value(s[i])) is Some
}

/// The number that digits of base 36 stand for, the most significant first.
pub open spec fn value_of(s: Seq<char>) -> nat
    decreases s.len(),
{
    if s.len() == 0 {
        0
    } else {
        match digit_value(s.last()) {
            Some(d) => (value_of(s.drop_last()) * 36 + d) as nat,
            None => 0,
        }
    }
}

/// The number that a text in base 36 stands for: `None` where a character is no
/// digit, or where the number is more than a `u32` holds.
pub open spec fn decoded(s: Seq<char>) -> Option<u32> {
    if all_digits(s) && value_of(s) <= u32::MAX {
        Some(value_of(s) as u32)
    } else {
        None
    }
}

/// The digit before the last `k` digits of `n` comes first among the last `k + 1`.
pub proof fn lemma_base36_front(n: nat, k: nat)
    ensures
        base36(n, k + 1) == seq![digit_char(((n / pow(36, k) as nat) % 36) as int)] + base36(n, k),
    decreases k,
{
    if k == 0 {
        assert(pow(36, 0) == 1) by {
            reveal(pow);
        }
        assert(base36(n, 0) == Seq::<char>::empty());
        assert(base36(n / 36, 0) == Seq::<char>::empty());
        assert(base36(n, 1) == Seq::<char>::empty().push(digit_char((n % 36) as int)));
        assert(base36(n, 1) == seq![digit_char((n % 36) as int)] + base36(n, 0));
    } else {
        let m = n / 36;
        let j = (k - 1) as nat;
        lemma_base36_front(m, j);
        lemma_pow_positive(36, j);
        assert(pow(36, k) == 36 * pow(36, j)) by {
            reveal(pow);
        }
        lemma_div_denominator(n as int, 36, pow(36, j));
        let lead = digit_char(((n / pow(36, k) as nat) % 36) as int);
        assert(base36(m, k) == seq![lead] + base36(m, j));
        assert(base36(n, k + 1) == base36(m, k).push(digit_char((n % 36) as int)));
        assert(base36(n, k) == base36(m, j).push(digit_char((n % 36) as int)));
        assert((seq![lead] + base36(m, j)).push(digit_char((n % 36) as int)) == seq![lead] + base36(
            m,
            j,
        ).push(digit_char((n % 36) as int)));
    }
}

/// The digits of `base36` are digits, and stand for what is left of `n` after the
/// digits that did not fit.
pub proof fn lemma_value_of_base36(n: nat, width: nat)
    ensures
        all_digits(base36(n, width)),
        value_of(base36(n, width)) == n % (pow(36, width) as nat),
    decreases width,
{
    if width == 0 {
        assert(pow(36, 0) == 1) by {
            reveal(pow);
        }
    } else {
        let w = (width - 1) as nat;
        let m = n / 36;
        lemma_value_of_base36(m, w);
        lemma_base36_chars(m, w);
        lemma_pow_positive(36, w);
        assert(pow(36, width) == 36 * pow(36, w)) by {
            reveal(pow);
        }
        let s = base36(n, width);
        let d = digit_char((n % 36) as int);
        assert(s.drop_last() == base36(m, w));
        assert(s.last() == d);
        assert(digit_value(d) == Some((n % 36) as int));
        assert forall|i: int| 0 <= i < s.len() implies (#[trigger] digit_value(s[i])) is Some by {
            if i < s.len() - 1 {
                assert(s[i] == base36(m, w)[i]);
            }
        }
        lemma_mod_breakdown(n as int, 36, pow(36, w));
        assert(36 * ((n as int / 36) % pow(36, w)) == (m % (pow(36, w) as nat)) * 36);
    }
}

/// Decoding what was encoded gives what is left of the number after the digits
/// that did not fit.
pub proof fn lemma_decode_encode_in_any_width(n: u32, width: nat)
    ensures
        pow(36, width) > 0,
        decoded(base36(n as nat, width)) == Some((n as nat % (pow(36, width) as nat)) as u32),
{
    lemma_value_of_base36(n as nat, width);
    lemma_pow_positive(36, width);
    lemma_mod_decreases(n as nat, pow(36, width) as nat);
}

/// Decoding what was encoded gives the number back, where the width holds all of
/// its digits.
pub proof fn lemma_decode_encode(n: u32, width: nat)
    requires
        n < pow(36, width),
    ensures
        decoded(base36(n as nat, width)) == Some(n),
{
    lemma_value_of_base36(n as nat, width);
    lemma_small_mod(n as nat, pow(36, width) as nat);
}

fn digit_of(d: u32) -> (c: char)
    requires
        d < 36,
    ensures
        c == digit_char(d as int),
{
    if d < 10 {
        (48u8 + d as u8) as char
    } else {
        (87u8 + d as u8) as char
    }
}

/// The last `width` digits of `n` in base 36, in lower case, the most significant
/// first, with zeros on the left where `n` has fewer digits.
pub fn encode_base36(n: u32, width: usize) -> (r: String)
    ensures
        r@ == base36(n as nat, width as nat),
{
    let mut digits: Vec<char> = Vec::new();
    let mut filled: usize = 0;
    while filled < width
        invariant
            filled <= width,
            digits@.len() == filled,
        decreases width - filled,
    {
        digits.push('0');
        filled = filled + 1;
    }
    let mut rest: u32 = n;
    let mut at: usize = width;
    assert(pow(36, (width - at) as nat) == 1) by {
        reveal(pow);
    }
    assert(n as nat / 1 == n as nat);
    assert(digits@.subrange(width as int, width as int) == base36(n as nat, 0));
    while at > 0
        invariant
            at <= width,
            digits@.len() == width,
            rest == n as nat / (pow(36, (width - at) as nat) as nat),
            pow(36, (width - at) as nat) > 0,
            digits@.subrange(at as int, width as int) == base36(n as nat, (width - at) as nat),
        decreases at,
    {
        let ghost k = (width - at) as nat;
        let ghost before = digits@;
        let c = digit_of(rest % 36);
        digits.set(at - 1, c);
        proof {
            lemma_base36_front(n as nat, k);
            assert(digits@.subrange(at - 1, width as int) == seq![c] + before.subrange(
                at as int,
                width as int,
            ));
            lemma_pow_positive(36, k + 1);
            assert(pow(36, k + 1) == 36 * pow(36, k)) by {
                reveal(pow);
            }
            lemma_div_denominator(n as int, pow(36, k), 36);
            assert(pow(36, k) * 36 == 36 * pow(36, k)) by (nonlinear_arith);
        }
        rest = rest / 36;
        at = at - 1;
    }
    string_of(&digits, 0, width)
}

/// A prefix of digits stands for no more than the whole.
proof fn lemma_value_of_prefix(s: Seq<char>, k: int)
    requires
        all_digits(s),
        0 <= k <= s.len(),
    ensures
        value_of(s.take(k)) <= value_of(s),
    decreases s.len() - k,
{
    if k < s.len() {
        let t = s.take(k + 1);
        assert(t.drop_last() == s.take(k));
        assert(t.last() == s[k]);
        assert(digit_value(s[k]) is Some);
        lemma_value_of_prefix(s, k + 1);
    } else {
        assert(s.take(k) == s);
    }
}

fn value_of_digit(c: char) -> (r: Option<u32>)
    ensures
        match r {
            Some(d) => digit_value(c) == Some(d as int) && d < 36,
            None => digit_value(c) is None,
        },
{
    if '0' <= c && c <= '9' {
        Some(c as u32 - 48)
    } else if 'a' <= c && c <= 'z' {
        Some(c as u32 - 87)
    } else if 'A' <= c && c <= 'Z' {
        Some(c as u32 - 55)
    } else {
        None
    }
}

fn decode_chars(v: &Vec<char>, from: usize, to: usize) -> (r: Option<u32>)
    requires
        from <= to <= v.len(),
    ensures
        r == decoded(v@.subrange(from as int, to as int)),
{
    let ghost s = v@.subrange(from as int, to as int);
    let mut result: u32 = 0;
    let mut i: usize = from;
    assert(s.take(0) == Seq::<char>::empty());
    while i < to
        invariant
            from <= i <= to <= v.len(),
            s == v@.subrange(from as int, to as int),
            all_digits(s.take(i - from)),
            result == value_of(s.take(i - from)),
        decreases to - i,
    {
        let ghost k = i - from;
        proof {
            assert(s.take(k + 1).drop_last() == s.take(k));
            assert(s.take(k + 1).last() == v@[i as int]);
        }
        let d = match value_of_digit(v[i]) {
            Some(d) => d,
            None => {
                assert(digit_value(s[k]) is None);
                return None;
            },
        };
        let next = match result.checked_mul(36) {
            Some(m) => m.checked_add(d),
            None => None,
        };
        proof {
            assert forall|j: int| 0 <= j < s.take(k + 1).len() implies (#[trigger] digit_value(
                s.take(k + 1)[j],
            )) is Some by {
                if j < k {
                    assert(s.take(k + 1)[j] == s.take(k)[j]);
                }
            }
        }
        match next {
            Some(m) => {
                result = m;
            },
            None => {
                proof {
                    assert(value_of(s.take(k + 1)) > u32::MAX);
                    if all_digits(s) {
                        lemma_value_of_prefix(s, k + 1);
                    }
                }
                return None;
            },
        }
        i = i + 1;
    }
    assert(s.take(to - from) == s);
    Some(result)
}

/// The number that a text in base 36 stands for. Letters count in either case.
/// `None` where a character is no digit of base 36, or where the number is more
/// than a `u32` holds.
pub fn decode_base36(s: &str) -> (r: Option<u32>)
    ensures
        r == decoded(s@),
{
    let v = chars_of(s);
    assert(v@.subrange(0, v.len() as int) == v@);
    decode_chars(&v, 0, v.len())
}

/// Whole days from 2020-01-01 to the day of `secs`, as a `u32` holds them: days
/// before 2020 wrap around.
pub open spec fn day_number(secs: i64) -> nat {
    (((secs - EPOCH_SECS) / 86_400) % 0x1_0000_0000) as nat
}

/// The ten minutes of its day that `secs` falls in, counted from midnight.
pub open spec fn slot_number(secs: i64) -> nat {
    ((secs as int % 86_400) / 600) as nat
}

/// The version code of an instant: three digits for the day, two for the ten
/// minutes of the day.
pub open spec fn version_code(at: Instant) -> Seq<char> {
    base36(day_number(at.secs), 3) + base36(slot_number(at.secs), 2)
}

/// Five digits or lower-case letters.
pub open spec fn is_version_code(s: Seq<char>) -> bool {
    s.len() == 5 && forall|i: int| 0 <= i < 5 ==> is_lower_alnum(#[trigger] s[i])
}

/// The digits of `base36` are digits and lower-case letters.
pub proof fn lemma_base36_chars(n: nat, width: nat)
    ensures
        base36(n, width).len() == width,
        forall|i: int| 0 <= i < width ==> is_lower_alnum(#[trigger] base36(n, width)[i]),
    decreases width,
{
    if width > 0 {
        lemma_base36_chars(n / 36, (width - 1) as nat);
        let s = base36(n, width);
        assert forall|i: int| 0 <= i < width implies is_lower_alnum(#[trigger] s[i]) by {
            if i < width - 1 {
                assert(s[i] == base36(n / 36, (width - 1) as nat)[i]);
            }
        }
    }
}

/// The version code of every instant is five digits or lower-case letters, and
/// so has the form of a version code.
pub proof fn lemma_version_code_form(at: Instant)
    ensures
        is_version_code(version_code(at)),
        is_version_format(version_code(at)),
{
    lemma_base36_chars(day_number(at.secs), 3);
    lemma_base36_chars(slot_number(at.secs), 2);
    let code = version_code(at);
    assert forall|i: int| 0 <= i < 5 implies is_lower_alnum(#[trigger] code[i]) by {
        if i < 3 {
            assert(code[i] == base36(day_number(at.secs), 3)[i]);
        } else {
            assert(code[i] == base36(slot_number(at.secs), 2)[i - 3]);
        }
    }
}

/// Two instants within the same ten minutes have the same version code.
pub proof fn lemma_one_code_in_ten_minutes(a: Instant, b: Instant)
    requires
        a.secs as int / 600 == b.secs as int / 600,
    ensures
        version_code(a) == version_code(b),
{
    lemma_day_and_slot_of(a.secs as int);
    lemma_day_and_slot_of(b.secs as int);
}

/// The version code of `now`.
pub fn version_at(now: &Timestamp) -> (r: String)
    ensures
        r@ == version_code(now@),
        is_version_code(r@),
{
    let secs = now.secs();
    let since_first: i64 = secs - MIN_SECS;
    let day: i64 = since_first / 86_400 - 96_483_554;
    let slot: i64 = (since_first % 86_400) / 600;
    let days: u32 = if day >= 0 {
        day as u32
    } else {
        (day + 0x1_0000_0000) as u32
    };
    proof {
        let whole = secs as int / 86_400;
        let part = secs as int % 86_400;
        lemma_fundamental_div_mod_converse(since_first as int, 86_400, whole + 96_465_292, part);
        lemma_fundamental_div_mod_converse(secs - EPOCH_SECS, 86_400, whole - 18_262, part);
        assert(day == (secs - EPOCH_SECS) / 86_400);
        assert(-96_483_554 <= day < 0x1_0000_0000);
        if day < 0 {
            lemma_fundamental_div_mod_converse(day as int, 0x1_0000_0000, -1, day + 0x1_0000_0000);
        } else {
            lemma_fundamental_div_mod_converse(day as int, 0x1_0000_0000, 0, day as int);
        }
        assert(days == day_number(secs));
        assert(slot == slot_number(secs));
    }
    let mut r = encode_base36(days, 3);
    let tail = encode_base36(slot as u32, 2);
    r.append(tail.as_str());
    proof {
        lemma_version_code_form(now@);
    }
    r
}

/// A version code for the time that the clock shows.
pub fn generate_version() -> (r: String)
    ensures
        exists|at: Instant| is_instant(at.secs, at.nanos) && r@ == #[trigger] version_code(at),
        is_version_code(r@),
{
    let now = Timestamp::now();
    let ghost at = now@;
    let _ = now.secs();
    let r = version_at(&now);
    assert(is_instant(at.secs, at.nanos) && r@ == version_code(at));
    r
}

/// Five characters, each an ASCII letter or digit.
pub open spec fn is_version_format(s: Seq<char>) -> bool {
    s.len() == 5 && forall|i: int| 0 <= i < 5 ==> is_ascii_alnum(#[trigger] s[i])
}

/// The day and the ten minutes that a version code stands for.
pub open spec fn parsed_version(s: Seq<char>) -> Option<(u32, u32)> {
    if s.len() != 5 {
        None
    } else {
        match (decoded(s.subrange(0, 3)), decoded(s.subrange(3, 5))) {
            (Some(days), Some(slot)) => Some((days, slot)),
            _ => None,
        }
    }
}

/// The day and the ten minutes that a version code stands for: `None` unless it
/// has five characters, all digits of base 36.
pub fn parse_version(version: &str) -> (r: Option<(u32, u32)>)
    ensures
        r == parsed_version(version@),
{
    let v = chars_of(version);
    if v.len() != 5 {
        return None;
    }
    let days = decode_chars(&v, 0, 3);
    let slot = decode_chars(&v, 3, 5);
    match (days, slot) {
        (Some(d), Some(t)) => Some((d, t)),
        _ => None,
    }
}

/// Whether `v[from..to]` has the form of a version code.
pub(crate) fn version_format_at(v: &Vec<char>, from: usize, to: usize) -> (r: bool)
    requires
        from <= to <= v.len(),
    ensures
        r == is_version_format(v@.subrange(from as int, to as int)),
{
    if to - from != 5 {
        return false;
    }
    let ghost s = v@.subrange(from as int, to as int);
    let mut i: usize = from;
    while i < to
        invariant
            from <= i <= to <= v.len(),
            to - from == 5,
            s == v@.subrange(from as int, to as int),
            forall|j: int| 0 <= j < i - from ==> is_ascii_alnum(#[trigger] s[j]),
        decreases to - i,
    {
        if !ascii_alnum(v[i]) {
            assert(!is_ascii_alnum(s[i - from]));
            return false;
        }
        i = i + 1;
    }
    true
}

/// Whether a text has the form of a version code: five characters, each an ASCII
/// letter or digit.
pub fn is_valid_version(s: &str) -> (r: bool)
    ensures
        r == is_version_format(s@),
{
    let v = chars_of(s);
    assert(v@.subrange(0, v.len() as int) == v@);
    version_format_at(&v, 0, v.len())
}

/// A digit of base 36 with the smaller value is the smaller character.
proof fn lemma_digit_char_ordered(x: int, y: int)
    requires
        0 <= x < y < 36,
    ensures
        digit_char(x) < digit_char(y),
{
}

/// Texts of one width in base 36 are in the order of the numbers that they stand for.
pub proof fn lemma_base36_ordered(a: nat, b: nat, width: nat)
    requires
        a % (pow(36, width) as nat) < b % (pow(36, width) as nat),
    ensures
        lex_lt(base36(a, width), base36(b, width)),
    decreases width,
{
    if width == 0 {
        assert(pow(36, 0) == 1) by {
            reveal(pow);
        }
    } else {
        let j = (width - 1) as nat;
        let p = pow(36, j);
        lemma_pow_positive(36, j);
        assert(pow(36, width) == 36 * p) by {
            reveal(pow);
        }
        assert(p * 36 == 36 * p) by (nonlinear_arith);
        lemma_base36_front(a, j);
        lemma_base36_front(b, j);
        lemma_mod_breakdown(a as int, p, 36);
        lemma_mod_breakdown(b as int, p, 36);
        let x = (a as int / p) % 36;
        let y = (b as int / p) % 36;
        let sa = base36(a, width);
        let sb = base36(b, width);
        assert(sa.skip(1) == base36(a, j));
        assert(sb.skip(1) == base36(b, j));
        assert(sa[0] == digit_char(x));
        assert(sb[0] == digit_char(y));
        let ra = a as int % p;
        let rb = b as int % p;
        assert(0 <= ra < p && 0 <= rb < p);
        if x < y {
            lemma_digit_char_ordered(x, y);
        } else if x == y {
            lemma_base36_ordered(a, b, j);
        } else {
            assert(p * x + ra >= p * y + rb) by (nonlinear_arith)
                requires
                    x > y,
                    0 <= ra,
                    rb < p,
                    0 < p,
            ;
        }
    }
}

/// The day and the ten minutes of an instant, from the number of the ten minutes
/// that it falls in, counted from 1970: a day has 144 of them, and 2020 began
/// 18262 days after 1970.
proof fn lemma_day_and_slot_of(secs: int)
    ensures
        (secs - EPOCH_SECS) / 86_400 == (secs / 600) / 144 - 18_262,
        (secs % 86_400) / 600 == (secs / 600) % 144,
{
    let q = secs / 600;
    let r = secs % 600;
    let d = q / 144;
    let m = q % 144;
    assert(secs == 600 * q + r);
    assert(q == 144 * d + m);
    assert(secs == 86_400 * d + (600 * m + r));
    lemma_fundamental_div_mod_converse(secs, 86_400, d, 600 * m + r);
    lemma_fundamental_div_mod_converse(secs - EPOCH_SECS, 86_400, d - 18_262, 600 * m + r);
    lemma_fundamental_div_mod_converse(600 * m + r, 600, m, r);
}

/// In the 46656 days from 2020 on the day number is the number of days, and in
/// later ten minutes the day is a later one or the ten minutes of the day are.
proof fn lemma_day_and_slot(earlier: i64, later: i64)
    requires
        EPOCH_SECS <= earlier,
        earlier as int / 600 < later as int / 600,
        later < EPOCH_SECS + 46_656 * 86_400,
    ensures
        day_number(earlier) <= day_number(later) < 46_656,
        slot_number(earlier) < 144,
        slot_number(later) < 144,
        day_number(earlier) == day_number(later) ==> slot_number(earlier) < slot_number(later),
{
    lemma_day_and_slot_of(earlier as int);
    lemma_day_and_slot_of(later as int);
    let q1 = earlier as int / 600;
    let q2 = later as int / 600;
    assert(2_629_728 <= q1);
    assert(q1 < q2);
    assert(q2 < 2_629_728 + 46_656 * 144);
    let d1 = q1 / 144 - 18_262;
    let d2 = q2 / 144 - 18_262;
    assert(0 <= d1 <= d2 < 46_656);
    assert(d1 % 0x1_0000_0000 == d1);
    assert(d2 % 0x1_0000_0000 == d2);
    assert(q1 == 144 * (q1 / 144) + q1 % 144);
    assert(q2 == 144 * (q2 / 144) + q2 % 144);
}

/// The ten minutes that an instant falls in, counted from 1970 on.
pub open spec fn window_of(at: Instant) -> int {
    at.secs as int / 600
}

/// Whether the version code of an instant tells its day: the instant is in one
/// of the 46656 days from 2020 on, for which the three digits of the day last.
pub open spec fn is_in_days_of_codes(at: Instant) -> bool {
    EPOCH_SECS <= at.secs < EPOCH_SECS + 46_656 * 86_400
}

/// From 2020 on, and as long as the day's three digits have not run out, the
/// version codes are in the order of the ten minutes that their instants fall
/// in: one code comes before another just where its ten minutes come before
/// those of the other.
pub proof fn lemma_versions_in_order_of_windows(a: Instant, b: Instant)
    requires
        is_in_days_of_codes(a),
        is_in_days_of_codes(b),
    ensures
        lex_lt(version_code(a), version_code(b)) <==> window_of(a) < window_of(b),
{
    if window_of(a) < window_of(b) {
        lemma_versions_ordered(a, b);
    } else if window_of(b) < window_of(a) {
        lemma_versions_ordered(b, a);
        lemma_lex_lt_asymmetric(version_code(b), version_code(a));
    } else {
        lemma_one_code_in_ten_minutes(a, b);
        lemma_lex_lt_irreflexive(version_code(a));
    }
}

/// Of two instants from 2020 on, the one in the earlier ten minutes has the
/// version code that comes first, as long as the day's three digits have not
/// run out: that is for 46656 days. Instants whose seconds are ten minutes apart
/// or more are in different ten minutes.
pub proof fn lemma_versions_ordered(earlier: Instant, later: Instant)
    requires
        EPOCH_SECS <= earlier.secs,
        window_of(earlier) < window_of(later),
        later.secs < EPOCH_SECS + 46_656 * 86_400,
    ensures
        lex_lt(version_code(earlier), version_code(later)),
{
    let d1 = day_number(earlier.secs);
    let d2 = day_number(later.secs);
    let s1 = slot_number(earlier.secs);
    let s2 = slot_number(later.secs);
    lemma_day_and_slot(earlier.secs, later.secs);
    assert(pow(36, 3) == 46_656 && pow(36, 2) == 1_296) by {
        reveal_with_fuel(pow, 4);
    }
    lemma_base36_chars(d1, 3);
    lemma_base36_chars(d2, 3);
    lemma_lex_lt_concat(base36(d1, 3), base36(s1, 2), base36(d2, 3), base36(s2, 2));
    if d1 < d2 {
        assert(d1 % 46_656 == d1 && d2 % 46_656 == d2);
        lemma_base36_ordered(d1, d2, 3);
    } else {
        assert(s1 % 1_296 == s1 && s2 % 1_296 == s2);
        lemma_base36_ordered(s1, s2, 2);
    }
}

} // verus!
