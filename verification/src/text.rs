//! Scanning of text by position: separators, surrounding whitespace, words
//! and decimal numbers.

use crate::geometry::Ratio;
use vstd::prelude::*;
use vstd::string::StrSliceExecFns;

verus! {

/// Whether `c` is white space: one of the characters that Unicode calls
/// `White_Space`.
pub open spec fn is_space(c: char) -> bool {
    let v = c as u32;
    ||| 0x09 <= v <= 0x0d
    ||| v == 0x20
    ||| v == 0x85
    ||| v == 0xa0
    ||| v == 0x1680
    ||| 0x2000 <= v <= 0x200a
    ||| v == 0x2028
    ||| v == 0x2029
    ||| v == 0x202f
    ||| v == 0x205f
    ||| v == 0x3000
}

/// The position of the first `c` in `s` from `from` on and before `to`, or
/// `to` if there is none.
pub open spec fn scan_to(s: Seq<char>, c: char, from: int, to: int) -> int
    decreases to - from,
{
    if from >= to {
        to
    } else if s[from] == c {
        from
    } else {
        scan_to(s, c, from + 1, to)
    }
}

/// The position of the first character in `s` from `from` on and before `to`
/// that is not white space, or `to` if there is none.
pub open spec fn skip_spaces(s: Seq<char>, from: int, to: int) -> int
    decreases to - from,
{
    if from >= to {
        to
    } else if !is_space(s[from]) {
        from
    } else {
        skip_spaces(s, from + 1, to)
    }
}

/// The position behind the last character in `s` before `to` and not before
/// `from` that is not white space, or `from` if there is none.
pub open spec fn drop_spaces(s: Seq<char>, from: int, to: int) -> int
    decreases to - from,
{
    if from >= to {
        from
    } else if !is_space(s[to - 1]) {
        to
    } else {
        drop_spaces(s, from, to - 1)
    }
}

/// The characters of `s` between `from` and `to` without the white space
/// before and behind them.
pub open spec fn trimmed(s: Seq<char>, from: int, to: int) -> Seq<char> {
    let start = skip_spaces(s, from, to);
    s.subrange(start, drop_spaces(s, start, to))
}

/// Whether `c` is one of the digits `0` to `9`.
pub open spec fn is_digit(c: char) -> bool {
    '0' <= c <= '9'
}

/// Whether `s` is made of digits only.
pub open spec fn all_digits(s: Seq<char>) -> bool {
    forall|i: int| 0 <= i < s.len() ==> is_digit(#[trigger] s[i])
}

/// The number that the digit `c` denotes; 0 if `c` is no digit.
pub open spec fn digit_value(c: char) -> nat {
    if is_digit(c) {
        (c as u32 - '0' as u32) as nat
    } else {
        0
    }
}

/// The number that the digits `s` denote in base ten.
pub open spec fn digits_value(s: Seq<char>) -> nat
    decreases s.len(),
{
    if s.len() == 0 {
        0
    } else {
        digits_value(s.drop_last()) * 10 + digit_value(s.last())
    }
}

/// The whole number that `s` denotes: digits, at least one, after an optional
/// sign. `None` if `s` is not of that form. A minus sign is read only where
/// `signed` says so.
pub open spec fn parse_int(s: Seq<char>, signed: bool) -> Option<int> {
    if s.len() > 0 && (s[0] == '+' || (signed && s[0] == '-')) {
        let digits = s.drop_first();
        if digits.len() > 0 && all_digits(digits) {
            Some(
                if s[0] == '-' {
                    -(digits_value(digits) as int)
                } else {
                    digits_value(digits) as int
                },
            )
        } else {
            None
        }
    } else if s.len() > 0 && all_digits(s) {
        Some(digits_value(s) as int)
    } else {
        None
    }
}

/// The number that `s` denotes, if `s` denotes a whole number of 16 bits.
pub open spec fn parse_i16(s: Seq<char>) -> Option<i16> {
    match parse_int(s, true) {
        Some(v) => if i16::MIN <= v <= i16::MAX {
            Some(v as i16)
        } else {
            None
        },
        None => None,
    }
}

/// The number that `s` denotes, if `s` denotes a whole number of 32 bits
/// without a minus sign.
pub open spec fn parse_u32(s: Seq<char>) -> Option<u32> {
    match parse_int(s, false) {
        Some(v) => if v <= u32::MAX {
            Some(v as u32)
        } else {
            None
        },
        None => None,
    }
}

/// Ten to the power of `n`.
pub open spec fn pow10(n: nat) -> nat
    decreases n,
{
    if n == 0 {
        1
    } else {
        10 * pow10((n - 1) as nat)
    }
}

/// The number that `s` denotes in decimal notation, as a fraction over a power
/// of ten: digits, at least one, of which any number may stand behind one
/// point, after an optional plus sign. `None` if `s` is not of that form, has
/// more than nine digits behind the point, or denotes more than 32 bits hold.
pub open spec fn parse_decimal(s: Seq<char>) -> Option<Ratio> {
    let body = if s.len() > 0 && s[0] == '+' {
        s.drop_first()
    } else {
        s
    };
    let point = scan_to(body, '.', 0, body.len() as int);
    let whole = body.take(point);
    let fraction = if point < body.len() {
        body.skip(point + 1)
    } else {
        Seq::empty()
    };
    decimal_of(whole, fraction)
}

/// The number with the digits `whole` before the point and the digits
/// `fraction` behind it, if those are digits, at least one and at most nine
/// behind the point, and the number fits.
pub open spec fn decimal_of(whole: Seq<char>, fraction: Seq<char>) -> Option<Ratio> {
    if whole.len() + fraction.len() > 0 && all_digits(whole) && all_digits(fraction)
        && fraction.len() <= 9 && digits_value(whole + fraction) <= u32::MAX {
        Some(
            Ratio {
                num: digits_value(whole + fraction) as u32,
                den: pow10(fraction.len()) as u32,
            },
        )
    } else {
        None
    }
}

/// Digits denote at least what fewer of them denote.
pub proof fn lemma_digits_value_grows(s: Seq<char>, k: int)
    requires
        0 <= k <= s.len(),
        all_digits(s),
    ensures
        digits_value(s.take(k)) <= digits_value(s),
    decreases s.len(),
{
    if k < s.len() {
        let t = s.drop_last();
        assert(t.take(k) =~= s.take(k));
        assert(is_digit(s.last()));
        lemma_digits_value_grows(t, k);
    } else {
        assert(s.take(k) =~= s);
    }
}

/// Scanning a part of a text is scanning the text between the ends of the part.
pub proof fn lemma_scan_to_in_part(s: Seq<char>, c: char, from: int, at: int, to: int)
    requires
        0 <= from <= at <= to <= s.len(),
    ensures
        scan_to(s.subrange(from, to), c, at - from, to - from) == scan_to(s, c, at, to) - from,
    decreases to - at,
{
    if at < to {
        assert(s.subrange(from, to)[at - from] == s[at]);
        lemma_scan_to_in_part(s, c, from, at + 1, to);
    }
}

/// `n` digits denote less than ten to the power of `n`.
pub proof fn lemma_digits_value_bound(s: Seq<char>)
    requires
        all_digits(s),
    ensures
        digits_value(s) < pow10(s.len()),
    decreases s.len(),
{
    if s.len() > 0 {
        assert(is_digit(s.last()));
        lemma_digits_value_bound(s.drop_last());
    }
}

/// Digits behind digits: the first denote their number times the power of
/// ten that the count of the second gives.
pub proof fn lemma_digits_value_of_two(a: Seq<char>, b: Seq<char>)
    ensures
        digits_value(a + b) == digits_value(a) * pow10(b.len()) + digits_value(b),
    decreases b.len(),
{
    if b.len() == 0 {
        assert(a + b =~= a);
        assert(digits_value(a) * 1 == digits_value(a)) by (nonlinear_arith);
    } else {
        assert((a + b).drop_last() =~= a + b.drop_last());
        assert((a + b).last() == b.last());
        lemma_digits_value_of_two(a, b.drop_last());
        let va = digits_value(a) as int;
        let vb = digits_value(b.drop_last()) as int;
        let p = pow10((b.len() - 1) as nat) as int;
        let q = pow10(b.len()) as int;
        assert((va * p + vb) * 10 == va * q + vb * 10) by (nonlinear_arith)
            requires
                q == 10 * p,
        ;
    }
}

/// Whether `c` is white space.
pub fn space(c: char) -> (r: bool)
    ensures
        r == is_space(c),
{
    let v = c as u32;
    (0x09 <= v && v <= 0x0d) || v == 0x20 || v == 0x85 || v == 0xa0 || v == 0x1680 || (0x2000 <= v
        && v <= 0x200a) || v == 0x2028 || v == 0x2029 || v == 0x202f || v == 0x205f || v == 0x3000
}

/// The characters of `text`, one by one.
pub fn characters(text: &str) -> (chars: Vec<char>)
    ensures
        chars@ == text@,
{
    let mut chars: Vec<char> = Vec::new();
    for c in it: text.chars()
        invariant
            chars@ == it.seq().take(it.index() as int),
            it.seq() == text@,
    {
        proof {
            assert(it.seq().take(it.index() + 1) =~= it.seq().take(it.index() as int).push(c));
        }
        chars.push(c);
    }
    assert(chars@ =~= text@);
    chars
}

/// Finds the first `c` in `chars` from `from` on and before `to`.
pub fn find(chars: &Vec<char>, c: char, from: usize, to: usize) -> (at: usize)
    requires
        from <= to <= chars@.len(),
    ensures
        at == scan_to(chars@, c, from as int, to as int),
        from <= at <= to,
        at < to ==> chars@[at as int] == c,
{
    let mut at = from;
    while at < to && chars[at] != c
        invariant
            from <= at <= to <= chars@.len(),
            scan_to(chars@, c, from as int, to as int) == scan_to(chars@, c, at as int, to as int),
        decreases to - at,
    {
        at += 1;
    }
    at
}

/// Finds the part of `chars` between `from` and `to` that is left when the
/// white space around it is taken away.
pub fn trim(chars: &Vec<char>, from: usize, to: usize) -> (r: (usize, usize))
    requires
        from <= to <= chars@.len(),
    ensures
        from <= r.0 <= r.1 <= to,
        r.0 == skip_spaces(chars@, from as int, to as int),
        r.1 == drop_spaces(chars@, r.0 as int, to as int),
        chars@.subrange(r.0 as int, r.1 as int) == trimmed(chars@, from as int, to as int),
{
    let mut start = from;
    while start < to && space(chars[start])
        invariant
            from <= start <= to <= chars@.len(),
            skip_spaces(chars@, from as int, to as int) == skip_spaces(
                chars@,
                start as int,
                to as int,
            ),
        decreases to - start,
    {
        start += 1;
    }
    let mut end = to;
    while start < end && space(chars[end - 1])
        invariant
            start <= end <= to <= chars@.len(),
            drop_spaces(chars@, start as int, to as int) == drop_spaces(
                chars@,
                start as int,
                end as int,
            ),
        decreases end - start,
    {
        end -= 1;
    }
    (start, end)
}

/// Whether the characters of `chars` between `from` and `to` spell `word`.
pub fn spells(chars: &Vec<char>, from: usize, to: usize, word: &str) -> (r: bool)
    requires
        from <= to <= chars@.len(),
    ensures
        r == (chars@.subrange(from as int, to as int) == word@),
{
    let n = word.unicode_len();
    if to - from != n {
        return false;
    }
    let mut i: usize = 0;
    while i < n
        invariant
            i <= n == word@.len(),
            to - from == n,
            from <= to <= chars@.len(),
            forall|k: int| 0 <= k < i ==> chars@[from + k] == word@[k],
        decreases n - i,
    {
        if chars[from + i] != word.get_char(i) {
            assert(chars@.subrange(from as int, to as int)[i as int] != word@[i as int]);
            return false;
        }
        i += 1;
    }
    assert(chars@.subrange(from as int, to as int) =~= word@);
    true
}

/// Reads digits: the number that the characters of `chars` between `from`
/// and `to` denote, if all of them are digits and the number is at most
/// `limit`.
fn read_digits(chars: &Vec<char>, from: usize, to: usize, limit: u64) -> (r: Option<u64>)
    requires
        from <= to <= chars@.len(),
        limit <= u32::MAX,
    ensures
        r == (if all_digits(chars@.subrange(from as int, to as int)) && digits_value(
            chars@.subrange(from as int, to as int),
        ) <= limit {
            Some(digits_value(chars@.subrange(from as int, to as int)) as u64)
        } else {
            None
        }),
{
    let ghost s = chars@.subrange(from as int, to as int);
    let mut value: u64 = 0;
    let mut i: usize = from;
    while i < to
        invariant
            from <= i <= to <= chars@.len(),
            s == chars@.subrange(from as int, to as int),
            all_digits(s.take(i - from)),
            value == digits_value(s.take(i - from)),
            value <= limit <= u32::MAX,
        decreases to - i,
    {
        let c = chars[i];
        let ghost next = s.take(i - from + 1);
        proof {
            assert(next.drop_last() =~= s.take(i - from));
            assert(next.last() == c);
            assert(s[i - from] == c);
        }
        if !('0' <= c && c <= '9') {
            return None;
        }
        let digit: u64 = (c as u32 - '0' as u32) as u64;
        value = value * 10 + digit;
        proof {
            assert(value == digits_value(next));
            assert forall|k: int| 0 <= k < next.len() implies is_digit(#[trigger] next[k]) by {
                if k < next.len() - 1 {
                    assert(s.take(i - from)[k] == next[k]);
                }
            }
        }
        if value > limit {
            proof {
                if all_digits(s) {
                    lemma_digits_value_grows(s, i - from + 1);
                }
            }
            return None;
        }
        i += 1;
    }
    assert(s.take(to - from) =~= s);
    Some(value)
}

/// Reads a whole number of 16 bits from the characters of `chars` between
/// `from` and `to`.
pub fn read_i16(chars: &Vec<char>, from: usize, to: usize) -> (r: Option<i16>)
    requires
        from <= to <= chars@.len(),
    ensures
        r == parse_i16(chars@.subrange(from as int, to as int)),
{
    let ghost s = chars@.subrange(from as int, to as int);
    if from == to {
        return None;
    }
    let sign = chars[from];
    assert(s[0] == sign);
    if sign == '+' || sign == '-' {
        assert(s.drop_first() =~= chars@.subrange(from + 1, to as int));
        if from + 1 == to {
            return None;
        }
        let limit: u64 = if sign == '-' {
            32768
        } else {
            32767
        };
        match read_digits(chars, from + 1, to, limit) {
            Some(v) => if sign == '-' {
                Some((-(v as i32)) as i16)
            } else {
                Some(v as i16)
            },
            None => None,
        }
    } else {
        match read_digits(chars, from, to, 32767) {
            Some(v) => Some(v as i16),
            None => None,
        }
    }
}

/// Reads a whole number of 32 bits without a minus sign from the characters
/// of `chars` between `from` and `to`.
pub fn read_u32(chars: &Vec<char>, from: usize, to: usize) -> (r: Option<u32>)
    requires
        from <= to <= chars@.len(),
    ensures
        r == parse_u32(chars@.subrange(from as int, to as int)),
{
    let ghost s = chars@.subrange(from as int, to as int);
    if from == to {
        return None;
    }
    let sign = chars[from];
    assert(s[0] == sign);
    let start = if sign == '+' {
        from + 1
    } else {
        from
    };
    assert(sign == '+' ==> s.drop_first() =~= chars@.subrange(from + 1, to as int));
    if start == to {
        return None;
    }
    match read_digits(chars, start, to, 0xffff_ffff) {
        Some(v) => Some(v as u32),
        None => None,
    }
}

/// Ten to the power of `k`.
fn power_of_ten(k: usize) -> (r: u64)
    requires
        k <= 9,
    ensures
        r == pow10(k as nat),
        1 <= r <= 1_000_000_000,
{
    proof {
        reveal_with_fuel(pow10, 10);
    }
    let mut r: u64 = 1;
    let mut i: usize = 0;
    while i < k
        invariant
            i <= k <= 9,
            r == pow10(i as nat),
            pow10(9) == 1_000_000_000,
        decreases k - i,
    {
        proof {
            lemma_pow10_grows((i + 1) as nat, 9);
        }
        r = r * 10;
        i += 1;
    }
    proof {
        lemma_pow10_grows(k as nat, 9);
        lemma_pow10_positive(k as nat);
    }
    r
}

/// A power of ten is at least one.
pub proof fn lemma_pow10_positive(n: nat)
    ensures
        pow10(n) >= 1,
    decreases n,
{
    if n > 0 {
        lemma_pow10_positive((n - 1) as nat);
    }
}

/// Reads a number in decimal notation whose digits before the point stand
/// in `chars` between `from` and `point` and those behind it between `after`
/// and `to`.
fn read_decimal_parts(chars: &Vec<char>, from: usize, point: usize, after: usize, to: usize) -> (r:
    Option<Ratio>)
    requires
        from <= point <= after <= to <= chars@.len(),
    ensures
        r == decimal_of(
            chars@.subrange(from as int, point as int),
            chars@.subrange(after as int, to as int),
        ),
{
    let ghost whole = chars@.subrange(from as int, point as int);
    let ghost fraction = chars@.subrange(after as int, to as int);
    let places = to - after;
    if (point - from) + places == 0 || places > 9 {
        return None;
    }
    proof {
        lemma_digits_value_of_two(whole, fraction);
        lemma_pow10_positive(fraction.len());
        lemma_pow10_grows(fraction.len(), 9);
        assert(pow10(9) == 1_000_000_000) by {
            reveal_with_fuel(pow10, 10);
        }
        assert(digits_value(whole) * pow10(fraction.len()) >= digits_value(whole))
            by (nonlinear_arith)
            requires
                pow10(fraction.len()) >= 1,
        ;
        if all_digits(fraction) {
            lemma_digits_value_bound(fraction);
        }
    }
    let high = match read_digits(chars, from, point, 0xffff_ffff) {
        Some(v) => v,
        None => {
            return None;
        },
    };
    let low = match read_digits(chars, after, to, 0xffff_ffff) {
        Some(v) => v,
        None => {
            return None;
        },
    };
    let scale = power_of_ten(places);
    assert(high * scale <= 0xffff_ffff * 1_000_000_000) by (nonlinear_arith)
        requires
            high <= 0xffff_ffff,
            scale <= 1_000_000_000,
    ;
    let value = high * scale + low;
    if value > 0xffff_ffff {
        return None;
    }
    Some(Ratio { num: value as u32, den: scale as u32 })
}

/// Reads a number in decimal notation from the characters of `chars` between
/// `from` and `to`.
pub fn read_decimal(chars: &Vec<char>, from: usize, to: usize) -> (r: Option<Ratio>)
    requires
        from <= to <= chars@.len(),
    ensures
        r == parse_decimal(chars@.subrange(from as int, to as int)),
{
    let ghost s = chars@.subrange(from as int, to as int);
    let start = if from < to && chars[from] == '+' {
        from + 1
    } else {
        from
    };
    let point = find(chars, '.', start, to);
    let after = if point < to {
        point + 1
    } else {
        to
    };
    proof {
        let body = chars@.subrange(start as int, to as int);
        if from < to {
            assert(s[0] == chars@[from as int]);
        }
        assert(body =~= if s.len() > 0 && s[0] == '+' {
            s.drop_first()
        } else {
            s
        });
        lemma_scan_to_in_part(chars@, '.', start as int, start as int, to as int);
        assert(chars@.subrange(start as int, point as int) =~= body.take(point - start));
        assert(chars@.subrange(after as int, to as int) =~= if point - start < body.len() {
            body.skip(point - start + 1)
        } else {
            Seq::empty()
        });
    }
    read_decimal_parts(chars, start, point, after, to)
}

/// A higher power of ten is not less.
pub proof fn lemma_pow10_grows(n: nat, m: nat)
    requires
        n <= m,
    ensures
        pow10(n) <= pow10(m),
    decreases m,
{
    if n < m {
        lemma_pow10_grows(n, (m - 1) as nat);
    }
}

} // verus!
