//! Decimal integers: parsing as `str::parse` does, and formatting.

use vstd::prelude::*;

verus! {

/// Whether `c` is one of `0`..`9`.
pub open spec fn is_digit(c: char) -> bool {
    '0' <= c && c <= '9'
}

/// The value of a digit character.
pub open spec fn digit_value(c: char) -> int {
    (c as int) - ('0' as int)
}

/// Whether every character of `s` is an ASCII digit.
pub open spec fn all_digits(s: Seq<char>) -> bool {
    forall|i: int| 0 <= i < s.len() ==> #[trigger] is_digit(s[i])
}

/// The number a string of decimal digits denotes.
pub open spec fn digits_value(s: Seq<char>) -> int
    decreases s.len(),
{
    if s.len() == 0 {
        0
    } else {
        10 * digits_value(s.drop_last()) + digit_value(s.last())
    }
}

/// What `str::parse::<i32>` gives: an optional `+` or `-` sign followed by at
/// least one ASCII digit, with a value in the range of `i32`.
pub open spec fn spec_parse_i32(s: Seq<char>) -> Option<int> {
    if s.len() == 0 || (s.len() == 1 && (s[0] == '+' || s[0] == '-')) {
        None
    } else {
        let neg = s[0] == '-';
        let d = if s[0] == '+' || s[0] == '-' { s.skip(1) } else { s };
        if !all_digits(d) {
            None
        } else {
            let v: int = if neg { -digits_value(d) } else { digits_value(d) };
            if i32::MIN <= v && v <= i32::MAX {
                Some(v)
            } else {
                None
            }
        }
    }
}

/// What `str::parse::<usize>` gives: an optional `+` sign followed by at least
/// one ASCII digit, with a value that fits in `usize`.
pub open spec fn spec_parse_usize(s: Seq<char>) -> Option<int> {
    if s.len() == 0 || (s.len() == 1 && s[0] == '+') {
        None
    } else {
        let d = if s[0] == '+' { s.skip(1) } else { s };
        if !all_digits(d) || digits_value(d) > usize::MAX {
            None
        } else {
            Some(digits_value(d))
        }
    }
}

/// `str::parse::<i32>` followed by `unwrap_or(0)`.
pub open spec fn parse_i32_or_zero(s: Seq<char>) -> int {
    match spec_parse_i32(s) {
        Some(v) => v,
        None => 0,
    }
}

proof fn lemma_digits_value_step(s: Seq<char>, i: int)
    requires
        0 <= i < s.len(),
    ensures
        digits_value(s.take(i + 1)) == 10 * digits_value(s.take(i)) + digit_value(s[i]),
{
    assert(s.take(i + 1).drop_last() =~= s.take(i));
}

/// Reads the digits `d[start..]`: `Some` of their value when all are digits
/// and the value is at most `limit`, `None` otherwise.
fn digits_up_to(d: &[char], start: usize, limit: u64) -> (res: Option<u64>)
    requires
        start <= d.len(),
    ensures
        ({
            let t = d@.skip(start as int);
            match res {
                Some(v) => all_digits(t) && v == digits_value(t) && v <= limit,
                None => !all_digits(t) || digits_value(t) > limit,
            }
        }),
{
    let ghost t = d@.skip(start as int);
    let mut acc: u64 = 0;
    let mut big = false;
    let mut i: usize = start;
    while i < d.len()
        invariant
            start <= i <= d.len(),
            t == d@.skip(start as int),
            all_digits(t.take(i - start)),
            !big ==> acc == digits_value(t.take(i - start)) && acc <= limit,
            big ==> digits_value(t.take(i - start)) > limit,
        decreases d.len() - i,
    {
        let c = d[i];
        if !('0' <= c && c <= '9') {
            assert(!is_digit(t[i - start]));
            return None;
        }
        proof {
            lemma_digits_value_step(t, i - start);
            assert(t.take(i - start + 1) =~= t.take(i - start).push(c));
        }
        let dv = (c as u32 - '0' as u32) as u128;
        if !big {
            let next: u128 = (acc as u128) * 10 + dv;
            if next > limit as u128 {
                big = true;
            } else {
                acc = next as u64;
            }
        } else {
            proof {
                let x = digits_value(t.take(i - start));
                assert(10 * x + digit_value(c) > limit) by (nonlinear_arith)
                    requires
                        x > limit,
                        digit_value(c) >= 0,
                ;
            }
        }
        i = i + 1;
    }
    assert(t.take(i - start) =~= t);
    if big {
        None
    } else {
        Some(acc)
    }
}

/// `s.parse::<i32>()` in std's sense (see `spec_parse_i32`).
pub fn parse_i32(s: &[char]) -> (res: Option<i32>)
    ensures
        match res {
            Some(v) => spec_parse_i32(s@) == Some(v as int),
            None => spec_parse_i32(s@) is None,
        },
{
    if s.len() == 0 || (s.len() == 1 && (s[0] == '+' || s[0] == '-')) {
        return None;
    }
    let neg = s[0] == '-';
    let start: usize = if s[0] == '+' || s[0] == '-' { 1 } else { 0 };
    assert(s@.skip(0) =~= s@);
    match digits_up_to(s, start, 2147483648) {
        None => None,
        Some(v) => {
            if neg {
                Some((0 - (v as i64)) as i32)
            } else if v <= 2147483647 {
                Some(v as i32)
            } else {
                None
            }
        },
    }
}

/// `s.parse::<usize>()` in std's sense (see `spec_parse_usize`).
pub fn parse_usize(s: &[char]) -> (res: Option<usize>)
    ensures
        match res {
            Some(v) => spec_parse_usize(s@) == Some(v as int),
            None => spec_parse_usize(s@) is None,
        },
{
    if s.len() == 0 || (s.len() == 1 && s[0] == '+') {
        return None;
    }
    let start: usize = if s[0] == '+' { 1 } else { 0 };
    assert(s@.skip(0) =~= s@);
    match digits_up_to(s, start, usize::MAX as u64) {
        None => None,
        Some(v) => Some(v as usize),
    }
}


/// The digit character for `d` in `0..10`.
pub open spec fn digit_char(d: int) -> char {
    (('0' as int) + d) as char
}

/// Decimal text of a natural number, without leading zeros.
pub open spec fn nat_text(n: nat) -> Seq<char>
    decreases n,
{
    if n < 10 {
        seq![digit_char(n as int)]
    } else {
        nat_text(n / 10).push(digit_char((n % 10) as int))
    }
}

/// Decimal text of an integer, as `{}` formats it: a `-` before negative values.
pub open spec fn int_text(v: int) -> Seq<char> {
    if v < 0 {
        seq!['-'] + nat_text((-v) as nat)
    } else {
        nat_text(v as nat)
    }
}

fn push_nat(out: &mut String, n: u64)
    ensures
        final(out)@ == old(out)@ + nat_text(n as nat),
    decreases n,
{
    if n < 10 {
        out.push(char_of_digit(n as u32));
    } else {
        push_nat(out, n / 10);
        out.push(char_of_digit((n % 10) as u32));
        assert(nat_text(n as nat) == nat_text((n / 10) as nat).push(digit_char((n % 10) as int)));
    }
}

fn char_of_digit(d: u32) -> (c: char)
    requires
        d < 10,
    ensures
        c == digit_char(d as int),
{
    match d {
        0 => '0',
        1 => '1',
        2 => '2',
        3 => '3',
        4 => '4',
        5 => '5',
        6 => '6',
        7 => '7',
        8 => '8',
        _ => '9',
    }
}

/// Appends the decimal text of `v` to `out`.
pub fn push_i32(out: &mut String, v: i32)
    ensures
        final(out)@ == old(out)@ + int_text(v as int),
{
    if v < 0 {
        out.push('-');
        let m: u64 = (0 - (v as i64)) as u64;
        push_nat(out, m);
        assert(final(out)@ =~= old(out)@ + int_text(v as int)) by {
            assert(seq!['-'] + nat_text(m as nat) =~= int_text(v as int));
        }
    } else {
        push_nat(out, v as u64);
    }
}

} // verus!
