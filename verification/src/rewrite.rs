//! How each match of a normalisation rule is rewritten.

use vstd::prelude::*;

use crate::numtext::{int_text, parse_i32, parse_i32_or_zero, push_i32};
use crate::text::{
    after_char, before, before_char, chars_of, has_char, map_concat, push_chars, replace_char,
    same_chars, second_piece, spec_replace_char, sub_chars, after, index_of, lemma_index_of_is,
};

verus! {

broadcast use vstd::string::group_string_axioms;

/// How a regular-expression match is rewritten.
pub enum Rewrite {
    /// Replace the match by a fixed text.
    Literal(&'static str),
    /// Keep the first character of the match and append `e'a` ("yeah" becomes "ye'a").
    Yeah,
    /// Spell out a clock time or a year (`split_num`).
    SplitNum,
    /// Spell out an amount of money (`flip_money`).
    FlipMoney,
    /// Spell out a decimal number (`point_num`).
    PointNum,
    /// Replace the dots of an abbreviation by dashes (`abbreviation_dots`).
    AbbreviationDots,
}

/// The mathematical value of a [`Rewrite`].
pub ghost enum RewriteSpec {
    Literal(Seq<char>),
    Yeah,
    SplitNum,
    FlipMoney,
    PointNum,
    AbbreviationDots,
}

impl View for Rewrite {
    type V = RewriteSpec;

    open spec fn view(&self) -> RewriteSpec {
        match self {
            Rewrite::Literal(s) => RewriteSpec::Literal(s@),
            Rewrite::Yeah => RewriteSpec::Yeah,
            Rewrite::SplitNum => RewriteSpec::SplitNum,
            Rewrite::FlipMoney => RewriteSpec::FlipMoney,
            Rewrite::PointNum => RewriteSpec::PointNum,
            Rewrite::AbbreviationDots => RewriteSpec::AbbreviationDots,
        }
    }
}

/// What `char::is_alphabetic` answers for `c` (the Unicode `Alphabetic` property).
pub uninterp spec fn alphabetic(c: char) -> bool;

/// Whether `char::is_alphabetic` holds of `c`: for an ASCII character, whether
/// it is a letter; for any other, the answer named by `alphabetic`.
pub open spec fn is_letter(c: char) -> bool {
    if (c as u32) < 128 {
        'a' <= c <= 'z' || 'A' <= c <= 'Z'
    } else {
        alphabetic(c)
    }
}

/// `char::is_alphabetic`: whether `c` has the Unicode `Alphabetic` property.
/// The contract names the answer; of the ASCII characters it states that
/// exactly the letters `A`-`Z` and `a`-`z` have that property.
#[verifier::external_body]
fn is_alphabetic(c: char) -> (b: bool)
    ensures
        b == alphabetic(c),
        (c as u32) < 128 ==> (b <==> ('a' <= c <= 'z' || 'A' <= c <= 'Z')),
{
    c.is_alphabetic()
}

/// `s` padded on the right with `0` to at least `w` characters, as `{:0<w}` formats it.
pub open spec fn pad_zeros(s: Seq<char>, w: nat) -> Seq<char> {
    if s.len() < w {
        s + Seq::new((w - s.len()) as nat, |i: int| '0')
    } else {
        s
    }
}

/// Empty for one, `s` otherwise.
pub open spec fn plural(one: bool) -> Seq<char> {
    if one {
        Seq::empty()
    } else {
        "s"@
    }
}

/// Spoken form of a number the normaliser matched. A text with `.` is kept.
/// With `:`, it is a time: the hour and the minutes (each read as
/// `str::parse::<i32>` reads it, 0 where that fails) become `h o'clock`,
/// `h oh m` or `h m`. Otherwise its first four characters are read as a year:
/// a year from 1100 on whose last three digits are at least 10 is spoken in
/// two halves (`19 90`, `19 hundred`, `19 oh 5`, keeping a final `s`); any
/// other text is kept.
pub open spec fn spec_split_num(num: Seq<char>) -> Seq<char> {
    if num.contains('.') {
        num
    } else if num.contains(':') {
        let h = parse_i32_or_zero(before(num, ':'));
        let m = parse_i32_or_zero(second_piece(num, ':'));
        if m == 0 {
            int_text(h) + " o'clock"@
        } else if m < 10 {
            int_text(h) + " oh "@ + int_text(m)
        } else {
            int_text(h) + " "@ + int_text(m)
        }
    } else {
        let year = if num.len() >= 4 {
            parse_i32_or_zero(num.take(4))
        } else {
            0
        };
        if year < 1100 || year % 1000 < 10 {
            num
        } else {
            let left = num.take(2);
            let right = parse_i32_or_zero(num.subrange(2, 4));
            let s = if num.last() == 's' {
                "s"@
            } else {
                Seq::empty()
            };
            if 100 <= year % 1000 && right == 0 {
                left + " hundred"@ + s
            } else if 100 <= year % 1000 && right < 10 {
                left + " oh "@ + int_text(right) + s
            } else {
                left + " "@ + int_text(right) + s
            }
        }
    }
}

/// Spoken form of an amount of money such as `$5`, `$1.50`, `$3 million`,
/// `£7.10`: dollars after `$`, pounds after any other sign. An empty text is
/// left as it is.
pub open spec fn spec_flip_money(m: Seq<char>) -> Seq<char> {
    if m.len() == 0 {
        m
    } else {
        let dollar = m[0] == '$';
        let bill = if dollar {
            "dollar"@
        } else {
            "pound"@
        };
        let rest = m.skip(1);
        if rest.len() > 0 && is_letter(rest.last()) {
            rest + " "@ + bill + "s"@
        } else if !rest.contains('.') {
            rest + " "@ + bill + plural(rest == "1"@)
        } else {
            let b = before(rest, '.');
            let c = parse_i32_or_zero(pad_zeros(second_piece(rest, '.'), 2));
            let coins = if dollar {
                if c == 1 {
                    "cent"@
                } else {
                    "cents"@
                }
            } else {
                if c == 1 {
                    "penny"@
                } else {
                    "pence"@
                }
            };
            b + " "@ + bill + plural(b == "1"@) + " and "@ + int_text(c) + " "@ + coins
        }
    }
}

/// Each character preceded by a space.
pub open spec fn spaced(s: Seq<char>) -> Seq<char> {
    map_concat(s, |c: char| seq![' ', c])
}

/// Spoken form of a decimal number: `3.14` becomes `3 point 1 4`.
/// A text without `.` is left as it is.
pub open spec fn spec_point_num(num: Seq<char>) -> Seq<char> {
    if !num.contains('.') {
        num
    } else {
        before(num, '.') + " point"@ + spaced(second_piece(num, '.'))
    }
}

/// An abbreviation with its dots replaced by dashes.
pub open spec fn spec_abbreviation_dots(m: Seq<char>) -> Seq<char> {
    spec_replace_char(m, '.', "-"@)
}

/// The first character of the match followed by `e'a`.
pub open spec fn spec_yeah(m: Seq<char>) -> Seq<char> {
    if m.len() > 0 {
        seq![m[0]] + "e'a"@
    } else {
        "e'a"@
    }
}

/// The text a match is replaced by.
pub open spec fn spec_rewrite(rw: RewriteSpec, m: Seq<char>) -> Seq<char> {
    match rw {
        RewriteSpec::Literal(s) => s,
        RewriteSpec::Yeah => spec_yeah(m),
        RewriteSpec::SplitNum => spec_split_num(m),
        RewriteSpec::FlipMoney => spec_flip_money(m),
        RewriteSpec::PointNum => spec_point_num(m),
        RewriteSpec::AbbreviationDots => spec_abbreviation_dots(m),
    }
}

fn parse_or_zero(v: &[char]) -> (r: i32)
    ensures
        r as int == parse_i32_or_zero(v@),
{
    match parse_i32(v) {
        Some(x) => x,
        None => 0,
    }
}

/// Spoken form of a clock time or a year (see `spec_split_num`).
pub fn split_num(num: &str) -> (res: String)
    ensures
        res@ == spec_split_num(num@),
{
    let v = chars_of(num);
    if has_char(&v, '.') {
        return String::from_str(num);
    }
    if has_char(&v, ':') {
        let h = parse_or_zero(&before_char(&v, ':'));
        let a = after_char(&v, ':');
        let m = parse_or_zero(&before_char(&a, ':'));
        let mut out = String::new();
        push_i32(&mut out, h);
        if m == 0 {
            out.append(" o'clock");
        } else if m < 10 {
            out.append(" oh ");
            push_i32(&mut out, m);
        } else {
            out.append(" ");
            push_i32(&mut out, m);
        }
        assert(out@ =~= spec_split_num(num@));
        return out;
    }
    let year: i32 = if v.len() >= 4 {
        parse_or_zero(&sub_chars(&v, 0, 4))
    } else {
        0
    };
    assert(v@.subrange(0, 4) =~= v@.take(4)) by {
        if v.len() >= 4 {
            assert(v@.subrange(0, 4) =~= v@.take(4));
        }
    }
    if year < 1100 || year % 1000 < 10 {
        return String::from_str(num);
    }
    let left = sub_chars(&v, 0, 2);
    let right = parse_or_zero(&sub_chars(&v, 2, 4));
    let ends_s = v[v.len() - 1] == 's';
    let mut out = String::new();
    push_chars(&mut out, &left);
    if 100 <= year % 1000 && right == 0 {
        out.append(" hundred");
    } else if 100 <= year % 1000 && right < 10 {
        out.append(" oh ");
        push_i32(&mut out, right);
    } else {
        out.append(" ");
        push_i32(&mut out, right);
    }
    if ends_s {
        out.append("s");
    }
    assert(v@.subrange(0, 2) =~= v@.take(2));
    assert(out@ =~= spec_split_num(num@));
    out
}


/// `v` padded on the right with `0` to at least two characters.
fn pad_zeros2(v: &[char]) -> (res: Vec<char>)
    ensures
        res@ == pad_zeros(v@, 2),
{
    let mut res = sub_chars(v, 0, v.len());
    assert(v@.subrange(0, v@.len() as int) =~= v@);
    while res.len() < 2
        invariant
            res.len() <= 2 ==> res@ == v@ + Seq::new((res.len() - v@.len()) as nat, |i: int| '0'),
            res.len() >= v@.len(),
            res.len() > 2 ==> res@ == v@,
            v@.len() >= 2 ==> res@ == v@,
        decreases 2 - res.len(),
    {
        let ghost old_res = res@;
        res.push('0');
        assert(res@ =~= v@ + Seq::new((res.len() - v@.len()) as nat, |i: int| '0'));
    }
    if v.len() < 2 {
        assert(res@ =~= pad_zeros(v@, 2));
    } else {
        assert(res@ == v@);
    }
    res
}

/// Spoken form of an amount of money (see `spec_flip_money`).
pub fn flip_money(m: &str) -> (res: String)
    ensures
        res@ == spec_flip_money(m@),
{
    let v = chars_of(m);
    if v.len() == 0 {
        return String::from_str(m);
    }
    let dollar = v[0] == '$';
    let bill: &'static str = if dollar {
        "dollar"
    } else {
        "pound"
    };
    let rest = sub_chars(&v, 1, v.len());
    assert(rest@ =~= m@.skip(1));
    let one = vec!['1'];
    proof {
        reveal_strlit("1");
        assert(one@ =~= "1"@);
    }
    if rest.len() > 0 && is_alphabetic(rest[rest.len() - 1]) {
        let mut out = String::new();
        push_chars(&mut out, &rest);
        out.append(" ");
        out.append(bill);
        out.append("s");
        assert(out@ =~= spec_flip_money(m@));
        return out;
    }
    if !has_char(&rest, '.') {
        let mut out = String::new();
        push_chars(&mut out, &rest);
        out.append(" ");
        out.append(bill);
        if !same_chars(&rest, &one) {
            out.append("s");
        }
        assert(out@ =~= spec_flip_money(m@));
        return out;
    }
    let b = before_char(&rest, '.');
    let tail = after_char(&rest, '.');
    let cents_text = pad_zeros2(&before_char(&tail, '.'));
    let c = parse_or_zero(&cents_text);
    let coins: &'static str = if dollar {
        if c == 1 {
            "cent"
        } else {
            "cents"
        }
    } else {
        if c == 1 {
            "penny"
        } else {
            "pence"
        }
    };
    let mut out = String::new();
    push_chars(&mut out, &b);
    out.append(" ");
    out.append(bill);
    if !same_chars(&b, &one) {
        out.append("s");
    }
    out.append(" and ");
    push_i32(&mut out, c);
    out.append(" ");
    out.append(coins);
    assert(out@ =~= spec_flip_money(m@));
    out
}

/// Spoken form of a decimal number (see `spec_point_num`).
pub fn point_num(num: &str) -> (res: String)
    ensures
        res@ == spec_point_num(num@),
{
    let v = chars_of(num);
    if !has_char(&v, '.') {
        return String::from_str(num);
    }
    let a = before_char(&v, '.');
    let tail = after_char(&v, '.');
    let b = before_char(&tail, '.');
    let mut out = String::new();
    push_chars(&mut out, &a);
    out.append(" point");
    let ghost f = |c: char| seq![' ', c];
    let ghost start = out@;
    let mut i: usize = 0;
    while i < b.len()
        invariant
            i <= b.len(),
            f == (|c: char| seq![' ', c]),
            out@ == start + map_concat(b@.take(i as int), f),
        decreases b.len() - i,
    {
        assert(b@.take(i + 1).drop_last() =~= b@.take(i as int));
        out.push(' ');
        out.push(b[i]);
        i = i + 1;
        assert(out@ =~= start + map_concat(b@.take(i as int), f));
    }
    assert(b@.take(b.len() as int) =~= b@);
    assert(out@ =~= spec_point_num(num@));
    out
}

/// An abbreviation with its dots replaced by dashes.
pub fn abbreviation_dots(m: &str) -> (res: String)
    ensures
        res@ == spec_abbreviation_dots(m@),
{
    replace_char(m, '.', "-")
}

/// The first character of the match followed by `e'a`.
pub fn yeah(m: &str) -> (res: String)
    ensures
        res@ == spec_yeah(m@),
{
    let v = chars_of(m);
    let mut out = String::new();
    if v.len() > 0 {
        out.push(v[0]);
    }
    out.append("e'a");
    assert(out@ =~= spec_yeah(m@));
    out
}

/// The text that replaces the match `m` under `rw`.
pub fn rewrite_match(rw: &Rewrite, m: &str) -> (res: String)
    ensures
        res@ == spec_rewrite(rw@, m@),
{
    match rw {
        Rewrite::Literal(s) => String::from_str(s),
        Rewrite::Yeah => yeah(m),
        Rewrite::SplitNum => split_num(m),
        Rewrite::FlipMoney => flip_money(m),
        Rewrite::PointNum => point_num(m),
        Rewrite::AbbreviationDots => abbreviation_dots(m),
    }
}

/// Each character preceded by a space: twice as long, a space at every even
/// position and the `i`-th character at position `2 * i + 1`.
proof fn lemma_spaced(d: Seq<char>)
    ensures
        spaced(d).len() == 2 * d.len(),
        forall|i: int|
            0 <= i < d.len() ==> #[trigger] spaced(d)[2 * i] == ' ' && spaced(d)[2 * i + 1] == d[i],
    decreases d.len(),
{
    if d.len() > 0 {
        lemma_spaced(d.drop_last());
        let p = spaced(d.drop_last());
        assert(spaced(d) == p + seq![' ', d.last()]);
        assert forall|i: int| 0 <= i < d.len() implies #[trigger] spaced(d)[2 * i] == ' '
            && spaced(d)[2 * i + 1] == d[i] by {
            if i < d.len() - 1 {
                assert(p[2 * i] == ' ');
                assert(d.drop_last()[i] == d[i]);
            }
        }
    }
}

/// A decimal number `a.d` (one dot) is spoken as `a`, then ` point`, then every
/// character after the dot, each preceded by a space: no digit is dropped,
/// reordered or added.
pub proof fn law_point_num_spells_every_digit(a: Seq<char>, d: Seq<char>)
    requires
        !a.contains('.'),
        !d.contains('.'),
    ensures
        ({
            let r = spec_point_num(a + seq!['.'] + d);
            &&& r.len() == a.len() + 6 + 2 * d.len()
            &&& r.take(a.len() + 6int) == a + seq![' ', 'p', 'o', 'i', 'n', 't']
            &&& forall|i: int|
                0 <= i < d.len() ==> #[trigger] r[a.len() + 7 + 2 * i] == d[i] && r[a.len() + 6 + 2
                    * i] == ' '
        }),
{
    let num = a + seq!['.'] + d;
    reveal_strlit(" point");
    assert(num[a.len() as int] == '.');
    assert(num.contains('.'));
    assert forall|j: int| 0 <= j < a.len() implies num[j] != '.' by {
        assert(num[j] == a[j]);
    }
    lemma_index_of_is(num, '.', a.len() as int);
    assert(before(num, '.') =~= a);
    assert(after(num, '.') =~= d);
    assert forall|j: int| 0 <= j < d.len() implies d[j] != '.' by {
        assert(d.contains(d[j]));
    }
    lemma_index_of_is(d, '.', d.len() as int);
    assert(second_piece(num, '.') =~= d);
    lemma_spaced(d);
    let r = spec_point_num(num);
    assert(r == a + " point"@ + spaced(d));
    assert(r.take(a.len() + 6int) =~= a + seq![' ', 'p', 'o', 'i', 'n', 't']);
    assert forall|i: int| 0 <= i < d.len() implies #[trigger] r[a.len() + 7 + 2 * i] == d[i]
        && r[a.len() + 6 + 2 * i] == ' ' by {
        assert(r[a.len() + 7 + 2 * i] == spaced(d)[2 * i + 1]);
        assert(r[a.len() + 6 + 2 * i] == spaced(d)[2 * i]);
    }
}

} // verus!
