//! Text normalisation: punctuation unified, titles, numbers, money and
//! abbreviations spelled out, before the text is phonemised.

use vstd::prelude::*;

use crate::regex::{apply_rule, spec_apply_rule, spec_apply_rules};
use crate::rewrite::{Rewrite, RewriteSpec};
use crate::text::{is_ws, lemma_trim, law_trim_idempotent, replace_char, spec_replace_char, spec_trim, trim};

verus! {

broadcast use vstd::string::group_string_axioms;

/// White space other than a space or a newline.
pub const RE_NONSPACE: &'static str = r"[^\S \n]";

/// Runs of two or more spaces.
pub const RE_MULTISPACE: &'static str = r"  +";

/// Spaces on a line of their own.
pub const RE_NEWLINE_SPACES: &'static str = r"(?<=\n) +(?=\n)";

/// `Dr.` before a capitalised word.
pub const RE_DR: &'static str = r"\bD[Rr]\.(?= [A-Z])";

/// `Mr.`, or `MR.` before a capitalised word.
pub const RE_MR: &'static str = r"\b(?:Mr\.|MR\.(?= [A-Z]))";

/// `Ms.`, or `MS.` before a capitalised word.
pub const RE_MS: &'static str = r"\b(?:Ms\.|MS\.(?= [A-Z]))";

/// `Mrs.`, or `MRS.` before a capitalised word.
pub const RE_MRS: &'static str = r"\b(?:Mrs\.|MRS\.(?= [A-Z]))";

/// `etc.` not followed by a capitalised word.
pub const RE_ETC: &'static str = r"\betc\.(?! [A-Z])";

/// The word `yeah` (or `yea`), in any case.
pub const RE_YEAH: &'static str = r"(?i)\b(y)eah?\b";

/// Decimal numbers, years and decades, clock times.
pub const RE_NUM: &'static str = r"\d*\.\d+|\b\d{4}s?\b|(?<!:)\b(?:[1-9]|1[0-2]):[0-5]\d\b(?!:)";

/// Thousands separators between digits.
pub const RE_DIGIT_COMMA: &'static str = r"(?<=\d),(?=\d)";

/// Amounts of dollars or pounds.
pub const RE_MONEY: &'static str =
    r"(?i)[$£]\d+(?:\.\d+)?(?: hundred| thousand| (?:[bm]|tr)illion)*\b|[$£]\d+\.\d\d?\b";

/// Decimal numbers.
pub const RE_DECIMAL: &'static str = r"\d*\.\d+";

/// A dash between digits.
pub const RE_DIGIT_DASH: &'static str = r"(?<=\d)-(?=\d)";

/// A capital `S` after a digit.
pub const RE_DIGIT_S: &'static str = r"(?<=\d)S";

/// A (possessive) `s` after a capital consonant.
pub const RE_POSSESSIVE_S: &'static str = r"(?<=[BCDFGHJ-NP-TV-Z])'?s\b";

/// `S` after `X'`.
pub const RE_XS: &'static str = r"(?<=X')S\b";

/// Dotted abbreviations followed by a lower-case word.
pub const RE_ABBREV_DOTS: &'static str = r"(?:[A-Za-z]\.){2,} [a-z]";

/// A dot between two letters.
pub const RE_INITIAL_DOT: &'static str = r"(?i)(?<=[A-Z])\.(?=[A-Z])";

/// Number of regular-expression rules of the normaliser.
pub const NORMALIZE_RULE_COUNT: usize = 19;

/// The regular-expression rules of the normaliser, in the order they apply.
pub open spec fn normalize_rules() -> Seq<(Seq<char>, RewriteSpec)> {
    seq![
        (RE_NONSPACE@, RewriteSpec::Literal(" "@)),
        (RE_MULTISPACE@, RewriteSpec::Literal(" "@)),
        (RE_NEWLINE_SPACES@, RewriteSpec::Literal(""@)),
        (RE_DR@, RewriteSpec::Literal("Doctor"@)),
        (RE_MR@, RewriteSpec::Literal("Mister"@)),
        (RE_MS@, RewriteSpec::Literal("Miss"@)),
        (RE_MRS@, RewriteSpec::Literal("Mrs"@)),
        (RE_ETC@, RewriteSpec::Literal("etc"@)),
        (RE_YEAH@, RewriteSpec::Yeah),
        (RE_NUM@, RewriteSpec::SplitNum),
        (RE_DIGIT_COMMA@, RewriteSpec::Literal(""@)),
        (RE_MONEY@, RewriteSpec::FlipMoney),
        (RE_DECIMAL@, RewriteSpec::PointNum),
        (RE_DIGIT_DASH@, RewriteSpec::Literal(" to "@)),
        (RE_DIGIT_S@, RewriteSpec::Literal(" S"@)),
        (RE_POSSESSIVE_S@, RewriteSpec::Literal("'S"@)),
        (RE_XS@, RewriteSpec::Literal("s"@)),
        (RE_ABBREV_DOTS@, RewriteSpec::AbbreviationDots),
        (RE_INITIAL_DOT@, RewriteSpec::Literal("-"@)),
    ]
}

/// The `i`-th regular-expression rule of the normaliser.
pub fn normalize_rule(i: usize) -> (r: (&'static str, Rewrite))
    requires
        i < NORMALIZE_RULE_COUNT,
    ensures
        r.0@ == normalize_rules()[i as int].0,
        r.1@ == normalize_rules()[i as int].1,
{
    match i {
        0 => (RE_NONSPACE, Rewrite::Literal(" ")),
        1 => (RE_MULTISPACE, Rewrite::Literal(" ")),
        2 => (RE_NEWLINE_SPACES, Rewrite::Literal("")),
        3 => (RE_DR, Rewrite::Literal("Doctor")),
        4 => (RE_MR, Rewrite::Literal("Mister")),
        5 => (RE_MS, Rewrite::Literal("Miss")),
        6 => (RE_MRS, Rewrite::Literal("Mrs")),
        7 => (RE_ETC, Rewrite::Literal("etc")),
        8 => (RE_YEAH, Rewrite::Yeah),
        9 => (RE_NUM, Rewrite::SplitNum),
        10 => (RE_DIGIT_COMMA, Rewrite::Literal("")),
        11 => (RE_MONEY, Rewrite::FlipMoney),
        12 => (RE_DECIMAL, Rewrite::PointNum),
        13 => (RE_DIGIT_DASH, Rewrite::Literal(" to ")),
        14 => (RE_DIGIT_S, Rewrite::Literal(" S")),
        15 => (RE_POSSESSIVE_S, Rewrite::Literal("'S")),
        16 => (RE_XS, Rewrite::Literal("s")),
        17 => (RE_ABBREV_DOTS, Rewrite::AbbreviationDots),
        _ => (RE_INITIAL_DOT, Rewrite::Literal("-")),
    }
}

/// The character replacements that come first: curly and angle quotes become
/// straight quotes, parentheses become angle quotes, and CJK punctuation
/// becomes its ASCII counterpart followed by a space.
pub open spec fn spec_map_punctuation(t: Seq<char>) -> Seq<char> {
    let t = spec_replace_char(t, '\u{2018}', "'"@);
    let t = spec_replace_char(t, '\u{2019}', "'"@);
    let t = spec_replace_char(t, '\u{00ab}', "\u{201c}"@);
    let t = spec_replace_char(t, '\u{00bb}', "\u{201d}"@);
    let t = spec_replace_char(t, '\u{201c}', "\""@);
    let t = spec_replace_char(t, '\u{201d}', "\""@);
    let t = spec_replace_char(t, '(', "\u{00ab}"@);
    let t = spec_replace_char(t, ')', "\u{00bb}"@);
    let t = spec_replace_char(t, '\u{3001}', ", "@);
    let t = spec_replace_char(t, '\u{3002}', ". "@);
    let t = spec_replace_char(t, '\u{ff01}', "! "@);
    let t = spec_replace_char(t, '\u{ff0c}', ", "@);
    let t = spec_replace_char(t, '\u{ff1a}', ": "@);
    let t = spec_replace_char(t, '\u{ff1b}', "; "@);
    spec_replace_char(t, '\u{ff1f}', "? "@)
}

/// The character replacements of `spec_map_punctuation`.
pub fn map_punctuation(text: &str) -> (res: String)
    ensures
        res@ == spec_map_punctuation(text@),
{
    let t = replace_char(text, '\u{2018}', "'");
    let t = replace_char(&t, '\u{2019}', "'");
    let t = replace_char(&t, '\u{00ab}', "\u{201c}");
    let t = replace_char(&t, '\u{00bb}', "\u{201d}");
    let t = replace_char(&t, '\u{201c}', "\"");
    let t = replace_char(&t, '\u{201d}', "\"");
    let t = replace_char(&t, '(', "\u{00ab}");
    let t = replace_char(&t, ')', "\u{00bb}");
    let t = replace_char(&t, '\u{3001}', ", ");
    let t = replace_char(&t, '\u{3002}', ". ");
    let t = replace_char(&t, '\u{ff01}', "! ");
    let t = replace_char(&t, '\u{ff0c}', ", ");
    let t = replace_char(&t, '\u{ff1a}', ": ");
    let t = replace_char(&t, '\u{ff1b}', "; ");
    replace_char(&t, '\u{ff1f}', "? ")
}

/// The normalised text: the character replacements, then every rule of
/// `normalize_rules` in order, then surrounding white space removed. `None`
/// where a rule's matcher reports an error (`normalize_text` requires that it
/// does not; `try_normalize_text` answers `None` there).
pub open spec fn spec_normalize(text: Seq<char>) -> Option<Seq<char>> {
    match spec_apply_rules(spec_map_punctuation(text), normalize_rules()) {
        Some(t) => Some(spec_trim(t)),
        None => None,
    }
}

/// Once a prefix of the rules fails, every longer prefix fails.
proof fn lemma_apply_rules_fails_later(
    text: Seq<char>,
    rules: Seq<(Seq<char>, RewriteSpec)>,
    k: int,
    m: int,
)
    requires
        0 <= k <= m <= rules.len(),
        spec_apply_rules(text, rules.take(k)) is None,
    ensures
        spec_apply_rules(text, rules.take(m)) is None,
    decreases m - k,
{
    if k < m {
        assert(rules.take(k + 1).drop_last() =~= rules.take(k));
        lemma_apply_rules_fails_later(text, rules, k + 1, m);
    }
}

fn normalize_steps(text: &str) -> (res: Option<String>)
    ensures
        match res {
            Some(s) => spec_normalize(text@) == Some(s@),
            None => spec_normalize(text@) is None,
        },
{
    let start = map_punctuation(text);
    let ghost rules = normalize_rules();
    let mut cur = String::from_str(start.as_str());
    let mut i: usize = 0;
    assert(rules.take(0) =~= Seq::<(Seq<char>, RewriteSpec)>::empty());
    while i < NORMALIZE_RULE_COUNT
        invariant
            i <= NORMALIZE_RULE_COUNT,
            rules == normalize_rules(),
            start@ == spec_map_punctuation(text@),
            rules.len() == NORMALIZE_RULE_COUNT,
            spec_apply_rules(start@, rules.take(i as int)) == Some(cur@),
        decreases NORMALIZE_RULE_COUNT - i,
    {
        let (pattern, rw) = normalize_rule(i);
        assert(rules.take(i + 1).drop_last() =~= rules.take(i as int));
        assert(rules.take(i + 1).last() == rules[i as int]);
        match apply_rule(pattern, cur.as_str(), &rw) {
            Some(s) => {
                cur = s;
            },
            None => {
                proof {
                    assert(spec_apply_rule(pattern@, cur@, rw@) is None);
                    assert(spec_apply_rules(start@, rules.take(i + 1)) is None);
                    lemma_apply_rules_fails_later(start@, rules, i + 1, rules.len() as int);
                    assert(rules.take(rules.len() as int) =~= rules);
                }
                return None;
            },
        }
        i = i + 1;
    }
    assert(rules.take(NORMALIZE_RULE_COUNT as int) =~= rules);
    Some(trim(cur.as_str()))
}

/// Rewrites text into the form the phonemiser reads: quotes and CJK
/// punctuation unified, titles, numbers, money and abbreviations spelled out,
/// surrounding white space removed. Defined where no rule's matcher reports an
/// error; `try_normalize_text` covers every text.
pub fn normalize_text(text: &str) -> (res: String)
    requires
        spec_normalize(text@) is Some,
    ensures
        spec_normalize(text@) == Some(res@),
{
    match normalize_steps(text) {
        Some(s) => s,
        None => {
            proof {
                assert(false);
            }
            String::new()
        },
    }
}

/// `normalize_text` where it is defined, `None` where a rule's matcher reports an error.
pub fn try_normalize_text(text: &str) -> (res: Option<String>)
    ensures
        match res {
            Some(s) => spec_normalize(text@) == Some(s@),
            None => spec_normalize(text@) is None,
        },
{
    match normalize_steps(text) {
        Some(_) => Some(normalize_text(text)),
        None => None,
    }
}


/// Normalised text neither starts nor ends with white space, and trimming it
/// again changes nothing.
pub proof fn law_normalized_is_trimmed(text: Seq<char>)
    requires
        spec_normalize(text) is Some,
    ensures
        ({
            let u = spec_normalize(text)->0;
            &&& spec_trim(u) == u
            &&& u.len() > 0 ==> !is_ws(u[0]) && !is_ws(u.last())
        }),
{
    let t = spec_apply_rules(spec_map_punctuation(text), normalize_rules())->0;
    law_trim_idempotent(t);
    lemma_trim(t);
}

} // verus!
