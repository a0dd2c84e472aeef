//! Regular-expression rewriting by `fancy_regex`, behind trusted wrappers.

use vstd::prelude::*;

use crate::rewrite::{rewrite_match, Rewrite, RewriteSpec};

verus! {

/// `fancy_regex::Regex`, a compiled regular expression, carried opaquely.
#[verifier::external_type_specification]
#[verifier::external_body]
pub struct ExRegex(fancy_regex::Regex);

/// `fancy_regex::Error`, carried opaquely.
#[verifier::external_type_specification]
#[verifier::external_body]
pub struct ExRegexError(fancy_regex::Error);

/// Whether `fancy_regex::Regex::new` accepts `pattern`.
pub uninterp spec fn regex_parses(pattern: Seq<char>) -> bool;

/// What `fancy_regex::Regex::try_replacen(text, 0, ..)` gives for the regular
/// expression `pattern` when every match is replaced by `rewrite_match` of the
/// rewrite: `None` where the matcher reports an error.
pub uninterp spec fn regex_replace_all(
    pattern: Seq<char>,
    text: Seq<char>,
    rewrite: RewriteSpec,
) -> Option<Seq<char>>;

/// A compiled regular expression together with its source text.
struct Pattern {
    source: String,
    regex: fancy_regex::Regex,
}

impl Pattern {
    /// The source text the pattern was compiled from.
    spec fn source(&self) -> Seq<char> {
        self.source@
    }
}

/// `fancy_regex::Regex::new`: compiles `pattern`, keeping its source text.
/// The contract claims that success depends on the pattern alone and names it.
#[verifier::external_body]
fn compile(pattern: &str) -> (res: Result<Pattern, fancy_regex::Error>)
    ensures
        res is Ok <==> regex_parses(pattern@),
        res matches Ok(p) ==> p.source() == pattern@,
{
    fancy_regex::Regex::new(pattern).map(|regex| Pattern { source: pattern.to_string(), regex })
}

/// `fancy_regex::Regex::try_replacen` with no limit: every non-overlapping
/// match of the pattern in `text` is replaced by `rewrite_match(rewrite, m)`
/// of the matched text `m`. The contract claims that the outcome is a function
/// of the pattern, the text and the rewrite, and names it.
#[verifier::external_body]
fn replace_all(p: &Pattern, text: &str, rewrite: &Rewrite) -> (res: Result<
    String,
    fancy_regex::Error,
>)
    ensures
        match res {
            Ok(s) => regex_replace_all(p.source(), text@, rewrite@) == Some(s@),
            Err(_) => regex_replace_all(p.source(), text@, rewrite@) is None,
        },
{
    p.regex.try_replacen(
        text,
        0,
        |caps: &fancy_regex::Captures<'_, str>| rewrite_match(rewrite, caps.get(0).unwrap().as_str()),
    ).map(|s| s.into_owned())
}

/// The result of rewriting every match of `pattern` in `text`: `None` when the
/// pattern does not compile or the matcher reports an error.
pub open spec fn spec_apply_rule(pattern: Seq<char>, text: Seq<char>, rewrite: RewriteSpec) -> Option<
    Seq<char>,
> {
    if regex_parses(pattern) {
        regex_replace_all(pattern, text, rewrite)
    } else {
        None
    }
}

/// Rewrites every match of `pattern` in `text`.
pub fn apply_rule(pattern: &str, text: &str, rewrite: &Rewrite) -> (res: Option<String>)
    ensures
        match res {
            Some(s) => spec_apply_rule(pattern@, text@, rewrite@) == Some(s@),
            None => spec_apply_rule(pattern@, text@, rewrite@) is None,
        },
{
    match compile(pattern) {
        Ok(p) => match replace_all(&p, text, rewrite) {
            Ok(s) => Some(s),
            Err(_) => None,
        },
        Err(_) => None,
    }
}

/// Rewrites, in order, every match of each rule's pattern.
pub open spec fn spec_apply_rules(text: Seq<char>, rules: Seq<(Seq<char>, RewriteSpec)>) -> Option<
    Seq<char>,
>
    decreases rules.len(),
{
    if rules.len() == 0 {
        Some(text)
    } else {
        match spec_apply_rules(text, rules.drop_last()) {
            Some(t) => spec_apply_rule(rules.last().0, t, rules.last().1),
            None => None,
        }
    }
}

} // verus!
