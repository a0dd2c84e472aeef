//! Clean-up of the phonemes espeak-ng produces, and the text handed to it.

use std::collections::HashMap;
use vstd::prelude::*;

use crate::normalize::{spec_normalize, try_normalize_text};
use crate::regex::{apply_rule, spec_apply_rule, spec_apply_rules};
use crate::rewrite::{Rewrite, RewriteSpec};
use crate::text::{
    chars_of, join, join_strings, law_trim_idempotent, lemma_map_concat_step, lemma_trim,
    map_concat, replace_char, replace_str, spec_replace_char, spec_replace_str, spec_trim, trim,
    views,
};
use crate::types::Lang;
use crate::vocab::{
    build_vocab, law_tokens_in_table, lemma_last_index, spec_tokenize, token_id, vocab,
};

verus! {

broadcast use {vstd::string::group_string_axioms, vstd::std_specs::hash::group_hash_axioms};

/// How espeak-ng spells "Kokoro" in American English.
pub const KOKORO_AM_ESPEAK: &'static str = "kəkˈoːɹoʊ";

/// The American pronunciation of "Kokoro" the model expects.
pub const KOKORO_AM: &'static str = "kˈoʊkəɹoʊ";

/// How espeak-ng spells "Kokoro" in British English.
pub const KOKORO_BR_ESPEAK: &'static str = "kəkˈɔːɹəʊ";

/// The British pronunciation of "Kokoro" the model expects.
pub const KOKORO_BR: &'static str = "kˈəʊkəɹəʊ";

/// The place before "hundred" that follows a letter.
pub const RE_HUNDRED: &'static str = r"(?<=[a-zɹː])(?=hˈʌndɹɪd)";

/// A detached `z` at the end of a word.
pub const RE_Z_END: &'static str = r#" z(?=[;:,.!?¡¿—…"«»\u{201d} ]|$)"#;

/// The `ti` of "ninety" not followed by a length mark.
pub const RE_NINETY: &'static str = r"(?<=nˈaɪn)ti(?!ː)";

/// The regular-expression rules of the phoneme clean-up for an accent.
pub open spec fn postprocess_rules(lang: Lang) -> Seq<(Seq<char>, RewriteSpec)> {
    let common = seq![
        (RE_HUNDRED@, RewriteSpec::Literal(" "@)),
        (RE_Z_END@, RewriteSpec::Literal("z"@)),
    ];
    if lang == Lang::Am {
        common.push((RE_NINETY@, RewriteSpec::Literal("di"@)))
    } else {
        common
    }
}

/// Keeps a symbol of the table, drops any other character.
pub open spec fn keep_vocab() -> spec_fn(char) -> Seq<char> {
    |c: char| if vocab().contains(c) { seq![c] } else { Seq::empty() }
}

/// The fixed replacements of the clean-up: espeak-ng's "Kokoro", then `ʲ`, `r`,
/// `x`, `ɬ` mapped to symbols the model knows.
pub open spec fn spec_fix_phonemes(ps: Seq<char>) -> Seq<char> {
    let t = spec_replace_str(ps, KOKORO_AM_ESPEAK@, KOKORO_AM@);
    let t = spec_replace_str(t, KOKORO_BR_ESPEAK@, KOKORO_BR@);
    let t = spec_replace_char(t, 'ʲ', "j"@);
    let t = spec_replace_char(t, 'r', "ɹ"@);
    let t = spec_replace_char(t, 'x', "k"@);
    spec_replace_char(t, 'ɬ', "l"@)
}

/// The cleaned-up phonemes: fixed replacements, the accent's rules, characters
/// outside the symbol table dropped, surrounding white space removed. `None`
/// where a rule's matcher reports an error.
pub open spec fn spec_postprocess(ps: Seq<char>, lang: Lang) -> Option<Seq<char>> {
    match spec_apply_rules(spec_fix_phonemes(ps), postprocess_rules(lang)) {
        Some(t) => Some(spec_trim(map_concat(t, keep_vocab()))),
        None => None,
    }
}

/// The characters of `s` that are symbols of the table.
fn keep_vocab_chars(s: &str) -> (res: String)
    ensures
        res@ == map_concat(s@, keep_vocab()),
{
    let table: HashMap<u32, u32> = build_vocab();
    let v = chars_of(s);
    let ghost f = keep_vocab();
    let mut out = String::new();
    let mut i: usize = 0;
    while i < v.len()
        invariant
            i <= v.len(),
            v@ == s@,
            f == keep_vocab(),
            out@ == map_concat(v@.take(i as int), f),
            forall|c: char|
                #[trigger] token_id(c) == (if table@.contains_key(c as u32) {
                    Some(table@[c as u32])
                } else {
                    None
                }),
        decreases v.len() - i,
    {
        let c = v[i];
        proof {
            lemma_map_concat_step(v@, f, i as int);
            lemma_last_index(vocab(), c);
            assert(token_id(c) is Some <==> vocab().contains(c));
        }
        if table.contains_key(&(c as u32)) {
            out.push(c);
        }
        i = i + 1;
        assert(out@ =~= map_concat(v@.take(i as int), f));
    }
    assert(v@.take(v.len() as int) =~= v@);
    out
}

proof fn lemma_rules_step(
    text: Seq<char>,
    rules: Seq<(Seq<char>, RewriteSpec)>,
    k: int,
)
    requires
        0 <= k < rules.len(),
    ensures
        spec_apply_rules(text, rules.take(k + 1)) == (match spec_apply_rules(text, rules.take(k)) {
            Some(t) => spec_apply_rule(rules[k].0, t, rules[k].1),
            None => None,
        }),
{
    assert(rules.take(k + 1).drop_last() =~= rules.take(k));
}

/// Cleans up the phonemes espeak-ng produced (see `spec_postprocess`).
pub fn postprocess_phonemes(ps: &str, lang: Lang) -> (res: Option<String>)
    ensures
        match res {
            Some(s) => spec_postprocess(ps@, lang) == Some(s@),
            None => spec_postprocess(ps@, lang) is None,
        },
{
    proof {
        reveal_strlit("kəkˈoːɹoʊ");
        reveal_strlit("kəkˈɔːɹəʊ");
    }
    let t = replace_str(ps, KOKORO_AM_ESPEAK, KOKORO_AM);
    let t = replace_str(&t, KOKORO_BR_ESPEAK, KOKORO_BR);
    let t = replace_char(&t, 'ʲ', "j");
    let t = replace_char(&t, 'r', "ɹ");
    let t = replace_char(&t, 'x', "k");
    let t = replace_char(&t, 'ɬ', "l");
    let ghost fixed = t@;
    let ghost rules = postprocess_rules(lang);
    assert(rules.take(0) =~= Seq::<(Seq<char>, RewriteSpec)>::empty());
    proof {
        lemma_rules_step(fixed, rules, 0);
        lemma_rules_step(fixed, rules, 1);
    }
    let t = match apply_rule(RE_HUNDRED, &t, &Rewrite::Literal(" ")) {
        Some(u) => u,
        None => return None,
    };
    let t = match apply_rule(RE_Z_END, &t, &Rewrite::Literal("z")) {
        Some(u) => u,
        None => return None,
    };
    let t = if lang == Lang::Am {
        proof {
            lemma_rules_step(fixed, rules, 2);
            assert(rules.take(3) =~= rules);
        }
        match apply_rule(RE_NINETY, &t, &Rewrite::Literal("di")) {
            Some(u) => u,
            None => return None,
        }
    } else {
        assert(rules.take(2) =~= rules);
        t
    };
    let kept = keep_vocab_chars(&t);
    Some(trim(&kept))
}

/// The phonemes of a text: the utterances espeak-ng produced joined with
/// spaces and cleaned up; no utterance gives no phonemes.
pub open spec fn spec_phonemes_from_utterances(us: Seq<Seq<char>>, lang: Lang) -> Option<
    Seq<char>,
> {
    if us.len() == 0 {
        Some(Seq::empty())
    } else {
        spec_postprocess(join(us, " "@), lang)
    }
}

/// Joins the utterances espeak-ng produced and cleans them up.
pub fn phonemes_from_utterances(utterances: &Vec<String>, lang: Lang) -> (res: Option<String>)
    ensures
        match res {
            Some(s) => spec_phonemes_from_utterances(views(utterances@), lang) == Some(s@),
            None => spec_phonemes_from_utterances(views(utterances@), lang) is None,
        },
{
    if utterances.len() == 0 {
        return Some(String::new());
    }
    let ps = join_strings(utterances, " ");
    postprocess_phonemes(&ps, lang)
}

/// The text handed to espeak-ng: normalised when asked for.
pub open spec fn spec_phonemizer_input(text: Seq<char>, normalize: bool) -> Option<Seq<char>> {
    if normalize {
        spec_normalize(text)
    } else {
        Some(text)
    }
}

/// The text handed to espeak-ng (see `spec_phonemizer_input`).
pub fn phonemizer_input(text: &str, normalize: bool) -> (res: Option<String>)
    ensures
        match res {
            Some(s) => spec_phonemizer_input(text@, normalize) == Some(s@),
            None => spec_phonemizer_input(text@, normalize) is None,
        },
{
    if normalize {
        try_normalize_text(text)
    } else {
        Some(String::from_str(text))
    }
}


/// Keeping the symbols of the table leaves nothing else.
proof fn lemma_keep_vocab(s: Seq<char>)
    ensures
        forall|i: int|
            0 <= i < map_concat(s, keep_vocab()).len() ==> vocab().contains(
                #[trigger] map_concat(s, keep_vocab())[i],
            ),
    decreases s.len(),
{
    if s.len() > 0 {
        lemma_keep_vocab(s.drop_last());
        let a = map_concat(s.drop_last(), keep_vocab());
        let b = keep_vocab()(s.last());
        assert forall|i: int| 0 <= i < (a + b).len() implies vocab().contains(#[trigger] (a + b)[i]) by {
            if i >= a.len() {
                assert(b.len() == 1 && b[0] == s.last() && vocab().contains(s.last()));
            }
        }
    }
}

/// The cleaned-up phonemes hold only symbols of the table, so tokenising them
/// drops nothing: there is one token per character. They have no surrounding
/// white space.
pub proof fn law_phonemes_fully_tokenized(ps: Seq<char>, lang: Lang)
    requires
        spec_postprocess(ps, lang) is Some,
    ensures
        ({
            let out = spec_postprocess(ps, lang)->0;
            &&& forall|i: int| 0 <= i < out.len() ==> vocab().contains(#[trigger] out[i])
            &&& spec_tokenize(out).len() == out.len()
            &&& spec_trim(out) == out
        }),
{
    let t = spec_apply_rules(spec_fix_phonemes(ps), postprocess_rules(lang))->0;
    let m = map_concat(t, keep_vocab());
    lemma_keep_vocab(t);
    let r = lemma_trim(m);
    let out = spec_trim(m);
    assert forall|i: int| 0 <= i < out.len() implies vocab().contains(#[trigger] out[i]) by {
        assert(out[i] == m[r.0 + i]);
    }
    law_tokens_in_table(out);
    law_trim_idempotent(m);
}

/// What the clean-up does after the rules: symbols outside the table dropped,
/// surrounding white space removed.
pub open spec fn finish_phonemes(t: Seq<char>) -> Seq<char> {
    spec_trim(map_concat(t, keep_vocab()))
}

/// For either accent the clean-up of the fixed phonemes first puts a space
/// before "hundred" (`RE_HUNDRED`), then joins a detached final `z`
/// (`RE_Z_END`); American English then also voices the `t` of "ninety"
/// (`RE_NINETY`), British English does not. The accent changes nothing else.
pub proof fn law_postprocess_steps(ps: Seq<char>, lang: Lang)
    ensures
        spec_postprocess(ps, lang) == (match spec_apply_rule(
            RE_HUNDRED@,
            spec_fix_phonemes(ps),
            RewriteSpec::Literal(" "@),
        ) {
            None => None,
            Some(h) => match spec_apply_rule(RE_Z_END@, h, RewriteSpec::Literal("z"@)) {
                None => None,
                Some(z) => if lang == Lang::Am {
                    match spec_apply_rule(RE_NINETY@, z, RewriteSpec::Literal("di"@)) {
                        None => None,
                        Some(n) => Some(finish_phonemes(n)),
                    }
                } else {
                    Some(finish_phonemes(z))
                },
            },
        }),
{
    let rules = postprocess_rules(lang);
    let fixed = spec_fix_phonemes(ps);
    assert(rules.take(0) =~= Seq::<(Seq<char>, RewriteSpec)>::empty());
    lemma_rules_step(fixed, rules, 0);
    lemma_rules_step(fixed, rules, 1);
    if lang == Lang::Am {
        lemma_rules_step(fixed, rules, 2);
        assert(rules.take(3) =~= rules);
    } else {
        assert(rules.take(2) =~= rules);
    }
}

/// The two accents differ only in the "ninety" rule: the American clean-up is
/// the British one with `RE_NINETY` applied before the final step.
pub proof fn law_accents_differ_only_in_ninety(ps: Seq<char>)
    ensures
        spec_postprocess(ps, Lang::Am) == (match spec_apply_rules(
            spec_fix_phonemes(ps),
            postprocess_rules(Lang::Br),
        ) {
            None => None,
            Some(t) => match spec_apply_rule(RE_NINETY@, t, RewriteSpec::Literal("di"@)) {
                None => None,
                Some(n) => Some(finish_phonemes(n)),
            },
        }),
{
    law_postprocess_steps(ps, Lang::Am);
    let rules = postprocess_rules(Lang::Br);
    let fixed = spec_fix_phonemes(ps);
    assert(rules.take(0) =~= Seq::<(Seq<char>, RewriteSpec)>::empty());
    lemma_rules_step(fixed, rules, 0);
    lemma_rules_step(fixed, rules, 1);
    assert(rules.take(2) =~= rules);
}

} // verus!
