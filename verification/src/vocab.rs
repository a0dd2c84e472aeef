//! The model's symbol table and tokenisation.

use std::collections::HashMap;
use vstd::prelude::*;

use crate::text::chars_of;

verus! {

broadcast use {vstd::string::group_string_axioms, vstd::std_specs::hash::group_hash_axioms};

/// The padding symbol, token 0.
pub const PAD: &'static str = "$";

/// Punctuation symbols.
pub const PUNCTUATION: &'static str = ";:,.!?¡¿—…\"«»\"\" ";

/// ASCII letters.
pub const LETTERS: &'static str = "ABCDEFGHIJKLMNOPQRSTUVWXYZabcdefghijklmnopqrstuvwxyz";

/// IPA symbols.
pub const LETTERS_IPA: &'static str = "ɑɐɒæɓʙβɔɕçɗɖðʤəɘɚɛɜɝɞɟʄɡɠɢʛɦɧħɥʜɨɪʝɭɬɫɮʟɱɯɰŋɳɲɴøɵɸθœɶʘɹɺɾɻʀʁɽʂʃʈʧʉʊʋⱱʌɣɤʍχʎʏʑʐʒʔʡʕʢǀǁǂǃˈˌːˑʼʴʰʱʲʷˠˤ˞↓↑→↗↘'̩'ᵻ";

/// The symbol table of the model: the position of a symbol is its token.
pub open spec fn vocab() -> Seq<char> {
    PAD@ + PUNCTUATION@ + LETTERS@ + LETTERS_IPA@
}

/// The symbol table as a string.
pub fn vocab_chars() -> (s: String)
    ensures
        s@ == vocab(),
{
    let mut s = String::from_str(PAD);
    s.append(PUNCTUATION);
    s.append(LETTERS);
    s.append(LETTERS_IPA);
    s
}

/// The last position of `c` in `s`, if any.
pub open spec fn last_index(s: Seq<char>, c: char) -> Option<int>
    decreases s.len(),
{
    if s.len() == 0 {
        None
    } else if s.last() == c {
        Some(s.len() - 1)
    } else {
        last_index(s.drop_last(), c)
    }
}

/// `last_index` finds `c` exactly when `s` holds it, at a position holding `c`.
pub proof fn lemma_last_index(s: Seq<char>, c: char)
    ensures
        last_index(s, c) is Some <==> s.contains(c),
        last_index(s, c) matches Some(i) ==> 0 <= i < s.len() && s[i] == c,
    decreases s.len(),
{
    if s.len() > 0 && s.last() != c {
        lemma_last_index(s.drop_last(), c);
        if s.contains(c) {
            let k = choose|k: int| 0 <= k < s.len() && s[k] == c;
            assert(s.drop_last()[k] == c);
        }
        if s.drop_last().contains(c) {
            let k = choose|k: int| 0 <= k < s.drop_last().len() && s.drop_last()[k] == c;
            assert(s[k] == c);
        }
    } else if s.len() > 0 {
        assert(s[s.len() - 1] == c);
    }
}

/// The token of a symbol: its last position in the table. Symbols outside
/// the table have none.
pub open spec fn token_id(c: char) -> Option<u32> {
    match last_index(vocab(), c) {
        Some(i) => Some(i as u32),
        None => None,
    }
}

/// The table from symbol (by its code point) to token: a later position of a
/// symbol overrides an earlier one.
pub(crate) fn build_vocab() -> (m: HashMap<u32, u32>)
    ensures
        forall|c: char|
            #[trigger] token_id(c) == (if m@.contains_key(c as u32) {
                Some(m@[c as u32])
            } else {
                None
            }),
        forall|k: u32|
            #[trigger] m@.contains_key(k) ==> exists|c: char|
                #![trigger vocab().contains(c)]
                c as u32 == k && vocab().contains(c),
{
    let symbols = chars_of(vocab_chars().as_str());
    let mut dict: HashMap<u32, u32> = HashMap::new();
    let mut i: usize = 0;
    assert(vocab().len() < 1000) by {
        vocab_len();
    }
    while i < symbols.len()
        invariant
            i <= symbols.len(),
            symbols@ == vocab(),
            symbols.len() < 1000,
            forall|c: char|
                #[trigger] last_index(symbols@.take(i as int), c) == (if dict@.contains_key(
                    c as u32,
                ) {
                    Some(dict@[c as u32] as int)
                } else {
                    None
                }),
            forall|k: u32|
                #[trigger] dict@.contains_key(k) ==> exists|j: int|
                    0 <= j < i && #[trigger] symbols@[j] as u32 == k,
        decreases symbols.len() - i,
    {
        let ch = symbols[i];
        let ghost old_dict = dict@;
        dict.insert(ch as u32, i as u32);
        i = i + 1;
        assert forall|c: char|
            #[trigger] last_index(symbols@.take(i as int), c) == (if dict@.contains_key(c as u32) {
                Some(dict@[c as u32] as int)
            } else {
                None
            }) by {
            assert(symbols@.take(i as int).drop_last() =~= symbols@.take(i - 1));
            let prev = last_index(symbols@.take(i - 1), c);
            assert(prev == (if old_dict.contains_key(c as u32) {
                Some(old_dict[c as u32] as int)
            } else {
                None
            }));
            if c != ch {
                vstd::utf8::char_u32_cast(c, c as u32);
                vstd::utf8::char_u32_cast(ch, ch as u32);
                assert(c as u32 != ch as u32);
            }
        }
    }
    assert(symbols@.take(symbols.len() as int) =~= symbols@);
    assert forall|k: u32| #[trigger] dict@.contains_key(k) implies exists|c: char|
        #![trigger vocab().contains(c)]
        c as u32 == k && vocab().contains(c) by {
        let j = choose|j: int| 0 <= j < symbols.len() && #[trigger] symbols@[j] as u32 == k;
        assert(vocab()[j] == symbols@[j]);
        assert(vocab().contains(symbols@[j]));
    }
    dict
}

/// The tokens of a phoneme string: each symbol of the table in turn, others dropped.
pub open spec fn spec_tokenize(s: Seq<char>) -> Seq<u32>
    decreases s.len(),
{
    if s.len() == 0 {
        Seq::empty()
    } else {
        match token_id(s.last()) {
            Some(t) => spec_tokenize(s.drop_last()).push(t),
            None => spec_tokenize(s.drop_last()),
        }
    }
}

/// The tokens of a phoneme string (see `spec_tokenize`).
pub fn tokenize(phonemes: &str) -> (tokens: Vec<u32>)
    ensures
        tokens@ == spec_tokenize(phonemes@),
{
    let vocab = build_vocab();
    let v = chars_of(phonemes);
    let mut out: Vec<u32> = Vec::new();
    let mut i: usize = 0;
    while i < v.len()
        invariant
            i <= v.len(),
            v@ == phonemes@,
            out@ == spec_tokenize(v@.take(i as int)),
            forall|c: char|
                #[trigger] token_id(c) == (if vocab@.contains_key(c as u32) {
                    Some(vocab@[c as u32])
                } else {
                    None
                }),
        decreases v.len() - i,
    {
        let c = v[i];
        assert(v@.take(i + 1).drop_last() =~= v@.take(i as int));
        assert(token_id(c) == token_id(v@.take(i + 1).last()));
        match vocab.get(&(c as u32)) {
            Some(t) => out.push(*t),
            None => {},
        }
        i = i + 1;
    }
    assert(v@.take(v.len() as int) =~= v@);
    out
}


/// A symbol's token is its position in the table.
pub proof fn lemma_token_id(c: char)
    ensures
        token_id(c) is Some <==> vocab().contains(c),
        token_id(c) matches Some(t) ==> t < vocab().len() && vocab()[t as int] == c,
{
    lemma_last_index(vocab(), c);
    vocab_len();
}

/// The table holds 178 symbols.
pub proof fn vocab_len()
    ensures
        vocab().len() == 178,
{
    reveal_strlit("$");
    reveal_strlit(";:,.!?¡¿—…\"«»\"\" ");
    reveal_strlit("ABCDEFGHIJKLMNOPQRSTUVWXYZabcdefghijklmnopqrstuvwxyz");
    reveal_strlit(
        "ɑɐɒæɓʙβɔɕçɗɖðʤəɘɚɛɜɝɞɟʄɡɠɢʛɦɧħɥʜɨɪʝɭɬɫɮʟɱɯɰŋɳɲɴøɵɸθœɶʘɹɺɾɻʀʁɽʂʃʈʧʉʊʋⱱʌɣɤʍχʎʏʑʐʒʔʡʕʢǀǁǂǃˈˌːˑʼʴʰʱʲʷˠˤ˞↓↑→↗↘'̩'ᵻ",
    );
}

/// Tokenising a concatenation gives the concatenation of the tokens.
pub proof fn law_tokenize_concat(a: Seq<char>, b: Seq<char>)
    ensures
        spec_tokenize(a + b) == spec_tokenize(a) + spec_tokenize(b),
    decreases b.len(),
{
    if b.len() == 0 {
        assert(a + b =~= a);
        assert(spec_tokenize(a) + spec_tokenize(b) =~= spec_tokenize(a));
    } else {
        assert((a + b).drop_last() =~= a + b.drop_last());
        assert((a + b).last() == b.last());
        law_tokenize_concat(a, b.drop_last());
        match token_id(b.last()) {
            Some(t) => {
                assert(spec_tokenize(a) + spec_tokenize(b) =~= (spec_tokenize(a) + spec_tokenize(
                    b.drop_last(),
                )).push(t));
            },
            None => {},
        }
    }
}

/// Every token is a position in the table, and holds the symbol it came from;
/// there are never more tokens than characters, and exactly as many when every
/// character is a symbol of the table.
pub proof fn law_tokens_in_table(s: Seq<char>)
    ensures
        forall|i: int| 0 <= i < spec_tokenize(s).len() ==> #[trigger] spec_tokenize(s)[i] < 178,
        spec_tokenize(s).len() <= s.len(),
        (forall|i: int| 0 <= i < s.len() ==> vocab().contains(#[trigger] s[i])) ==> spec_tokenize(
            s,
        ).len() == s.len(),
    decreases s.len(),
{
    vocab_len();
    if s.len() > 0 {
        law_tokens_in_table(s.drop_last());
        lemma_token_id(s.last());
        if forall|i: int| 0 <= i < s.len() ==> vocab().contains(#[trigger] s[i]) {
            assert forall|i: int| 0 <= i < s.drop_last().len() implies vocab().contains(
                #[trigger] s.drop_last()[i],
            ) by {
                assert(s.drop_last()[i] == s[i]);
            }
            assert(vocab().contains(s[s.len() - 1]));
        }
    }
}

/// The symbols of the table that occur in `s`, in order.
pub open spec fn table_symbols(s: Seq<char>) -> Seq<char> {
    s.filter(|c: char| vocab().contains(c))
}

/// Tokenising gives one token for each symbol of the table in the input, in
/// order: the token at each position is where in the table the symbol at the
/// same position of `table_symbols` stands.
pub proof fn law_tokenize_symbols(s: Seq<char>)
    ensures
        spec_tokenize(s).len() == table_symbols(s).len(),
        forall|i: int|
            0 <= i < spec_tokenize(s).len() ==> #[trigger] spec_tokenize(s)[i] < vocab().len()
                && vocab()[spec_tokenize(s)[i] as int] == table_symbols(s)[i],
    decreases s.len(),
{
    reveal(Seq::filter);
    if s.len() > 0 {
        law_tokenize_symbols(s.drop_last());
        lemma_token_id(s.last());
        assert(table_symbols(s) == if vocab().contains(s.last()) {
            table_symbols(s.drop_last()).push(s.last())
        } else {
            table_symbols(s.drop_last())
        });
    }
}

} // verus!
