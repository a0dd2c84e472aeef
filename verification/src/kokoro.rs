//! Planning speech: sentences, chunks of at most `MAX_CHUNK_WORDS` words,
//! the padded token sequence of a chunk, and when a voice pack must be loaded.

use vstd::prelude::*;

use crate::text::{
    all_words, chars_of, flat_words, is_ws, join, join_char_vecs, law_trim_idempotent,
    lemma_words_clean, lemma_words_of_join, lemma_words_split, lemma_words_trim, spec_trim,
    spec_words, split_whitespace, string_of, trim_chars, views, words_state,
};
use crate::types::{
    Voice, DEFAULT_MODEL_COMMIT, HF_BASE_URL, MAX_CHUNK_WORDS, MAX_TOKENS, MODEL_FILENAME,
};
use crate::vocab::{law_tokens_in_table, spec_tokenize, tokenize};

verus! {

broadcast use vstd::string::group_string_axioms;

/// `.`, `!` or `?`.
pub open spec fn is_terminal(c: char) -> bool {
    c == '.' || c == '!' || c == '?'
}

/// An ASCII capital letter.
pub open spec fn is_ascii_upper(c: char) -> bool {
    'A' <= c && c <= 'Z'
}

/// Position `i` ends a sentence: it holds `.`, `!` or `?`, and is the last
/// character or is followed by a space and a capital letter.
pub open spec fn ends_sentence(s: Seq<char>, i: int) -> bool {
    &&& is_terminal(s[i])
    &&& (i + 1 >= s.len() || (s[i + 1] == ' ' && i + 2 < s.len() && is_ascii_upper(s[i + 2])))
}

/// The sentences found in the first `n` characters of `s`, and where the
/// current sentence starts.
pub open spec fn sentence_state(s: Seq<char>, n: int) -> (Seq<Seq<char>>, int)
    decreases n,
{
    if n <= 0 {
        (Seq::empty(), 0)
    } else {
        let (ss, st) = sentence_state(s, n - 1);
        if ends_sentence(s, n - 1) {
            let seg = spec_trim(s.subrange(st, n));
            (
                if seg.len() > 0 {
                    ss.push(seg)
                } else {
                    ss
                },
                n,
            )
        } else {
            (ss, st)
        }
    }
}

/// The sentences of a text, trimmed, empty ones dropped.
pub open spec fn spec_sentence_tokenize(s: Seq<char>) -> Seq<Seq<char>> {
    let (ss, st) = sentence_state(s, s.len() as int);
    let tail = spec_trim(s.subrange(st, s.len() as int));
    if tail.len() > 0 {
        ss.push(tail)
    } else {
        ss
    }
}

proof fn lemma_sentence_state_start(s: Seq<char>, n: int)
    requires
        0 <= n <= s.len(),
    ensures
        0 <= sentence_state(s, n).1 <= n,
    decreases n,
{
    if n > 0 {
        lemma_sentence_state_start(s, n - 1);
    }
}

/// Splits a text into sentences (see `spec_sentence_tokenize`).
pub fn sentence_tokenize(text: &str) -> (res: Vec<String>)
    ensures
        views(res@) == spec_sentence_tokenize(text@),
{
    let v = chars_of(text);
    let n = v.len();
    let mut sentences: Vec<String> = Vec::new();
    let mut start: usize = 0;
    let mut i: usize = 0;
    while i < n
        invariant
            i <= n,
            n == v@.len(),
            v@ == text@,
            sentence_state(v@, i as int) == (views(sentences@), start as int),
            start <= i,
        decreases n - i,
    {
        let c = v[i];
        let is_end = (c == '.' || c == '!' || c == '?') && (i + 1 >= n || (v[i + 1] == ' ' && i + 2
            < n && 'A' <= v[i + 2] && v[i + 2] <= 'Z'));
        if is_end {
            let seg = trim_chars(&v[start..i + 1]);
            if seg.len() > 0 {
                let ghost old = sentences@;
                sentences.push(string_of(&seg));
                assert(views(sentences@) =~= views(old).push(seg@));
            }
            start = i + 1;
        }
        i = i + 1;
    }
    let tail = trim_chars(&v[start..n]);
    if tail.len() > 0 {
        let ghost old = sentences@;
        sentences.push(string_of(&tail));
        assert(views(sentences@) =~= views(old).push(tail@));
    }
    sentences
}

/// The chunks closed so far and the words of the chunk being filled, after
/// `sents`: a sentence that would take the open chunk past `max` words closes
/// it first, unless it is empty.
pub open spec fn chunk_state(sents: Seq<Seq<char>>, max: nat) -> (Seq<Seq<char>>, Seq<Seq<char>>)
    decreases sents.len(),
{
    if sents.len() == 0 {
        (Seq::empty(), Seq::empty())
    } else {
        let (chunks, cur) = chunk_state(sents.drop_last(), max);
        let words = spec_words(sents.last());
        if cur.len() + words.len() > max && cur.len() > 0 {
            (chunks.push(join(cur, " "@)), words)
        } else {
            (chunks, cur + words)
        }
    }
}

/// Sentences gathered into chunks of at most `max` words, each chunk its
/// words joined by single spaces; a sentence longer than `max` words is a
/// chunk of its own.
pub open spec fn spec_chunk_sentences(sents: Seq<Seq<char>>, max: nat) -> Seq<Seq<char>> {
    let (chunks, cur) = chunk_state(sents, max);
    if cur.len() > 0 {
        chunks.push(join(cur, " "@))
    } else {
        chunks
    }
}

/// Gathers sentences into chunks of at most `max_words` words (see `spec_chunk_sentences`).
pub fn chunk_sentences(sentences: &Vec<String>, max_words: usize) -> (res: Vec<String>)
    ensures
        views(res@) == spec_chunk_sentences(views(sentences@), max_words as nat),
{
    let ghost sv = views(sentences@);
    let mut chunks: Vec<String> = Vec::new();
    let mut current: Vec<Vec<char>> = Vec::new();
    let mut i: usize = 0;
    while i < sentences.len()
        invariant
            i <= sentences.len(),
            sv == views(sentences@),
            chunk_state(sv.take(i as int), max_words as nat) == (
                views(chunks@),
                current@.map_values(|w: Vec<char>| w@),
            ),
        decreases sentences.len() - i,
    {
        assert(sv.take(i + 1).drop_last() =~= sv.take(i as int));
        assert(sv.take(i + 1).last() == sentences@[i as int]@);
        let v = chars_of(sentences[i].as_str());
        let words = split_whitespace(&v);
        let wl = words.len();
        if (wl > max_words || current.len() > max_words - wl) && current.len() > 0 {
            let ghost old = chunks@;
            chunks.push(join_char_vecs(&current, " "));
            assert(views(chunks@) =~= views(old).push(chunks@.last()@));
            current = Vec::new();
        }
        let ghost before_ext = current@.map_values(|w: Vec<char>| w@);
        let ghost wv = words@.map_values(|w: Vec<char>| w@);
        let mut k: usize = 0;
        while k < wl
            invariant
                k <= wl == words@.len(),
                wv == words@.map_values(|w: Vec<char>| w@),
                current@.map_values(|w: Vec<char>| w@) == before_ext + wv.take(k as int),
            decreases wl - k,
        {
            let ghost old_cur = current@;
            current.push(words[k].clone());
            k = k + 1;
            assert(current@.map_values(|w: Vec<char>| w@) =~= old_cur.map_values(
                |w: Vec<char>| w@,
            ).push(wv[k - 1]));
            assert(before_ext + wv.take(k as int) =~= (before_ext + wv.take(k - 1)).push(
                wv[k - 1],
            ));
        }
        assert(wv.take(wl as int) =~= wv);
        i = i + 1;
    }
    assert(sv.take(sentences.len() as int) =~= sv);
    if current.len() > 0 {
        let ghost old = chunks@;
        chunks.push(join_char_vecs(&current, " "));
        assert(views(chunks@) =~= views(old).push(chunks@.last()@));
    }
    chunks
}

/// The chunks of text the model reads one at a time.
pub open spec fn spec_text_chunks(text: Seq<char>) -> Seq<Seq<char>> {
    spec_chunk_sentences(spec_sentence_tokenize(text), MAX_CHUNK_WORDS as nat)
}

/// Splits a text into sentences and gathers them into chunks of at most
/// `MAX_CHUNK_WORDS` words.
pub fn text_chunks(text: &str) -> (res: Vec<String>)
    ensures
        views(res@) == spec_text_chunks(text@),
{
    let sentences = sentence_tokenize(text);
    chunk_sentences(&sentences, MAX_CHUNK_WORDS)
}


/// The tokens handed to the model for one chunk's phonemes: none when no
/// symbol is known; otherwise at most `MAX_TOKENS` tokens, padded with a 0
/// token on each side.
pub open spec fn spec_model_tokens(phonemes: Seq<char>) -> Option<Seq<i64>> {
    let t = spec_tokenize(phonemes);
    if t.len() == 0 {
        None
    } else {
        let kept = if t.len() > MAX_TOKENS {
            t.take(MAX_TOKENS as int)
        } else {
            t
        };
        Some(seq![0i64] + kept.map_values(|x: u32| x as i64) + seq![0i64])
    }
}

/// The padded tokens for one chunk (see `spec_model_tokens`).
pub fn model_tokens(phonemes: &str) -> (res: Option<Vec<i64>>)
    ensures
        match res {
            Some(v) => spec_model_tokens(phonemes@) == Some(v@),
            None => spec_model_tokens(phonemes@) is None,
        },
{
    let tokens = tokenize(phonemes);
    if tokens.len() == 0 {
        return None;
    }
    let n = if tokens.len() > MAX_TOKENS {
        MAX_TOKENS
    } else {
        tokens.len()
    };
    let ghost kept = tokens@.take(n as int);
    assert(tokens.len() <= MAX_TOKENS ==> kept =~= tokens@);
    let mut padded: Vec<i64> = Vec::new();
    padded.push(0);
    let mut i: usize = 0;
    while i < n
        invariant
            i <= n <= tokens.len(),
            kept == tokens@.take(n as int),
            padded@ == seq![0i64] + kept.take(i as int).map_values(|x: u32| x as i64),
        decreases n - i,
    {
        padded.push(tokens[i] as i64);
        i = i + 1;
        assert(padded@ =~= seq![0i64] + kept.take(i as int).map_values(|x: u32| x as i64));
    }
    padded.push(0);
    assert(kept.take(n as int) =~= kept);
    assert(padded@ =~= spec_model_tokens(phonemes@)->0);
    Some(padded)
}

/// Whether the voice pack must be loaded for `voice`: unless it is the current
/// voice and a pack is loaded.
pub fn needs_voice_load(current: Option<Voice>, pack_loaded: bool, voice: Voice) -> (res: bool)
    ensures
        res == !(current == Some(voice) && pack_loaded),
{
    match current {
        Some(v) => !(v == voice && pack_loaded),
        None => true,
    }
}

/// Where the ONNX model is downloaded from.
pub open spec fn spec_model_url() -> Seq<char> {
    HF_BASE_URL@ + "/"@ + DEFAULT_MODEL_COMMIT@ + "/"@ + MODEL_FILENAME@
}

/// Where the ONNX model is downloaded from.
pub fn model_url() -> (url: String)
    ensures
        url@ == spec_model_url(),
{
    let mut url = String::from_str(HF_BASE_URL);
    url.append("/");
    url.append(DEFAULT_MODEL_COMMIT);
    url.append("/");
    url.append(MODEL_FILENAME);
    url
}


/// Every piece is non-empty and is its own trim.
pub open spec fn all_trimmed(ss: Seq<Seq<char>>) -> bool {
    forall|i: int| 0 <= i < ss.len() ==> (#[trigger] ss[i]).len() > 0 && spec_trim(ss[i]) == ss[i]
}

proof fn lemma_sentence_state_trimmed(s: Seq<char>, n: int)
    requires
        0 <= n <= s.len(),
    ensures
        all_trimmed(sentence_state(s, n).0),
    decreases n,
{
    if n > 0 {
        lemma_sentence_state_trimmed(s, n - 1);
        lemma_sentence_state_start(s, n - 1);
        let (ss, st) = sentence_state(s, n - 1);
        if ends_sentence(s, n - 1) {
            let seg = spec_trim(s.subrange(st, n));
            law_trim_idempotent(s.subrange(st, n));
            if seg.len() > 0 {
                assert forall|i: int| 0 <= i < ss.push(seg).len() implies (#[trigger] ss.push(
                    seg,
                )[i]).len() > 0 && spec_trim(ss.push(seg)[i]) == ss.push(seg)[i] by {
                    if i < ss.len() {
                        assert(ss.push(seg)[i] == ss[i]);
                    }
                }
            }
        }
    }
}

/// No sentence is empty, and none starts or ends with white space.
pub proof fn law_sentences_trimmed(text: Seq<char>)
    ensures
        all_trimmed(spec_sentence_tokenize(text)),
{
    let n = text.len() as int;
    lemma_sentence_state_trimmed(text, n);
    lemma_sentence_state_start(text, n);
    let (ss, st) = sentence_state(text, n);
    let tail = spec_trim(text.subrange(st, n));
    law_trim_idempotent(text.subrange(st, n));
    if tail.len() > 0 {
        assert forall|i: int| 0 <= i < ss.push(tail).len() implies (#[trigger] ss.push(tail)[i]).len()
            > 0 && spec_trim(ss.push(tail)[i]) == ss.push(tail)[i] by {
            if i < ss.len() {
                assert(ss.push(tail)[i] == ss[i]);
            }
        }
    }
}

/// The model input of a chunk starts and ends with the padding token 0, holds
/// between one and `MAX_TOKENS` tokens in between, and every token is a
/// position in the symbol table.
pub proof fn law_model_tokens_shape(phonemes: Seq<char>)
    requires
        spec_model_tokens(phonemes) is Some,
    ensures
        ({
            let v = spec_model_tokens(phonemes)->0;
            &&& 3 <= v.len() <= MAX_TOKENS + 2
            &&& v[0] == 0 && v.last() == 0
            &&& forall|i: int| 0 <= i < v.len() ==> 0 <= #[trigger] v[i] < 178
        }),
{
    let t = spec_tokenize(phonemes);
    law_tokens_in_table(phonemes);
    let kept = if t.len() > MAX_TOKENS {
        t.take(MAX_TOKENS as int)
    } else {
        t
    };
    let v = spec_model_tokens(phonemes)->0;
    assert forall|i: int| 0 <= i < v.len() implies 0 <= #[trigger] v[i] < 178 by {
        if 0 < i < v.len() - 1 {
            assert(v[i] == kept[i - 1] as i64);
            assert(kept[i - 1] == t[i - 1]);
        }
    }
}


/// The model input of a chunk is the chunk's tokens in order, cut to the
/// first `MAX_TOKENS`, between two padding tokens 0; there is none exactly
/// when the phonemes hold no symbol of the table.
pub proof fn law_model_tokens_in_order(phonemes: Seq<char>)
    ensures
        spec_model_tokens(phonemes) is None <==> spec_tokenize(phonemes).len() == 0,
        spec_model_tokens(phonemes) matches Some(v) ==> ({
            let t = spec_tokenize(phonemes);
            let k = if t.len() > MAX_TOKENS {
                MAX_TOKENS as int
            } else {
                t.len() as int
            };
            &&& v.len() == k + 2
            &&& v[0] == 0 && v[k + 1] == 0
            &&& forall|i: int| 1 <= i <= k ==> #[trigger] v[i] == t[i - 1] as i64
        }),
{
    let t = spec_tokenize(phonemes);
    if t.len() > 0 {
        let kept = if t.len() > MAX_TOKENS {
            t.take(MAX_TOKENS as int)
        } else {
            t
        };
        let v = spec_model_tokens(phonemes)->0;
        assert forall|i: int| 1 <= i <= kept.len() implies #[trigger] v[i] == t[i - 1] as i64 by {
            assert(v[i] == kept[i - 1] as i64);
        }
    }
}

proof fn lemma_chunk_state_words(sents: Seq<Seq<char>>, max: nat)
    ensures
        flat_words(chunk_state(sents, max).0) + chunk_state(sents, max).1 == flat_words(sents),
        all_words(chunk_state(sents, max).1),
    decreases sents.len(),
{
    if sents.len() == 0 {
        assert(flat_words(Seq::<Seq<char>>::empty()) + Seq::<Seq<char>>::empty() =~= flat_words(
            sents,
        ));
    } else {
        lemma_chunk_state_words(sents.drop_last(), max);
        let (chunks, cur) = chunk_state(sents.drop_last(), max);
        let words = spec_words(sents.last());
        lemma_words_clean(sents.last());
        if cur.len() + words.len() > max && cur.len() > 0 {
            let j = join(cur, " "@);
            lemma_words_of_join(cur);
            assert(chunks.push(j).drop_last() =~= chunks);
            assert(flat_words(chunks.push(j)) == flat_words(chunks) + cur);
            assert(flat_words(chunks) + cur + words =~= flat_words(chunks) + (cur + words));
        } else {
            assert(flat_words(chunks) + (cur + words) =~= flat_words(chunks) + cur + words);
            assert forall|i: int| 0 <= i < (cur + words).len() implies crate::text::is_word(
                #[trigger] (cur + words)[i],
            ) by {
                if i < cur.len() {
                    assert((cur + words)[i] == cur[i]);
                } else {
                    assert((cur + words)[i] == words[i - cur.len()]);
                }
            }
        }
    }
}

/// Chunking keeps every word of every sentence, in order: the words of the
/// chunks, read one chunk after another, are the words of the sentences.
pub proof fn law_chunks_keep_words(sents: Seq<Seq<char>>, max: nat)
    ensures
        flat_words(spec_chunk_sentences(sents, max)) == flat_words(sents),
{
    lemma_chunk_state_words(sents, max);
    let (chunks, cur) = chunk_state(sents, max);
    if cur.len() > 0 {
        lemma_words_of_join(cur);
        assert(chunks.push(join(cur, " "@)).drop_last() =~= chunks);
    } else {
        assert(flat_words(chunks) + cur =~= flat_words(chunks));
    }
}


/// A word list fits in `max` words or is the words of one of the sentences.
pub open spec fn fits_or_single(ws: Seq<Seq<char>>, sents: Seq<Seq<char>>, max: nat) -> bool {
    ws.len() <= max || exists|j: int| 0 <= j < sents.len() && ws == spec_words(#[trigger] sents[j])
}

proof fn lemma_fits_extend(ws: Seq<Seq<char>>, sents: Seq<Seq<char>>, max: nat)
    requires
        sents.len() > 0,
        fits_or_single(ws, sents.drop_last(), max),
    ensures
        fits_or_single(ws, sents, max),
{
    if ws.len() > max {
        let j = choose|j: int| 0 <= j < sents.drop_last().len() && ws == spec_words(
            #[trigger] sents.drop_last()[j],
        );
        assert(sents.drop_last()[j] == sents[j]);
    }
}

proof fn lemma_chunk_state_sizes(sents: Seq<Seq<char>>, max: nat)
    ensures
        fits_or_single(chunk_state(sents, max).1, sents, max),
        forall|i: int|
            0 <= i < chunk_state(sents, max).0.len() ==> fits_or_single(
                spec_words(#[trigger] chunk_state(sents, max).0[i]),
                sents,
                max,
            ),
    decreases sents.len(),
{
    if sents.len() > 0 {
        let prev = sents.drop_last();
        lemma_chunk_state_sizes(prev, max);
        lemma_chunk_state_words(prev, max);
        let (chunks, cur) = chunk_state(prev, max);
        let words = spec_words(sents.last());
        let last = sents.len() - 1;
        assert(words == spec_words(sents[last]));
        assert forall|i: int| 0 <= i < chunks.len() implies fits_or_single(
            spec_words(#[trigger] chunks[i]),
            sents,
            max,
        ) by {
            lemma_fits_extend(spec_words(chunks[i]), sents, max);
        }
        lemma_fits_extend(cur, sents, max);
        if cur.len() + words.len() > max && cur.len() > 0 {
            let j = join(cur, " "@);
            lemma_words_of_join(cur);
            assert forall|i: int| 0 <= i < chunks.push(j).len() implies fits_or_single(
                spec_words(#[trigger] chunks.push(j)[i]),
                sents,
                max,
            ) by {
                if i < chunks.len() {
                    assert(chunks.push(j)[i] == chunks[i]);
                }
            }
        } else if cur.len() == 0 {
            assert(cur + words =~= words);
        }
    }
}

/// No chunk holds more than `max` words unless its words are those of a
/// single sentence (a sentence longer than `max` words stands alone).
pub proof fn law_chunk_sizes(sents: Seq<Seq<char>>, max: nat)
    ensures
        forall|i: int|
            0 <= i < spec_chunk_sentences(sents, max).len() ==> fits_or_single(
                spec_words(#[trigger] spec_chunk_sentences(sents, max)[i]),
                sents,
                max,
            ),
{
    lemma_chunk_state_sizes(sents, max);
    lemma_chunk_state_words(sents, max);
    let (chunks, cur) = chunk_state(sents, max);
    if cur.len() > 0 {
        lemma_words_of_join(cur);
        assert forall|i: int| 0 <= i < chunks.push(join(cur, " "@)).len() implies fits_or_single(
            spec_words(#[trigger] chunks.push(join(cur, " "@))[i]),
            sents,
            max,
        ) by {
            if i < chunks.len() {
                assert(chunks.push(join(cur, " "@))[i] == chunks[i]);
            }
        }
    }
}


proof fn lemma_sentence_state_words(s: Seq<char>, n: int)
    requires
        0 <= n <= s.len(),
    ensures
        flat_words(sentence_state(s, n).0) == spec_words(s.take(sentence_state(s, n).1)),
        ({
            let st = sentence_state(s, n).1;
            st == 0 || st == s.len() || is_ws(s[st])
        }),
    decreases n,
{
    lemma_sentence_state_start(s, n);
    if n > 0 {
        lemma_sentence_state_words(s, n - 1);
        lemma_sentence_state_start(s, n - 1);
        let (ss, st) = sentence_state(s, n - 1);
        if ends_sentence(s, n - 1) {
            let sub = s.subrange(st, n);
            let seg = spec_trim(sub);
            lemma_words_trim(sub);
            lemma_words_split(s.take(st), sub);
            assert(s.take(st) + sub =~= s.take(n));
            if seg.len() > 0 {
                assert(ss.push(seg).drop_last() =~= ss);
            } else {
                assert(spec_words(seg) =~= Seq::<Seq<char>>::empty()) by {
                    assert(words_state(seg) == (Seq::<Seq<char>>::empty(), Seq::<char>::empty()));
                }
                assert(spec_words(s.take(st)) + spec_words(sub) =~= spec_words(s.take(st)));
            }
            if n < s.len() {
                assert(s[n] == ' ');
            }
        }
    }
}

/// Splitting a text into sentences keeps every word of it, in order.
pub proof fn law_sentences_keep_words(text: Seq<char>)
    ensures
        flat_words(spec_sentence_tokenize(text)) == spec_words(text),
{
    let n = text.len() as int;
    lemma_sentence_state_words(text, n);
    lemma_sentence_state_start(text, n);
    let (ss, st) = sentence_state(text, n);
    let sub = text.subrange(st, n);
    let tail = spec_trim(sub);
    lemma_words_trim(sub);
    lemma_words_split(text.take(st), sub);
    assert(text.take(st) + sub =~= text);
    if tail.len() > 0 {
        assert(ss.push(tail).drop_last() =~= ss);
    } else {
        assert(spec_words(tail) =~= Seq::<Seq<char>>::empty()) by {
            assert(words_state(tail) == (Seq::<Seq<char>>::empty(), Seq::<char>::empty()));
        }
        assert(spec_words(text.take(st)) + spec_words(sub) =~= spec_words(text.take(st)));
    }
}

/// The chunks the model reads hold every word of the text, in order, and no other.
pub proof fn law_text_chunks_keep_words(text: Seq<char>)
    ensures
        flat_words(spec_text_chunks(text)) == spec_words(text),
{
    law_sentences_keep_words(text);
    law_chunks_keep_words(spec_sentence_tokenize(text), MAX_CHUNK_WORDS as nat);
}

} // verus!
