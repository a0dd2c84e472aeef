use kokoro::kokoro::{chunk_sentences, model_tokens, sentence_tokenize, text_chunks};
use kokoro::normalize::try_normalize_text;
use kokoro::phonemes::postprocess_phonemes;
use kokoro::streaming::split_sentences;
use kokoro::text::trim;
use kokoro::types::Lang;
use kokoro::vocab::tokenize;

fn words(s: &str) -> Vec<String> {
    s.split_whitespace().map(|w| w.to_string()).collect()
}

fn all_words(v: &[String]) -> Vec<String> {
    v.iter().flat_map(|s| words(s)).collect()
}

#[test]
fn trimming_twice_is_trimming_once() {
    for s in ["  a b  ", "\u{2003}x\u{2003}", "", "   ", "no-space"] {
        assert_eq!(trim(&trim(s)), trim(s));
    }
}

#[test]
fn normalized_text_has_no_surrounding_space() {
    for s in ["  Dr. Who  ", "\t$5\n", "(x) ", "\u{3002}"] {
        let n = try_normalize_text(s).unwrap();
        assert_eq!(n.trim(), n);
    }
}

#[test]
fn cleaned_phonemes_tokenize_completely() {
    for s in ["həlˈoʊ, wˈɜːld!", "a1b2 ʧ 日", "  nˈaɪnti  ", "kəkˈoːɹoʊ r"] {
        let p = postprocess_phonemes(s, Lang::Am).unwrap();
        assert_eq!(tokenize(&p).len(), p.chars().count());
    }
}

#[test]
fn model_input_shape() {
    for s in ["a", "həlˈoʊ", &"ə".repeat(700)] {
        let t = model_tokens(s).unwrap();
        assert!(t.len() >= 3 && t.len() <= 512);
        assert_eq!(t[0], 0);
        assert_eq!(*t.last().unwrap(), 0);
        assert!(t.iter().all(|&x| (0..178).contains(&x)));
    }
}

#[test]
fn sentences_are_trimmed_and_keep_words() {
    let text = "  One two.  Three!Four? Five six. seven  ";
    let s = sentence_tokenize(text);
    assert!(s.iter().all(|x| !x.is_empty() && x.trim() == x));
    assert_eq!(all_words(&s), words(text));
    let p = split_sentences(text);
    assert!(p.iter().all(|x| !x.is_empty() && x.trim() == x));
}

#[test]
fn chunks_keep_words_and_respect_size() {
    let text = "This is one sentence. Here is another one that is quite a bit longer than the first. Short. \
                And a final sentence that has many many many many many many many many many many many many many many many many many many many many many many words.";
    let chunks = text_chunks(text);
    assert_eq!(all_words(&chunks), words(text));
    let sentences = sentence_tokenize(text);
    for c in &chunks {
        let n = words(c).len();
        assert!(n <= 25 || sentences.iter().any(|s| words(s) == words(c)));
    }
    let small = chunk_sentences(&sentences, 4);
    assert_eq!(all_words(&small), words(text));
}

#[test]
fn tokens_of_concatenation() {
    let a = "ðə kˈæt";
    let b = " sˈæt.";
    let mut t = tokenize(a);
    t.extend(tokenize(b));
    assert_eq!(tokenize(&format!("{a}{b}")), t);
}
