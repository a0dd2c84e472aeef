use kokoro::kokoro::{chunk_sentences, model_tokens, needs_voice_load, sentence_tokenize, text_chunks};
use kokoro::types::{espeak_voice, Lang, Voice, MAX_TOKENS};
use kokoro::vocab::{tokenize, vocab_chars};

#[test]
fn voice_lang_follows_name() {
    assert_eq!(Voice::AfSky.lang(), Lang::Am);
    assert_eq!(Voice::BmLewis.lang(), Lang::Br);
    assert_eq!(Voice::BfEmma.espeak_lang(), "en-gb");
    assert_eq!(Voice::AmAdam.espeak_lang(), "en-us");
    assert_eq!(espeak_voice(Lang::Am), "en-us");
    for v in Voice::ALL.iter() {
        let name = v.filename();
        assert_eq!(v.lang() == Lang::Br, name.starts_with('b'));
        assert_eq!(v.to_string(), name);
    }
}

#[test]
fn voice_names() {
    assert_eq!(Voice::Af.filename(), "af");
    assert_eq!(Voice::AfSky.filename(), "af_sky");
    assert_eq!(Voice::BfIsabella.to_string(), "bf_isabella");
    assert_eq!(Voice::ALL.len(), 11);
    for (i, v) in Voice::ALL.iter().enumerate() {
        for w in Voice::ALL.iter().skip(i + 1) {
            assert_ne!(v.filename(), w.filename());
        }
    }
}

#[test]
fn voice_urls_and_files() {
    assert_eq!(
        Voice::AfSky.voice_url(),
        "https://huggingface.co/hexgrad/Kokoro-82M/resolve/main/voices/af_sky.pt"
    );
    assert_eq!(Voice::BmGeorge.voice_file_name(), "bm_george.kokoro");
    let p = Voice::AfBella.voice_path(std::path::Path::new("/cache"));
    assert_eq!(p, std::path::PathBuf::from("/cache/voices/af_bella.kokoro"));
    assert_eq!(
        kokoro::kokoro::model_url(),
        "https://huggingface.co/hexgrad/Kokoro-82M/resolve/3095858c40fc22e28c46429da9340dfda1f8cf28/kokoro-v0_19.onnx"
    );
}

#[test]
fn vocabulary_positions() {
    let v: Vec<char> = vocab_chars().chars().collect();
    assert_eq!(v.len(), 178);
    assert_eq!(tokenize("$"), vec![0]);
    assert_eq!(tokenize(";"), vec![1]);
    assert_eq!(tokenize("A"), vec![17]);
    assert_eq!(tokenize("a"), vec![43]);
    assert_eq!(tokenize(" "), vec![16]);
    // a symbol listed twice takes its last position
    assert_eq!(tokenize("\""), vec![15]);
    assert_eq!(tokenize("'"), vec![176]);
    assert_eq!(tokenize("ᵻ"), vec![177]);
}

#[test]
fn tokenize_drops_unknown_symbols() {
    assert_eq!(tokenize("a1b"), vec![43, 44]);
    assert_eq!(tokenize("日本"), Vec::<u32>::new());
    assert_eq!(tokenize(""), Vec::<u32>::new());
    let joined = format!("{}{}", "həlˈoʊ", " wˈɜːld");
    let mut parts = tokenize("həlˈoʊ");
    parts.extend(tokenize(" wˈɜːld"));
    assert_eq!(tokenize(&joined), parts);
}

#[test]
fn model_tokens_pad_and_truncate() {
    assert_eq!(model_tokens(""), None);
    assert_eq!(model_tokens("123"), None);
    assert_eq!(model_tokens("a"), Some(vec![0, 43, 0]));
    let long: String = std::iter::repeat('a').take(600).collect();
    let t = model_tokens(&long).unwrap();
    assert_eq!(t.len(), MAX_TOKENS + 2);
    assert_eq!(t[0], 0);
    assert_eq!(t[t.len() - 1], 0);
    assert!(t[1..t.len() - 1].iter().all(|&x| x == 43));
}

#[test]
fn sentences_split_before_capitals() {
    assert_eq!(
        sentence_tokenize("Hello world. This is a test."),
        vec!["Hello world.".to_string(), "This is a test.".to_string()]
    );
    assert_eq!(sentence_tokenize("e.g. this one"), vec!["e.g. this one".to_string()]);
    assert_eq!(sentence_tokenize("Hi!How are you? Fine"), vec!["Hi!How are you?".to_string(), "Fine".to_string()]);
    // a terminal followed by two spaces does not end a sentence
    assert_eq!(sentence_tokenize("Really?  Yes"), vec!["Really?  Yes".to_string()]);
    assert_eq!(sentence_tokenize("   "), Vec::<String>::new());
    assert_eq!(sentence_tokenize("Wait... What? Yes!"), vec!["Wait...".to_string(), "What?".to_string(), "Yes!".to_string()]);
}

#[test]
fn chunks_gather_sentences() {
    let s: Vec<String> = vec!["one two".into(), "three four".into(), "five".into()];
    assert_eq!(chunk_sentences(&s, 3), vec!["one two".to_string(), "three four five".to_string()]);
    assert_eq!(chunk_sentences(&s, 5), vec!["one two three four five".to_string()]);
    let long: Vec<String> = vec!["a b c d e".into(), "f".into()];
    assert_eq!(chunk_sentences(&long, 2), vec!["a b c d e".to_string(), "f".to_string()]);
    let spaced: Vec<String> = vec!["  x \t y  ".into()];
    assert_eq!(chunk_sentences(&spaced, 25), vec!["x y".to_string()]);
    assert_eq!(chunk_sentences(&Vec::new(), 25), Vec::<String>::new());
    assert_eq!(text_chunks("Hello world. Bye."), vec!["Hello world. Bye.".to_string()]);
}

#[test]
fn voice_reload_decision() {
    assert!(needs_voice_load(None, false, Voice::AfSky));
    assert!(needs_voice_load(Some(Voice::AfSky), false, Voice::AfSky));
    assert!(needs_voice_load(Some(Voice::Af), true, Voice::AfSky));
    assert!(!needs_voice_load(Some(Voice::AfSky), true, Voice::AfSky));
}

#[test]
fn tokenize_keeps_one_token_per_table_symbol() {
    let v: Vec<char> = vocab_chars().chars().collect();
    let t = tokenize("a1b2ə");
    assert_eq!(t.len(), 3);
    assert_eq!(v[t[0] as usize], 'a');
    assert_eq!(v[t[1] as usize], 'b');
    assert_eq!(v[t[2] as usize], 'ə');
    assert_eq!(tokenize("123"), Vec::<u32>::new());
}
