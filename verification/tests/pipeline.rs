use kokoro::error::KokoroError;
use kokoro::phonemes::{phonemes_from_utterances, phonemizer_input, postprocess_phonemes};
use kokoro::streaming::{pair_sentences, split_sentences};
use kokoro::types::Lang;
use kokoro::voice::{TensorEntry, VoicePack};

fn post(s: &str, lang: Lang) -> String {
    postprocess_phonemes(s, lang).expect("rules apply")
}

#[test]
fn phoneme_fixes() {
    assert_eq!(post("həlˈoʊ wˈɜːld", Lang::Am), "həlˈoʊ wˈɜːld");
    assert_eq!(post("kəkˈoːɹoʊ", Lang::Am), "kˈoʊkəɹoʊ");
    assert_eq!(post("kəkˈɔːɹəʊ", Lang::Br), "kˈəʊkəɹəʊ");
    assert_eq!(post("rxʲɬ", Lang::Am), "ɹkjl");
    assert_eq!(post("nˈaɪnti", Lang::Am), "nˈaɪndi");
    assert_eq!(post("nˈaɪnti", Lang::Br), "nˈaɪnti");
    assert_eq!(post("nˈaɪntiː", Lang::Am), "nˈaɪntiː");
    assert_eq!(post("wʌnhˈʌndɹɪd", Lang::Am), "wʌn hˈʌndɹɪd");
    assert_eq!(post("ɪts z.", Lang::Am), "ɪtsz.");
    assert_eq!(post("a z", Lang::Am), "az");
    assert_eq!(post(" a1b2 ", Lang::Am), "ab");
}

#[test]
fn utterances_and_input() {
    assert_eq!(phonemes_from_utterances(&vec![], Lang::Am), Some(String::new()));
    assert_eq!(
        phonemes_from_utterances(&vec!["həlˈoʊ".to_string(), "wˈɜːld".to_string()], Lang::Am),
        Some("həlˈoʊ wˈɜːld".to_string())
    );
    assert_eq!(phonemizer_input("Dr. X", true), Some("Doctor X".to_string()));
    assert_eq!(phonemizer_input("Dr. X", false), Some("Dr. X".to_string()));
}

#[test]
fn split_and_pair_for_streaming() {
    assert_eq!(split_sentences("Hi. There! OK?"), vec!["Hi.", "There!", "OK?"]);
    assert_eq!(split_sentences("a.b"), vec!["a.", "b"]);
    assert_eq!(split_sentences(" . ! "), vec![".", "!"]);
    assert_eq!(split_sentences(""), Vec::<String>::new());
    let parts = vec!["a".to_string(), "b".to_string(), "c".to_string()];
    assert_eq!(pair_sentences(&parts), vec!["a b", "c"]);
    assert_eq!(pair_sentences(&vec![]), Vec::<String>::new());
}

fn file(meta: &[u8], blob: &[u8]) -> Vec<u8> {
    let mut d = (meta.len() as u32).to_le_bytes().to_vec();
    d.extend_from_slice(meta);
    d.extend_from_slice(blob);
    d
}

fn entry(key: &str, offset: usize, size: usize, shape: Vec<usize>) -> TensorEntry {
    TensorEntry { key: key.to_string(), offset, size, shape }
}

fn invalid(r: Result<VoicePack, KokoroError>) -> String {
    match r {
        Err(KokoroError::InvalidVoicePack(m)) => m,
        Err(e) => panic!("unexpected error {:?}", e),
        Ok(_) => panic!("unexpected success"),
    }
}

#[test]
fn voice_pack_styles() {
    let words: Vec<f32> = vec![0.5, -1.0, 2.25, 3.0];
    let blob: Vec<u8> = words.iter().flat_map(|w| w.to_le_bytes()).collect();
    let data = file(b"{}", &blob);
    assert_eq!(VoicePack::meta_len(&data).ok(), Some(2));
    let pack = VoicePack::load(&data, vec![entry("0", 0, 16, vec![2, 1, 2])]).unwrap();
    assert_eq!(pack.style_shape(), &[2, 1, 2]);
    let style: Vec<f32> = pack.get_style().iter().map(|&b| f32::from_bits(b)).collect();
    assert_eq!(style, vec![2.25, 3.0]);
    let flat = VoicePack::load(&data, vec![entry("+0", 4, 8, vec![2])]).unwrap();
    let style: Vec<f32> = flat.get_style().iter().map(|&b| f32::from_bits(b)).collect();
    assert_eq!(style, vec![-1.0, 2.25]);
}

#[test]
fn voice_pack_errors() {
    let blob = [0u8; 8];
    let data = file(b"{}", &blob);
    assert_eq!(invalid(VoicePack::load(&[1, 0], vec![])), "file too small");
    assert_eq!(invalid(VoicePack::load(&[9, 0, 0, 0, 1], vec![])), "invalid metadata length");
    assert_eq!(invalid(VoicePack::load(&data, vec![entry("0", 4, 8, vec![])])), "tensor 0 offset+size exceeds blob");
    assert_eq!(invalid(VoicePack::load(&data, vec![entry("0", 0, 6, vec![])])), "tensor 0 size mismatch");
    assert_eq!(invalid(VoicePack::load(&data, vec![entry("x", 0, 4, vec![])])), "invalid key: x");
    assert_eq!(invalid(VoicePack::load(&data, vec![])), "no tensors found");
    let e = KokoroError::InvalidVoicePack("no tensors found".to_string());
    assert_eq!(e.message(), "invalid voice pack: no tensors found");
    assert_eq!(KokoroError::VoiceNotLoaded.message(), "voice not loaded");
}

#[test]
fn voice_pack_style_len() {
    let words: Vec<f32> = vec![0.5, -1.0, 2.25, 3.0];
    let blob: Vec<u8> = words.iter().flat_map(|w| w.to_le_bytes()).collect();
    let data = file(b"{}", &blob);
    let pack = VoicePack::load(&data, vec![entry("0", 0, 16, vec![2, 1, 2])]).unwrap();
    assert_eq!(pack.style_len(), Some(4));
    let other = VoicePack::load(&data, vec![entry("1", 0, 8, vec![])]).unwrap();
    assert_eq!(other.style_len(), None);
}
