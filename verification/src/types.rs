//! The voice catalogue and the constants of the model.

use vstd::prelude::*;

verus! {

/// Sample rate, in Hz, of the audio the model produces.
pub const SAMPLING_RATE: u32 = 24_000;

/// Largest number of phoneme tokens handed to the model for one chunk.
pub const MAX_TOKENS: usize = 510;

/// Largest number of words gathered into one chunk of text (unless a single
/// sentence is longer).
pub const MAX_CHUNK_WORDS: usize = 25;

/// Commit of the model repository the ONNX model is fetched from.
pub const DEFAULT_MODEL_COMMIT: &'static str = "3095858c40fc22e28c46429da9340dfda1f8cf28";

/// Base URL of the model repository.
pub const HF_BASE_URL: &'static str = "https://huggingface.co/hexgrad/Kokoro-82M/resolve";

/// Base URL of the converted voice packs.
pub const VOICE_RELEASE_BASE: &'static str = "https://github.com/RohanAwhad/kokoro-rust/releases/download/voices";

/// Name of the cache directory.
pub const CACHE_DIR_NAME: &'static str = "kokoro-tts";

/// File name of the ONNX model inside the cache directory.
pub const MODEL_FILENAME: &'static str = "kokoro-v0_19.onnx";

/// Accent of a voice.
#[derive(Debug, Clone, Copy, PartialEq, Eq, Structural)]
pub enum Lang {
    Am,
    Br,
}

/// The voices the model ships with.
#[derive(Debug, Clone, Copy, PartialEq, Eq, Structural, Hash)]
pub enum Voice {
    Af,
    AfBella,
    AfSarah,
    AmAdam,
    AmMichael,
    BfEmma,
    BfIsabella,
    BmGeorge,
    BmLewis,
    AfNicole,
    AfSky,
}

/// The accent of each voice: the `bf_`/`bm_` voices are British, the others American.
pub open spec fn spec_lang(v: Voice) -> Lang {
    match v {
        Voice::BfEmma | Voice::BfIsabella | Voice::BmGeorge | Voice::BmLewis => Lang::Br,
        _ => Lang::Am,
    }
}

/// The espeak-ng voice used for an accent.
pub open spec fn spec_espeak_voice(lang: Lang) -> Seq<char> {
    match lang {
        Lang::Am => "en-us"@,
        Lang::Br => "en-gb"@,
    }
}

/// The file stem of each voice.
pub open spec fn spec_filename(v: Voice) -> Seq<char> {
    match v {
        Voice::Af => "af"@,
        Voice::AfBella => "af_bella"@,
        Voice::AfSarah => "af_sarah"@,
        Voice::AmAdam => "am_adam"@,
        Voice::AmMichael => "am_michael"@,
        Voice::BfEmma => "bf_emma"@,
        Voice::BfIsabella => "bf_isabella"@,
        Voice::BmGeorge => "bm_george"@,
        Voice::BmLewis => "bm_lewis"@,
        Voice::AfNicole => "af_nicole"@,
        Voice::AfSky => "af_sky"@,
    }
}

/// The espeak-ng voice name for an accent.
pub fn espeak_voice(lang: Lang) -> (name: &'static str)
    ensures
        name@ == spec_espeak_voice(lang),
{
    match lang {
        Lang::Am => "en-us",
        Lang::Br => "en-gb",
    }
}

impl Voice {
    /// Every voice, in catalogue order.
    pub const ALL: [Voice; 11] = [
        Voice::Af,
        Voice::AfBella,
        Voice::AfSarah,
        Voice::AmAdam,
        Voice::AmMichael,
        Voice::BfEmma,
        Voice::BfIsabella,
        Voice::BmGeorge,
        Voice::BmLewis,
        Voice::AfNicole,
        Voice::AfSky,
    ];

    pub fn lang(&self) -> (l: Lang)
        ensures
            l == spec_lang(*self),
    {
        match self {
            Voice::Af
            | Voice::AfBella
            | Voice::AfSarah
            | Voice::AmAdam
            | Voice::AmMichael
            | Voice::AfNicole
            | Voice::AfSky => Lang::Am,
            Voice::BfEmma | Voice::BfIsabella | Voice::BmGeorge | Voice::BmLewis => Lang::Br,
        }
    }

    pub fn espeak_lang(&self) -> (name: &'static str)
        ensures
            name@ == spec_espeak_voice(spec_lang(*self)),
    {
        espeak_voice(self.lang())
    }

    pub fn filename(&self) -> (name: &'static str)
        ensures
            name@ == spec_filename(*self),
    {
        match self {
            Voice::Af => "af",
            Voice::AfBella => "af_bella",
            Voice::AfSarah => "af_sarah",
            Voice::AmAdam => "am_adam",
            Voice::AmMichael => "am_michael",
            Voice::BfEmma => "bf_emma",
            Voice::BfIsabella => "bf_isabella",
            Voice::BmGeorge => "bm_george",
            Voice::BmLewis => "bm_lewis",
            Voice::AfNicole => "af_nicole",
            Voice::AfSky => "af_sky",
        }
    }

    /// The text a voice is displayed as: its file stem.
    pub fn to_string(&self) -> (s: String)
        ensures
            s@ == spec_filename(*self),
    {
        String::from_str(self.filename())
    }
}


pub(crate) proof fn reveal_filenames()
    ensures
        "af"@ =~= seq!['a', 'f'],
        "af_bella"@ =~= seq!['a', 'f', '_', 'b', 'e', 'l', 'l', 'a'],
        "af_sarah"@ =~= seq!['a', 'f', '_', 's', 'a', 'r', 'a', 'h'],
        "am_adam"@ =~= seq!['a', 'm', '_', 'a', 'd', 'a', 'm'],
        "am_michael"@ =~= seq!['a', 'm', '_', 'm', 'i', 'c', 'h', 'a', 'e', 'l'],
        "bf_emma"@ =~= seq!['b', 'f', '_', 'e', 'm', 'm', 'a'],
        "bf_isabella"@ =~= seq!['b', 'f', '_', 'i', 's', 'a', 'b', 'e', 'l', 'l', 'a'],
        "bm_george"@ =~= seq!['b', 'm', '_', 'g', 'e', 'o', 'r', 'g', 'e'],
        "bm_lewis"@ =~= seq!['b', 'm', '_', 'l', 'e', 'w', 'i', 's'],
        "af_nicole"@ =~= seq!['a', 'f', '_', 'n', 'i', 'c', 'o', 'l', 'e'],
        "af_sky"@ =~= seq!['a', 'f', '_', 's', 'k', 'y'],
{
    reveal_strlit("af");
    reveal_strlit("af_bella");
    reveal_strlit("af_sarah");
    reveal_strlit("am_adam");
    reveal_strlit("am_michael");
    reveal_strlit("bf_emma");
    reveal_strlit("bf_isabella");
    reveal_strlit("bm_george");
    reveal_strlit("bm_lewis");
    reveal_strlit("af_nicole");
    reveal_strlit("af_sky");
}

/// A voice is British exactly when its name starts with `b` (`bf_`, `bm_`),
/// American when it starts with `a`.
pub proof fn law_lang_from_name(v: Voice)
    ensures
        spec_filename(v).len() > 0,
        spec_lang(v) == Lang::Br <==> spec_filename(v)[0] == 'b',
        spec_lang(v) == Lang::Am <==> spec_filename(v)[0] == 'a',
{
    reveal_filenames();
}

/// The file stem of each voice is its name in snake case: accent and sex
/// (`af`, `am`, `bf`, `bm`), then `_` and the speaker's name in lower case.
pub proof fn law_voice_file_stems()
    ensures
        spec_filename(Voice::Af) == seq!['a', 'f'],
        spec_filename(Voice::AfBella) == seq!['a', 'f', '_', 'b', 'e', 'l', 'l', 'a'],
        spec_filename(Voice::AfSarah) == seq!['a', 'f', '_', 's', 'a', 'r', 'a', 'h'],
        spec_filename(Voice::AmAdam) == seq!['a', 'm', '_', 'a', 'd', 'a', 'm'],
        spec_filename(Voice::AmMichael) == seq!['a', 'm', '_', 'm', 'i', 'c', 'h', 'a', 'e', 'l'],
        spec_filename(Voice::BfEmma) == seq!['b', 'f', '_', 'e', 'm', 'm', 'a'],
        spec_filename(Voice::BfIsabella) == seq!['b', 'f', '_', 'i', 's', 'a', 'b', 'e', 'l', 'l', 'a'],
        spec_filename(Voice::BmGeorge) == seq!['b', 'm', '_', 'g', 'e', 'o', 'r', 'g', 'e'],
        spec_filename(Voice::BmLewis) == seq!['b', 'm', '_', 'l', 'e', 'w', 'i', 's'],
        spec_filename(Voice::AfNicole) == seq!['a', 'f', '_', 'n', 'i', 'c', 'o', 'l', 'e'],
        spec_filename(Voice::AfSky) == seq!['a', 'f', '_', 's', 'k', 'y'],
{
    reveal_filenames();
}

/// Different voices have different names.
pub proof fn law_names_distinct(v: Voice, w: Voice)
    requires
        v != w,
    ensures
        spec_filename(v) != spec_filename(w),
{
    reveal_filenames();
    if spec_filename(v) == spec_filename(w) {
        assert(spec_filename(v).len() == spec_filename(w).len());
        assert(spec_filename(v)[3] == spec_filename(w)[3]);
        assert(spec_filename(v)[1] == spec_filename(w)[1]);
        assert(spec_filename(v)[0] == spec_filename(w)[0]);
        assert(spec_filename(v)[4] == spec_filename(w)[4]);
    }
}

/// `Voice::ALL` lists every voice exactly once.
pub proof fn law_all_voices(v: Voice)
    ensures
        exists|i: int| 0 <= i < 11 && Voice::ALL@[i] == v,
        forall|i: int, j: int|
            0 <= i < j < 11 ==> #[trigger] Voice::ALL@[i] != #[trigger] Voice::ALL@[j],
{
    assert(Voice::ALL@ =~= seq![
        Voice::Af,
        Voice::AfBella,
        Voice::AfSarah,
        Voice::AmAdam,
        Voice::AmMichael,
        Voice::BfEmma,
        Voice::BfIsabella,
        Voice::BmGeorge,
        Voice::BmLewis,
        Voice::AfNicole,
        Voice::AfSky,
    ]);
    match v {
        Voice::Af => assert(Voice::ALL@[0] == v),
        Voice::AfBella => assert(Voice::ALL@[1] == v),
        Voice::AfSarah => assert(Voice::ALL@[2] == v),
        Voice::AmAdam => assert(Voice::ALL@[3] == v),
        Voice::AmMichael => assert(Voice::ALL@[4] == v),
        Voice::BfEmma => assert(Voice::ALL@[5] == v),
        Voice::BfIsabella => assert(Voice::ALL@[6] == v),
        Voice::BmGeorge => assert(Voice::ALL@[7] == v),
        Voice::BmLewis => assert(Voice::ALL@[8] == v),
        Voice::AfNicole => assert(Voice::ALL@[9] == v),
        Voice::AfSky => assert(Voice::ALL@[10] == v),
    }
}

} // verus!
