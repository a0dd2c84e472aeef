//! Text front end of the Kokoro text-to-speech pipeline: voice catalogue,
//! text normalisation, phoneme clean-up, tokenisation, sentence chunking and
//! voice-pack decoding, each with a machine-checked contract.

pub mod error;
pub mod kokoro;
pub mod normalize;
pub mod numtext;
pub mod phonemes;
pub mod regex;
pub mod rewrite;
pub mod streaming;
pub mod text;
pub mod types;
pub mod vocab;
pub mod voice;

pub use error::{KokoroError, Result};
pub use types::{Lang, Voice, SAMPLING_RATE};
