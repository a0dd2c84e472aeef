//! Errors of the library.

use vstd::prelude::*;

verus! {

/// Errors of the text and voice-pack logic. The I/O, HTTP, ONNX runtime, WAV
/// and JSON errors of the surrounding program carry their message in `Other`.
#[derive(Debug)]
pub enum KokoroError {
    Espeak(String),
    InvalidVoice(String),
    VoiceNotLoaded,
    ModelNotLoaded,
    EmptyTokens,
    VoicePackMissingStyle,
    InvalidVoicePack(String),
    Other(String),
}

/// Result of the library's fallible operations.
pub type Result<T> = std::result::Result<T, KokoroError>;

impl KokoroError {
    /// The message the error is displayed with.
    pub fn message(&self) -> (s: String)
        ensures
            s@ == self.spec_message(),
    {
        match self {
            KokoroError::Espeak(m) => {
                let mut s = String::from_str("espeak error: ");
                s.append(m.as_str());
                s
            },
            KokoroError::InvalidVoice(m) => {
                let mut s = String::from_str("invalid voice: '");
                s.append(m.as_str());
                s.append("'");
                s
            },
            KokoroError::VoiceNotLoaded => String::from_str("voice not loaded"),
            KokoroError::ModelNotLoaded => String::from_str("model not loaded"),
            KokoroError::EmptyTokens => String::from_str("empty token sequence"),
            KokoroError::VoicePackMissingStyle => String::from_str(
                "voice pack missing style for batch_size=1",
            ),
            KokoroError::InvalidVoicePack(m) => {
                let mut s = String::from_str("invalid voice pack: ");
                s.append(m.as_str());
                s
            },
            KokoroError::Other(m) => String::from_str(m.as_str()),
        }
    }

    /// The message the error is displayed with.
    pub open spec fn spec_message(&self) -> Seq<char> {
        match self {
            KokoroError::Espeak(m) => "espeak error: "@ + m@,
            KokoroError::InvalidVoice(m) => "invalid voice: '"@ + m@ + "'"@,
            KokoroError::VoiceNotLoaded => "voice not loaded"@,
            KokoroError::ModelNotLoaded => "model not loaded"@,
            KokoroError::EmptyTokens => "empty token sequence"@,
            KokoroError::VoicePackMissingStyle => "voice pack missing style for batch_size=1"@,
            KokoroError::InvalidVoicePack(m) => "invalid voice pack: "@ + m@,
            KokoroError::Other(m) => m@,
        }
    }
}

} // verus!
