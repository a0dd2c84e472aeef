# kokoro (verified text front end)

The text side of the Kokoro-82M text-to-speech pipeline, written in Verus.

- `src/` is the verified library: the voice catalogue, text normalisation
  (with `fancy_regex` behind trusted wrappers), phoneme clean-up,
  tokenisation, sentence splitting and chunking, and voice-pack decoding.
  Each public function states its result over specification functions,
  exactly where it does not rest on an outside call; where it does (a regex
  rewrite, a path join, whether a non-ASCII character is alphabetic), the
  contract states what the outside crate or std documents. The `law_*` proof functions state properties that hold across
  all inputs (chunking keeps every word, cleaned phonemes tokenise fully, ...).
- `app/` is the command-line program around it: espeak-ng calls, the ONNX
  model, downloads, WAV output and audio playback.
- `tests/` runs the library on concrete inputs.
