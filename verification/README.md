# voicecore

A near-field voice isolation engine: it cleans microphone audio down to the
enrolled speaker at 16 kHz mono and can stream it to a conversational agent.

## Layout

- `src/` — the verified library (Verus). Everything here has a contract and
  a proof:
  - `base64`, `pcm`, `le`, `profile_bytes` — byte codecs (Base64, PCM16,
    little-endian words, the speaker-profile blob), each with a round-trip law;
  - `bands`, `bignum` and `amgm` — the 24-band log-spaced spectral layout of
    the band embedder, computed with exact integer roots, and the proof that
    it is defined exactly from 25 bins up;
  - `config` — settings validation and the engine's fixed rates and sizes;
  - `framing` — frame counts and the streaming frame/hop schedules, with the
    law that feeding a stream in chunks yields the same frames as feeding it
    whole;
  - `activity` — the voice-activity hangover state machine, with the law
    that a frame is speech exactly when a voiced frame lies within the
    hangover window before it;
  - `ffi_state` — the status codes, the output queue (a buffer as long as
    the input always suffices; output that does not fit waits for the next
    call) and the size-query/fetch
    protocol of the C ABI;
  - `wav` — the RIFF/WAVE chunk walk and the header of written files;
  - `text` — decimal formatting;
  - `agent` — the agent WebSocket messages, the action taken on each
    incoming event (JSON access goes through `serde_json`), and the live
    session's step function: the opening message first, one audio message
    per non-empty chunk, nothing after the session ends;
  - `cli` — the command-line grammar.
- `app/` — ordinary Rust around the library: the floating-point DSP
  (filters, STFT, denoisers, AGC, resampler, embedders), the ONNX and
  DeepFilterNet front-ends, audio and network I/O, the C and WebAssembly
  shells, and the command-line tool.
- `tests/` — tests of the library on concrete values.
