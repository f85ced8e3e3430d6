# gptsovits-rs

An OpenAI-compatible text-to-speech server for GPT-SoVITS models (v1, v2,
v2Pro, v2ProPlus, v3, v4), whose text front end and request logic are a
library with contracts proved by Verus.

## Layout

- `src/` — the verified library.
  - `text/` — Chinese text normalisation, segmentation (`cut0`–`cut5`),
    grapheme-to-phoneme conversion with tone sandhi, the CMU dictionary
    format, the phone symbol inventory, the BERT tokenizer and the
    phone-level alignment of BERT rows.
  - `engine/` — model versions, the model registry (which model serves a
    request, which files each custom model is loaded from), request
    preparation (reference-audio duration, prompt and segment text, BERT
    plans) and the integer side of semantic-token generation.
  - `server/` — input checks, error answers in the OpenAI format, bearer
    authentication, model and voice listings, response headers and the
    event-stream framing of audio.
  - `voice/` — voice presets and how a request's `voice` selects one.
  - `config.rs`, `audio/` — configuration defaults and output formats.
- `app/` — the program: configuration and voice files, ONNX Runtime
  sessions, floating-point signal processing and sampling, and the axum
  HTTP server.
- `tests/` — tests of the library.
