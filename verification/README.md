# voice_actions

The verified core of a voice-to-voice pipeline: speech is transcribed, the
text runs through a chain of WebAssembly modules, and the result is spoken
again and written as WAV and MP3.

- `src/abi.rs` — the packed `(ptr << 32) | len` result of a module's
  `process` export, and the laws that packing and unpacking undo each other.
- `src/host.rs` — what the host asks of one module and how it reads the
  answer (allocation size, input bytes and address, result region, UTF-8).
- `src/chain.rs` — `run_wasm_chain`: modules run in order, each on the
  previous one's output; laws for the empty chain, for chaining, and, for
  deterministic modules, for a unique outcome, the first failure and an echo
  module.
- `src/wav.rs` — the bytes of a 16-bit PCM mono WAV file, and what a reader
  finds in them.
- `src/mp3.rs` — the MP3 encoder's sample format, resampling choice, frame
  size, the cutting of samples into frames, and the packets it writes.
- `src/llm.rs` — the chat request and reply text of the LLM module.
- `src/pipeline.rs` — the synthesis language.
- `app/` — the command-line program: speech models, WasmEdge, FFmpeg, files.
