//! The verified core of a voice-to-voice pipeline: the host side of the
//! WebAssembly module protocol and its chain, WAV encoding, the MP3
//! encoder's decisions, and the LLM module's chat exchange.

pub mod abi;
pub mod chain;
pub mod host;
pub mod llm;
pub mod mp3;
pub mod pipeline;
pub mod wav;
