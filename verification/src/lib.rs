//! Text front end, request rules and model-selection logic of a GPT-SoVITS
//! text-to-speech server, with their contracts proved by Verus.

pub mod audio;
pub mod config;
pub mod engine;
pub mod server;
pub mod text;
pub mod voice;
