pub mod manager;

pub use manager::VoiceManager;
