pub mod encoder;

pub use encoder::AudioFormat;
