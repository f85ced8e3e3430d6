//! The audio formats a response can be encoded in.

use vstd::prelude::*;

verus! {

/// An output audio format.
#[derive(Debug, Clone, Copy, PartialEq, Eq, Structural)]
pub enum AudioFormat {
    Mp3,
    Opus,
    Aac,
    Flac,
    Wav,
    Pcm,
}

impl Default for AudioFormat {
    fn default() -> (f: Self)
        ensures
            f == AudioFormat::Mp3,
    {
        AudioFormat::Mp3
    }
}

/// The `Content-Type` of a response in format `f`.
pub open spec fn spec_content_type(f: AudioFormat) -> Seq<char> {
    match f {
        AudioFormat::Mp3 => "audio/mpeg"@,
        AudioFormat::Opus => "audio/opus"@,
        AudioFormat::Aac => "audio/aac"@,
        AudioFormat::Flac => "audio/flac"@,
        AudioFormat::Wav => "audio/wav"@,
        AudioFormat::Pcm => "application/octet-stream"@,
    }
}

/// The `ffmpeg` codec arguments of format `f`: the encoder and its quality
/// or bit rate.
pub open spec fn spec_codec_args(f: AudioFormat) -> Seq<Seq<char>> {
    match f {
        AudioFormat::Mp3 => seq!["-c:a"@, "libmp3lame"@, "-q:a"@, "2"@],
        AudioFormat::Opus => seq!["-c:a"@, "libopus"@, "-b:a"@, "128k"@],
        AudioFormat::Aac => seq!["-c:a"@, "aac"@, "-b:a"@, "192k"@],
        AudioFormat::Flac => seq!["-c:a"@, "flac"@],
        _ => Seq::empty(),
    }
}

impl AudioFormat {
    /// The `Content-Type` of a response in this format.
    pub fn content_type(&self) -> (r: &'static str)
        ensures
            r@ == spec_content_type(*self),
    {
        match self {
            AudioFormat::Mp3 => "audio/mpeg",
            AudioFormat::Opus => "audio/opus",
            AudioFormat::Aac => "audio/aac",
            AudioFormat::Flac => "audio/flac",
            AudioFormat::Wav => "audio/wav",
            AudioFormat::Pcm => "application/octet-stream",
        }
    }

    /// The `ffmpeg` output container for formats that `ffmpeg` encodes;
    /// `None` for WAV and raw PCM, which are written directly.
    pub fn ffmpeg_container(&self) -> (r: Option<&'static str>)
        ensures
            r matches Some(c) ==> c@ == match *self {
                AudioFormat::Mp3 => "mp3"@,
                AudioFormat::Opus => "opus"@,
                AudioFormat::Aac => "adts"@,
                _ => "flac"@,
            },
            r is None <==> (*self == AudioFormat::Wav || *self == AudioFormat::Pcm),
    {
        match self {
            AudioFormat::Mp3 => Some("mp3"),
            AudioFormat::Opus => Some("opus"),
            AudioFormat::Aac => Some("adts"),
            AudioFormat::Flac => Some("flac"),
            AudioFormat::Wav | AudioFormat::Pcm => None,
        }
    }

    /// The `ffmpeg` codec arguments for this format (empty for WAV and PCM).
    pub fn ffmpeg_codec_args(&self) -> (r: Vec<&'static str>)
        ensures
            r@.map_values(|a: &str| a@) == spec_codec_args(*self),
    {
        let r: Vec<&'static str> = match self {
            AudioFormat::Mp3 => vec!["-c:a", "libmp3lame", "-q:a", "2"],
            AudioFormat::Opus => vec!["-c:a", "libopus", "-b:a", "128k"],
            AudioFormat::Aac => vec!["-c:a", "aac", "-b:a", "192k"],
            AudioFormat::Flac => vec!["-c:a", "flac"],
            AudioFormat::Wav | AudioFormat::Pcm => Vec::new(),
        };
        assert(r@.map_values(|a: &str| a@) =~= spec_codec_args(*self));
        r
    }
}

} // verus!
