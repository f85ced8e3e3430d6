use gptsovits_rs::voice::manager::{default_voice_names, ResolvedVoice, VoiceValue};
use gptsovits_rs::voice::VoiceManager;

#[derive(Debug, Clone, PartialEq)]
struct Preset {
    ref_audio_path: String,
    prompt_lang: String,
}

fn preset(path: &str) -> Preset {
    Preset { ref_audio_path: path.to_string(), prompt_lang: "zh".to_string() }
}

fn manager() -> VoiceManager<Preset> {
    let mut m = VoiceManager::new();
    for name in default_voice_names() {
        m.insert(name.to_string(), preset("voices/default/ref.wav"));
    }
    m.insert("Sandrone".to_string(), preset("voices/sandrone/ref.wav"));
    m
}

#[test]
fn default_presets() {
    assert_eq!(
        default_voice_names(),
        vec!["default", "alloy", "echo", "fable", "onyx", "nova", "shimmer", "sandrone"]
    );
    let m = manager();
    assert_eq!(m.list_voices().len(), 9);
    assert_eq!(m.get_voice("alloy"), Some(&preset("voices/default/ref.wav")));
    assert_eq!(m.get_voice("ALLOY"), None);
}

#[test]
fn insert_replaces_a_preset_of_the_same_name() {
    let mut m = manager();
    m.insert("alloy".to_string(), preset("other.wav"));
    assert_eq!(m.list_voices().len(), 9);
    assert_eq!(m.get_voice("alloy"), Some(&preset("other.wav")));
}

#[test]
fn names_resolve_exactly_then_ignoring_case() {
    let m = manager();
    match m.resolve_voice(VoiceValue::Name("Sandrone".to_string())) {
        Ok(ResolvedVoice::Preset(p)) => assert_eq!(p.ref_audio_path, "voices/sandrone/ref.wav"),
        _ => panic!("expected the sandrone preset"),
    }
    match m.resolve_voice(VoiceValue::Name("ECHO".to_string())) {
        Ok(ResolvedVoice::Preset(p)) => assert_eq!(p.ref_audio_path, "voices/default/ref.wav"),
        _ => panic!("expected a preset"),
    }
    match m.resolve_voice(VoiceValue::Name("nobody".to_string())) {
        Err(msg) => assert_eq!(msg, "Voice 'nobody' not found in voice presets."),
        _ => panic!("expected an error"),
    }
}

#[test]
fn voice_objects_and_other_values() {
    let m = manager();
    match m.resolve_voice(VoiceValue::Object(Ok(preset("dyn.wav")))) {
        Ok(ResolvedVoice::Custom(p)) => assert_eq!(p.ref_audio_path, "dyn.wav"),
        _ => panic!("expected the dynamic voice"),
    }
    match m.resolve_voice(VoiceValue::Object(Err("missing field `ref_audio_path`".to_string()))) {
        Err(msg) => assert_eq!(msg, "Invalid custom voice object schema: missing field `ref_audio_path`"),
        _ => panic!("expected an error"),
    }
    match m.resolve_voice(VoiceValue::Other) {
        Err(msg) => assert_eq!(msg, "Invalid voice type: must be string or object."),
        _ => panic!("expected an error"),
    }
}
