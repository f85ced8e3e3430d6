use gptsovits_rs::audio::AudioFormat;
use gptsovits_rs::server::auth::{is_authorized, unauthorized_error};
use gptsovits_rs::server::error::AppError;
use gptsovits_rs::server::routes::{
    classify_synthesis_error, decimal_string, encode, health_body, invalid_speed_error,
    invalid_voice_error, model_list, rate_limit_error, speech_headers, sse_events, validate_input,
    voice_list,
};
use gptsovits_rs::server::schema::{ErrorResponse, StreamFormat};

fn bad_request_parts(e: &AppError) -> (String, Option<&'static str>, Option<&'static str>) {
    match e {
        AppError::BadRequest(m, p, c) => (m.clone(), *p, *c),
        other => panic!("expected a bad request, got {:?}", other),
    }
}

#[test]
fn hex_encoding_is_lower_case_two_digits_per_byte() {
    assert_eq!(encode(&[0x00, 0xff, 0x1a, 0x09]), "00ff1a09");
    assert_eq!(encode(&[]), "");
}

#[test]
fn sse_events_carry_chunks_of_8192_bytes() {
    assert_eq!(sse_events(&[0xab]), vec!["data: ab\n\n".to_string()]);
    let audio: Vec<u8> = (0..(8192 * 2 + 1)).map(|i| (i % 256) as u8).collect();
    let events = sse_events(&audio);
    assert_eq!(events.len(), 3);
    assert!(events.iter().all(|e| e.starts_with("data: ") && e.ends_with("\n\n")));
    assert_eq!(events[0].len(), 6 + 2 * 8192 + 2);
    assert_eq!(events[2], "data: 00\n\n");
    assert!(sse_events(&[]).is_empty());
}

#[test]
fn empty_input_is_rejected() {
    let e = validate_input("").unwrap_err();
    assert_eq!(e.status_code(), 400);
    let (m, p, c) = bad_request_parts(&e);
    assert_eq!(m, "Input text cannot be empty.");
    assert_eq!(p, Some("input"));
    assert_eq!(c, Some("empty_input"));
}

#[test]
fn input_length_is_counted_in_characters() {
    let ok: String = std::iter::repeat('字').take(4096).collect();
    assert!(validate_input(&ok).is_ok());
    let long: String = std::iter::repeat('a').take(4097).collect();
    let (m, _, c) = bad_request_parts(&validate_input(&long).unwrap_err());
    assert_eq!(m, "Input text exceeds maximum length of 4096 characters.");
    assert_eq!(c, Some("input_too_long"));
    assert!(validate_input("測試").is_ok());
}

#[test]
fn invalid_speed_error_body() {
    let body = invalid_speed_error().to_error_response();
    assert_eq!(body.error.message, "Speed must be between 0.25 and 4.0.");
    assert_eq!(body.error.type_, "invalid_request_error");
    assert_eq!(body.error.param.as_deref(), Some("speed"));
    assert_eq!(body.error.code.as_deref(), Some("invalid_speed"));
}

#[test]
fn unknown_model_error_is_a_404() {
    let e = classify_synthesis_error(
        "Model 'nonexistent-character-model' not found in base models or custom models",
    );
    assert_eq!(e.status_code(), 404);
    let body = e.to_error_response();
    assert_eq!(body.error.code.as_deref(), Some("model_not_found"));
    assert_eq!(body.error.param.as_deref(), Some("model"));
    assert_eq!(
        body.error.message,
        "Model 'nonexistent-character-model' not found in base models or custom models"
    );
}

#[test]
fn missing_reference_audio_is_a_400() {
    let e = classify_synthesis_error("A non-empty reference audio is required");
    assert_eq!(e.status_code(), 400);
    let body = e.to_error_response();
    assert_eq!(body.error.code.as_deref(), Some("missing_reference_audio"));
    assert_eq!(body.error.message, "A non-empty reference audio is required");
}

#[test]
fn other_synthesis_errors_are_internal() {
    let e = classify_synthesis_error("Synthesis produced no audio samples");
    assert_eq!(e.status_code(), 500);
    let body = e.to_error_response();
    assert_eq!(body.error.message, "TTS synthesis error: Synthesis produced no audio samples");
    assert_eq!(body.error.type_, "api_error");
    assert_eq!(body.error.code.as_deref(), Some("internal_error"));
    assert_eq!(body.error.param, None);
}

#[test]
fn unauthorized_answer_uses_openai_format() {
    let e = unauthorized_error();
    assert_eq!(e.status_code(), 401);
    let body = e.to_error_response();
    assert_eq!(body.error.code.as_deref(), Some("invalid_api_key"));
    assert_eq!(body.error.type_, "invalid_request_error");
    assert!(body.error.message.starts_with("Incorrect API key provided."));
}

#[test]
fn rate_limit_and_voice_errors() {
    let e = rate_limit_error();
    assert_eq!(e.status_code(), 429);
    let body = e.to_error_response();
    assert_eq!(body.error.type_, "rate_limit_error");
    assert_eq!(body.error.code.as_deref(), Some("rate_limit_exceeded"));
    let v = invalid_voice_error("Voice 'x' not found in voice presets.");
    assert_eq!(v.status_code(), 404);
    let body = v.to_error_response();
    assert_eq!(body.error.message, "Invalid voice: Voice 'x' not found in voice presets.");
    assert_eq!(body.error.code.as_deref(), Some("invalid_voice"));
    assert_eq!(body.error.param.as_deref(), Some("voice"));
}

#[test]
fn error_display_text() {
    assert_eq!(AppError::Internal("boom".to_string()).display_text(), "Internal Server Error: boom");
    assert_eq!(AppError::NotFound("x".to_string(), None, None).display_text(), "Not Found: x");
    assert_eq!(AppError::BadRequest("y".to_string(), None, None).display_text(), "Bad Request: y");
}

#[test]
fn error_response_new_copies_fields() {
    let r = ErrorResponse::new("Input text cannot be empty.", "invalid_request_error", Some("input"), None);
    assert_eq!(r.error.message, "Input text cannot be empty.");
    assert_eq!(r.error.type_, "invalid_request_error");
    assert_eq!(r.error.param.as_deref(), Some("input"));
    assert_eq!(r.error.code, None);
}

#[test]
fn bearer_authentication() {
    assert!(is_authorized("", None));
    assert!(is_authorized("   ", Some("whatever")));
    assert!(is_authorized("test-secret-token", Some("Bearer test-secret-token")));
    assert!(is_authorized(" test-secret-token ", Some("Bearer  test-secret-token ")));
    assert!(!is_authorized("test-secret-token", Some("bearer test-secret-token")));
    assert!(!is_authorized("test-secret-token", Some("Bearer wrong")));
    assert!(!is_authorized("test-secret-token", Some("Bearer")));
    assert!(!is_authorized("test-secret-token", None));
}

#[test]
fn model_listing_has_base_then_custom_models() {
    let list = model_list(&vec!["sandrone".to_string()], 1700000000);
    assert_eq!(list.object, "list");
    assert_eq!(list.data.len(), 11);
    assert_eq!(list.data[0].id, "gpt-4o-mini-tts");
    assert_eq!(list.data[5].id, "gpt-sovits-v2");
    assert_eq!(list.data[5].owned_by, "official-base");
    assert_eq!(list.data[9].id, "gpt-sovits-v4");
    assert_eq!(list.data[10].id, "sandrone");
    assert_eq!(list.data[10].owned_by, "custom-finetuned");
    assert!(list.data.iter().all(|m| m.object == "model" && m.created == 1700000000));
}

#[test]
fn voice_listing_uses_name_as_id() {
    let list = voice_list(&vec![(
        "alloy".to_string(),
        "v2".to_string(),
        "zh".to_string(),
        "en".to_string(),
    )]);
    assert_eq!(list.object, "list");
    assert_eq!(list.data.len(), 1);
    assert_eq!(list.data[0].id, "alloy");
    assert_eq!(list.data[0].name, "alloy");
    assert_eq!(list.data[0].model_version, "v2");
    assert_eq!(list.data[0].prompt_lang, "zh");
    assert_eq!(list.data[0].text_lang, "en");
}

#[test]
fn health_body_reports_ok() {
    assert_eq!(health_body(), "{\"status\":\"ok\",\"version\":\"0.1.0\"}");
}

#[test]
fn response_headers_by_stream_format() {
    let h = speech_headers(StreamFormat::Audio, AudioFormat::Wav, 1234);
    assert_eq!(h[0], ("content-type", "audio/wav".to_string()));
    assert_eq!(h[1], ("content-length", "1234".to_string()));
    assert_eq!(h[2], ("cache-control", "no-cache, no-store, must-revalidate".to_string()));
    let s = speech_headers(StreamFormat::Sse, AudioFormat::Mp3, 9);
    assert_eq!(s[0], ("content-type", "text/event-stream".to_string()));
    assert_eq!(s[2], ("connection", "keep-alive".to_string()));
    assert_eq!(decimal_string(0), "0");
    assert_eq!(decimal_string(9880), "9880");
}

#[test]
fn content_types_of_formats() {
    assert_eq!(AudioFormat::Mp3.content_type(), "audio/mpeg");
    assert_eq!(AudioFormat::Pcm.content_type(), "application/octet-stream");
    assert_eq!(AudioFormat::default(), AudioFormat::Mp3);
    assert_eq!(StreamFormat::default(), StreamFormat::Audio);
}

#[test]
fn ffmpeg_settings_of_formats() {
    assert_eq!(AudioFormat::Mp3.ffmpeg_container(), Some("mp3"));
    assert_eq!(AudioFormat::Aac.ffmpeg_container(), Some("adts"));
    assert_eq!(AudioFormat::Wav.ffmpeg_container(), None);
    assert_eq!(AudioFormat::Mp3.ffmpeg_codec_args(), vec!["-c:a", "libmp3lame", "-q:a", "2"]);
    assert_eq!(AudioFormat::Opus.ffmpeg_codec_args(), vec!["-c:a", "libopus", "-b:a", "128k"]);
    assert_eq!(AudioFormat::Flac.ffmpeg_codec_args(), vec!["-c:a", "flac"]);
    assert!(AudioFormat::Pcm.ffmpeg_codec_args().is_empty());
}
