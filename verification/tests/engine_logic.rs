use gptsovits_rs::config::{AppConfig, CustomModelConfig, ExecutionDevice, RuntimeConfig, ServerConfig};
use gptsovits_rs::config::{cuda_dependency_check, required_cuda_libraries};
use gptsovits_rs::engine::model_manager::{normalized_language, plan_custom_model, validate_language, ModelChoice};
use gptsovits_rs::engine::request::{
    bert_plan, check_reference_audio, missing_reference_message, plan_segments, prompt_text_for,
    segment_text_for, BertPlan, ReferenceAudioError,
};
use gptsovits_rs::engine::t2s::{
    clamp_semantic_tokens, fallback_semantic_tokens, flow_steps, logits_window_start,
    mel_frame_count, penalty_indices, top_k_count, DecodeStep, SemanticDecoder,
};
use gptsovits_rs::engine::{ModelManager, ModelVersion};
use gptsovits_rs::server::routes::classify_synthesis_error;
use gptsovits_rs::text::bert_align::{align_rows, phone_feature_rows, select_bert_chars};

fn config_with_custom(entries: Vec<(&str, CustomModelConfig)>) -> AppConfig {
    let mut config = AppConfig::default();
    config.models.custom = entries.into_iter().map(|(n, c)| (n.to_string(), c)).collect();
    config
}

fn sandrone() -> CustomModelConfig {
    let mut c = CustomModelConfig::default();
    c.model_version = "v4".to_string();
    c.model_dir = "models/sandrone".to_string();
    c
}

#[test]
fn defaults_of_the_configuration() {
    let c = AppConfig::default();
    assert_eq!(c.server.port, 9880);
    assert_eq!(c.server.bind_address, "0.0.0.0");
    assert_eq!(c.server.max_concurrency, 8);
    assert_eq!(c.server.voices_config, "voices.toml");
    assert_eq!(c.runtime.device, "cuda");
    assert_eq!(c.runtime.intra_threads, 4);
    assert_eq!(c.models.default_version, "v2");
    assert_eq!(c.models.v2.sampling_rate, 32000);
    assert_eq!(c.models.v3.sampling_rate, 24000);
    assert_eq!(c.models.v3.sample_steps, 32);
    assert_eq!(c.models.v4.sampling_rate, 48000);
    assert_eq!(c.models.v4.sample_steps, 16);
    assert_eq!(c.models.speaker_path, "models/sv.onnx");
    assert!(c.models.custom.is_empty());
    let custom = CustomModelConfig::default();
    assert_eq!(custom.model_version, "v2");
    assert_eq!(custom.sampling_rate, None);
}

#[test]
fn server_settings() {
    let mut s = ServerConfig::default();
    assert_eq!(s.listen_address(), "0.0.0.0:9880");
    assert_eq!(s.concurrency_permits(), 8);
    s.max_concurrency = 0;
    assert_eq!(s.concurrency_permits(), 1);
    s.bind_address = "127.0.0.1".to_string();
    s.port = 80;
    assert_eq!(s.listen_address(), "127.0.0.1:80");
}

#[test]
fn runtime_device_selection() {
    let mut r = RuntimeConfig::default();
    assert_eq!(r.execution_device(), Ok(ExecutionDevice::Cuda));
    r.device = "  CPU ".to_string();
    assert_eq!(r.execution_device(), Ok(ExecutionDevice::Cpu));
    r.device = " TPU".to_string();
    assert_eq!(
        r.execution_device(),
        Err("Unsupported runtime.device 'tpu'; expected 'cuda' or 'cpu'".to_string())
    );
    r.intra_threads = 0;
    assert_eq!(r.intra_op_threads(), 1);
    assert_eq!(r.inter_op_threads(), 2);
}

#[test]
fn cuda_dependency_report() {
    assert_eq!(required_cuda_libraries().len(), 4);
    assert_eq!(required_cuda_libraries()[0], "libcudart.so.13");
    assert_eq!(cuda_dependency_check(&vec![]), Ok(()));
    assert_eq!(
        cuda_dependency_check(&vec!["libcudart.so.13", "libcurand.so.10"]),
        Err("CUDAExecutionProvider dependencies are missing: libcudart.so.13, libcurand.so.10. Set runtime.cuda_lib_dir or ORT_CUDA_LIB_DIR to the CUDA 13 library directory".to_string())
    );
}

#[test]
fn custom_model_files_come_from_its_directory() {
    let m = plan_custom_model(&sandrone());
    assert_eq!(m.version, ModelVersion::V4);
    assert_eq!(m.sampling_rate, 48000);
    assert_eq!(m.sample_steps, 16);
    assert_eq!(m.t2s.encoder, "models/sandrone/t2s_encoder.onnx");
    assert_eq!(m.t2s.first_stage_decoder, "models/sandrone/t2s_fsdec.onnx");
    assert_eq!(m.t2s.stage_decoder, "models/sandrone/t2s_sdec.onnx");
    assert!(m.vits.is_none());
    let cfm = m.cfm.unwrap();
    assert_eq!(cfm.dit, "models/sandrone/dit.onnx");
    assert_eq!(cfm.vocoder, "models/sandrone/vocoder.onnx");

    let mut c = CustomModelConfig::default();
    c.model_dir = "d".to_string();
    c.vits_path = "elsewhere/vits.onnx".to_string();
    c.sampling_rate = Some(44100);
    let m = plan_custom_model(&c);
    assert_eq!(m.version, ModelVersion::V2);
    assert_eq!(m.vits.as_deref(), Some("elsewhere/vits.onnx"));
    assert!(m.cfm.is_none());
    assert_eq!(m.sampling_rate, 44100);
    assert_eq!(m.sample_steps, 1);
    let bare = plan_custom_model(&CustomModelConfig::default());
    assert_eq!(bare.t2s.encoder, "");
}

#[test]
fn registry_lower_cases_custom_names_and_last_wins() {
    let mut second = CustomModelConfig::default();
    second.model_version = "v1".to_string();
    let config = config_with_custom(vec![("Sandrone", sandrone()), ("sandrone", second), ("Other", CustomModelConfig::default())]);
    let m = ModelManager::new(&config);
    let list = m.list_custom_models();
    assert_eq!(list.len(), 2);
    assert_eq!(list[0], ("sandrone".to_string(), ModelVersion::V1));
    assert_eq!(list[1], ("other".to_string(), ModelVersion::V2));
    assert!(m.has_custom_model("SANDRONE"));
    assert!(!m.has_custom_model("nobody"));
    assert_eq!(m.default_version(), ModelVersion::V2);
}

#[test]
fn model_names_resolve() {
    let config = config_with_custom(vec![("sandrone", sandrone())]);
    let m = ModelManager::new(&config);
    assert!(m.has_model(" GPT-SoVITS-V2 "));
    assert!(m.has_model("sandrone"));
    assert!(m.has_model("tts-1-hd"));
    assert!(!m.has_model("nonexistent-character-model"));
    assert_eq!(m.base_version_for_name("v2pro+"), Some(ModelVersion::V2ProPlus));
    assert_eq!(m.base_version_for_name("gpt-4o-mini-tts"), Some(ModelVersion::V2));
    assert_eq!(m.resolve_model("sandrone", "zh", "zh"), Ok(ModelChoice::Custom(0)));
    assert_eq!(m.custom_model(0).unwrap().version, ModelVersion::V4);
    assert!(m.custom_model(1).is_none());
    assert_eq!(m.resolve_model("gpt-sovits-v3", "en", "all_zh"), Ok(ModelChoice::Base(ModelVersion::V3)));
    for (name, v) in [
        ("gpt-sovits-v1", ModelVersion::V1),
        ("gpt-sovits-v2", ModelVersion::V2),
        ("gpt-sovits-v2pro", ModelVersion::V2Pro),
        ("gpt-sovits-v2proplus", ModelVersion::V2ProPlus),
        ("gpt-sovits-v3", ModelVersion::V3),
        ("gpt-sovits-v4", ModelVersion::V4),
    ] {
        assert_eq!(m.resolve_model(name, "zh", "zh"), Ok(ModelChoice::Base(v)));
    }
    let mut config = AppConfig::default();
    config.models.default_version = "v4".to_string();
    let m4 = ModelManager::new(&config);
    assert_eq!(m4.resolve_model("tts-1", "zh", "zh"), Ok(ModelChoice::Base(ModelVersion::V4)));
}

#[test]
fn unknown_model_and_unsupported_language() {
    let m = ModelManager::new(&AppConfig::default());
    let err = m.resolve_model("nonexistent-character-model", "zh", "zh").unwrap_err();
    assert_eq!(err, "Model 'nonexistent-character-model' not found in base models or custom models");
    assert_eq!(classify_synthesis_error(&err).status_code(), 404);
    let err = m.resolve_model("gpt-sovits-v2", "ja", "zh").unwrap_err();
    assert_eq!(err, "Language 'ja' is not supported by the Rust frontend; supported languages are zh and en");
    assert_eq!(classify_synthesis_error(&err).status_code(), 500);
    let err = m.resolve_model("gpt-sovits-v2", "zh", "ko").unwrap_err();
    assert!(err.starts_with("Language 'ko'"));
}

#[test]
fn languages_are_normalised() {
    assert_eq!(normalized_language(" ALL_all_ZH "), "zh");
    assert_eq!(normalized_language("en"), "en");
    assert!(validate_language("all_en").is_ok());
    assert!(validate_language("Zh").is_ok());
    assert!(validate_language("yue").is_err());
}

#[test]
fn reference_audio_must_last_three_to_ten_seconds() {
    assert_eq!(check_reference_audio(0, 32000), Err(ReferenceAudioError::Missing));
    assert_eq!(check_reference_audio(100, 0), Err(ReferenceAudioError::Missing));
    assert_eq!(check_reference_audio(96000, 32000), Ok(()));
    assert_eq!(check_reference_audio(95999, 32000), Err(ReferenceAudioError::OutOfRange));
    assert_eq!(check_reference_audio(320000, 32000), Ok(()));
    assert_eq!(check_reference_audio(320001, 32000), Err(ReferenceAudioError::OutOfRange));
    assert_eq!(missing_reference_message(), "A non-empty reference audio is required");
}

#[test]
fn prompt_and_segment_text() {
    assert_eq!(prompt_text_for("", "en"), "Hello.");
    assert_eq!(prompt_text_for("  ", "zh"), "你好。");
    assert_eq!(prompt_text_for(" 我是動態自訂聲音 ", "zh"), "我是動態自訂聲音。");
    assert_eq!(prompt_text_for("Hello there", "EN"), "Hello there.");
    assert_eq!(prompt_text_for("好！", "zh"), "好！");
    assert_eq!(prompt_text_for("好，", "zh"), "好，。");
    assert_eq!(segment_text_for("  ", "zh"), None);
    assert_eq!(segment_text_for("你好，", "zh"), Some("你好，".to_string()));
    assert_eq!(segment_text_for("abc ", "all_en"), Some("abc.".to_string()));
    assert_eq!(segment_text_for("abc", "zh"), Some("abc。".to_string()));
}

#[test]
fn segments_of_a_request() {
    assert_eq!(
        plan_segments("你好，世界！", "cut5", "zh"),
        vec![Some("你好，".to_string()), Some("世界！".to_string())]
    );
    assert_eq!(plan_segments("今天天氣真好", "cut0", "zh"), vec![Some("今天天氣真好。".to_string())]);
    assert!(plan_segments("   ", "cut5", "zh").is_empty());
}

#[test]
fn bert_plans() {
    assert!(matches!(bert_plan("en", false, "hello", &[1, 1]), Ok(BertPlan::Zeros)));
    assert_eq!(
        bert_plan("zh", false, "你好", &[2, 2]).unwrap_err(),
        "BERT tokenizer is required for Chinese text"
    );
    assert!(matches!(bert_plan("zh", true, "abc", &[1, 1, 1]), Ok(BertPlan::Zeros)));
    match bert_plan("zh", true, "你a好", &[2, 1, 2]) {
        Ok(BertPlan::Encode(text, counts)) => {
            assert_eq!(text, "你好");
            assert_eq!(counts, vec![2, 2]);
        }
        _ => panic!("expected an encoding plan"),
    }
}

#[test]
fn bert_rows_follow_word2ph() {
    assert_eq!(align_rows(&[2, 1], 1, 5), vec![Some(0), Some(0), None, None, None]);
    assert_eq!(align_rows(&[3, 3], 2, 4), vec![Some(0), Some(0), Some(0), Some(1)]);
    assert_eq!(align_rows(&[], 0, 2), vec![None, None]);
    let norm: Vec<char> = "你a好".chars().collect();
    assert_eq!(
        phone_feature_rows(&norm, &[2, 1, 2], 5, 2),
        vec![Some(0), Some(0), None, Some(1), Some(1)]
    );
    assert_eq!(
        phone_feature_rows(&norm, &[2, 1, 2], 6, 1),
        vec![Some(0), Some(0), None, None, None, None]
    );
    let (cs, ws) = select_bert_chars(&norm, &[2, 1, 2]);
    assert_eq!(cs, vec!['你', '好']);
    assert_eq!(ws, vec![2, 2]);
}

#[test]
fn token_helpers() {
    assert_eq!(logits_window_start(2050), 1025);
    assert_eq!(logits_window_start(1025), 0);
    assert_eq!(logits_window_start(10), 0);
    assert_eq!(clamp_semantic_tokens(&[-5, 3, 2000]), vec![0, 3, 1023]);
    assert_eq!(fallback_semantic_tokens(3), (0..10).collect::<Vec<i64>>());
    assert_eq!(fallback_semantic_tokens(7).len(), 14);
    assert_eq!(fallback_semantic_tokens(5000).len(), 200);
    assert_eq!(flow_steps(0, 16), 16);
    assert_eq!(flow_steps(8, 16), 8);
    assert_eq!(mel_frame_count(3), 32);
    assert_eq!(mel_frame_count(10), 40);
    assert_eq!(top_k_count(0, 5), 1);
    assert_eq!(top_k_count(15, 3), 3);
    assert_eq!(top_k_count(2, 3), 2);
}

#[test]
fn repeated_history_tokens_are_listed_once() {
    assert_eq!(penalty_indices(&[0, 0, 5, -1, 99, 5], 10), vec![0, 5]);
    assert_eq!(penalty_indices(&[], 1025), Vec::<usize>::new());
}

#[test]
fn decoder_keeps_clamped_tokens_until_eos() {
    let mut d = SemanticDecoder::new(vec![1, 2]);
    assert_eq!(d.step(5), DecodeStep::Continue);
    assert_eq!(d.step(2000), DecodeStep::Continue);
    assert_eq!(d.history(), &vec![1, 2, 5, 2000]);
    assert_eq!(d.step(1024), DecodeStep::Stop);
    assert_eq!(d.step(9), DecodeStep::Stop);
    assert_eq!(d.history(), &vec![1, 2, 5, 2000]);
    assert_eq!(d.finish(3), vec![5, 1023]);
    let mut e = SemanticDecoder::new(vec![]);
    assert_eq!(e.step(1024), DecodeStep::Stop);
    assert_eq!(e.finish(3), (0..10).collect::<Vec<i64>>());
}

#[test]
fn decoder_stops_after_1500_tokens() {
    let mut d = SemanticDecoder::new(vec![]);
    let mut steps = 0;
    loop {
        steps += 1;
        if d.step(7) == DecodeStep::Stop {
            break;
        }
    }
    assert_eq!(steps, 1500);
    assert_eq!(d.finish(1).len(), 1500);
}

#[test]
fn model_versions() {
    assert_eq!(ModelVersion::from_str_loose("V2_Pro_Plus"), ModelVersion::V2ProPlus);
    assert_eq!(ModelVersion::from_str_loose("v2pro"), ModelVersion::V2Pro);
    assert_eq!(ModelVersion::from_str_loose("v4"), ModelVersion::V4);
    assert_eq!(ModelVersion::from_str_loose("unknown"), ModelVersion::V2);
    assert_eq!(ModelVersion::default(), ModelVersion::V2);
    assert_eq!(ModelVersion::V1.symbols_version(), "v1");
    assert_eq!(ModelVersion::V4.symbols_version(), "v2");
    assert_eq!(ModelVersion::V2ProPlus.sampling_rate(), 32000);
    assert_eq!(ModelVersion::V3.sampling_rate(), 24000);
    assert_eq!(ModelVersion::V4.sampling_rate(), 48000);
    assert_eq!(ModelVersion::V3.default_sample_steps(), 32);
    assert_eq!(ModelVersion::V4.default_sample_steps(), 16);
    assert_eq!(ModelVersion::V2.default_sample_steps(), 1);
    assert!(ModelVersion::V2Pro.uses_speaker_embedding());
    assert!(!ModelVersion::V2.uses_speaker_embedding());
    assert!(ModelVersion::V3.uses_flow_matching());
    assert!(!ModelVersion::V1.uses_flow_matching());
}

#[test]
fn penalty_indices_keep_first_occurrence_order() {
    assert_eq!(penalty_indices(&[7, 3, 7, 1, 3], 10), vec![7, 3, 1]);
}

#[test]
fn phone_rows_follow_prefix_sums() {
    assert_eq!(
        align_rows(&[2, 1, 1], 3, 6),
        vec![Some(0), Some(0), Some(1), Some(2), None, None]
    );
    assert_eq!(align_rows(&[1, 2], 1, 4), vec![Some(0), None, None, None]);
}

#[test]
fn registry_lists_one_custom_model_per_name() {
    let mut c = CustomModelConfig::default();
    c.model_version = "v2ProPlus".to_string();
    let mut config = config_with_custom(vec![("Sandrone", c)]);
    config.models.default_version = "V4".to_string();
    let m = ModelManager::new(&config);
    assert_eq!(m.default_version(), ModelVersion::V4);
    assert_eq!(m.list_custom_models(), vec![("sandrone".to_string(), ModelVersion::V2ProPlus)]);
    assert!(m.has_custom_model("SANDRONE"));
    assert!(m.has_model(" GPT-SoVITS-V3 "));
    assert!(!m.has_model("nonexistent"));
}

#[test]
fn version_names_read_back() {
    for (name, v) in [
        ("v1", ModelVersion::V1),
        ("v2", ModelVersion::V2),
        ("v2Pro", ModelVersion::V2Pro),
        ("v2ProPlus", ModelVersion::V2ProPlus),
        ("v3", ModelVersion::V3),
        ("v4", ModelVersion::V4),
    ] {
        assert_eq!(ModelVersion::from_str_loose(name), v);
        assert_eq!(ModelVersion::from_str_loose(&name.to_uppercase()), v);
    }
    assert_eq!(ModelVersion::from_str_loose("v2_pro"), ModelVersion::V2Pro);
    assert_eq!(ModelVersion::from_str_loose("v2pro+"), ModelVersion::V2ProPlus);
    assert_eq!(ModelVersion::from_str_loose(""), ModelVersion::V2);
}
