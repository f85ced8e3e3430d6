//! Server, runtime and model configuration, with the defaults that apply to
//! whatever a configuration file leaves out.

use vstd::prelude::*;
use crate::server::routes::{decimal_seq, decimal_string};
use crate::text::chars::{ascii_lower_seq, chars_of, string_from, trim_chars, trim_seq};

verus! {

/// Where and how the HTTP server listens.
#[derive(Debug, Clone)]
pub struct ServerConfig {
    pub bind_address: String,
    pub port: u16,
    /// Bearer token every API request must carry; blank disables the check.
    pub api_key: String,
    /// How many syntheses may run at once.
    pub max_concurrency: usize,
    /// Path of the TOML file with the voice presets.
    pub voices_config: String,
}

fn default_bind_address() -> (s: String)
    ensures
        s@ == "0.0.0.0"@,
{
    "0.0.0.0".to_owned()
}

fn default_port() -> (p: u16)
    ensures
        p == 9880,
{
    9880
}

fn default_concurrency() -> (n: usize)
    ensures
        n == 8,
{
    8
}

fn default_voices_config() -> (s: String)
    ensures
        s@ == "voices.toml"@,
{
    "voices.toml".to_owned()
}

impl Default for ServerConfig {
    fn default() -> (c: Self)
        ensures
            c.bind_address@ == "0.0.0.0"@,
            c.port == 9880,
            c.api_key@.len() == 0,
            c.max_concurrency == 8,
            c.voices_config@ == "voices.toml"@,
    {
        ServerConfig {
            bind_address: default_bind_address(),
            port: default_port(),
            api_key: String::new(),
            max_concurrency: default_concurrency(),
            voices_config: default_voices_config(),
        }
    }
}

impl ServerConfig {
    /// The number of synthesis slots: the configured concurrency, at least one.
    pub fn concurrency_permits(&self) -> (n: usize)
        ensures
            n == if self.max_concurrency < 1 { 1 } else { self.max_concurrency },
    {
        if self.max_concurrency < 1 { 1 } else { self.max_concurrency }
    }

    /// The socket address to listen on: `address:port`.
    pub fn listen_address(&self) -> (s: String)
        ensures
            s@ == self.bind_address@ + ":"@ + decimal_seq(self.port as nat),
    {
        let mut s = self.bind_address.clone();
        s.append(":");
        s.append(decimal_string(self.port as usize).as_str());
        s
    }
}

/// Which ONNX Runtime execution provider runs the models, and with how many
/// threads.
#[derive(Debug, Clone)]
pub struct RuntimeConfig {
    pub device: String,
    pub cuda_device_id: i32,
    pub cuda_lib_dir: String,
    pub cudnn_lib_dir: String,
    pub intra_threads: usize,
    pub inter_threads: usize,
}

fn default_device() -> (s: String)
    ensures
        s@ == "cuda"@,
{
    "cuda".to_owned()
}

fn default_cuda_device_id() -> (d: i32)
    ensures
        d == 0,
{
    0
}

fn default_intra_threads() -> (n: usize)
    ensures
        n == 4,
{
    4
}

fn default_inter_threads() -> (n: usize)
    ensures
        n == 2,
{
    2
}

impl Default for RuntimeConfig {
    fn default() -> (c: Self)
        ensures
            c.device@ == "cuda"@,
            c.cuda_device_id == 0,
            c.cuda_lib_dir@.len() == 0,
            c.cudnn_lib_dir@.len() == 0,
            c.intra_threads == 4,
            c.inter_threads == 2,
    {
        RuntimeConfig {
            device: default_device(),
            cuda_device_id: default_cuda_device_id(),
            cuda_lib_dir: String::new(),
            cudnn_lib_dir: String::new(),
            intra_threads: default_intra_threads(),
            inter_threads: default_inter_threads(),
        }
    }
}

/// The execution provider a runtime configuration selects.
#[derive(Debug, Clone, Copy, PartialEq, Eq, Structural)]
pub enum ExecutionDevice {
    Cuda,
    Cpu,
}

/// The device name as it is compared: trimmed, ASCII letters in lower case.
pub open spec fn device_key(device: Seq<char>) -> Seq<char> {
    ascii_lower_seq(trim_seq(device))
}

fn ascii_lower_chars(v: &[char]) -> (r: Vec<char>)
    ensures
        r@ == ascii_lower_seq(v@),
{
    let mut r: Vec<char> = Vec::new();
    let mut i: usize = 0;
    while i < v.len()
        invariant
            i <= v.len(),
            r@ == ascii_lower_seq(v@).take(i as int),
        decreases v.len() - i,
    {
        let c = v[i];
        let lc = if 'A' <= c && c <= 'Z' { ((c as u8) + 32) as char } else { c };
        r.push(lc);
        assert(ascii_lower_seq(v@).take(i as int).push(lc) =~= ascii_lower_seq(v@).take(i + 1));
        i = i + 1;
    }
    assert(ascii_lower_seq(v@).take(v.len() as int) =~= ascii_lower_seq(v@));
    r
}

/// `s`, trimmed and with ASCII letters in lower case.
pub fn trimmed_ascii_lower(s: &str) -> (r: Vec<char>)
    ensures
        r@ == ascii_lower_seq(trim_seq(s@)),
{
    ascii_lower_chars(&trim_chars(&chars_of(s)))
}

impl RuntimeConfig {
    /// The execution provider: `cuda` or `cpu` in any ASCII case and with
    /// surrounding whitespace; any other name is refused with a message that
    /// quotes the normalised name.
    pub fn execution_device(&self) -> (r: Result<ExecutionDevice, String>)
        ensures
            device_key(self.device@) == "cuda"@ ==> r == Ok::<ExecutionDevice, String>(ExecutionDevice::Cuda),
            device_key(self.device@) == "cpu"@ ==> r == Ok::<ExecutionDevice, String>(ExecutionDevice::Cpu),
            device_key(self.device@) != "cuda"@ && device_key(self.device@) != "cpu"@ ==> (r matches Err(m)
                && m@ == "Unsupported runtime.device '"@ + device_key(self.device@) + "'; expected 'cuda' or 'cpu'"@),
    {
        proof {
            reveal_strlit("cuda");
            reveal_strlit("cpu");
            assert("cuda"@.len() != "cpu"@.len());
        }
        let key = trimmed_ascii_lower(self.device.as_str());
        let cuda = chars_of("cuda");
        let cpu = chars_of("cpu");
        if crate::text::chars::same_chars(&key, &cuda) {
            Ok(ExecutionDevice::Cuda)
        } else if crate::text::chars::same_chars(&key, &cpu) {
            Ok(ExecutionDevice::Cpu)
        } else {
            let mut m = "Unsupported runtime.device '".to_owned();
            m.append(string_from(&key).as_str());
            m.append("'; expected 'cuda' or 'cpu'");
            Err(m)
        }
    }

    /// Threads within one operator: the configured count, at least one.
    pub fn intra_op_threads(&self) -> (n: usize)
        ensures
            n == if self.intra_threads < 1 { 1 } else { self.intra_threads },
    {
        if self.intra_threads < 1 { 1 } else { self.intra_threads }
    }

    /// Threads across operators: the configured count, at least one.
    pub fn inter_op_threads(&self) -> (n: usize)
        ensures
            n == if self.inter_threads < 1 { 1 } else { self.inter_threads },
    {
        if self.inter_threads < 1 { 1 } else { self.inter_threads }
    }
}

/// The shared libraries the CUDA execution provider needs loaded first.
pub open spec fn spec_required_cuda_libraries() -> Seq<Seq<char>> {
    seq!["libcudart.so.13"@, "libcublasLt.so.13"@, "libcublas.so.13"@, "libcurand.so.10"@]
}

/// The shared libraries to preload before the CUDA execution provider.
pub fn required_cuda_libraries() -> (r: Vec<&'static str>)
    ensures
        r@.map_values(|s: &str| s@) == spec_required_cuda_libraries(),
{
    let r: Vec<&'static str> = vec!["libcudart.so.13", "libcublasLt.so.13", "libcublas.so.13", "libcurand.so.10"];
    assert(r@.map_values(|s: &str| s@) =~= spec_required_cuda_libraries());
    r
}

/// The names joined with `, ` between them.
pub open spec fn join_names(names: Seq<Seq<char>>) -> Seq<char>
    decreases names.len(),
{
    if names.len() == 0 {
        Seq::empty()
    } else if names.len() == 1 {
        names[0]
    } else {
        join_names(names.drop_last()) + ", "@ + names.last()
    }
}

/// The outcome of preloading the CUDA libraries, given the ones that could
/// not be found: success when none is missing, and otherwise a message that
/// names them all and says where to point the configuration.
pub fn cuda_dependency_check(missing: &Vec<&str>) -> (r: Result<(), String>)
    ensures
        missing.len() == 0 ==> r is Ok,
        missing.len() > 0 ==> (r matches Err(m) && m@ == "CUDAExecutionProvider dependencies are missing: "@
            + join_names(missing@.map_values(|s: &str| s@))
            + ". Set runtime.cuda_lib_dir or ORT_CUDA_LIB_DIR to the CUDA 13 library directory"@),
{
    if missing.len() == 0 {
        return Ok(());
    }
    let ghost names = missing@.map_values(|s: &str| s@);
    let mut joined = missing[0].to_owned();
    assert(names.take(1) =~= seq![names[0]]);
    assert(join_names(names.take(1)) == names[0]);
    let mut i: usize = 1;
    while i < missing.len()
        invariant
            1 <= i <= missing.len(),
            names == missing@.map_values(|s: &str| s@),
            joined@ == join_names(names.take(i as int)),
        decreases missing.len() - i,
    {
        joined.append(", ");
        joined.append(missing[i]);
        assert(names.take(i + 1).drop_last() =~= names.take(i as int));
        assert(names.take(i + 1).last() == missing[i as int]@);
        i = i + 1;
    }
    assert(names.take(missing.len() as int) =~= names);
    let mut m = "CUDAExecutionProvider dependencies are missing: ".to_owned();
    m.append(joined.as_str());
    m.append(". Set runtime.cuda_lib_dir or ORT_CUDA_LIB_DIR to the CUDA 13 library directory");
    Err(m)
}

/// The model files of a v1, v2, v2Pro or v2ProPlus base model.
#[derive(Debug, Clone)]
pub struct V1V2ModelConfig {
    pub t2s_encoder_path: String,
    pub t2s_fsdec_path: String,
    pub t2s_sdec_path: String,
    pub vits_path: String,
    pub sampling_rate: u32,
}

fn default_v1_v2_sr() -> (r: u32)
    ensures
        r == 32000,
{
    32000
}

impl Default for V1V2ModelConfig {
    fn default() -> (c: Self)
        ensures
            c.t2s_encoder_path@.len() == 0,
            c.t2s_fsdec_path@.len() == 0,
            c.t2s_sdec_path@.len() == 0,
            c.vits_path@.len() == 0,
            c.sampling_rate == 32000,
    {
        V1V2ModelConfig {
            t2s_encoder_path: String::new(),
            t2s_fsdec_path: String::new(),
            t2s_sdec_path: String::new(),
            vits_path: String::new(),
            sampling_rate: default_v1_v2_sr(),
        }
    }
}

/// The model files of a v3 or v4 base model.
#[derive(Debug, Clone)]
pub struct V3V4ModelConfig {
    pub t2s_encoder_path: String,
    pub t2s_fsdec_path: String,
    pub t2s_sdec_path: String,
    pub dit_path: String,
    pub vocoder_path: String,
    pub sampling_rate: u32,
    pub sample_steps: usize,
}

fn default_v3_sr() -> (r: u32)
    ensures
        r == 24000,
{
    24000
}

fn default_sample_steps() -> (r: usize)
    ensures
        r == 32,
{
    32
}

impl Default for V3V4ModelConfig {
    fn default() -> (c: Self)
        ensures
            c.t2s_encoder_path@.len() == 0,
            c.t2s_fsdec_path@.len() == 0,
            c.t2s_sdec_path@.len() == 0,
            c.dit_path@.len() == 0,
            c.vocoder_path@.len() == 0,
            c.sampling_rate == 24000,
            c.sample_steps == 32,
    {
        V3V4ModelConfig {
            t2s_encoder_path: String::new(),
            t2s_fsdec_path: String::new(),
            t2s_sdec_path: String::new(),
            dit_path: String::new(),
            vocoder_path: String::new(),
            sampling_rate: default_v3_sr(),
            sample_steps: default_sample_steps(),
        }
    }
}

/// A custom fine-tuned model: its version, a directory holding its files
/// under their usual names, and any file given explicitly.
#[derive(Debug, Clone)]
pub struct CustomModelConfig {
    pub model_version: String,
    pub model_dir: String,
    pub t2s_encoder_path: String,
    pub t2s_fsdec_path: String,
    pub t2s_sdec_path: String,
    pub vits_path: String,
    pub dit_path: String,
    pub vocoder_path: String,
    pub sampling_rate: Option<u32>,
    pub sample_steps: Option<usize>,
}

fn default_model_version() -> (s: String)
    ensures
        s@ == "v2"@,
{
    "v2".to_owned()
}

impl Default for CustomModelConfig {
    fn default() -> (c: Self)
        ensures
            c.model_version@ == "v2"@,
            c.model_dir@.len() == 0,
            c.t2s_encoder_path@.len() == 0,
            c.t2s_fsdec_path@.len() == 0,
            c.t2s_sdec_path@.len() == 0,
            c.vits_path@.len() == 0,
            c.dit_path@.len() == 0,
            c.vocoder_path@.len() == 0,
            c.sampling_rate is None,
            c.sample_steps is None,
    {
        CustomModelConfig {
            model_version: default_model_version(),
            model_dir: String::new(),
            t2s_encoder_path: String::new(),
            t2s_fsdec_path: String::new(),
            t2s_sdec_path: String::new(),
            vits_path: String::new(),
            dit_path: String::new(),
            vocoder_path: String::new(),
            sampling_rate: None,
            sample_steps: None,
        }
    }
}

/// All model files: the shared feature extractors, the six base models and
/// the custom models by name.
#[derive(Debug, Clone)]
pub struct ModelsConfig {
    pub default_version: String,
    pub enabled_base_versions: Vec<String>,
    pub cnhubert_path: String,
    pub bert_path: String,
    pub bert_tokenizer_path: String,
    pub speaker_path: String,
    pub v1: V1V2ModelConfig,
    pub v2: V1V2ModelConfig,
    pub v2_pro: V1V2ModelConfig,
    pub v2_pro_plus: V1V2ModelConfig,
    pub v3: V3V4ModelConfig,
    pub v4: V3V4ModelConfig,
    /// The custom models, each under the name it was configured with.
    pub custom: Vec<(String, CustomModelConfig)>,
}

fn default_cnhubert_path() -> (s: String)
    ensures
        s@ == "models/chinese-hubert-base/cnhubert.onnx"@,
{
    "models/chinese-hubert-base/cnhubert.onnx".to_owned()
}

fn default_bert_path() -> (s: String)
    ensures
        s@ == "models/chinese-roberta-wwm-ext-large/bert.onnx"@,
{
    "models/chinese-roberta-wwm-ext-large/bert.onnx".to_owned()
}

fn default_tokenizer_path() -> (s: String)
    ensures
        s@ == "models/chinese-roberta-wwm-ext-large/tokenizer.json"@,
{
    "models/chinese-roberta-wwm-ext-large/tokenizer.json".to_owned()
}

fn default_speaker_path() -> (s: String)
    ensures
        s@ == "models/sv.onnx"@,
{
    "models/sv.onnx".to_owned()
}

impl Default for ModelsConfig {
    fn default() -> (c: Self)
        ensures
            c.default_version@ == "v2"@,
            c.enabled_base_versions.len() == 0,
            c.cnhubert_path@ == "models/chinese-hubert-base/cnhubert.onnx"@,
            c.bert_path@ == "models/chinese-roberta-wwm-ext-large/bert.onnx"@,
            c.bert_tokenizer_path@ == "models/chinese-roberta-wwm-ext-large/tokenizer.json"@,
            c.speaker_path@ == "models/sv.onnx"@,
            c.v1.sampling_rate == 32000 && c.v2.sampling_rate == 32000,
            c.v2_pro.sampling_rate == 32000 && c.v2_pro_plus.sampling_rate == 32000,
            c.v3.sampling_rate == 24000 && c.v3.sample_steps == 32,
            c.v4.sampling_rate == 48000 && c.v4.sample_steps == 16,
            c.v4.dit_path@.len() == 0 && c.v4.vocoder_path@.len() == 0,
            c.v4.t2s_encoder_path@.len() == 0,
            c.custom.len() == 0,
    {
        let mut v4 = V3V4ModelConfig::default();
        v4.sampling_rate = 48000;
        v4.sample_steps = 16;
        ModelsConfig {
            default_version: default_model_version(),
            enabled_base_versions: Vec::new(),
            cnhubert_path: default_cnhubert_path(),
            bert_path: default_bert_path(),
            bert_tokenizer_path: default_tokenizer_path(),
            speaker_path: default_speaker_path(),
            v1: V1V2ModelConfig::default(),
            v2: V1V2ModelConfig::default(),
            v2_pro: V1V2ModelConfig::default(),
            v2_pro_plus: V1V2ModelConfig::default(),
            v3: V3V4ModelConfig::default(),
            v4,
            custom: Vec::new(),
        }
    }
}

/// The whole configuration file.
#[derive(Debug, Clone)]
pub struct AppConfig {
    pub server: ServerConfig,
    pub runtime: RuntimeConfig,
    pub models: ModelsConfig,
}

impl Default for AppConfig {
    fn default() -> (c: Self)
        ensures
            c.server.port == 9880 && c.server.max_concurrency == 8,
            c.server.bind_address@ == "0.0.0.0"@ && c.server.api_key@.len() == 0,
            c.runtime.device@ == "cuda"@,
            c.models.default_version@ == "v2"@,
            c.models.v4.sampling_rate == 48000 && c.models.v4.sample_steps == 16,
            c.models.custom.len() == 0,
    {
        AppConfig {
            server: ServerConfig::default(),
            runtime: RuntimeConfig::default(),
            models: ModelsConfig::default(),
        }
    }
}

} // verus!
