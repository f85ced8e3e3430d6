//! Which model serves a request, and how a request is prepared for it: model
//! names, languages, the reference audio's duration, prompt and segment text,
//! and the files each configured model is loaded from.

use vstd::prelude::*;
use crate::config::{AppConfig, CustomModelConfig};
use crate::engine::types::{ModelVersion, version_name, spec_version_from_name, spec_sampling_rate, spec_default_sample_steps};
use crate::text::chars::{all_ascii, ascii_lower_seq, chars_of, same_chars, string_from, trim_seq};
use crate::config::trimmed_ascii_lower;

verus! {

/// What `str::to_lowercase` gives for a string: its Unicode lower-case
/// mapping, which may change the number of characters.
pub uninterp spec fn unicode_lowercase(s: Seq<char>) -> Seq<char>;

/// `str::to_lowercase`.  Unicode maps the ASCII letters `A`..`Z` to
/// `a`..`z` and leaves every other ASCII character as it is, so on ASCII text
/// the result is the ASCII lower-casing, letter by letter.
#[verifier::external_body]
pub(crate) fn to_lowercase(s: &str) -> (r: String)
    ensures
        r@ == unicode_lowercase(s@),
        all_ascii(s@) ==> r@ == ascii_lower_seq(s@),
{
    s.to_lowercase()
}

/// Whether `key` is the literal `lit`.
fn is_lit(key: &[char], lit: &str) -> (b: bool)
    ensures
        b == (key@ == lit@),
{
    same_chars(key, &chars_of(lit))
}

/// A model name as it is looked up: trimmed, ASCII letters in lower case.
pub open spec fn model_key(name: Seq<char>) -> Seq<char> {
    ascii_lower_seq(trim_seq(name))
}

/// The built-in model a (normalised) name selects; the OpenAI model names
/// and `gpt-sovits` select the default version.
pub open spec fn spec_base_version(key: Seq<char>, default: ModelVersion) -> Option<ModelVersion> {
    if key == "gpt-sovits-v1"@ || key == "v1"@ {
        Some(ModelVersion::V1)
    } else if key == "gpt-sovits-v2"@ || key == "v2"@ {
        Some(ModelVersion::V2)
    } else if key == "gpt-sovits-v2pro"@ || key == "v2pro"@ {
        Some(ModelVersion::V2Pro)
    } else if key == "gpt-sovits-v2proplus"@ || key == "v2proplus"@ || key == "v2pro+"@ {
        Some(ModelVersion::V2ProPlus)
    } else if key == "gpt-sovits-v3"@ || key == "v3"@ {
        Some(ModelVersion::V3)
    } else if key == "gpt-sovits-v4"@ || key == "v4"@ {
        Some(ModelVersion::V4)
    } else if key == "gpt-4o-mini-tts"@ || key == "tts-1"@ || key == "tts-1-hd"@ || key == "gpt-sovits"@ {
        Some(default)
    } else {
        None
    }
}

/// `s` with every leading `all_` removed.
pub open spec fn strip_all_prefix(s: Seq<char>) -> Seq<char>
    decreases s.len(),
{
    if s.len() >= 4 && s.take(4) == "all_"@ {
        strip_all_prefix(s.skip(4))
    } else {
        s
    }
}

/// A language code as it is compared: trimmed, in ASCII lower case, without
/// leading `all_`.
pub open spec fn language_key(lang: Seq<char>) -> Seq<char> {
    strip_all_prefix(ascii_lower_seq(trim_seq(lang)))
}

/// The languages the text front end handles: Chinese and English.
pub open spec fn is_supported_language(lang: Seq<char>) -> bool {
    language_key(lang) == "zh"@ || language_key(lang) == "en"@
}

/// The message a language the front end cannot handle is refused with.
pub open spec fn unsupported_language_message(lang: Seq<char>) -> Seq<char> {
    "Language '"@ + lang + "' is not supported by the Rust frontend; supported languages are zh and en"@
}

/// The message a model name that selects nothing is refused with.
pub open spec fn model_not_found_message(name: Seq<char>) -> Seq<char> {
    "Model '"@ + name + "' not found in base models or custom models"@
}

/// The path of a model file: the explicit path where one is given, the file
/// under the model directory where one is given, and nothing otherwise.
pub open spec fn spec_model_path(explicit: Seq<char>, dir: Seq<char>, file: Seq<char>) -> Seq<char> {
    if explicit.len() > 0 {
        explicit
    } else if dir.len() > 0 {
        dir + "/"@ + file
    } else {
        Seq::empty()
    }
}

fn model_path(explicit: &String, dir: &String, file: &str) -> (r: String)
    ensures
        r@ == spec_model_path(explicit@, dir@, file@),
{
    if explicit.unicode_len() > 0 {
        explicit.clone()
    } else if dir.unicode_len() > 0 {
        let mut r = dir.clone();
        r.append("/");
        r.append(file);
        r
    } else {
        String::new()
    }
}

/// The three files of a text-to-semantic model.
#[derive(Debug, Clone)]
pub struct T2sFiles {
    pub encoder: String,
    pub first_stage_decoder: String,
    pub stage_decoder: String,
}

/// The two files of a flow-matching synthesiser.
#[derive(Debug, Clone)]
pub struct CfmFiles {
    pub dit: String,
    pub vocoder: String,
}

/// A custom fine-tuned model: its version, the files of its text-to-semantic
/// model and of exactly one synthesiser (VITS up to v2ProPlus, flow matching
/// for v3 and v4), its output rate and its flow-matching steps.
#[derive(Debug, Clone)]
pub struct CustomModelInstance {
    pub version: ModelVersion,
    pub t2s: T2sFiles,
    pub vits: Option<String>,
    pub cfm: Option<CfmFiles>,
    pub sampling_rate: u32,
    pub sample_steps: usize,
}

/// Whether `m` is what the configuration `c` describes.
pub open spec fn is_custom_plan(m: CustomModelInstance, c: CustomModelConfig) -> bool {
    let v = spec_version_from_name(c.model_version@);
    let dir = c.model_dir@;
    &&& m.version == v
    &&& m.sampling_rate == match c.sampling_rate { Some(r) => r, None => spec_sampling_rate(v) }
    &&& m.sample_steps == match c.sample_steps { Some(s) => s, None => spec_default_sample_steps(v) }
    &&& m.t2s.encoder@ == spec_model_path(c.t2s_encoder_path@, dir, "t2s_encoder.onnx"@)
    &&& m.t2s.first_stage_decoder@ == spec_model_path(c.t2s_fsdec_path@, dir, "t2s_fsdec.onnx"@)
    &&& m.t2s.stage_decoder@ == spec_model_path(c.t2s_sdec_path@, dir, "t2s_sdec.onnx"@)
    &&& (v == ModelVersion::V3 || v == ModelVersion::V4) ==> {
        &&& m.vits is None
        &&& m.cfm matches Some(f) && f.dit@ == spec_model_path(c.dit_path@, dir, "dit.onnx"@)
            && f.vocoder@ == spec_model_path(c.vocoder_path@, dir, "vocoder.onnx"@)
    }
    &&& !(v == ModelVersion::V3 || v == ModelVersion::V4) ==> {
        &&& m.cfm is None
        &&& m.vits matches Some(p) && p@ == spec_model_path(c.vits_path@, dir, "vits.onnx"@)
    }
}

/// Builds the plan of one custom model from its configuration.
pub fn plan_custom_model(c: &CustomModelConfig) -> (m: CustomModelInstance)
    ensures
        is_custom_plan(m, *c),
{
    let ver = ModelVersion::from_str_loose(c.model_version.as_str());
    let sr = match c.sampling_rate {
        Some(r) => r,
        None => ver.sampling_rate(),
    };
    let steps = match c.sample_steps {
        Some(s) => s,
        None => ver.default_sample_steps(),
    };
    let dir = &c.model_dir;
    let t2s = T2sFiles {
        encoder: model_path(&c.t2s_encoder_path, dir, "t2s_encoder.onnx"),
        first_stage_decoder: model_path(&c.t2s_fsdec_path, dir, "t2s_fsdec.onnx"),
        stage_decoder: model_path(&c.t2s_sdec_path, dir, "t2s_sdec.onnx"),
    };
    if ver.uses_flow_matching() {
        let files = CfmFiles {
            dit: model_path(&c.dit_path, dir, "dit.onnx"),
            vocoder: model_path(&c.vocoder_path, dir, "vocoder.onnx"),
        };
        CustomModelInstance { version: ver, t2s, vits: None, cfm: Some(files), sampling_rate: sr, sample_steps: steps }
    } else {
        let vits = model_path(&c.vits_path, dir, "vits.onnx");
        CustomModelInstance { version: ver, t2s, vits: Some(vits), cfm: None, sampling_rate: sr, sample_steps: steps }
    }
}

/// The model a request is served by.
#[derive(Debug, Clone, Copy, PartialEq, Eq, Structural)]
pub enum ModelChoice {
    /// The custom model at this position of the registry.
    Custom(usize),
    /// A built-in model.
    Base(ModelVersion),
}

/// The registry of models a server answers for: the default version and the
/// custom models under their lower-case names.
pub struct ModelManager {
    default_version: ModelVersion,
    custom_models: Vec<(String, CustomModelInstance)>,
}

/// Whether no name occurs twice.
pub open spec fn distinct_names(names: Seq<Seq<char>>) -> bool {
    forall|i: int, j: int| 0 <= i < j < names.len() ==> names[i] != names[j]
}

/// The registry key of the custom model configured under `name`.
pub open spec fn custom_key(name: Seq<char>) -> Seq<char> {
    unicode_lowercase(name)
}

/// Whether an entry of `entries` has the name `key`.
pub open spec fn registered(entries: Seq<(String, CustomModelInstance)>, key: Seq<char>) -> bool {
    exists|j: int| 0 <= j < entries.len() && #[trigger] entries[j].0@ == key
}

/// Whether one of the first `n` configured custom models has the registry
/// key `key`.
pub open spec fn configured(cfg: Seq<(String, CustomModelConfig)>, n: int, key: Seq<char>) -> bool {
    exists|k: int| 0 <= k < n && custom_key(#[trigger] cfg[k].0@) == key
}

/// Whether the configured custom model `i` is the last one whose name has
/// the registry key `key`.
pub open spec fn is_last_with_key(cfg: Seq<(String, CustomModelConfig)>, i: int, key: Seq<char>) -> bool {
    &&& 0 <= i < cfg.len()
    &&& custom_key(cfg[i].0@) == key
    &&& forall|k: int| i < k < cfg.len() ==> custom_key(#[trigger] cfg[k].0@) != key
}

impl ModelManager {
    /// The registry keys, in order.
    pub closed spec fn names(&self) -> Seq<Seq<char>> {
        self.custom_models@.map_values(|e: (String, CustomModelInstance)| e.0@)
    }

    /// The custom model at position `i`.
    pub closed spec fn model_at(&self, i: int) -> CustomModelInstance {
        self.custom_models@[i].1
    }

    pub closed spec fn spec_default_version(&self) -> ModelVersion {
        self.default_version
    }

    /// Registry keys are distinct.
    pub open spec fn wf(&self) -> bool {
        distinct_names(self.names())
    }

    /// Whether the custom model at position `j` is the plan of the last
    /// model configured (in `cfg`) under its name.
    pub open spec fn serves_last_configured(&self, cfg: Seq<(String, CustomModelConfig)>, j: int) -> bool {
        exists|k: int| is_last_with_key(cfg, k, self.names()[j]) && is_custom_plan(self.model_at(j), cfg[k].1)
    }

    /// Whether a custom model is registered under `key`.
    pub open spec fn has_key(&self, key: Seq<char>) -> bool {
        exists|j: int| 0 <= j < self.names().len() && #[trigger] self.names()[j] == key
    }

    /// The registry for a configuration: the default version it names, and
    /// each custom model under its lower-cased name, the last of several
    /// that share a lower-cased name winning.
    pub fn new(config: &AppConfig) -> (m: Self)
        ensures
            m.wf(),
            m.spec_default_version() == spec_version_from_name(config.models.default_version@),
            forall|key: Seq<char>| #[trigger] m.has_key(key) <==>
                configured(config.models.custom@, config.models.custom@.len() as int, key),
            forall|j: int| 0 <= j < m.names().len() ==> #[trigger] m.serves_last_configured(config.models.custom@, j),
            forall|k: int| 0 <= k < config.models.custom@.len() && all_ascii(config.models.custom@[k].0@)
                ==> #[trigger] custom_key(config.models.custom@[k].0@) == ascii_lower_seq(config.models.custom@[k].0@),
    {
        let default_version = ModelVersion::from_str_loose(config.models.default_version.as_str());
        let cfg = &config.models.custom;
        let mut models: Vec<(String, CustomModelInstance)> = Vec::new();
        let mut i: usize = 0;
        while i < cfg.len()
            invariant
                i <= cfg.len(),
                registry_invariant(models@, cfg@, i as int),
                forall|k: int| 0 <= k < i && all_ascii(cfg@[k].0@)
                    ==> #[trigger] custom_key(cfg@[k].0@) == ascii_lower_seq(cfg@[k].0@),
            decreases cfg.len() - i,
        {
            let key = to_lowercase(cfg[i].0.as_str());
            let plan = plan_custom_model(&cfg[i].1);
            let ghost old_models = models@;
            let found = find_name(&models, &key);
            let ghost entry = (key, plan);
            match found {
                Some(pos) => {
                    models.set(pos, (key, plan));
                    proof { lemma_registry_step(old_models, models@, cfg@, i as int, pos as int, entry); }
                },
                None => {
                    models.push((key, plan));
                    proof { lemma_registry_step(old_models, models@, cfg@, i as int, old_models.len() as int, entry); }
                },
            }
            i = i + 1;
        }
        assert(cfg@.take(cfg.len() as int) =~= cfg@);
        let m = ModelManager { default_version, custom_models: models };
        assert forall|key: Seq<char>| #[trigger] m.has_key(key) <==> configured(cfg@, cfg@.len() as int, key) by {
            assert(registered(models@, key) <==> configured(cfg@, cfg.len() as int, key));
            if registered(models@, key) {
                let j = choose|j: int| 0 <= j < models@.len() && #[trigger] models@[j].0@ == key;
                assert(m.names()[j] == key);
            }
            if m.has_key(key) {
                let j = choose|j: int| 0 <= j < m.names().len() && #[trigger] m.names()[j] == key;
                assert(models@[j].0@ == key);
            }
        }
        assert forall|j: int| 0 <= j < m.names().len() implies #[trigger] m.serves_last_configured(config.models.custom@, j) by {
            assert(m.names()[j] == models@[j].0@);
            assert(m.model_at(j) == models@[j].1);
            assert(plan_of_last(models@, cfg@.take(cfg.len() as int), j));
            assert(cfg@.take(cfg.len() as int) == cfg@);
            let k = choose|k: int| is_last_with_key(cfg@, k, models@[j].0@) && is_custom_plan(models@[j].1, cfg@[k].1);
            assert(is_last_with_key(config.models.custom@, k, m.names()[j]));
        }
        m
    }
}

impl ModelManager {
    /// The version the OpenAI model names and `gpt-sovits` select.
    pub fn default_version(&self) -> (v: ModelVersion)
        ensures
            v == self.spec_default_version(),
    {
        self.default_version
    }

    /// The custom model at position `i` of the registry, if there is one.
    pub fn custom_model(&self, i: usize) -> (m: Option<&CustomModelInstance>)
        ensures
            i < self.names().len() ==> m == Some(&self.model_at(i as int)),
            i >= self.names().len() ==> m is None,
    {
        if i < self.custom_models.len() {
            Some(&self.custom_models[i].1)
        } else {
            None
        }
    }

    fn position_of(&self, key: &[char]) -> (r: Option<usize>)
        ensures
            r matches Some(p) ==> p < self.names().len() && self.names()[p as int] == key@,
            r is None ==> !self.has_key(key@),
    {
        let mut pos: usize = 0;
        while pos < self.custom_models.len()
            invariant
                pos <= self.custom_models.len(),
                forall|j: int| 0 <= j < pos ==> self.custom_models@[j].0@ != key@,
            decreases self.custom_models.len() - pos,
        {
            if same_chars(&chars_of(self.custom_models[pos].0.as_str()), key) {
                return Some(pos);
            }
            pos = pos + 1;
        }
        None
    }

    /// Whether a custom model is registered under the lower-cased `name`.
    pub fn has_custom_model(&self, name: &str) -> (b: bool)
        ensures
            b == self.has_key(unicode_lowercase(name@)),
    {
        let key = to_lowercase(name);
        self.position_of(&chars_of(key.as_str())).is_some()
    }

    fn base_version_for_key(&self, key: &[char]) -> (r: Option<ModelVersion>)
        ensures
            r == spec_base_version(key@, self.spec_default_version()),
    {
        if is_lit(key, "gpt-sovits-v1") || is_lit(key, "v1") {
            Some(ModelVersion::V1)
        } else if is_lit(key, "gpt-sovits-v2") || is_lit(key, "v2") {
            Some(ModelVersion::V2)
        } else if is_lit(key, "gpt-sovits-v2pro") || is_lit(key, "v2pro") {
            Some(ModelVersion::V2Pro)
        } else if is_lit(key, "gpt-sovits-v2proplus") || is_lit(key, "v2proplus") || is_lit(key, "v2pro+") {
            Some(ModelVersion::V2ProPlus)
        } else if is_lit(key, "gpt-sovits-v3") || is_lit(key, "v3") {
            Some(ModelVersion::V3)
        } else if is_lit(key, "gpt-sovits-v4") || is_lit(key, "v4") {
            Some(ModelVersion::V4)
        } else if is_lit(key, "gpt-4o-mini-tts") || is_lit(key, "tts-1") || is_lit(key, "tts-1-hd")
            || is_lit(key, "gpt-sovits") {
            Some(self.default_version)
        } else {
            None
        }
    }

    /// The built-in model a name selects, after trimming it and folding its
    /// ASCII letters to lower case.
    pub fn base_version_for_name(&self, model_name: &str) -> (r: Option<ModelVersion>)
        ensures
            r == spec_base_version(model_key(model_name@), self.spec_default_version()),
    {
        self.base_version_for_key(&trimmed_ascii_lower(model_name))
    }

    /// Whether a name (trimmed, ASCII lower-cased) selects a custom or a
    /// built-in model.
    pub fn has_model(&self, model_name: &str) -> (b: bool)
        ensures
            b == (self.has_key(model_key(model_name@))
                || spec_base_version(model_key(model_name@), self.spec_default_version()) is Some),
    {
        let key = trimmed_ascii_lower(model_name);
        self.position_of(&key).is_some() || self.base_version_for_key(&key).is_some()
    }

    /// The registered custom models with their versions, in registry order.
    pub fn list_custom_models(&self) -> (r: Vec<(String, ModelVersion)>)
        ensures
            r.len() == self.names().len(),
            forall|j: int| 0 <= j < r.len() ==> (#[trigger] r[j]).0@ == self.names()[j]
                && r[j].1 == self.model_at(j).version,
    {
        let mut r: Vec<(String, ModelVersion)> = Vec::new();
        let mut j: usize = 0;
        while j < self.custom_models.len()
            invariant
                j <= self.custom_models.len(),
                r.len() == j,
                forall|k: int| 0 <= k < j ==> (#[trigger] r[k]).0@ == self.custom_models@[k].0@
                    && r[k].1 == self.custom_models@[k].1.version,
            decreases self.custom_models.len() - j,
        {
            let e = &self.custom_models[j];
            r.push((e.0.clone(), e.1.version));
            j = j + 1;
        }
        r
    }

    /// Chooses the model that serves a request, after checking both of its
    /// languages: the text language first, then the prompt language.  A
    /// custom model registered under the trimmed, ASCII lower-cased name
    /// comes first; otherwise the built-in model the name selects; otherwise
    /// the request is refused with a message that quotes the name as given.
    pub fn resolve_model(&self, model_name: &str, text_lang: &str, prompt_lang: &str) -> (r: Result<ModelChoice, String>)
        ensures
            !is_supported_language(text_lang@) ==> (r matches Err(m) && m@ == unsupported_language_message(text_lang@)),
            is_supported_language(text_lang@) && !is_supported_language(prompt_lang@) ==> (r matches Err(m)
                && m@ == unsupported_language_message(prompt_lang@)),
            is_supported_language(text_lang@) && is_supported_language(prompt_lang@) ==> {
                let key = model_key(model_name@);
                &&& r matches Ok(ModelChoice::Custom(i)) ==> i < self.names().len() && self.names()[i as int] == key
                &&& self.has_key(key) ==> r is Ok && r->Ok_0 is Custom
                &&& !self.has_key(key) ==> match spec_base_version(key, self.spec_default_version()) {
                    Some(v) => r == Ok::<ModelChoice, String>(ModelChoice::Base(v)),
                    None => r matches Err(m) && m@ == model_not_found_message(model_name@),
                }
            },
    {
        validate_language(text_lang)?;
        validate_language(prompt_lang)?;
        let key = trimmed_ascii_lower(model_name);
        match self.position_of(&key) {
            Some(i) => Ok(ModelChoice::Custom(i)),
            None => match self.base_version_for_key(&key) {
                Some(v) => Ok(ModelChoice::Base(v)),
                None => {
                    let mut m = "Model '".to_owned();
                    m.append(model_name);
                    m.append("' not found in base models or custom models");
                    Err(m)
                },
            },
        }
    }
}

fn strip_all_prefix_chars(v: &[char]) -> (r: Vec<char>)
    ensures
        r@ == strip_all_prefix(v@),
{
    proof {
        reveal_strlit("all_");
    }
    let mut start: usize = 0;
    assert(v@.skip(0) =~= v@);
    while v.len() - start >= 4 && v[start] == 'a' && v[start + 1] == 'l' && v[start + 2] == 'l' && v[start + 3] == '_'
        invariant
            start <= v.len(),
            strip_all_prefix(v@) == strip_all_prefix(v@.skip(start as int)),
        decreases v.len() - start,
    {
        let ghost rest = v@.skip(start as int);
        proof {
            reveal_strlit("all_");
        }
        assert(rest.take(4) =~= "all_"@);
        assert(rest.skip(4) =~= v@.skip(start + 4));
        start = start + 4;
    }
    let ghost rest = v@.skip(start as int);
    proof {
        reveal_strlit("all_");
    }
    assert(!(rest.len() >= 4 && rest.take(4) == "all_"@)) by {
        if rest.len() >= 4 && rest.take(4) == "all_"@ {
            assert(rest.take(4)[0] == v@[start as int]);
            assert(rest.take(4)[1] == v@[start + 1]);
            assert(rest.take(4)[2] == v@[start + 2]);
            assert(rest.take(4)[3] == v@[start + 3]);
        }
    }
    let mut r: Vec<char> = Vec::new();
    let mut i: usize = start;
    while i < v.len()
        invariant
            start <= i <= v.len(),
            r@ == v@.subrange(start as int, i as int),
        decreases v.len() - i,
    {
        r.push(v[i]);
        assert(v@.subrange(start as int, i + 1) =~= v@.subrange(start as int, i as int).push(v@[i as int]));
        i = i + 1;
    }
    assert(v@.subrange(start as int, v.len() as int) =~= rest);
    r
}

/// A language code trimmed, in ASCII lower case and without leading `all_`.
pub fn normalized_language(language: &str) -> (r: String)
    ensures
        r@ == language_key(language@),
{
    string_from(&strip_all_prefix_chars(&trimmed_ascii_lower(language)))
}

/// Accepts the languages the text front end handles, `zh` and `en` (after
/// normalisation), and refuses any other with a message that quotes it.
pub fn validate_language(language: &str) -> (r: Result<(), String>)
    ensures
        is_supported_language(language@) ==> r is Ok,
        !is_supported_language(language@) ==> (r matches Err(m) && m@ == unsupported_language_message(language@)),
{
    let key = strip_all_prefix_chars(&trimmed_ascii_lower(language));
    if is_lit(&key, "zh") || is_lit(&key, "en") {
        Ok(())
    } else {
        let mut m = "Language '".to_owned();
        m.append(language);
        m.append("' is not supported by the Rust frontend; supported languages are zh and en");
        Err(m)
    }
}

/// Whether entry `j` of the registry is the plan of the last configured
/// model (among `cfg`) with its name.
pub open spec fn plan_of_last(entries: Seq<(String, CustomModelInstance)>, cfg: Seq<(String, CustomModelConfig)>, j: int) -> bool {
    exists|k: int| is_last_with_key(cfg, k, entries[j].0@) && is_custom_plan(entries[j].1, cfg[k].1)
}

/// What the registry under construction satisfies after the first `n`
/// configured models: distinct names, exactly the configured names, each
/// with the plan of the last model configured under it.
pub open spec fn registry_invariant(entries: Seq<(String, CustomModelInstance)>, cfg: Seq<(String, CustomModelConfig)>, n: int) -> bool {
    &&& 0 <= n <= cfg.len()
    &&& forall|a: int, b: int| 0 <= a < b < entries.len() ==> entries[a].0@ != entries[b].0@
    &&& forall|key: Seq<char>| #[trigger] registered(entries, key) <==> configured(cfg, n, key)
    &&& forall|j: int| 0 <= j < entries.len() ==> #[trigger] plan_of_last(entries, cfg.take(n), j)
}

proof fn lemma_registry_step(
    old: Seq<(String, CustomModelInstance)>,
    new: Seq<(String, CustomModelInstance)>,
    cfg: Seq<(String, CustomModelConfig)>,
    i: int,
    pos: int,
    entry: (String, CustomModelInstance),
)
    requires
        0 <= i < cfg.len(),
        registry_invariant(old, cfg, i),
        entry.0@ == custom_key(cfg[i].0@),
        is_custom_plan(entry.1, cfg[i].1),
        0 <= pos <= old.len(),
        pos < old.len() ==> old[pos].0@ == entry.0@ && new == old.update(pos, entry),
        pos == old.len() ==> (forall|j: int| 0 <= j < old.len() ==> old[j].0@ != entry.0@) && new == old.push(entry),
    ensures
        registry_invariant(new, cfg, i + 1),
{
    let key = entry.0@;
    assert forall|j: int| 0 <= j < new.len() && j != pos implies new[j] == old[j] && old[j].0@ != key by {
        if pos < old.len() {
            if j < pos {
                assert(old[j].0@ != old[pos].0@);
            } else {
                assert(old[pos].0@ != old[j].0@);
            }
        }
    }
    assert forall|a: int, b: int| 0 <= a < b < new.len() implies new[a].0@ != new[b].0@ by {
        if a != pos && b != pos {
            assert(old[a].0@ != old[b].0@);
        }
    }
    assert forall|k2: Seq<char>| #[trigger] registered(new, k2) <==> configured(cfg, i + 1, k2) by {
        if configured(cfg, i + 1, k2) {
            let k = choose|k: int| 0 <= k < i + 1 && custom_key(#[trigger] cfg[k].0@) == k2;
            if k2 == key {
                assert(new[pos].0@ == k2);
            } else {
                assert(k < i);
                assert(configured(cfg, i, k2));
                assert(registered(old, k2));
                let j = choose|j: int| 0 <= j < old.len() && #[trigger] old[j].0@ == k2;
                assert(j != pos || pos == old.len());
                assert(new[j].0@ == k2);
            }
        }
        if registered(new, k2) {
            let j = choose|j: int| 0 <= j < new.len() && #[trigger] new[j].0@ == k2;
            if j == pos {
                assert(custom_key(cfg[i].0@) == k2);
            } else {
                assert(old[j].0@ == k2);
                assert(registered(old, k2));
                assert(configured(cfg, i, k2));
                let k = choose|k: int| 0 <= k < i && custom_key(#[trigger] cfg[k].0@) == k2;
                assert(custom_key(cfg[k].0@) == k2);
            }
        }
    }
    let t = cfg.take(i + 1);
    assert forall|j: int| 0 <= j < new.len() implies #[trigger] plan_of_last(new, t, j) by {
        if j == pos {
            assert(t[i].0@ == cfg[i].0@);
            assert(is_last_with_key(t, i, new[j].0@));
            assert(is_custom_plan(new[j].1, t[i].1));
        } else {
            assert(plan_of_last(old, cfg.take(i), j));
            let k = choose|k: int| is_last_with_key(cfg.take(i), k, old[j].0@) && is_custom_plan(old[j].1, cfg.take(i)[k].1);
            assert(t[k] == cfg.take(i)[k]);
            assert forall|k3: int| k < k3 < t.len() implies custom_key(#[trigger] t[k3].0@) != old[j].0@ by {
                if k3 < i {
                    assert(t[k3] == cfg.take(i)[k3]);
                } else {
                    assert(t[k3].0@ == cfg[i].0@);
                }
            }
            assert(is_last_with_key(t, k, new[j].0@));
        }
    }
}

/// The position of the entry named `key`, if there is one.
fn find_name(entries: &Vec<(String, CustomModelInstance)>, key: &String) -> (r: Option<usize>)
    ensures
        r matches Some(p) ==> p < entries.len() && entries@[p as int].0@ == key@,
        r is None ==> forall|j: int| 0 <= j < entries.len() ==> entries@[j].0@ != key@,
{
    let kc = chars_of(key.as_str());
    let mut pos: usize = 0;
    while pos < entries.len()
        invariant
            pos <= entries.len(),
            kc@ == key@,
            forall|j: int| 0 <= j < pos ==> entries@[j].0@ != key@,
        decreases entries.len() - pos,
    {
        if same_chars(&chars_of(entries[pos].0.as_str()), &kc) {
            return Some(pos);
        }
        pos = pos + 1;
    }
    None
}

/// The characters of the model names the built-in models are served under.
proof fn lemma_model_name_literals()
    ensures
        "gpt-sovits-v1"@ == seq!['g', 'p', 't', '-', 's', 'o', 'v', 'i', 't', 's', '-', 'v', '1'],
        "v1"@ == seq!['v', '1'],
        "gpt-sovits-v2"@ == seq!['g', 'p', 't', '-', 's', 'o', 'v', 'i', 't', 's', '-', 'v', '2'],
        "v2"@ == seq!['v', '2'],
        "gpt-sovits-v2pro"@ == seq!['g', 'p', 't', '-', 's', 'o', 'v', 'i', 't', 's', '-', 'v', '2', 'p', 'r', 'o'],
        "v2pro"@ == seq!['v', '2', 'p', 'r', 'o'],
        "gpt-sovits-v2proplus"@ == seq!['g', 'p', 't', '-', 's', 'o', 'v', 'i', 't', 's', '-', 'v', '2', 'p', 'r', 'o', 'p', 'l', 'u', 's'],
        "v2proplus"@ == seq!['v', '2', 'p', 'r', 'o', 'p', 'l', 'u', 's'],
        "v2pro+"@ == seq!['v', '2', 'p', 'r', 'o', '+'],
        "gpt-sovits-v3"@ == seq!['g', 'p', 't', '-', 's', 'o', 'v', 'i', 't', 's', '-', 'v', '3'],
        "v3"@ == seq!['v', '3'],
        "gpt-sovits-v4"@ == seq!['g', 'p', 't', '-', 's', 'o', 'v', 'i', 't', 's', '-', 'v', '4'],
        "v4"@ == seq!['v', '4'],
        "gpt-4o-mini-tts"@ == seq!['g', 'p', 't', '-', '4', 'o', '-', 'm', 'i', 'n', 'i', '-', 't', 't', 's'],
        "tts-1"@ == seq!['t', 't', 's', '-', '1'],
        "tts-1-hd"@ == seq!['t', 't', 's', '-', '1', '-', 'h', 'd'],
        "gpt-sovits"@ == seq!['g', 'p', 't', '-', 's', 'o', 'v', 'i', 't', 's'],
{
    reveal_strlit("gpt-sovits-v1");
    reveal_strlit("v1");
    reveal_strlit("gpt-sovits-v2");
    reveal_strlit("v2");
    reveal_strlit("gpt-sovits-v2pro");
    reveal_strlit("v2pro");
    reveal_strlit("gpt-sovits-v2proplus");
    reveal_strlit("v2proplus");
    reveal_strlit("v2pro+");
    reveal_strlit("gpt-sovits-v3");
    reveal_strlit("v3");
    reveal_strlit("gpt-sovits-v4");
    reveal_strlit("v4");
    reveal_strlit("gpt-4o-mini-tts");
    reveal_strlit("tts-1");
    reveal_strlit("tts-1-hd");
    reveal_strlit("gpt-sovits");
}

/// `gpt-sovits-`.
pub open spec fn gpt_sovits_prefix() -> Seq<char> {
    seq!['g', 'p', 't', '-', 's', 'o', 'v', 'i', 't', 's', '-']
}

/// Model-name law: each version is served, as a built-in model, under its
/// own name in lower case (`v1`, `v2`, `v2pro`, `v2proplus`, `v3`, `v4`) and
/// under that name after `gpt-sovits-`, whatever the default version.
pub proof fn lemma_version_names_select_base_models(v: ModelVersion, d: ModelVersion)
    ensures
        spec_base_version(ascii_lower_seq(version_name(v)), d) == Some(v),
        spec_base_version(gpt_sovits_prefix() + ascii_lower_seq(version_name(v)), d) == Some(v),
{
    lemma_model_name_literals();
    let l = ascii_lower_seq(version_name(v));
    match v {
        ModelVersion::V1 => { assert(l =~= "v1"@); assert(gpt_sovits_prefix() + l =~= "gpt-sovits-v1"@); },
        ModelVersion::V2 => { assert(l =~= "v2"@); assert(gpt_sovits_prefix() + l =~= "gpt-sovits-v2"@); },
        ModelVersion::V2Pro => { assert(l =~= "v2pro"@); assert(gpt_sovits_prefix() + l =~= "gpt-sovits-v2pro"@); },
        ModelVersion::V2ProPlus => { assert(l =~= "v2proplus"@); assert(gpt_sovits_prefix() + l =~= "gpt-sovits-v2proplus"@); },
        ModelVersion::V3 => { assert(l =~= "v3"@); assert(gpt_sovits_prefix() + l =~= "gpt-sovits-v3"@); },
        ModelVersion::V4 => { assert(l =~= "v4"@); assert(gpt_sovits_prefix() + l =~= "gpt-sovits-v4"@); },
    }
}

/// Model-name law: the OpenAI model names and `gpt-sovits` are served by the
/// default version.
pub proof fn lemma_openai_names_select_default(d: ModelVersion)
    ensures
        spec_base_version("tts-1"@, d) == Some(d),
        spec_base_version("tts-1-hd"@, d) == Some(d),
        spec_base_version("gpt-4o-mini-tts"@, d) == Some(d),
        spec_base_version("gpt-sovits"@, d) == Some(d),
{
    lemma_model_name_literals();
    assert("gpt-sovits"@.len() == 10);
    assert("gpt-sovits"@ != "v2pro+"@ && "gpt-sovits"@ != "v2proplus"@ && "gpt-sovits"@ != "v2pro"@);
}

} // verus!
