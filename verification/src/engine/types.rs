//! The GPT-SoVITS model versions and what each implies.

use vstd::prelude::*;
use crate::text::chars::{ascii_lower_seq, chars_of, eq_ignore_ascii_case, lemma_ascii_lower_idempotent};

verus! {

/// A GPT-SoVITS model architecture.
#[derive(Debug, Clone, Copy, PartialEq, Eq, Hash, Structural)]
pub enum ModelVersion {
    V1,
    V2,
    V2Pro,
    V2ProPlus,
    V3,
    V4,
}

impl Default for ModelVersion {
    fn default() -> (v: Self)
        ensures
            v == ModelVersion::V2,
    {
        ModelVersion::V2
    }
}

/// The version a name selects: `v1`, `v2pro` or `v2_pro`, `v2proplus`,
/// `v2_pro_plus` or `v2pro+`, `v3`, `v4` in any ASCII case, and `V2` for any
/// other name.
pub open spec fn spec_version_from_name(s: Seq<char>) -> ModelVersion {
    let l = ascii_lower_seq(s);
    if l == seq!['v', '1'] {
        ModelVersion::V1
    } else if l == seq!['v', '2', 'p', 'r', 'o'] || l == seq!['v', '2', '_', 'p', 'r', 'o'] {
        ModelVersion::V2Pro
    } else if l == seq!['v', '2', 'p', 'r', 'o', 'p', 'l', 'u', 's'] || l == seq!['v', '2', '_', 'p', 'r', 'o', '_', 'p', 'l', 'u', 's']
        || l == seq!['v', '2', 'p', 'r', 'o', '+'] {
        ModelVersion::V2ProPlus
    } else if l == seq!['v', '3'] {
        ModelVersion::V3
    } else if l == seq!['v', '4'] {
        ModelVersion::V4
    } else {
        ModelVersion::V2
    }
}

/// The name each version is written with in configuration files and API
/// payloads: `v1`, `v2`, `v2Pro`, `v2ProPlus`, `v3`, `v4`.
pub open spec fn version_name(v: ModelVersion) -> Seq<char> {
    match v {
        ModelVersion::V1 => seq!['v', '1'],
        ModelVersion::V2 => seq!['v', '2'],
        ModelVersion::V2Pro => seq!['v', '2', 'P', 'r', 'o'],
        ModelVersion::V2ProPlus => seq!['v', '2', 'P', 'r', 'o', 'P', 'l', 'u', 's'],
        ModelVersion::V3 => seq!['v', '3'],
        ModelVersion::V4 => seq!['v', '4'],
    }
}

/// Version-name law: reading a version's own name gives the version back,
/// and a name is read without regard to ASCII case.
pub proof fn lemma_version_names(v: ModelVersion, s: Seq<char>)
    ensures
        spec_version_from_name(version_name(v)) == v,
        spec_version_from_name(ascii_lower_seq(s)) == spec_version_from_name(s),
{
    lemma_ascii_lower_idempotent(s);
    let n = version_name(v);
    match v {
        ModelVersion::V1 => { assert(ascii_lower_seq(n) =~= seq!['v', '1']); },
        ModelVersion::V2 => {
            assert(ascii_lower_seq(n) =~= seq!['v', '2']);
            assert(ascii_lower_seq(n).len() == 2);
        },
        ModelVersion::V2Pro => { assert(ascii_lower_seq(n) =~= seq!['v', '2', 'p', 'r', 'o']); },
        ModelVersion::V2ProPlus => { assert(ascii_lower_seq(n) =~= seq!['v', '2', 'p', 'r', 'o', 'p', 'l', 'u', 's']); },
        ModelVersion::V3 => { assert(ascii_lower_seq(n) =~= seq!['v', '3']); },
        ModelVersion::V4 => { assert(ascii_lower_seq(n) =~= seq!['v', '4']); },
    }
}

pub open spec fn spec_sampling_rate(v: ModelVersion) -> u32 {
    match v {
        ModelVersion::V3 => 24000,
        ModelVersion::V4 => 48000,
        _ => 32000,
    }
}

pub open spec fn spec_default_sample_steps(v: ModelVersion) -> usize {
    match v {
        ModelVersion::V3 => 32,
        ModelVersion::V4 => 16,
        _ => 1,
    }
}

fn is_named(s: &[char], lit: &[char]) -> (b: bool)
    ensures
        b == (ascii_lower_seq(s@) == lit@),
{
    eq_ignore_ascii_case(s, lit)
}

impl ModelVersion {
    /// Reads a version name leniently.  Names are compared after ASCII case
    /// folding, which for these names is the same as comparing their
    /// `to_lowercase` forms: no character outside ASCII lower-cases to one of
    /// the letters, digits, `_` or `+` they are made of.
    pub fn from_str_loose(s: &str) -> (v: ModelVersion)
        ensures
            v == spec_version_from_name(s@),
    {
        let c = chars_of(s);
        let n1: Vec<char> = vec!['v', '1'];
        let n2: Vec<char> = vec!['v', '2', 'p', 'r', 'o'];
        let n3: Vec<char> = vec!['v', '2', '_', 'p', 'r', 'o'];
        let n4: Vec<char> = vec!['v', '2', 'p', 'r', 'o', 'p', 'l', 'u', 's'];
        let n5: Vec<char> = vec!['v', '2', '_', 'p', 'r', 'o', '_', 'p', 'l', 'u', 's'];
        let n6: Vec<char> = vec!['v', '2', 'p', 'r', 'o', '+'];
        let n7: Vec<char> = vec!['v', '3'];
        let n8: Vec<char> = vec!['v', '4'];
        assert(n1@ =~= seq!['v', '1']);
        assert(n2@ =~= seq!['v', '2', 'p', 'r', 'o']);
        assert(n3@ =~= seq!['v', '2', '_', 'p', 'r', 'o']);
        assert(n4@ =~= seq!['v', '2', 'p', 'r', 'o', 'p', 'l', 'u', 's']);
        assert(n5@ =~= seq!['v', '2', '_', 'p', 'r', 'o', '_', 'p', 'l', 'u', 's']);
        assert(n6@ =~= seq!['v', '2', 'p', 'r', 'o', '+']);
        assert(n7@ =~= seq!['v', '3']);
        assert(n8@ =~= seq!['v', '4']);
        if is_named(&c, &n1) {
            ModelVersion::V1
        } else if is_named(&c, &n2) || is_named(&c, &n3) {
            ModelVersion::V2Pro
        } else if is_named(&c, &n4) || is_named(&c, &n5) || is_named(&c, &n6) {
            ModelVersion::V2ProPlus
        } else if is_named(&c, &n7) {
            ModelVersion::V3
        } else if is_named(&c, &n8) {
            ModelVersion::V4
        } else {
            ModelVersion::V2
        }
    }

    /// The output sampling rate: 32 kHz up to v2ProPlus, 24 kHz for v3,
    /// 48 kHz for v4.
    pub fn sampling_rate(&self) -> (r: u32)
        ensures
            r == spec_sampling_rate(*self),
    {
        match self {
            ModelVersion::V1 | ModelVersion::V2 | ModelVersion::V2Pro | ModelVersion::V2ProPlus => 32000,
            ModelVersion::V3 => 24000,
            ModelVersion::V4 => 48000,
        }
    }

    /// The symbol set: `v1` for V1, `v2` for every later version.
    pub fn symbols_version(&self) -> (r: &'static str)
        ensures
            r@ == (if *self == ModelVersion::V1 { seq!['v', '1'] } else { seq!['v', '2'] }),
    {
        proof {
            reveal_strlit("v1");
            reveal_strlit("v2");
        }
        match self {
            ModelVersion::V1 => "v1",
            _ => "v2",
        }
    }

    /// The default number of flow-matching steps: 32 for v3, 16 for v4, 1
    /// for the VITS versions.
    pub fn default_sample_steps(&self) -> (r: usize)
        ensures
            r == spec_default_sample_steps(*self),
    {
        match self {
            ModelVersion::V3 => 32,
            ModelVersion::V4 => 16,
            _ => 1,
        }
    }

    /// Whether the VITS synthesiser of this version takes a speaker
    /// embedding (v2Pro and v2ProPlus).
    pub fn uses_speaker_embedding(&self) -> (r: bool)
        ensures
            r == (*self == ModelVersion::V2Pro || *self == ModelVersion::V2ProPlus),
    {
        match self {
            ModelVersion::V2Pro | ModelVersion::V2ProPlus => true,
            _ => false,
        }
    }

    /// Whether the version synthesises with a flow-matching model and a
    /// vocoder (v3 and v4) rather than with VITS.
    pub fn uses_flow_matching(&self) -> (r: bool)
        ensures
            r == (*self == ModelVersion::V3 || *self == ModelVersion::V4),
    {
        match self {
            ModelVersion::V3 | ModelVersion::V4 => true,
            _ => false,
        }
    }
}

} // verus!
