//! Voice presets by name, and how the `voice` field of a request selects
//! one: a preset name (exactly, or ignoring case), or a whole voice object.

use vstd::prelude::*;
use crate::engine::model_manager::{to_lowercase, unicode_lowercase};
use crate::text::chars::{chars_of, same_chars};

verus! {

/// The preset names a server offers when no voice file is configured.
pub open spec fn spec_default_voice_names() -> Seq<Seq<char>> {
    seq!["default"@, "alloy"@, "echo"@, "fable"@, "onyx"@, "nova"@, "shimmer"@, "sandrone"@]
}

/// The names of the built-in presets, which all share the default preset.
pub fn default_voice_names() -> (r: Vec<&'static str>)
    ensures
        r@.map_values(|s: &str| s@) == spec_default_voice_names(),
{
    let r: Vec<&'static str> = vec!["default", "alloy", "echo", "fable", "onyx", "nova", "shimmer", "sandrone"];
    assert(r@.map_values(|s: &str| s@) =~= spec_default_voice_names());
    r
}

/// The presets as a map from name to preset; later entries win.
pub open spec fn map_of<P>(entries: Seq<(String, P)>) -> Map<Seq<char>, P>
    decreases entries.len(),
{
    if entries.len() == 0 {
        Map::empty()
    } else {
        map_of(entries.drop_last()).insert(entries.last().0@, entries.last().1)
    }
}

/// Whether no name occurs twice.
pub open spec fn distinct_keys<P>(entries: Seq<(String, P)>) -> bool {
    forall|a: int, b: int| 0 <= a < b < entries.len() ==> entries[a].0@ != entries[b].0@
}

proof fn lemma_map_of<P>(entries: Seq<(String, P)>)
    requires
        distinct_keys(entries),
    ensures
        forall|j: int| 0 <= j < entries.len() ==> #[trigger] map_of(entries).contains_key(entries[j].0@)
            && map_of(entries)[entries[j].0@] == entries[j].1,
        forall|k: Seq<char>| #[trigger] map_of(entries).contains_key(k) ==> exists|j: int| 0 <= j < entries.len()
            && entries[j].0@ == k,
    decreases entries.len(),
{
    if entries.len() > 0 {
        let init = entries.drop_last();
        assert(distinct_keys(init));
        lemma_map_of(init);
        assert forall|j: int| 0 <= j < entries.len() implies #[trigger] map_of(entries).contains_key(entries[j].0@)
            && map_of(entries)[entries[j].0@] == entries[j].1 by {
            if j < entries.len() - 1 {
                assert(init[j] == entries[j]);
                assert(map_of(init).contains_key(init[j].0@));
                assert(entries[j].0@ != entries.last().0@);
            }
        }
        assert forall|k: Seq<char>| #[trigger] map_of(entries).contains_key(k) implies exists|j: int| 0 <= j < entries.len()
            && entries[j].0@ == k by {
            if k != entries.last().0@ {
                assert(map_of(init).contains_key(k));
                let j = choose|j: int| 0 <= j < init.len() && init[j].0@ == k;
                assert(entries[j].0@ == k);
            } else {
                assert(entries[entries.len() - 1].0@ == k);
            }
        }
    }
}

/// How a request names its voice.
pub enum VoiceValue<P> {
    /// A preset name.
    Name(String),
    /// A whole voice object, or why it could not be read.
    Object(Result<P, String>),
    /// Anything else.
    Other,
}

/// The voice a request is synthesised with.
pub enum ResolvedVoice<'a, P> {
    Preset(&'a P),
    Custom(P),
}

/// The named voice presets.
pub struct VoiceManager<P> {
    voices: Vec<(String, P)>,
}

impl<P> VoiceManager<P> {
    /// The presets by name.
    pub closed spec fn view(&self) -> Map<Seq<char>, P> {
        map_of(self.voices@)
    }

    /// No two presets share a name.
    #[verifier::type_invariant]
    closed spec fn wf(&self) -> bool {
        distinct_keys(self.voices@)
    }

    /// The presets in the order they are listed.
    pub closed spec fn entries(&self) -> Seq<(String, P)> {
        self.voices@
    }

    /// No presets.
    pub fn new() -> (m: Self)
        ensures
            m.view() == Map::<Seq<char>, P>::empty(),
    {
        let m = VoiceManager { voices: Vec::new() };
        assert(m.view() =~= Map::<Seq<char>, P>::empty());
        m
    }

    fn position(&self, name: &[char]) -> (r: Option<usize>)
        ensures
            r matches Some(p) ==> p < self.voices.len() && self.voices@[p as int].0@ == name@,
            r is None ==> !self.view().contains_key(name@),
    {
        let mut pos: usize = 0;
        while pos < self.voices.len()
            invariant
                pos <= self.voices.len(),
                forall|j: int| 0 <= j < pos ==> self.voices@[j].0@ != name@,
            decreases self.voices.len() - pos,
        {
            if same_chars(&chars_of(self.voices[pos].0.as_str()), name) {
                return Some(pos);
            }
            pos = pos + 1;
        }
        proof {
            use_type_invariant(self);
            lemma_map_of(self.voices@);
            if self.view().contains_key(name@) {
                let j = choose|j: int| 0 <= j < self.voices@.len() && self.voices@[j].0@ == name@;
                assert(self.voices@[j].0@ == name@);
            }
        }
        None
    }

    /// Adds a preset, replacing any preset of the same name.
    pub fn insert(&mut self, name: String, preset: P)
        ensures
            final(self).view() == old(self).view().insert(name@, preset),
    {
        proof {
            use_type_invariant(&*self);
        }
        let ghost key = name@;
        let found = self.position(&chars_of(name.as_str()));
        let mut voices: Vec<(String, P)> = Vec::new();
        std::mem::swap(&mut voices, &mut self.voices);
        let ghost old_voices = voices@;
        proof {
            lemma_map_of(old_voices);
        }
        match found {
            Some(pos) => {
                voices.set(pos, (name, preset));
                proof {
                    let nv = voices@;
                    assert forall|a: int, b: int| 0 <= a < b < nv.len() implies nv[a].0@ != nv[b].0@ by {
                        if a != pos && b != pos {
                            assert(old_voices[a].0@ != old_voices[b].0@);
                        } else if a == pos {
                            assert(old_voices[pos as int].0@ != old_voices[b].0@);
                        } else {
                            assert(old_voices[a].0@ != old_voices[pos as int].0@);
                        }
                    }
                    lemma_map_of(nv);
                    let target = map_of(old_voices).insert(key, preset);
                    assert forall|k: Seq<char>| #[trigger] map_of(nv).contains_key(k) <==> target.contains_key(k) by {
                        if map_of(nv).contains_key(k) {
                            let j = choose|j: int| 0 <= j < nv.len() && nv[j].0@ == k;
                            if j != pos {
                                assert(old_voices[j].0@ == k);
                                assert(map_of(old_voices).contains_key(old_voices[j].0@));
                            }
                        }
                        if target.contains_key(k) && k != key {
                            let j = choose|j: int| 0 <= j < old_voices.len() && old_voices[j].0@ == k;
                            assert(nv[j].0@ == k);
                            assert(map_of(nv).contains_key(nv[j].0@));
                        }
                        if k == key {
                            assert(map_of(nv).contains_key(nv[pos as int].0@));
                        }
                    }
                    assert forall|k: Seq<char>| #[trigger] map_of(nv).contains_key(k) implies map_of(nv)[k] == target[k] by {
                        let j = choose|j: int| 0 <= j < nv.len() && nv[j].0@ == k;
                        if j != pos {
                            assert(old_voices[j] == nv[j]);
                            assert(map_of(old_voices).contains_key(old_voices[j].0@));
                        }
                    }
                    assert(map_of(nv) =~= target);
                }
            },
            None => {
                voices.push((name, preset));
                proof {
                    let nv = voices@;
                    assert(nv.drop_last() =~= old_voices);
                    assert forall|a: int, b: int| 0 <= a < b < nv.len() implies nv[a].0@ != nv[b].0@ by {
                        if b == nv.len() - 1 {
                            assert(map_of(old_voices).contains_key(old_voices[a].0@));
                        } else {
                            assert(old_voices[a].0@ != old_voices[b].0@);
                        }
                    }
                }
            },
        }
        self.voices = voices;
    }

    /// The preset with exactly this name.
    pub fn get_voice(&self, name: &str) -> (r: Option<&P>)
        ensures
            self.view().contains_key(name@) ==> r == Some(&self.view()[name@]),
            !self.view().contains_key(name@) ==> r is None,
    {
        match self.position(&chars_of(name)) {
            Some(p) => {
                proof {
                    use_type_invariant(self);
                    lemma_map_of(self.voices@);
                }
                Some(&self.voices[p].1)
            },
            None => None,
        }
    }

    /// Every preset with its name, in listing order; each name once.
    pub fn list_voices(&self) -> (r: Vec<(String, &P)>)
        ensures
            r.len() == self.entries().len(),
            forall|j: int| 0 <= j < r.len() ==> (#[trigger] r[j]).0@ == self.entries()[j].0@
                && *r[j].1 == self.entries()[j].1 && self.view().contains_key(r[j].0@)
                && self.view()[r[j].0@] == *r[j].1,
            forall|k: Seq<char>| #[trigger] self.view().contains_key(k) ==> exists|j: int| 0 <= j < r.len() && r[j].0@ == k,
    {
        proof {
            use_type_invariant(self);
            lemma_map_of(self.voices@);
        }
        let mut r: Vec<(String, &P)> = Vec::new();
        let mut j: usize = 0;
        while j < self.voices.len()
            invariant
                j <= self.voices.len(),
                r.len() == j,
                forall|k: int| 0 <= k < j ==> (#[trigger] r[k]).0@ == self.voices@[k].0@ && *r[k].1 == self.voices@[k].1,
            decreases self.voices.len() - j,
        {
            let e = &self.voices[j];
            r.push((e.0.clone(), &e.1));
            j = j + 1;
        }
        proof {
            assert forall|k: Seq<char>| #[trigger] self.view().contains_key(k) implies exists|j: int| 0 <= j < r.len() && r[j].0@ == k by {
                let j = choose|j: int| 0 <= j < self.voices@.len() && self.voices@[j].0@ == k;
                assert(r[j].0@ == k);
            }
        }
        r
    }

    /// The voice a request selects.  A name selects the preset of exactly
    /// that name, or failing that a preset whose lower-cased name is the
    /// lower-cased name; a voice object is used as it is.  A name that
    /// selects nothing, an unreadable voice object and any other value are
    /// refused with a message that says which.
    pub fn resolve_voice(&self, voice: VoiceValue<P>) -> (r: Result<ResolvedVoice<'_, P>, String>)
        ensures
            match voice {
                VoiceValue::Name(name) => {
                    &&& self.view().contains_key(name@) ==> (r matches Ok(ResolvedVoice::Preset(p)) && *p == self.view()[name@])
                    &&& !self.view().contains_key(name@) && (exists|k: Seq<char>| #[trigger] self.view().contains_key(k)
                        && unicode_lowercase(k) == unicode_lowercase(name@)) ==> (r matches Ok(ResolvedVoice::Preset(p))
                        && exists|k: Seq<char>| #[trigger] self.view().contains_key(k) && unicode_lowercase(k) == unicode_lowercase(name@)
                        && *p == self.view()[k])
                    &&& !(exists|k: Seq<char>| #[trigger] self.view().contains_key(k) && unicode_lowercase(k) == unicode_lowercase(name@))
                        && !self.view().contains_key(name@) ==> (r matches Err(m)
                        && m@ == "Voice '"@ + name@ + "' not found in voice presets."@)
                },
                VoiceValue::Object(Ok(p)) => r matches Ok(ResolvedVoice::Custom(q)) && q == p,
                VoiceValue::Object(Err(e)) => r matches Err(m) && m@ == "Invalid custom voice object schema: "@ + e@,
                VoiceValue::Other => r matches Err(m) && m@ == "Invalid voice type: must be string or object."@,
            },
    {
        match voice {
            VoiceValue::Name(name) => {
                if let Some(p) = self.get_voice(name.as_str()) {
                    return Ok(ResolvedVoice::Preset(p));
                }
                let wanted = chars_of(to_lowercase(name.as_str()).as_str());
                proof {
                    use_type_invariant(self);
                    lemma_map_of(self.voices@);
                }
                let mut j: usize = 0;
                while j < self.voices.len()
                    invariant
                        j <= self.voices.len(),
                        wanted@ == unicode_lowercase(name@),
                        distinct_keys(self.voices@),
                        voice == VoiceValue::<P>::Name(name),
                        !self.view().contains_key(name@),
                        forall|k: int| 0 <= k < j ==> unicode_lowercase(self.voices@[k].0@) != unicode_lowercase(name@),
                    decreases self.voices.len() - j,
                {
                    let lower = to_lowercase(self.voices[j].0.as_str());
                    if same_chars(&chars_of(lower.as_str()), &wanted) {
                        proof {
                            lemma_map_of(self.voices@);
                            let k = self.voices@[j as int].0@;
                            assert(self.view().contains_key(k));
                            assert(self.view()[k] == self.voices@[j as int].1);
                            assert(unicode_lowercase(k) == unicode_lowercase(name@));
                        }
                        return Ok(ResolvedVoice::Preset(&self.voices[j].1));
                    }
                    j = j + 1;
                }
                proof {
                    assert forall|k: Seq<char>| #[trigger] self.view().contains_key(k) implies unicode_lowercase(k) != unicode_lowercase(name@) by {
                        let i = choose|i: int| 0 <= i < self.voices@.len() && self.voices@[i].0@ == k;
                        assert(unicode_lowercase(self.voices@[i].0@) != unicode_lowercase(name@));
                    }
                }
                let mut m = "Voice '".to_owned();
                m.append(name.as_str());
                m.append("' not found in voice presets.");
                Err(m)
            },
            VoiceValue::Object(Ok(p)) => Ok(ResolvedVoice::Custom(p)),
            VoiceValue::Object(Err(e)) => {
                let mut m = "Invalid custom voice object schema: ".to_owned();
                m.append(e.as_str());
                Err(m)
            },
            VoiceValue::Other => Err("Invalid voice type: must be string or object.".to_owned()),
        }
    }
}

} // verus!
