//! The integer side of autoregressive semantic-token generation: which
//! logits a step samples from, which tokens the repetition penalty applies
//! to, when generation stops, what it yields, and the tokens used when it
//! yields nothing.

use vstd::prelude::*;

verus! {

/// The token that ends generation.
pub const EOS_TOKEN: i64 = 1024;

/// The most tokens one segment may generate.
pub const MAX_STEPS: usize = 1500;

/// The number of logits of one step: the 1024 semantic tokens and EOS.
pub const VOCAB_WITH_EOS: usize = 1025;

/// Where the logits of the last position start in a flat output of `len`
/// values: the last 1025 of them where there are that many, all otherwise.
pub fn logits_window_start(len: usize) -> (s: usize)
    ensures
        len >= VOCAB_WITH_EOS ==> s == len - VOCAB_WITH_EOS,
        len < VOCAB_WITH_EOS ==> s == 0,
{
    if len >= VOCAB_WITH_EOS { len - VOCAB_WITH_EOS } else { 0 }
}

/// Whether `t` is one of the 1024 semantic tokens.
pub open spec fn is_semantic_token(t: i64) -> bool {
    0 <= t <= 1023
}

/// A token as it is kept: clamped to the semantic range `0..=1023`.
pub open spec fn clamp_token(t: i64) -> i64 {
    if t < 0 { 0 } else if t > 1023 { 1023 } else { t }
}

/// Every token clamped to the semantic range, as the synthesisers take them.
pub fn clamp_semantic_tokens(tokens: &[i64]) -> (r: Vec<i64>)
    ensures
        r.len() == tokens.len(),
        forall|i: int| 0 <= i < r.len() ==> r[i] == clamp_token(#[trigger] tokens[i]),
{
    let mut r: Vec<i64> = Vec::new();
    let mut i: usize = 0;
    while i < tokens.len()
        invariant
            i <= tokens.len(),
            r.len() == i,
            forall|k: int| 0 <= k < i ==> r[k] == clamp_token(#[trigger] tokens[k]),
        decreases tokens.len() - i,
    {
        let t = tokens[i];
        r.push(if t < 0 { 0 } else if t > 1023 { 1023 } else { t });
        i = i + 1;
    }
    r
}

/// The number of stand-in tokens for a text of `text_len` symbols: twice
/// the length, kept between 10 and 200.
pub open spec fn fallback_len(text_len: nat) -> nat {
    if 2 * text_len < 10 { 10 } else if 2 * text_len > 200 { 200 } else { 2 * text_len }
}

/// The tokens used when generation yields none: `0, 1, 2, ...`, as many as
/// `fallback_len` says.
pub fn fallback_semantic_tokens(text_len: usize) -> (r: Vec<i64>)
    ensures
        r.len() == fallback_len(text_len as nat),
        forall|i: int| 0 <= i < r.len() ==> #[trigger] r[i] == i % 1024,
{
    let n: usize = if text_len >= 100 { 200 } else if text_len * 2 < 10 { 10 } else { text_len * 2 };
    let mut r: Vec<i64> = Vec::new();
    let mut i: usize = 0;
    while i < n
        invariant
            i <= n <= 200,
            r.len() == i,
            forall|k: int| 0 <= k < i ==> #[trigger] r[k] == k % 1024,
        decreases n - i,
    {
        r.push((i % 1024) as i64);
        i = i + 1;
    }
    r
}

/// Whether `t` is a token a logit exists for.
pub open spec fn in_vocab(t: i64, vocab: nat) -> bool {
    0 <= t < vocab
}

/// Whether `t` occurs among the first `n` tokens of `h`.
pub open spec fn occurs_before(h: Seq<i64>, n: int, t: i64) -> bool {
    exists|k: int| 0 <= k < n && h[k] == t
}

/// Some occurrence of `x` among the first `n` tokens of `h` comes before
/// every occurrence of `y`.
pub open spec fn seen_first(h: Seq<i64>, n: int, x: i64, y: i64) -> bool {
    exists|k: int| 0 <= k < n && h[k] == x && !occurs_before(h, k + 1, y)
}

/// The logits the repetition penalty applies to: each token of the history
/// that has a logit, once, in the order of first occurrence.
pub fn penalty_indices(history: &[i64], vocab: usize) -> (r: Vec<usize>)
    ensures
        forall|a: int, b: int| 0 <= a < b < r.len() ==> r[a] != r[b],
        forall|a: int, b: int| 0 <= a < b < r.len()
            ==> seen_first(history@, history.len() as int, #[trigger] r[a] as i64, #[trigger] r[b] as i64),
        forall|k: int| 0 <= k < r.len() ==> (#[trigger] r[k]) < vocab,
        forall|t: i64| in_vocab(t, vocab as nat) ==> (occurs_before(history@, history.len() as int, t)
            <==> exists|k: int| 0 <= k < r.len() && #[trigger] r[k] == t),
{
    let mut seen: Vec<bool> = Vec::new();
    let mut j: usize = 0;
    while j < vocab
        invariant
            j <= vocab,
            seen.len() == j,
            forall|k: int| 0 <= k < j ==> !(#[trigger] seen[k]),
        decreases vocab - j,
    {
        seen.push(false);
        j = j + 1;
    }
    let mut r: Vec<usize> = Vec::new();
    let mut i: usize = 0;
    while i < history.len()
        invariant
            i <= history.len(),
            seen.len() == vocab,
            forall|a: int, b: int| 0 <= a < b < r.len() ==> r[a] != r[b],
            forall|a: int, b: int| 0 <= a < b < r.len()
                ==> seen_first(history@, i as int, #[trigger] r[a] as i64, #[trigger] r[b] as i64),
            forall|k: int| 0 <= k < r.len() ==> (#[trigger] r[k]) < vocab && r[k] <= i64::MAX,
            forall|k: int| 0 <= k < r.len() ==> seen[#[trigger] r[k] as int],
            forall|t: i64| #![trigger in_vocab(t, vocab as nat)] in_vocab(t, vocab as nat) ==>
                (seen[t as int] <==> occurs_before(history@, i as int, t)),
            forall|t: i64| in_vocab(t, vocab as nat) ==> (occurs_before(history@, i as int, t)
                <==> exists|k: int| 0 <= k < r.len() && #[trigger] r[k] == t),
        decreases history.len() - i,
    {
        let t = history[i];
        let ghost old_r = r@;
        let ghost old_seen = seen@;
        if t >= 0 && (t as u64) < (vocab as u64) {
            let idx = t as usize;
            if !seen[idx] {
                seen.set(idx, true);
                r.push(idx);
                assert forall|a: int, b: int| 0 <= a < b < r.len() implies r[a] != r[b] by {
                    if b == r.len() - 1 {
                        assert(old_seen[old_r[a] as int]);
                        assert(in_vocab(t, vocab as nat));
                    }
                }
                assert forall|a: int, b: int| 0 <= a < b < r.len()
                    implies seen_first(history@, i + 1, #[trigger] r[a] as i64, #[trigger] r[b] as i64) by {
                    assert(r[a] == old_r[a]);
                    if b == r.len() - 1 {
                        let x = old_r[a] as i64;
                        assert(old_r[a] < vocab && old_r[a] <= i64::MAX);
                        assert(in_vocab(x, vocab as nat));
                        assert(old_r[a] == x);
                        assert(occurs_before(history@, i as int, x));
                        let k = choose|k: int| 0 <= k < i && history@[k] == x;
                        assert(in_vocab(t, vocab as nat));
                        assert(!old_seen[t as int]);
                        assert(!occurs_before(history@, i as int, t));
                        if occurs_before(history@, k + 1, t) {
                            let k2 = choose|k2: int| 0 <= k2 < k + 1 && history@[k2] == t;
                            assert(occurs_before(history@, i as int, t));
                        }
                        assert(r[b] as i64 == t);
                    } else {
                        assert(r[b] == old_r[b]);
                        assert(seen_first(history@, i as int, old_r[a] as i64, old_r[b] as i64));
                    }
                }
            }
        }
        assert forall|a: int, b: int| 0 <= a < b < r.len()
            implies seen_first(history@, i + 1, #[trigger] r[a] as i64, #[trigger] r[b] as i64) by {
            if b < old_r.len() {
                assert(r[a] == old_r[a] && r[b] == old_r[b]);
                assert(seen_first(history@, i as int, old_r[a] as i64, old_r[b] as i64));
            }
        }
        proof {
            assert forall|t2: i64| #![trigger in_vocab(t2, vocab as nat)] in_vocab(t2, vocab as nat) implies
                (seen[t2 as int] <==> occurs_before(history@, i + 1, t2)) by {
                assert(in_vocab(t2, vocab as nat));
                if t2 == t {
                    assert(history@[i as int] == t);
                } else {
                    if occurs_before(history@, i + 1, t2) {
                        let k = choose|k: int| 0 <= k < i + 1 && history@[k] == t2;
                        assert(occurs_before(history@, i as int, t2));
                    }
                    if occurs_before(history@, i as int, t2) {
                        let k = choose|k: int| 0 <= k < i && history@[k] == t2;
                        assert(history@[k] == t2);
                    }
                }
            }
            assert forall|t2: i64| in_vocab(t2, vocab as nat) implies (occurs_before(history@, i + 1, t2)
                <==> exists|k: int| 0 <= k < r.len() && #[trigger] r[k] == t2) by {
                assert(in_vocab(t2, vocab as nat));
                if t2 == t {
                    assert(history@[i as int] == t);
                    if old_seen[t2 as int] {
                        assert(occurs_before(history@, i as int, t2));
                        let k = choose|k: int| 0 <= k < old_r.len() && #[trigger] old_r[k] == t2;
                        assert(r[k] == t2);
                    } else {
                        assert(r[r.len() - 1] == t2);
                    }
                } else {
                    if occurs_before(history@, i + 1, t2) {
                        let k = choose|k: int| 0 <= k < i + 1 && history@[k] == t2;
                        assert(occurs_before(history@, i as int, t2));
                        let k2 = choose|k2: int| 0 <= k2 < old_r.len() && #[trigger] old_r[k2] == t2;
                        assert(r[k2] == t2);
                    }
                    if exists|k: int| 0 <= k < r.len() && #[trigger] r[k] == t2 {
                        let k = choose|k: int| 0 <= k < r.len() && #[trigger] r[k] == t2;
                        if k < old_r.len() {
                            assert(old_r[k] == t2);
                            assert(occurs_before(history@, i as int, t2));
                            let k3 = choose|k3: int| 0 <= k3 < i && history@[k3] == t2;
                            assert(history@[k3] == t2);
                        }
                    }
                }
            }
        }
        i = i + 1;
    }
    r
}

/// What a generation step decides.
#[derive(Debug, Clone, Copy, PartialEq, Eq, Structural)]
pub enum DecodeStep {
    /// Run the decoder for another token.
    Continue,
    /// Generation is over.
    Stop,
}

/// The state of the generation loop of one segment: the tokens kept so far,
/// the whole token history the repetition penalty looks at, and the number
/// of steps taken.
pub struct SemanticDecoder {
    generated: Vec<i64>,
    history: Vec<i64>,
    steps: usize,
    finished: bool,
}

impl SemanticDecoder {
    pub closed spec fn spec_generated(&self) -> Seq<i64> {
        self.generated@
    }

    pub closed spec fn spec_history(&self) -> Seq<i64> {
        self.history@
    }

    pub closed spec fn spec_steps(&self) -> nat {
        self.steps as nat
    }

    pub closed spec fn is_finished(&self) -> bool {
        self.finished
    }

    /// The decoder state is consistent: no more steps than allowed,
    /// finished once the limit is reached, and every kept token a semantic
    /// token.
    #[verifier::type_invariant]
    closed spec fn wf(&self) -> bool {
        &&& self.steps <= MAX_STEPS
        &&& self.generated@.len() == self.steps
        &&& self.steps == MAX_STEPS ==> self.finished
        &&& forall|i: int| 0 <= i < self.generated@.len() ==> is_semantic_token(#[trigger] self.generated@[i])
    }

    /// A decoder whose history starts with the prompt's semantic tokens.
    pub fn new(prompt_tokens: Vec<i64>) -> (d: Self)
        ensures
            !d.is_finished(),
            d.spec_generated() == Seq::<i64>::empty(),
            d.spec_history() == prompt_tokens@,
            d.spec_steps() == 0,
    {
        SemanticDecoder { generated: Vec::new(), history: prompt_tokens, steps: 0, finished: false }
    }

    /// The token history the next sample is penalised by.
    pub fn history(&self) -> (h: &Vec<i64>)
        ensures
            h@ == self.spec_history(),
    {
        &self.history
    }

    /// Takes the token sampled at this step.  EOS ends generation and is not
    /// kept; any other token is kept clamped to the semantic range and
    /// recorded in the history as sampled, and generation ends after the
    /// 1500th kept token.  Once generation has ended, every step answers
    /// `Stop` and changes nothing.
    pub fn step(&mut self, token: i64) -> (r: DecodeStep)
        ensures
            final(self).spec_steps() <= MAX_STEPS,
            forall|i: int| 0 <= i < final(self).spec_generated().len() ==>
                is_semantic_token(#[trigger] final(self).spec_generated()[i]),
            old(self).is_finished() ==> r == DecodeStep::Stop && *final(self) == *old(self),
            !old(self).is_finished() && token == EOS_TOKEN ==> {
                &&& r == DecodeStep::Stop
                &&& final(self).is_finished()
                &&& final(self).spec_generated() == old(self).spec_generated()
                &&& final(self).spec_history() == old(self).spec_history()
                &&& final(self).spec_steps() == old(self).spec_steps()
            },
            !old(self).is_finished() && token != EOS_TOKEN ==> {
                &&& final(self).spec_generated() == old(self).spec_generated().push(clamp_token(token))
                &&& final(self).spec_history() == old(self).spec_history().push(token)
                &&& final(self).spec_steps() == old(self).spec_steps() + 1
                &&& (r == DecodeStep::Stop) == (final(self).spec_steps() == MAX_STEPS)
                &&& final(self).is_finished() == (r == DecodeStep::Stop)
            },
    {
        proof {
            use_type_invariant(&*self);
        }
        if self.finished {
            return DecodeStep::Stop;
        }
        let mut cur = SemanticDecoder::new(Vec::new());
        std::mem::swap(&mut cur, self);
        let SemanticDecoder { mut generated, mut history, steps, finished: _ } = cur;
        if token == EOS_TOKEN {
            *self = SemanticDecoder { generated, history, steps, finished: true };
            return DecodeStep::Stop;
        }
        let kept = if token < 0 { 0 } else if token > 1023 { 1023 } else { token };
        generated.push(kept);
        history.push(token);
        let steps = steps + 1;
        let done = steps == MAX_STEPS;
        *self = SemanticDecoder { generated, history, steps, finished: done };
        if done {
            DecodeStep::Stop
        } else {
            DecodeStep::Continue
        }
    }

    /// The tokens of the segment: those generated, or the stand-in tokens
    /// for a text of `text_len` symbols when none was.
    pub fn finish(self, text_len: usize) -> (r: Vec<i64>)
        ensures
            1 <= r.len() <= MAX_STEPS,
            forall|i: int| 0 <= i < r.len() ==> is_semantic_token(#[trigger] r[i]),
            self.spec_generated().len() > 0 ==> r@ == self.spec_generated(),
            self.spec_generated().len() == 0 ==> r.len() == fallback_len(text_len as nat)
                && forall|i: int| 0 <= i < r.len() ==> #[trigger] r[i] == i % 1024,
    {
        proof {
            use_type_invariant(&self);
        }
        if self.generated.len() == 0 {
            fallback_semantic_tokens(text_len)
        } else {
            self.generated
        }
    }
}

/// The number of flow-matching steps: the requested number, or the model's
/// default when none is requested.
pub fn flow_steps(requested: usize, default_steps: usize) -> (n: usize)
    ensures
        n == if requested > 0 { requested } else { default_steps },
{
    if requested > 0 { requested } else { default_steps }
}

/// The number of mel frames for `num_tokens` semantic tokens: four per
/// token, at least 32.
pub fn mel_frame_count(num_tokens: usize) -> (n: usize)
    requires
        num_tokens <= usize::MAX / 4,
    ensures
        n == if 4 * num_tokens < 32 { 32 } else { 4 * num_tokens },
{
    if num_tokens * 4 < 32 { 32 } else { num_tokens * 4 }
}

/// The number of candidates top-k sampling keeps among `available`
/// candidates: `top_k`, at least one and at most all of them.
pub fn top_k_count(top_k: usize, available: usize) -> (n: usize)
    ensures
        n == if top_k < 1 { if available < 1 { available } else { 1 } } else if top_k < available { top_k } else { available },
{
    let k = if top_k < 1 { 1 } else { top_k };
    if k < available { k } else { available }
}

} // verus!
