//! The WordPiece tokenizer of the Chinese BERT model.

use vstd::prelude::*;
use std::str::FromStr;
use tokenizers::models::ModelWrapper;
use tokenizers::Tokenizer;

verus! {

#[verifier::external_type_specification]
#[verifier::external_body]
pub struct ExTokenizer(Tokenizer);

/// Each value widened to `i64`.
pub open spec fn widened(v: Seq<u32>) -> Seq<i64> {
    v.map_values(|x: u32| x as i64)
}

fn widen(v: &Vec<u32>) -> (r: Vec<i64>)
    ensures
        r@ == widened(v@),
{
    let mut r: Vec<i64> = Vec::new();
    let mut i: usize = 0;
    while i < v.len()
        invariant
            i <= v.len(),
            r@ == widened(v@).take(i as int),
        decreases v.len() - i,
    {
        r.push(v[i] as i64);
        assert(widened(v@).take(i as int).push(v[i as int] as i64) =~= widened(v@).take(i + 1));
        i = i + 1;
    }
    assert(widened(v@).take(v.len() as int) =~= widened(v@));
    r
}

/// Whether every value is a `u32` widened to `i64`.
pub open spec fn all_u32(v: Seq<i64>) -> bool {
    forall|i: int| 0 <= i < v.len() ==> 0 <= #[trigger] v[i] <= u32::MAX
}

/// What a tokenizer gave back, as plain values: the ids, attention mask and
/// type ids of an encoding, or the text of its error.
pub type RawEncoding = Result<(Vec<u32>, Vec<u32>, Vec<u32>), String>;

/// The BERT inputs as plain values.
pub type BertInputs = Result<(Vec<i64>, Vec<i64>, Vec<i64>), String>;

pub open spec fn raw_view(raw: RawEncoding) -> Result<(Seq<u32>, Seq<u32>, Seq<u32>), Seq<char>> {
    match raw {
        Ok((a, b, c)) => Ok((a@, b@, c@)),
        Err(e) => Err(e@),
    }
}

pub open spec fn inputs_view(r: BertInputs) -> Result<(Seq<i64>, Seq<i64>, Seq<i64>), Seq<char>> {
    match r {
        Ok((a, b, c)) => Ok((a@, b@, c@)),
        Err(e) => Err(e@),
    }
}

/// The BERT inputs made of what the tokenizer gave back: each vector
/// widened to `i64`, or the error text after `Tokenizer encoding error: `.
pub open spec fn spec_bert_inputs(raw: Result<(Seq<u32>, Seq<u32>, Seq<u32>), Seq<char>>) -> Result<(Seq<i64>, Seq<i64>, Seq<i64>), Seq<char>> {
    match raw {
        Ok((a, b, c)) => Ok((widened(a), widened(b), widened(c))),
        Err(e) => Err("Tokenizer encoding error: "@ + e),
    }
}

/// Turns what the tokenizer gave back into BERT inputs.
pub fn bert_inputs(raw: RawEncoding) -> (r: BertInputs)
    ensures
        inputs_view(r) == spec_bert_inputs(raw_view(raw)),
{
    match raw {
        Ok((ids, mask, types)) => Ok((widen(&ids), widen(&mask), widen(&types))),
        Err(e) => {
            let mut m = "Tokenizer encoding error: ".to_owned();
            m.append(e.as_str());
            Err(m)
        },
    }
}

/// What `Tokenizer::encode(text, true)` gives back, as the token ids,
/// attention mask and type ids of the encoding or the text of its error, for
/// the WordPiece tokenizer that the JSON document `tokenizer_json` describes,
/// with its truncation cleared.  Such a tokenizer draws no random numbers,
/// so the result depends on the document and the text alone.
pub uninterp spec fn bert_tokenize(tokenizer_json: Seq<char>, text: Seq<char>) -> Result<(Seq<u32>, Seq<u32>, Seq<u32>), Seq<char>>;

/// Whether `Tokenizer::from_str` accepts the `tokenizer.json` document
/// `tokenizer_json` (its parse depends on the document alone).
pub uninterp spec fn tokenizer_json_parses(tokenizer_json: Seq<char>) -> bool;

/// The text of the error `Tokenizer::from_str` gives for a document it
/// refuses.
pub uninterp spec fn tokenizer_json_error(tokenizer_json: Seq<char>) -> Seq<char>;

/// Whether the model of the tokenizer that the document `tokenizer_json`
/// describes is WordPiece.
pub uninterp spec fn tokenizer_json_is_wordpiece(tokenizer_json: Seq<char>) -> bool;

/// `Tokenizer::from_str`: the tokenizer a `tokenizer.json` document
/// describes, or the text of the parse error.  Whether the document parses,
/// and the error text, are named over the document; nothing is stated of the
/// tokenizer itself, which Verus cannot look into.
#[verifier::external_body]
fn tokenizer_from_json(json: &str) -> (r: Result<Tokenizer, String>)
    ensures
        r is Ok <==> tokenizer_json_parses(json@),
        r matches Err(e) ==> e@ == tokenizer_json_error(json@),
{
    match Tokenizer::from_str(json) {
        Ok(tokenizer) => Ok(tokenizer),
        Err(error) => Err(error.to_string()),
    }
}

/// Whether the held tokenizer's model is WordPiece (`TokenizerImpl::get_model`).
/// A `BertTokenizer` holds the tokenizer parsed from its document (the only
/// way one is made), so the answer is `tokenizer_json_is_wordpiece` of the
/// document.
#[verifier::external_body]
fn model_is_wordpiece(t: &BertTokenizer) -> (r: bool)
    ensures
        r == tokenizer_json_is_wordpiece(t.spec_json()),
{
    match t.tokenizer.get_model() {
        ModelWrapper::WordPiece(_) => true,
        _ => false,
    }
}

/// `TokenizerImpl::with_truncation(None)`: no truncation, so that encoding
/// never computes a truncation length below the special-token count (an
/// underflow that panics).  With `None` the call always succeeds.
#[verifier::external_body]
fn clear_truncation(tokenizer: &mut Tokenizer) {
    let _ = tokenizer.with_truncation(None);
}

/// The tokenizer the BERT inputs are made with: a WordPiece tokenizer, its
/// `tokenizer.json` document, and no truncation.
pub struct BertTokenizer {
    json: String,
    tokenizer: Tokenizer,
}

/// `Tokenizer::encode(text, true)` on the held tokenizer, its encoding taken
/// apart into `Encoding::get_ids`, `get_attention_mask` and `get_type_ids`,
/// and an error rendered as text.  The held tokenizer is the WordPiece
/// tokenizer of the held document with truncation cleared (the only way a
/// `BertTokenizer` is made), so the result is `bert_tokenize` of the
/// document and the text.
#[verifier::external_body]
fn tokenizer_encode(t: &BertTokenizer, text: &str) -> (r: RawEncoding)
    ensures
        raw_view(r) == bert_tokenize(t.spec_json(), text@),
{
    match t.tokenizer.encode(text, true) {
        Ok(encoding) => Ok((
            encoding.get_ids().to_vec(),
            encoding.get_attention_mask().to_vec(),
            encoding.get_type_ids().to_vec(),
        )),
        Err(error) => Err(error.to_string()),
    }
}

impl BertTokenizer {
    /// The `tokenizer.json` document the tokenizer was made from.
    pub closed spec fn spec_json(&self) -> Seq<char> {
        self.json@
    }

    /// The tokenizer a `tokenizer.json` document describes, with its
    /// truncation cleared.  A document that does not parse is refused with
    /// `Failed to load tokenizer: ` and the parse error; one whose model is
    /// not WordPiece (which BERT uses, and which alone encodes without
    /// drawing random numbers) with a message that says so.
    pub fn from_json(json: &str) -> (r: Result<Self, String>)
        ensures
            r is Ok <==> (tokenizer_json_parses(json@) && tokenizer_json_is_wordpiece(json@)),
            r matches Ok(t) ==> t.spec_json() == json@,
            !tokenizer_json_parses(json@) ==> (r matches Err(m) && m@ == "Failed to load tokenizer: "@ + tokenizer_json_error(json@)),
            tokenizer_json_parses(json@) && !tokenizer_json_is_wordpiece(json@)
                ==> (r matches Err(m) && m@ == "Tokenizer model is not WordPiece"@),
    {
        match tokenizer_from_json(json) {
            Ok(mut tokenizer) => {
                clear_truncation(&mut tokenizer);
                let t = BertTokenizer { json: json.to_owned(), tokenizer };
                if !model_is_wordpiece(&t) {
                    return Err("Tokenizer model is not WordPiece".to_owned());
                }
                Ok(t)
            },
            Err(e) => {
                let mut m = "Failed to load tokenizer: ".to_owned();
                m.append(e.as_str());
                proof {
                    assert(m@ == "Failed to load tokenizer: "@ + e@);
                }
                Err(m)
            },
        }
    }

    /// The BERT inputs for `text`: what `bert_inputs` makes of what the
    /// tokenizer gives for `text` (token ids, attention mask and token type
    /// ids, or its error).
    pub fn encode(&self, text: &str) -> (r: BertInputs)
        ensures
            inputs_view(r) == spec_bert_inputs(bert_tokenize(self.spec_json(), text@)),
            r matches Ok((ids, mask, types)) ==> all_u32(ids@) && all_u32(mask@) && all_u32(types@),
    {
        let raw = tokenizer_encode(self, text);
        let ghost raw_v = raw_view(raw);
        let r = bert_inputs(raw);
        proof {
            let rv = inputs_view(r);
            if rv is Ok {
                let (a, b, c) = raw_v->Ok_0;
                let (x, y, z) = rv->Ok_0;
                assert(x == widened(a) && y == widened(b) && z == widened(c));
                assert forall|i: int| 0 <= i < x.len() implies 0 <= #[trigger] x[i] <= u32::MAX by {
                    assert(x[i] == a[i] as i64);
                }
                assert forall|i: int| 0 <= i < y.len() implies 0 <= #[trigger] y[i] <= u32::MAX by {
                    assert(y[i] == b[i] as i64);
                }
                assert forall|i: int| 0 <= i < z.len() implies 0 <= #[trigger] z[i] <= u32::MAX by {
                    assert(z[i] == c[i] as i64);
                }
            }
        }
        r
    }
}

} // verus!
