//! How a synthesis request is prepared: the reference audio's duration, the
//! prompt text and the text of each segment.

use vstd::prelude::*;
use crate::engine::model_manager::{language_key, normalized_language};
use crate::text::chars::{chars_of, string_from, string_views, trim_chars, trim_seq};
use crate::text::segmentation::{segment_text, spec_segment_text};
use crate::text::bert_align::{bert_selection, paired_len, select_bert_chars};

verus! {

/// Why a reference recording cannot be used.
#[derive(Debug, Clone, Copy, PartialEq, Eq, Structural)]
pub enum ReferenceAudioError {
    /// There are no samples, or no sample rate.
    Missing,
    /// The recording is shorter than 3 or longer than 10 seconds.
    OutOfRange,
}

/// Checks that a reference recording of `num_samples` samples at
/// `sample_rate` Hz lasts from 3 to 10 seconds.  The duration is compared
/// exactly, as the fraction `num_samples / sample_rate`.
pub fn check_reference_audio(num_samples: usize, sample_rate: u32) -> (r: Result<(), ReferenceAudioError>)
    ensures
        (sample_rate == 0 || num_samples == 0) ==> r == Err::<(), ReferenceAudioError>(ReferenceAudioError::Missing),
        (sample_rate > 0 && num_samples > 0) ==> {
            &&& (3 * sample_rate <= num_samples <= 10 * sample_rate) ==> r is Ok
            &&& !(3 * sample_rate <= num_samples <= 10 * sample_rate) ==>
                r == Err::<(), ReferenceAudioError>(ReferenceAudioError::OutOfRange)
        },
{
    if sample_rate == 0 || num_samples == 0 {
        return Err(ReferenceAudioError::Missing);
    }
    let sr = sample_rate as u64;
    let n = num_samples as u64;
    if 3 * sr <= n && n <= 10 * sr {
        Ok(())
    } else {
        Err(ReferenceAudioError::OutOfRange)
    }
}

/// The message for a reference recording without samples.
pub fn missing_reference_message() -> (m: &'static str)
    ensures
        m@ == "A non-empty reference audio is required"@,
{
    "A non-empty reference audio is required"
}

/// The marks a prompt may end with.
pub open spec fn is_sentence_end(c: char) -> bool {
    c == '。' || c == '.' || c == '！' || c == '!' || c == '？' || c == '?'
}

/// The marks a segment may end with: the sentence ends and commas.
pub open spec fn is_segment_end(c: char) -> bool {
    is_sentence_end(c) || c == '，' || c == ','
}

/// The full stop appended to unterminated text: `.` for English, `。`
/// otherwise.
pub open spec fn terminator(lang: Seq<char>) -> char {
    if language_key(lang) == "en"@ { '.' } else { '。' }
}

/// The prompt text used for conditioning: the trimmed transcript, a stock
/// greeting when there is none, and a full stop added where it does not end
/// a sentence.
pub open spec fn spec_prompt_text(prompt: Seq<char>, lang: Seq<char>) -> Seq<char> {
    let t = trim_seq(prompt);
    if t.len() == 0 {
        if language_key(lang) == "en"@ { "Hello."@ } else { "你好。"@ }
    } else if !is_sentence_end(t.last()) {
        t.push(terminator(lang))
    } else {
        t
    }
}

/// The text of one segment as it is synthesised: nothing for a blank
/// segment, otherwise the trimmed text with a full stop added where it ends
/// with neither a sentence end nor a comma.
pub open spec fn spec_segment_for(segment: Seq<char>, lang: Seq<char>) -> Option<Seq<char>> {
    let t = trim_seq(segment);
    if t.len() == 0 {
        None
    } else if !is_segment_end(t.last()) {
        Some(t.push(terminator(lang)))
    } else {
        Some(t)
    }
}

fn is_english(lang: &str) -> (b: bool)
    ensures
        b == (language_key(lang@) == "en"@),
{
    let k = normalized_language(lang);
    let en = chars_of("en");
    crate::text::chars::same_chars(&chars_of(k.as_str()), &en)
}

fn terminator_of(lang: &str) -> (c: char)
    ensures
        c == terminator(lang@),
{
    if is_english(lang) { '.' } else { '。' }
}

/// Prepares the transcript of the reference recording for conditioning.
pub fn prompt_text_for(prompt_text: &str, prompt_lang: &str) -> (r: String)
    ensures
        r@ == spec_prompt_text(prompt_text@, prompt_lang@),
{
    let t = trim_chars(&chars_of(prompt_text));
    if t.len() == 0 {
        if is_english(prompt_lang) {
            "Hello.".to_owned()
        } else {
            "你好。".to_owned()
        }
    } else {
        let last = t[t.len() - 1];
        if !(last == '。' || last == '.' || last == '！' || last == '!' || last == '？' || last == '?') {
            let mut v = t;
            v.push(terminator_of(prompt_lang));
            string_from(&v)
        } else {
            string_from(&t)
        }
    }
}

/// Prepares one segment for synthesis; `None` for a blank segment.
pub fn segment_text_for(segment: &str, text_lang: &str) -> (r: Option<String>)
    ensures
        match (r, spec_segment_for(segment@, text_lang@)) {
            (Some(s), Some(t)) => s@ == t,
            (None, None) => true,
            _ => false,
        },
{
    let t = trim_chars(&chars_of(segment));
    if t.len() == 0 {
        None
    } else {
        let last = t[t.len() - 1];
        if !(last == '。' || last == '.' || last == '！' || last == '!' || last == '？' || last == '?'
            || last == '，' || last == ',') {
            let mut v = t;
            v.push(terminator_of(text_lang));
            Some(string_from(&v))
        } else {
            Some(string_from(&t))
        }
    }
}

/// The characters of an optional string.
pub open spec fn opt_chars(o: Option<String>) -> Option<Seq<char>> {
    match o {
        Some(s) => Some(s@),
        None => None,
    }
}

/// The segments a text is synthesised in: the text cut by the named method,
/// each piece prepared for synthesis, `None` standing for a blank piece
/// (which is skipped, though the pause before it is kept).
pub fn plan_segments(text: &str, method: &str, text_lang: &str) -> (r: Vec<Option<String>>)
    ensures
        r.len() == spec_segment_text(text@, method@).len(),
        forall|i: int| 0 <= i < r.len() ==> opt_chars(#[trigger] r[i])
            == spec_segment_for(spec_segment_text(text@, method@)[i], text_lang@),
{
    let segs = segment_text(text, method);
    let ghost views = string_views(segs@);
    let mut r: Vec<Option<String>> = Vec::new();
    let mut i: usize = 0;
    while i < segs.len()
        invariant
            i <= segs.len(),
            views == string_views(segs@),
            views == spec_segment_text(text@, method@),
            r.len() == i,
            forall|k: int| 0 <= k < i ==> opt_chars(#[trigger] r[k]) == spec_segment_for(views[k], text_lang@),
        decreases segs.len() - i,
    {
        let p = segment_text_for(segs[i].as_str(), text_lang);
        assert(views[i as int] == segs@[i as int]@);
        r.push(p);
        i = i + 1;
    }
    r
}

/// Where a text's phone-level BERT features come from.
#[derive(Debug, Clone)]
pub enum BertPlan {
    /// All rows are zero.
    Zeros,
    /// The BERT model reads this text, whose characters have these phone
    /// counts.
    Encode(String, Vec<usize>),
}

/// Decides how the BERT features of a normalised text are made: English
/// text gets zero rows; Chinese text needs the tokenizer, and is encoded
/// unless it has no character the Chinese BERT model reads, in which case it
/// too gets zero rows.
pub fn bert_plan(language: &str, has_tokenizer: bool, norm_text: &str, word2ph: &[usize]) -> (r: Result<BertPlan, String>)
    ensures
        language_key(language@) == "en"@ ==> r matches Ok(BertPlan::Zeros),
        language_key(language@) != "en"@ && !has_tokenizer ==> (r matches Err(m)
            && m@ == "BERT tokenizer is required for Chinese text"@),
        language_key(language@) != "en"@ && has_tokenizer
            && bert_selection(norm_text@, word2ph@, paired_len(norm_text@.len(), word2ph@.len())).0.len() == 0
            ==> r matches Ok(BertPlan::Zeros),
        language_key(language@) != "en"@ && has_tokenizer
            && bert_selection(norm_text@, word2ph@, paired_len(norm_text@.len(), word2ph@.len())).0.len() > 0
            ==> (r matches Ok(BertPlan::Encode(t, w))
            && t@ == bert_selection(norm_text@, word2ph@, paired_len(norm_text@.len(), word2ph@.len())).0
            && w@ == bert_selection(norm_text@, word2ph@, paired_len(norm_text@.len(), word2ph@.len())).1),
{
    if is_english(language) {
        return Ok(BertPlan::Zeros);
    }
    if !has_tokenizer {
        return Err("BERT tokenizer is required for Chinese text".to_owned());
    }
    let (cs, ws) = select_bert_chars(&chars_of(norm_text), word2ph);
    if cs.len() == 0 {
        Ok(BertPlan::Zeros)
    } else {
        Ok(BertPlan::Encode(string_from(&cs), ws))
    }
}

} // verus!
