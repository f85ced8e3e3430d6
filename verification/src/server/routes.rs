//! What the speech, model-list and voice-list endpoints decide and answer,
//! apart from the HTTP plumbing: input checks, error classification, the
//! listings, response headers and the event-stream framing of audio.

use vstd::prelude::*;
use crate::audio::AudioFormat;
use crate::server::error::AppError;
use crate::server::schema::{ModelListResponse, ModelObject, VoiceListResponse, VoiceObject};
use crate::text::chars::{chars_of, string_from, matches_at};

verus! {

/// The most characters a speech request may ask for.
pub const MAX_INPUT_CHARS: usize = 4096;

/// The number of audio bytes carried by one server-sent event.
pub const SSE_CHUNK_BYTES: usize = 8192;

/// The lower-case hexadecimal digit for `d < 16`.
pub open spec fn hex_digit(d: u8) -> char {
    if d < 10 {
        ((d + 48) as u8) as char
    } else {
        ((d + 87) as u8) as char
    }
}

/// Each byte as two lower-case hexadecimal digits, high digit first.
pub open spec fn hex_seq(s: Seq<u8>) -> Seq<char>
    decreases s.len(),
{
    if s.len() == 0 {
        Seq::empty()
    } else {
        hex_seq(s.drop_last()) + seq![hex_digit(s.last() / 16), hex_digit(s.last() % 16)]
    }
}

fn hex_char(d: u8) -> (c: char)
    requires
        d < 16,
    ensures
        c == hex_digit(d),
{
    if d < 10 {
        (d + 48) as char
    } else {
        (d + 87) as char
    }
}

/// The hexadecimal digits of `data[start..end]`.
fn hex_range(data: &[u8], start: usize, end: usize) -> (r: Vec<char>)
    requires
        start <= end <= data.len(),
    ensures
        r@ == hex_seq(data@.subrange(start as int, end as int)),
{
    let mut r: Vec<char> = Vec::new();
    let mut i: usize = start;
    assert(data@.subrange(start as int, start as int) =~= Seq::<u8>::empty());
    while i < end
        invariant
            start <= i <= end <= data.len(),
            r@ == hex_seq(data@.subrange(start as int, i as int)),
        decreases end - i,
    {
        let b = data[i];
        r.push(hex_char(b / 16));
        r.push(hex_char(b % 16));
        let ghost next = data@.subrange(start as int, i + 1);
        assert(next.drop_last() =~= data@.subrange(start as int, i as int));
        assert(next.last() == b);
        i = i + 1;
    }
    r
}

/// Lower-case hexadecimal encoding of `data`, two digits per byte.
pub fn encode(data: &[u8]) -> (s: String)
    ensures
        s@ == hex_seq(data@),
{
    let r = hex_range(data, 0, data.len());
    assert(data@.subrange(0, data.len() as int) =~= data@);
    string_from(&r)
}

/// One server-sent event carrying `chunk`: `data: `, its hexadecimal
/// encoding and a blank line.
pub open spec fn sse_event(chunk: Seq<u8>) -> Seq<char> {
    "data: "@ + hex_seq(chunk) + "\n\n"@
}

/// The events that carry `data`: consecutive chunks of 8192 bytes, the last
/// one shorter where the length is not a multiple of 8192.
pub open spec fn sse_events_of(data: Seq<u8>) -> Seq<Seq<char>>
    decreases data.len(),
{
    if data.len() == 0 {
        Seq::empty()
    } else {
        let n: int = if data.len() < SSE_CHUNK_BYTES { data.len() as int } else { SSE_CHUNK_BYTES as int };
        seq![sse_event(data.take(n))] + sse_events_of(data.skip(n))
    }
}

/// The body of an event-stream response that carries `audio`, one event at
/// a time.
pub fn sse_events(audio: &[u8]) -> (r: Vec<String>)
    ensures
        r@.map_values(|e: String| e@) == sse_events_of(audio@),
{
    let mut r: Vec<String> = Vec::new();
    let mut start: usize = 0;
    assert(audio@.skip(0) =~= audio@);
    while start < audio.len()
        invariant
            start <= audio.len(),
            r@.map_values(|e: String| e@) + sse_events_of(audio@.skip(start as int)) == sse_events_of(audio@),
        decreases audio.len() - start,
    {
        let rest = audio.len() - start;
        let n: usize = if rest < SSE_CHUNK_BYTES { rest } else { SSE_CHUNK_BYTES };
        let hex = hex_range(audio, start, start + n);
        let mut ev = "data: ".to_owned();
        ev.append(string_from(&hex).as_str());
        ev.append("\n\n");
        let ghost tail = audio@.skip(start as int);
        assert(tail.take(n as int) =~= audio@.subrange(start as int, start + n));
        assert(tail.skip(n as int) =~= audio@.skip(start + n));
        assert(ev@ == sse_event(tail.take(n as int)));
        let ghost before = r@.map_values(|e: String| e@);
        r.push(ev);
        assert(r@.map_values(|e: String| e@) =~= before.push(sse_event(tail.take(n as int))));
        assert(sse_events_of(tail) == seq![sse_event(tail.take(n as int))] + sse_events_of(tail.skip(n as int)));
        assert(before.push(sse_event(tail.take(n as int))) + sse_events_of(audio@.skip(start + n))
            =~= before + sse_events_of(tail));
        start = start + n;
    }
    assert(audio@.skip(audio.len() as int) =~= Seq::<u8>::empty());
    assert(r@.map_values(|e: String| e@) + Seq::<Seq<char>>::empty() =~= r@.map_values(|e: String| e@));
    r
}

/// A body of `n` bytes is carried by `n / 8192` events, rounded up.
pub proof fn lemma_sse_event_count(audio: Seq<u8>)
    ensures
        sse_events_of(audio).len() == (audio.len() + 8191) / 8192,
    decreases audio.len(),
{
    if audio.len() > 0 {
        let n: int = if audio.len() < SSE_CHUNK_BYTES { audio.len() as int } else { SSE_CHUNK_BYTES as int };
        lemma_sse_event_count(audio.skip(n));
    }
}

/// The decimal digits of `n`.
pub open spec fn decimal_seq(n: nat) -> Seq<char>
    decreases n,
{
    if n < 10 {
        seq![((n + 48) as u8) as char]
    } else {
        decimal_seq(n / 10) + seq![((n % 10 + 48) as u8) as char]
    }
}

fn decimal_chars(n: usize) -> (r: Vec<char>)
    ensures
        r@ == decimal_seq(n as nat),
    decreases n,
{
    if n < 10 {
        let d = n as u8;
        vec![(d + 48) as char]
    } else {
        let mut r = decimal_chars(n / 10);
        let d = (n % 10) as u8;
        r.push((d + 48) as char);
        r
    }
}

/// The decimal representation of `n`.
pub fn decimal_string(n: usize) -> (s: String)
    ensures
        s@ == decimal_seq(n as nat),
{
    string_from(&decimal_chars(n))
}

/// Checks the length of the text to synthesise: 1 to 4096 characters.
pub fn validate_input(input: &str) -> (r: Result<(), AppError>)
    ensures
        input@.len() == 0 ==> (r matches Err(AppError::BadRequest(m, Some(p), Some(c)))
            && m@ == "Input text cannot be empty."@ && p@ == "input"@ && c@ == "empty_input"@),
        input@.len() > MAX_INPUT_CHARS ==> (r matches Err(AppError::BadRequest(m, Some(p), Some(c)))
            && m@ == "Input text exceeds maximum length of 4096 characters."@ && p@ == "input"@
            && c@ == "input_too_long"@),
        (0 < input@.len() <= MAX_INPUT_CHARS) ==> r is Ok,
{
    let n = input.unicode_len();
    if n == 0 {
        Err(AppError::BadRequest("Input text cannot be empty.".to_owned(), Some("input"), Some("empty_input")))
    } else if n > MAX_INPUT_CHARS {
        Err(
            AppError::BadRequest(
                "Input text exceeds maximum length of 4096 characters.".to_owned(),
                Some("input"),
                Some("input_too_long"),
            ),
        )
    } else {
        Ok(())
    }
}

/// The error a speed outside 0.25 to 4.0 is answered with.
pub fn invalid_speed_error() -> (e: AppError)
    ensures
        e matches AppError::BadRequest(m, Some(p), Some(c)) && m@ == "Speed must be between 0.25 and 4.0."@
            && p@ == "speed"@ && c@ == "invalid_speed"@,
{
    AppError::BadRequest("Speed must be between 0.25 and 4.0.".to_owned(), Some("speed"), Some("invalid_speed"))
}

/// The error a voice that cannot be resolved is answered with.
pub fn invalid_voice_error(reason: &str) -> (e: AppError)
    ensures
        e matches AppError::NotFound(m, Some(p), Some(c)) && m@ == "Invalid voice: "@ + reason@
            && p@ == "voice"@ && c@ == "invalid_voice"@,
{
    let mut m = "Invalid voice: ".to_owned();
    m.append(reason);
    AppError::NotFound(m, Some("voice"), Some("invalid_voice"))
}

/// The error a request is answered with when every synthesis slot is busy.
pub fn rate_limit_error() -> (e: AppError)
    ensures
        e matches AppError::RateLimit(m) && m@ == "Server concurrency limit reached. Please retry shortly."@,
{
    AppError::RateLimit("Server concurrency limit reached. Please retry shortly.".to_owned())
}

/// Whether `pat` occurs somewhere in `s`.
pub open spec fn contains_seq(s: Seq<char>, pat: Seq<char>) -> bool {
    exists|i: int| 0 <= i && i + pat.len() <= s.len() && #[trigger] s.skip(i).take(pat.len() as int) == pat
}

fn contains_chars(s: &[char], pat: &[char]) -> (b: bool)
    ensures
        b == contains_seq(s@, pat@),
{
    if pat.len() == 0 {
        assert(s@.skip(0).take(0) =~= pat@);
        return true;
    }
    if pat.len() > s.len() {
        return false;
    }
    let last = s.len() - pat.len();
    let mut i: usize = 0;
    while i <= last
        invariant
            0 < pat.len() <= s.len(),
            last == s.len() - pat.len(),
            i <= last + 1,
            forall|k: int| 0 <= k < i ==> !(k + pat@.len() <= s@.len() && #[trigger] s@.skip(k).take(pat@.len() as int) == pat@),
        decreases last + 1 - i,
    {
        if matches_at(s, i, pat) {
            return true;
        }
        i = i + 1;
    }
    assert forall|k: int| 0 <= k && k + pat@.len() <= s@.len() implies #[trigger] s@.skip(k).take(pat@.len() as int) != pat@ by {
        assert(k < i);
    }
    false
}

/// The message of a synthesis refused for want of a reference recording.
pub open spec fn missing_reference_text() -> Seq<char> {
    "A non-empty reference audio is required"@
}

/// Turns the error of a failed synthesis into the answer: a `404` with the
/// code `model_not_found` when its message says something was `not found`;
/// a `400` with the code `missing_reference_audio` when the request came
/// without a reference recording; and a `500` whose message begins
/// `TTS synthesis error: ` otherwise.
pub fn classify_synthesis_error(message: &str) -> (e: AppError)
    ensures
        contains_seq(message@, "not found"@) ==> (e matches AppError::NotFound(m, Some(p), Some(c))
            && m@ == message@ && p@ == "model"@ && c@ == "model_not_found"@),
        !contains_seq(message@, "not found"@) && message@ == missing_reference_text() ==> (
            e matches AppError::BadRequest(m, Some(p), Some(c))
            && m@ == message@ && p@ == "voice"@ && c@ == "missing_reference_audio"@),
        !contains_seq(message@, "not found"@) && message@ != missing_reference_text() ==> (
            e matches AppError::Internal(m) && m@ == "TTS synthesis error: "@ + message@),
{
    let msg = chars_of(message);
    let pat = chars_of("not found");
    if contains_chars(&msg, &pat) {
        AppError::NotFound(message.to_owned(), Some("model"), Some("model_not_found"))
    } else if crate::text::chars::same_chars(&msg, &chars_of("A non-empty reference audio is required")) {
        AppError::BadRequest(message.to_owned(), Some("voice"), Some("missing_reference_audio"))
    } else {
        let mut m = "TTS synthesis error: ".to_owned();
        m.append(message);
        AppError::Internal(m)
    }
}

/// The identifiers of the built-in models, in the order they are listed.
pub open spec fn base_model_ids() -> Seq<Seq<char>> {
    seq![
        "gpt-4o-mini-tts"@,
        "tts-1"@,
        "tts-1-hd"@,
        "gpt-sovits"@,
        "gpt-sovits-v1"@,
        "gpt-sovits-v2"@,
        "gpt-sovits-v2pro"@,
        "gpt-sovits-v2proplus"@,
        "gpt-sovits-v3"@,
        "gpt-sovits-v4"@,
    ]
}

/// Every built-in model the model list shows is a name the registry
/// resolves to a built-in model, whatever the default version.
pub proof fn lemma_listed_base_models_resolve(default: crate::engine::types::ModelVersion)
    ensures
        forall|i: int| 0 <= i < base_model_ids().len() ==>
            (#[trigger] crate::engine::model_manager::spec_base_version(base_model_ids()[i], default)) is Some,
{
    assert forall|i: int| 0 <= i < base_model_ids().len() implies
        (#[trigger] crate::engine::model_manager::spec_base_version(base_model_ids()[i], default)) is Some by {
        let k = base_model_ids()[i];
        if i == 0 { assert(k == "gpt-4o-mini-tts"@); }
        else if i == 1 { assert(k == "tts-1"@); }
        else if i == 2 { assert(k == "tts-1-hd"@); }
        else if i == 3 { assert(k == "gpt-sovits"@); }
        else if i == 4 { assert(k == "gpt-sovits-v1"@); }
        else if i == 5 { assert(k == "gpt-sovits-v2"@); }
        else if i == 6 { assert(k == "gpt-sovits-v2pro"@); }
        else if i == 7 { assert(k == "gpt-sovits-v2proplus"@); }
        else if i == 8 { assert(k == "gpt-sovits-v3"@); }
        else { assert(k == "gpt-sovits-v4"@); }
    }
}

/// Whether `m` is the list entry of model `id`, owned by `owner`, listed at
/// time `now`.
pub open spec fn is_model_entry(m: ModelObject, id: Seq<char>, owner: Seq<char>, now: u64) -> bool {
    &&& m.id@ == id
    &&& m.object@ == "model"@
    &&& m.created == now
    &&& m.owned_by@ == owner
}

/// The model list: the built-in models, owned by `official-base`, then the
/// custom fine-tuned models `custom_ids`, owned by `custom-finetuned`, all
/// stamped with the time `now`.
pub fn model_list(custom_ids: &Vec<String>, now: u64) -> (r: ModelListResponse)
    ensures
        r.object@ == "list"@,
        r.data.len() == base_model_ids().len() + custom_ids.len(),
        forall|i: int| 0 <= i < base_model_ids().len() ==>
            is_model_entry(#[trigger] r.data[i], base_model_ids()[i], "official-base"@, now),
        forall|j: int| 0 <= j < custom_ids.len() ==>
            is_model_entry(#[trigger] r.data[base_model_ids().len() + j], custom_ids[j]@, "custom-finetuned"@, now),
{
    let ids: Vec<&str> = vec![
        "gpt-4o-mini-tts",
        "tts-1",
        "tts-1-hd",
        "gpt-sovits",
        "gpt-sovits-v1",
        "gpt-sovits-v2",
        "gpt-sovits-v2pro",
        "gpt-sovits-v2proplus",
        "gpt-sovits-v3",
        "gpt-sovits-v4",
    ];
    assert(ids@.map_values(|s: &str| s@) =~= base_model_ids());
    let mut data: Vec<ModelObject> = Vec::new();
    let mut i: usize = 0;
    while i < ids.len()
        invariant
            i <= ids.len() == 10,
            ids@.map_values(|s: &str| s@) == base_model_ids(),
            data.len() == i,
            forall|k: int| 0 <= k < i ==> is_model_entry(#[trigger] data[k], base_model_ids()[k], "official-base"@, now),
        decreases ids.len() - i,
    {
        assert(ids@.map_values(|s: &str| s@)[i as int] == ids@[i as int]@);
        data.push(ModelObject {
            id: ids[i].to_owned(),
            object: "model".to_owned(),
            created: now,
            owned_by: "official-base".to_owned(),
        });
        i = i + 1;
    }
    let mut j: usize = 0;
    while j < custom_ids.len()
        invariant
            j <= custom_ids.len(),
            data.len() == 10 + j,
            base_model_ids().len() == 10,
            forall|k: int| 0 <= k < 10 ==> is_model_entry(#[trigger] data[k], base_model_ids()[k], "official-base"@, now),
            forall|k: int| 0 <= k < j ==> is_model_entry(#[trigger] data[10 + k], custom_ids[k]@, "custom-finetuned"@, now),
        decreases custom_ids.len() - j,
    {
        data.push(ModelObject {
            id: custom_ids[j].clone(),
            object: "model".to_owned(),
            created: now,
            owned_by: "custom-finetuned".to_owned(),
        });
        assert(is_model_entry(data[10 + j as int], custom_ids[j as int]@, "custom-finetuned"@, now));
        j = j + 1;
    }
    ModelListResponse { object: "list".to_owned(), data }
}

/// One voice to list: its name, model version, prompt language and text
/// language.
pub type VoiceSummary = (String, String, String, String);

/// Whether `v` is the list entry of the voice `s`.
pub open spec fn is_voice_entry(v: VoiceObject, s: VoiceSummary) -> bool {
    &&& v.id@ == s.0@
    &&& v.name@ == s.0@
    &&& v.model_version@ == s.1@
    &&& v.prompt_lang@ == s.2@
    &&& v.text_lang@ == s.3@
}

/// The voice list: one entry per voice, in the given order, its name serving
/// as both identifier and display name.
pub fn voice_list(voices: &Vec<VoiceSummary>) -> (r: VoiceListResponse)
    ensures
        r.object@ == "list"@,
        r.data.len() == voices.len(),
        forall|i: int| 0 <= i < voices.len() ==> is_voice_entry(#[trigger] r.data[i], voices[i]),
{
    let mut data: Vec<VoiceObject> = Vec::new();
    let mut i: usize = 0;
    while i < voices.len()
        invariant
            i <= voices.len(),
            data.len() == i,
            forall|k: int| 0 <= k < i ==> is_voice_entry(#[trigger] data[k], voices[k]),
        decreases voices.len() - i,
    {
        let v = &voices[i];
        data.push(VoiceObject {
            id: v.0.clone(),
            name: v.0.clone(),
            model_version: v.1.clone(),
            prompt_lang: v.2.clone(),
            text_lang: v.3.clone(),
        });
        assert(is_voice_entry(data[i as int], voices[i as int]));
        i = i + 1;
    }
    VoiceListResponse { object: "list".to_owned(), data }
}

/// The body of `GET /health`.
pub fn health_body() -> (r: &'static str)
    ensures
        r@ == "{\"status\":\"ok\",\"version\":\"0.1.0\"}"@,
{
    "{\"status\":\"ok\",\"version\":\"0.1.0\"}"
}

/// The headers of a successful speech response: for a plain audio body its
/// content type, its length and no caching; for an event stream the
/// event-stream type, no caching and a kept-alive connection.
pub fn speech_headers(stream: crate::server::schema::StreamFormat, format: AudioFormat, body_len: usize) -> (r: Vec<(&'static str, String)>)
    ensures
        r.len() == 3,
        stream == crate::server::schema::StreamFormat::Audio ==> {
            &&& r[0].0@ == "content-type"@ && r[0].1@ == crate::audio::encoder::spec_content_type(format)
            &&& r[1].0@ == "content-length"@ && r[1].1@ == decimal_seq(body_len as nat)
            &&& r[2].0@ == "cache-control"@ && r[2].1@ == "no-cache, no-store, must-revalidate"@
        },
        stream == crate::server::schema::StreamFormat::Sse ==> {
            &&& r[0].0@ == "content-type"@ && r[0].1@ == "text/event-stream"@
            &&& r[1].0@ == "cache-control"@ && r[1].1@ == "no-cache"@
            &&& r[2].0@ == "connection"@ && r[2].1@ == "keep-alive"@
        },
{
    match stream {
        crate::server::schema::StreamFormat::Audio => {
            let ct = format.content_type().to_owned();
            vec![
                ("content-type", ct),
                ("content-length", decimal_string(body_len)),
                ("cache-control", "no-cache, no-store, must-revalidate".to_owned()),
            ]
        },
        crate::server::schema::StreamFormat::Sse => {
            vec![
                ("content-type", "text/event-stream".to_owned()),
                ("cache-control", "no-cache".to_owned()),
                ("connection", "keep-alive".to_owned()),
            ]
        },
    }
}

} // verus!
