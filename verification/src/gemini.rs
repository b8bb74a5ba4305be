//! The logic around the two Gemini calls SlideVoice makes: speaker-note
//! extraction (vision) and text-to-speech. Requests are prepared here and
//! responses interpreted here; sending them is left to the caller.

use vstd::prelude::*;
use crate::models::{Voice, voice_label};
use crate::text::{
    chars_eq, chars_of, is_white_space, push_chars, push_str, replace_all, replace_chars,
    string_of, trim, trim_chars, lemma_trim_idempotent,
};

verus! {

/// Prompt and model configuration (read from `prompts.ron`).
#[derive(Debug)]
pub struct PromptsConfig {
    pub notes_model: String,
    pub tts_model: String,
    pub notes_prompt: String,
    pub greeting_first: String,
    pub greeting_rest: String,
    pub tts_prompt: String,
}

/// The vision model used for notes when none is chosen.
pub fn default_notes_model(prompts: &PromptsConfig) -> (m: &str)
    ensures
        m@ == prompts.notes_model@,
{
    prompts.notes_model.as_str()
}

/// The text-to-speech model.
pub fn tts_model(prompts: &PromptsConfig) -> (m: &str)
    ensures
        m@ == prompts.tts_model@,
{
    prompts.tts_model.as_str()
}

/// Root of the Gemini REST API.
pub open spec fn gemini_base_url() -> Seq<char> {
    "https://generativelanguage.googleapis.com/v1beta"@
}

/// The `:generateContent` endpoint of `model`.
pub open spec fn generate_content_url(model: Seq<char>) -> Seq<char> {
    gemini_base_url() + "/models/"@ + model + ":generateContent"@
}

/// The URL of `model`'s `:generateContent` endpoint.
pub fn generate_content_endpoint(model: &str) -> (url: String)
    ensures
        url@ == generate_content_url(model@),
{
    let mut out: Vec<char> = Vec::new();
    push_str(&mut out, "https://generativelanguage.googleapis.com/v1beta");
    push_str(&mut out, "/models/");
    push_str(&mut out, model);
    push_str(&mut out, ":generateContent");
    assert(out@ =~= generate_content_url(model@));
    string_of(&out)
}

// ─── base64 ──────────────────────────────────────────────────────────

/// The symbol of the standard base64 alphabet (RFC 4648) for the six-bit
/// value `v`: `A`-`Z`, `a`-`z`, `0`-`9`, `+`, `/`.
pub open spec fn base64_symbol(v: int) -> char {
    if v < 26 {
        (65 + v) as char
    } else if v < 52 {
        (97 + (v - 26)) as char
    } else if v < 62 {
        (48 + (v - 52)) as char
    } else if v == 62 {
        '+'
    } else {
        '/'
    }
}

/// The standard base64 encoding of `data` (RFC 4648): each three bytes
/// become four symbols of six bits each, and a last one or two bytes
/// become two or three symbols padded with `=` to four.
pub open spec fn base64_encoding(data: Seq<u8>) -> Seq<char>
    decreases data.len(),
{
    if data.len() == 0 {
        seq![]
    } else if data.len() == 1 {
        let a = data[0] as int;
        seq![base64_symbol(a / 4), base64_symbol(a % 4 * 16), '=', '=']
    } else if data.len() == 2 {
        let a = data[0] as int;
        let b = data[1] as int;
        seq![base64_symbol(a / 4), base64_symbol(a % 4 * 16 + b / 16), base64_symbol(b % 16 * 4), '=']
    } else {
        let a = data[0] as int;
        let b = data[1] as int;
        let c = data[2] as int;
        seq![
            base64_symbol(a / 4),
            base64_symbol(a % 4 * 16 + b / 16),
            base64_symbol(b % 16 * 4 + c / 64),
            base64_symbol(c % 64),
        ] + base64_encoding(data.skip(3))
    }
}

proof fn lemma_symbol_injective(x: int, y: int)
    requires
        0 <= x < 64,
        0 <= y < 64,
        base64_symbol(x) == base64_symbol(y),
    ensures
        x == y,
        base64_symbol(x) != '=',
{
    assert(((65 + x) as char) as int == 65 + x || x >= 26);
    assert(((65 + y) as char) as int == 65 + y || y >= 26);
    assert(((97 + (x - 26)) as char) as int == 97 + (x - 26) || x < 26 || x >= 52);
    assert(((97 + (y - 26)) as char) as int == 97 + (y - 26) || y < 26 || y >= 52);
    assert(((48 + (x - 52)) as char) as int == 48 + (x - 52) || x < 52 || x >= 62);
    assert(((48 + (y - 52)) as char) as int == 48 + (y - 52) || y < 52 || y >= 62);
}

#[verifier::external_type_specification]
#[verifier::external_body]
pub struct ExBase64DecodeError(base64::DecodeError);

/// `base64::Engine::encode` on the `STANDARD` engine (standard alphabet,
/// padding on). The contract claims that the result is the RFC 4648
/// encoding of the input; the crate panics only when the encoded length
/// overflows `usize`, which `requires` rules out.
#[verifier::external_body]
fn encode_standard(data: &[u8]) -> (s: String)
    requires
        data@.len() / 3 * 4 + 4 <= usize::MAX,
    ensures
        s@ == base64_encoding(data@),
{
    base64::Engine::encode(&base64::engine::general_purpose::STANDARD, data)
}

/// `base64::Engine::decode` on the `STANDARD` engine, whose configuration
/// requires canonical padding and refuses set trailing bits. The contract
/// claims that it succeeds with the bytes whose encoding `text` is, and
/// fails on any text that is the encoding of no bytes.
#[verifier::external_body]
fn decode_standard(text: &str) -> (r: Result<Vec<u8>, base64::DecodeError>)
    ensures
        match r {
            Ok(v) => base64_encoding(v@) == text@,
            Err(_) => forall|b: Seq<u8>| #[trigger] base64_encoding(b) != text@,
        },
{
    base64::Engine::decode(&base64::engine::general_purpose::STANDARD, text)
}

/// Bytes are recovered from their base64 encoding: no two byte strings
/// have the same encoding.
pub proof fn lemma_base64_injective(a: Seq<u8>, b: Seq<u8>)
    requires
        base64_encoding(a) == base64_encoding(b),
    ensures
        a == b,
    decreases a.len(),
{
    let e = base64_encoding(a);
    if a.len() == 0 || b.len() == 0 {
        assert(a.len() == 0 && b.len() == 0) by {
            if a.len() > 0 {
                assert(base64_encoding(a).len() >= 4);
            }
            if b.len() > 0 {
                assert(base64_encoding(b).len() >= 4);
            }
        }
        assert(a =~= b);
    } else {
        let a0 = a[0] as int;
        let b0 = b[0] as int;
        assert(e[0] == base64_symbol(a0 / 4));
        assert(base64_encoding(b)[0] == base64_symbol(b0 / 4));
        lemma_symbol_injective(a0 / 4, b0 / 4);
        if a.len() == 1 || b.len() == 1 {
            if a.len() > 1 {
                let a1 = a[1] as int;
                if a.len() == 2 {
                    lemma_symbol_injective(a1 % 16 * 4, a1 % 16 * 4);
                } else {
                    lemma_symbol_injective(a1 % 16 * 4 + (a[2] as int) / 64, a1 % 16 * 4 + (a[2] as int) / 64);
                }
                assert(false);
            }
            if b.len() > 1 {
                let b1 = b[1] as int;
                if b.len() == 2 {
                    lemma_symbol_injective(b1 % 16 * 4, b1 % 16 * 4);
                } else {
                    lemma_symbol_injective(b1 % 16 * 4 + (b[2] as int) / 64, b1 % 16 * 4 + (b[2] as int) / 64);
                }
                assert(false);
            }
            lemma_symbol_injective(a0 % 4 * 16, b0 % 4 * 16);
            assert(a0 == b0);
            assert(a =~= b);
        } else {
            let a1 = a[1] as int;
            let b1 = b[1] as int;
            assert(e[1] == base64_symbol(a0 % 4 * 16 + a1 / 16));
            assert(base64_encoding(b)[1] == base64_symbol(b0 % 4 * 16 + b1 / 16));
            if a.len() == 2 || b.len() == 2 {
                if a.len() > 2 {
                    lemma_symbol_injective(a[2] as int % 64, a[2] as int % 64);
                    assert(false);
                }
                if b.len() > 2 {
                    lemma_symbol_injective(b[2] as int % 64, b[2] as int % 64);
                    assert(false);
                }
                lemma_symbol_injective(a0 % 4 * 16 + a1 / 16, b0 % 4 * 16 + b1 / 16);
                lemma_symbol_injective(a1 % 16 * 4, b1 % 16 * 4);
                assert(a0 == b0 && a1 == b1);
                assert(a =~= b);
            } else {
                let a2 = a[2] as int;
                let b2 = b[2] as int;
                assert(e[2] == base64_symbol(a1 % 16 * 4 + a2 / 64));
                assert(e[3] == base64_symbol(a2 % 64));
                assert(base64_encoding(b)[2] == base64_symbol(b1 % 16 * 4 + b2 / 64));
                assert(base64_encoding(b)[3] == base64_symbol(b2 % 64));
                lemma_symbol_injective(a0 % 4 * 16 + a1 / 16, b0 % 4 * 16 + b1 / 16);
                lemma_symbol_injective(a1 % 16 * 4 + a2 / 64, b1 % 16 * 4 + b2 / 64);
                lemma_symbol_injective(a2 % 64, b2 % 64);
                assert(a0 == b0 && a1 == b1 && a2 == b2);
                assert(base64_encoding(a.skip(3)) =~= e.skip(4));
                assert(base64_encoding(b.skip(3)) =~= e.skip(4));
                lemma_base64_injective(a.skip(3), b.skip(3));
                assert(a =~= seq![a[0], a[1], a[2]] + a.skip(3));
                assert(b =~= seq![b[0], b[1], b[2]] + b.skip(3));
            }
        }
    }
}

// ─── Errors ──────────────────────────────────────────────────────────

/// Why a Gemini exchange gave no usable result.
#[derive(Debug, Clone, Copy, PartialEq, Eq, Structural)]
pub enum GeminiError {
    /// The text to speak is empty or only white space.
    EmptyText,
    /// The notes response holds no non-blank text part.
    NoText,
    /// The speech response holds no audio part.
    NoAudio,
    /// The audio part is not valid base64.
    BadAudioEncoding,
}

impl GeminiError {
    /// The message shown for this error.
    pub fn message(self) -> (m: &'static str)
        ensures
            m@ == match self {
                GeminiError::EmptyText => "cannot synthesize empty text"@,
                GeminiError::NoText => "Gemini returned no text candidates"@,
                GeminiError::NoAudio => "Gemini returned no audio candidates"@,
                GeminiError::BadAudioEncoding => "decoding base64 audio"@,
            },
    {
        match self {
            GeminiError::EmptyText => "cannot synthesize empty text",
            GeminiError::NoText => "Gemini returned no text candidates",
            GeminiError::NoAudio => "Gemini returned no audio candidates",
            GeminiError::BadAudioEncoding => "decoding base64 audio",
        }
    }
}

// ─── Requests ────────────────────────────────────────────────────────

/// One part of a request's content.
pub enum RequestPart {
    /// Data sent inline (`inline_data`): its MIME type and its base64 text.
    InlineData { mime_type: String, data: String },
    /// A text part (`text`).
    Text { text: String },
}

/// One entry of a request's `contents`: its parts, in order.
pub struct RequestContent {
    pub parts: Vec<RequestPart>,
}

/// `prebuiltVoiceConfig`: the prebuilt voice to speak with.
pub struct PrebuiltVoiceConfig {
    pub voice_name: String,
}

/// `voiceConfig`.
pub struct VoiceConfig {
    pub prebuilt_voice_config: PrebuiltVoiceConfig,
}

/// `speechConfig`.
pub struct SpeechConfig {
    pub voice_config: VoiceConfig,
}

/// `generationConfig`: the kinds of output asked for and how to speak.
pub struct GenerationConfig {
    pub response_modalities: Vec<String>,
    pub speech_config: SpeechConfig,
}

/// The JSON body of a `:generateContent` request.
pub struct RequestBody {
    pub contents: Vec<RequestContent>,
    pub generation_config: Option<GenerationConfig>,
}

/// Whether `p` is an inline data part of type `mime` holding `data`.
pub open spec fn is_inline_part(p: RequestPart, mime: Seq<char>, data: Seq<char>) -> bool {
    p matches RequestPart::InlineData { mime_type, data: d } && mime_type@ == mime && d@ == data
}

/// Whether `p` is a text part holding `t`.
pub open spec fn is_text_part(p: RequestPart, t: Seq<char>) -> bool {
    p matches RequestPart::Text { text } && text@ == t
}

/// What is sent to Gemini to write the notes of one slide.
pub struct NotesRequest {
    pub url: String,
    pub body: RequestBody,
}

/// The greeting rule for the first slide or for the others.
pub open spec fn greeting_rule(prompts: PromptsConfig, is_first_slide: bool) -> Seq<char> {
    if is_first_slide {
        prompts.greeting_first@
    } else {
        prompts.greeting_rest@
    }
}

/// The notes prompt with its `{greeting_rule}` placeholder filled in.
pub open spec fn notes_prompt_text(prompts: PromptsConfig, is_first_slide: bool) -> Seq<char> {
    replace_all(prompts.notes_prompt@, "{greeting_rule}"@, greeting_rule(prompts, is_first_slide))
}

/// The notes prompt for a slide: the first slide greets, the others do not.
pub fn notes_prompt(prompts: &PromptsConfig, is_first_slide: bool) -> (p: String)
    ensures
        p@ == notes_prompt_text(*prompts, is_first_slide),
{
    let greeting = if is_first_slide {
        chars_of(prompts.greeting_first.as_str())
    } else {
        chars_of(prompts.greeting_rest.as_str())
    };
    let template = chars_of(prompts.notes_prompt.as_str());
    let placeholder = chars_of("{greeting_rule}");
    proof {
        reveal_strlit("{greeting_rule}");
    }
    let filled = replace_chars(&template, &placeholder, &greeting);
    string_of(&filled)
}

/// The request that asks `notes_model` to write a presenter script for
/// the slide image `image_jpeg`: one content whose parts are the image,
/// as JPEG inline data in base64, then the notes prompt.
pub fn notes_request(
    prompts: &PromptsConfig,
    image_jpeg: &[u8],
    is_first_slide: bool,
    notes_model: &str,
) -> (r: NotesRequest)
    requires
        image_jpeg@.len() / 3 * 4 + 4 <= usize::MAX,
    ensures
        r.url@ == generate_content_url(notes_model@),
        r.body.contents.len() == 1,
        r.body.contents[0].parts.len() == 2,
        is_inline_part(r.body.contents[0].parts[0], "image/jpeg"@, base64_encoding(image_jpeg@)),
        is_text_part(r.body.contents[0].parts[1], notes_prompt_text(*prompts, is_first_slide)),
        r.body.generation_config is None,
{
    let image = RequestPart::InlineData {
        mime_type: string_of(&chars_of("image/jpeg")),
        data: encode_standard(image_jpeg),
    };
    let prompt = RequestPart::Text { text: notes_prompt(prompts, is_first_slide) };
    let mut parts: Vec<RequestPart> = Vec::new();
    parts.push(image);
    parts.push(prompt);
    let mut contents: Vec<RequestContent> = Vec::new();
    contents.push(RequestContent { parts });
    NotesRequest {
        url: generate_content_endpoint(notes_model),
        body: RequestBody { contents, generation_config: None },
    }
}

/// What is sent to Gemini TTS to speak one slide's notes.
pub struct SpeechRequest {
    pub url: String,
    pub body: RequestBody,
}

/// The TTS prompt with its `{text}` placeholder filled in.
pub open spec fn tts_text(prompts: PromptsConfig, text: Seq<char>) -> Seq<char> {
    replace_all(prompts.tts_prompt@, "{text}"@, text)
}

/// The request that asks the TTS model to speak `text` in `voice`: one
/// content with the filled-in TTS prompt as its only part, audio as the
/// only response modality, and `voice` as the prebuilt voice. Refused
/// when `text` is only white space.
pub fn speech_request(prompts: &PromptsConfig, text: &str, voice: Voice) -> (r: Result<
    SpeechRequest,
    GeminiError,
>)
    ensures
        r is Err <==> trim(text@).len() == 0,
        r matches Err(e) ==> e == GeminiError::EmptyText,
        r matches Ok(req) ==> {
            &&& req.url@ == generate_content_url(prompts.tts_model@)
            &&& req.body.contents.len() == 1
            &&& req.body.contents[0].parts.len() == 1
            &&& is_text_part(req.body.contents[0].parts[0], tts_text(*prompts, text@))
            &&& req.body.generation_config matches Some(g) && g.response_modalities.len() == 1
                && g.response_modalities[0]@ == "AUDIO"@
                && g.speech_config.voice_config.prebuilt_voice_config.voice_name@ == voice_label(
                voice,
            )
        },
{
    let cs = chars_of(text);
    let trimmed = trim_chars(&cs);
    if trimmed.len() == 0 {
        return Err(GeminiError::EmptyText);
    }
    let template = chars_of(prompts.tts_prompt.as_str());
    let placeholder = chars_of("{text}");
    proof {
        reveal_strlit("{text}");
    }
    let filled = replace_chars(&template, &placeholder, &cs);
    let mut parts: Vec<RequestPart> = Vec::new();
    parts.push(RequestPart::Text { text: string_of(&filled) });
    let mut contents: Vec<RequestContent> = Vec::new();
    contents.push(RequestContent { parts });
    let mut modalities: Vec<String> = Vec::new();
    modalities.push(string_of(&chars_of("AUDIO")));
    let config = GenerationConfig {
        response_modalities: modalities,
        speech_config: SpeechConfig {
            voice_config: VoiceConfig {
                prebuilt_voice_config: PrebuiltVoiceConfig {
                    voice_name: string_of(&chars_of(voice.label())),
                },
            },
        },
    };
    Ok(
        SpeechRequest {
            url: generate_content_endpoint(tts_model(prompts)),
            body: RequestBody { contents, generation_config: Some(config) },
        },
    )
}

// ─── Responses ───────────────────────────────────────────────────────

/// The `inlineData` (or `inline_data`) object of a part: its `data`
/// string, if it has one.
pub struct InlineData {
    pub data: Option<String>,
}

/// One part of a candidate's content: its `text` string, if any, and its
/// inline data object, if any.
pub struct Part {
    pub text: Option<String>,
    pub inline_data: Option<InlineData>,
}

pub struct Content {
    pub parts: Vec<Part>,
}

pub struct Candidate {
    pub content: Option<Content>,
}

/// A `:generateContent` response.
pub struct GenerateContentResponse {
    pub candidates: Vec<Candidate>,
}

/// The parts of the first candidate, if it has content.
pub open spec fn first_parts(resp: GenerateContentResponse) -> Option<Seq<Part>> {
    if resp.candidates@.len() == 0 {
        None
    } else {
        match resp.candidates@[0].content {
            Some(c) => Some(c.parts@),
            None => None,
        }
    }
}

/// The first text part that is not blank, trimmed.
pub open spec fn text_in_parts(parts: Seq<Part>) -> Option<Seq<char>>
    decreases parts.len(),
{
    if parts.len() == 0 {
        None
    } else if parts[0].text is Some && trim(parts[0].text->0@).len() > 0 {
        Some(trim(parts[0].text->0@))
    } else {
        text_in_parts(parts.drop_first())
    }
}

/// The first non-empty inline data string; parts without inline data
/// (such as text parts) are skipped.
pub open spec fn inline_in_parts(parts: Seq<Part>) -> Option<Seq<char>>
    decreases parts.len(),
{
    if parts.len() == 0 {
        None
    } else {
        match parts[0].inline_data {
            None => inline_in_parts(parts.drop_first()),
            Some(d) => if d.data is Some && d.data->0@.len() > 0 {
                Some(d.data->0@)
            } else {
                inline_in_parts(parts.drop_first())
            },
        }
    }
}

/// The notes text of a response.
pub open spec fn response_text(resp: GenerateContentResponse) -> Option<Seq<char>> {
    match first_parts(resp) {
        Some(parts) => text_in_parts(parts),
        None => None,
    }
}

/// The base64 audio of a response.
pub open spec fn response_inline_data(resp: GenerateContentResponse) -> Option<Seq<char>> {
    match first_parts(resp) {
        Some(parts) => inline_in_parts(parts),
        None => None,
    }
}

fn text_of_parts(parts: &Vec<Part>) -> (r: Option<String>)
    ensures
        match (r, text_in_parts(parts@)) {
            (Some(s), Some(t)) => s@ == t,
            (None, None) => true,
            _ => false,
        },
{
    let mut i: usize = 0;
    assert(parts@.skip(0) =~= parts@);
    while i < parts.len()
        invariant
            i <= parts@.len(),
            text_in_parts(parts@) == text_in_parts(parts@.skip(i as int)),
        decreases parts@.len() - i,
    {
        assert(parts@.skip(i as int).drop_first() =~= parts@.skip(i + 1));
        assert(parts@.skip(i as int)[0] == parts@[i as int]);
        match &parts[i].text {
            Some(t) => {
                let cs = chars_of(t.as_str());
                let trimmed = trim_chars(&cs);
                if trimmed.len() > 0 {
                    return Some(string_of(&trimmed));
                }
            },
            None => {},
        }
        i = i + 1;
    }
    None
}

/// The first non-blank text part of the first candidate, trimmed.
pub fn first_text(resp: &GenerateContentResponse) -> (r: Option<String>)
    ensures
        match (r, response_text(*resp)) {
            (Some(s), Some(t)) => s@ == t,
            (None, None) => true,
            _ => false,
        },
{
    if resp.candidates.len() == 0 {
        return None;
    }
    match &resp.candidates[0].content {
        Some(c) => text_of_parts(&c.parts),
        None => None,
    }
}

fn inline_of_parts(parts: &Vec<Part>) -> (r: Option<String>)
    ensures
        match (r, inline_in_parts(parts@)) {
            (Some(s), Some(t)) => s@ == t,
            (None, None) => true,
            _ => false,
        },
{
    let mut i: usize = 0;
    assert(parts@.skip(0) =~= parts@);
    while i < parts.len()
        invariant
            i <= parts@.len(),
            inline_in_parts(parts@) == inline_in_parts(parts@.skip(i as int)),
        decreases parts@.len() - i,
    {
        assert(parts@.skip(i as int).drop_first() =~= parts@.skip(i + 1));
        assert(parts@.skip(i as int)[0] == parts@[i as int]);
        match &parts[i].inline_data {
            None => {},
            Some(d) => {
                match &d.data {
                    Some(s) => {
                        if s.as_str().is_empty() {
                        } else {
                            return Some(s.clone());
                        }
                    },
                    None => {},
                }
            },
        }
        i = i + 1;
    }
    None
}

/// The first non-empty inline data string of the first candidate.
pub fn first_inline_data(resp: &GenerateContentResponse) -> (r: Option<String>)
    ensures
        match (r, response_inline_data(*resp)) {
            (Some(s), Some(t)) => s@ == t,
            (None, None) => true,
            _ => false,
        },
{
    if resp.candidates.len() == 0 {
        return None;
    }
    match &resp.candidates[0].content {
        Some(c) => inline_of_parts(&c.parts),
        None => None,
    }
}

proof fn lemma_text_in_parts_trimmed(parts: Seq<Part>)
    ensures
        text_in_parts(parts) matches Some(t) ==> t.len() > 0 && trim(t) == t,
    decreases parts.len(),
{
    if parts.len() > 0 {
        if parts[0].text is Some && trim(parts[0].text->0@).len() > 0 {
            lemma_trim_idempotent(parts[0].text->0@);
        } else {
            lemma_text_in_parts_trimmed(parts.drop_first());
        }
    }
}

/// The notes read from a response are never blank and carry no
/// surrounding white space.
pub proof fn lemma_response_text_trimmed(resp: GenerateContentResponse)
    ensures
        response_text(resp) matches Some(t) ==> t.len() > 0 && trim(t) == t,
{
    if let Some(parts) = first_parts(resp) {
        lemma_text_in_parts_trimmed(parts);
    }
}

/// Notes read from a response are never refused as blank when spoken:
/// a speech request for them is prepared, never `EmptyText`.
pub proof fn lemma_response_text_speakable(resp: GenerateContentResponse)
    ensures
        response_text(resp) matches Some(t) ==> trim(t).len() != 0,
{
    lemma_response_text_trimmed(resp);
}

/// The presenter notes of a notes response.
pub fn notes_from_response(resp: &GenerateContentResponse) -> (r: Result<String, GeminiError>)
    ensures
        match (r, response_text(*resp)) {
            (Ok(s), Some(t)) => s@ == t,
            (Err(e), None) => e == GeminiError::NoText,
            _ => false,
        },
{
    match first_text(resp) {
        Some(t) => Ok(t),
        None => Err(GeminiError::NoText),
    }
}

/// The PCM audio of a speech response: its first inline data, decoded
/// from base64.
pub fn speech_from_response(resp: &GenerateContentResponse) -> (r: Result<Vec<u8>, GeminiError>)
    ensures
        match response_inline_data(*resp) {
            None => r == Err::<Vec<u8>, GeminiError>(GeminiError::NoAudio),
            Some(d) => match r {
                Ok(pcm) => base64_encoding(pcm@) == d,
                Err(e) => e == GeminiError::BadAudioEncoding && forall|b: Seq<u8>|
                    #[trigger] base64_encoding(b) != d,
            },
        },
{
    match first_inline_data(resp) {
        None => Err(GeminiError::NoAudio),
        Some(b64) => match decode_standard(b64.as_str()) {
            Ok(pcm) => Ok(pcm),
            Err(_) => Err(GeminiError::BadAudioEncoding),
        },
    }
}

} // verus!
