use svs::gemini::{
    default_notes_model, first_inline_data, first_text, notes_from_response, notes_prompt,
    notes_request, speech_from_response, speech_request, tts_model, Candidate, Content,
    GeminiError, GenerateContentResponse, InlineData, NotesRequest, Part, PromptsConfig,
    RequestPart,
};
use svs::models::Voice;

fn prompts() -> PromptsConfig {
    PromptsConfig {
        notes_model: "gemini-2.5-flash".to_string(),
        tts_model: "tts-model".to_string(),
        notes_prompt: "Write notes. {greeting_rule} Be brief. {greeting_rule}".to_string(),
        greeting_first: "Greet the audience.".to_string(),
        greeting_rest: "Do not greet.".to_string(),
        tts_prompt: "Say warmly: {text}".to_string(),
    }
}

fn text_part(t: &str) -> Part {
    Part { text: Some(t.to_string()), inline_data: None }
}

fn audio_part(d: Option<&str>) -> Part {
    Part { text: None, inline_data: Some(InlineData { data: d.map(|s| s.to_string()) }) }
}

/// The image data and prompt of a notes request, checking its shape.
fn notes_parts(r: &NotesRequest) -> (String, String) {
    assert_eq!(r.body.contents.len(), 1);
    assert!(r.body.generation_config.is_none());
    let parts = &r.body.contents[0].parts;
    assert_eq!(parts.len(), 2);
    let data = match &parts[0] {
        RequestPart::InlineData { mime_type, data } => {
            assert_eq!(mime_type, "image/jpeg");
            data.clone()
        }
        RequestPart::Text { .. } => panic!("the image part comes first"),
    };
    let prompt = match &parts[1] {
        RequestPart::Text { text } => text.clone(),
        RequestPart::InlineData { .. } => panic!("the prompt part comes second"),
    };
    (data, prompt)
}

fn response(parts: Vec<Part>) -> GenerateContentResponse {
    GenerateContentResponse { candidates: vec![Candidate { content: Some(Content { parts }) }] }
}

#[test]
fn models_come_from_config() {
    let p = prompts();
    assert_eq!(default_notes_model(&p), "gemini-2.5-flash");
    assert_eq!(tts_model(&p), "tts-model");
}

#[test]
fn notes_prompt_fills_greeting() {
    let p = prompts();
    assert_eq!(
        notes_prompt(&p, true),
        "Write notes. Greet the audience. Be brief. Greet the audience."
    );
    assert_eq!(notes_prompt(&p, false), "Write notes. Do not greet. Be brief. Do not greet.");
}

#[test]
fn notes_request_encodes_image() {
    let r = notes_request(&prompts(), &[1, 2, 3, 4], false, "vision");
    assert_eq!(
        r.url,
        "https://generativelanguage.googleapis.com/v1beta/models/vision:generateContent"
    );
    let (data, prompt) = notes_parts(&r);
    assert_eq!(data, "AQIDBA==");
    assert_eq!(prompt, "Write notes. Do not greet. Be brief. Do not greet.");
}

#[test]
fn speech_request_refuses_blank_text() {
    assert!(matches!(speech_request(&prompts(), " \n\t", Voice::Kore), Err(GeminiError::EmptyText)));
    assert!(matches!(speech_request(&prompts(), "", Voice::Kore), Err(GeminiError::EmptyText)));
    let r = speech_request(&prompts(), " Hello ", Voice::Kore).ok().unwrap();
    assert_eq!(r.body.contents.len(), 1);
    assert_eq!(r.body.contents[0].parts.len(), 1);
    match &r.body.contents[0].parts[0] {
        RequestPart::Text { text } => assert_eq!(text, "Say warmly:  Hello "),
        RequestPart::InlineData { .. } => panic!("the TTS request sends text"),
    }
    let g = r.body.generation_config.as_ref().unwrap();
    assert_eq!(g.response_modalities, vec!["AUDIO".to_string()]);
    assert_eq!(g.speech_config.voice_config.prebuilt_voice_config.voice_name, "Kore");
    assert_eq!(
        r.url,
        "https://generativelanguage.googleapis.com/v1beta/models/tts-model:generateContent"
    );
}

#[test]
fn first_text_skips_blank_parts_and_trims() {
    let resp = response(vec![audio_part(Some("x")), text_part("   "), text_part("  Hi there \n"), text_part("later")]);
    assert_eq!(first_text(&resp), Some("Hi there".to_string()));
    assert_eq!(notes_from_response(&resp), Ok("Hi there".to_string()));
    let none = GenerateContentResponse { candidates: vec![] };
    assert_eq!(first_text(&none), None);
    assert_eq!(notes_from_response(&none), Err(GeminiError::NoText));
    let empty = GenerateContentResponse { candidates: vec![Candidate { content: None }] };
    assert_eq!(first_text(&empty), None);
}

#[test]
fn first_inline_data_skips_parts_without_audio() {
    let resp = response(vec![audio_part(None), audio_part(Some("")), audio_part(Some("AAEC"))]);
    assert_eq!(first_inline_data(&resp), Some("AAEC".to_string()));
    let after_text = response(vec![text_part("ok"), audio_part(Some("QUJD"))]);
    assert_eq!(first_inline_data(&after_text), Some("QUJD".to_string()));
    assert_eq!(speech_from_response(&after_text), Ok(b"ABC".to_vec()));
    let no_audio = response(vec![text_part("ok"), audio_part(None)]);
    assert_eq!(first_inline_data(&no_audio), None);
}

#[test]
fn speech_audio_is_decoded() {
    assert_eq!(speech_from_response(&response(vec![audio_part(Some("AAEC"))])), Ok(vec![0, 1, 2]));
    assert_eq!(
        speech_from_response(&response(vec![audio_part(Some("@@@@"))])),
        Err(GeminiError::BadAudioEncoding)
    );
    assert_eq!(speech_from_response(&response(vec![])), Err(GeminiError::NoAudio));
}

#[test]
fn error_messages() {
    assert_eq!(GeminiError::EmptyText.message(), "cannot synthesize empty text");
    assert_eq!(GeminiError::NoText.message(), "Gemini returned no text candidates");
    assert_eq!(GeminiError::NoAudio.message(), "Gemini returned no audio candidates");
    assert_eq!(GeminiError::BadAudioEncoding.message(), "decoding base64 audio");
}

#[test]
fn image_encoding_pads_the_last_group() {
    let p = prompts();
    assert_eq!(notes_parts(&notes_request(&p, &[], true, "m")).0, "");
    assert_eq!(notes_parts(&notes_request(&p, &[1], true, "m")).0, "AQ==");
    assert_eq!(notes_parts(&notes_request(&p, &[1, 2], true, "m")).0, "AQI=");
    assert_eq!(notes_parts(&notes_request(&p, &[0xfb, 0xff, 0xbf], true, "m")).0, "+/+/");
    assert_eq!(notes_parts(&notes_request(&p, b"Man", true, "m")).0, "TWFu");
}

#[test]
fn speech_audio_must_be_canonical_base64() {
    let decode = |d: &str| speech_from_response(&response(vec![audio_part(Some(d))]));
    assert_eq!(decode("AQ=="), Ok(vec![1]));
    assert_eq!(decode("AQI="), Ok(vec![1, 2]));
    assert_eq!(decode("AR=="), Err(GeminiError::BadAudioEncoding));
    assert_eq!(decode("AQ"), Err(GeminiError::BadAudioEncoding));
    assert_eq!(decode("AQ==AQ=="), Err(GeminiError::BadAudioEncoding));
    assert_eq!(decode("A"), Err(GeminiError::BadAudioEncoding));
}
