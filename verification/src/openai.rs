//! The request that asks OpenAI to transcribe a clip.
use vstd::prelude::*;

use crate::external::{file_name_of, path_extension, path_file_name};
use crate::markdown::opt_view;
use crate::model::AppSettings;
use crate::storage::{audio_mime, audio_mime_type};
use crate::text::{concat, is_blank, is_blank_str, owned, trim, trim_str};

verus! {

pub const DEFAULT_MODEL: &'static str = "gpt-4o-transcribe";

pub const DEFAULT_BASE_URL: &'static str = "https://api.openai.com/v1";

/// The transcription model used when none is set.
pub fn default_model() -> (r: &'static str)
    ensures
        r@ == "gpt-4o-transcribe"@,
{
    "gpt-4o-transcribe"
}

/// The API address used when none is set.
pub fn default_base_url() -> (r: &'static str)
    ensures
        r@ == "https://api.openai.com/v1"@,
{
    "https://api.openai.com/v1"
}

/// What is sent to the transcription endpoint.
#[derive(Debug)]
pub struct TranscriptionRequest {
    pub url: String,
    pub model: String,
    pub prompt: Option<String>,
    pub file_name: String,
    pub mime: String,
}

/// A setting trimmed, or the default when it is blank.
pub open spec fn setting_or(value: Seq<char>, default: Seq<char>) -> Seq<char> {
    if is_blank(value) {
        default
    } else {
        trim(value)
    }
}

/// The prompt sent: the one in the settings, else the one in the
/// environment, left out when blank.
pub open spec fn request_prompt(settings_prompt: Seq<char>, env_prompt: Option<Seq<char>>) -> Option<Seq<char>> {
    let p = if is_blank(settings_prompt) {
        env_prompt
    } else {
        Some(settings_prompt)
    };
    match p {
        Some(t) => if is_blank(t) {
            None
        } else {
            Some(t)
        },
        None => None,
    }
}

/// The transcription request for a clip: the endpoint under the configured
/// address, the configured model, the prompt, the clip's file name
/// (`audio.wav` when it has none) and its media type.
pub fn transcription_request(settings: &AppSettings, env_prompt: Option<String>, input_path: &str) -> (r: TranscriptionRequest)
    ensures
        r.url@ == setting_or(settings.openai_base_url@, "https://api.openai.com/v1"@) + "/audio/transcriptions"@,
        r.model@ == setting_or(settings.openai_model@, "gpt-4o-transcribe"@),
        opt_view(r.prompt) == request_prompt(settings.openai_prompt@, opt_view(env_prompt)),
        r.file_name@ == match path_file_name(input_path@) {
            Some(n) => n,
            None => "audio.wav"@,
        },
        r.mime@ == audio_mime(path_extension(input_path@)),
{
    let base_url = if is_blank_str(settings.openai_base_url.as_str()) {
        owned(default_base_url())
    } else {
        trim_str(settings.openai_base_url.as_str())
    };
    let model = if is_blank_str(settings.openai_model.as_str()) {
        owned(default_model())
    } else {
        trim_str(settings.openai_model.as_str())
    };
    let prompt = if is_blank_str(settings.openai_prompt.as_str()) {
        env_prompt
    } else {
        Some(settings.openai_prompt.clone())
    };
    let prompt = match prompt {
        Some(t) => if is_blank_str(t.as_str()) {
            None
        } else {
            Some(t)
        },
        None => None,
    };
    let file_name = match file_name_of(input_path) {
        Some(n) => n,
        None => owned("audio.wav"),
    };
    let url = concat(base_url.as_str(), "/audio/transcriptions");
    TranscriptionRequest { url, model, prompt, file_name, mime: audio_mime_type(input_path) }
}

} // verus!
