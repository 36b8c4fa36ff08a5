//! Which transcription service is used, and whether it can run.
use vstd::prelude::*;

use crate::model::{AppSettings, TranscriptionProvider, TranscriptionStatus};
use crate::text::{is_blank, is_blank_str, owned};

verus! {

/// The name of a transcription provider.
pub open spec fn provider_name(p: TranscriptionProvider) -> Seq<char> {
    match p {
        TranscriptionProvider::OpenAi => "openai"@,
        TranscriptionProvider::LocalWhisper => "local_whisper"@,
    }
}

/// The status of transcription: whether the selected provider is configured,
/// its name, and its model (the OpenAI model, or the Whisper model file,
/// `Local Whisper` when none is set).
pub fn transcription_status(settings: &AppSettings, openai_configured: bool, whisper_configured: bool) -> (r: TranscriptionStatus)
    ensures
        r.configured == match settings.transcription_provider {
            TranscriptionProvider::OpenAi => openai_configured,
            TranscriptionProvider::LocalWhisper => whisper_configured,
        },
        r.provider@ == provider_name(settings.transcription_provider),
        r.model@ == match settings.transcription_provider {
            TranscriptionProvider::OpenAi => settings.openai_model@,
            TranscriptionProvider::LocalWhisper => if is_blank(settings.whisper_model_path@) {
                "Local Whisper"@
            } else {
                settings.whisper_model_path@
            },
        },
{
    match settings.transcription_provider {
        TranscriptionProvider::OpenAi => TranscriptionStatus {
            configured: openai_configured,
            provider: owned("openai"),
            model: settings.openai_model.clone(),
        },
        TranscriptionProvider::LocalWhisper => TranscriptionStatus {
            configured: whisper_configured,
            provider: owned("local_whisper"),
            model: if is_blank_str(settings.whisper_model_path.as_str()) {
                owned("Local Whisper")
            } else {
                settings.whisper_model_path.clone()
            },
        },
    }
}

/// How a clip is transcribed.
#[derive(Debug)]
pub enum TranscriptionRoute {
    /// By OpenAI, with this key.
    OpenAi { api_key: String },
    /// By the local `whisper-cli`.
    LocalWhisper,
}

/// How a clip is transcribed with these settings: OpenAI needs a key.
pub fn transcription_route(settings: &AppSettings, api_key: Option<String>) -> (r: Result<TranscriptionRoute, String>)
    ensures
        match settings.transcription_provider {
            TranscriptionProvider::OpenAi => match api_key {
                Some(k) => r matches Ok(TranscriptionRoute::OpenAi { api_key }) && api_key == k,
                None => r matches Err(m) && m@ == "OpenAI API key is not configured. Add it in Feedback -> Settings."@,
            },
            TranscriptionProvider::LocalWhisper => r matches Ok(TranscriptionRoute::LocalWhisper),
        },
{
    match settings.transcription_provider {
        TranscriptionProvider::OpenAi => match api_key {
            Some(k) => Ok(TranscriptionRoute::OpenAi { api_key: k }),
            None => Err(owned("OpenAI API key is not configured. Add it in Feedback -> Settings.")),
        },
        TranscriptionProvider::LocalWhisper => Ok(TranscriptionRoute::LocalWhisper),
    }
}

} // verus!
