//! The application settings: their defaults, how saved settings are
//! normalised, what the settings window's payload becomes, and where the
//! OpenAI key comes from.
use vstd::prelude::*;

use crate::external::{lossy_text, utf8_lossy};
use crate::markdown::opt_view;
use crate::model::{AppSettings, AppSettingsSavePayload, AppSettingsView, TranscriptionProvider};
use crate::openai::{default_base_url, default_model};
use crate::storage::{join_path, path_join};
use crate::text::{
    chars_of, concat, is_blank, is_blank_str, owned, starts_with, string_of, trim, trim_str,
    trim_vec,
};

verus! {

/// The places `whisper-cli` is looked for, in order.
pub open spec fn whisper_candidates() -> Seq<Seq<char>> {
    seq![
        "/opt/homebrew/bin/whisper-cli"@,
        "/usr/local/bin/whisper-cli"@,
        "/usr/bin/whisper-cli"@,
    ]
}

/// The places `whisper-cli` is looked for, in order.
pub fn whisper_binary_candidates() -> (r: Vec<String>)
    ensures
        crate::markdown::string_views(r@) == whisper_candidates(),
{
    let mut v: Vec<String> = Vec::new();
    v.push(owned("/opt/homebrew/bin/whisper-cli"));
    v.push(owned("/usr/local/bin/whisper-cli"));
    v.push(owned("/usr/bin/whisper-cli"));
    assert(crate::markdown::string_views(v@) =~= whisper_candidates());
    v
}

/// The first candidate that exists, `exists[k]` telling whether candidate
/// `k` exists (a missing flag counts as not existing).
pub open spec fn first_existing(candidates: Seq<Seq<char>>, exists: Seq<bool>) -> Option<Seq<char>>
    decreases candidates.len(),
{
    if candidates.len() == 0 {
        None
    } else if exists.len() > 0 && exists[0] {
        Some(candidates[0])
    } else {
        first_existing(candidates.drop_first(), if exists.len() > 0 {
            exists.drop_first()
        } else {
            exists
        })
    }
}

/// The first of the candidates that exists.
pub fn first_existing_path(candidates: &Vec<String>, exists: &Vec<bool>) -> (r: Option<String>)
    ensures
        opt_view(r) == first_existing(crate::markdown::string_views(candidates@), exists@),
{
    let ghost cs = crate::markdown::string_views(candidates@);
    let mut i: usize = 0;
    assert(cs.skip(0) == cs);
    assert(exists@.skip(0) == exists@);
    while i < candidates.len()
        invariant
            i <= candidates.len(),
            cs == crate::markdown::string_views(candidates@),
            first_existing(cs, exists@) == first_existing(cs.skip(i as int), if i <= exists.len() {
                exists@.skip(i as int)
            } else {
                exists@.skip(exists.len() as int)
            }),
        decreases candidates.len() - i,
    {
        let ghost rest = cs.skip(i as int);
        let ghost ex = if i <= exists.len() {
            exists@.skip(i as int)
        } else {
            exists@.skip(exists.len() as int)
        };
        assert(rest[0] == candidates@[i as int]@);
        assert(rest.drop_first() =~= cs.skip(i + 1));
        if i < exists.len() && exists[i] {
            assert(ex[0] == exists@[i as int]);
            return Some(candidates[i].clone());
        }
        proof {
            if i < exists.len() {
                assert(ex[0] == exists@[i as int]);
                assert(ex.drop_first() =~= exists@.skip(i + 1));
            } else {
                assert(ex.len() == 0);
            }
        }
        i += 1;
    }
    None
}

/// The first place where `whisper-cli` exists, `exists[k]` telling whether
/// candidate `k` of `whisper_binary_candidates` exists.
pub fn default_whisper_binary_path(exists: &Vec<bool>) -> (r: Option<String>)
    ensures
        opt_view(r) == first_existing(whisper_candidates(), exists@),
{
    let c = whisper_binary_candidates();
    first_existing_path(&c, exists)
}

/// A path with a leading `~` standing for the home directory, when it is
/// known; the path is trimmed first.
pub open spec fn expanded(raw: Seq<char>, home: Option<Seq<char>>) -> Seq<char> {
    let t = trim(raw);
    match home {
        Some(h) => if t == "~"@ {
            h
        } else if starts_with(t, "~/"@) {
            path_join(h, t.skip(2))
        } else {
            t
        },
        None => t,
    }
}

/// Expands a leading `~` in a path to the home directory.
pub fn expand_path(raw: &str, home: Option<String>) -> (r: String)
    ensures
        r@ == expanded(raw@, opt_view(home)),
{
    let t = trim_str(raw);
    match home {
        Some(h) => {
            if crate::timeline::string_eq(t.as_str(), "~") {
                h
            } else if crate::text::starts_with_str(t.as_str(), "~/") {
                let v = chars_of(t.as_str());
                proof {
                    reveal_strlit("~/");
                }
                let rest = crate::text::slice_vec(&v, 2, v.len());
                assert(rest@ =~= t@.skip(2));
                let rs = string_of(&rest);
                join_path(h.as_str(), rs.as_str())
            } else {
                t
            }
        },
        None => t,
    }
}

/// The settings used before any are saved: OpenAI with the model, address
/// and prompt from the environment when set, the defaults otherwise, and the
/// `whisper-cli` found on the machine.
pub fn default_settings(
    env_model: Option<String>,
    env_base_url: Option<String>,
    env_prompt: Option<String>,
    whisper_binary: Option<String>,
) -> (r: AppSettings)
    ensures
        r.transcription_provider == TranscriptionProvider::OpenAi,
        r.openai_model@ == match env_model {
            Some(m) => m@,
            None => "gpt-4o-transcribe"@,
        },
        r.openai_base_url@ == match env_base_url {
            Some(u) => u@,
            None => "https://api.openai.com/v1"@,
        },
        r.openai_prompt@ == match env_prompt {
            Some(p) => p@,
            None => Seq::<char>::empty(),
        },
        r.whisper_binary_path@ == match whisper_binary {
            Some(b) => b@,
            None => Seq::<char>::empty(),
        },
        r.whisper_model_path@ == Seq::<char>::empty(),
        r.whisper_language@ == Seq::<char>::empty(),
{
    AppSettings {
        transcription_provider: TranscriptionProvider::OpenAi,
        openai_model: match env_model {
            Some(m) => m,
            None => owned(default_model()),
        },
        openai_base_url: match env_base_url {
            Some(u) => u,
            None => owned(default_base_url()),
        },
        openai_prompt: match env_prompt {
            Some(p) => p,
            None => String::new(),
        },
        whisper_binary_path: match whisper_binary {
            Some(b) => b,
            None => String::new(),
        },
        whisper_model_path: String::new(),
        whisper_language: String::new(),
    }
}

/// Fills a blank OpenAI model or address with its default.
pub fn normalize_settings(settings: &mut AppSettings)
    ensures
        final(settings).openai_model@ == filled(old(settings).openai_model@, "gpt-4o-transcribe"@),
        final(settings).openai_base_url@ == filled(old(settings).openai_base_url@, "https://api.openai.com/v1"@),
        final(settings).transcription_provider == old(settings).transcription_provider,
        final(settings).openai_prompt == old(settings).openai_prompt,
        final(settings).whisper_binary_path == old(settings).whisper_binary_path,
        final(settings).whisper_model_path == old(settings).whisper_model_path,
        final(settings).whisper_language == old(settings).whisper_language,
{
    if is_blank_str(settings.openai_model.as_str()) {
        settings.openai_model = owned(default_model());
    }
    if is_blank_str(settings.openai_base_url.as_str()) {
        settings.openai_base_url = owned(default_base_url());
    }
}

/// The settings the settings window saves: every text field trimmed.
pub fn settings_from_payload(payload: &AppSettingsSavePayload) -> (r: AppSettings)
    ensures
        r.transcription_provider == payload.transcription_provider,
        r.openai_model@ == trim(payload.openai_model@),
        r.openai_base_url@ == trim(payload.openai_base_url@),
        r.openai_prompt@ == trim(payload.openai_prompt@),
        r.whisper_binary_path@ == trim(payload.whisper_binary_path@),
        r.whisper_model_path@ == trim(payload.whisper_model_path@),
        r.whisper_language@ == trim(payload.whisper_language@),
{
    AppSettings {
        transcription_provider: payload.transcription_provider,
        openai_model: trim_str(payload.openai_model.as_str()),
        openai_base_url: trim_str(payload.openai_base_url.as_str()),
        openai_prompt: trim_str(payload.openai_prompt.as_str()),
        whisper_binary_path: trim_str(payload.whisper_binary_path.as_str()),
        whisper_model_path: trim_str(payload.whisper_model_path.as_str()),
        whisper_language: trim_str(payload.whisper_language.as_str()),
    }
}

/// What saving the settings does to the stored OpenAI key.
#[derive(Debug)]
pub enum ApiKeyAction {
    /// Delete the stored key.
    Clear,
    /// Store this key.
    Store(String),
    /// Leave the stored key as it is.
    Keep,
}

/// What saving the settings does to the stored key: clear it when asked,
/// else store the given key trimmed when it is not blank, else keep it.
pub fn api_key_action(payload: &AppSettingsSavePayload) -> (r: ApiKeyAction)
    ensures
        payload.clear_openai_api_key ==> r is Clear,
        !payload.clear_openai_api_key ==> match payload.openai_api_key {
            Some(k) => if is_blank(k@) {
                r is Keep
            } else {
                r matches ApiKeyAction::Store(s) && s@ == trim(k@)
            },
            None => r is Keep,
        },
{
    if payload.clear_openai_api_key {
        return ApiKeyAction::Clear;
    }
    match &payload.openai_api_key {
        Some(k) => {
            if is_blank_str(k.as_str()) {
                ApiKeyAction::Keep
            } else {
                ApiKeyAction::Store(trim_str(k.as_str()))
            }
        },
        None => ApiKeyAction::Keep,
    }
}

/// The settings as the settings window shows them.
pub fn settings_view(settings: AppSettings, has_openai_api_key: bool, config_path: String) -> (r: AppSettingsView)
    ensures
        r.transcription_provider == settings.transcription_provider,
        r.openai_model == settings.openai_model,
        r.openai_base_url == settings.openai_base_url,
        r.openai_prompt == settings.openai_prompt,
        r.whisper_binary_path == settings.whisper_binary_path,
        r.whisper_model_path == settings.whisper_model_path,
        r.whisper_language == settings.whisper_language,
        r.has_openai_api_key == has_openai_api_key,
        r.config_path == config_path,
{
    AppSettingsView {
        transcription_provider: settings.transcription_provider,
        openai_model: settings.openai_model,
        openai_base_url: settings.openai_base_url,
        openai_prompt: settings.openai_prompt,
        whisper_binary_path: settings.whisper_binary_path,
        whisper_model_path: settings.whisper_model_path,
        whisper_language: settings.whisper_language,
        has_openai_api_key,
        config_path,
    }
}

/// The settings after Local Whisper is installed: it becomes the provider,
/// with the installed binary and model, and English when no language is set.
pub fn with_local_whisper(settings: AppSettings, binary: String, model: String) -> (r: AppSettings)
    ensures
        r.transcription_provider == TranscriptionProvider::LocalWhisper,
        r.whisper_binary_path == binary,
        r.whisper_model_path == model,
        r.whisper_language@ == if is_blank(settings.whisper_language@) {
            "en"@
        } else {
            settings.whisper_language@
        },
        r.openai_model == settings.openai_model,
        r.openai_base_url == settings.openai_base_url,
        r.openai_prompt == settings.openai_prompt,
{
    let mut s = settings;
    s.transcription_provider = TranscriptionProvider::LocalWhisper;
    s.whisper_binary_path = binary;
    s.whisper_model_path = model;
    if is_blank_str(s.whisper_language.as_str()) {
        s.whisper_language = owned("en");
    }
    s
}

/// A key read from the keychain counts only when it is not blank.
pub fn keychain_value(value: String) -> (r: Option<String>)
    ensures
        is_blank(value@) ==> r is None,
        !is_blank(value@) ==> r == Some(value),
{
    if is_blank_str(value.as_str()) {
        None
    } else {
        Some(value)
    }
}

/// The OpenAI key in use: the one in the keychain, else the one in the
/// environment, trimmed, when it is not blank.
pub fn resolve_api_key(keychain: Option<String>, env_key: Option<String>) -> (r: Option<String>)
    ensures
        keychain is Some ==> r == keychain,
        keychain is None ==> opt_view(r) == match env_key {
            Some(k) => if is_blank(k@) {
                None
            } else {
                Some(trim(k@))
            },
            None => None,
        },
{
    match keychain {
        Some(k) => Some(k),
        None => match env_key {
            Some(k) => {
                if is_blank_str(k.as_str()) {
                    None
                } else {
                    Some(trim_str(k.as_str()))
                }
            },
            None => None,
        },
    }
}

/// The message when Homebrew cannot install a formula, with its error
/// output when there is any.
pub open spec fn homebrew_message(formula: Seq<char>, stderr: Seq<u8>) -> Seq<char> {
    let detail = trim(utf8_lossy(stderr));
    if detail.len() == 0 {
        "Homebrew could not install "@ + formula + "."@
    } else {
        "Homebrew could not install "@ + formula + ": "@ + detail
    }
}

/// The message when Homebrew cannot install a formula.
pub fn homebrew_error(formula: &str, stderr: &[u8]) -> (r: String)
    ensures
        r@ == homebrew_message(formula@, stderr@),
{
    let text = lossy_text(stderr);
    let detail = trim_str(text.as_str());
    let a = concat("Homebrew could not install ", formula);
    if chars_of(detail.as_str()).len() == 0 {
        concat(a.as_str(), ".")
    } else {
        let b = concat(a.as_str(), ": ");
        concat(b.as_str(), detail.as_str())
    }
}

/// A setting with its default filled in when it is blank.
pub open spec fn filled(value: Seq<char>, default: Seq<char>) -> Seq<char> {
    if is_blank(value) {
        default
    } else {
        value
    }
}

/// After normalisation the OpenAI model and address are never blank, and
/// normalising again changes nothing.
pub proof fn law_normalized_settings_are_complete(model: Seq<char>, base_url: Seq<char>)
    ensures
        !is_blank(filled(model, "gpt-4o-transcribe"@)),
        !is_blank(filled(base_url, "https://api.openai.com/v1"@)),
        filled(filled(model, "gpt-4o-transcribe"@), "gpt-4o-transcribe"@) == filled(model, "gpt-4o-transcribe"@),
        filled(filled(base_url, "https://api.openai.com/v1"@), "https://api.openai.com/v1"@) == filled(base_url, "https://api.openai.com/v1"@),
{
    reveal_strlit("gpt-4o-transcribe");
    reveal_strlit("https://api.openai.com/v1");
    let m = "gpt-4o-transcribe"@;
    let u = "https://api.openai.com/v1"@;
    assert(crate::text::trim_start(m) == m);
    assert(crate::text::trim_end(m) == m);
    assert(crate::text::trim_start(u) == u);
    assert(crate::text::trim_end(u) == u);
}

} // verus!
