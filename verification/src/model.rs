//! The data of a feedback session: its timeline of captures, dictations and
//! text notes, the payloads the interface saves, and the settings of the
//! transcription providers.
use vstd::prelude::*;

verus! {

/// How a session is recorded.
#[derive(Clone, Copy, Debug, PartialEq, Eq, Structural)]
pub enum SessionMode {
    Dictation,
    CaptureNotes,
}

/// A point on a capture, each coordinate held as the bit pattern of its
/// IEEE-754 double (`f64::to_bits`), so that it passes through unchanged.
#[derive(Clone, Copy, Debug, PartialEq, Eq, Structural)]
pub struct Point {
    pub x_bits: u64,
    pub y_bits: u64,
}

/// The kind of an annotation drawn on a capture.
#[derive(Clone, Copy, Debug, PartialEq, Eq, Structural)]
pub enum ShapeKind {
    Arrow,
    Rectangle,
    Highlight,
}

/// An annotation drawn on a capture.
#[derive(Clone, Debug)]
pub struct AnnotationShape {
    pub id: String,
    pub kind: ShapeKind,
    pub start: Point,
    pub end: Point,
}

/// A screenshot in the timeline, with its annotations.
#[derive(Clone, Debug)]
pub struct CaptureEntry {
    pub id: String,
    pub created_at: String,
    pub original_image_path: String,
    pub annotated_image_path: Option<String>,
    pub shapes: Vec<AnnotationShape>,
    pub bubble_note: Option<String>,
    pub bubble_anchor: Option<Point>,
}

/// A dictated clip in the timeline, with its transcript.
#[derive(Clone, Debug)]
pub struct DictationEntry {
    pub id: String,
    pub created_at: String,
    pub audio_path: String,
    pub transcript: String,
    pub corrected_transcript: Option<String>,
}

/// A typed note in the timeline.
#[derive(Clone, Debug)]
pub struct TextNoteEntry {
    pub id: String,
    pub created_at: String,
    pub text: String,
}

/// One entry of a session's timeline.
#[derive(Clone, Debug)]
pub enum TimelineEntry {
    Capture(CaptureEntry),
    Dictation(DictationEntry),
    TextNote(TextNoteEntry),
}

/// A feedback session.
#[derive(Clone, Debug)]
pub struct Session {
    pub id: String,
    pub title: String,
    pub mode: SessionMode,
    pub created_at: String,
    pub updated_at: String,
    pub entries: Vec<TimelineEntry>,
}

/// The identifier of a timeline entry.
pub open spec fn entry_id(e: TimelineEntry) -> Seq<char> {
    match e {
        TimelineEntry::Capture(item) => item.id@,
        TimelineEntry::Dictation(item) => item.id@,
        TimelineEntry::TextNote(item) => item.id@,
    }
}

/// The creation time of a timeline entry, as stored.
pub open spec fn entry_created_at(e: TimelineEntry) -> Seq<char> {
    match e {
        TimelineEntry::Capture(item) => item.created_at@,
        TimelineEntry::Dictation(item) => item.created_at@,
        TimelineEntry::TextNote(item) => item.created_at@,
    }
}

impl TimelineEntry {
    /// The identifier of the entry.
    pub fn id(&self) -> (r: &str)
        ensures
            r@ == entry_id(*self),
    {
        match self {
            TimelineEntry::Capture(entry) => entry.id.as_str(),
            TimelineEntry::Dictation(entry) => entry.id.as_str(),
            TimelineEntry::TextNote(entry) => entry.id.as_str(),
        }
    }

    /// The creation time of the entry.
    pub fn created_at(&self) -> (r: &str)
        ensures
            r@ == entry_created_at(*self),
    {
        match self {
            TimelineEntry::Capture(entry) => entry.created_at.as_str(),
            TimelineEntry::Dictation(entry) => entry.created_at.as_str(),
            TimelineEntry::TextNote(entry) => entry.created_at.as_str(),
        }
    }
}

/// The summary of a stored session, as the session list shows it.
#[derive(Clone, Debug)]
pub struct SessionSummary {
    pub id: String,
    pub title: String,
    pub mode: SessionMode,
    pub created_at: String,
    pub updated_at: String,
    pub entry_count: usize,
    pub storage_path: String,
}

/// A capture as the interface shows it, with its images inlined.
#[derive(Clone, Debug)]
pub struct CaptureEntryView {
    pub id: String,
    pub created_at: String,
    pub original_image_path: String,
    pub annotated_image_path: Option<String>,
    pub shapes: Vec<AnnotationShape>,
    pub bubble_note: Option<String>,
    pub bubble_anchor: Option<Point>,
    pub original_image_data_url: String,
    pub annotated_image_data_url: Option<String>,
    pub display_image_data_url: String,
}

/// A dictation as the interface shows it, with its audio inlined.
#[derive(Clone, Debug)]
pub struct DictationEntryView {
    pub id: String,
    pub created_at: String,
    pub audio_path: String,
    pub transcript: String,
    pub corrected_transcript: Option<String>,
    pub audio_data_url: String,
}

/// One timeline entry as the interface shows it.
#[derive(Clone, Debug)]
pub enum TimelineEntryView {
    Capture(CaptureEntryView),
    Dictation(DictationEntryView),
    TextNote(TextNoteEntry),
}

/// A session as the interface shows it.
#[derive(Clone, Debug)]
pub struct SessionView {
    pub id: String,
    pub title: String,
    pub mode: SessionMode,
    pub created_at: String,
    pub updated_at: String,
    pub entries: Vec<TimelineEntryView>,
    pub storage_path: String,
    pub markdown_path: String,
    pub shortcut: String,
}

/// A screenshot taken but not yet saved into a session.
#[derive(Clone, Debug)]
pub struct CaptureDraft {
    pub id: String,
    pub created_at: String,
    pub mode: SessionMode,
    pub original_image_path: String,
    pub original_image_data_url: String,
}

/// What the interface sends to save a capture.
#[derive(Clone, Debug)]
pub struct CaptureSavePayload {
    pub id: String,
    pub created_at: String,
    pub original_image_path: String,
    pub shapes: Vec<AnnotationShape>,
    pub bubble_note: Option<String>,
    pub bubble_anchor: Option<Point>,
    pub annotated_image_data_url: Option<String>,
}

/// What the interface sends to save a text note.
#[derive(Clone, Debug)]
pub struct TextNotePayload {
    pub id: Option<String>,
    pub created_at: Option<String>,
    pub text: String,
}

/// What the interface sends to save a dictation.
#[derive(Clone, Debug)]
pub struct DictationSavePayload {
    pub id: Option<String>,
    pub created_at: Option<String>,
    pub audio_base64: Option<String>,
    pub transcript: Option<String>,
    pub corrected_transcript: Option<String>,
    pub audio_path: Option<String>,
}

/// Whether the system has granted a permission.
#[derive(Clone, Copy, Debug, PartialEq, Eq, Structural)]
pub enum PermissionState {
    Unknown,
    Granted,
    Denied,
}

/// The permissions the application needs.
#[derive(Clone, Copy, Debug, PartialEq, Eq, Structural)]
pub struct PermissionStatus {
    pub screen_recording: PermissionState,
    pub microphone: PermissionState,
}

/// Whether transcription can run, with which provider and model.
#[derive(Clone, Debug)]
pub struct TranscriptionStatus {
    pub configured: bool,
    pub provider: String,
    pub model: String,
}

/// The service that turns dictated audio into text.
#[derive(Clone, Copy, Debug, PartialEq, Eq, Structural)]
pub enum TranscriptionProvider {
    OpenAi,
    LocalWhisper,
}

/// The stored settings of the application.
#[derive(Clone, Debug)]
pub struct AppSettings {
    pub transcription_provider: TranscriptionProvider,
    pub openai_model: String,
    pub openai_base_url: String,
    pub openai_prompt: String,
    pub whisper_binary_path: String,
    pub whisper_model_path: String,
    pub whisper_language: String,
}

/// The settings as the settings window shows them.
#[derive(Clone, Debug)]
pub struct AppSettingsView {
    pub transcription_provider: TranscriptionProvider,
    pub openai_model: String,
    pub openai_base_url: String,
    pub openai_prompt: String,
    pub whisper_binary_path: String,
    pub whisper_model_path: String,
    pub whisper_language: String,
    pub has_openai_api_key: bool,
    pub config_path: String,
}

/// What the settings window sends to save the settings.
#[derive(Clone, Debug)]
pub struct AppSettingsSavePayload {
    pub transcription_provider: TranscriptionProvider,
    pub openai_model: String,
    pub openai_base_url: String,
    pub openai_prompt: String,
    pub openai_api_key: Option<String>,
    pub clear_openai_api_key: bool,
    pub whisper_binary_path: String,
    pub whisper_model_path: String,
    pub whisper_language: String,
}

} // verus!
