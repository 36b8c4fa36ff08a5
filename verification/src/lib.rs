//! The verified core of Feedback, a dictation and screenshot review tool:
//! the session timeline and its markdown export, the storage decisions, the
//! settings, the transcription configuration and the recorder state.
pub mod model;
pub mod text;
pub mod timeline;
pub mod markdown;
pub mod external;
pub mod render;
pub mod storage;
pub mod openai;
pub mod settings;
pub mod whisper;
pub mod transcription;
pub mod sidecar;
pub mod recording;
