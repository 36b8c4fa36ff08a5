# Feedback

Feedback records spoken product or design feedback together with
screenshots, and keeps each review session as a folder with a markdown
export (`session.md`), structured metadata (`session.meta.json`) and the
audio clips and images under `assets/`.

## Layout

- `src/` is the library, verified with Verus: the session timeline and its
  ordering, the markdown export that interleaves screenshots into the
  transcript, what saving a capture, note or dictation does to a session,
  slugs and asset paths, data URLs, the settings and their defaults, the
  choice of transcription provider, the arguments and output of
  `whisper-cli` and `ffmpeg`, and the recorder state.
  `src/external.rs` holds the calls into outside code (chrono, base64, uuid
  and a few std path and text functions), each with the contract it is
  trusted to meet.
- `app/` is the desktop side: files, processes, keychain, HTTP and the
  commands the interface calls. It hands the library plain values and
  writes out what the library decides.
- `tests/` runs the library on concrete sessions, settings and tool output.
