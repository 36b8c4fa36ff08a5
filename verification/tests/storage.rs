use base64::Engine;
use feedback::model::{
    AnnotationShape, CaptureEntry, CaptureSavePayload, DictationEntry, DictationSavePayload, Point,
    Session, SessionMode, ShapeKind, TextNoteEntry, TextNotePayload, TimelineEntry,
    TimelineEntryView,
};
use feedback::render::{placement_requests, render_markdown, PlacementRequest};
use feedback::storage::{
    apply_capture_save, apply_dictation_save, apply_text_note, asset_absolute_path,
    asset_relative_path, audio_mime_type, capture_draft, create_session_record, data_url,
    decode_data_url, draft_capture, entry_views, view_files, new_session, plan_capture_original, record_capture,
    legacy_sessions_path, legacy_sessions_source, record_dictation, record_text_note,
    session_markdown_path, session_root, sessions_root_path, slugify, LegacySessions,
    sort_summaries, session_summary, StorageError,
};
use feedback::timeline::{existing_capture, existing_dictation, sort_entries, upsert_entry};

fn point(x: f64, y: f64) -> Point {
    Point { x_bits: x.to_bits(), y_bits: y.to_bits() }
}

/// The position of each entry among the transcript units, computed in
/// floating point as the application does.
fn boundaries(session: &Session) -> Vec<usize> {
    placement_requests(session)
        .iter()
        .map(|request| match request {
            Some(PlacementRequest { elapsed_millis, total_millis, unit_count }) => {
                let total = *total_millis as f64;
                let elapsed = (*elapsed_millis).clamp(0, total as i64) as f64;
                ((elapsed / total) * *unit_count as f64).round() as usize
            }
            None => 0,
        })
        .collect()
}

fn markdown(session: &Session) -> String {
    render_markdown(session, &boundaries(session))
}

fn session_with(title: &str, mode: SessionMode) -> Session {
    new_session(
        Some(title.to_string()),
        mode,
        "Apr 08 10:00",
        "2026-04-08-100000",
        "2026-04-08T10:00:00Z".to_string(),
    )
}

#[test]
fn creates_slugged_session_ids() {
    let session = create_session_record(Some("Design Review #12".into()), SessionMode::CaptureNotes);
    assert!(session.id.contains("design-review-12"));
}

#[test]
fn persists_ordered_timeline_markdown() {
    let session = session_with("Session", SessionMode::Dictation);

    let note = TextNotePayload {
        id: Some("note-1".into()),
        created_at: Some("2026-04-08T12:00:00Z".into()),
        text: "Later note".into(),
    };
    let session = apply_text_note(session, note, "unused".into(), "2026-04-08T12:30:00Z".into());

    let payload = CaptureSavePayload {
        id: "cap-1".into(),
        created_at: "2026-04-08T11:00:00Z".into(),
        original_image_path: "assets/cap-1-original.png".into(),
        shapes: vec![AnnotationShape {
            id: "shape-1".into(),
            kind: ShapeKind::Arrow,
            start: point(10.0, 10.0),
            end: point(40.0, 40.0),
        }],
        bubble_note: Some("Point here".into()),
        bubble_anchor: Some(point(20.0, 20.0)),
        annotated_image_data_url: None,
    };
    let dir = session_root("/tmp/sessions", &session.id);
    let original = plan_capture_original(&dir, &session, &payload, false).unwrap();
    assert!(original.import.is_none());
    let session = apply_capture_save(session, payload, original.relative, "2026-04-08T12:31:00Z".into());

    let markdown = markdown(&session);
    let capture_index = markdown.find("![](assets/cap-1-original.png)").unwrap();
    let note_index = markdown.find("Later note").unwrap();
    assert!(!markdown.contains("## Timeline"));
    assert!(!markdown.contains("Offset:"));
    assert!(capture_index < note_index);
}

#[test]
fn interleaves_capture_into_dictation_markdown() {
    let session = Session {
        id: "session-1".into(),
        title: "Session".into(),
        mode: SessionMode::Dictation,
        created_at: "2026-04-09T11:00:00Z".into(),
        updated_at: "2026-04-09T11:10:00Z".into(),
        entries: vec![
            TimelineEntry::Dictation(DictationEntry {
                id: "dict-1".into(),
                created_at: "2026-04-09T11:00:00Z".into(),
                audio_path: "assets/dict-1-clip.wav".into(),
                transcript: "First thought. Second thought. Third thought.".into(),
                corrected_transcript: None,
            }),
            TimelineEntry::Capture(CaptureEntry {
                id: "cap-1".into(),
                created_at: "2026-04-09T11:05:00Z".into(),
                original_image_path: "assets/cap-1-original.png".into(),
                annotated_image_path: None,
                shapes: Vec::new(),
                bubble_note: None,
                bubble_anchor: None,
            }),
        ],
    };

    let markdown = markdown(&session);
    let second_index = markdown.find("Second thought.").unwrap();
    let image_index = markdown.find("![](assets/cap-1-original.png)").unwrap();
    let third_index = markdown.find("Third thought.").unwrap();

    assert!(!markdown.contains("# Session"));
    assert!(!markdown.contains("Transcript:"));
    assert!(second_index < image_index);
    assert!(image_index < third_index);
}

#[test]
fn saves_dictation_and_uses_relative_audio_paths() {
    let session = session_with("Session", SessionMode::Dictation);
    let clip = base64::engine::general_purpose::STANDARD.encode(b"RIFFdemo");
    let dir = session_root("/tmp/sessions", &session.id);

    let (saved, write) = apply_dictation_save(
        session,
        &dir,
        DictationSavePayload {
            id: Some("dict-1".into()),
            created_at: Some("2026-04-08T11:00:00Z".into()),
            audio_base64: Some(clip),
            transcript: Some("Initial transcript".into()),
            corrected_transcript: Some("Corrected transcript".into()),
            audio_path: None,
        },
        None,
        "fresh".into(),
        "2026-04-08T11:01:00Z".into(),
    )
    .unwrap();

    let dictation = existing_dictation(&saved, "dict-1").unwrap();
    assert!(dictation.audio_path.starts_with("assets/"));
    assert_eq!(dictation.corrected_transcript.as_deref(), Some("Corrected transcript"));
    let write = write.unwrap();
    assert_eq!(write.bytes, b"RIFFdemo".to_vec());
    assert_eq!(write.path, format!("{dir}/assets/dict-1-clip.wav"));
}

#[test]
fn imports_external_capture_files_into_session_assets() {
    let session = session_with("Session", SessionMode::CaptureNotes);
    let dir = session_root("/tmp/sessions", &session.id);
    let external_capture = "/tmp/external/capture.png".to_string();
    let payload = CaptureSavePayload {
        id: "cap-import".into(),
        created_at: "2026-04-08T11:00:00Z".into(),
        original_image_path: external_capture.clone(),
        shapes: Vec::new(),
        bubble_note: None,
        bubble_anchor: None,
        annotated_image_data_url: None,
    };

    let original = plan_capture_original(&dir, &session, &payload, true).unwrap();
    let import = original.import.as_ref().unwrap();
    assert_eq!(import.source, external_capture);
    assert_eq!(import.destination, format!("{dir}/assets/cap-import-original.png"));

    let saved = apply_capture_save(session, payload, original.relative, "2026-04-08T11:01:00Z".into());
    let capture = existing_capture(&saved, "cap-import").unwrap();
    assert!(capture.original_image_path.starts_with("assets/"));
    let stored_capture = asset_absolute_path("/tmp/sessions", &saved.id, &capture.original_image_path);
    assert_eq!(stored_capture, import.destination);
}

#[test]
fn missing_external_capture_is_an_error() {
    let session = session_with("Session", SessionMode::CaptureNotes);
    let payload = CaptureSavePayload {
        id: "cap-x".into(),
        created_at: "2026-04-08T11:00:00Z".into(),
        original_image_path: "/elsewhere/capture.png".into(),
        shapes: Vec::new(),
        bubble_note: None,
        bubble_anchor: None,
        annotated_image_data_url: None,
    };
    let err = plan_capture_original("/tmp/sessions/s", &session, &payload, false).unwrap_err();
    assert_eq!(err.message(), "capture source file does not exist: /elsewhere/capture.png");
}

#[test]
fn capture_inside_session_directory_becomes_relative() {
    let session = session_with("Session", SessionMode::CaptureNotes);
    let payload = CaptureSavePayload {
        id: "cap-y".into(),
        created_at: "2026-04-08T11:00:00Z".into(),
        original_image_path: "/tmp/sessions/s/assets/cap-y-original.png".into(),
        shapes: Vec::new(),
        bubble_note: None,
        bubble_anchor: None,
        annotated_image_data_url: None,
    };
    let plan = plan_capture_original("/tmp/sessions/s", &session, &payload, false).unwrap();
    assert_eq!(plan.relative, "assets/cap-y-original.png");
    assert!(plan.import.is_none());
}

#[test]
fn slugify_examples() {
    assert_eq!(slugify("Design Review #12"), "design-review-12");
    assert_eq!(slugify("  --Hello,   World!--  "), "hello-world");
    assert_eq!(slugify("###"), "session");
    assert_eq!(slugify(""), "session");
    assert_eq!(slugify("Café Über"), "caf-ber");
}

#[test]
fn new_session_defaults_title() {
    let session = new_session(
        Some("   ".into()),
        SessionMode::Dictation,
        "Apr 08 10:00",
        "2026-04-08-100000",
        "2026-04-08T10:00:00Z".into(),
    );
    assert_eq!(session.title, "Review Apr 08 10:00");
    assert_eq!(session.id, "2026-04-08-100000-review-apr-08-10-00");
    assert_eq!(session.updated_at, "2026-04-08T10:00:00Z");
    assert!(session.entries.is_empty());
}

#[test]
fn text_note_replaces_same_id_and_trims() {
    let session = session_with("Session", SessionMode::CaptureNotes);
    let session = apply_text_note(
        session,
        TextNotePayload { id: Some("n".into()), created_at: None, text: "  first  ".into() },
        "fresh-1".into(),
        "2026-04-08T10:01:00Z".into(),
    );
    let session = apply_text_note(
        session,
        TextNotePayload { id: Some("n".into()), created_at: Some("t2".into()), text: "second".into() },
        "fresh-2".into(),
        "2026-04-08T10:02:00Z".into(),
    );
    let session = apply_text_note(
        session,
        TextNotePayload { id: None, created_at: None, text: "third".into() },
        "fresh-3".into(),
        "2026-04-08T10:03:00Z".into(),
    );
    assert_eq!(session.entries.len(), 2);
    match &session.entries[0] {
        TimelineEntry::TextNote(TextNoteEntry { id, created_at, text }) => {
            assert_eq!(id, "n");
            assert_eq!(created_at, "t2");
            assert_eq!(text, "second");
        }
        _ => panic!("expected a text note"),
    }
    match &session.entries[1] {
        TimelineEntry::TextNote(TextNoteEntry { id, created_at, text }) => {
            assert_eq!(id, "fresh-3");
            assert_eq!(created_at, "2026-04-08T10:03:00Z");
            assert_eq!(text, "third");
        }
        _ => panic!("expected a text note"),
    }
    assert_eq!(session.updated_at, "2026-04-08T10:03:00Z");
}

#[test]
fn upsert_appends_new_and_replaces_existing() {
    let note = |id: &str, text: &str| {
        TimelineEntry::TextNote(TextNoteEntry { id: id.into(), created_at: "t".into(), text: text.into() })
    };
    let mut entries = vec![note("a", "1"), note("b", "2")];
    upsert_entry(&mut entries, note("b", "3"));
    upsert_entry(&mut entries, note("c", "4"));
    let ids: Vec<&str> = entries.iter().map(|e| e.id()).collect();
    assert_eq!(ids, vec!["a", "b", "c"]);
    match &entries[1] {
        TimelineEntry::TextNote(n) => assert_eq!(n.text, "3"),
        _ => panic!("expected a text note"),
    }
}

#[test]
fn sort_orders_by_time_then_id() {
    let note = |id: &str, at: &str| {
        TimelineEntry::TextNote(TextNoteEntry { id: id.into(), created_at: at.into(), text: String::new() })
    };
    let sorted = sort_entries(vec![note("b", "2"), note("z", "1"), note("a", "2"), note("y", "1")]);
    let ids: Vec<&str> = sorted.iter().map(|e| e.id()).collect();
    assert_eq!(ids, vec!["y", "z", "a", "b"]);
    let again = sort_entries(sorted);
    let ids: Vec<&str> = again.iter().map(|e| e.id()).collect();
    assert_eq!(ids, vec!["y", "z", "a", "b"]);
}

#[test]
fn capture_notes_markdown_follows_timeline() {
    let session = Session {
        id: "s".into(),
        title: "S".into(),
        mode: SessionMode::CaptureNotes,
        created_at: "t0".into(),
        updated_at: "t9".into(),
        entries: vec![
            TimelineEntry::TextNote(TextNoteEntry {
                id: "n".into(),
                created_at: "2026-04-08T12:00:00Z".into(),
                text: "Para one\r\n\r\n\r\n  Para two  ".into(),
            }),
            TimelineEntry::Capture(CaptureEntry {
                id: "c".into(),
                created_at: "2026-04-08T11:00:00Z".into(),
                original_image_path: "assets/c-original.png".into(),
                annotated_image_path: Some("assets/c-annotated.png".into()),
                shapes: Vec::new(),
                bubble_note: Some("  Look  ".into()),
                bubble_anchor: None,
            }),
        ],
    };
    assert_eq!(
        markdown(&session),
        "![](assets/c-annotated.png)\n\nLook\n\nPara one\n\nPara two\n"
    );
}

#[test]
fn empty_session_renders_empty_document() {
    let session = session_with("Session", SessionMode::Dictation);
    assert_eq!(markdown(&session), "");
}

#[test]
fn dictation_without_inserts_and_placeholder_correction() {
    let session = Session {
        id: "s".into(),
        title: "S".into(),
        mode: SessionMode::Dictation,
        created_at: "t0".into(),
        updated_at: "2026-04-09T11:10:00Z".into(),
        entries: vec![TimelineEntry::Dictation(DictationEntry {
            id: "d".into(),
            created_at: "2026-04-09T11:00:00Z".into(),
            audio_path: "assets/d-clip.wav".into(),
            transcript: "Real words here.".into(),
            corrected_transcript: Some("Transcription failed: timeout".into()),
        })],
    };
    assert_eq!(markdown(&session), "Real words here.\n");
}

#[test]
fn dictation_with_unparsable_times_puts_transcript_first() {
    let session = Session {
        id: "s".into(),
        title: "S".into(),
        mode: SessionMode::Dictation,
        created_at: "t0".into(),
        updated_at: "later".into(),
        entries: vec![
            TimelineEntry::Dictation(DictationEntry {
                id: "d".into(),
                created_at: "a".into(),
                audio_path: "x.wav".into(),
                transcript: "One. Two.".into(),
                corrected_transcript: None,
            }),
            TimelineEntry::Capture(CaptureEntry {
                id: "c".into(),
                created_at: "b".into(),
                original_image_path: "img.png".into(),
                annotated_image_path: None,
                shapes: Vec::new(),
                bubble_note: None,
                bubble_anchor: None,
            }),
        ],
    };
    assert!(placement_requests(&session).iter().all(|r| r.is_none()));
    assert_eq!(markdown(&session), "One. Two.\n\n![](img.png)\n");
}

#[test]
fn placement_requests_name_the_inserts() {
    let session = Session {
        id: "s".into(),
        title: "S".into(),
        mode: SessionMode::Dictation,
        created_at: "t0".into(),
        updated_at: "2026-04-09T11:10:00Z".into(),
        entries: vec![
            TimelineEntry::Dictation(DictationEntry {
                id: "d".into(),
                created_at: "2026-04-09T11:00:00Z".into(),
                audio_path: "x.wav".into(),
                transcript: "One. Two. Three. Four.".into(),
                corrected_transcript: None,
            }),
            TimelineEntry::TextNote(TextNoteEntry {
                id: "n".into(),
                created_at: "2026-04-09T11:05:00Z".into(),
                text: "Note".into(),
            }),
        ],
    };
    let requests = placement_requests(&session);
    assert_eq!(requests.len(), 2);
    assert_eq!(requests[0], None);
    assert_eq!(
        requests[1],
        Some(PlacementRequest { elapsed_millis: 300_000, total_millis: 600_000, unit_count: 4 })
    );
    assert_eq!(render_markdown(&session, &vec![0, 2]), "One. Two.\n\nNote\n\nThree. Four.\n");
    assert_eq!(render_markdown(&session, &vec![0, 99]), "One. Two. Three. Four.\n\nNote\n");
    assert_eq!(render_markdown(&session, &vec![]), "Note\n\nOne. Two. Three. Four.\n");
}

#[test]
fn dictation_save_keeps_existing_fields() {
    let session = session_with("Session", SessionMode::Dictation);
    let dir = "/root/s";
    let (session, _) = apply_dictation_save(
        session,
        dir,
        DictationSavePayload {
            id: Some("d".into()),
            created_at: Some("c1".into()),
            audio_base64: None,
            transcript: None,
            corrected_transcript: None,
            audio_path: Some("/root/s/assets/d-clip.wav".into()),
        },
        Some("From recorder".into()),
        "fresh".into(),
        "n1".into(),
    )
    .unwrap();
    let d = existing_dictation(&session, "d").unwrap();
    assert_eq!(d.audio_path, "assets/d-clip.wav");
    assert_eq!(d.transcript, "From recorder");
    assert_eq!(d.corrected_transcript.as_deref(), Some("From recorder"));

    let (session, write) = apply_dictation_save(
        session,
        dir,
        DictationSavePayload {
            id: Some("d".into()),
            created_at: None,
            audio_base64: None,
            transcript: None,
            corrected_transcript: Some("   ".into()),
            audio_path: None,
        },
        None,
        "fresh".into(),
        "n2".into(),
    )
    .unwrap();
    assert!(write.is_none());
    assert_eq!(session.entries.len(), 1);
    let d = existing_dictation(&session, "d").unwrap();
    assert_eq!(d.created_at, "c1");
    assert_eq!(d.audio_path, "assets/d-clip.wav");
    assert_eq!(d.transcript, "From recorder");
    assert_eq!(d.corrected_transcript.as_deref(), Some("From recorder"));
    assert_eq!(session.updated_at, "n2");

    let (session, _) = apply_dictation_save(
        session,
        dir,
        DictationSavePayload {
            id: None,
            created_at: None,
            audio_base64: None,
            transcript: None,
            corrected_transcript: None,
            audio_path: None,
        },
        None,
        "fresh".into(),
        "n3".into(),
    )
    .unwrap();
    let d = existing_dictation(&session, "fresh").unwrap();
    assert_eq!(d.audio_path, "assets/fresh-clip.wav");
    assert_eq!(d.transcript, "Transcription unavailable");
    assert_eq!(d.created_at, "n3");
}

#[test]
fn dictation_save_errors() {
    let session = session_with("Session", SessionMode::Dictation);
    let err = apply_dictation_save(
        session,
        "/root/s",
        DictationSavePayload {
            id: None,
            created_at: None,
            audio_base64: None,
            transcript: None,
            corrected_transcript: None,
            audio_path: Some("/other/clip.wav".into()),
        },
        None,
        "fresh".into(),
        "n".into(),
    )
    .unwrap_err();
    assert_eq!(err.message(), "path /other/clip.wav is outside session directory");

    let session = session_with("Session", SessionMode::Dictation);
    let err = apply_dictation_save(
        session,
        "/root/s",
        DictationSavePayload {
            id: None,
            created_at: None,
            audio_base64: Some("not base64!".into()),
            transcript: None,
            corrected_transcript: None,
            audio_path: None,
        },
        None,
        "fresh".into(),
        "n".into(),
    )
    .unwrap_err();
    assert!(matches!(err, StorageError::InvalidBase64));
}

#[test]
fn data_urls_round_trip() {
    assert_eq!(data_url("image/png", b"png"), "data:image/png;base64,cG5n");
    assert_eq!(data_url("audio/wav", b""), "data:audio/wav;base64,");
    assert_eq!(data_url("x", b"ab"), "data:x;base64,YWI=");
    assert_eq!(data_url("x", b"a"), "data:x;base64,YQ==");
    assert_eq!(data_url("x", &[0xff, 0xfe, 0x00, 0x10]), "data:x;base64,//4AEA==");
    assert_eq!(decode_data_url("data:image/png;base64,cG5n").unwrap(), b"png".to_vec());
    assert!(matches!(decode_data_url("no comma here"), Err(StorageError::InvalidDataUrl)));
    assert!(matches!(decode_data_url("data:,***"), Err(StorageError::InvalidBase64)));
    assert_eq!(StorageError::InvalidDataUrl.message(), "invalid data URL payload");
}

#[test]
fn written_data_urls_read_back_to_the_same_bytes() {
    let clips: Vec<Vec<u8>> = vec![
        Vec::new(),
        b"RIFFdemo".to_vec(),
        (0u8..=255).collect(),
        vec![0, 0, 0, 0, 0],
    ];
    for bytes in clips {
        let url = data_url("audio/wav", &bytes);
        assert_eq!(decode_data_url(&url).unwrap(), bytes);
    }
}

#[test]
fn session_folder_named_by_time_and_title() {
    let session = new_session(
        None,
        SessionMode::Dictation,
        "Apr 10 10:34",
        "2026-04-10-103422",
        "2026-04-10T10:34:22Z".into(),
    );
    assert_eq!(session.id, "2026-04-10-103422-review-apr-10-10-34");
    assert_eq!(session_root("/Users/me/Documents/Feedback/sessions", &session.id),
        "/Users/me/Documents/Feedback/sessions/2026-04-10-103422-review-apr-10-10-34");
}

#[test]
fn paths_and_mime_types() {
    assert_eq!(session_root("/root", "s1"), "/root/s1");
    assert_eq!(session_root("/root/", "s1"), "/root/s1");
    assert_eq!(session_root("", "s1"), "s1");
    assert_eq!(asset_absolute_path("/root", "s1", "assets/a.png"), "/root/s1/assets/a.png");
    assert_eq!(asset_absolute_path("/root", "s1", "/abs/a.png"), "/abs/a.png");
    assert_eq!(session_markdown_path("/root", "s1"), "/root/s1/session.md");
    assert_eq!(asset_relative_path("id", "clip", "wav"), "assets/id-clip.wav");
    assert_eq!(audio_mime_type("/a/b.m4a"), "audio/m4a");
    assert_eq!(audio_mime_type("/a/b.mp3"), "audio/mpeg");
    assert_eq!(audio_mime_type("b.webm"), "audio/webm");
    assert_eq!(audio_mime_type("b.wav"), "audio/wav");
    assert_eq!(audio_mime_type("/a/.m4a"), "audio/wav");
    assert_eq!(audio_mime_type("noext"), "audio/wav");
}

#[test]
fn capture_draft_paths() {
    let draft = capture_draft(SessionMode::Dictation, String::new(), "u1".into(), "t".into(), "/tmp");
    assert_eq!(draft.original_image_path, "/tmp/imagediction-captures/u1-original.png");
}

#[test]
fn summaries_most_recent_first() {
    let mk = |id: &str, updated: &str| {
        let mut s = session_with(id, SessionMode::Dictation);
        s.id = id.into();
        s.updated_at = updated.into();
        session_summary(&s, format!("/root/{id}"))
    };
    let sorted = sort_summaries(vec![mk("a", "1"), mk("b", "3"), mk("c", "2"), mk("d", "3")]);
    let ids: Vec<&str> = sorted.iter().map(|s| s.id.as_str()).collect();
    assert_eq!(ids, vec!["b", "d", "c", "a"]);
    assert_eq!(sorted[0].storage_path, "/root/b");
}

fn uuid_shaped(id: &str) -> bool {
    id.len() == 36
        && id.char_indices().all(|(i, c)| match i {
            8 | 13 | 18 | 23 => c == '-',
            14 => c == '4',
            _ => c.is_ascii_digit() || ('a'..='f').contains(&c),
        })
}

#[test]
fn entries_saved_now_get_fresh_identifiers() {
    let session = create_session_record(None, SessionMode::Dictation);
    assert!(session.title.starts_with("Review "));
    assert!(session.id.ends_with(&format!("-{}", slugify(&session.title))));
    assert_eq!(session.created_at, session.updated_at);
    assert!(session.entries.is_empty());

    let session = record_text_note(
        session,
        TextNotePayload { id: None, created_at: None, text: " note ".into() },
    );
    let note = match &session.entries[0] {
        TimelineEntry::TextNote(n) => n.clone(),
        other => panic!("unexpected entry {other:?}"),
    };
    assert!(uuid_shaped(&note.id));
    assert_eq!(note.text, "note");
    assert_eq!(note.created_at, session.updated_at);

    let session = record_capture(
        session,
        CaptureSavePayload {
            id: "cap".into(),
            created_at: "2026-04-08T11:00:00Z".into(),
            original_image_path: "assets/cap-original.png".into(),
            shapes: Vec::new(),
            bubble_note: Some("  ".into()),
            bubble_anchor: None,
            annotated_image_data_url: None,
        },
        "assets/cap-original.png".into(),
    );
    let capture = existing_capture(&session, "cap").unwrap();
    assert_eq!(capture.bubble_note, None);

    let (session, write) = record_dictation(
        session,
        "/root/s",
        DictationSavePayload {
            id: None,
            created_at: None,
            audio_base64: None,
            transcript: None,
            corrected_transcript: None,
            audio_path: None,
        },
        None,
    )
    .unwrap();
    assert!(write.is_none());
    let dictation = match session.entries.last().unwrap() {
        TimelineEntry::Dictation(d) => d.clone(),
        other => panic!("unexpected entry {other:?}"),
    };
    assert!(uuid_shaped(&dictation.id));
    assert_eq!(dictation.audio_path, format!("assets/{}-clip.wav", dictation.id));
    assert_eq!(dictation.transcript, "Transcription unavailable");

    let draft = draft_capture(SessionMode::CaptureNotes, String::new(), "/tmp");
    assert!(uuid_shaped(&draft.id));
    assert_eq!(
        draft.original_image_path,
        format!("/tmp/imagediction-captures/{}-original.png", draft.id)
    );
}

#[test]
fn sessions_folder_and_earlier_sessions() {
    assert_eq!(sessions_root_path("/Users/me"), "/Users/me/Documents/Feedback/sessions");
    assert_eq!(legacy_sessions_path("/Users/me/"), "/Users/me/Documents/ImageDiction/sessions");
    assert_eq!(legacy_sessions_source(true, true, true), None);
    assert_eq!(legacy_sessions_source(false, true, true), Some(LegacySessions::Documents));
    assert_eq!(legacy_sessions_source(false, false, true), Some(LegacySessions::AppData));
    assert_eq!(legacy_sessions_source(false, false, false), None);
}

#[test]
fn one_view_per_entry_in_order() {
    let entries = vec![
        TimelineEntry::Dictation(DictationEntry {
            id: "d".into(),
            created_at: "t1".into(),
            audio_path: "assets/d-clip.m4a".into(),
            transcript: "hi".into(),
            corrected_transcript: None,
        }),
        TimelineEntry::Capture(CaptureEntry {
            id: "c".into(),
            created_at: "t2".into(),
            original_image_path: "assets/c-original.png".into(),
            annotated_image_path: Some("assets/c-annotated.png".into()),
            shapes: Vec::new(),
            bubble_note: None,
            bubble_anchor: None,
        }),
        TimelineEntry::TextNote(TextNoteEntry { id: "n".into(), created_at: "t3".into(), text: "x".into() }),
    ];
    assert_eq!(view_files(&entries[0], "/s"), vec!["/s/assets/d-clip.m4a"]);
    assert_eq!(
        view_files(&entries[1], "/s"),
        vec!["/s/assets/c-original.png", "/s/assets/c-annotated.png"]
    );
    assert!(view_files(&entries[2], "/s").is_empty());

    let files = vec![vec![b"aud".to_vec()], vec![b"png".to_vec(), b"ann".to_vec()], Vec::new()];
    let views = entry_views(entries, "/s", &files);
    assert_eq!(views.len(), 3);
    match &views[0] {
        TimelineEntryView::Dictation(d) => {
            assert_eq!(d.id, "d");
            assert_eq!(d.audio_path, "/s/assets/d-clip.m4a");
            assert_eq!(d.audio_data_url, "data:audio/m4a;base64,YXVk");
        }
        other => panic!("unexpected {other:?}"),
    }
    match &views[1] {
        TimelineEntryView::Capture(c) => {
            assert_eq!(c.id, "c");
            assert_eq!(c.created_at, "t2");
            assert_eq!(c.original_image_data_url, "data:image/png;base64,cG5n");
            assert_eq!(c.display_image_data_url, "data:image/png;base64,YW5u");
        }
        other => panic!("unexpected {other:?}"),
    }
    assert!(matches!(&views[2], TimelineEntryView::TextNote(n) if n.id == "n"));
}

#[test]
fn session_stamp_has_the_local_time_shape() {
    let session = create_session_record(Some("Design Review".into()), SessionMode::Dictation);
    let stamp = session.id.strip_suffix("-design-review").unwrap();
    let n = stamp.len();
    assert!(n >= 17);
    let bytes = stamp.as_bytes();
    assert_eq!(bytes[n - 13], b'-');
    assert_eq!(bytes[n - 10], b'-');
    assert_eq!(bytes[n - 7], b'-');
    assert!(chrono::DateTime::parse_from_rfc3339(&session.created_at).is_ok());
}
