use feedback::markdown::{
    clean_text_block, is_transcription_placeholder, join_transcript_units, preferred_transcript,
    render_entry_blocks, split_markdown_blocks, split_sentences, split_transcript_units, split_word_chunks,
};
use feedback::model::{
    AppSettings, AppSettingsSavePayload, CaptureEntry, DictationEntry, Session, SessionMode, TextNoteEntry,
    TimelineEntry, TranscriptionProvider,
};
use feedback::openai::{default_base_url, default_model, transcription_request};
use feedback::recording::{
    apply_transcription, mentions_permission, record_transcription, recording_info,
    recording_output_path, transcription_target, Recorder, RecordingInfo,
};
use feedback::settings::{
    api_key_action, default_settings, default_whisper_binary_path, expand_path,
    homebrew_error, keychain_value, normalize_settings, resolve_api_key, settings_from_payload,
    settings_view, with_local_whisper, ApiKeyAction,
};
use feedback::sidecar::{
    dev_sidecar_path, ffmpeg_args, ffmpeg_progress_indicates_audio, process_error_message, resolve_ffmpeg_path,
    screencapture_command, sidecar_candidates,
};
use feedback::text::{compare_str, trim_str};
use feedback::transcription::{transcription_route, transcription_status, TranscriptionRoute};
use feedback::whisper::{
    binary_lookup, configured_binary, file_transcript, is_configured, model_path_setting,
    parse_transcript, searched_binary, BinaryLookup,
    printed_transcript_of, whisper_args, whisper_failure_message, whisper_primary_args,
    WhisperError,
};

fn settings(provider: TranscriptionProvider) -> AppSettings {
    AppSettings {
        transcription_provider: provider,
        openai_model: "gpt-4o-transcribe".into(),
        openai_base_url: "https://api.openai.com/v1".into(),
        openai_prompt: String::new(),
        whisper_binary_path: String::new(),
        whisper_model_path: String::new(),
        whisper_language: String::new(),
    }
}

fn payload() -> AppSettingsSavePayload {
    AppSettingsSavePayload {
        transcription_provider: TranscriptionProvider::LocalWhisper,
        openai_model: "  m  ".into(),
        openai_base_url: " u ".into(),
        openai_prompt: "\tp\n".into(),
        openai_api_key: Some("  sk-1  ".into()),
        clear_openai_api_key: false,
        whisper_binary_path: " /b ".into(),
        whisper_model_path: " /m ".into(),
        whisper_language: " en ".into(),
    }
}

#[test]
fn defaults_and_normalisation() {
    assert_eq!(default_model(), "gpt-4o-transcribe");
    assert_eq!(default_base_url(), "https://api.openai.com/v1");
    let d = default_settings(None, Some("http://local".into()), None, Some("/usr/bin/whisper-cli".into()));
    assert_eq!(d.transcription_provider, TranscriptionProvider::OpenAi);
    assert_eq!(d.openai_model, "gpt-4o-transcribe");
    assert_eq!(d.openai_base_url, "http://local");
    assert_eq!(d.openai_prompt, "");
    assert_eq!(d.whisper_binary_path, "/usr/bin/whisper-cli");

    let mut s = settings(TranscriptionProvider::OpenAi);
    s.openai_model = "   ".into();
    s.openai_base_url = "".into();
    normalize_settings(&mut s);
    assert_eq!(s.openai_model, "gpt-4o-transcribe");
    assert_eq!(s.openai_base_url, "https://api.openai.com/v1");
    s.openai_model = " custom ".into();
    normalize_settings(&mut s);
    assert_eq!(s.openai_model, " custom ");
}

#[test]
fn saving_settings_trims_and_chooses_key_action() {
    let p = payload();
    let s = settings_from_payload(&p);
    assert_eq!(s.openai_model, "m");
    assert_eq!(s.openai_base_url, "u");
    assert_eq!(s.openai_prompt, "p");
    assert_eq!(s.whisper_binary_path, "/b");
    assert_eq!(s.whisper_model_path, "/m");
    assert_eq!(s.whisper_language, "en");
    assert!(matches!(api_key_action(&p), ApiKeyAction::Store(k) if k == "sk-1"));

    let mut p = payload();
    p.clear_openai_api_key = true;
    assert!(matches!(api_key_action(&p), ApiKeyAction::Clear));
    let mut p = payload();
    p.openai_api_key = Some("   ".into());
    assert!(matches!(api_key_action(&p), ApiKeyAction::Keep));
    p.openai_api_key = None;
    assert!(matches!(api_key_action(&p), ApiKeyAction::Keep));

    let view = settings_view(s, true, "/cfg/settings.json".into());
    assert!(view.has_openai_api_key);
    assert_eq!(view.config_path, "/cfg/settings.json");
}

#[test]
fn api_key_sources() {
    assert_eq!(keychain_value("  ".into()), None);
    assert_eq!(keychain_value("k".into()), Some("k".to_string()));
    assert_eq!(resolve_api_key(Some("kc".into()), Some("env".into())), Some("kc".to_string()));
    assert_eq!(resolve_api_key(None, Some("  env  ".into())), Some("env".to_string()));
    assert_eq!(resolve_api_key(None, Some("   ".into())), None);
    assert_eq!(resolve_api_key(None, None), None);
}

#[test]
fn local_whisper_install_updates_settings() {
    let s = with_local_whisper(settings(TranscriptionProvider::OpenAi), "/bin/w".into(), "/m.bin".into());
    assert_eq!(s.transcription_provider, TranscriptionProvider::LocalWhisper);
    assert_eq!(s.whisper_language, "en");
    let mut t = settings(TranscriptionProvider::OpenAi);
    t.whisper_language = "de".into();
    let t = with_local_whisper(t, "/bin/w".into(), "/m.bin".into());
    assert_eq!(t.whisper_language, "de");
}

#[test]
fn path_expansion_and_candidates() {
    assert_eq!(expand_path(" ~ ", Some("/home/me".into())), "/home/me");
    assert_eq!(expand_path("~/models/a.bin", Some("/home/me".into())), "/home/me/models/a.bin");
    assert_eq!(expand_path("~/x", None), "~/x");
    assert_eq!(expand_path("/abs/x ", Some("/home/me".into())), "/abs/x");
    assert_eq!(default_whisper_binary_path(&vec![false, true, true]), Some("/usr/local/bin/whisper-cli".to_string()));
    assert_eq!(default_whisper_binary_path(&vec![false]), None);
    assert_eq!(resolve_ffmpeg_path(&vec![true]), Some("/opt/homebrew/bin/ffmpeg".to_string()));
}

#[test]
fn homebrew_messages() {
    assert_eq!(homebrew_error("whisper-cpp", b"  \n"), "Homebrew could not install whisper-cpp.");
    assert_eq!(homebrew_error("whisper-cpp", b" boom \n"), "Homebrew could not install whisper-cpp: boom");
}

#[test]
fn whisper_configuration() {
    let mut s = settings(TranscriptionProvider::LocalWhisper);
    assert!(!is_configured(&s, true, true));
    assert!(matches!(model_path_setting(&s, None), Err(WhisperError::ModelNotChosen)));
    assert_eq!(configured_binary(&s, None), None);
    s.whisper_model_path = " ~/m.bin ".into();
    s.whisper_binary_path = "~/bin/whisper-cli".into();
    assert!(is_configured(&s, true, true));
    assert!(!is_configured(&s, true, false));
    // A model path that points to a missing file leaves Local Whisper unavailable.
    assert!(!is_configured(&s, false, true));
    assert!(matches!(
        binary_lookup(&s, Some("/h".into()), true, Some("/usr/bin/whisper-cli".into())),
        Ok(BinaryLookup::Use(p)) if p == "/h/bin/whisper-cli"
    ));
    match binary_lookup(&s, Some("/h".into()), false, None) {
        Err(WhisperError::BinaryMissing { path }) => assert_eq!(path, "/h/bin/whisper-cli"),
        other => panic!("unexpected {other:?}"),
    }
    let mut unset = s.clone();
    unset.whisper_binary_path = "  ".into();
    assert!(matches!(
        binary_lookup(&unset, None, false, Some("/usr/bin/whisper-cli".into())),
        Ok(BinaryLookup::Use(p)) if p == "/usr/bin/whisper-cli"
    ));
    assert!(matches!(binary_lookup(&unset, None, false, None), Ok(BinaryLookup::SearchPath)));
    assert_eq!(searched_binary(true, b" /opt/bin/whisper-cli\n").unwrap(), "/opt/bin/whisper-cli");
    assert!(matches!(searched_binary(true, b" \n"), Err(WhisperError::BinaryNotFound)));
    assert!(matches!(searched_binary(false, b"/x"), Err(WhisperError::BinaryNotFound)));
    assert_eq!(model_path_setting(&s, Some("/h".into())).unwrap(), "/h/m.bin");
    assert_eq!(configured_binary(&s, Some("/h".into())), Some("/h/bin/whisper-cli".to_string()));
    assert_eq!(
        WhisperError::ModelMissing { path: "/x".into() }.message(),
        "Local Whisper model was not found at /x"
    );
}

#[test]
fn whisper_arguments() {
    assert_eq!(whisper_args("/m", "/a.wav", "  "), vec!["-m", "/m", "-f", "/a.wav"]);
    assert_eq!(whisper_args("/m", "/a.wav", " en "), vec!["-m", "/m", "-f", "/a.wav", "-l", "en"]);
    assert_eq!(
        whisper_primary_args("/m", "/a.wav", "", "/a"),
        vec!["-m", "/m", "-f", "/a.wav", "-otxt", "-of", "/a", "-nt", "-np"]
    );
}

#[test]
fn whisper_output_parsing() {
    let stdout = "whisper_init: loading model\n\n[00:00:00.000 --> 00:00:02.000]   Hello there.\r\n[00:00:02.000 --> 00:00:04.000]  General Kenobi!\nplain line\nnote: ignored\n";
    assert_eq!(parse_transcript(stdout), "Hello there. General Kenobi! plain line");
    assert_eq!(parse_transcript(""), "");
    assert_eq!(parse_transcript("[bracket without arrow]"), "[bracket without arrow]");
    assert!(matches!(printed_transcript_of(b"info: x\n"), Err(WhisperError::NoTranscript)));
    assert_eq!(printed_transcript_of(b"words\n").unwrap(), "words");
    assert_eq!(file_transcript("  text \n"), Some("text".to_string()));
    assert_eq!(file_transcript(" \n"), None);
    assert_eq!(whisper_failure_message(b" bad ", b"worse", "1"), "bad");
    assert_eq!(whisper_failure_message(b"", b" worse ", "1"), "worse");
    assert_eq!(whisper_failure_message(b"", b"", "exit status: 1"), "whisper-cli exited with status exit status: 1");
}

#[test]
fn transcription_selection() {
    let s = settings(TranscriptionProvider::OpenAi);
    let status = transcription_status(&s, true, false);
    assert!(status.configured);
    assert_eq!(status.provider, "openai");
    assert_eq!(status.model, "gpt-4o-transcribe");
    let w = settings(TranscriptionProvider::LocalWhisper);
    let status = transcription_status(&w, true, false);
    assert!(!status.configured);
    assert_eq!(status.provider, "local_whisper");
    assert_eq!(status.model, "Local Whisper");

    assert!(matches!(transcription_route(&s, Some("k".into())), Ok(TranscriptionRoute::OpenAi { api_key }) if api_key == "k"));
    assert_eq!(
        transcription_route(&s, None).unwrap_err(),
        "OpenAI API key is not configured. Add it in Feedback -> Settings."
    );
    assert!(matches!(transcription_route(&w, None), Ok(TranscriptionRoute::LocalWhisper)));
}

#[test]
fn openai_request() {
    let mut s = settings(TranscriptionProvider::OpenAi);
    s.openai_base_url = " http://proxy/v1 ".into();
    s.openai_model = "  ".into();
    let r = transcription_request(&s, Some("env prompt".into()), "/a/b/clip.m4a");
    assert_eq!(r.url, "http://proxy/v1/audio/transcriptions");
    assert_eq!(r.model, "gpt-4o-transcribe");
    assert_eq!(r.prompt.as_deref(), Some("env prompt"));
    assert_eq!(r.file_name, "clip.m4a");
    assert_eq!(r.mime, "audio/m4a");
    s.openai_prompt = "Mine".into();
    let r = transcription_request(&s, Some("env".into()), "/");
    assert_eq!(r.prompt.as_deref(), Some("Mine"));
    assert_eq!(r.file_name, "audio.wav");
    assert_eq!(r.mime, "audio/wav");
    s.openai_prompt = String::new();
    let r = transcription_request(&s, Some("  ".into()), "x.wav");
    assert_eq!(r.prompt, None);
}

#[test]
fn ffmpeg_progress_lines() {
    assert!(ffmpeg_progress_indicates_audio("out_time_ms=1234"));
    assert!(ffmpeg_progress_indicates_audio("out_time_ms= +5 "));
    assert!(!ffmpeg_progress_indicates_audio("out_time_ms=0"));
    assert!(!ffmpeg_progress_indicates_audio("out_time_ms=-5"));
    assert!(!ffmpeg_progress_indicates_audio("out_time_ms="));
    assert!(!ffmpeg_progress_indicates_audio("out_time_ms=99999999999999999999"));
    assert!(ffmpeg_progress_indicates_audio("out_time_ms=18446744073709551615"));
    assert!(!ffmpeg_progress_indicates_audio("out_time_ms=18446744073709551616"));
    assert!(!ffmpeg_progress_indicates_audio("out_time=12"));
    assert_eq!(ffmpeg_args("/o.wav").last().unwrap(), "/o.wav");
    assert_eq!(ffmpeg_args("/o.wav").len(), 21);
    assert_eq!(screencapture_command(true), "/usr/sbin/screencapture");
    assert_eq!(screencapture_command(false), "screencapture");
    assert_eq!(process_error_message(b"  ", "fallback"), "fallback");
    assert_eq!(process_error_message(b" denied \n", "fallback"), "denied");
}

#[test]
fn recorder_state() {
    let info = |s: &str| RecordingInfo {
        session_id: s.into(),
        entry_id: "e".into(),
        created_at: "t".into(),
        output_path: "/o".into(),
    };
    let mut r = Recorder::new();
    assert_eq!(r.stop("s1").unwrap_err(), "No recording is currently in progress.");
    assert!(r.start(info("s1")).is_ok());
    assert_eq!(r.start(info("s2")).unwrap_err(), "A recording is already in progress.");
    assert_eq!(r.stop("s2").unwrap_err(), "A different session is currently recording.");
    assert_eq!(r.active.as_ref().unwrap().session_id, "s1");
    let stopped = r.stop("s1").unwrap();
    assert_eq!(stopped.session_id, "s1");
    assert!(r.active.is_none());
    assert_eq!(recording_output_path("/root", "s1", "e1"), "/root/s1/assets/e1-clip.wav");

    let fresh = recording_info("/root", "s3");
    assert_eq!(fresh.session_id, "s3");
    assert_eq!(fresh.entry_id.len(), 36);
    assert_eq!(fresh.output_path, format!("/root/s3/assets/{}-clip.wav", fresh.entry_id));
    let entry_id = fresh.entry_id.clone();
    assert!(r.start(fresh).is_ok());
    r.mark_started();
    let active = r.active.as_ref().unwrap();
    assert_eq!(active.entry_id, entry_id);
    assert_eq!(active.session_id, "s3");
    assert!(chrono::DateTime::parse_from_rfc3339(&active.created_at).is_ok());
    let mut idle = Recorder::new();
    idle.mark_started();
    assert!(idle.active.is_none());
}

#[test]
fn permission_messages() {
    assert!(mentions_permission("Screen recording PERMISSION denied"));
    assert!(!mentions_permission("device busy"));
}

fn dictation_session() -> Session {
    Session {
        id: "s".into(),
        title: "S".into(),
        mode: SessionMode::Dictation,
        created_at: "t0".into(),
        updated_at: "t1".into(),
        entries: vec![
            TimelineEntry::Dictation(DictationEntry {
                id: "d1".into(),
                created_at: "a".into(),
                audio_path: "assets/d1-clip.wav".into(),
                transcript: "x".into(),
                corrected_transcript: None,
            }),
            TimelineEntry::Dictation(DictationEntry {
                id: "d2".into(),
                created_at: "b".into(),
                audio_path: "assets/d2-clip.wav".into(),
                transcript: "y".into(),
                corrected_transcript: None,
            }),
        ],
    }
}

#[test]
fn transcription_outcomes_are_written_into_the_dictation() {
    let session = dictation_session();
    assert_eq!(transcription_target(None, &session), Some("d2".to_string()));
    assert_eq!(transcription_target(Some("d1".into()), &session), Some("d1".to_string()));

    let (session, found) = apply_transcription(session, "d1", Ok("hello".into()), "t2".into());
    assert!(found);
    assert_eq!(session.updated_at, "t2");
    match &session.entries[0] {
        TimelineEntry::Dictation(d) => {
            assert_eq!(d.transcript, "hello");
            assert_eq!(d.corrected_transcript.as_deref(), Some("hello"));
            assert_eq!(d.audio_path, "assets/d1-clip.wav");
        }
        _ => panic!("expected a dictation"),
    }
    let (session, found) = apply_transcription(session, "d2", Err("no key".into()), "t3".into());
    assert!(found);
    match &session.entries[1] {
        TimelineEntry::Dictation(d) => {
            assert_eq!(d.transcript, "Transcription failed: no key");
            assert_eq!(d.corrected_transcript.as_deref(), Some("Transcription failed: no key"));
            assert!(is_transcription_placeholder(&d.transcript));
        }
        _ => panic!("expected a dictation"),
    }
    let (session, found) = apply_transcription(session, "zz", Ok("x".into()), "t4".into());
    assert!(!found);
    assert_eq!(session.updated_at, "t3");
    let (session, found) = record_transcription(session, "zz", Ok("x".into()));
    assert!(!found);
    assert_eq!(session.updated_at, "t3");
    let (session, found) = record_transcription(session, "d1", Ok("again".into()));
    assert!(found);
    assert_ne!(session.updated_at, "t3");
    match &session.entries[0] {
        TimelineEntry::Dictation(d) => assert_eq!(d.transcript, "again"),
        _ => panic!("expected a dictation"),
    }
}

#[test]
fn transcript_units_and_blocks() {
    assert_eq!(
        split_sentences("First thought. Second thought!\nThird?  tail "),
        vec!["First thought.", "Second thought!", "Third?", "tail"]
    );
    assert_eq!(split_sentences("  "), Vec::<String>::new());
    assert_eq!(split_word_chunks(" a b  c d e ", 2), vec!["a b", "c d", "e"]);
    assert_eq!(split_word_chunks("a b", 0), vec!["a", "b"]);
    let long = "w ".repeat(30);
    let units = split_transcript_units(&long);
    assert_eq!(units.len(), 3);
    assert_eq!(units[2], "w w");
    assert_eq!(split_transcript_units("One sentence only."), vec!["One sentence only."]);
    assert_eq!(join_transcript_units(&vec![" a ".into(), "  ".into(), "b".into()]), "a b");
    assert_eq!(split_markdown_blocks("a\r\n\r\nb\n\n\n\nc"), vec!["a", "b", "c"]);
    assert!(is_transcription_placeholder("  transcription UNAVAILABLE "));
    assert!(is_transcription_placeholder("Transcription failed: x"));
    assert!(!is_transcription_placeholder("transcription failed: x"));
    let d = DictationEntry {
        id: "d".into(),
        created_at: "t".into(),
        audio_path: "a".into(),
        transcript: "  raw  ".into(),
        corrected_transcript: Some("  fixed \r\n".into()),
    };
    assert_eq!(preferred_transcript(&d), "fixed");
    assert_eq!(clean_text_block(Some("  a\r\nb  ")), Some("a\nb".to_string()));
    assert_eq!(clean_text_block(Some(" \r\n ")), None);
    assert_eq!(clean_text_block(None), None);
    assert_eq!(render_entry_blocks(&TimelineEntry::Dictation(d)), vec!["fixed"]);
    let capture = TimelineEntry::Capture(CaptureEntry {
        id: "c".into(),
        created_at: "t".into(),
        original_image_path: "assets/c-original.png".into(),
        annotated_image_path: Some("assets/c-annotated.png".into()),
        shapes: Vec::new(),
        bubble_note: Some("  look here  ".into()),
        bubble_anchor: None,
    });
    assert_eq!(
        render_entry_blocks(&capture),
        vec!["![](assets/c-annotated.png)", "look here"]
    );
    let note = TimelineEntry::TextNote(TextNoteEntry {
        id: "n".into(),
        created_at: "t".into(),
        text: "one\n\n two ".into(),
    });
    assert_eq!(render_entry_blocks(&note), vec!["one", "two"]);
}

#[test]
fn text_helpers() {
    assert_eq!(trim_str("\u{3000} x \u{2028}"), "x");
    assert_eq!(compare_str("a", "b"), -1);
    assert_eq!(compare_str("b", "a"), 1);
    assert_eq!(compare_str("ab", "ab"), 0);
    assert_eq!(compare_str("a", "ab"), -1);
    assert_eq!(compare_str("é", "z"), 1);
}

#[test]
fn sidecar_places_in_order() {
    assert_eq!(
        sidecar_candidates(Some("/App/MacOS".into()), Some("/App/Resources".into())),
        vec![
            "/App/MacOS/imagediction-sidecar",
            "/App/MacOS/imagediction-sidecar-aarch64-apple-darwin",
            "/App/Resources/imagediction-sidecar",
            "/App/Resources/../MacOS/imagediction-sidecar",
            "/App/Resources/imagediction-sidecar-aarch64-apple-darwin",
        ]
    );
    assert!(sidecar_candidates(None, None).is_empty());
    assert_eq!(
        dev_sidecar_path("/repo/src-tauri"),
        "/repo/src-tauri/binaries/imagediction-sidecar-aarch64-apple-darwin"
    );
}
