//! The decisions around a native recording: only one runs at a time, it is
//! stopped by the session that started it, and its transcript, or the
//! reason there is none, is written into the dictation it produced.
use vstd::prelude::*;

use crate::external::{is_rfc3339, lowercase, new_uuid, to_lowercase, utc_now_rfc3339, uuid_shaped};
use crate::markdown::opt_view;
use crate::model::{entry_id, DictationEntry, Session, TimelineEntry};
use crate::storage::{join_path, path_join, session_dir, session_root};
use crate::text::{concat, contains_seq, contains_str, owned};
use crate::timeline::string_eq;

verus! {

/// A recording in progress: for which session, the dictation it becomes,
/// when it started and where its clip is written.
#[derive(Debug)]
pub struct RecordingInfo {
    pub session_id: String,
    pub entry_id: String,
    pub created_at: String,
    pub output_path: String,
}

/// Whether a recording is in progress, and which.
#[derive(Debug)]
pub struct Recorder {
    pub active: Option<RecordingInfo>,
}

/// The recorder after a request to start `info`: it starts only when none
/// is in progress.
pub open spec fn after_start(active: Option<RecordingInfo>, info: RecordingInfo) -> Option<RecordingInfo> {
    match active {
        Some(a) => Some(a),
        None => Some(info),
    }
}

/// The recorder after a request by `session_id` to stop: the recording
/// stops only when it belongs to that session.
pub open spec fn after_stop(active: Option<RecordingInfo>, session_id: Seq<char>) -> Option<RecordingInfo> {
    match active {
        Some(a) => if a.session_id@ == session_id {
            None
        } else {
            Some(a)
        },
        None => None,
    }
}

impl Recorder {
    /// A recorder with nothing in progress.
    pub fn new() -> (r: Recorder)
        ensures
            r.active is None,
    {
        Recorder { active: None }
    }

    /// Starts a recording, unless one is already in progress.
    pub fn start(&mut self, info: RecordingInfo) -> (r: Result<(), String>)
        ensures
            final(self).active == after_start(old(self).active, info),
            old(self).active is None <==> r is Ok,
            r matches Err(m) ==> m@ == "A recording is already in progress."@,
    {
        if self.active.is_some() {
            return Err(owned("A recording is already in progress."));
        }
        self.active = Some(info);
        Ok(())
    }

    /// Marks the recording in progress as started now, when its audio
    /// began to flow: its start becomes the current time, as an RFC 3339
    /// text; nothing else changes.
    pub fn mark_started(&mut self)
        ensures
            match old(self).active {
                None => final(self).active is None,
                Some(a) => final(self).active matches Some(b) && b.session_id == a.session_id
                    && b.entry_id == a.entry_id && b.output_path == a.output_path
                    && is_rfc3339(b.created_at@),
            },
    {
        match self.active.take() {
            None => {},
            Some(a) => {
                self.active = Some(
                    RecordingInfo {
                        session_id: a.session_id,
                        entry_id: a.entry_id,
                        created_at: utc_now_rfc3339(),
                        output_path: a.output_path,
                    },
                );
            },
        }
    }

    /// Stops the recording of `session_id` and hands it back.
    pub fn stop(&mut self, session_id: &str) -> (r: Result<RecordingInfo, String>)
        ensures
            final(self).active == after_stop(old(self).active, session_id@),
            match old(self).active {
                None => r matches Err(m) && m@ == "No recording is currently in progress."@,
                Some(a) => if a.session_id@ == session_id@ {
                    r == Ok::<RecordingInfo, String>(a)
                } else {
                    r matches Err(m) && m@ == "A different session is currently recording."@
                },
            },
    {
        let active = self.active.take();
        match active {
            None => Err(owned("No recording is currently in progress.")),
            Some(a) => {
                if string_eq(a.session_id.as_str(), session_id) {
                    Ok(a)
                } else {
                    self.active = Some(a);
                    Err(owned("A different session is currently recording."))
                }
            },
        }
    }
}

/// A started recording is stopped by its own session, which gets it back
/// and leaves nothing in progress; a request by another session changes
/// nothing.
pub proof fn law_recording_stops_only_for_its_session(info: RecordingInfo, other: Seq<char>)
    ensures
        after_stop(after_start(None, info), info.session_id@) is None,
        other != info.session_id@ ==> after_stop(after_start(None, info), other) == Some(info),
        after_start(Some(info), info) == Some(info),
{
}

/// Where the clip of a native recording is written: `<entry>-clip.wav` in
/// the assets directory of the session.
pub fn recording_output_path(root: &str, session_id: &str, entry_id: &str) -> (r: String)
    ensures
        r@ == path_join(path_join(session_dir(root@, session_id@), "assets"@), entry_id@ + "-clip.wav"@),
{
    let dir = session_root(root, session_id);
    let assets = join_path(dir.as_str(), "assets");
    let name = concat(entry_id, "-clip.wav");
    join_path(assets.as_str(), name.as_str())
}

/// A native recording about to start for `session_id`: a fresh UUID for
/// the dictation it becomes, its clip under the session's assets, and the
/// current time.
pub fn recording_info(root: &str, session_id: &str) -> (r: RecordingInfo)
    ensures
        r.session_id@ == session_id@,
        uuid_shaped(r.entry_id@),
        is_rfc3339(r.created_at@),
        r.output_path@ == path_join(
            path_join(session_dir(root@, session_id@), "assets"@),
            r.entry_id@ + "-clip.wav"@,
        ),
{
    let entry_id = new_uuid();
    let output_path = recording_output_path(root, session_id, entry_id.as_str());
    RecordingInfo {
        session_id: owned(session_id),
        entry_id,
        created_at: utc_now_rfc3339(),
        output_path,
    }
}

/// Whether an error message, in lower case, speaks of a permission.
pub fn mentions_permission(message: &str) -> (r: bool)
    ensures
        r == contains_seq(lowercase(message@), "permission"@),
{
    let lower = to_lowercase(message);
    contains_str(lower.as_str(), "permission")
}

/// The last dictation of a timeline, if any.
pub open spec fn last_dictation_id(s: Seq<TimelineEntry>) -> Option<Seq<char>>
    decreases s.len(),
{
    if s.len() == 0 {
        None
    } else {
        match s.last() {
            TimelineEntry::Dictation(d) => Some(d.id@),
            _ => last_dictation_id(s.drop_last()),
        }
    }
}

/// Which dictation a transcription is for: the one the payload names, else
/// the last dictation of the session.
pub fn transcription_target(payload_id: Option<String>, session: &Session) -> (r: Option<String>)
    ensures
        payload_id is Some ==> r == payload_id,
        payload_id is None ==> opt_view(r) == last_dictation_id(session.entries@),
{
    if payload_id.is_some() {
        return payload_id;
    }
    let mut i = session.entries.len();
    assert(session.entries@.take(i as int) =~= session.entries@);
    while i > 0
        invariant
            payload_id is None,
            i <= session.entries.len(),
            last_dictation_id(session.entries@) == last_dictation_id(session.entries@.take(i as int)),
        decreases i,
    {
        let ghost pre = session.entries@.take(i as int);
        assert(pre.last() == session.entries@[i - 1]);
        assert(pre.drop_last() =~= session.entries@.take(i - 1));
        match &session.entries[i - 1] {
            TimelineEntry::Dictation(d) => {
                return Some(d.id.clone());
            },
            _ => {},
        }
        i -= 1;
    }
    None
}

/// The position of the first dictation with identifier `id`.
pub open spec fn dictation_index(s: Seq<TimelineEntry>, id: Seq<char>) -> Option<int>
    decreases s.len(),
{
    if s.len() == 0 {
        None
    } else if (s[0] matches TimelineEntry::Dictation(d) && d.id@ == id) {
        Some(0)
    } else {
        match dictation_index(s.drop_first(), id) {
            Some(i) => Some(i + 1),
            None => None,
        }
    }
}

proof fn lemma_dictation_index(s: Seq<TimelineEntry>, id: Seq<char>)
    ensures
        match dictation_index(s, id) {
            Some(i) => 0 <= i < s.len() && (s[i] matches TimelineEntry::Dictation(d) && d.id@ == id)
                && forall|k: int| 0 <= k < i ==> !(#[trigger] s[k] matches TimelineEntry::Dictation(d) && d.id@ == id),
            None => forall|k: int| 0 <= k < s.len() ==> !(#[trigger] s[k] matches TimelineEntry::Dictation(d) && d.id@ == id),
        },
    decreases s.len(),
{
    if s.len() > 0 {
        lemma_dictation_index(s.drop_first(), id);
        assert forall|k: int| 0 < k < s.len() implies s[k] == s.drop_first()[k - 1] by {}
    }
}

/// The text written into a dictation after transcribing its clip: the
/// transcript, or `Transcription failed:` and the reason.
pub open spec fn outcome_text(outcome: Result<String, String>) -> Seq<char> {
    match outcome {
        Ok(t) => t@,
        Err(e) => "Transcription failed: "@ + e@,
    }
}

/// `r` is `session` with the outcome of transcribing written into the
/// dictation `entry_id` at time `now`, and whether that dictation was found.
pub open spec fn transcription_written(
    session: Session,
    entry_id: Seq<char>,
    outcome: Result<String, String>,
    now: Seq<char>,
    r: (Session, bool),
) -> bool {
    &&& r.0.id == session.id
    &&& r.0.title == session.title
    &&& r.0.mode == session.mode
    &&& r.0.created_at == session.created_at
    &&& match dictation_index(session.entries@, entry_id) {
        None => !r.1 && r.0.entries@ == session.entries@ && r.0.updated_at == session.updated_at,
        Some(i) => r.1 && r.0.updated_at@ == now && r.0.entries@.len() == session.entries@.len()
            && (forall|k: int| 0 <= k < session.entries@.len() && k != i ==> r.0.entries@[k] == session.entries@[k])
            && (session.entries@[i] matches TimelineEntry::Dictation(old_d)
            && r.0.entries@[i] matches TimelineEntry::Dictation(d)
            && d.id == old_d.id && d.created_at == old_d.created_at && d.audio_path == old_d.audio_path
            && d.transcript@ == outcome_text(outcome)
            && opt_view(d.corrected_transcript) == Some(outcome_text(outcome))),
    }
}

/// Writes the outcome of transcribing into the dictation `entry_id`: both
/// its transcript and its corrected transcript become the outcome's text,
/// and the session was updated `now`. Returns whether the dictation was
/// found; when it is not, the session is unchanged.
pub fn apply_transcription(
    session: Session,
    entry_id: &str,
    outcome: Result<String, String>,
    now: String,
) -> (r: (Session, bool))
    ensures
        transcription_written(session, entry_id@, outcome, now@, r),
{
    proof {
        lemma_dictation_index(session.entries@, entry_id@);
    }
    let mut s = session;
    let mut i: usize = 0;
    while i < s.entries.len()
        invariant
            i <= s.entries.len(),
            s.entries@ == session.entries@,
            s.id == session.id,
            s.title == session.title,
            s.mode == session.mode,
            s.created_at == session.created_at,
            s.updated_at == session.updated_at,
            forall|k: int| 0 <= k < i ==> !(#[trigger] s.entries@[k] matches TimelineEntry::Dictation(d) && d.id@ == entry_id@),
        decreases s.entries.len() - i,
    {
        let found = match &s.entries[i] {
            TimelineEntry::Dictation(d) => string_eq(d.id.as_str(), entry_id),
            _ => false,
        };
        if found {
            proof {
                lemma_dictation_index(s.entries@, entry_id@);
                match dictation_index(s.entries@, entry_id@) {
                    Some(j) => {
                        if j < i {
                            assert(!(s.entries@[j] matches TimelineEntry::Dictation(d) && d.id@ == entry_id@));
                        }
                        if j > i {
                            assert(s.entries@[i as int] matches TimelineEntry::Dictation(d) && d.id@ == entry_id@);
                        }
                    },
                    None => {
                        assert(s.entries@[i as int] matches TimelineEntry::Dictation(d) && d.id@ == entry_id@);
                    },
                }
            }
            let text = match outcome {
                Ok(t) => t,
                Err(e) => concat("Transcription failed: ", e.as_str()),
            };
            let ghost before = s.entries@;
            let old_entry = s.entries.remove(i);
            match old_entry {
                TimelineEntry::Dictation(d) => {
                    let updated = DictationEntry {
                        id: d.id,
                        created_at: d.created_at,
                        audio_path: d.audio_path,
                        transcript: text.clone(),
                        corrected_transcript: Some(text),
                    };
                    s.entries.insert(i, TimelineEntry::Dictation(updated));
                    assert(forall|k: int| 0 <= k < before.len() && k != i ==> s.entries@[k] == before[k]);
                },
                other => {
                    s.entries.insert(i, other);
                },
            }
            s.updated_at = now;
            return (s, true);
        }
        i += 1;
    }
    proof {
        lemma_dictation_index(s.entries@, entry_id@);
        match dictation_index(s.entries@, entry_id@) {
            Some(j) => {
                assert(!(s.entries@[j] matches TimelineEntry::Dictation(d) && d.id@ == entry_id@));
            },
            None => {},
        }
    }
    (s, false)
}

/// Writes the outcome of transcribing into the dictation `entry_id` now.
pub fn record_transcription(session: Session, entry_id: &str, outcome: Result<String, String>) -> (r: (
    Session,
    bool,
))
    ensures
        exists|now: Seq<char>|
            is_rfc3339(now) && #[trigger] transcription_written(session, entry_id@, outcome, now, r),
{
    let now = utc_now_rfc3339();
    apply_transcription(session, entry_id, outcome, now)
}

} // verus!
