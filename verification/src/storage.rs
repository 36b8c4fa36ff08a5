//! Where a session's files live, and what saving an entry does to the
//! session: the new entry, the files to write or move, and the errors.
//! Reading and writing the files is left to the caller.
use vstd::prelude::*;

use crate::external::{
    base64_decoded, base64_encode, decode_base64, encode_base64, extension_of,
    is_rfc3339, local_label_shaped, local_now_label_and_stamp, local_stamp_shaped, new_uuid, path_extension, path_strip_prefix, strip_path_prefix,
    utc_now_rfc3339, uuid_shaped,
};
use crate::model::{
    entry_id, CaptureDraft, CaptureEntry, CaptureEntryView, CaptureSavePayload, DictationEntry,
    DictationEntryView, DictationSavePayload, Session, SessionMode, SessionSummary, SessionView,
    TextNoteEntry, TextNotePayload, TimelineEntry, TimelineEntryView,
};
use crate::markdown::{opt_view, string_views};
use crate::text::{
    append_vec, ascii_lower, chars_of, concat, is_blank, is_blank_str, owned, seq_lt, string_of,
    to_ascii_lowercase, trim, trim_str,
};
use crate::timeline::{
    existing_capture, existing_dictation, first_capture, first_dictation, index_of_id, upsert,
    upsert_entry, string_eq,
};

verus! {

pub const SESSION_META_FILE: &'static str = "session.meta.json";

pub const SESSION_MARKDOWN_FILE: &'static str = "session.md";

pub const SESSION_ASSETS_DIR: &'static str = "assets";

pub const CAPTURE_SHORTCUT: &'static str = "CmdOrCtrl+Shift+4";

/// Why saving to a session failed.
#[derive(Debug)]
pub enum StorageError {
    /// A data URL without the comma before its payload.
    InvalidDataUrl,
    /// A payload that is not valid base64.
    InvalidBase64,
    /// An absolute path that does not lie inside the session directory.
    OutsideSessionDirectory { path: String },
    /// A capture file to import that does not exist.
    CaptureSourceMissing { path: String },
}

impl StorageError {
    /// The message of the error.
    pub fn message(&self) -> (r: String)
        ensures
            r@ == storage_error_message(*self),
    {
        match self {
            StorageError::InvalidDataUrl => owned("invalid data URL payload"),
            StorageError::InvalidBase64 => owned("failed to decode base64 file payload"),
            StorageError::OutsideSessionDirectory { path } => {
                let a = concat("path ", path.as_str());
                concat(a.as_str(), " is outside session directory")
            },
            StorageError::CaptureSourceMissing { path } => concat(
                "capture source file does not exist: ",
                path.as_str(),
            ),
        }
    }
}

/// The message of a storage error.
pub open spec fn storage_error_message(e: StorageError) -> Seq<char> {
    match e {
        StorageError::InvalidDataUrl => "invalid data URL payload"@,
        StorageError::InvalidBase64 => "failed to decode base64 file payload"@,
        StorageError::OutsideSessionDirectory { path } => "path "@ + path@
            + " is outside session directory"@,
        StorageError::CaptureSourceMissing { path } => "capture source file does not exist: "@
            + path@,
    }
}

/// A path is absolute when it begins at the root (`/`).
pub open spec fn is_absolute(p: Seq<char>) -> bool {
    p.len() > 0 && p[0] == '/'
}

/// `part` appended to `base` as `Path::join` does on Unix: an absolute
/// `part` replaces `base`; otherwise a separator is put between them unless
/// `base` is empty or already ends with one.
pub open spec fn path_join(base: Seq<char>, part: Seq<char>) -> Seq<char> {
    if is_absolute(part) {
        part
    } else if base.len() == 0 || base.last() == '/' {
        base + part
    } else {
        base + seq!['/'] + part
    }
}

/// Whether a path is absolute.
pub fn is_absolute_path(p: &str) -> (r: bool)
    ensures
        r == is_absolute(p@),
{
    let v = chars_of(p);
    v.len() > 0 && v[0] == '/'
}

/// Joins two paths.
pub fn join_path(base: &str, part: &str) -> (r: String)
    ensures
        r@ == path_join(base@, part@),
{
    if is_absolute_path(part) {
        return owned(part);
    }
    let mut v = chars_of(base);
    if v.len() > 0 && v[v.len() - 1] != '/' {
        v.push('/');
    }
    let p = chars_of(part);
    append_vec(&mut v, &p);
    string_of(&v)
}

/// The directory of a session: the session's identifier under the root.
pub open spec fn session_dir(root: Seq<char>, session_id: Seq<char>) -> Seq<char> {
    path_join(root, session_id)
}

/// The directory of a session.
pub fn session_root(root: &str, session_id: &str) -> (r: String)
    ensures
        r@ == session_dir(root@, session_id@),
{
    join_path(root, session_id)
}

/// The folder sessions are kept in: `Documents/Feedback/sessions` under
/// the home directory.
pub fn sessions_root_path(home: &str) -> (r: String)
    ensures
        r@ == path_join(path_join(path_join(home@, "Documents"@), "Feedback"@), "sessions"@),
{
    let documents = join_path(home, "Documents");
    let app = join_path(documents.as_str(), "Feedback");
    join_path(app.as_str(), "sessions")
}

/// The folder an earlier version kept sessions in:
/// `Documents/ImageDiction/sessions` under the home directory.
pub fn legacy_sessions_path(home: &str) -> (r: String)
    ensures
        r@ == path_join(path_join(path_join(home@, "Documents"@), "ImageDiction"@), "sessions"@),
{
    let documents = join_path(home, "Documents");
    let app = join_path(documents.as_str(), "ImageDiction");
    join_path(app.as_str(), "sessions")
}

/// Where existing sessions are copied from when the sessions folder is
/// created.
#[derive(Clone, Copy, Debug, PartialEq, Eq, Structural)]
pub enum LegacySessions {
    /// The earlier folder under Documents.
    Documents,
    /// The `sessions` folder in the application's data directory.
    AppData,
}

/// Which earlier sessions to copy: none once the sessions folder exists;
/// else those under Documents when that folder exists; else those in the
/// application's data directory when that folder exists.
pub fn legacy_sessions_source(root_exists: bool, documents_exists: bool, app_data_exists: bool) -> (r:
    Option<LegacySessions>)
    ensures
        r == if root_exists {
            None
        } else if documents_exists {
            Some(LegacySessions::Documents)
        } else if app_data_exists {
            Some(LegacySessions::AppData)
        } else {
            None
        },
{
    if root_exists {
        None
    } else if documents_exists {
        Some(LegacySessions::Documents)
    } else if app_data_exists {
        Some(LegacySessions::AppData)
    } else {
        None
    }
}

/// Where a file named relative to a session's directory lies.
pub fn asset_absolute_path(root: &str, session_id: &str, relative: &str) -> (r: String)
    ensures
        r@ == path_join(session_dir(root@, session_id@), relative@),
{
    let dir = session_root(root, session_id);
    join_path(dir.as_str(), relative)
}

/// The metadata file of a session.
pub fn session_meta_path(root: &str, session_id: &str) -> (r: String)
    ensures
        r@ == path_join(session_dir(root@, session_id@), "session.meta.json"@),
{
    let dir = session_root(root, session_id);
    join_path(dir.as_str(), "session.meta.json")
}

/// The markdown export of a session.
pub fn session_markdown_path(root: &str, session_id: &str) -> (r: String)
    ensures
        r@ == path_join(session_dir(root@, session_id@), "session.md"@),
{
    let dir = session_root(root, session_id);
    join_path(dir.as_str(), "session.md")
}

/// The directory of a session's assets.
pub fn session_assets_dir(root: &str, session_id: &str) -> (r: String)
    ensures
        r@ == path_join(session_dir(root@, session_id@), "assets"@),
{
    let dir = session_root(root, session_id);
    join_path(dir.as_str(), "assets")
}

/// The path, relative to the session directory, of an asset of an entry.
pub open spec fn asset_path(id: Seq<char>, suffix: Seq<char>, ext: Seq<char>) -> Seq<char> {
    "assets/"@ + id + "-"@ + suffix + "."@ + ext
}

/// The path of an asset of an entry, relative to the session directory.
pub fn asset_relative_path(id: &str, suffix: &str, ext: &str) -> (r: String)
    ensures
        r@ == asset_path(id@, suffix@, ext@),
{
    let a = concat("assets/", id);
    let b = concat(a.as_str(), "-");
    let c = concat(b.as_str(), suffix);
    let d = concat(c.as_str(), ".");
    concat(d.as_str(), ext)
}

/// The media type of an audio file, by its extension.
pub open spec fn audio_mime(ext: Option<Seq<char>>) -> Seq<char> {
    if ext == Some("m4a"@) {
        "audio/m4a"@
    } else if ext == Some("mp3"@) {
        "audio/mpeg"@
    } else if ext == Some("webm"@) {
        "audio/webm"@
    } else {
        "audio/wav"@
    }
}

/// The media type of an audio file: m4a, mp3 and webm by their extension,
/// wav otherwise.
pub fn audio_mime_type(path: &str) -> (r: String)
    ensures
        r@ == audio_mime(path_extension(path@)),
{
    match extension_of(path) {
        Some(ext) => {
            if string_eq(ext.as_str(), "m4a") {
                owned("audio/m4a")
            } else if string_eq(ext.as_str(), "mp3") {
                owned("audio/mpeg")
            } else if string_eq(ext.as_str(), "webm") {
                owned("audio/webm")
            } else {
                owned("audio/wav")
            }
        },
        None => owned("audio/wav"),
    }
}

/// A data URL holding bytes of the given media type.
pub open spec fn data_url_of(mime: Seq<char>, bytes: Seq<u8>) -> Seq<char> {
    "data:"@ + mime + ";base64,"@ + base64_encode(bytes)
}

/// The data URL of a file's bytes.
pub fn data_url(mime: &str, bytes: &[u8]) -> (r: String)
    ensures
        r@ == data_url_of(mime@, bytes@),
{
    let a = concat("data:", mime);
    let b = concat(a.as_str(), ";base64,");
    let e = encode_base64(bytes);
    concat(b.as_str(), e.as_str())
}

/// The position of the first `c` in `s`.
pub open spec fn first_index(s: Seq<char>, c: char) -> Option<int>
    decreases s.len(),
{
    if s.len() == 0 {
        None
    } else if s[0] == c {
        Some(0)
    } else {
        match first_index(s.drop_first(), c) {
            Some(i) => Some(i + 1),
            None => None,
        }
    }
}

proof fn lemma_first_index(s: Seq<char>, c: char)
    ensures
        match first_index(s, c) {
            Some(i) => 0 <= i < s.len() && s[i] == c && forall|k: int| 0 <= k < i ==> s[k] != c,
            None => forall|k: int| 0 <= k < s.len() ==> s[k] != c,
        },
    decreases s.len(),
{
    if s.len() > 0 {
        lemma_first_index(s.drop_first(), c);
        assert forall|k: int| 0 < k < s.len() implies s[k] == s.drop_first()[k - 1] by {}
    }
}

/// Where the first `c` of `s` is, if anywhere.
pub proof fn lemma_first_index_pub(s: Seq<char>, c: char)
    ensures
        match first_index(s, c) {
            Some(i) => 0 <= i < s.len() && s[i] == c && forall|k: int| 0 <= k < i ==> s[k] != c,
            None => forall|k: int| 0 <= k < s.len() ==> s[k] != c,
        },
{
    lemma_first_index(s, c);
}

/// The bytes a data URL carries: the base64 payload after its first comma.
pub open spec fn data_url_payload(url: Seq<char>) -> Result<Seq<u8>, StorageError> {
    match first_index(url, ',') {
        None => Err(StorageError::InvalidDataUrl),
        Some(i) => match base64_decoded(url.skip(i + 1)) {
            Some(b) => Ok(b),
            None => Err(StorageError::InvalidBase64),
        },
    }
}

/// The bytes of a base64 payload.
pub open spec fn base64_payload(text: Seq<char>) -> Result<Seq<u8>, StorageError> {
    match base64_decoded(text) {
        Some(b) => Ok(b),
        None => Err(StorageError::InvalidBase64),
    }
}

/// Decodes a base64 payload; the encoding of some bytes gives those bytes
/// back.
pub fn decode_base64_payload(encoded: &str) -> (r: Result<Vec<u8>, StorageError>)
    ensures
        match r {
            Ok(b) => base64_payload(encoded@) == Ok::<Seq<u8>, StorageError>(b@),
            Err(e) => base64_payload(encoded@) == Err::<Seq<u8>, StorageError>(e),
        },
        forall|b: Seq<u8>| #[trigger] base64_encode(b) == encoded@ ==> (r matches Ok(v) && v@ == b),
{
    match decode_base64(encoded) {
        Some(b) => Ok(b),
        None => Err(StorageError::InvalidBase64),
    }
}

/// Where the comma of a data URL written by `data_url` is, when its media
/// type holds none, and what follows it.
proof fn lemma_data_url_comma(mime: Seq<char>, b: Seq<u8>)
    requires
        !mime.contains(','),
    ensures
        first_index(data_url_of(mime, b), ',') == Some(mime.len() as int + 12),
        data_url_of(mime, b).skip(mime.len() as int + 13) == base64_encode(b),
{
    let url = data_url_of(mime, b);
    let p: int = mime.len() as int + 12;
    reveal_strlit("data:");
    reveal_strlit(";base64,");
    assert(url[p] == ',');
    assert forall|k: int| 0 <= k < p implies url[k] != ',' by {
        if 5 <= k < 5 + mime.len() {
            assert(url[k] == mime[k - 5]);
        }
    }
    lemma_first_index(url, ',');
    match first_index(url, ',') {
        Some(i) => {
            if i < p {
                assert(url[i] != ',');
            }
            if i > p {
                assert(url[p] != ',');
            }
        },
        None => {
            assert(url[p] != ',');
        },
    }
    assert(url.skip(p + 1) =~= base64_encode(b));
}

/// Decodes the payload of a data URL. A data URL that `data_url` wrote for
/// some bytes, with a media type holding no comma, gives those bytes back.
pub fn decode_data_url(data_url: &str) -> (r: Result<Vec<u8>, StorageError>)
    ensures
        match r {
            Ok(b) => data_url_payload(data_url@) == Ok::<Seq<u8>, StorageError>(b@),
            Err(e) => data_url_payload(data_url@) == Err::<Seq<u8>, StorageError>(e),
        },
        forall|mime: Seq<char>, b: Seq<u8>|
            data_url@ == #[trigger] data_url_of(mime, b) && !mime.contains(',') ==> (r matches Ok(v)
                && v@ == b),
{
    let v = chars_of(data_url);
    proof {
        lemma_first_index(v@, ',');
    }
    let mut i: usize = 0;
    while i < v.len() && v[i] != ','
        invariant
            i <= v.len(),
            v@ == data_url@,
            forall|k: int| 0 <= k < i ==> v@[k] != ',',
        decreases v.len() - i,
    {
        i += 1;
    }
    if i == v.len() {
        proof {
            match first_index(v@, ',') {
                Some(j) => {
                    assert(v@[j] != ',');
                },
                None => {},
            }
            assert forall|mime: Seq<char>, b: Seq<u8>|
                data_url@ == #[trigger] data_url_of(mime, b) && !mime.contains(',') implies false by {
                lemma_data_url_comma(mime, b);
            }
        }
        return Err(StorageError::InvalidDataUrl);
    }
    proof {
        match first_index(v@, ',') {
            Some(j) => {
                if j < i {
                    assert(v@[j] != ',');
                }
                if j > i {
                    assert(v@[i as int] == ',');
                }
            },
            None => {
                assert(v@[i as int] == ',');
            },
        }
    }
    let rest = crate::text::slice_vec(&v, i + 1, v.len());
    assert(rest@ =~= v@.skip(i + 1));
    let text = string_of(&rest);
    let r = decode_base64_payload(text.as_str());
    proof {
        assert forall|mime: Seq<char>, b: Seq<u8>|
            data_url@ == #[trigger] data_url_of(mime, b) && !mime.contains(',') implies (r matches Ok(
                v,
            ) && v@ == b) by {
            lemma_data_url_comma(mime, b);
            assert(text@ == base64_encode(b));
        }
    }
    r
}

/// The path an entry names, made relative to the session directory when it
/// is absolute; `None` when it is absolute and outside the directory.
pub open spec fn relative_to_session(dir: Seq<char>, input: Seq<char>) -> Option<Seq<char>> {
    if is_absolute(input) {
        path_strip_prefix(input, dir)
    } else {
        Some(input)
    }
}

/// Makes a path relative to the session directory: relative paths are kept,
/// absolute ones must lie inside the directory.
pub fn absolutize_to_relative(session_dir: &str, input: &str) -> (r: Result<String, StorageError>)
    ensures
        match r {
            Ok(s) => relative_to_session(session_dir@, input@) == Some(s@),
            Err(e) => relative_to_session(session_dir@, input@) is None && (e matches StorageError::OutsideSessionDirectory { path } && path@ == input@),
        },
{
    if is_absolute_path(input) {
        match strip_path_prefix(input, session_dir) {
            Some(r) => Ok(r),
            None => Err(StorageError::OutsideSessionDirectory { path: owned(input) }),
        }
    } else {
        Ok(owned(input))
    }
}

/// Whether a character is an ASCII letter or digit.
pub open spec fn is_ascii_alnum(c: char) -> bool {
    ('0' <= c <= '9') || ('a' <= c <= 'z') || ('A' <= c <= 'Z')
}

/// The slug of `s`: ASCII letters and digits in lower case, every run of
/// other characters turned into one dash; `dash` tells whether the last
/// character written was a dash.
pub open spec fn slug_from(s: Seq<char>, dash: bool) -> Seq<char>
    decreases s.len(),
{
    if s.len() == 0 {
        seq![]
    } else if is_ascii_alnum(s[0]) {
        seq![ascii_lower(s[0])] + slug_from(s.drop_first(), false)
    } else if !dash {
        seq!['-'] + slug_from(s.drop_first(), true)
    } else {
        slug_from(s.drop_first(), true)
    }
}

/// `s` without its leading dashes.
pub open spec fn strip_leading_dashes(s: Seq<char>) -> Seq<char>
    decreases s.len(),
{
    if s.len() > 0 && s[0] == '-' {
        strip_leading_dashes(s.drop_first())
    } else {
        s
    }
}

/// `s` without its trailing dashes.
pub open spec fn strip_trailing_dashes(s: Seq<char>) -> Seq<char>
    decreases s.len(),
{
    if s.len() > 0 && s.last() == '-' {
        strip_trailing_dashes(s.drop_last())
    } else {
        s
    }
}

/// The slug of a title: the lower-case ASCII letters and digits, other runs
/// as single dashes, no dash at either end; `session` when nothing is left.
pub open spec fn slug(s: Seq<char>) -> Seq<char> {
    let t = strip_trailing_dashes(strip_leading_dashes(slug_from(s, false)));
    if t.len() == 0 {
        "session"@
    } else {
        t
    }
}

proof fn lemma_strip_leading(s: Seq<char>, i: int)
    requires
        0 <= i <= s.len(),
        forall|k: int| 0 <= k < i ==> #[trigger] s[k] == '-',
        i == s.len() || s[i] != '-',
    ensures
        strip_leading_dashes(s) == s.skip(i),
    decreases i,
{
    if i == 0 {
        assert(s.skip(0) == s);
    } else {
        let t = s.drop_first();
        assert forall|k: int| 0 <= k < i - 1 implies #[trigger] t[k] == '-' by {
            assert(t[k] == s[k + 1]);
        }
        if i - 1 < t.len() {
            assert(t[i - 1] == s[i]);
        }
        lemma_strip_leading(t, i - 1);
        assert(t.skip(i - 1) == s.skip(i));
    }
}

proof fn lemma_strip_trailing(s: Seq<char>, j: int)
    requires
        0 <= j <= s.len(),
        forall|k: int| j <= k < s.len() ==> #[trigger] s[k] == '-',
        j == 0 || s[j - 1] != '-',
    ensures
        strip_trailing_dashes(s) == s.take(j),
    decreases s.len() - j,
{
    if j == s.len() {
        assert(s.take(j) == s);
    } else {
        let t = s.drop_last();
        assert forall|k: int| j <= k < t.len() implies #[trigger] t[k] == '-' by {
            assert(t[k] == s[k]);
        }
        if j > 0 {
            assert(t[j - 1] == s[j - 1]);
        }
        lemma_strip_trailing(t, j);
        assert(t.take(j) == s.take(j));
    }
}

/// Whether a character is an ASCII letter or digit.
pub fn is_ascii_alphanumeric(c: char) -> (r: bool)
    ensures
        r == is_ascii_alnum(c),
{
    ('0' <= c && c <= '9') || ('a' <= c && c <= 'z') || ('A' <= c && c <= 'Z')
}

/// The slug of a title, used in session identifiers.
pub fn slugify(input: &str) -> (r: String)
    ensures
        r@ == slug(input@),
{
    let v = chars_of(input);
    let mut out: Vec<char> = Vec::new();
    let mut dash = false;
    let mut i: usize = 0;
    assert(v@.skip(0) == v@);
    while i < v.len()
        invariant
            i <= v.len(),
            out@ + slug_from(v@.skip(i as int), dash) == slug_from(v@, false),
        decreases v.len() - i,
    {
        let ghost rest = v@.skip(i as int);
        assert(rest[0] == v@[i as int]);
        assert(rest.drop_first() == v@.skip(i + 1));
        let c = v[i];
        if is_ascii_alphanumeric(c) {
            let l = to_ascii_lowercase(c);
            proof {
                assert(out@ + (seq![l] + slug_from(rest.drop_first(), false)) =~= out@.push(l)
                    + slug_from(rest.drop_first(), false));
            }
            out.push(l);
            dash = false;
        } else if !dash {
            proof {
                assert(out@ + (seq!['-'] + slug_from(rest.drop_first(), true)) =~= out@.push('-')
                    + slug_from(rest.drop_first(), true));
            }
            out.push('-');
            dash = true;
        }
        i += 1;
    }
    assert(v@.skip(i as int).len() == 0);
    assert(out@ + seq![] =~= out@);
    let mut a: usize = 0;
    while a < out.len() && out[a] == '-'
        invariant
            a <= out.len(),
            forall|k: int| 0 <= k < a ==> #[trigger] out@[k] == '-',
        decreases out.len() - a,
    {
        a += 1;
    }
    let mut b = out.len();
    while b > a && out[b - 1] == '-'
        invariant
            a <= b <= out.len(),
            forall|k: int| b <= k < out.len() ==> #[trigger] out@[k] == '-',
        decreases b - a,
    {
        b -= 1;
    }
    proof {
        lemma_strip_leading(out@, a as int);
        let t = out@.skip(a as int);
        assert forall|k: int| b - a <= k < t.len() implies #[trigger] t[k] == '-' by {
            assert(t[k] == out@[k + a]);
        }
        if b > a {
            assert(t[b - a - 1] == out@[b - 1]);
        }
        lemma_strip_trailing(t, (b - a) as int);
        assert(t.take((b - a) as int) =~= out@.subrange(a as int, b as int));
    }
    if a == b {
        owned("session")
    } else {
        let t = crate::text::slice_vec(&out, a, b);
        string_of(&t)
    }
}

/// The title of a new session: the given one trimmed, or `Review` followed
/// by the local time when none is given or it is blank.
pub open spec fn session_title(title: Option<Seq<char>>, time_label: Seq<char>) -> Seq<char> {
    match title {
        Some(t) => if trim(t).len() > 0 {
            trim(t)
        } else {
            "Review "@ + time_label
        },
        None => "Review "@ + time_label,
    }
}

/// `r` is a new, empty session with the given title, mode and times.
pub open spec fn opened_session(
    title: Option<Seq<char>>,
    mode: SessionMode,
    time_label: Seq<char>,
    time_stamp: Seq<char>,
    created_at: Seq<char>,
    r: Session,
) -> bool {
    &&& r.title@ == session_title(title, time_label)
    &&& r.id@ == time_stamp + "-"@ + slug(r.title@)
    &&& r.mode == mode
    &&& r.created_at@ == created_at
    &&& r.updated_at@ == created_at
    &&& r.entries@.len() == 0
}

/// A new, empty session. Its identifier is the local time stamp followed by
/// the slug of its title; `time_label` is the local time as `%b %d %H:%M`,
/// `time_stamp` as `%Y-%m-%d-%H%M%S`, `created_at` the RFC 3339 time.
pub fn new_session(
    title: Option<String>,
    mode: SessionMode,
    time_label: &str,
    time_stamp: &str,
    created_at: String,
) -> (r: Session)
    ensures
        opened_session(opt_view(title), mode, time_label@, time_stamp@, created_at@, r),
{
    let base_title = match &title {
        Some(t) => {
            if !is_blank_str(t.as_str()) {
                trim_str(t.as_str())
            } else {
                concat("Review ", time_label)
            }
        },
        None => concat("Review ", time_label),
    };
    let s = slugify(base_title.as_str());
    let a = concat(time_stamp, "-");
    let id = concat(a.as_str(), s.as_str());
    let updated_at = created_at.clone();
    Session {
        id,
        title: base_title,
        mode,
        created_at,
        updated_at,
        entries: Vec::new(),
    }
}

/// A new, empty session opened now: `new_session` with the local time as
/// its label and stamp and the current time as its creation time.
pub fn create_session_record(title: Option<String>, mode: SessionMode) -> (r: Session)
    ensures
        exists|label: Seq<char>, stamp: Seq<char>, created_at: Seq<char>|
            local_label_shaped(label) && local_stamp_shaped(stamp) && #[trigger] opened_session(
                opt_view(title),
                mode,
                label,
                stamp,
                created_at,
                r,
            ),
        is_rfc3339(r.created_at@),
{
    let (label, stamp) = local_now_label_and_stamp();
    new_session(title, mode, label.as_str(), stamp.as_str(), utc_now_rfc3339())
}

/// Where an entry with identifier `id` ends up when it is saved into the
/// timeline `old`: in place of the first entry with that identifier, or at
/// the end.
pub open spec fn upsert_position(old: Seq<TimelineEntry>, id: Seq<char>) -> int {
    match index_of_id(old, id) {
        Some(i) => i,
        None => old.len() as int,
    }
}

/// `new` is `old` with one entry with identifier `id` saved into it.
pub open spec fn saves_entry(old: Seq<TimelineEntry>, new: Seq<TimelineEntry>, id: Seq<char>) -> bool {
    let pos = upsert_position(old, id);
    &&& 0 <= pos < new.len()
    &&& entry_id(new[pos]) == id
    &&& new == upsert(old, new[pos])
}

/// The entry saved into `old` to give `new`.
pub open spec fn saved_entry(old: Seq<TimelineEntry>, new: Seq<TimelineEntry>, id: Seq<char>) -> TimelineEntry {
    new[upsert_position(old, id)]
}

proof fn lemma_upsert_saves(old: Seq<TimelineEntry>, e: TimelineEntry)
    ensures
        saves_entry(old, upsert(old, e), entry_id(e)),
        saved_entry(old, upsert(old, e), entry_id(e)) == e,
{
    crate::timeline::lemma_index_of_id_pub(old, entry_id(e));
}

fn clone_opt(o: &Option<String>) -> (r: Option<String>)
    ensures
        r == *o,
{
    match o {
        Some(s) => Some(s.clone()),
        None => None,
    }
}

/// `r` is `session` with the note of `payload` saved, given the identifier
/// and time used where the payload has none.
pub open spec fn text_note_saved(
    session: Session,
    payload: TextNotePayload,
    fresh_id: Seq<char>,
    now: Seq<char>,
    r: Session,
) -> bool {
    let id = match payload.id {
        Some(i) => i@,
        None => fresh_id,
    };
    &&& saves_entry(session.entries@, r.entries@, id)
    &&& saved_entry(session.entries@, r.entries@, id) matches TimelineEntry::TextNote(n)
    &&& n.created_at@ == match payload.created_at {
        Some(c) => c@,
        None => now,
    }
    &&& n.text@ == trim(payload.text@)
    &&& r.updated_at@ == now
    &&& r.id == session.id
    &&& r.title == session.title
    &&& r.mode == session.mode
    &&& r.created_at == session.created_at
}

/// The session with a text note saved: the note keeps the given identifier
/// and time, or gets `fresh_id` and `now`; its text is trimmed; the session
/// was updated `now`.
pub fn apply_text_note(session: Session, payload: TextNotePayload, fresh_id: String, now: String) -> (r: Session)
    ensures
        text_note_saved(session, payload, fresh_id@, now@, r),
{
    let mut session = session;
    let id = match payload.id {
        Some(i) => i,
        None => fresh_id,
    };
    let created_at = match payload.created_at {
        Some(c) => c,
        None => now.clone(),
    };
    let entry = TextNoteEntry { id, created_at, text: trim_str(payload.text.as_str()) };
    let next = TimelineEntry::TextNote(entry);
    proof {
        lemma_upsert_saves(session.entries@, next);
    }
    upsert_entry(&mut session.entries, next);
    session.updated_at = now;
    session
}

/// The session with a text note saved now: a note without an identifier
/// gets a fresh UUID, and the time is the current one.
pub fn record_text_note(session: Session, payload: TextNotePayload) -> (r: Session)
    ensures
        exists|fresh_id: Seq<char>, now: Seq<char>|
            uuid_shaped(fresh_id) && is_rfc3339(now) && #[trigger] text_note_saved(
                session,
                payload,
                fresh_id,
                now,
                r,
            ),
{
    let fresh_id = new_uuid();
    let now = utc_now_rfc3339();
    apply_text_note(session, payload, fresh_id, now)
}

/// A file to move into the session directory.
#[derive(Debug)]
pub struct FileMove {
    pub source: String,
    pub destination: String,
}

/// Where the original image of a saved capture is kept, relative to the
/// session directory, and the file to move there first, if any.
#[derive(Debug)]
pub struct CaptureOriginal {
    pub relative: String,
    pub import: Option<FileMove>,
}

/// The path an imported capture is kept at: the path of the existing
/// capture with its identifier, or its own asset path.
pub open spec fn import_relative(entries: Seq<TimelineEntry>, id: Seq<char>) -> Seq<char> {
    match first_capture(entries, id) {
        Some(c) => c.original_image_path@,
        None => asset_path(id, "original"@, "png"@),
    }
}

/// Where the original image of a capture is kept. A relative path is kept
/// as it is; an absolute path inside the session directory is made
/// relative; any other absolute path names a file to import into the
/// session, which must exist (`source_exists`).
pub fn plan_capture_original(
    session_dir: &str,
    session: &Session,
    payload: &CaptureSavePayload,
    source_exists: bool,
) -> (r: Result<CaptureOriginal, StorageError>)
    ensures
        ({
            let p = payload.original_image_path@;
            let rel = import_relative(session.entries@, payload.id@);
            if !is_absolute(p) {
                r matches Ok(o) && o.relative@ == p && o.import is None
            } else if path_strip_prefix(p, session_dir@) is Some {
                r matches Ok(o) && o.relative@ == path_strip_prefix(p, session_dir@)->0
                    && o.import is None
            } else if source_exists {
                r matches Ok(o) && o.relative@ == rel && (o.import matches Some(m)
                    && m.source@ == p && m.destination@ == path_join(session_dir@, rel))
            } else {
                r matches Err(e) && (e matches StorageError::CaptureSourceMissing { path }
                    && path@ == p)
            }
        }),
{
    let p = payload.original_image_path.as_str();
    if !is_absolute_path(p) {
        return Ok(CaptureOriginal { relative: owned(p), import: None });
    }
    match strip_path_prefix(p, session_dir) {
        Some(rel) => {
            return Ok(CaptureOriginal { relative: rel, import: None });
        },
        None => {},
    }
    let relative = match existing_capture(session, payload.id.as_str()) {
        Some(c) => c.original_image_path.clone(),
        None => asset_relative_path(payload.id.as_str(), "original", "png"),
    };
    if source_exists {
        let destination = join_path(session_dir, relative.as_str());
        Ok(CaptureOriginal { relative, import: Some(FileMove { source: owned(p), destination }) })
    } else {
        Err(StorageError::CaptureSourceMissing { path: owned(p) })
    }
}

/// The annotated image of a saved capture: its own asset path when an
/// annotated image comes with the payload, otherwise that of the existing
/// capture with its identifier.
pub open spec fn annotated_relative(entries: Seq<TimelineEntry>, payload: CaptureSavePayload) -> Option<
    Seq<char>,
> {
    if payload.annotated_image_data_url is Some {
        Some(asset_path(payload.id@, "annotated"@, "png"@))
    } else {
        match first_capture(entries, payload.id@) {
            Some(c) => opt_view(c.annotated_image_path),
            None => None,
        }
    }
}

/// A note that holds text, or nothing.
pub open spec fn non_blank(o: Option<String>) -> Option<Seq<char>> {
    match o {
        Some(n) => if is_blank(n@) {
            None
        } else {
            Some(n@)
        },
        None => None,
    }
}

/// `r` is `session` with the capture of `payload` saved, its original image
/// kept at `original_relative`; its time of update is not fixed here.
pub open spec fn capture_saved(
    session: Session,
    payload: CaptureSavePayload,
    original_relative: Seq<char>,
    r: Session,
) -> bool {
    let id = payload.id@;
    &&& saves_entry(session.entries@, r.entries@, id)
    &&& saved_entry(session.entries@, r.entries@, id) matches TimelineEntry::Capture(c)
    &&& c.created_at == payload.created_at
    &&& c.original_image_path@ == original_relative
    &&& opt_view(c.annotated_image_path) == annotated_relative(session.entries@, payload)
    &&& c.shapes == payload.shapes
    &&& opt_view(c.bubble_note) == non_blank(payload.bubble_note)
    &&& c.bubble_anchor == payload.bubble_anchor
    &&& r.id == session.id
    &&& r.title == session.title
    &&& r.mode == session.mode
    &&& r.created_at == session.created_at
}

/// The session with a capture saved, its original image kept at
/// `original_relative`; the session was updated `now`.
pub fn apply_capture_save(
    session: Session,
    payload: CaptureSavePayload,
    original_relative: String,
    now: String,
) -> (r: Session)
    ensures
        capture_saved(session, payload, original_relative@, r),
        r.updated_at@ == now@,
{
    let mut session = session;
    let annotated = if payload.annotated_image_data_url.is_some() {
        Some(asset_relative_path(payload.id.as_str(), "annotated", "png"))
    } else {
        match existing_capture(&session, payload.id.as_str()) {
            Some(c) => clone_opt(&c.annotated_image_path),
            None => None,
        }
    };
    let bubble_note = match payload.bubble_note {
        Some(n) => if is_blank_str(n.as_str()) {
            None
        } else {
            Some(n)
        },
        None => None,
    };
    let entry = CaptureEntry {
        id: payload.id,
        created_at: payload.created_at,
        original_image_path: original_relative,
        annotated_image_path: annotated,
        shapes: payload.shapes,
        bubble_note,
        bubble_anchor: payload.bubble_anchor,
    };
    let next = TimelineEntry::Capture(entry);
    proof {
        lemma_upsert_saves(session.entries@, next);
    }
    upsert_entry(&mut session.entries, next);
    session.updated_at = now;
    session
}

/// The session with a capture saved now, its original image kept at
/// `original_relative`.
pub fn record_capture(session: Session, payload: CaptureSavePayload, original_relative: String) -> (r: Session)
    ensures
        capture_saved(session, payload, original_relative@, r),
        is_rfc3339(r.updated_at@),
{
    let now = utc_now_rfc3339();
    apply_capture_save(session, payload, original_relative, now)
}

/// An audio clip to write into the session directory.
#[derive(Debug)]
pub struct AudioWrite {
    pub path: String,
    pub bytes: Vec<u8>,
}

/// The dictation already in the timeline under the identifier of the
/// payload, if the payload names one.
pub open spec fn prior_dictation(entries: Seq<TimelineEntry>, payload: DictationSavePayload) -> Option<
    DictationEntry,
> {
    match payload.id {
        Some(id) => first_dictation(entries, id@),
        None => None,
    }
}

/// The transcript of a saved dictation: the one in the payload, else the
/// one handed in, else the existing one, else `Transcription unavailable`.
pub open spec fn dictation_transcript(
    payload: DictationSavePayload,
    transcript: Option<String>,
    existing: Option<DictationEntry>,
) -> Seq<char> {
    match payload.transcript {
        Some(t) => t@,
        None => match transcript {
            Some(t) => t@,
            None => match existing {
                Some(e) => e.transcript@,
                None => "Transcription unavailable"@,
            },
        },
    }
}

/// The corrected transcript of a saved dictation: the non-blank one in the
/// payload, else the existing one, else the transcript itself.
pub open spec fn dictation_correction(
    payload: DictationSavePayload,
    existing: Option<DictationEntry>,
    base: Seq<char>,
) -> Seq<char> {
    match non_blank(payload.corrected_transcript) {
        Some(c) => c,
        None => match existing {
            Some(e) => match e.corrected_transcript {
                Some(c) => c@,
                None => base,
            },
            None => base,
        },
    }
}

/// `r` is the outcome of saving the dictation of `payload` into `session`,
/// given the identifier and time used where the payload and the timeline
/// have none.
pub open spec fn dictation_save_outcome(
    session: Session,
    session_dir: Seq<char>,
    payload: DictationSavePayload,
    transcript: Option<String>,
    fresh_id: Seq<char>,
    now: Seq<char>,
    r: Result<(Session, Option<AudioWrite>), StorageError>,
) -> bool {
    let existing = prior_dictation(session.entries@, payload);
    let id = match payload.id {
        Some(i) => i@,
        None => fresh_id,
    };
    let clip = asset_path(id, "clip"@, "wav"@);
    match payload.audio_base64 {
        Some(b) => match base64_payload(b@) {
            Err(err) => r matches Err(e) && e == err,
            Ok(bytes) => r matches Ok((s, w)) && dictation_saved(
                session,
                s,
                payload,
                transcript,
                existing,
                id,
                clip,
                now,
            ) && (w matches Some(w) && w.path@ == path_join(session_dir, clip)
                && w.bytes@ == bytes),
        },
        None => match payload.audio_path {
            Some(p) => match relative_to_session(session_dir, p@) {
                None => r matches Err(e) && (e matches StorageError::OutsideSessionDirectory {
                    path,
                } && path@ == p@),
                Some(rel) => r matches Ok((s, w)) && w is None && dictation_saved(
                    session,
                    s,
                    payload,
                    transcript,
                    existing,
                    id,
                    rel,
                    now,
                ),
            },
            None => r matches Ok((s, w)) && w is None && dictation_saved(
                session,
                s,
                payload,
                transcript,
                existing,
                id,
                match existing {
                    Some(e) => e.audio_path@,
                    None => clip,
                },
                now,
            ),
        },
    }
}

/// The session with a dictation saved. The dictation keeps the identifier
/// of the payload or gets `fresh_id`; its time is the payload's, the
/// existing entry's or `now`. Its audio is the clip in the payload, written
/// to the entry's asset path; else the path in the payload, made relative
/// to the session directory; else the existing entry's; else the entry's
/// asset path. Fails when the clip is not base64 or the path lies outside
/// the session directory.
pub fn apply_dictation_save(
    session: Session,
    session_dir: &str,
    payload: DictationSavePayload,
    transcript: Option<String>,
    fresh_id: String,
    now: String,
) -> (r: Result<(Session, Option<AudioWrite>), StorageError>)
    ensures
        dictation_save_outcome(session, session_dir@, payload, transcript, fresh_id@, now@, r),
{
    let existing = match &payload.id {
        Some(id) => existing_dictation(&session, id.as_str()),
        None => None,
    };
    let id = match &payload.id {
        Some(i) => i.clone(),
        None => fresh_id,
    };
    let created_at = match &payload.created_at {
        Some(c) => c.clone(),
        None => match existing {
            Some(e) => e.created_at.clone(),
            None => now.clone(),
        },
    };
    let clip = asset_relative_path(id.as_str(), "clip", "wav");
    let mut write: Option<AudioWrite> = None;
    let audio_path = match &payload.audio_base64 {
        Some(b) => {
            let bytes = match decode_base64_payload(b.as_str()) {
                Ok(bytes) => bytes,
                Err(e) => {
                    return Err(e);
                },
            };
            write = Some(AudioWrite { path: join_path(session_dir, clip.as_str()), bytes });
            clip
        },
        None => match &payload.audio_path {
            Some(p) => match absolutize_to_relative(session_dir, p.as_str()) {
                Ok(rel) => rel,
                Err(e) => {
                    return Err(e);
                },
            },
            None => match existing {
                Some(e) => e.audio_path.clone(),
                None => clip,
            },
        },
    };
    let base = match &payload.transcript {
        Some(t) => t.clone(),
        None => match transcript {
            Some(t) => t,
            None => match existing {
                Some(e) => e.transcript.clone(),
                None => owned("Transcription unavailable"),
            },
        },
    };
    let corrected = match &payload.corrected_transcript {
        Some(c) => if is_blank_str(c.as_str()) {
            None
        } else {
            Some(c.clone())
        },
        None => None,
    };
    let corrected = match corrected {
        Some(c) => c,
        None => match existing {
            Some(e) => match &e.corrected_transcript {
                Some(c) => c.clone(),
                None => base.clone(),
            },
            None => base.clone(),
        },
    };
    let entry = DictationEntry {
        id,
        created_at,
        audio_path,
        transcript: base,
        corrected_transcript: Some(corrected),
    };
    let next = TimelineEntry::Dictation(entry);
    let mut session = session;
    proof {
        lemma_upsert_saves(session.entries@, next);
    }
    upsert_entry(&mut session.entries, next);
    session.updated_at = now;
    Ok((session, write))
}

/// The session with a dictation saved now: a dictation without an
/// identifier gets a fresh UUID, and the time is the current one.
pub fn record_dictation(
    session: Session,
    session_dir: &str,
    payload: DictationSavePayload,
    transcript: Option<String>,
) -> (r: Result<(Session, Option<AudioWrite>), StorageError>)
    ensures
        exists|fresh_id: Seq<char>, now: Seq<char>|
            uuid_shaped(fresh_id) && is_rfc3339(now) && #[trigger] dictation_save_outcome(
                session,
                session_dir@,
                payload,
                transcript,
                fresh_id,
                now,
                r,
            ),
{
    let fresh_id = new_uuid();
    let now = utc_now_rfc3339();
    apply_dictation_save(session, session_dir, payload, transcript, fresh_id, now)
}

/// `new` is `old` with the dictation `id` saved, its audio at `audio`, and
/// updated at `now`.
pub open spec fn dictation_saved(
    old: Session,
    new: Session,
    payload: DictationSavePayload,
    transcript: Option<String>,
    existing: Option<DictationEntry>,
    id: Seq<char>,
    audio: Seq<char>,
    now: Seq<char>,
) -> bool {
    let base = dictation_transcript(payload, transcript, existing);
    &&& saves_entry(old.entries@, new.entries@, id)
    &&& saved_entry(old.entries@, new.entries@, id) matches TimelineEntry::Dictation(d)
    &&& d.created_at@ == match payload.created_at {
        Some(c) => c@,
        None => match existing {
            Some(e) => e.created_at@,
            None => now,
        },
    }
    &&& d.audio_path@ == audio
    &&& d.transcript@ == base
    &&& opt_view(d.corrected_transcript) == Some(dictation_correction(payload, existing, base))
    &&& new.updated_at@ == now
    &&& new.id == old.id
    &&& new.title == old.title
    &&& new.mode == old.mode
    &&& new.created_at == old.created_at
}

/// After saving an entry under `id`, the first entry with that identifier
/// is the one saved.
proof fn lemma_saved_comes_first(old: Seq<TimelineEntry>, new: Seq<TimelineEntry>, id: Seq<char>)
    requires
        saves_entry(old, new, id),
    ensures
        index_of_id(new, id) == Some(upsert_position(old, id)),
{
    crate::timeline::law_upsert_replaces_or_appends(old, new[upsert_position(old, id)]);
}

/// Saving a dictation again under the identifier of one already stored
/// keeps what the payload does not replace: the user's correction when the
/// payload brings none that holds text, the transcript when neither the
/// payload nor the caller brings one, the time when the payload has none,
/// and the clip when the payload brings neither a clip nor a path. The
/// dictation saved is then the first entry with that identifier.
pub proof fn law_dictation_save_keeps_what_is_stored(
    session: Session,
    session_dir: Seq<char>,
    payload: DictationSavePayload,
    transcript: Option<String>,
    fresh_id: Seq<char>,
    now: Seq<char>,
    r: Result<(Session, Option<AudioWrite>), StorageError>,
)
    requires
        dictation_save_outcome(session, session_dir, payload, transcript, fresh_id, now, r),
        r is Ok,
        payload.id is Some,
        first_dictation(session.entries@, payload.id->0@) is Some,
    ensures
        ({
            let id = payload.id->0@;
            let e = first_dictation(session.entries@, id)->0;
            r matches Ok((s, _)) && index_of_id(s.entries@, id) matches Some(k)
                && s.entries@[k] matches TimelineEntry::Dictation(nd) && nd.id@ == id
                && ((payload.corrected_transcript is None || is_blank(payload.corrected_transcript->0@))
                && e.corrected_transcript is Some ==> nd.corrected_transcript is Some
                && nd.corrected_transcript->0@ == e.corrected_transcript->0@)
                && (payload.transcript is None && transcript is None ==> nd.transcript@ == e.transcript@)
                && (payload.created_at is None ==> nd.created_at@ == e.created_at@)
                && (payload.audio_base64 is None && payload.audio_path is None ==> nd.audio_path@
                == e.audio_path@)
        }),
{
    let id = payload.id->0@;
    match r {
        Ok((s, _)) => {
            lemma_saved_comes_first(session.entries@, s.entries@, id);
        },
        Err(_) => {},
    }
}

/// Saving a capture again under the identifier of one already stored
/// keeps its annotated image when the payload brings none, and points at
/// the capture's own annotated asset when it brings one; the original image
/// is where it was planned and the time is the payload's. The capture saved
/// is then the first entry with that identifier.
pub proof fn law_capture_save_keeps_annotation(
    session: Session,
    payload: CaptureSavePayload,
    original_relative: Seq<char>,
    r: Session,
)
    requires
        capture_saved(session, payload, original_relative, r),
    ensures
        index_of_id(r.entries@, payload.id@) matches Some(k) && r.entries@[k] matches TimelineEntry::Capture(nc)
            && nc.id@ == payload.id@ && nc.created_at == payload.created_at
            && nc.original_image_path@ == original_relative
            && (payload.annotated_image_data_url is Some ==> opt_view(nc.annotated_image_path) == Some(
            "assets/"@ + payload.id@ + "-annotated.png"@,
        ))
            && (payload.annotated_image_data_url is None ==> match first_capture(session.entries@, payload.id@) {
            Some(c) => opt_view(nc.annotated_image_path) == opt_view(c.annotated_image_path),
            None => nc.annotated_image_path is None,
        }),
{
    lemma_saved_comes_first(session.entries@, r.entries@, payload.id@);
    assert("assets/"@ + payload.id@ + "-"@ + "annotated"@ + "."@ + "png"@ =~= "assets/"@ + payload.id@ + "-annotated.png"@) by {
        reveal_strlit("-");
        reveal_strlit("annotated");
        reveal_strlit(".");
        reveal_strlit("png");
        reveal_strlit("-annotated.png");
    }
}

/// `r` shows the capture `item`: its paths made absolute under the session
/// directory and its images, `original` and `annotated` when it has one,
/// inlined as PNG data URLs, the annotated one shown when there is one.
pub open spec fn capture_view_of(
    item: CaptureEntry,
    session_dir: Seq<char>,
    original: Seq<u8>,
    annotated: Option<Seq<u8>>,
    r: CaptureEntryView,
) -> bool {
    &&& r.id == item.id
    &&& r.created_at == item.created_at
    &&& r.original_image_path@ == path_join(session_dir, item.original_image_path@)
    &&& opt_view(r.annotated_image_path) == match item.annotated_image_path {
        Some(a) => Some(path_join(session_dir, a@)),
        None => None,
    }
    &&& r.shapes == item.shapes
    &&& r.bubble_note == item.bubble_note
    &&& r.bubble_anchor == item.bubble_anchor
    &&& r.original_image_data_url@ == data_url_of("image/png"@, original)
    &&& opt_view(r.annotated_image_data_url) == match annotated {
        Some(b) => Some(data_url_of("image/png"@, b)),
        None => None,
    }
    &&& r.display_image_data_url@ == match annotated {
        Some(b) => data_url_of("image/png"@, b),
        None => data_url_of("image/png"@, original),
    }
}

/// `r` shows the dictation `item`: its audio path made absolute under the
/// session directory and its clip `audio` inlined as a data URL of the
/// clip's media type.
pub open spec fn dictation_view_of(item: DictationEntry, session_dir: Seq<char>, audio: Seq<u8>, r: DictationEntryView) -> bool {
    &&& r.id == item.id
    &&& r.created_at == item.created_at
    &&& r.audio_path@ == path_join(session_dir, item.audio_path@)
    &&& r.transcript == item.transcript
    &&& r.corrected_transcript == item.corrected_transcript
    &&& r.audio_data_url@ == data_url_of(audio_mime(path_extension(path_join(session_dir, item.audio_path@))), audio)
}

/// The files an entry is shown from, in the order they are read: a
/// capture's original image and its annotated one when it has one, a
/// dictation's clip, nothing for a note.
pub open spec fn entry_files(e: TimelineEntry, session_dir: Seq<char>) -> Seq<Seq<char>> {
    match e {
        TimelineEntry::Capture(c) => seq![path_join(session_dir, c.original_image_path@)] + match c.annotated_image_path {
            Some(a) => seq![path_join(session_dir, a@)],
            None => Seq::<Seq<char>>::empty(),
        },
        TimelineEntry::Dictation(d) => seq![path_join(session_dir, d.audio_path@)],
        TimelineEntry::TextNote(_) => Seq::<Seq<char>>::empty(),
    }
}

/// The contents of some files.
pub open spec fn byte_views(files: Seq<Vec<u8>>) -> Seq<Seq<u8>> {
    files.map_values(|f: Vec<u8>| f@)
}

/// `v` shows the entry `e`, given the contents of its `entry_files`.
pub open spec fn entry_view_of(e: TimelineEntry, session_dir: Seq<char>, files: Seq<Seq<u8>>, v: TimelineEntryView) -> bool {
    match e {
        TimelineEntry::Capture(c) => v matches TimelineEntryView::Capture(cv) && capture_view_of(
            c,
            session_dir,
            files[0],
            if c.annotated_image_path is Some {
                Some(files[1])
            } else {
                None
            },
            cv,
        ),
        TimelineEntry::Dictation(d) => v matches TimelineEntryView::Dictation(dv) && dictation_view_of(
            d,
            session_dir,
            files[0],
            dv,
        ),
        TimelineEntry::TextNote(n) => v == TimelineEntryView::TextNote(n),
    }
}

/// A capture as the interface shows it: its paths made absolute under the
/// session directory and its images inlined as PNG data URLs, the annotated
/// one shown when there is one.
pub fn capture_view(
    item: CaptureEntry,
    session_dir: &str,
    original_bytes: &[u8],
    annotated_bytes: Option<&[u8]>,
) -> (r: CaptureEntryView)
    ensures
        capture_view_of(
            item,
            session_dir@,
            original_bytes@,
            match annotated_bytes {
                Some(b) => Some(b@),
                None => None,
            },
            r,
        ),
{
    let original_image_path = join_path(session_dir, item.original_image_path.as_str());
    let annotated_image_path = match &item.annotated_image_path {
        Some(a) => Some(join_path(session_dir, a.as_str())),
        None => None,
    };
    let original_image_data_url = data_url("image/png", original_bytes);
    let annotated_image_data_url = match annotated_bytes {
        Some(b) => Some(data_url("image/png", b)),
        None => None,
    };
    let display_image_data_url = match &annotated_image_data_url {
        Some(u) => u.clone(),
        None => original_image_data_url.clone(),
    };
    CaptureEntryView {
        id: item.id,
        created_at: item.created_at,
        original_image_path,
        annotated_image_path,
        shapes: item.shapes,
        bubble_note: item.bubble_note,
        bubble_anchor: item.bubble_anchor,
        original_image_data_url,
        annotated_image_data_url,
        display_image_data_url,
    }
}

/// A dictation as the interface shows it: its audio path made absolute
/// under the session directory and its clip inlined as a data URL of the
/// clip's media type.
pub fn dictation_view(item: DictationEntry, session_dir: &str, audio_bytes: &[u8]) -> (r: DictationEntryView)
    ensures
        dictation_view_of(item, session_dir@, audio_bytes@, r),
{
    let audio_path = join_path(session_dir, item.audio_path.as_str());
    let mime = audio_mime_type(audio_path.as_str());
    let audio_data_url = data_url(mime.as_str(), audio_bytes);
    DictationEntryView {
        id: item.id,
        created_at: item.created_at,
        audio_path,
        transcript: item.transcript,
        corrected_transcript: item.corrected_transcript,
        audio_data_url,
    }
}

/// The files an entry is shown from, in the order they are read.
pub fn view_files(entry: &TimelineEntry, session_dir: &str) -> (r: Vec<String>)
    ensures
        string_views(r@) == entry_files(*entry, session_dir@),
{
    let mut r: Vec<String> = Vec::new();
    match entry {
        TimelineEntry::Capture(c) => {
            r.push(join_path(session_dir, c.original_image_path.as_str()));
            match &c.annotated_image_path {
                Some(a) => {
                    r.push(join_path(session_dir, a.as_str()));
                },
                None => {},
            }
        },
        TimelineEntry::Dictation(d) => {
            r.push(join_path(session_dir, d.audio_path.as_str()));
        },
        TimelineEntry::TextNote(_) => {},
    }
    assert(string_views(r@) =~= entry_files(*entry, session_dir@));
    r
}

/// How one entry is shown, from the contents of its `view_files`.
fn entry_view(entry: TimelineEntry, session_dir: &str, files: &Vec<Vec<u8>>) -> (v: TimelineEntryView)
    requires
        files.len() == entry_files(entry, session_dir@).len(),
    ensures
        entry_view_of(entry, session_dir@, byte_views(files@), v),
{
    match entry {
        TimelineEntry::Capture(c) => {
            let annotated: Option<&[u8]> = if c.annotated_image_path.is_some() {
                Some(files[1].as_slice())
            } else {
                None
            };
            TimelineEntryView::Capture(capture_view(c, session_dir, files[0].as_slice(), annotated))
        },
        TimelineEntry::Dictation(d) => TimelineEntryView::Dictation(
            dictation_view(d, session_dir, files[0].as_slice()),
        ),
        TimelineEntry::TextNote(n) => TimelineEntryView::TextNote(n),
    }
}

/// The entries of a timeline as the interface shows them, one view per
/// entry and in the same order, given for each entry the contents of its
/// `view_files`.
pub fn entry_views(entries: Vec<TimelineEntry>, session_dir: &str, files: &Vec<Vec<Vec<u8>>>) -> (r: Vec<TimelineEntryView>)
    requires
        files.len() == entries.len(),
        forall|i: int| 0 <= i < entries.len() ==> #[trigger] files@[i].len() == entry_files(entries@[i], session_dir@).len(),
    ensures
        r.len() == entries.len(),
        forall|i: int| 0 <= i < entries.len() ==> entry_view_of(#[trigger] entries@[i], session_dir@, byte_views(files@[i]@), r@[i]),
{
    let ghost orig = entries@;
    let mut rest = entries;
    let mut r: Vec<TimelineEntryView> = Vec::new();
    let mut i: usize = 0;
    while rest.len() > 0
        invariant
            i + rest.len() == orig.len(),
            rest@ == orig.skip(i as int),
            files.len() == orig.len(),
            forall|k: int| 0 <= k < orig.len() ==> #[trigger] files@[k].len() == entry_files(orig[k], session_dir@).len(),
            r.len() == i,
            forall|k: int| 0 <= k < i ==> entry_view_of(#[trigger] orig[k], session_dir@, byte_views(files@[k]@), r@[k]),
        decreases rest.len(),
    {
        let e = rest.remove(0);
        assert(e == orig[i as int]);
        assert(rest@ =~= orig.skip(i + 1));
        let v = entry_view(e, session_dir, &files[i]);
        r.push(v);
        i += 1;
    }
    r
}

/// A session as the interface shows it, with its entries as given, its
/// directory under `root`, its markdown file and the capture shortcut.
pub fn session_view(session: Session, root: &str, entries: Vec<TimelineEntryView>) -> (r: SessionView)
    ensures
        r.id == session.id,
        r.title == session.title,
        r.mode == session.mode,
        r.created_at == session.created_at,
        r.updated_at == session.updated_at,
        r.entries == entries,
        r.storage_path@ == session_dir(root@, session.id@),
        r.markdown_path@ == path_join(session_dir(root@, session.id@), "session.md"@),
        r.shortcut@ == "CmdOrCtrl+Shift+4"@,
{
    let storage_path = session_root(root, session.id.as_str());
    let markdown_path = join_path(storage_path.as_str(), "session.md");
    SessionView {
        id: session.id,
        title: session.title,
        mode: session.mode,
        created_at: session.created_at,
        updated_at: session.updated_at,
        entries,
        storage_path,
        markdown_path,
        shortcut: owned("CmdOrCtrl+Shift+4"),
    }
}

/// The summary of a stored session found at `storage_path`.
pub fn session_summary(session: &Session, storage_path: String) -> (r: SessionSummary)
    ensures
        r.id == session.id,
        r.title == session.title,
        r.mode == session.mode,
        r.created_at == session.created_at,
        r.updated_at == session.updated_at,
        r.entry_count == session.entries.len(),
        r.storage_path == storage_path,
{
    SessionSummary {
        id: session.id.clone(),
        title: session.title.clone(),
        mode: session.mode,
        created_at: session.created_at.clone(),
        updated_at: session.updated_at.clone(),
        entry_count: session.entries.len(),
        storage_path,
    }
}

/// `e` placed into the list `s` after every summary updated no earlier.
pub open spec fn insert_by_recency(s: Seq<SessionSummary>, e: SessionSummary) -> Seq<SessionSummary>
    decreases s.len(),
{
    if s.len() == 0 {
        seq![e]
    } else if seq_lt(s.last().updated_at@, e.updated_at@) {
        insert_by_recency(s.drop_last(), e).push(s.last())
    } else {
        s.push(e)
    }
}

/// The summaries, most recently updated first, ties keeping their order
/// (the stable sort on `updated_at`, descending).
pub open spec fn sort_by_recency(s: Seq<SessionSummary>) -> Seq<SessionSummary>
    decreases s.len(),
{
    if s.len() == 0 {
        s
    } else {
        insert_by_recency(sort_by_recency(s.drop_last()), s.last())
    }
}

proof fn lemma_insert_by_recency(s: Seq<SessionSummary>, e: SessionSummary, p: int)
    requires
        0 <= p <= s.len(),
        forall|q: int| p <= q < s.len() ==> seq_lt((#[trigger] s[q]).updated_at@, e.updated_at@),
        p == 0 || !seq_lt(s[p - 1].updated_at@, e.updated_at@),
    ensures
        insert_by_recency(s, e) == s.insert(p, e),
    decreases s.len() - p,
{
    if s.len() == 0 {
        assert(s.insert(p, e) =~= seq![e]);
    } else if p == s.len() {
        assert(s.insert(p, e) =~= s.push(e));
    } else {
        lemma_insert_by_recency(s.drop_last(), e, p);
        assert(s.drop_last().insert(p, e).push(s.last()) =~= s.insert(p, e));
    }
}

/// Orders session summaries, most recently updated first.
pub fn sort_summaries(summaries: Vec<SessionSummary>) -> (r: Vec<SessionSummary>)
    ensures
        r@ == sort_by_recency(summaries@),
{
    let ghost orig = summaries@;
    let mut rest = summaries;
    let mut out: Vec<SessionSummary> = Vec::new();
    let mut k: usize = 0;
    let n = rest.len();
    assert(orig.take(0) =~= Seq::<SessionSummary>::empty());
    assert(orig.skip(0) == orig);
    while 0 < rest.len()
        invariant
            n == orig.len(),
            k + rest.len() == n,
            rest@ == orig.skip(k as int),
            out@ == sort_by_recency(orig.take(k as int)),
        decreases rest.len(),
    {
        let e = rest.remove(0);
        assert(e == orig[k as int]);
        assert(rest@ =~= orig.skip(k + 1));
        let mut p = out.len();
        while p > 0 && crate::text::compare_str(out[p - 1].updated_at.as_str(), e.updated_at.as_str()) == -1
            invariant
                p <= out.len(),
                forall|q: int| p <= q < out.len() ==> seq_lt((#[trigger] out@[q]).updated_at@, e.updated_at@),
            decreases p,
        {
            p -= 1;
        }
        proof {
            lemma_insert_by_recency(out@, e, p as int);
            let t = orig.take(k + 1);
            assert(t.drop_last() =~= orig.take(k as int));
            assert(t.last() == e);
        }
        out.insert(p, e);
        k += 1;
    }
    assert(orig.take(n as int) == orig);
    out
}

/// A screenshot about to be taken: it goes to `<id>-original.png` in the
/// `imagediction-captures` directory under `temp_dir`.
pub fn capture_draft(
    mode: SessionMode,
    original_image_data_url: String,
    id: String,
    created_at: String,
    temp_dir: &str,
) -> (r: CaptureDraft)
    ensures
        r.id == id,
        r.created_at == created_at,
        r.mode == mode,
        r.original_image_path@ == path_join(
            path_join(temp_dir@, "imagediction-captures"@),
            id@ + "-original.png"@,
        ),
        r.original_image_data_url == original_image_data_url,
{
    let dir = join_path(temp_dir, "imagediction-captures");
    let name = concat(id.as_str(), "-original.png");
    let original_image_path = join_path(dir.as_str(), name.as_str());
    CaptureDraft { id, created_at, mode, original_image_path, original_image_data_url }
}

/// A screenshot about to be taken now, under a fresh UUID, to go into the
/// `imagediction-captures` directory under `temp_dir`.
pub fn draft_capture(mode: SessionMode, original_image_data_url: String, temp_dir: &str) -> (r: CaptureDraft)
    ensures
        uuid_shaped(r.id@),
        is_rfc3339(r.created_at@),
        r.mode == mode,
        r.original_image_path@ == path_join(
            path_join(temp_dir@, "imagediction-captures"@),
            r.id@ + "-original.png"@,
        ),
        r.original_image_data_url == original_image_data_url,
{
    let id = new_uuid();
    let created_at = utc_now_rfc3339();
    capture_draft(mode, original_image_data_url, id, created_at, temp_dir)
}

/// A character a slug may hold.
pub open spec fn slug_char(c: char) -> bool {
    ('a' <= c <= 'z') || ('0' <= c <= '9') || c == '-'
}

/// The text holds only slug characters and never two dashes in a row.
pub open spec fn slug_shaped(r: Seq<char>) -> bool {
    &&& forall|i: int| 0 <= i < r.len() ==> slug_char(#[trigger] r[i])
    &&& forall|i: int| 0 <= i < r.len() - 1 ==> !(#[trigger] r[i] == '-' && r[i + 1] == '-')
}

proof fn lemma_slug_from_shape(s: Seq<char>, dash: bool)
    ensures
        slug_shaped(slug_from(s, dash)),
        dash ==> (slug_from(s, dash).len() == 0 || slug_from(s, dash)[0] != '-'),
    decreases s.len(),
{
    if s.len() > 0 {
        let c = s[0];
        if is_ascii_alnum(c) {
            lemma_slug_from_shape(s.drop_first(), false);
            let rest = slug_from(s.drop_first(), false);
            let r = seq![ascii_lower(c)] + rest;
            assert(slug_char(ascii_lower(c)));
            assert forall|i: int| 0 <= i < r.len() implies slug_char(#[trigger] r[i]) by {
                if i > 0 {
                    assert(r[i] == rest[i - 1]);
                }
            }
            assert forall|i: int| 0 <= i < r.len() - 1 implies !(#[trigger] r[i] == '-' && r[i + 1] == '-') by {
                if i > 0 {
                    assert(r[i] == rest[i - 1] && r[i + 1] == rest[i]);
                }
            }
        } else if !dash {
            lemma_slug_from_shape(s.drop_first(), true);
            let rest = slug_from(s.drop_first(), true);
            let r = seq!['-'] + rest;
            assert forall|i: int| 0 <= i < r.len() implies slug_char(#[trigger] r[i]) by {
                if i > 0 {
                    assert(r[i] == rest[i - 1]);
                }
            }
            assert forall|i: int| 0 <= i < r.len() - 1 implies !(#[trigger] r[i] == '-' && r[i + 1] == '-') by {
                if i > 0 {
                    assert(r[i] == rest[i - 1] && r[i + 1] == rest[i]);
                } else {
                    assert(r[1] == rest[0]);
                }
            }
        } else {
            lemma_slug_from_shape(s.drop_first(), true);
        }
    }
}

proof fn lemma_strip_leading_shape(s: Seq<char>)
    ensures
        exists|k: int| 0 <= k <= s.len() && strip_leading_dashes(s) == s.skip(k),
        strip_leading_dashes(s).len() == 0 || strip_leading_dashes(s)[0] != '-',
    decreases s.len(),
{
    if s.len() > 0 && s[0] == '-' {
        lemma_strip_leading_shape(s.drop_first());
        let k = choose|k: int| 0 <= k <= s.drop_first().len() && strip_leading_dashes(s.drop_first()) == s.drop_first().skip(k);
        assert(s.drop_first().skip(k) == s.skip(k + 1));
    } else {
        assert(s.skip(0) == s);
    }
}

proof fn lemma_strip_trailing_shape(s: Seq<char>)
    ensures
        exists|k: int| 0 <= k <= s.len() && strip_trailing_dashes(s) == s.take(k),
        strip_trailing_dashes(s).len() == 0 || strip_trailing_dashes(s).last() != '-',
    decreases s.len(),
{
    if s.len() > 0 && s.last() == '-' {
        lemma_strip_trailing_shape(s.drop_last());
        let k = choose|k: int| 0 <= k <= s.drop_last().len() && strip_trailing_dashes(s.drop_last()) == s.drop_last().take(k);
        assert(s.drop_last().take(k) == s.take(k));
    } else {
        assert(s.take(s.len() as int) == s);
    }
}

/// A slug is never empty, holds only lower-case ASCII letters, digits and
/// dashes, never two dashes in a row, and neither begins nor ends with a
/// dash: it is safe in a directory name.
pub proof fn law_slug_is_path_safe(title: Seq<char>)
    ensures
        slug(title).len() > 0,
        slug_shaped(slug(title)),
        slug(title)[0] != '-',
        slug(title).last() != '-',
{
    let raw = slug_from(title, false);
    lemma_slug_from_shape(title, false);
    lemma_strip_leading_shape(raw);
    let a = strip_leading_dashes(raw);
    let ka = choose|k: int| 0 <= k <= raw.len() && a == raw.skip(k);
    assert(slug_shaped(a)) by {
        assert forall|i: int| 0 <= i < a.len() implies slug_char(#[trigger] a[i]) by {
            assert(a[i] == raw[i + ka]);
        }
        assert forall|i: int| 0 <= i < a.len() - 1 implies !(#[trigger] a[i] == '-' && a[i + 1] == '-') by {
            assert(a[i] == raw[i + ka] && a[i + 1] == raw[i + 1 + ka]);
        }
    }
    lemma_strip_trailing_shape(a);
    let b = strip_trailing_dashes(a);
    let kb = choose|k: int| 0 <= k <= a.len() && b == a.take(k);
    assert(slug_shaped(b)) by {
        assert forall|i: int| 0 <= i < b.len() implies slug_char(#[trigger] b[i]) by {
            assert(b[i] == a[i]);
        }
        assert forall|i: int| 0 <= i < b.len() - 1 implies !(#[trigger] b[i] == '-' && b[i + 1] == '-') by {
            assert(b[i] == a[i] && b[i + 1] == a[i + 1]);
        }
    }
    if b.len() > 0 {
        assert(b[0] == a[0]);
    } else {
        reveal_strlit("session");
        let w = "session"@;
        assert(slug_shaped(w)) by {
            assert forall|i: int| 0 <= i < w.len() implies slug_char(#[trigger] w[i]) by {}
        }
    }
}

} // verus!
