//! The screenshot and recording helpers: which recorder is used, what it is
//! run with, when its progress shows that audio is flowing, and what its
//! failures are reported as.
use vstd::prelude::*;

use crate::external::{lossy_text, utf8_lossy};
use crate::markdown::{opt_view, string_views};
use crate::settings::{first_existing, first_existing_path};
use crate::storage::{join_path, path_join};
use crate::text::{chars_of, owned, slice_vec, starts_with, starts_with_vec, trim, trim_str, trim_vec};

verus! {

/// The places `ffmpeg` is looked for, in order.
pub open spec fn ffmpeg_candidates() -> Seq<Seq<char>> {
    seq!["/opt/homebrew/bin/ffmpeg"@, "/usr/local/bin/ffmpeg"@, "/usr/bin/ffmpeg"@]
}

/// The places `ffmpeg` is looked for, in order.
pub fn ffmpeg_path_candidates() -> (r: Vec<String>)
    ensures
        string_views(r@) == ffmpeg_candidates(),
{
    let mut v: Vec<String> = Vec::new();
    v.push(owned("/opt/homebrew/bin/ffmpeg"));
    v.push(owned("/usr/local/bin/ffmpeg"));
    v.push(owned("/usr/bin/ffmpeg"));
    assert(string_views(v@) =~= ffmpeg_candidates());
    v
}

/// The first place where `ffmpeg` exists, `exists[k]` telling whether
/// candidate `k` exists.
pub fn resolve_ffmpeg_path(exists: &Vec<bool>) -> (r: Option<String>)
    ensures
        opt_view(r) == first_existing(ffmpeg_candidates(), exists@),
{
    let c = ffmpeg_path_candidates();
    first_existing_path(&c, exists)
}

/// The arguments `ffmpeg` records the default microphone with: mono 16 kHz
/// 16-bit PCM into `output`, reporting progress on standard output.
pub open spec fn ffmpeg_arguments(output: Seq<char>) -> Seq<Seq<char>> {
    seq![
        "-hide_banner"@,
        "-loglevel"@,
        "error"@,
        "-nostats"@,
        "-progress"@,
        "pipe:1"@,
        "-f"@,
        "avfoundation"@,
        "-thread_queue_size"@,
        "512"@,
        "-i"@,
        ":default"@,
        "-vn"@,
        "-ac"@,
        "1"@,
        "-ar"@,
        "16000"@,
        "-c:a"@,
        "pcm_s16le"@,
        "-y"@,
        output,
    ]
}

/// The places the bundled recording sidecar is looked for, in order: next
/// to the executable under its bundled name and its development name, then
/// in the resource directory, in the `MacOS` directory beside it, and in
/// the resource directory under its development name.
pub open spec fn sidecar_paths(exe_dir: Option<Seq<char>>, resource_dir: Option<Seq<char>>) -> Seq<Seq<char>> {
    let bundled = "imagediction-sidecar"@;
    let dev = "imagediction-sidecar-aarch64-apple-darwin"@;
    (match exe_dir {
        Some(d) => seq![path_join(d, bundled), path_join(d, dev)],
        None => Seq::<Seq<char>>::empty(),
    }) + (match resource_dir {
        Some(r) => seq![
            path_join(r, bundled),
            path_join(path_join(path_join(r, ".."@), "MacOS"@), bundled),
            path_join(r, dev),
        ],
        None => Seq::<Seq<char>>::empty(),
    })
}

/// The places the bundled recording sidecar is looked for, in order.
pub fn sidecar_candidates(exe_dir: Option<String>, resource_dir: Option<String>) -> (r: Vec<String>)
    ensures
        string_views(r@) == sidecar_paths(opt_view(exe_dir), opt_view(resource_dir)),
{
    let bundled = "imagediction-sidecar";
    let dev = "imagediction-sidecar-aarch64-apple-darwin";
    let mut v: Vec<String> = Vec::new();
    match &exe_dir {
        Some(d) => {
            v.push(join_path(d.as_str(), bundled));
            v.push(join_path(d.as_str(), dev));
        },
        None => {},
    }
    match &resource_dir {
        Some(r) => {
            v.push(join_path(r.as_str(), bundled));
            let up = join_path(r.as_str(), "..");
            let macos = join_path(up.as_str(), "MacOS");
            v.push(join_path(macos.as_str(), bundled));
            v.push(join_path(r.as_str(), dev));
        },
        None => {},
    }
    assert(string_views(v@) =~= sidecar_paths(opt_view(exe_dir), opt_view(resource_dir)));
    v
}

/// Where a development build keeps the sidecar: under `binaries` in the
/// crate's directory.
pub fn dev_sidecar_path(manifest_dir: &str) -> (r: String)
    ensures
        r@ == path_join(path_join(manifest_dir@, "binaries"@), "imagediction-sidecar-aarch64-apple-darwin"@),
{
    let dir = join_path(manifest_dir, "binaries");
    join_path(dir.as_str(), "imagediction-sidecar-aarch64-apple-darwin")
}

/// The arguments `ffmpeg` records with.
pub fn ffmpeg_args(output: &str) -> (r: Vec<String>)
    ensures
        string_views(r@) == ffmpeg_arguments(output@),
{
    let mut v: Vec<String> = Vec::new();
    v.push(owned("-hide_banner"));
    v.push(owned("-loglevel"));
    v.push(owned("error"));
    v.push(owned("-nostats"));
    v.push(owned("-progress"));
    v.push(owned("pipe:1"));
    v.push(owned("-f"));
    v.push(owned("avfoundation"));
    v.push(owned("-thread_queue_size"));
    v.push(owned("512"));
    v.push(owned("-i"));
    v.push(owned(":default"));
    v.push(owned("-vn"));
    v.push(owned("-ac"));
    v.push(owned("1"));
    v.push(owned("-ar"));
    v.push(owned("16000"));
    v.push(owned("-c:a"));
    v.push(owned("pcm_s16le"));
    v.push(owned("-y"));
    v.push(owned(output));
    assert(string_views(v@) =~= ffmpeg_arguments(output@));
    v
}

/// Whether a character is an ASCII digit.
pub open spec fn is_digit(c: char) -> bool {
    '0' <= c <= '9'
}

/// The value of a sequence of decimal digits.
pub open spec fn digits_value(s: Seq<char>) -> int
    decreases s.len(),
{
    if s.len() == 0 {
        0
    } else {
        digits_value(s.drop_last()) * 10 + (s.last() as int - '0' as int)
    }
}

/// A text without its leading `+`, if it has one.
pub open spec fn unsigned_digits(s: Seq<char>) -> Seq<char> {
    if s.len() > 0 && s[0] == '+' {
        s.drop_first()
    } else {
        s
    }
}

/// Every character of the text is a decimal digit.
pub open spec fn all_digits(d: Seq<char>) -> bool {
    forall|i: int| 0 <= i < d.len() ==> is_digit(#[trigger] d[i])
}

/// The unsigned 64-bit number a text denotes (`str::parse::<u64>`): an
/// optional `+`, then at least one decimal digit and nothing else, with a
/// value that fits.
pub open spec fn parse_u64(s: Seq<char>) -> Option<u64> {
    let d = unsigned_digits(s);
    if d.len() > 0 && all_digits(d) && digits_value(d) <= u64::MAX {
        Some(digits_value(d) as u64)
    } else {
        None
    }
}

proof fn lemma_digits_value_nonneg(s: Seq<char>)
    requires
        forall|i: int| 0 <= i < s.len() ==> is_digit(#[trigger] s[i]),
    ensures
        digits_value(s) >= 0,
        forall|k: int| 0 <= k <= s.len() ==> digits_value(#[trigger] s.take(k)) <= digits_value(s),
    decreases s.len(),
{
    if s.len() > 0 {
        let t = s.drop_last();
        assert forall|i: int| 0 <= i < t.len() implies is_digit(#[trigger] t[i]) by {
            assert(t[i] == s[i]);
        }
        lemma_digits_value_nonneg(t);
        assert(is_digit(s[s.len() - 1]));
        assert forall|k: int| 0 <= k <= s.len() implies digits_value(#[trigger] s.take(k)) <= digits_value(s) by {
            if k < s.len() {
                assert(s.take(k) =~= t.take(k));
            } else {
                assert(s.take(k) =~= s);
            }
        }
    }
}

/// The number a text denotes, if it is one.
pub fn parse_u64_str(s: &Vec<char>) -> (r: Option<u64>)
    ensures
        r == parse_u64(s@),
{
    let start: usize = if s.len() > 0 && s[0] == '+' {
        1
    } else {
        0
    };
    let d = slice_vec(s, start, s.len());
    assert(start == 1 ==> d@ =~= s@.drop_first());
    assert(start == 0 ==> d@ =~= s@);
    if d.len() == 0 {
        return None;
    }
    let mut v: u64 = 0;
    let mut i: usize = 0;
    while i < d.len()
        invariant
            i <= d.len(),
            d.len() > 0,
            d@ == unsigned_digits(s@),
            forall|k: int| 0 <= k < i ==> is_digit(#[trigger] d@[k]),
            v as int == digits_value(d@.take(i as int)),
        decreases d.len() - i,
    {
        let c = d[i];
        if !('0' <= c && c <= '9') {
            proof {
                assert(!is_digit(d@[i as int]));
                assert(!all_digits(d@));
            }
            return None;
        }
        let digit = (c as u32 - '0' as u32) as u64;
        proof {
            assert(d@.take(i + 1).drop_last() =~= d@.take(i as int));
            assert(d@.take(i + 1).last() == c);
        }
        if v > (u64::MAX - digit) / 10 {
            proof {
                assert(digits_value(d@.take(i + 1)) == v * 10 + digit);
                assert(digits_value(d@.take(i + 1)) > u64::MAX);
                if parse_u64(s@) is Some {
                    assert(all_digits(d@));
                    lemma_digits_value_nonneg(d@);
                    assert(digits_value(d@.take(i + 1)) <= digits_value(d@));
                    assert(false);
                }
            }
            return None;
        }
        v = v * 10 + digit;
        i += 1;
    }
    assert(d@.take(d.len() as int) =~= d@);
    Some(v)
}

/// Whether a progress line of `ffmpeg` shows that audio is being written:
/// `out_time_ms=` followed by a number above zero.
pub open spec fn indicates_audio(line: Seq<char>) -> bool {
    starts_with(line, "out_time_ms="@) && match parse_u64(trim(line.skip(12))) {
        Some(v) => v > 0,
        None => false,
    }
}

/// Whether a progress line of `ffmpeg` shows that audio is being written.
pub fn ffmpeg_progress_indicates_audio(line: &str) -> (r: bool)
    ensures
        r == indicates_audio(line@),
{
    let v = chars_of(line);
    let prefix = chars_of("out_time_ms=");
    proof {
        reveal_strlit("out_time_ms=");
    }
    if !starts_with_vec(&v, &prefix) {
        return false;
    }
    let rest = slice_vec(&v, 12, v.len());
    assert(rest@ =~= v@.skip(12));
    let t = trim_vec(&rest);
    match parse_u64_str(&t) {
        Some(n) => n > 0,
        None => false,
    }
}

/// The error reported when a helper process fails: its error output,
/// trimmed, or `fallback` when it wrote none.
pub open spec fn process_failure(stderr: Seq<u8>, fallback: Seq<char>) -> Seq<char> {
    let t = trim(utf8_lossy(stderr));
    if t.len() == 0 {
        fallback
    } else {
        t
    }
}

/// The error reported when a helper process fails.
pub fn process_error_message(stderr: &[u8], fallback: &str) -> (r: String)
    ensures
        r@ == process_failure(stderr@, fallback@),
{
    let t = trim_str(lossy_text(stderr).as_str());
    if chars_of(t.as_str()).len() == 0 {
        owned(fallback)
    } else {
        t
    }
}

/// The screenshot tool: the system one when it exists, else whatever
/// `screencapture` the search path finds.
pub fn screencapture_command(system_tool_exists: bool) -> (r: &'static str)
    ensures
        system_tool_exists ==> r@ == "/usr/sbin/screencapture"@,
        !system_tool_exists ==> r@ == "screencapture"@,
{
    if system_tool_exists {
        "/usr/sbin/screencapture"
    } else {
        "screencapture"
    }
}

/// What happens while `ffmpeg` starts recording.
#[derive(Debug)]
pub enum StartupEvent {
    /// The recorder process has exited.
    Exited,
    /// The recorder printed a progress line.
    Progress(String),
    /// Nothing arrived within the polling interval.
    Quiet,
    /// The time allowed for audio to start has passed.
    TimedOut,
}

/// What to do next while `ffmpeg` starts recording.
#[derive(Clone, Copy, Debug, PartialEq, Eq, Structural)]
pub enum StartupAction {
    /// Report why the recorder exited early.
    ReportEarlyExit,
    /// Audio is flowing: recording has started.
    Ready,
    /// Wait for the next event.
    KeepWaiting,
    /// Stop the recorder and report that no audio arrived.
    GiveUp,
}

/// The next step of waiting for `ffmpeg`: an early exit is reported, a
/// progress line showing audio means the recording started, a timeout
/// gives up, anything else keeps waiting.
pub fn ffmpeg_startup_step(event: &StartupEvent) -> (r: StartupAction)
    ensures
        match event {
            StartupEvent::Exited => r == StartupAction::ReportEarlyExit,
            StartupEvent::Progress(line) => r == if indicates_audio(line@) {
                StartupAction::Ready
            } else {
                StartupAction::KeepWaiting
            },
            StartupEvent::Quiet => r == StartupAction::KeepWaiting,
            StartupEvent::TimedOut => r == StartupAction::GiveUp,
        },
{
    match event {
        StartupEvent::Exited => StartupAction::ReportEarlyExit,
        StartupEvent::Progress(line) => if ffmpeg_progress_indicates_audio(line.as_str()) {
            StartupAction::Ready
        } else {
            StartupAction::KeepWaiting
        },
        StartupEvent::Quiet => StartupAction::KeepWaiting,
        StartupEvent::TimedOut => StartupAction::GiveUp,
    }
}

} // verus!
