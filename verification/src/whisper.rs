//! Local transcription with `whisper-cli`: which binary and model it uses,
//! the arguments it is run with, and how its output becomes a transcript.
use vstd::prelude::*;

use crate::external::{lossy_text, utf8_lossy};
use crate::markdown::{opt_view, string_views};
use crate::model::AppSettings;
use crate::settings::{expand_path, expanded};
use crate::storage::first_index;
use crate::text::{
    chars_of, concat, contains_seq, contains_vec, is_blank, is_blank_str, join, join_vec, owned,
    slice_vec, split, split_vec, string_of, trim, trim_str, trim_vec, views,
};

verus! {

/// Why local transcription cannot run or gave nothing.
#[derive(Debug)]
pub enum WhisperError {
    ModelNotChosen,
    ModelMissing { path: String },
    BinaryMissing { path: String },
    BinaryNotFound,
    NoTranscript,
}

impl WhisperError {
    /// The message of the error.
    pub fn message(&self) -> (r: String)
        ensures
            r@ == whisper_error_message(*self),
    {
        match self {
            WhisperError::ModelNotChosen => owned(
                "Choose a local Whisper model file in Settings before using Local Whisper.",
            ),
            WhisperError::ModelMissing { path } => concat(
                "Local Whisper model was not found at ",
                path.as_str(),
            ),
            WhisperError::BinaryMissing { path } => concat(
                "Local Whisper binary was not found at ",
                path.as_str(),
            ),
            WhisperError::BinaryNotFound => owned(
                "whisper-cli was not found. Install whisper.cpp or set the binary path in Feedback -> Settings.",
            ),
            WhisperError::NoTranscript => owned(
                "whisper-cli finished without returning a transcript",
            ),
        }
    }
}

/// The message of a local transcription error.
pub open spec fn whisper_error_message(e: WhisperError) -> Seq<char> {
    match e {
        WhisperError::ModelNotChosen => "Choose a local Whisper model file in Settings before using Local Whisper."@,
        WhisperError::ModelMissing { path } => "Local Whisper model was not found at "@ + path@,
        WhisperError::BinaryMissing { path } => "Local Whisper binary was not found at "@ + path@,
        WhisperError::BinaryNotFound => "whisper-cli was not found. Install whisper.cpp or set the binary path in Feedback -> Settings."@,
        WhisperError::NoTranscript => "whisper-cli finished without returning a transcript"@,
    }
}

/// Local Whisper is configured when a model is set, its file exists
/// (`model_found`, for the path `model_path_setting` gives) and the binary
/// was found.
pub fn is_configured(settings: &AppSettings, model_found: bool, binary_found: bool) -> (r: bool)
    ensures
        r == (!is_blank(settings.whisper_model_path@) && model_found && binary_found),
{
    !is_blank_str(settings.whisper_model_path.as_str()) && model_found && binary_found
}

/// The model file to use: the configured one, `~` expanded; an error when
/// none is set.
pub fn model_path_setting(settings: &AppSettings, home: Option<String>) -> (r: Result<String, WhisperError>)
    ensures
        is_blank(settings.whisper_model_path@) ==> r matches Err(WhisperError::ModelNotChosen),
        !is_blank(settings.whisper_model_path@) ==> (r matches Ok(p) && p@ == expanded(
            trim(settings.whisper_model_path@),
            opt_view(home),
        )),
{
    if is_blank_str(settings.whisper_model_path.as_str()) {
        return Err(WhisperError::ModelNotChosen);
    }
    let t = trim_str(settings.whisper_model_path.as_str());
    Ok(expand_path(t.as_str(), home))
}

/// The binary set in the settings, `~` expanded, when one is set.
pub fn configured_binary(settings: &AppSettings, home: Option<String>) -> (r: Option<String>)
    ensures
        is_blank(settings.whisper_binary_path@) ==> r is None,
        !is_blank(settings.whisper_binary_path@) ==> (r matches Some(p) && p@ == expanded(
            trim(settings.whisper_binary_path@),
            opt_view(home),
        )),
{
    if is_blank_str(settings.whisper_binary_path.as_str()) {
        return None;
    }
    let t = trim_str(settings.whisper_binary_path.as_str());
    Some(expand_path(t.as_str(), home))
}

/// Where the `whisper-cli` to run comes from.
#[derive(Debug)]
pub enum BinaryLookup {
    /// Run this binary.
    Use(String),
    /// Look it up on the search path (`which whisper-cli`).
    SearchPath,
}

/// Which `whisper-cli` to run: the one set in the settings, `~` expanded,
/// when one is set, which must exist (`configured_exists`); else the one
/// installed in a usual place (`installed`), if any; else one on the search
/// path.
pub fn binary_lookup(
    settings: &AppSettings,
    home: Option<String>,
    configured_exists: bool,
    installed: Option<String>,
) -> (r: Result<BinaryLookup, WhisperError>)
    ensures
        !is_blank(settings.whisper_binary_path@) ==> ({
            let p = expanded(trim(settings.whisper_binary_path@), opt_view(home));
            if configured_exists {
                r matches Ok(BinaryLookup::Use(b)) && b@ == p
            } else {
                r matches Err(WhisperError::BinaryMissing { path }) && path@ == p
            }
        }),
        is_blank(settings.whisper_binary_path@) ==> match installed {
            Some(i) => r matches Ok(BinaryLookup::Use(b)) && b == i,
            None => r matches Ok(BinaryLookup::SearchPath),
        },
{
    match configured_binary(settings, home) {
        Some(path) => {
            if configured_exists {
                Ok(BinaryLookup::Use(path))
            } else {
                Err(WhisperError::BinaryMissing { path })
            }
        },
        None => match installed {
            Some(i) => Ok(BinaryLookup::Use(i)),
            None => Ok(BinaryLookup::SearchPath),
        },
    }
}

/// The binary that `which whisper-cli` printed: its output trimmed, when
/// it succeeded and printed something; otherwise none was found.
pub fn searched_binary(succeeded: bool, stdout: &[u8]) -> (r: Result<String, WhisperError>)
    ensures
        (succeeded && trim(utf8_lossy(stdout@)).len() > 0) ==> (r matches Ok(b) && b@ == trim(
            utf8_lossy(stdout@),
        )),
        !(succeeded && trim(utf8_lossy(stdout@)).len() > 0) ==> r matches Err(
            WhisperError::BinaryNotFound,
        ),
{
    if !succeeded {
        return Err(WhisperError::BinaryNotFound);
    }
    let t = trim_str(lossy_text(stdout).as_str());
    if chars_of(t.as_str()).len() > 0 {
        Ok(t)
    } else {
        Err(WhisperError::BinaryNotFound)
    }
}

/// The arguments naming the model, the clip and, when one is set, the
/// language.
pub open spec fn base_args(model: Seq<char>, input: Seq<char>, language: Seq<char>) -> Seq<Seq<char>> {
    seq!["-m"@, model, "-f"@, input] + if is_blank(language) {
        seq![]
    } else {
        seq!["-l"@, trim(language)]
    }
}

/// The arguments of the run that writes the transcript to
/// `<output_base>.txt` without timestamps or progress.
pub open spec fn primary_args(model: Seq<char>, input: Seq<char>, language: Seq<char>, output_base: Seq<char>) -> Seq<Seq<char>> {
    base_args(model, input, language) + seq!["-otxt"@, "-of"@, output_base, "-nt"@, "-np"@]
}

/// The arguments of the fallback run, which prints the transcript.
pub fn whisper_args(model: &str, input: &str, language: &str) -> (r: Vec<String>)
    ensures
        string_views(r@) == base_args(model@, input@, language@),
{
    let mut v: Vec<String> = Vec::new();
    v.push(owned("-m"));
    v.push(owned(model));
    v.push(owned("-f"));
    v.push(owned(input));
    if !is_blank_str(language) {
        v.push(owned("-l"));
        v.push(trim_str(language));
    }
    assert(string_views(v@) =~= base_args(model@, input@, language@));
    v
}

/// The arguments of the run that writes the transcript to a file.
pub fn whisper_primary_args(model: &str, input: &str, language: &str, output_base: &str) -> (r: Vec<String>)
    ensures
        string_views(r@) == primary_args(model@, input@, language@, output_base@),
{
    let mut v = whisper_args(model, input, language);
    let ghost b = string_views(v@);
    v.push(owned("-otxt"));
    v.push(owned("-of"));
    v.push(owned(output_base));
    v.push(owned("-nt"));
    v.push(owned("-np"));
    assert(string_views(v@) =~= primary_args(model@, input@, language@, output_base@));
    v
}

/// The transcript written to the output file, when it holds text.
pub fn file_transcript(text: &str) -> (r: Option<String>)
    ensures
        is_blank(text@) ==> r is None,
        !is_blank(text@) ==> (r matches Some(t) && t@ == trim(text@)),
{
    if is_blank_str(text) {
        None
    } else {
        Some(trim_str(text))
    }
}

/// The text of one line of `whisper-cli` output: a timestamped line
/// `[..] text` gives its text after the bracket; other lines holding a colon
/// are log lines and give nothing; blank lines give nothing.
pub open spec fn line_text(line: Seq<char>) -> Option<Seq<char>> {
    let t = trim(line);
    if t.len() == 0 {
        None
    } else if t[0] == '[' && contains_seq(t, "-->"@) {
        match first_index(t, ']') {
            Some(i) => Some(trim(t.skip(i + 1))),
            None => None,
        }
    } else if first_index(t, ':') is Some {
        None
    } else {
        Some(t)
    }
}

/// The texts of the lines that give one, in order.
pub open spec fn line_texts(lines: Seq<Seq<char>>) -> Seq<Seq<char>>
    decreases lines.len(),
{
    if lines.len() == 0 {
        seq![]
    } else {
        let rest = line_texts(lines.drop_last());
        match line_text(lines.last()) {
            Some(t) => rest.push(t),
            None => rest,
        }
    }
}

/// The transcript `whisper-cli` printed: the texts of its lines, joined by
/// spaces and trimmed. Lines are split at line feeds; a carriage return
/// before one is whitespace and is trimmed with the line.
pub open spec fn printed_transcript(stdout: Seq<char>) -> Seq<char> {
    trim(join(line_texts(split(stdout, seq!['\n'])), seq![' ']))
}

fn index_of_char(v: &Vec<char>, c: char) -> (r: Option<usize>)
    ensures
        r matches Some(i) ==> i < v.len() && first_index(v@, c) == Some(i as int),
        r is None ==> first_index(v@, c) is None,
{
    proof {
        crate::storage::lemma_first_index_pub(v@, c);
    }
    let mut i: usize = 0;
    while i < v.len()
        invariant
            i <= v.len(),
            forall|k: int| 0 <= k < i ==> v@[k] != c,
        decreases v.len() - i,
    {
        if v[i] == c {
            proof {
                crate::storage::lemma_first_index_pub(v@, c);
                match first_index(v@, c) {
                    Some(j) => {
                        if j < i {
                            assert(v@[j] != c);
                        }
                        if j > i {
                            assert(v@[i as int] == c);
                        }
                    },
                    None => {
                        assert(v@[i as int] == c);
                    },
                }
            }
            return Some(i);
        }
        i += 1;
    }
    proof {
        crate::storage::lemma_first_index_pub(v@, c);
        match first_index(v@, c) {
            Some(j) => {
                assert(v@[j] != c);
            },
            None => {},
        }
    }
    None
}

fn line_text_vec(line: &Vec<char>) -> (r: Option<Vec<char>>)
    ensures
        match line_text(line@) {
            Some(t) => r matches Some(v) && v@ == t,
            None => r is None,
        },
{
    let t = trim_vec(line);
    if t.len() == 0 {
        return None;
    }
    let arrow = chars_of("-->");
    if t[0] == '[' && contains_vec(&t, &arrow) {
        match index_of_char(&t, ']') {
            Some(i) => {
                let rest = slice_vec(&t, i + 1, t.len());
                assert(rest@ =~= t@.skip(i + 1));
                assert(first_index(t@, ']') == Some(i as int));
                Some(trim_vec(&rest))
            },
            None => None,
        }
    } else {
        let colon = index_of_char(&t, ':');
        assert(colon is Some <==> first_index(t@, ':') is Some);
        if colon.is_some() {
            None
        } else {
            Some(t)
        }
    }
}

/// Reads the transcript out of what `whisper-cli` printed.
pub fn parse_transcript(stdout: &str) -> (r: String)
    ensures
        r@ == printed_transcript(stdout@),
{
    let v = chars_of(stdout);
    let mut nl: Vec<char> = Vec::new();
    nl.push('\n');
    assert(nl@ =~= seq!['\n']);
    let lines = split_vec(&v, &nl);
    let ghost ls = views(lines@);
    let mut texts: Vec<Vec<char>> = Vec::new();
    let mut i: usize = 0;
    assert(views(texts@) =~= Seq::<Seq<char>>::empty());
    assert(ls.take(0) =~= Seq::<Seq<char>>::empty());
    while i < lines.len()
        invariant
            i <= lines.len(),
            ls == views(lines@),
            views(texts@) == line_texts(ls.take(i as int)),
        decreases lines.len() - i,
    {
        let t = line_text_vec(&lines[i]);
        proof {
            let pre = ls.take(i + 1);
            assert(pre.drop_last() =~= ls.take(i as int));
            assert(pre.last() == lines@[i as int]@);
        }
        match t {
            Some(x) => {
                proof {
                    assert(views(texts@.push(x)) =~= views(texts@).push(x@));
                }
                texts.push(x);
            },
            None => {},
        }
        i += 1;
    }
    assert(ls.take(lines.len() as int) =~= ls);
    let mut sp: Vec<char> = Vec::new();
    sp.push(' ');
    assert(sp@ =~= seq![' ']);
    let joined = join_vec(&texts, &sp);
    let t = trim_vec(&joined);
    string_of(&t)
}

/// The transcript of the fallback run, read from what it printed.
pub fn printed_transcript_of(stdout: &[u8]) -> (r: Result<String, WhisperError>)
    ensures
        printed_transcript(utf8_lossy(stdout@)).len() == 0 ==> r matches Err(WhisperError::NoTranscript),
        printed_transcript(utf8_lossy(stdout@)).len() > 0 ==> (r matches Ok(t) && t@ == printed_transcript(utf8_lossy(stdout@))),
{
    let text = lossy_text(stdout);
    let t = parse_transcript(text.as_str());
    if chars_of(t.as_str()).len() == 0 {
        Err(WhisperError::NoTranscript)
    } else {
        Ok(t)
    }
}

/// The message when the fallback run fails: its error output, else that of
/// the first run, else the exit status.
pub open spec fn failure_message(fallback_stderr: Seq<u8>, primary_stderr: Seq<u8>, status: Seq<char>) -> Seq<char> {
    let a = trim(utf8_lossy(fallback_stderr));
    let b = trim(utf8_lossy(primary_stderr));
    if a.len() > 0 {
        a
    } else if b.len() > 0 {
        b
    } else {
        "whisper-cli exited with status "@ + status
    }
}

/// The message when the fallback run of `whisper-cli` fails.
pub fn whisper_failure_message(fallback_stderr: &[u8], primary_stderr: &[u8], status: &str) -> (r: String)
    ensures
        r@ == failure_message(fallback_stderr@, primary_stderr@, status@),
{
    let a = trim_str(lossy_text(fallback_stderr).as_str());
    if chars_of(a.as_str()).len() > 0 {
        return a;
    }
    let b = trim_str(lossy_text(primary_stderr).as_str());
    if chars_of(b.as_str()).len() > 0 {
        return b;
    }
    concat("whisper-cli exited with status ", status)
}

} // verus!
