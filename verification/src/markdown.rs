//! The markdown export of a session: each timeline entry becomes blocks of
//! text, and the captures taken during a dictation are placed between the
//! sentences of its transcript.
use vstd::prelude::*;

use crate::model::{DictationEntry, TimelineEntry};
use crate::text::{
    append_vec, chars_of, clean_pieces, clean_pieces_vec, crlf_to_lf, crlf_to_lf_vec,
    eq_ignore_ascii_case, eq_ignore_ascii_case_vec, is_whitespace, join, join_vec, split,
    split_vec, starts_with, starts_with_vec, string_of, trim, trim_vec, views, words, words_vec,
};

verus! {

/// The views of a sequence of strings.
pub open spec fn string_views(v: Seq<String>) -> Seq<Seq<char>> {
    v.map_values(|s: String| s@)
}

/// Strings holding the given character vectors.
pub fn strings_of(ps: &Vec<Vec<char>>) -> (r: Vec<String>)
    ensures
        string_views(r@) == views(ps@),
{
    let mut out: Vec<String> = Vec::new();
    let mut i: usize = 0;
    while i < ps.len()
        invariant
            i <= ps.len(),
            string_views(out@) == views(ps@).take(i as int),
        decreases ps.len() - i,
    {
        let s = string_of(&ps[i]);
        proof {
            assert(string_views(out@.push(s)) =~= string_views(out@).push(s@));
            assert(views(ps@).take(i + 1) =~= views(ps@).take(i as int).push(ps@[i as int]@));
        }
        out.push(s);
        i += 1;
    }
    assert(views(ps@).take(ps.len() as int) =~= views(ps@));
    out
}

/// Character vectors holding the given strings.
pub fn vecs_of(ss: &Vec<String>) -> (r: Vec<Vec<char>>)
    ensures
        views(r@) == string_views(ss@),
{
    let mut out: Vec<Vec<char>> = Vec::new();
    let mut i: usize = 0;
    while i < ss.len()
        invariant
            i <= ss.len(),
            views(out@) == string_views(ss@).take(i as int),
        decreases ss.len() - i,
    {
        let v = chars_of(ss[i].as_str());
        proof {
            assert(views(out@.push(v)) =~= views(out@).push(v@));
            assert(string_views(ss@).take(i + 1) =~= string_views(ss@).take(i as int).push(
                ss@[i as int]@,
            ));
        }
        out.push(v);
        i += 1;
    }
    assert(string_views(ss@).take(ss.len() as int) =~= string_views(ss@));
    out
}

/// A block of text with its line endings normalised and its surrounding
/// whitespace removed.
pub open spec fn clean_block(s: Seq<char>) -> Seq<char> {
    trim(crlf_to_lf(s))
}

/// The cleaned block of an optional text, when it is not empty.
pub open spec fn clean_opt(o: Option<Seq<char>>) -> Option<Seq<char>> {
    match o {
        Some(s) => if clean_block(s).len() > 0 {
            Some(clean_block(s))
        } else {
            None
        },
        None => None,
    }
}

/// The view of an optional string.
pub open spec fn opt_view(o: Option<String>) -> Option<Seq<char>> {
    match o {
        Some(s) => Some(s@),
        None => None,
    }
}

fn clean_block_vec(v: &Vec<char>) -> (r: Vec<char>)
    ensures
        r@ == clean_block(v@),
{
    let n = crlf_to_lf_vec(v);
    trim_vec(&n)
}

/// The cleaned, non-empty form of an optional block of text.
pub fn clean_text_block(raw: Option<&str>) -> (r: Option<String>)
    ensures
        opt_view(r) == clean_opt(match raw {
            Some(s) => Some(s@),
            None => None,
        }),
{
    match raw {
        Some(s) => {
            let v = chars_of(s);
            let c = clean_block_vec(&v);
            if c.len() > 0 {
                Some(string_of(&c))
            } else {
                None
            }
        },
        None => None,
    }
}

fn clean_opt_string(raw: &Option<String>) -> (r: Option<Vec<char>>)
    ensures
        match r {
            Some(v) => clean_opt(opt_view(*raw)) == Some(v@),
            None => clean_opt(opt_view(*raw)) is None,
        },
{
    match raw {
        Some(s) => {
            let v = chars_of(s.as_str());
            let c = clean_block_vec(&v);
            if c.len() > 0 {
                Some(c)
            } else {
                None
            }
        },
        None => None,
    }
}

/// The paragraphs of a text: its pieces between blank-line separators
/// (`"\n\n"` once line endings are normalised), trimmed, empty ones left out.
pub open spec fn markdown_blocks(s: Seq<char>) -> Seq<Seq<char>> {
    clean_pieces(split(crlf_to_lf(s), seq!['\n', '\n']))
}

pub fn markdown_blocks_vec(v: &Vec<char>) -> (r: Vec<Vec<char>>)
    ensures
        views(r@) == markdown_blocks(v@),
{
    let n = crlf_to_lf_vec(v);
    let mut sep: Vec<char> = Vec::new();
    sep.push('\n');
    sep.push('\n');
    assert(sep@ =~= seq!['\n', '\n']);
    let pieces = split_vec(&n, &sep);
    clean_pieces_vec(&pieces)
}

/// Splits a text into its markdown paragraphs.
pub fn split_markdown_blocks(text: &str) -> (r: Vec<String>)
    ensures
        string_views(r@) == markdown_blocks(text@),
{
    let v = chars_of(text);
    let b = markdown_blocks_vec(&v);
    strings_of(&b)
}

/// A transcript that stands for a failed or missing transcription.
pub open spec fn is_placeholder(s: Seq<char>) -> bool {
    ||| eq_ignore_ascii_case(trim(s), "Transcription unavailable"@)
    ||| starts_with(trim(s), "Transcription failed:"@)
}

fn is_placeholder_vec(v: &Vec<char>) -> (r: bool)
    ensures
        r == is_placeholder(v@),
{
    let t = trim_vec(v);
    let unavailable = chars_of("Transcription unavailable");
    let failed = chars_of("Transcription failed:");
    eq_ignore_ascii_case_vec(&t, &unavailable) || starts_with_vec(&t, &failed)
}

/// Whether a transcript stands for a failed or missing transcription.
pub fn is_transcription_placeholder(text: &str) -> (r: bool)
    ensures
        r == is_placeholder(text@),
{
    let v = chars_of(text);
    is_placeholder_vec(&v)
}

/// The transcript to show for a dictation: the corrected one, unless it is a
/// placeholder while the original transcript is not; empty when neither
/// holds text.
pub open spec fn preferred(d: DictationEntry) -> Seq<char> {
    let corrected = clean_opt(opt_view(d.corrected_transcript));
    let transcript = clean_opt(Some(d.transcript@));
    match corrected {
        Some(c) => match transcript {
            Some(t) => if is_placeholder(c) && !is_placeholder(t) {
                t
            } else {
                c
            },
            None => c,
        },
        None => match transcript {
            Some(t) => t,
            None => seq![],
        },
    }
}

pub fn preferred_vec(d: &DictationEntry) -> (r: Vec<char>)
    ensures
        r@ == preferred(*d),
{
    let corrected = clean_opt_string(&d.corrected_transcript);
    let tv = chars_of(d.transcript.as_str());
    let tc = clean_block_vec(&tv);
    let transcript = if tc.len() > 0 {
        Some(tc)
    } else {
        None
    };
    match corrected {
        Some(c) => match transcript {
            Some(t) => {
                if is_placeholder_vec(&c) && !is_placeholder_vec(&t) {
                    t
                } else {
                    c
                }
            },
            None => c,
        },
        None => match transcript {
            Some(t) => t,
            None => Vec::new(),
        },
    }
}

/// The transcript to show for a dictation.
pub fn preferred_transcript(entry: &DictationEntry) -> (r: String)
    ensures
        r@ == preferred(*entry),
{
    let v = preferred_vec(entry);
    string_of(&v)
}

/// A character that ends a sentence.
pub open spec fn is_terminator(c: char) -> bool {
    c == '.' || c == '!' || c == '?'
}

/// The trimmed text as a one-element sequence, or nothing when it is blank.
pub open spec fn emit(t: Seq<char>) -> Seq<Seq<char>> {
    if trim(t).len() > 0 {
        seq![trim(t)]
    } else {
        seq![]
    }
}

/// The sentences of `s`, each ending at `.`, `!` or `?` (the last one at the
/// end of the text), trimmed, blank ones left out; `cur` is the part of the
/// current sentence already read.
pub open spec fn sentences_from(s: Seq<char>, cur: Seq<char>) -> Seq<Seq<char>>
    decreases s.len(),
{
    if s.len() == 0 {
        emit(cur)
    } else if is_terminator(s[0]) {
        emit(cur.push(s[0])) + sentences_from(s.drop_first(), seq![])
    } else {
        sentences_from(s.drop_first(), cur.push(s[0]))
    }
}

/// `s` with line feeds turned into spaces.
pub open spec fn newlines_to_spaces(s: Seq<char>) -> Seq<char> {
    s.map_values(
        |c: char|
            if c == '\n' {
                ' '
            } else {
                c
            },
    )
}

/// The sentences of a transcript.
pub open spec fn sentences(s: Seq<char>) -> Seq<Seq<char>> {
    sentences_from(newlines_to_spaces(s), seq![])
}

fn emit_into(out: &mut Vec<Vec<char>>, cur: &Vec<char>)
    ensures
        views(final(out)@) == views(old(out)@) + emit(cur@),
{
    let t = trim_vec(cur);
    if t.len() > 0 {
        proof {
            assert(views(out@.push(t)) =~= views(out@) + seq![t@]);
        }
        out.push(t);
    } else {
        assert(views(out@) + emit(cur@) =~= views(out@));
    }
}

fn sentences_vec(v: &Vec<char>) -> (r: Vec<Vec<char>>)
    ensures
        views(r@) == sentences(v@),
{
    let mut m: Vec<char> = Vec::new();
    let mut k: usize = 0;
    while k < v.len()
        invariant
            k <= v.len(),
            m@ == newlines_to_spaces(v@).take(k as int),
        decreases v.len() - k,
    {
        let c = if v[k] == '\n' {
            ' '
        } else {
            v[k]
        };
        m.push(c);
        assert(m@ =~= newlines_to_spaces(v@).take(k + 1));
        k += 1;
    }
    assert(m@ =~= newlines_to_spaces(v@));
    let ghost s = m@;
    let mut out: Vec<Vec<char>> = Vec::new();
    let mut cur: Vec<char> = Vec::new();
    let mut i: usize = 0;
    assert(s.skip(0) == s);
    assert(views(out@) =~= Seq::<Seq<char>>::empty());
    while i < m.len()
        invariant
            i <= m.len(),
            s == m@,
            views(out@) + sentences_from(s.skip(i as int), cur@) == sentences(v@),
        decreases m.len() - i,
    {
        let ghost rest = s.skip(i as int);
        let ghost before = views(out@);
        assert(rest[0] == s[i as int]);
        assert(rest.drop_first() == s.skip(i + 1));
        let c = m[i];
        cur.push(c);
        if c == '.' || c == '!' || c == '?' {
            emit_into(&mut out, &cur);
            proof {
                assert(before + (emit(cur@) + sentences_from(rest.drop_first(), seq![])) =~= (
                before + emit(cur@)) + sentences_from(rest.drop_first(), seq![]));
            }
            cur = Vec::new();
            assert(cur@ =~= seq![]);
        }
        i += 1;
    }
    assert(s.skip(i as int).len() == 0);
    emit_into(&mut out, &cur);
    out
}

/// Splits a transcript into its sentences.
pub fn split_sentences(text: &str) -> (r: Vec<String>)
    ensures
        string_views(r@) == sentences(text@),
{
    let v = chars_of(text);
    let s = sentences_vec(&v);
    strings_of(&s)
}

/// The words in groups of `k`, each group joined by single spaces.
pub open spec fn chunks(ws: Seq<Seq<char>>, k: nat) -> Seq<Seq<char>>
    decreases ws.len(),
{
    if ws.len() == 0 || k == 0 {
        seq![]
    } else if ws.len() <= k {
        seq![join(ws, seq![' '])]
    } else {
        seq![join(ws.take(k as int), seq![' '])] + chunks(ws.skip(k as int), k)
    }
}

/// The words of a text in groups of at most `k` (at least one) words.
pub open spec fn word_chunks(s: Seq<char>, k: nat) -> Seq<Seq<char>> {
    chunks(
        words(s),
        if k == 0 {
            1
        } else {
            k
        },
    )
}

fn word_chunks_vec(v: &Vec<char>, chunk_size: usize) -> (r: Vec<Vec<char>>)
    ensures
        views(r@) == word_chunks(v@, chunk_size as nat),
{
    let k: usize = if chunk_size == 0 {
        1
    } else {
        chunk_size
    };
    let ws = words_vec(v);
    let ghost all = views(ws@);
    let mut sp: Vec<char> = Vec::new();
    sp.push(' ');
    assert(sp@ =~= seq![' ']);
    let mut out: Vec<Vec<char>> = Vec::new();
    let mut i: usize = 0;
    assert(all.skip(0) =~= all);
    assert(views(out@) =~= Seq::<Seq<char>>::empty());
    while i < ws.len()
        invariant
            i <= ws.len(),
            k >= 1,
            k as nat == (if chunk_size == 0 {
                1nat
            } else {
                chunk_size as nat
            }),
            all == views(ws@),
            sp@ == seq![' '],
            views(out@) + chunks(all.skip(i as int), k as nat) == chunks(all, k as nat),
        decreases ws.len() - i,
    {
        let ghost rest = all.skip(i as int);
        let end = if ws.len() - i <= k {
            ws.len()
        } else {
            i + k
        };
        let mut group: Vec<Vec<char>> = Vec::new();
        let mut q = i;
        while q < end
            invariant
                i <= q <= end <= ws.len(),
                all == views(ws@),
                views(group@) == all.subrange(i as int, q as int),
            decreases end - q,
        {
            let w = slice_all(&ws[q]);
            proof {
                assert(views(group@.push(w)) =~= views(group@).push(w@));
                assert(all[q as int] == ws@[q as int]@);
                assert(all.subrange(i as int, q + 1) =~= all.subrange(i as int, q as int).push(
                    all[q as int],
                ));
            }
            group.push(w);
            q += 1;
        }
        let joined = join_vec(&group, &sp);
        proof {
            if ws.len() - i <= k {
                assert(all.subrange(i as int, end as int) =~= rest);
            } else {
                assert(all.subrange(i as int, end as int) =~= rest.take(k as int));
                assert(rest.skip(k as int) =~= all.skip(end as int));
            }
            assert(views(out@.push(joined)) =~= views(out@) + seq![joined@]);
            assert(all.skip(end as int).len() == 0 ==> chunks(all.skip(end as int), k as nat)
                =~= Seq::<Seq<char>>::empty());
        }
        out.push(joined);
        i = end;
    }
    out
}

fn slice_all(v: &Vec<char>) -> (r: Vec<char>)
    ensures
        r@ == v@,
{
    let mut r: Vec<char> = Vec::new();
    append_vec(&mut r, v);
    r
}

/// Splits a text into groups of at most `chunk_size` words.
pub fn split_word_chunks(text: &str, chunk_size: usize) -> (r: Vec<String>)
    ensures
        string_views(r@) == word_chunks(text@, chunk_size as nat),
{
    let v = chars_of(text);
    let c = word_chunks_vec(&v, chunk_size);
    strings_of(&c)
}

/// The units a transcript is cut into around captures: its sentences when
/// it has at least two, otherwise groups of fourteen words.
pub open spec fn transcript_units(s: Seq<char>) -> Seq<Seq<char>> {
    if sentences(s).len() >= 2 {
        sentences(s)
    } else {
        word_chunks(s, 14)
    }
}

pub fn transcript_units_vec(v: &Vec<char>) -> (r: Vec<Vec<char>>)
    ensures
        views(r@) == transcript_units(v@),
{
    let s = sentences_vec(v);
    if s.len() >= 2 {
        s
    } else {
        word_chunks_vec(v, 14)
    }
}

/// A transcript of at least two sentences is cut exactly at its sentences,
/// so a capture can fall between any two of them; a transcript of fewer
/// sentences is cut into groups of fourteen words.
pub proof fn law_transcript_units_follow_sentences(s: Seq<char>)
    ensures
        sentences(s).len() >= 2 ==> transcript_units(s) == sentences(s),
        sentences(s).len() < 2 ==> transcript_units(s) == chunks(words(s), 14),
{
}

/// Splits a transcript into the units captures are placed between.
pub fn split_transcript_units(text: &str) -> (r: Vec<String>)
    ensures
        string_views(r@) == transcript_units(text@),
{
    let v = chars_of(text);
    let u = transcript_units_vec(&v);
    strings_of(&u)
}

/// Transcript units joined back into one paragraph: trimmed, blank ones
/// left out, separated by single spaces.
pub open spec fn join_units(us: Seq<Seq<char>>) -> Seq<char> {
    join(clean_pieces(us), seq![' '])
}

pub fn join_units_vec(us: &Vec<Vec<char>>) -> (r: Vec<char>)
    ensures
        r@ == join_units(views(us@)),
{
    let c = clean_pieces_vec(us);
    let mut sp: Vec<char> = Vec::new();
    sp.push(' ');
    assert(sp@ =~= seq![' ']);
    join_vec(&c, &sp)
}

/// Joins transcript units into one paragraph.
pub fn join_transcript_units(units: &Vec<String>) -> (r: String)
    ensures
        r@ == join_units(string_views(units@)),
{
    let v = vecs_of(units);
    let j = join_units_vec(&v);
    string_of(&j)
}

/// The markdown line that shows an image.
pub open spec fn image_line(path: Seq<char>) -> Seq<char> {
    "![]("@ + path + ")"@
}

/// The markdown blocks of one timeline entry: a capture is its image (the
/// annotated one when there is one) followed by its note, a text note and a
/// dictation are their paragraphs.
pub open spec fn entry_blocks(e: TimelineEntry) -> Seq<Seq<char>> {
    match e {
        TimelineEntry::Capture(item) => {
            let path = match item.annotated_image_path {
                Some(a) => a@,
                None => item.original_image_path@,
            };
            seq![image_line(path)] + match clean_opt(opt_view(item.bubble_note)) {
                Some(n) => seq![n],
                None => seq![],
            }
        },
        TimelineEntry::TextNote(item) => markdown_blocks(item.text@),
        TimelineEntry::Dictation(item) => markdown_blocks(preferred(item)),
    }
}

fn image_line_vec(path: &str) -> (r: Vec<char>)
    ensures
        r@ == image_line(path@),
{
    let mut out = chars_of("![](");
    let p = chars_of(path);
    append_vec(&mut out, &p);
    let close = chars_of(")");
    append_vec(&mut out, &close);
    out
}

pub fn entry_blocks_vec(e: &TimelineEntry) -> (r: Vec<Vec<char>>)
    ensures
        views(r@) == entry_blocks(*e),
{
    match e {
        TimelineEntry::Capture(item) => {
            let line = match &item.annotated_image_path {
                Some(a) => image_line_vec(a.as_str()),
                None => image_line_vec(item.original_image_path.as_str()),
            };
            let mut out: Vec<Vec<char>> = Vec::new();
            out.push(line);
            let note = clean_opt_string(&item.bubble_note);
            match note {
                Some(n) => {
                    out.push(n);
                },
                None => {},
            }
            proof {
                assert(views(out@) =~= entry_blocks(*e));
            }
            out
        },
        TimelineEntry::TextNote(item) => {
            let v = chars_of(item.text.as_str());
            markdown_blocks_vec(&v)
        },
        TimelineEntry::Dictation(item) => {
            let p = preferred_vec(item);
            markdown_blocks_vec(&p)
        },
    }
}

/// The markdown blocks of a timeline entry.
pub fn render_entry_blocks(entry: &TimelineEntry) -> (r: Vec<String>)
    ensures
        string_views(r@) == entry_blocks(*entry),
{
    let b = entry_blocks_vec(entry);
    strings_of(&b)
}

/// A correction that only says transcription failed never hides a real
/// transcript: when the transcript holds text that is not a placeholder,
/// the transcript shown is not a placeholder either.
pub proof fn law_placeholder_never_hides_transcript(d: DictationEntry)
    requires
        clean_opt(Some(d.transcript@)) matches Some(t) && !is_placeholder(t),
    ensures
        !is_placeholder(preferred(d)),
{
}

} // verus!
