//! The markdown document of a session. Its timeline is taken in order; a
//! dictation and the entries that follow it up to the next dictation form a
//! group, in which those entries are placed between the units of the
//! transcript. Where an entry goes is proportional to the time it was taken
//! within the dictation; that proportion is a floating-point computation
//! done outside this library, which hands in one proposed position per
//! entry (see `placement_requests`) and clamps it here.
use vstd::prelude::*;

use crate::external::{elapsed_millis, rfc3339_elapsed_millis};
use crate::markdown::{
    transcript_units_vec, entry_blocks, entry_blocks_vec, join_units, join_units_vec,
    markdown_blocks, markdown_blocks_vec, preferred, preferred_vec, transcript_units,
};
use crate::model::{entry_created_at, DictationEntry, Session, TimelineEntry};
use crate::text::{append_vec, chars_of, clean_pieces, clean_pieces_vec, join, join_vec, string_of, views};
use crate::timeline::{entry_before, entry_comes_before, lemma_insert_position, sort_timeline};

verus! {

/// What the proportional position of one entry within a dictation is
/// computed from: the milliseconds from the start of the dictation to the
/// entry, the length of the dictation in milliseconds (at least one), and the
/// number of transcript units.
#[derive(Clone, Copy, Debug, PartialEq, Eq, Structural)]
pub struct PlacementRequest {
    pub elapsed_millis: i64,
    pub total_millis: i64,
    pub unit_count: usize,
}

/// The entries of `es` in the order the positions of `order` give.
pub open spec fn pick(es: Seq<TimelineEntry>, order: Seq<usize>) -> Seq<TimelineEntry> {
    order.map_values(|i: usize| es[i as int])
}

/// The position of the first dictation at or after `i`, or the length of
/// the timeline when there is none.
pub open spec fn next_dictation(es: Seq<TimelineEntry>, i: int) -> int
    decreases es.len() - i,
{
    if i < 0 || i >= es.len() {
        es.len() as int
    } else if es[i] is Dictation {
        i
    } else {
        next_dictation(es, i + 1)
    }
}

/// When the dictation group that ends before position `j` ends: the time of
/// the next dictation, or the time the session was last updated.
pub open spec fn group_end(es: Seq<TimelineEntry>, j: int, updated_at: Seq<char>) -> Seq<char> {
    if 0 <= j < es.len() {
        entry_created_at(es[j])
    } else {
        updated_at
    }
}

/// The blocks of the entries, one entry after the other.
pub open spec fn flat_blocks(es: Seq<TimelineEntry>) -> Seq<Seq<char>>
    decreases es.len(),
{
    if es.len() == 0 {
        seq![]
    } else {
        flat_blocks(es.drop_last()) + entry_blocks(es.last())
    }
}

/// `x` brought into `[lo, hi]`.
pub open spec fn clamp(x: int, lo: int, hi: int) -> int {
    if x < lo {
        lo
    } else if x > hi {
        hi
    } else {
        x
    }
}

/// The units from `a` up to `b` as one paragraph, when there are any.
pub open spec fn unit_piece(us: Seq<Seq<char>>, a: int, b: int) -> Seq<Seq<char>> {
    if a < b {
        seq![join_units(us.subrange(a, b))]
    } else {
        seq![]
    }
}

/// The position, among the units, after which the entry `m` of a group is
/// placed: the proposed position for it when its time parses and one was
/// handed in, otherwise the position of the previous entry; always brought
/// between the previous position and the number of units.
pub open spec fn placed_at(
    us: Seq<Seq<char>>,
    ins: Seq<TimelineEntry>,
    m: int,
    last: int,
    start: Seq<char>,
    raws: Seq<usize>,
    base: int,
) -> int {
    let raw = if rfc3339_elapsed_millis(start, entry_created_at(ins[m])) is Some && 0 <= base + m
        < raws.len() {
        raws[base + m] as int
    } else {
        last
    };
    clamp(raw, last, us.len() as int)
}

/// The transcript units with the entries `ins[m..]` placed among them, the
/// units before `last` already written.
pub open spec fn interleave(
    us: Seq<Seq<char>>,
    ins: Seq<TimelineEntry>,
    m: int,
    last: int,
    start: Seq<char>,
    raws: Seq<usize>,
    base: int,
) -> Seq<Seq<char>>
    decreases ins.len() - m,
{
    if m < 0 || m >= ins.len() {
        unit_piece(us, last, us.len() as int)
    } else {
        let b = placed_at(us, ins, m, last, start, raws, base);
        unit_piece(us, last, b) + entry_blocks(ins[m]) + interleave(
            us,
            ins,
            m + 1,
            b,
            start,
            raws,
            base,
        )
    }
}

/// The blocks of a dictation followed by the entries `ins` up to the next
/// dictation, which ends at `end`; `base` is the timeline position of
/// `ins[0]`. Without a transcript the entries stand alone; without entries
/// the transcript is split into paragraphs; when the transcript yields no
/// units or the times do not parse, the transcript comes first, then the
/// entries; otherwise the entries are placed among the units.
pub open spec fn dictation_group(
    d: DictationEntry,
    ins: Seq<TimelineEntry>,
    end: Seq<char>,
    raws: Seq<usize>,
    base: int,
) -> Seq<Seq<char>> {
    let t = preferred(d);
    let us = transcript_units(t);
    if t.len() == 0 {
        flat_blocks(ins)
    } else if ins.len() == 0 {
        markdown_blocks(t)
    } else if us.len() == 0 || rfc3339_elapsed_millis(d.created_at@, end) is None {
        seq![t] + flat_blocks(ins)
    } else {
        interleave(us, ins, 0, 0, d.created_at@, raws, base)
    }
}

/// The blocks of the timeline `es` from position `i` on.
pub open spec fn render_from(
    es: Seq<TimelineEntry>,
    i: int,
    updated_at: Seq<char>,
    raws: Seq<usize>,
) -> Seq<Seq<char>>
    decreases es.len() - i,
{
    if i < 0 || i >= es.len() {
        seq![]
    } else {
        match es[i] {
            TimelineEntry::Dictation(d) => {
                let j = next_dictation(es, i + 1);
                if j <= i || j > es.len() {
                    seq![]
                } else {
                    dictation_group(d, es.subrange(i + 1, j), group_end(es, j, updated_at), raws, i + 1)
                        + render_from(es, j, updated_at, raws)
                }
            },
            _ => entry_blocks(es[i]) + render_from(es, i + 1, updated_at, raws),
        }
    }
}

/// A document of blocks: trimmed, blank ones left out, separated by blank
/// lines and ended by a line feed; empty when no block holds text.
pub open spec fn markdown_document(blocks: Seq<Seq<char>>) -> Seq<char> {
    let content = join(clean_pieces(blocks), seq!['\n', '\n']);
    if content.len() == 0 {
        seq![]
    } else {
        content.push('\n')
    }
}

/// The markdown document of a timeline, given the proposed positions.
pub open spec fn rendered(entries: Seq<TimelineEntry>, updated_at: Seq<char>, raws: Seq<usize>) -> Seq<char> {
    markdown_document(render_from(sort_timeline(entries), 0, updated_at, raws))
}

/// The placement requests of the entries of a dictation group.
pub open spec fn group_requests(d: DictationEntry, ins: Seq<TimelineEntry>, end: Seq<char>) -> Seq<
    Option<PlacementRequest>,
> {
    let t = preferred(d);
    let us = transcript_units(t);
    let total = rfc3339_elapsed_millis(d.created_at@, end);
    if t.len() > 0 && ins.len() > 0 && us.len() > 0 && total is Some {
        let total_millis: i64 = if total->0 >= 1 {
            total->0
        } else {
            1
        };
        Seq::new(
            ins.len(),
            |m: int|
                match rfc3339_elapsed_millis(d.created_at@, entry_created_at(ins[m])) {
                    Some(e) => Some(
                        PlacementRequest {
                            elapsed_millis: e,
                            total_millis: total_millis,
                            unit_count: us.len() as usize,
                        },
                    ),
                    None => None,
                },
        )
    } else {
        Seq::new(ins.len(), |m: int| None)
    }
}

/// The placement requests of the timeline `es` from position `i` on, one
/// per position: `Some` exactly for the entries placed among the units of a
/// transcript whose times parse.
pub open spec fn requests_from(es: Seq<TimelineEntry>, i: int, updated_at: Seq<char>) -> Seq<
    Option<PlacementRequest>,
>
    decreases es.len() - i,
{
    if i < 0 || i >= es.len() {
        seq![]
    } else {
        match es[i] {
            TimelineEntry::Dictation(d) => {
                let j = next_dictation(es, i + 1);
                if j <= i || j > es.len() {
                    seq![]
                } else {
                    seq![None] + group_requests(d, es.subrange(i + 1, j), group_end(es, j, updated_at))
                        + requests_from(es, j, updated_at)
                }
            },
            _ => seq![None] + requests_from(es, i + 1, updated_at),
        }
    }
}

proof fn lemma_next_dictation(es: Seq<TimelineEntry>, i: int)
    requires
        0 <= i <= es.len(),
    ensures
        i <= next_dictation(es, i) <= es.len(),
        next_dictation(es, i) < es.len() ==> es[next_dictation(es, i)] is Dictation,
        forall|k: int| i <= k < next_dictation(es, i) ==> !(#[trigger] es[k] is Dictation),
    decreases es.len() - i,
{
    if i < es.len() && !(es[i] is Dictation) {
        lemma_next_dictation(es, i + 1);
    }
}

/// The positions of the entries in timeline order.
pub fn sorted_order(entries: &Vec<TimelineEntry>) -> (order: Vec<usize>)
    ensures
        order.len() == entries.len(),
        forall|k: int| 0 <= k < order.len() ==> #[trigger] order@[k] < entries.len(),
        pick(entries@, order@) == sort_timeline(entries@),
{
    let mut order: Vec<usize> = Vec::new();
    let mut k: usize = 0;
    assert(entries@.take(0) =~= Seq::<TimelineEntry>::empty());
    assert(pick(entries@, order@) =~= Seq::<TimelineEntry>::empty());
    while k < entries.len()
        invariant
            k <= entries.len(),
            order.len() == k,
            forall|q: int| 0 <= q < order.len() ==> #[trigger] order@[q] < k,
            pick(entries@, order@) == sort_timeline(entries@.take(k as int)),
        decreases entries.len() - k,
    {
        let ghost s = pick(entries@, order@);
        let mut p = order.len();
        while p > 0 && entry_comes_before(&entries[k], &entries[order[p - 1]])
            invariant
                p <= order.len(),
                k < entries.len(),
                forall|q: int| 0 <= q < order.len() ==> #[trigger] order@[q] < k,
                s == pick(entries@, order@),
                forall|q: int| p <= q < order.len() ==> entry_before(entries@[k as int], #[trigger] s[q]),
            decreases p,
        {
            p -= 1;
        }
        proof {
            lemma_insert_position(s, entries@[k as int], p as int);
            let t = entries@.take(k + 1);
            assert(t.drop_last() =~= entries@.take(k as int));
            assert(t.last() == entries@[k as int]);
            assert(pick(entries@, order@.insert(p as int, k)) =~= s.insert(p as int, entries@[k as int]));
        }
        order.insert(p, k);
        k += 1;
    }
    assert(entries@.take(entries.len() as int) == entries@);
    order
}

fn append_blocks(out: &mut Vec<Vec<char>>, more: &Vec<Vec<char>>)
    ensures
        views(final(out)@) == views(old(out)@) + views(more@),
{
    let mut i: usize = 0;
    while i < more.len()
        invariant
            i <= more.len(),
            views(out@) == views(old(out)@) + views(more@).take(i as int),
        decreases more.len() - i,
    {
        let mut c: Vec<char> = Vec::new();
        append_vec(&mut c, &more[i]);
        proof {
            assert(views(out@.push(c)) =~= views(out@).push(c@));
            assert(views(more@).take(i + 1) =~= views(more@).take(i as int).push(more@[i as int]@));
        }
        out.push(c);
        i += 1;
    }
    assert(views(more@).take(more.len() as int) =~= views(more@));
}

fn flat_blocks_vec(entries: &Vec<TimelineEntry>, order: &Vec<usize>, lo: usize, hi: usize) -> (r: Vec<Vec<char>>)
    requires
        lo <= hi <= order.len(),
        forall|k: int| 0 <= k < order.len() ==> #[trigger] order@[k] < entries.len(),
    ensures
        views(r@) == flat_blocks(pick(entries@, order@).subrange(lo as int, hi as int)),
{
    let ghost es = pick(entries@, order@);
    let mut out: Vec<Vec<char>> = Vec::new();
    let mut q = lo;
    assert(es.subrange(lo as int, lo as int) =~= Seq::<TimelineEntry>::empty());
    assert(views(out@) =~= Seq::<Seq<char>>::empty());
    while q < hi
        invariant
            lo <= q <= hi <= order.len(),
            es == pick(entries@, order@),
            forall|k: int| 0 <= k < order.len() ==> #[trigger] order@[k] < entries.len(),
            views(out@) == flat_blocks(es.subrange(lo as int, q as int)),
        decreases hi - q,
    {
        let b = entry_blocks_vec(&entries[order[q]]);
        append_blocks(&mut out, &b);
        proof {
            let t = es.subrange(lo as int, q + 1);
            assert(t.drop_last() =~= es.subrange(lo as int, q as int));
            assert(t.last() == es[q as int]);
        }
        q += 1;
    }
    out
}

fn unit_piece_vec(us: &Vec<Vec<char>>, a: usize, b: usize) -> (r: Vec<Vec<char>>)
    requires
        a <= b <= us.len(),
    ensures
        views(r@) == unit_piece(views(us@), a as int, b as int),
{
    let mut out: Vec<Vec<char>> = Vec::new();
    if a < b {
        let mut part: Vec<Vec<char>> = Vec::new();
        let mut q = a;
        while q < b
            invariant
                a <= q <= b <= us.len(),
                views(part@) == views(us@).subrange(a as int, q as int),
            decreases b - q,
        {
            let mut c: Vec<char> = Vec::new();
            append_vec(&mut c, &us[q]);
            proof {
                assert(views(part@.push(c)) =~= views(part@).push(c@));
                assert(views(us@).subrange(a as int, q + 1) =~= views(us@).subrange(a as int, q as int).push(us@[q as int]@));
            }
            part.push(c);
            q += 1;
        }
        let j = join_units_vec(&part);
        out.push(j);
        assert(views(out@) =~= seq![j@]);
    } else {
        assert(views(out@) =~= Seq::<Seq<char>>::empty());
    }
    out
}

fn interleave_vec(
    us: &Vec<Vec<char>>,
    entries: &Vec<TimelineEntry>,
    order: &Vec<usize>,
    lo: usize,
    hi: usize,
    start: &str,
    raws: &Vec<usize>,
) -> (r: Vec<Vec<char>>)
    requires
        lo <= hi <= order.len(),
        forall|k: int| 0 <= k < order.len() ==> #[trigger] order@[k] < entries.len(),
    ensures
        views(r@) == interleave(
            views(us@),
            pick(entries@, order@).subrange(lo as int, hi as int),
            0,
            0,
            start@,
            raws@,
            lo as int,
        ),
{
    let ghost es = pick(entries@, order@);
    let ghost ins = es.subrange(lo as int, hi as int);
    let ghost u = views(us@);
    let mut out: Vec<Vec<char>> = Vec::new();
    let mut last: usize = 0;
    let mut m: usize = 0;
    assert(views(out@) =~= Seq::<Seq<char>>::empty());
    while m < hi - lo
        invariant
            lo <= hi <= order.len(),
            m <= hi - lo,
            last <= us.len(),
            es == pick(entries@, order@),
            ins == es.subrange(lo as int, hi as int),
            u == views(us@),
            forall|k: int| 0 <= k < order.len() ==> #[trigger] order@[k] < entries.len(),
            views(out@) + interleave(u, ins, m as int, last as int, start@, raws@, lo as int)
                == interleave(u, ins, 0, 0, start@, raws@, lo as int),
        decreases hi - lo - m,
    {
        let ghost before = views(out@);
        let entry = &entries[order[lo + m]];
        assert(ins[m as int] == *entry);
        let elapsed = elapsed_millis(start, entry.created_at());
        let raw: usize = match elapsed {
            Some(_) => if lo + m < raws.len() {
                raws[lo + m]
            } else {
                last
            },
            None => last,
        };
        let b: usize = if raw < last {
            last
        } else if raw > us.len() {
            us.len()
        } else {
            raw
        };
        assert(b as int == placed_at(u, ins, m as int, last as int, start@, raws@, lo as int));
        let piece = unit_piece_vec(us, last, b);
        append_blocks(&mut out, &piece);
        let eb = entry_blocks_vec(entry);
        append_blocks(&mut out, &eb);
        proof {
            let rest = interleave(u, ins, m + 1, b as int, start@, raws@, lo as int);
            assert(interleave(u, ins, m as int, last as int, start@, raws@, lo as int) == unit_piece(u, last as int, b as int) + entry_blocks(ins[m as int]) + rest);
            assert(before + (unit_piece(u, last as int, b as int) + entry_blocks(ins[m as int]) + rest) =~= before + unit_piece(u, last as int, b as int) + entry_blocks(ins[m as int]) + rest);
        }
        last = b;
        m += 1;
    }
    let tail = unit_piece_vec(us, last, us.len());
    append_blocks(&mut out, &tail);
    out
}

fn dictation_group_vec(
    d: &DictationEntry,
    entries: &Vec<TimelineEntry>,
    order: &Vec<usize>,
    lo: usize,
    hi: usize,
    end: &str,
    raws: &Vec<usize>,
) -> (r: Vec<Vec<char>>)
    requires
        lo <= hi <= order.len(),
        forall|k: int| 0 <= k < order.len() ==> #[trigger] order@[k] < entries.len(),
    ensures
        views(r@) == dictation_group(
            *d,
            pick(entries@, order@).subrange(lo as int, hi as int),
            end@,
            raws@,
            lo as int,
        ),
{
    let t = preferred_vec(d);
    if t.len() == 0 {
        return flat_blocks_vec(entries, order, lo, hi);
    }
    if lo == hi {
        return markdown_blocks_vec(&t);
    }
    let us = transcript_units_vec(&t);
    let total = elapsed_millis(d.created_at.as_str(), end);
    if us.len() == 0 || total.is_none() {
        let mut out: Vec<Vec<char>> = Vec::new();
        out.push(t);
        let f = flat_blocks_vec(entries, order, lo, hi);
        append_blocks(&mut out, &f);
        return out;
    }
    interleave_vec(&us, entries, order, lo, hi, d.created_at.as_str(), raws)
}

fn is_dictation(e: &TimelineEntry) -> (r: bool)
    ensures
        r == (*e is Dictation),
{
    match e {
        TimelineEntry::Dictation(_) => true,
        _ => false,
    }
}

fn next_dictation_exec(entries: &Vec<TimelineEntry>, order: &Vec<usize>, from: usize) -> (j: usize)
    requires
        from <= order.len(),
        forall|k: int| 0 <= k < order.len() ==> #[trigger] order@[k] < entries.len(),
    ensures
        j == next_dictation(pick(entries@, order@), from as int),
        from <= j <= order.len(),
{
    let ghost es = pick(entries@, order@);
    proof {
        lemma_next_dictation(es, from as int);
    }
    let mut j = from;
    while j < order.len() && !is_dictation(&entries[order[j]])
        invariant
            from <= j <= order.len(),
            es == pick(entries@, order@),
            forall|k: int| 0 <= k < order.len() ==> #[trigger] order@[k] < entries.len(),
            forall|k: int| from <= k < j ==> !(#[trigger] es[k] is Dictation),
            from <= next_dictation(es, from as int) <= es.len(),
            next_dictation(es, from as int) < es.len() ==> es[next_dictation(es, from as int)] is Dictation,
            forall|k: int| from <= k < next_dictation(es, from as int) ==> !(#[trigger] es[k] is Dictation),
        decreases order.len() - j,
    {
        assert(es[j as int] == entries@[order@[j as int] as int]);
        j += 1;
    }
    proof {
        if j < order.len() {
            assert(es[j as int] == entries@[order@[j as int] as int]);
        }
    }
    j
}

/// The blocks of the timeline in the order `order`, from position `i` on.
fn render_blocks(
    entries: &Vec<TimelineEntry>,
    order: &Vec<usize>,
    updated_at: &str,
    raws: &Vec<usize>,
) -> (r: Vec<Vec<char>>)
    requires
        forall|k: int| 0 <= k < order.len() ==> #[trigger] order@[k] < entries.len(),
    ensures
        views(r@) == render_from(pick(entries@, order@), 0, updated_at@, raws@),
{
    let ghost es = pick(entries@, order@);
    let mut out: Vec<Vec<char>> = Vec::new();
    let mut i: usize = 0;
    assert(views(out@) =~= Seq::<Seq<char>>::empty());
    while i < order.len()
        invariant
            i <= order.len(),
            es == pick(entries@, order@),
            forall|k: int| 0 <= k < order.len() ==> #[trigger] order@[k] < entries.len(),
            views(out@) + render_from(es, i as int, updated_at@, raws@) == render_from(es, 0, updated_at@, raws@),
        decreases order.len() - i,
    {
        let ghost before = views(out@);
        let entry = &entries[order[i]];
        assert(es[i as int] == *entry);
        match entry {
            TimelineEntry::Dictation(d) => {
                let j = next_dictation_exec(entries, order, i + 1);
                let end: &str = if j < order.len() {
                    entries[order[j]].created_at()
                } else {
                    updated_at
                };
                proof {
                    if j < order.len() {
                        assert(es[j as int] == entries@[order@[j as int] as int]);
                    }
                    assert(end@ == group_end(es, j as int, updated_at@));
                }
                let g = dictation_group_vec(d, entries, order, i + 1, j, end, raws);
                append_blocks(&mut out, &g);
                proof {
                    let rest = render_from(es, j as int, updated_at@, raws@);
                    assert(before + (views(g@) + rest) =~= before + views(g@) + rest);
                }
                i = j;
            },
            _ => {
                let b = entry_blocks_vec(entry);
                append_blocks(&mut out, &b);
                proof {
                    let rest = render_from(es, i + 1, updated_at@, raws@);
                    assert(before + (views(b@) + rest) =~= before + views(b@) + rest);
                }
                i += 1;
            },
        }
    }
    out
}

/// The markdown document of a session, given for each timeline position the
/// proposed position of that entry among the transcript units (used only
/// where `placement_requests` asks for one).
pub fn render_markdown(session: &Session, raw_boundaries: &Vec<usize>) -> (r: String)
    ensures
        r@ == rendered(session.entries@, session.updated_at@, raw_boundaries@),
{
    let order = sorted_order(&session.entries);
    let blocks = render_blocks(&session.entries, &order, session.updated_at.as_str(), raw_boundaries);
    let cleaned = clean_pieces_vec(&blocks);
    let mut sep: Vec<char> = Vec::new();
    sep.push('\n');
    sep.push('\n');
    assert(sep@ =~= seq!['\n', '\n']);
    let mut content = join_vec(&cleaned, &sep);
    if content.len() == 0 {
        String::new()
    } else {
        content.push('\n');
        string_of(&content)
    }
}

fn group_requests_vec(
    d: &DictationEntry,
    entries: &Vec<TimelineEntry>,
    order: &Vec<usize>,
    lo: usize,
    hi: usize,
    end: &str,
) -> (r: Vec<Option<PlacementRequest>>)
    requires
        lo <= hi <= order.len(),
        forall|k: int| 0 <= k < order.len() ==> #[trigger] order@[k] < entries.len(),
    ensures
        r@ == group_requests(*d, pick(entries@, order@).subrange(lo as int, hi as int), end@),
{
    let ghost es = pick(entries@, order@);
    let ghost ins = es.subrange(lo as int, hi as int);
    let t = preferred_vec(d);
    let us = transcript_units_vec(&t);
    let total = elapsed_millis(d.created_at.as_str(), end);
    let mut out: Vec<Option<PlacementRequest>> = Vec::new();
    let mut m: usize = 0;
    if t.len() > 0 && lo < hi && us.len() > 0 && total.is_some() {
        let tv = total.unwrap();
        let total_millis: i64 = if tv >= 1 {
            tv
        } else {
            1
        };
        while m < hi - lo
            invariant
                lo <= hi <= order.len(),
                m <= hi - lo,
                es == pick(entries@, order@),
                ins == es.subrange(lo as int, hi as int),
                forall|k: int| 0 <= k < order.len() ==> #[trigger] order@[k] < entries.len(),
                out@ == group_requests(*d, ins, end@).take(m as int),
                group_requests(*d, ins, end@).len() == ins.len(),
                t@ == preferred(*d),
                views(us@) == transcript_units(t@),
                us.len() > 0,
                t.len() > 0,
                hi > lo,
                total == rfc3339_elapsed_millis(d.created_at@, end@),
                total == Some(tv),
                total_millis == (if tv >= 1 {
                    tv
                } else {
                    1
                }),
            decreases hi - lo - m,
        {
            let entry = &entries[order[lo + m]];
            assert(ins[m as int] == *entry);
            let req = match elapsed_millis(d.created_at.as_str(), entry.created_at()) {
                Some(e) => Some(
                    PlacementRequest {
                        elapsed_millis: e,
                        total_millis: total_millis,
                        unit_count: us.len(),
                    },
                ),
                None => None,
            };
            proof {
                assert(group_requests(*d, ins, end@).take(m + 1) =~= group_requests(*d, ins, end@).take(m as int).push(req));
            }
            out.push(req);
            m += 1;
        }
        assert(group_requests(*d, ins, end@).take((hi - lo) as int) =~= group_requests(*d, ins, end@));
    } else {
        while m < hi - lo
            invariant
                lo <= hi,
                m <= hi - lo,
                out@ == group_requests(*d, ins, end@).take(m as int),
                group_requests(*d, ins, end@) == Seq::new(ins.len(), |k: int| None::<PlacementRequest>),
                ins.len() == hi - lo,
            decreases hi - lo - m,
        {
            proof {
                assert(group_requests(*d, ins, end@).take(m + 1) =~= group_requests(*d, ins, end@).take(m as int).push(None));
            }
            out.push(None);
            m += 1;
        }
        assert(group_requests(*d, ins, end@).take((hi - lo) as int) =~= group_requests(*d, ins, end@));
    }
    out
}

/// For each position of the timeline in order, what the proportional
/// position of that entry among the transcript units is computed from, for
/// the entries that are placed that way; `None` for the others.
pub fn placement_requests(session: &Session) -> (r: Vec<Option<PlacementRequest>>)
    ensures
        r@ == requests_from(sort_timeline(session.entries@), 0, session.updated_at@),
{
    let order = sorted_order(&session.entries);
    let entries = &session.entries;
    let updated_at = session.updated_at.as_str();
    let ghost es = pick(entries@, order@);
    let mut out: Vec<Option<PlacementRequest>> = Vec::new();
    let mut i: usize = 0;
    while i < order.len()
        invariant
            i <= order.len(),
            es == pick(entries@, order@),
            forall|k: int| 0 <= k < order.len() ==> #[trigger] order@[k] < entries.len(),
            out@ + requests_from(es, i as int, updated_at@) == requests_from(es, 0, updated_at@),
        decreases order.len() - i,
    {
        let ghost before = out@;
        let entry = &entries[order[i]];
        assert(es[i as int] == *entry);
        match entry {
            TimelineEntry::Dictation(d) => {
                let j = next_dictation_exec(entries, &order, i + 1);
                let end: &str = if j < order.len() {
                    entries[order[j]].created_at()
                } else {
                    updated_at
                };
                proof {
                    if j < order.len() {
                        assert(es[j as int] == entries@[order@[j as int] as int]);
                    }
                    assert(end@ == group_end(es, j as int, updated_at@));
                }
                let g = group_requests_vec(d, entries, &order, i + 1, j, end);
                out.push(None);
                let mut q: usize = 0;
                let ghost mid = out@;
                while q < g.len()
                    invariant
                        q <= g.len(),
                        out@ == mid + g@.take(q as int),
                    decreases g.len() - q,
                {
                    out.push(g[q]);
                    assert(g@.take(q + 1) =~= g@.take(q as int).push(g@[q as int]));
                    q += 1;
                }
                proof {
                    assert(g@.take(g.len() as int) =~= g@);
                    let rest = requests_from(es, j as int, updated_at@);
                    assert(before + (seq![None] + g@ + rest) =~= before.push(None) + g@ + rest);
                }
                i = j;
            },
            _ => {
                proof {
                    let rest = requests_from(es, i + 1, updated_at@);
                    assert(before + (seq![None] + rest) =~= before.push(None) + rest);
                }
                out.push(None);
                i += 1;
            },
        }
    }
    assert(out@ + requests_from(es, i as int, updated_at@) =~= out@);
    out
}

proof fn lemma_flat_blocks_append(a: Seq<TimelineEntry>, b: Seq<TimelineEntry>)
    ensures
        flat_blocks(a + b) == flat_blocks(a) + flat_blocks(b),
    decreases b.len(),
{
    if b.len() == 0 {
        assert(a + b == a);
        assert(flat_blocks(a) + flat_blocks(b) =~= flat_blocks(a));
    } else {
        lemma_flat_blocks_append(a, b.drop_last());
        assert((a + b).drop_last() == a + b.drop_last());
        assert((a + b).last() == b.last());
        assert(flat_blocks(a) + flat_blocks(b.drop_last()) + entry_blocks(b.last()) =~= flat_blocks(a) + (flat_blocks(b.drop_last()) + entry_blocks(b.last())));
    }
}

proof fn lemma_render_without_dictation(es: Seq<TimelineEntry>, i: int, up: Seq<char>, raws: Seq<usize>)
    requires
        0 <= i <= es.len(),
        forall|k: int| 0 <= k < es.len() ==> !(#[trigger] es[k] is Dictation),
    ensures
        render_from(es, i, up, raws) == flat_blocks(es.subrange(i, es.len() as int)),
    decreases es.len() - i,
{
    if i < es.len() {
        lemma_render_without_dictation(es, i + 1, up, raws);
        assert(es.subrange(i, es.len() as int) =~= seq![es[i]] + es.subrange(i + 1, es.len() as int));
        lemma_flat_blocks_append(seq![es[i]], es.subrange(i + 1, es.len() as int));
        let one = seq![es[i]];
        assert(one.drop_last() =~= Seq::<TimelineEntry>::empty());
        assert(flat_blocks(one.drop_last()) == Seq::<Seq<char>>::empty());
        assert(one.last() == es[i]);
        assert(flat_blocks(one) == flat_blocks(one.drop_last()) + entry_blocks(one.last()));
        assert(flat_blocks(one) =~= entry_blocks(es[i]));
    } else {
        assert(es.subrange(i, es.len() as int) =~= Seq::<TimelineEntry>::empty());
    }
}

/// A session without dictations (capture notes) is exported as the blocks of
/// its entries one after the other, in timeline order, whatever positions
/// are handed in.
pub proof fn law_capture_notes_render_in_timeline_order(
    entries: Seq<TimelineEntry>,
    updated_at: Seq<char>,
    raws: Seq<usize>,
)
    requires
        forall|k: int| 0 <= k < entries.len() ==> !(#[trigger] entries[k] is Dictation),
    ensures
        rendered(entries, updated_at, raws) == markdown_document(flat_blocks(sort_timeline(entries))),
{
    broadcast use vstd::seq_lib::group_to_multiset_ensures;

    let es = sort_timeline(entries);
    crate::timeline::law_sort_timeline_orders_and_keeps(entries);
    assert forall|k: int| 0 <= k < es.len() implies !(#[trigger] es[k] is Dictation) by {
        assert(es.contains(es[k]));
        assert(es.to_multiset().count(es[k]) > 0);
        assert(entries.contains(es[k]));
    }
    lemma_render_without_dictation(es, 0, updated_at, raws);
    assert(es.subrange(0, es.len() as int) == es);
}

/// The markdown document does not depend on the order the entries are
/// stored in: two sessions updated at the same time whose timelines hold
/// the same entries, no two different ones sharing both time and
/// identifier, get the same document from `render_markdown` (whose result
/// is `rendered` of the session's entries) and the same requests from
/// `placement_requests`, so the positions computed from those requests are
/// the same too.
pub proof fn law_render_ignores_stored_order(
    a: Seq<TimelineEntry>,
    b: Seq<TimelineEntry>,
    updated_at: Seq<char>,
    raws: Seq<usize>,
)
    requires
        a.to_multiset() == b.to_multiset(),
        crate::timeline::places_distinct(a),
    ensures
        rendered(a, updated_at, raws) == rendered(b, updated_at, raws),
        requests_from(sort_timeline(a), 0, updated_at) == requests_from(sort_timeline(b), 0, updated_at),
{
    crate::timeline::law_sort_timeline_ignores_stored_order(a, b);
}

/// The positions among the units at which the entries `ins[m..]` of a
/// dictation group are placed, the previous one at `last`.
pub open spec fn placements(
    us: Seq<Seq<char>>,
    ins: Seq<TimelineEntry>,
    m: int,
    last: int,
    start: Seq<char>,
    raws: Seq<usize>,
    base: int,
) -> Seq<int>
    decreases ins.len() - m,
{
    if m < 0 || m >= ins.len() {
        seq![]
    } else {
        let b = placed_at(us, ins, m, last, start, raws, base);
        seq![b] + placements(us, ins, m + 1, b, start, raws, base)
    }
}

/// Whatever positions are handed in, the entries of a dictation group are
/// placed in their timeline order at positions that never go back and never
/// pass the end of the transcript: no transcript unit and no entry changes
/// order.
pub proof fn law_placements_are_monotone(
    us: Seq<Seq<char>>,
    ins: Seq<TimelineEntry>,
    m: int,
    last: int,
    start: Seq<char>,
    raws: Seq<usize>,
    base: int,
)
    requires
        0 <= last <= us.len(),
        0 <= m,
    ensures
        forall|k: int|
            0 <= k < placements(us, ins, m, last, start, raws, base).len() ==> last <= #[trigger] placements(
                us,
                ins,
                m,
                last,
                start,
                raws,
                base,
            )[k] <= us.len(),
        forall|i: int, j: int|
            0 <= i <= j < placements(us, ins, m, last, start, raws, base).len() ==> #[trigger] placements(
                us,
                ins,
                m,
                last,
                start,
                raws,
                base,
            )[i] <= #[trigger] placements(us, ins, m, last, start, raws, base)[j],
    decreases ins.len() - m,
{
    let p = placements(us, ins, m, last, start, raws, base);
    if m < ins.len() {
        let b = placed_at(us, ins, m, last, start, raws, base);
        let rest = placements(us, ins, m + 1, b, start, raws, base);
        law_placements_are_monotone(us, ins, m + 1, b, start, raws, base);
        assert(p == seq![b] + rest);
        assert forall|k: int| 0 <= k < p.len() implies last <= #[trigger] p[k] <= us.len() by {
            if k > 0 {
                assert(p[k] == rest[k - 1]);
            }
        }
        assert forall|i: int, j: int| 0 <= i <= j < p.len() implies #[trigger] p[i] <= #[trigger] p[j] by {
            if i > 0 {
                assert(p[i] == rest[i - 1]);
                assert(p[j] == rest[j - 1]);
            } else if j > 0 {
                assert(p[j] == rest[j - 1]);
            }
        }
    }
}

/// The requests from position `i0` on: one per position, and from any
/// dictation at or after `i0` on they are those of that dictation.
proof fn lemma_requests_positions(es: Seq<TimelineEntry>, i0: int, i: int, u: Seq<char>)
    requires
        0 <= i0 <= es.len(),
    ensures
        requests_from(es, i0, u).len() == es.len() - i0,
        i0 <= i < es.len() && es[i] is Dictation ==> requests_from(es, i0, u).skip(i - i0) == requests_from(
            es,
            i,
            u,
        ),
    decreases es.len() - i0,
{
    if i0 < es.len() {
        match es[i0] {
            TimelineEntry::Dictation(d) => {
                let j = next_dictation(es, i0 + 1);
                lemma_next_dictation(es, i0 + 1);
                lemma_requests_positions(es, j, i, u);
                let g = group_requests(d, es.subrange(i0 + 1, j), group_end(es, j, u));
                assert(g.len() == j - i0 - 1);
                let rf = requests_from(es, i0, u);
                assert(rf == seq![None] + g + requests_from(es, j, u));
                if i0 < i < es.len() && es[i] is Dictation {
                    if i < j {
                        assert(!(es[i] is Dictation));
                    }
                    assert(rf.skip(i - i0) =~= requests_from(es, j, u).skip(i - j));
                }
                if i == i0 {
                    assert(rf.skip(0) =~= rf);
                }
            },
            _ => {
                lemma_requests_positions(es, i0 + 1, i, u);
                let rf = requests_from(es, i0, u);
                if i0 < i < es.len() && es[i] is Dictation {
                    assert(rf.skip(i - i0) =~= requests_from(es, i0 + 1, u).skip(i - i0 - 1));
                }
            },
        }
    }
}

/// Each entry that follows a dictation, up to the next dictation, is placed
/// in proportion to the span of that dictation: the span runs from the
/// dictation's time to the time of the next dictation, or to the session's
/// last update for the last dictation, and is at least one millisecond.
/// The entry's request holds the milliseconds from the dictation to the
/// entry and the number of units of the transcript shown; there is a
/// request exactly when that transcript has text and units and both times
/// parse. (`placement_requests` returns `requests_from` of the sorted
/// timeline.)
pub proof fn law_placement_requests_measure_each_dictation(
    es: Seq<TimelineEntry>,
    updated_at: Seq<char>,
    i: int,
    k: int,
    j: int,
)
    requires
        0 <= i < k < j <= es.len(),
        es[i] is Dictation,
        j < es.len() ==> es[j] is Dictation,
        forall|m: int| i < m < j ==> !(#[trigger] es[m] is Dictation),
    ensures
        requests_from(es, 0, updated_at).len() == es.len(),
        ({
            let d = es[i]->Dictation_0;
            let end = if j < es.len() {
                entry_created_at(es[j])
            } else {
                updated_at
            };
            let t = preferred(d);
            let n = transcript_units(t).len();
            match requests_from(es, 0, updated_at)[k] {
                Some(q) => t.len() > 0 && n > 0 && (rfc3339_elapsed_millis(d.created_at@, end) matches Some(
                    total,
                ) && q.total_millis == (if total >= 1 {
                    total
                } else {
                    1
                })) && rfc3339_elapsed_millis(d.created_at@, entry_created_at(es[k])) == Some(
                    q.elapsed_millis,
                ) && q.unit_count == n as usize,
                None => t.len() == 0 || n == 0 || rfc3339_elapsed_millis(d.created_at@, end) is None
                    || rfc3339_elapsed_millis(d.created_at@, entry_created_at(es[k])) is None,
            }
        }),
{
    lemma_requests_positions(es, 0, i, updated_at);
    lemma_next_dictation(es, i + 1);
    let nd = next_dictation(es, i + 1);
    if nd < j {
        assert(!(es[nd] is Dictation));
    }
    if nd > j {
        assert(!(es[j] is Dictation));
    }
    assert(nd == j);
    let d = es[i]->Dictation_0;
    let ins = es.subrange(i + 1, j);
    let g = group_requests(d, ins, group_end(es, j, updated_at));
    let rf = requests_from(es, i, updated_at);
    assert(rf == seq![None] + g + requests_from(es, j, updated_at));
    assert(requests_from(es, 0, updated_at).skip(i)[k - i] == requests_from(es, 0, updated_at)[k]);
    assert(rf[k - i] == g[k - i - 1]);
    assert(requests_from(es, 0, updated_at)[k] == g[k - i - 1]);
    let m = k - i - 1;
    assert(ins[m] == es[k]);
    let end = if j < es.len() {
        entry_created_at(es[j])
    } else {
        updated_at
    };
    assert(group_end(es, j, updated_at) == end);
    let t = preferred(d);
    let total = rfc3339_elapsed_millis(d.created_at@, end);
    if t.len() > 0 && ins.len() > 0 && transcript_units(t).len() > 0 && total is Some {
        let total_millis: i64 = if total->0 >= 1 {
            total->0
        } else {
            1
        };
        assert(g[m] == match rfc3339_elapsed_millis(d.created_at@, entry_created_at(ins[m])) {
            Some(e) => Some(
                PlacementRequest {
                    elapsed_millis: e,
                    total_millis: total_millis,
                    unit_count: transcript_units(t).len() as usize,
                },
            ),
            None => None,
        });
    } else {
        assert(g[m] is None);
    }
}

/// `part` occurs in `big` as a run of consecutive blocks.
pub open spec fn holds_blocks(big: Seq<Seq<char>>, part: Seq<Seq<char>>) -> bool {
    exists|p: int| 0 <= p && p + part.len() <= big.len() && #[trigger] big.subrange(p, p + part.len()) == part
}

proof fn lemma_holds_middle(a: Seq<Seq<char>>, b: Seq<Seq<char>>, c: Seq<Seq<char>>)
    ensures
        holds_blocks(a + b + c, b),
{
    let big = a + b + c;
    assert(big.subrange(a.len() as int, (a.len() + b.len()) as int) =~= b);
}

proof fn lemma_holds_after(a: Seq<Seq<char>>, big: Seq<Seq<char>>, part: Seq<Seq<char>>)
    requires
        holds_blocks(big, part),
    ensures
        holds_blocks(a + big, part),
{
    let p = choose|p: int| 0 <= p && p + part.len() <= big.len() && #[trigger] big.subrange(p, p + part.len()) == part;
    assert((a + big).subrange(a.len() + p, a.len() + p + part.len()) =~= big.subrange(p, p + part.len()));
}

proof fn lemma_holds_before(big: Seq<Seq<char>>, c: Seq<Seq<char>>, part: Seq<Seq<char>>)
    requires
        holds_blocks(big, part),
    ensures
        holds_blocks(big + c, part),
{
    let p = choose|p: int| 0 <= p && p + part.len() <= big.len() && #[trigger] big.subrange(p, p + part.len()) == part;
    assert((big + c).subrange(p, p + part.len()) =~= big.subrange(p, p + part.len()));
}

proof fn lemma_interleave_holds(
    us: Seq<Seq<char>>,
    ins: Seq<TimelineEntry>,
    m: int,
    last: int,
    start: Seq<char>,
    raws: Seq<usize>,
    base: int,
    q: int,
)
    requires
        0 <= m <= q < ins.len(),
    ensures
        holds_blocks(interleave(us, ins, m, last, start, raws, base), entry_blocks(ins[q])),
    decreases ins.len() - m,
{
    let b = placed_at(us, ins, m, last, start, raws, base);
    if q == m {
        lemma_holds_middle(unit_piece(us, last, b), entry_blocks(ins[m]), interleave(us, ins, m + 1, b, start, raws, base));
    } else {
        lemma_interleave_holds(us, ins, m + 1, b, start, raws, base, q);
        lemma_holds_after(unit_piece(us, last, b) + entry_blocks(ins[m]), interleave(us, ins, m + 1, b, start, raws, base), entry_blocks(ins[q]));
    }
}

proof fn lemma_flat_holds(es: Seq<TimelineEntry>, q: int)
    requires
        0 <= q < es.len(),
    ensures
        holds_blocks(flat_blocks(es), entry_blocks(es[q])),
    decreases es.len(),
{
    let a = flat_blocks(es.drop_last());
    let b = entry_blocks(es.last());
    assert(flat_blocks(es) == a + b);
    if q == es.len() - 1 {
        lemma_holds_middle(a, b, seq![]);
        assert(a + b + seq![] =~= a + b);
    } else {
        lemma_flat_holds(es.drop_last(), q);
        assert(es.drop_last()[q] == es[q]);
        lemma_holds_before(a, b, entry_blocks(es[q]));
    }
}

proof fn lemma_group_holds(d: DictationEntry, ins: Seq<TimelineEntry>, end: Seq<char>, raws: Seq<usize>, base: int, q: int)
    requires
        0 <= q < ins.len(),
    ensures
        holds_blocks(dictation_group(d, ins, end, raws, base), entry_blocks(ins[q])),
{
    let t = preferred(d);
    let us = transcript_units(t);
    if t.len() == 0 {
        lemma_flat_holds(ins, q);
    } else if us.len() == 0 || rfc3339_elapsed_millis(d.created_at@, end) is None {
        lemma_flat_holds(ins, q);
        lemma_holds_after(seq![t], flat_blocks(ins), entry_blocks(ins[q]));
    } else {
        lemma_interleave_holds(us, ins, 0, 0, d.created_at@, raws, base, q);
    }
}

proof fn lemma_render_holds(es: Seq<TimelineEntry>, i: int, u: Seq<char>, raws: Seq<usize>, k: int)
    requires
        0 <= i <= k < es.len(),
        !(es[k] is Dictation),
    ensures
        holds_blocks(render_from(es, i, u, raws), entry_blocks(es[k])),
    decreases es.len() - i,
{
    match es[i] {
        TimelineEntry::Dictation(d) => {
            let j = next_dictation(es, i + 1);
            lemma_next_dictation(es, i + 1);
            let g = dictation_group(d, es.subrange(i + 1, j), group_end(es, j, u), raws, i + 1);
            assert(render_from(es, i, u, raws) == g + render_from(es, j, u, raws));
            if k < j {
                assert(es.subrange(i + 1, j)[k - i - 1] == es[k]);
                lemma_group_holds(d, es.subrange(i + 1, j), group_end(es, j, u), raws, i + 1, k - i - 1);
                lemma_holds_before(g, render_from(es, j, u, raws), entry_blocks(es[k]));
            } else {
                lemma_render_holds(es, j, u, raws, k);
                lemma_holds_after(g, render_from(es, j, u, raws), entry_blocks(es[k]));
            }
        },
        _ => {
            let e = entry_blocks(es[i]);
            assert(render_from(es, i, u, raws) == e + render_from(es, i + 1, u, raws));
            if k == i {
                lemma_holds_middle(seq![], e, render_from(es, i + 1, u, raws));
                assert(seq![] + e + render_from(es, i + 1, u, raws) =~= e + render_from(es, i + 1, u, raws));
            } else {
                lemma_render_holds(es, i + 1, u, raws, k);
                lemma_holds_after(e, render_from(es, i + 1, u, raws), entry_blocks(es[k]));
            }
        },
    }
}

/// Nothing taken during a session is lost from its export: the blocks of
/// every entry that is not a dictation (a capture's image and note, a text
/// note's paragraphs) occur, one after the other, among the blocks of the
/// document, whatever the dictations around it hold and whatever positions
/// are handed in; in particular the image line of every capture is one of
/// the document's blocks. (`render_markdown` renders the sorted timeline.)
pub proof fn law_every_entry_is_exported(es: Seq<TimelineEntry>, updated_at: Seq<char>, raws: Seq<usize>, k: int)
    requires
        0 <= k < es.len(),
        !(es[k] is Dictation),
    ensures
        holds_blocks(render_from(es, 0, updated_at, raws), entry_blocks(es[k])),
        es[k] matches TimelineEntry::Capture(c) ==> exists|p: int|
            0 <= p < render_from(es, 0, updated_at, raws).len() && #[trigger] render_from(es, 0, updated_at, raws)[p]
                == "![]("@ + (match c.annotated_image_path {
                Some(a) => a@,
                None => c.original_image_path@,
            }) + ")"@,
{
    lemma_render_holds(es, 0, updated_at, raws, k);
    let big = render_from(es, 0, updated_at, raws);
    let part = entry_blocks(es[k]);
    let p = choose|p: int| 0 <= p && p + part.len() <= big.len() && #[trigger] big.subrange(p, p + part.len()) == part;
    if es[k] is Capture {
        assert(big.subrange(p, p + part.len())[0] == part[0]);
        assert(big[p] == part[0]);
    }
}

} // verus!
