//! The order of a session's timeline and the operations that look up,
//! replace and add its entries.
use vstd::prelude::*;

use crate::model::{
    entry_created_at, entry_id, CaptureEntry, DictationEntry, Session, TimelineEntry,
};
use crate::text::{compare_str, lemma_seq_lt_irreflexive, lemma_seq_lt_total, lemma_seq_lt_transitive, seq_lt};

verus! {

broadcast use vstd::seq_lib::group_to_multiset_ensures;

/// `a` comes strictly before `b` in the timeline: it was created earlier,
/// or at the same time with a smaller identifier.
pub open spec fn entry_before(a: TimelineEntry, b: TimelineEntry) -> bool {
    ||| seq_lt(entry_created_at(a), entry_created_at(b))
    ||| (entry_created_at(a) == entry_created_at(b) && seq_lt(entry_id(a), entry_id(b)))
}

/// `s` is in timeline order: no entry comes before an earlier one.
pub open spec fn timeline_sorted(s: Seq<TimelineEntry>) -> bool {
    forall|i: int, j: int| 0 <= i < j < s.len() ==> !entry_before(#[trigger] s[j], #[trigger] s[i])
}

/// `e` placed into `s` after every entry that it does not come before.
pub open spec fn insert_in_order(s: Seq<TimelineEntry>, e: TimelineEntry) -> Seq<TimelineEntry>
    decreases s.len(),
{
    if s.len() == 0 {
        seq![e]
    } else if entry_before(e, s.last()) {
        insert_in_order(s.drop_last(), e).push(s.last())
    } else {
        s.push(e)
    }
}

/// `s` in timeline order, entries with equal time and identifier keeping
/// their relative order (the stable `sort_by` on creation time, then id).
pub open spec fn sort_timeline(s: Seq<TimelineEntry>) -> Seq<TimelineEntry>
    decreases s.len(),
{
    if s.len() == 0 {
        s
    } else {
        insert_in_order(sort_timeline(s.drop_last()), s.last())
    }
}

proof fn lemma_before_irreflexive(a: TimelineEntry)
    ensures
        !entry_before(a, a),
{
    lemma_seq_lt_irreflexive(entry_created_at(a));
    lemma_seq_lt_irreflexive(entry_id(a));
}

/// Not coming before is transitive.
proof fn lemma_not_before_transitive(a: TimelineEntry, b: TimelineEntry, c: TimelineEntry)
    requires
        !entry_before(a, b),
        !entry_before(b, c),
    ensures
        !entry_before(a, c),
{
    let (ca, cb, cc) = (entry_created_at(a), entry_created_at(b), entry_created_at(c));
    lemma_seq_lt_total(ca, cb);
    lemma_seq_lt_total(cb, cc);
    lemma_seq_lt_total(ca, cc);
    lemma_seq_lt_total(entry_id(a), entry_id(b));
    lemma_seq_lt_total(entry_id(b), entry_id(c));
    lemma_seq_lt_total(entry_id(a), entry_id(c));
    if entry_before(a, c) {
        // b comes at or before a, and c at or before b
        if seq_lt(cb, ca) {
            if seq_lt(cc, cb) {
                lemma_seq_lt_transitive(cc, cb, ca);
            }
        } else if seq_lt(cc, cb) {
        } else {
            if seq_lt(entry_id(b), entry_id(a)) && seq_lt(entry_id(c), entry_id(b)) {
                lemma_seq_lt_transitive(entry_id(c), entry_id(b), entry_id(a));
            }
        }
    }
}

/// Inserting `e` at position `p` is `insert_in_order` when `e` comes before
/// every entry from `p` on and not before the entry at `p - 1`.
pub proof fn lemma_insert_position(s: Seq<TimelineEntry>, e: TimelineEntry, p: int)
    requires
        0 <= p <= s.len(),
        forall|q: int| p <= q < s.len() ==> entry_before(e, #[trigger] s[q]),
        p == 0 || !entry_before(e, s[p - 1]),
    ensures
        insert_in_order(s, e) == s.insert(p, e),
    decreases s.len() - p,
{
    if s.len() == 0 {
        assert(s.insert(p, e) =~= seq![e]);
    } else if p == s.len() {
        assert(s.insert(p, e) =~= s.push(e));
    } else {
        assert(entry_before(e, s.last()));
        lemma_insert_position(s.drop_last(), e, p);
        assert(s.drop_last().insert(p, e).push(s.last()) =~= s.insert(p, e));
    }
}

proof fn lemma_insert_in_order_multiset(s: Seq<TimelineEntry>, e: TimelineEntry)
    ensures
        insert_in_order(s, e).to_multiset() == s.to_multiset().insert(e),
        insert_in_order(s, e).len() == s.len() + 1,
    decreases s.len(),
{
    if s.len() > 0 && entry_before(e, s.last()) {
        lemma_insert_in_order_multiset(s.drop_last(), e);
        assert(s.drop_last().push(s.last()) == s);
        assert(s.to_multiset() == s.drop_last().to_multiset().insert(s.last()));
        assert(insert_in_order(s, e).to_multiset() =~= s.to_multiset().insert(e));
    }
}

proof fn lemma_insert_in_order_sorted(s: Seq<TimelineEntry>, e: TimelineEntry)
    requires
        timeline_sorted(s),
    ensures
        timeline_sorted(insert_in_order(s, e)),
        forall|k: int|
            0 <= k < insert_in_order(s, e).len() ==> (#[trigger] insert_in_order(s, e)[k] == e
                || s.contains(insert_in_order(s, e)[k])),
    decreases s.len(),
{
    let r = insert_in_order(s, e);
    if s.len() == 0 {
    } else if entry_before(e, s.last()) {
        let t = s.drop_last();
        lemma_insert_in_order_sorted(t, e);
        let rt = insert_in_order(t, e);
        lemma_insert_in_order_multiset(t, e);
        assert forall|i: int, j: int| 0 <= i < j < r.len() implies !entry_before(
            #[trigger] r[j],
            #[trigger] r[i],
        ) by {
            if j == r.len() - 1 {
                assert(r[j] == s.last());
                if rt[i] == e {
                    lemma_before_irreflexive(e);
                    lemma_seq_lt_total(entry_created_at(e), entry_created_at(s.last()));
                    lemma_seq_lt_total(entry_id(e), entry_id(s.last()));
                } else {
                    let k = choose|k: int| 0 <= k < t.len() && t[k] == rt[i];
                    assert(s[k] == t[k]);
                    assert(!entry_before(s[s.len() - 1], s[k]));
                }
            } else {
                assert(r[i] == rt[i] && r[j] == rt[j]);
            }
        }
        assert forall|k: int| 0 <= k < r.len() implies (#[trigger] r[k] == e || s.contains(
            r[k],
        )) by {
            if k == r.len() - 1 {
                assert(s[s.len() - 1] == r[k]);
            } else {
                assert(r[k] == rt[k]);
                if rt[k] != e {
                    let m = choose|m: int| 0 <= m < t.len() && t[m] == rt[k];
                    assert(s[m] == t[m]);
                }
            }
        }
    } else {
        assert forall|i: int, j: int| 0 <= i < j < r.len() implies !entry_before(
            #[trigger] r[j],
            #[trigger] r[i],
        ) by {
            if j == r.len() - 1 {
                assert(r[j] == e);
                if i < s.len() - 1 {
                    assert(!entry_before(s[s.len() - 1], s[i]));
                    lemma_not_before_transitive(e, s[s.len() - 1], s[i]);
                }
            } else {
                assert(r[i] == s[i] && r[j] == s[j]);
            }
        }
        assert forall|k: int| 0 <= k < r.len() implies (#[trigger] r[k] == e || s.contains(
            r[k],
        )) by {
            if k < s.len() {
                assert(r[k] == s[k]);
            }
        }
    }
}

/// Sorting the timeline puts it in timeline order and keeps every entry,
/// each as often as before.
pub proof fn law_sort_timeline_orders_and_keeps(s: Seq<TimelineEntry>)
    ensures
        timeline_sorted(sort_timeline(s)),
        sort_timeline(s).to_multiset() == s.to_multiset(),
        sort_timeline(s).len() == s.len(),
    decreases s.len(),
{
    if s.len() > 0 {
        law_sort_timeline_orders_and_keeps(s.drop_last());
        lemma_insert_in_order_sorted(sort_timeline(s.drop_last()), s.last());
        lemma_insert_in_order_multiset(sort_timeline(s.drop_last()), s.last());
        assert(s.drop_last().push(s.last()) == s);
    }
}

/// Two entries tie in the timeline order: same time, same identifier.
pub open spec fn same_place(a: TimelineEntry, b: TimelineEntry) -> bool {
    entry_created_at(a) == entry_created_at(b) && entry_id(a) == entry_id(b)
}

/// No two different entries of `s` tie in the timeline order.
pub open spec fn places_distinct(s: Seq<TimelineEntry>) -> bool {
    forall|i: int, j: int|
        0 <= i < s.len() && 0 <= j < s.len() && same_place(#[trigger] s[i], #[trigger] s[j]) ==> s[i]
            == s[j]
}

/// Two entries of which neither comes before the other tie.
proof fn lemma_neither_before(a: TimelineEntry, b: TimelineEntry)
    requires
        !entry_before(a, b),
        !entry_before(b, a),
    ensures
        same_place(a, b),
{
    lemma_seq_lt_total(entry_created_at(a), entry_created_at(b));
    lemma_seq_lt_total(entry_id(a), entry_id(b));
}

/// Two timelines in order that hold the same entries, no two different
/// ones tying, are equal.
proof fn lemma_sorted_same_entries(x: Seq<TimelineEntry>, y: Seq<TimelineEntry>)
    requires
        timeline_sorted(x),
        timeline_sorted(y),
        x.to_multiset() == y.to_multiset(),
        forall|p: TimelineEntry, q: TimelineEntry|
            x.contains(p) && x.contains(q) && same_place(p, q) ==> p == q,
    ensures
        x == y,
    decreases x.len(),
{
    assert(x.len() == x.to_multiset().len());
    assert(y.len() == y.to_multiset().len());
    if x.len() == 0 {
        assert(x =~= y);
    } else {
        let m = x.last();
        let n = y.last();
        assert(x.contains(m));
        assert(x.to_multiset().count(m) > 0);
        assert(y.contains(m));
        assert(y.to_multiset().count(n) > 0);
        assert(x.contains(n));
        if m != n {
            let k = choose|k: int| 0 <= k < x.len() && x[k] == n;
            let l = choose|l: int| 0 <= l < y.len() && y[l] == m;
            assert(k != x.len() - 1);
            assert(l != y.len() - 1);
            assert(!entry_before(x[x.len() - 1], x[k]));
            assert(!entry_before(y[y.len() - 1], y[l]));
            lemma_neither_before(m, n);
        }
        let xs = x.drop_last();
        let ys = y.drop_last();
        assert(xs.push(m) == x);
        assert(ys.push(m) == y);
        assert(xs.to_multiset().insert(m) == ys.to_multiset().insert(m));
        assert(xs.to_multiset() =~= ys.to_multiset()) by {
            assert forall|v: TimelineEntry| xs.to_multiset().count(v) == ys.to_multiset().count(v) by {
                assert(xs.to_multiset().insert(m).count(v) == ys.to_multiset().insert(m).count(v));
            }
        }
        assert(timeline_sorted(xs)) by {
            assert forall|i: int, j: int| 0 <= i < j < xs.len() implies !entry_before(#[trigger] xs[j], #[trigger] xs[i]) by {
                assert(xs[i] == x[i] && xs[j] == x[j]);
            }
        }
        assert(timeline_sorted(ys)) by {
            assert forall|i: int, j: int| 0 <= i < j < ys.len() implies !entry_before(#[trigger] ys[j], #[trigger] ys[i]) by {
                assert(ys[i] == y[i] && ys[j] == y[j]);
            }
        }
        assert forall|p: TimelineEntry, q: TimelineEntry|
            xs.contains(p) && xs.contains(q) && same_place(p, q) implies p == q by {
            let i = choose|i: int| 0 <= i < xs.len() && xs[i] == p;
            let j = choose|j: int| 0 <= j < xs.len() && xs[j] == q;
            assert(x[i] == p && x[j] == q);
        }
        lemma_sorted_same_entries(xs, ys);
    }
}

/// The order a session's entries are stored in does not change how they
/// sort: two timelines holding the same entries, each as often, sort to the
/// same timeline, as long as no two different entries share both their time
/// and their identifier.
pub proof fn law_sort_timeline_ignores_stored_order(a: Seq<TimelineEntry>, b: Seq<TimelineEntry>)
    requires
        a.to_multiset() == b.to_multiset(),
        places_distinct(a),
    ensures
        sort_timeline(a) == sort_timeline(b),
{
    law_sort_timeline_orders_and_keeps(a);
    law_sort_timeline_orders_and_keeps(b);
    let x = sort_timeline(a);
    assert forall|p: TimelineEntry, q: TimelineEntry|
        x.contains(p) && x.contains(q) && same_place(p, q) implies p == q by {
        assert(x.to_multiset().count(p) > 0);
        assert(x.to_multiset().count(q) > 0);
        assert(a.contains(p));
        assert(a.contains(q));
        let i = choose|i: int| 0 <= i < a.len() && a[i] == p;
        let j = choose|j: int| 0 <= j < a.len() && a[j] == q;
        assert(same_place(a[i], a[j]));
    }
    lemma_sorted_same_entries(x, sort_timeline(b));
}

/// Whether `a` comes strictly before `b` in the timeline.
pub fn entry_comes_before(a: &TimelineEntry, b: &TimelineEntry) -> (r: bool)
    ensures
        r == entry_before(*a, *b),
{
    let c = compare_str(a.created_at(), b.created_at());
    if c == 0 {
        compare_str(a.id(), b.id()) == -1
    } else {
        proof {
            lemma_seq_lt_total(entry_created_at(*a), entry_created_at(*b));
        }
        c == -1
    }
}

/// Puts the entries in timeline order: by creation time, then identifier,
/// keeping the relative order of entries that tie on both.
pub fn sort_entries(entries: Vec<TimelineEntry>) -> (r: Vec<TimelineEntry>)
    ensures
        r@ == sort_timeline(entries@),
{
    let ghost orig = entries@;
    let mut rest = entries;
    let mut out: Vec<TimelineEntry> = Vec::new();
    let mut k: usize = 0;
    let n = rest.len();
    assert(orig.take(0) =~= Seq::<TimelineEntry>::empty());
    assert(orig.skip(0) == orig);
    while 0 < rest.len()
        invariant
            n == orig.len(),
            k + rest.len() == n,
            rest@ == orig.skip(k as int),
            out@ == sort_timeline(orig.take(k as int)),
        decreases rest.len(),
    {
        let e = rest.remove(0);
        assert(e == orig[k as int]);
        assert(rest@ =~= orig.skip(k + 1));
        let mut p = out.len();
        while p > 0 && entry_comes_before(&e, &out[p - 1])
            invariant
                p <= out.len(),
                forall|q: int| p <= q < out.len() ==> entry_before(e, #[trigger] out@[q]),
            decreases p,
        {
            p -= 1;
        }
        proof {
            lemma_insert_position(out@, e, p as int);
            let t = orig.take(k + 1);
            assert(t.drop_last() =~= orig.take(k as int));
            assert(t.last() == e);
        }
        out.insert(p, e);
        k += 1;
    }
    assert(orig.take(n as int) == orig);
    out
}

/// Puts a session's timeline in order.
pub fn sort_session(session: &mut Session)
    ensures
        final(session).entries@ == sort_timeline(old(session).entries@),
        final(session).id == old(session).id,
        final(session).title == old(session).title,
        final(session).mode == old(session).mode,
        final(session).created_at == old(session).created_at,
        final(session).updated_at == old(session).updated_at,
{
    let mut entries: Vec<TimelineEntry> = Vec::new();
    std::mem::swap(&mut entries, &mut session.entries);
    session.entries = sort_entries(entries);
}

/// The position of the first entry of `s` with identifier `id`.
pub open spec fn index_of_id(s: Seq<TimelineEntry>, id: Seq<char>) -> Option<int>
    decreases s.len(),
{
    if s.len() == 0 {
        None
    } else if entry_id(s[0]) == id {
        Some(0)
    } else {
        match index_of_id(s.drop_first(), id) {
            Some(i) => Some(i + 1),
            None => None,
        }
    }
}

/// `e` replacing the first entry with its identifier, or added at the end
/// when there is none.
pub open spec fn upsert(s: Seq<TimelineEntry>, e: TimelineEntry) -> Seq<TimelineEntry> {
    match index_of_id(s, entry_id(e)) {
        Some(i) => s.update(i, e),
        None => s.push(e),
    }
}

proof fn lemma_index_of_id(s: Seq<TimelineEntry>, id: Seq<char>)
    ensures
        match index_of_id(s, id) {
            Some(i) => 0 <= i < s.len() && entry_id(s[i]) == id && forall|k: int|
                0 <= k < i ==> entry_id(#[trigger] s[k]) != id,
            None => forall|k: int| 0 <= k < s.len() ==> entry_id(#[trigger] s[k]) != id,
        },
    decreases s.len(),
{
    if s.len() > 0 {
        lemma_index_of_id(s.drop_first(), id);
        assert forall|k: int| 0 < k < s.len() implies s[k] == s.drop_first()[k - 1] by {}
    }
}

/// Replaces the entry with the same identifier as `next`, or adds `next`
/// at the end of the timeline.
pub fn upsert_entry(entries: &mut Vec<TimelineEntry>, next: TimelineEntry)
    ensures
        final(entries)@ == upsert(old(entries)@, next),
{
    proof {
        lemma_index_of_id(entries@, entry_id(next));
    }
    let mut i: usize = 0;
    while i < entries.len()
        invariant
            i <= entries.len(),
            entries@ == old(entries)@,
            forall|k: int| 0 <= k < i ==> entry_id(#[trigger] entries@[k]) != entry_id(next),
        decreases entries.len() - i,
    {
        if string_eq(entries[i].id(), next.id()) {
            proof {
                lemma_index_of_id(entries@, entry_id(next));
                match index_of_id(entries@, entry_id(next)) {
                    Some(j) => {
                        if j < i {
                            assert(entry_id(entries@[j]) != entry_id(next));
                        }
                        if j > i {
                            assert(entry_id(entries@[i as int]) == entry_id(next));
                        }
                    },
                    None => {
                        assert(entry_id(entries@[i as int]) == entry_id(next));
                    },
                }
            }
            entries.set(i, next);
            return;
        }
        i += 1;
    }
    proof {
        lemma_index_of_id(entries@, entry_id(next));
        match index_of_id(entries@, entry_id(next)) {
            Some(j) => {
                assert(entry_id(entries@[j]) != entry_id(next));
            },
            None => {},
        }
    }
    entries.push(next);
}

/// Whether two string slices hold the same characters.
pub fn string_eq(a: &str, b: &str) -> (r: bool)
    ensures
        r == (a@ == b@),
{
    compare_str(a, b) == 0
}

/// The first capture of `s` with identifier `id`.
pub open spec fn first_capture(s: Seq<TimelineEntry>, id: Seq<char>) -> Option<CaptureEntry>
    decreases s.len(),
{
    if s.len() == 0 {
        None
    } else {
        match s[0] {
            TimelineEntry::Capture(item) if item.id@ == id => Some(item),
            _ => first_capture(s.drop_first(), id),
        }
    }
}

/// The first dictation of `s` with identifier `id`.
pub open spec fn first_dictation(s: Seq<TimelineEntry>, id: Seq<char>) -> Option<DictationEntry>
    decreases s.len(),
{
    if s.len() == 0 {
        None
    } else {
        match s[0] {
            TimelineEntry::Dictation(item) if item.id@ == id => Some(item),
            _ => first_dictation(s.drop_first(), id),
        }
    }
}

/// The capture of the session with identifier `id`, if there is one.
pub fn existing_capture<'a>(session: &'a Session, id: &str) -> (r: Option<&'a CaptureEntry>)
    ensures
        match first_capture(session.entries@, id@) {
            Some(c) => r == Some(&c),
            None => r is None,
        },
{
    let mut i: usize = 0;
    assert(session.entries@.skip(0) == session.entries@);
    while i < session.entries.len()
        invariant
            i <= session.entries.len(),
            first_capture(session.entries@, id@) == first_capture(
                session.entries@.skip(i as int),
                id@,
            ),
        decreases session.entries.len() - i,
    {
        let ghost rest = session.entries@.skip(i as int);
        assert(rest[0] == session.entries@[i as int]);
        assert(rest.drop_first() == session.entries@.skip(i + 1));
        match &session.entries[i] {
            TimelineEntry::Capture(item) => {
                if string_eq(item.id.as_str(), id) {
                    return Some(item);
                }
            },
            _ => {},
        }
        i += 1;
    }
    None
}

/// The dictation of the session with identifier `id`, if there is one.
pub fn existing_dictation<'a>(session: &'a Session, id: &str) -> (r: Option<&'a DictationEntry>)
    ensures
        match first_dictation(session.entries@, id@) {
            Some(d) => r == Some(&d),
            None => r is None,
        },
{
    let mut i: usize = 0;
    assert(session.entries@.skip(0) == session.entries@);
    while i < session.entries.len()
        invariant
            i <= session.entries.len(),
            first_dictation(session.entries@, id@) == first_dictation(
                session.entries@.skip(i as int),
                id@,
            ),
        decreases session.entries.len() - i,
    {
        let ghost rest = session.entries@.skip(i as int);
        assert(rest[0] == session.entries@[i as int]);
        assert(rest.drop_first() == session.entries@.skip(i + 1));
        match &session.entries[i] {
            TimelineEntry::Dictation(item) => {
                if string_eq(item.id.as_str(), id) {
                    return Some(item);
                }
            },
            _ => {},
        }
        i += 1;
    }
    None
}

/// Where the first entry with identifier `id` is, if anywhere.
pub proof fn lemma_index_of_id_pub(s: Seq<TimelineEntry>, id: Seq<char>)
    ensures
        match index_of_id(s, id) {
            Some(i) => 0 <= i < s.len() && entry_id(s[i]) == id && forall|k: int|
                0 <= k < i ==> entry_id(#[trigger] s[k]) != id,
            None => forall|k: int| 0 <= k < s.len() ==> entry_id(#[trigger] s[k]) != id,
        },
{
    lemma_index_of_id(s, id);
}

/// A timeline already in order is left as it is by sorting.
proof fn lemma_sort_sorted(s: Seq<TimelineEntry>)
    requires
        timeline_sorted(s),
    ensures
        sort_timeline(s) == s,
    decreases s.len(),
{
    if s.len() > 0 {
        let t = s.drop_last();
        assert(timeline_sorted(t)) by {
            assert forall|i: int, j: int| 0 <= i < j < t.len() implies !entry_before(#[trigger] t[j], #[trigger] t[i]) by {
                assert(t[i] == s[i] && t[j] == s[j]);
            }
        }
        lemma_sort_sorted(t);
        if t.len() > 0 {
            assert(!entry_before(s[s.len() - 1], s[s.len() - 2]));
            assert(t.last() == s[s.len() - 2]);
        }
        assert(t.push(s.last()) == s);
    }
}

/// Sorting a sorted timeline changes nothing: a session stored in order
/// reads back in the same order.
pub proof fn law_sort_timeline_idempotent(s: Seq<TimelineEntry>)
    ensures
        sort_timeline(sort_timeline(s)) == sort_timeline(s),
{
    law_sort_timeline_orders_and_keeps(s);
    lemma_sort_sorted(sort_timeline(s));
}

/// Saving an entry puts it where the first entry with its identifier was,
/// or at the end when there was none; every other entry stays where it was,
/// and the saved entry is then the first with its identifier.
pub proof fn law_upsert_replaces_or_appends(s: Seq<TimelineEntry>, e: TimelineEntry)
    ensures
        match index_of_id(s, entry_id(e)) {
            Some(i) => upsert(s, e).len() == s.len() && upsert(s, e)[i] == e && forall|k: int|
                0 <= k < s.len() && k != i ==> upsert(s, e)[k] == s[k],
            None => upsert(s, e).len() == s.len() + 1 && upsert(s, e).last() == e && forall|k: int|
                0 <= k < s.len() ==> upsert(s, e)[k] == s[k],
        },
        index_of_id(upsert(s, e), entry_id(e)) == Some(
            match index_of_id(s, entry_id(e)) {
                Some(i) => i,
                None => s.len() as int,
            },
        ),
{
    let id = entry_id(e);
    lemma_index_of_id(s, id);
    let u = upsert(s, e);
    lemma_index_of_id(u, id);
    match index_of_id(s, id) {
        Some(i) => {
            match index_of_id(u, id) {
                Some(j) => {
                    if j < i {
                        assert(u[j] == s[j]);
                    }
                    if j > i {
                        assert(entry_id(u[i]) == id);
                    }
                },
                None => {
                    assert(entry_id(u[i]) == id);
                },
            }
        },
        None => {
            match index_of_id(u, id) {
                Some(j) => {
                    if j < s.len() {
                        assert(u[j] == s[j]);
                    }
                },
                None => {
                    assert(entry_id(u[s.len() as int]) == id);
                },
            }
        },
    }
}

} // verus!
