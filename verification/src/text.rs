//! Character-level text operations used by the session renderer, the
//! settings normaliser and the transcript parsers: whitespace, trimming,
//! splitting, joining and ordering of character sequences.
use vstd::prelude::*;
use vstd::std_specs::iter::IteratorSpec;

verus! {

broadcast use vstd::string::group_string_axioms;

/// Appends one character to a string (`String::push`): the string grows by
/// exactly that character at its end.
#[verifier::external_body]
fn push_char(s: &mut String, c: char)
    ensures
        final(s)@ == old(s)@.push(c),
{
    s.push(c);
}

/// The characters of a string slice, in order.
pub fn chars_of(s: &str) -> (v: Vec<char>)
    ensures
        v@ == s@,
{
    let mut v: Vec<char> = Vec::new();
    for c in it: s.chars()
        invariant
            it.seq() == s@,
            v@ == it.seq().take(it.index()),
    {
        v.push(c);
    }
    v
}

/// Builds a string from a sequence of characters.
pub fn string_of(v: &Vec<char>) -> (s: String)
    ensures
        s@ == v@,
{
    let mut s = String::new();
    let mut i: usize = 0;
    while i < v.len()
        invariant
            i <= v.len(),
            s@ == v@.take(i as int),
        decreases v.len() - i,
    {
        push_char(&mut s, v[i]);
        assert(v@.take(i + 1) == v@.take(i as int).push(v@[i as int]));
        i += 1;
    }
    assert(v@.take(v.len() as int) == v@);
    s
}

/// A copy of a string slice as an owned string.
pub fn owned(s: &str) -> (r: String)
    ensures
        r@ == s@,
{
    let v = chars_of(s);
    string_of(&v)
}

/// The concatenation of two strings.
pub fn concat(a: &str, b: &str) -> (r: String)
    ensures
        r@ == a@ + b@,
{
    let mut v = chars_of(a);
    let w = chars_of(b);
    let mut i: usize = 0;
    while i < w.len()
        invariant
            i <= w.len(),
            w@ == b@,
            v@ == a@ + b@.take(i as int),
        decreases w.len() - i,
    {
        v.push(w[i]);
        assert(b@.take(i + 1) == b@.take(i as int).push(b@[i as int]));
        i += 1;
    }
    assert(b@.take(w.len() as int) == b@);
    string_of(&v)
}

/// The Unicode `White_Space` property, which `char::is_whitespace` tests.
pub open spec fn is_ws(c: char) -> bool {
    let u = c as u32;
    ||| 0x09 <= u <= 0x0d
    ||| u == 0x20
    ||| u == 0x85
    ||| u == 0xa0
    ||| u == 0x1680
    ||| 0x2000 <= u <= 0x200a
    ||| u == 0x2028
    ||| u == 0x2029
    ||| u == 0x202f
    ||| u == 0x205f
    ||| u == 0x3000
}

/// Whether a character is Unicode whitespace.
pub fn is_whitespace(c: char) -> (b: bool)
    ensures
        b == is_ws(c),
{
    let u = c as u32;
    (0x09 <= u && u <= 0x0d) || u == 0x20 || u == 0x85 || u == 0xa0 || u == 0x1680 || (0x2000
        <= u && u <= 0x200a) || u == 0x2028 || u == 0x2029 || u == 0x202f || u == 0x205f || u
        == 0x3000
}

/// The sequence without its leading whitespace.
pub open spec fn trim_start(s: Seq<char>) -> Seq<char>
    decreases s.len(),
{
    if s.len() > 0 && is_ws(s[0]) {
        trim_start(s.drop_first())
    } else {
        s
    }
}

/// The sequence without its trailing whitespace.
pub open spec fn trim_end(s: Seq<char>) -> Seq<char>
    decreases s.len(),
{
    if s.len() > 0 && is_ws(s.last()) {
        trim_end(s.drop_last())
    } else {
        s
    }
}

/// The sequence without leading and trailing whitespace (`str::trim`).
pub open spec fn trim(s: Seq<char>) -> Seq<char> {
    trim_end(trim_start(s))
}

/// Whether the sequence holds nothing but whitespace.
pub open spec fn is_blank(s: Seq<char>) -> bool {
    trim(s).len() == 0
}

proof fn lemma_trim_start_skip(s: Seq<char>, i: int)
    requires
        0 <= i <= s.len(),
        forall|k: int| 0 <= k < i ==> is_ws(#[trigger] s[k]),
        i == s.len() || !is_ws(s[i]),
    ensures
        trim_start(s) == s.skip(i),
    decreases i,
{
    if i == 0 {
        assert(s.skip(0) == s);
    } else {
        assert(is_ws(s[0]));
        let t = s.drop_first();
        assert forall|k: int| 0 <= k < i - 1 implies is_ws(#[trigger] t[k]) by {
            assert(t[k] == s[k + 1]);
        }
        if i - 1 < t.len() {
            assert(t[i - 1] == s[i]);
        }
        lemma_trim_start_skip(t, i - 1);
        assert(t.skip(i - 1) == s.skip(i));
    }
}

proof fn lemma_trim_end_take(s: Seq<char>, j: int)
    requires
        0 <= j <= s.len(),
        forall|k: int| j <= k < s.len() ==> is_ws(#[trigger] s[k]),
        j == 0 || !is_ws(s[j - 1]),
    ensures
        trim_end(s) == s.take(j),
    decreases s.len() - j,
{
    if j == s.len() {
        assert(s.take(j) == s);
    } else {
        assert(is_ws(s.last()));
        let t = s.drop_last();
        assert forall|k: int| j <= k < t.len() implies is_ws(#[trigger] t[k]) by {
            assert(t[k] == s[k]);
        }
        if j > 0 {
            assert(t[j - 1] == s[j - 1]);
        }
        lemma_trim_end_take(t, j);
        assert(t.take(j) == s.take(j));
    }
}

/// `trim` of a sequence is the subrange between its first and last
/// non-whitespace characters.
proof fn lemma_trim_subrange(s: Seq<char>, i: int, j: int)
    requires
        0 <= i <= j <= s.len(),
        forall|k: int| 0 <= k < i ==> is_ws(#[trigger] s[k]),
        forall|k: int| j <= k < s.len() ==> is_ws(#[trigger] s[k]),
        i == s.len() || !is_ws(s[i]),
        j == i || !is_ws(s[j - 1]),
        i == j ==> j == s.len(),
    ensures
        trim(s) == s.subrange(i, j),
{
    lemma_trim_start_skip(s, i);
    let t = s.skip(i);
    assert forall|k: int| j - i <= k < t.len() implies is_ws(#[trigger] t[k]) by {
        assert(t[k] == s[k + i]);
    }
    if j - i > 0 {
        assert(t[j - i - 1] == s[j - 1]);
    }
    lemma_trim_end_take(t, j - i);
    assert(t.take(j - i) == s.subrange(i, j));
}

/// The bounds `(i, j)` of the trimmed part of `v[lo..hi]`.
fn trim_bounds(v: &Vec<char>, lo: usize, hi: usize) -> (r: (usize, usize))
    requires
        lo <= hi <= v.len(),
    ensures
        lo <= r.0 <= r.1 <= hi,
        trim(v@.subrange(lo as int, hi as int)) == v@.subrange(r.0 as int, r.1 as int),
{
    let ghost s = v@.subrange(lo as int, hi as int);
    let mut i = lo;
    while i < hi && is_whitespace(v[i])
        invariant
            lo <= i <= hi <= v.len(),
            forall|k: int| lo <= k < i ==> is_ws(#[trigger] v@[k]),
        decreases hi - i,
    {
        i += 1;
    }
    let mut j = hi;
    while j > i && is_whitespace(v[j - 1])
        invariant
            lo <= i <= j <= hi <= v.len(),
            forall|k: int| j <= k < hi ==> is_ws(#[trigger] v@[k]),
        decreases j - i,
    {
        j -= 1;
    }
    proof {
        assert forall|k: int| 0 <= k < i - lo implies is_ws(#[trigger] s[k]) by {
            assert(s[k] == v@[k + lo]);
        }
        assert forall|k: int| j - lo <= k < s.len() implies is_ws(#[trigger] s[k]) by {
            assert(s[k] == v@[k + lo]);
        }
        if i < hi {
            assert(s[i - lo] == v@[i as int]);
        }
        if j > i {
            assert(s[j - lo - 1] == v@[j - 1]);
        }
        if i == j && i < hi {
            assert(is_ws(v@[i as int]));
            assert(false);
        }
        lemma_trim_subrange(s, i - lo, j - lo);
        assert(s.subrange(i - lo, j - lo) == v@.subrange(i as int, j as int));
    }
    (i, j)
}

/// The characters of `v[lo..hi]` as a new vector.
pub fn slice_vec(v: &Vec<char>, lo: usize, hi: usize) -> (r: Vec<char>)
    requires
        lo <= hi <= v.len(),
    ensures
        r@ == v@.subrange(lo as int, hi as int),
{
    let mut r: Vec<char> = Vec::new();
    let mut k = lo;
    while k < hi
        invariant
            lo <= k <= hi <= v.len(),
            r@ == v@.subrange(lo as int, k as int),
        decreases hi - k,
    {
        r.push(v[k]);
        assert(v@.subrange(lo as int, k + 1) == v@.subrange(lo as int, k as int).push(
            v@[k as int],
        ));
        k += 1;
    }
    r
}

/// The trimmed characters of a vector.
pub fn trim_vec(v: &Vec<char>) -> (r: Vec<char>)
    ensures
        r@ == trim(v@),
{
    let (i, j) = trim_bounds(v, 0, v.len());
    assert(v@.subrange(0, v.len() as int) == v@);
    slice_vec(v, i, j)
}

/// The trimmed copy of a string slice (`str::trim`).
pub fn trim_str(s: &str) -> (r: String)
    ensures
        r@ == trim(s@),
{
    let v = chars_of(s);
    let t = trim_vec(&v);
    string_of(&t)
}

/// Whether a string slice holds only whitespace (`s.trim().is_empty()`).
pub fn is_blank_str(s: &str) -> (b: bool)
    ensures
        b == is_blank(s@),
{
    let v = chars_of(s);
    let (i, j) = trim_bounds(&v, 0, v.len());
    assert(v@.subrange(0, v.len() as int) == v@);
    i == j
}

/// `pat` occurs in `s` at position `i`.
pub open spec fn occurs_at(s: Seq<char>, pat: Seq<char>, i: int) -> bool {
    &&& 0 <= i
    &&& i + pat.len() <= s.len()
    &&& s.subrange(i, i + pat.len()) == pat
}

/// `pat` occurs somewhere in `s` (`str::contains`).
pub open spec fn contains_seq(s: Seq<char>, pat: Seq<char>) -> bool {
    exists|i: int| occurs_at(s, pat, i)
}

/// `s` begins with `pat` (`str::starts_with`).
pub open spec fn starts_with(s: Seq<char>, pat: Seq<char>) -> bool {
    occurs_at(s, pat, 0)
}

/// Whether `pat` occurs in `v` at position `i`.
pub fn occurs_at_vec(v: &Vec<char>, pat: &Vec<char>, i: usize) -> (b: bool)
    ensures
        b == occurs_at(v@, pat@, i as int),
{
    if i > v.len() || pat.len() > v.len() - i {
        return false;
    }
    let mut k: usize = 0;
    while k < pat.len()
        invariant
            i + pat.len() <= v.len(),
            k <= pat.len(),
            forall|m: int| 0 <= m < k ==> v@[i + m] == pat@[m],
        decreases pat.len() - k,
    {
        if v[i + k] != pat[k] {
            assert(v@.subrange(i as int, i + pat.len())[k as int] != pat@[k as int]);
            return false;
        }
        k += 1;
    }
    assert(v@.subrange(i as int, i + pat.len()) == pat@);
    true
}

/// Whether `v` begins with `pat`.
pub fn starts_with_vec(v: &Vec<char>, pat: &Vec<char>) -> (b: bool)
    ensures
        b == starts_with(v@, pat@),
{
    occurs_at_vec(v, pat, 0)
}

/// Whether `pat` occurs anywhere in `v`.
pub fn contains_vec(v: &Vec<char>, pat: &Vec<char>) -> (b: bool)
    ensures
        b == contains_seq(v@, pat@),
{
    if pat.len() > v.len() {
        assert forall|i: int| !occurs_at(v@, pat@, i) by {}
        return false;
    }
    let limit = v.len() - pat.len();
    let mut i: usize = 0;
    while i < limit
        invariant
            pat.len() <= v.len(),
            limit == v.len() - pat.len(),
            i <= limit,
            forall|m: int| 0 <= m < i ==> !occurs_at(v@, pat@, m),
        decreases limit - i,
    {
        if occurs_at_vec(v, pat, i) {
            return true;
        }
        i += 1;
    }
    if occurs_at_vec(v, pat, limit) {
        return true;
    }
    assert forall|m: int| !occurs_at(v@, pat@, m) by {
        if 0 <= m < i {
        }
    }
    false
}

/// Whether string `s` contains string `pat`.
pub fn contains_str(s: &str, pat: &str) -> (b: bool)
    ensures
        b == contains_seq(s@, pat@),
{
    let v = chars_of(s);
    let p = chars_of(pat);
    contains_vec(&v, &p)
}

/// Whether string `s` begins with string `pat`.
pub fn starts_with_str(s: &str, pat: &str) -> (b: bool)
    ensures
        b == starts_with(s@, pat@),
{
    let v = chars_of(s);
    let p = chars_of(pat);
    starts_with_vec(&v, &p)
}

/// The pieces of `s` between the non-overlapping occurrences of `pat`,
/// found from left to right (`str::split`), with `cur` the part of the
/// current piece already read.
pub open spec fn split_from(s: Seq<char>, pat: Seq<char>, cur: Seq<char>) -> Seq<Seq<char>>
    decreases s.len(),
{
    if s.len() == 0 {
        seq![cur]
    } else if pat.len() > 0 && starts_with(s, pat) {
        seq![cur] + split_from(s.skip(pat.len() as int), pat, seq![])
    } else {
        split_from(s.drop_first(), pat, cur.push(s[0]))
    }
}

/// The pieces of `s` between the occurrences of `pat` (`str::split`).
pub open spec fn split(s: Seq<char>, pat: Seq<char>) -> Seq<Seq<char>> {
    split_from(s, pat, seq![])
}

/// The views of a vector of character vectors.
pub open spec fn views(v: Seq<Vec<char>>) -> Seq<Seq<char>> {
    v.map_values(|p: Vec<char>| p@)
}

/// Splits `v` at the occurrences of a non-empty `pat`.
pub fn split_vec(v: &Vec<char>, pat: &Vec<char>) -> (r: Vec<Vec<char>>)
    requires
        pat.len() > 0,
    ensures
        views(r@) == split(v@, pat@),
{
    let mut pieces: Vec<Vec<char>> = Vec::new();
    let mut cur: Vec<char> = Vec::new();
    let mut i: usize = 0;
    assert(v@.skip(0) == v@);
    assert(views(pieces@) == Seq::<Seq<char>>::empty());
    while i < v.len()
        invariant
            i <= v.len(),
            pat.len() > 0,
            views(pieces@) + split_from(v@.skip(i as int), pat@, cur@) == split(v@, pat@),
        decreases v.len() - i,
    {
        let ghost rest = v@.skip(i as int);
        if occurs_at_vec(v, pat, i) {
            proof {
                assert(rest.subrange(0, pat@.len() as int) == v@.subrange(
                    i as int,
                    i + pat@.len(),
                ));
                assert(rest.skip(pat@.len() as int) == v@.skip(i + pat@.len()));
                assert(views(pieces@.push(cur)) == views(pieces@).push(cur@));
                assert(views(pieces@) + split_from(rest, pat@, cur@) == views(pieces@) + (seq![
                    cur@,
                ] + split_from(v@.skip(i + pat@.len()), pat@, seq![])));
            }
            pieces.push(cur);
            cur = Vec::new();
            i = i + pat.len();
        } else {
            proof {
                if starts_with(rest, pat@) {
                    assert(rest.subrange(0, pat@.len() as int) == v@.subrange(
                        i as int,
                        i + pat@.len(),
                    ));
                }
                assert(rest.drop_first() == v@.skip(i + 1));
                assert(rest[0] == v@[i as int]);
            }
            cur.push(v[i]);
            i += 1;
        }
    }
    proof {
        assert(v@.skip(i as int).len() == 0);
        assert(views(pieces@.push(cur)) == views(pieces@).push(cur@));
    }
    pieces.push(cur);
    pieces
}

/// `parts` joined with `sep` between consecutive parts (`join`).
pub open spec fn join(parts: Seq<Seq<char>>, sep: Seq<char>) -> Seq<char>
    decreases parts.len(),
{
    if parts.len() == 0 {
        seq![]
    } else if parts.len() == 1 {
        parts[0]
    } else {
        join(parts.drop_last(), sep) + sep + parts.last()
    }
}

/// Joins character vectors with a separator.
pub fn join_vec(parts: &Vec<Vec<char>>, sep: &Vec<char>) -> (r: Vec<char>)
    ensures
        r@ == join(views(parts@), sep@),
{
    let mut out: Vec<char> = Vec::new();
    let mut i: usize = 0;
    while i < parts.len()
        invariant
            i <= parts.len(),
            out@ == join(views(parts@).take(i as int), sep@),
        decreases parts.len() - i,
    {
        let ghost before = out@;
        if i > 0 {
            append_vec(&mut out, sep);
        }
        append_vec(&mut out, &parts[i]);
        proof {
            let t = views(parts@).take(i + 1);
            assert(t.drop_last() == views(parts@).take(i as int));
            assert(t.last() == parts@[i as int]@);
            if i == 0 {
                assert(out@ == t[0]);
            }
        }
        i += 1;
    }
    assert(views(parts@).take(parts.len() as int) == views(parts@));
    out
}

/// Appends the characters of `w` to `v`.
pub fn append_vec(v: &mut Vec<char>, w: &Vec<char>)
    ensures
        final(v)@ == old(v)@ + w@,
{
    let mut i: usize = 0;
    while i < w.len()
        invariant
            i <= w.len(),
            v@ == old(v)@ + w@.take(i as int),
        decreases w.len() - i,
    {
        v.push(w[i]);
        assert(w@.take(i + 1) == w@.take(i as int).push(w@[i as int]));
        i += 1;
    }
    assert(w@.take(w.len() as int) == w@);
}

/// `a` comes strictly before `b` in lexicographic order of characters,
/// which is the order of their UTF-8 encodings that `str` compares by.
pub open spec fn seq_lt(a: Seq<char>, b: Seq<char>) -> bool
    decreases a.len(),
{
    if a.len() == 0 {
        b.len() > 0
    } else if b.len() == 0 {
        false
    } else if a[0] != b[0] {
        a[0] < b[0]
    } else {
        seq_lt(a.drop_first(), b.drop_first())
    }
}

proof fn lemma_seq_lt_skip(a: Seq<char>, b: Seq<char>, k: int)
    requires
        0 <= k <= a.len(),
        k <= b.len(),
        forall|m: int| 0 <= m < k ==> a[m] == b[m],
    ensures
        seq_lt(a, b) == seq_lt(a.skip(k), b.skip(k)),
        (a == b) == (a.skip(k) == b.skip(k)),
    decreases k,
{
    if k > 0 {
        lemma_seq_lt_skip(a.drop_first(), b.drop_first(), k - 1);
        assert(a.drop_first().skip(k - 1) == a.skip(k));
        assert(b.drop_first().skip(k - 1) == b.skip(k));
        assert(a.skip(0) == a);
        if a.drop_first() == b.drop_first() {
            assert(a =~= b) by {
                assert forall|m: int| 0 <= m < a.len() implies a[m] == b[m] by {
                    if m > 0 {
                        assert(a[m] == a.drop_first()[m - 1]);
                        assert(b[m] == b.drop_first()[m - 1]);
                    }
                }
            }
        }
    } else {
        assert(a.skip(0) == a);
        assert(b.skip(0) == b);
    }
}

/// Compares two strings lexicographically: `-1`, `0` or `1` as `a` comes
/// before, equals or comes after `b`.
pub fn compare_str(a: &str, b: &str) -> (r: i8)
    ensures
        r == -1 <==> seq_lt(a@, b@),
        r == 0 <==> a@ == b@,
        r == 1 <==> seq_lt(b@, a@),
        -1 <= r <= 1,
{
    let va = chars_of(a);
    let vb = chars_of(b);
    let mut k: usize = 0;
    while k < va.len() && k < vb.len() && va[k] == vb[k]
        invariant
            k <= va.len(),
            k <= vb.len(),
            va@ == a@,
            vb@ == b@,
            forall|m: int| 0 <= m < k ==> a@[m] == b@[m],
        decreases va.len() - k,
    {
        k += 1;
    }
    proof {
        lemma_seq_lt_skip(a@, b@, k as int);
        lemma_seq_lt_skip(b@, a@, k as int);
        let sa = a@.skip(k as int);
        let sb = b@.skip(k as int);
        if k < va.len() && k < vb.len() {
            assert(sa[0] == a@[k as int]);
            assert(sb[0] == b@[k as int]);
            assert(sa != sb);
        }
        if k == va.len() && k < vb.len() {
            assert(sa.len() == 0);
            assert(sa != sb);
        }
        if k < va.len() && k == vb.len() {
            assert(sb.len() == 0);
            assert(sa != sb);
        }
        if k == va.len() && k == vb.len() {
            assert(sa =~= sb);
        }
    }
    if k < va.len() && k < vb.len() {
        if va[k] < vb[k] {
            -1
        } else {
            1
        }
    } else if k < vb.len() {
        -1
    } else if k < va.len() {
        1
    } else {
        0
    }
}

/// `s` with every carriage-return/line-feed pair replaced by a line feed,
/// pairs found from left to right (`str::replace("\r\n", "\n")`).
pub open spec fn crlf_to_lf(s: Seq<char>) -> Seq<char>
    decreases s.len(),
{
    if s.len() == 0 {
        s
    } else if s.len() >= 2 && s[0] == '\r' && s[1] == '\n' {
        seq!['\n'] + crlf_to_lf(s.skip(2))
    } else {
        seq![s[0]] + crlf_to_lf(s.drop_first())
    }
}

/// Replaces carriage-return/line-feed pairs by line feeds.
pub fn crlf_to_lf_vec(v: &Vec<char>) -> (r: Vec<char>)
    ensures
        r@ == crlf_to_lf(v@),
{
    let mut out: Vec<char> = Vec::new();
    let mut i: usize = 0;
    assert(v@.skip(0) == v@);
    while i < v.len()
        invariant
            i <= v.len(),
            out@ + crlf_to_lf(v@.skip(i as int)) == crlf_to_lf(v@),
        decreases v.len() - i,
    {
        let ghost rest = v@.skip(i as int);
        if i + 1 < v.len() && v[i] == '\r' && v[i + 1] == '\n' {
            assert(rest[0] == v@[i as int] && rest[1] == v@[i + 1]);
            assert(rest.skip(2) == v@.skip(i + 2));
            out.push('\n');
            i += 2;
        } else {
            proof {
                assert(rest[0] == v@[i as int]);
                if rest.len() >= 2 {
                    assert(rest[1] == v@[i + 1]);
                }
                assert(rest.drop_first() == v@.skip(i + 1));
            }
            out.push(v[i]);
            i += 1;
        }
    }
    assert(v@.skip(i as int).len() == 0);
    out
}

/// The pieces of `ps` trimmed, with the empty ones left out (the
/// `.map(trim).filter(non-empty)` step).
pub open spec fn clean_pieces(ps: Seq<Seq<char>>) -> Seq<Seq<char>>
    decreases ps.len(),
{
    if ps.len() == 0 {
        seq![]
    } else {
        let rest = clean_pieces(ps.drop_last());
        let t = trim(ps.last());
        if t.len() > 0 {
            rest.push(t)
        } else {
            rest
        }
    }
}

/// Trims each piece and keeps the non-empty ones.
pub fn clean_pieces_vec(ps: &Vec<Vec<char>>) -> (r: Vec<Vec<char>>)
    ensures
        views(r@) == clean_pieces(views(ps@)),
{
    let mut out: Vec<Vec<char>> = Vec::new();
    let mut i: usize = 0;
    while i < ps.len()
        invariant
            i <= ps.len(),
            views(out@) == clean_pieces(views(ps@).take(i as int)),
        decreases ps.len() - i,
    {
        let t = trim_vec(&ps[i]);
        proof {
            let pre = views(ps@).take(i + 1);
            assert(pre.drop_last() == views(ps@).take(i as int));
            assert(pre.last() == ps@[i as int]@);
        }
        if t.len() > 0 {
            proof {
                assert(views(out@.push(t)) == views(out@).push(t@));
            }
            out.push(t);
        }
        i += 1;
    }
    assert(views(ps@).take(ps.len() as int) == views(ps@));
    out
}

/// The maximal runs of non-whitespace characters of `s`, with `cur` the
/// part of the current run already read (`str::split_whitespace`).
pub open spec fn words_from(s: Seq<char>, cur: Seq<char>) -> Seq<Seq<char>>
    decreases s.len(),
{
    if s.len() == 0 {
        if cur.len() > 0 {
            seq![cur]
        } else {
            seq![]
        }
    } else if is_ws(s[0]) {
        (if cur.len() > 0 {
            seq![cur]
        } else {
            seq![]
        }) + words_from(s.drop_first(), seq![])
    } else {
        words_from(s.drop_first(), cur.push(s[0]))
    }
}

/// The whitespace-separated words of `s`.
pub open spec fn words(s: Seq<char>) -> Seq<Seq<char>> {
    words_from(s, seq![])
}

/// Splits a character vector into its whitespace-separated words.
pub fn words_vec(v: &Vec<char>) -> (r: Vec<Vec<char>>)
    ensures
        views(r@) == words(v@),
{
    let mut out: Vec<Vec<char>> = Vec::new();
    let mut cur: Vec<char> = Vec::new();
    let mut i: usize = 0;
    assert(v@.skip(0) == v@);
    assert(views(out@) == Seq::<Seq<char>>::empty());
    while i < v.len()
        invariant
            i <= v.len(),
            views(out@) + words_from(v@.skip(i as int), cur@) == words(v@),
        decreases v.len() - i,
    {
        let ghost rest = v@.skip(i as int);
        assert(rest[0] == v@[i as int]);
        assert(rest.drop_first() == v@.skip(i + 1));
        if is_whitespace(v[i]) {
            if cur.len() > 0 {
                proof {
                    assert(views(out@.push(cur)) == views(out@).push(cur@));
                    assert(words_from(rest, cur@) == seq![cur@] + words_from(
                        rest.drop_first(),
                        seq![],
                    ));
                    assert(views(out@).push(cur@) + words_from(rest.drop_first(), seq![])
                        == views(out@) + (seq![cur@] + words_from(rest.drop_first(), seq![])));
                }
                out.push(cur);
                cur = Vec::new();
            } else {
                assert(cur@ =~= seq![]);
                assert(seq![] + words_from(rest.drop_first(), seq![]) == words_from(
                    rest.drop_first(),
                    seq![],
                ));
            }
        } else {
            assert(words_from(rest, cur@) == words_from(rest.drop_first(), cur@.push(v@[i as int])));
            cur.push(v[i]);
        }
        i += 1;
    }
    assert(v@.skip(i as int).len() == 0);
    if cur.len() > 0 {
        proof {
            assert(views(out@.push(cur)) == views(out@).push(cur@));
        }
        out.push(cur);
    }
    out
}

/// The ASCII lower-case form of a character (`char::to_ascii_lowercase`).
pub open spec fn ascii_lower(c: char) -> char {
    if 'A' <= c <= 'Z' {
        ((c as u32) + 32) as char
    } else {
        c
    }
}

/// The ASCII lower-case form of a character.
pub fn to_ascii_lowercase(c: char) -> (r: char)
    ensures
        r == ascii_lower(c),
{
    if 'A' <= c && c <= 'Z' {
        let b = (c as u8) + 32;
        b as char
    } else {
        c
    }
}

/// Whether two sequences are equal when ASCII letters are compared without
/// regard to case (`str::eq_ignore_ascii_case`).
pub open spec fn eq_ignore_ascii_case(a: Seq<char>, b: Seq<char>) -> bool {
    &&& a.len() == b.len()
    &&& forall|i: int| 0 <= i < a.len() ==> ascii_lower(#[trigger] a[i]) == ascii_lower(b[i])
}

/// Compares two character vectors ignoring ASCII case.
pub fn eq_ignore_ascii_case_vec(a: &Vec<char>, b: &Vec<char>) -> (r: bool)
    ensures
        r == eq_ignore_ascii_case(a@, b@),
{
    if a.len() != b.len() {
        return false;
    }
    let mut i: usize = 0;
    while i < a.len()
        invariant
            i <= a.len(),
            a.len() == b.len(),
            forall|k: int| 0 <= k < i ==> ascii_lower(#[trigger] a@[k]) == ascii_lower(b@[k]),
        decreases a.len() - i,
    {
        if to_ascii_lowercase(a[i]) != to_ascii_lowercase(b[i]) {
            return false;
        }
        i += 1;
    }
    true
}

/// No sequence comes before itself.
pub proof fn lemma_seq_lt_irreflexive(a: Seq<char>)
    ensures
        !seq_lt(a, a),
    decreases a.len(),
{
    if a.len() > 0 {
        lemma_seq_lt_irreflexive(a.drop_first());
    }
}

/// The lexicographic order is transitive.
pub proof fn lemma_seq_lt_transitive(a: Seq<char>, b: Seq<char>, c: Seq<char>)
    requires
        seq_lt(a, b),
        seq_lt(b, c),
    ensures
        seq_lt(a, c),
    decreases a.len(),
{
    if a.len() > 0 && b.len() > 0 && c.len() > 0 && a[0] == b[0] && b[0] == c[0] {
        lemma_seq_lt_transitive(a.drop_first(), b.drop_first(), c.drop_first());
    }
}

/// Of two different sequences exactly one comes first.
pub proof fn lemma_seq_lt_total(a: Seq<char>, b: Seq<char>)
    ensures
        a != b ==> (seq_lt(a, b) || seq_lt(b, a)),
        !(seq_lt(a, b) && seq_lt(b, a)),
    decreases a.len(),
{
    if a.len() > 0 && b.len() > 0 && a[0] == b[0] {
        lemma_seq_lt_total(a.drop_first(), b.drop_first());
        if a.drop_first() == b.drop_first() {
            assert(a =~= b) by {
                assert forall|m: int| 0 <= m < a.len() implies a[m] == b[m] by {
                    if m > 0 {
                        assert(a[m] == a.drop_first()[m - 1]);
                        assert(b[m] == b.drop_first()[m - 1]);
                    }
                }
            }
        }
    } else if a.len() == 0 && b.len() == 0 {
        assert(a =~= b);
    }
}

} // verus!
