//! Character-level text model and the verified scanning primitives built on it.
//!
//! Strings are modelled by their view, a `Seq<char>`. The spec functions here
//! state what the usual `str` operations (`trim`, `starts_with`, `find`,
//! `lines`, `join`) compute, and the executable functions work on a
//! `Vec<char>` copy of the text and hand back index windows into it.
use vstd::prelude::*;

verus! {

/// The Unicode `White_Space` property, which is what `char::is_whitespace` tests.
pub open spec fn is_ws(c: char) -> bool {
    let u = c as u32;
    ||| 0x9 <= u <= 0xd
    ||| u == 0x20
    ||| u == 0x85
    ||| u == 0xa0
    ||| u == 0x1680
    ||| 0x2000 <= u <= 0x200a
    ||| u == 0x2028
    ||| u == 0x2029
    ||| u == 0x202f
    ||| u == 0x205f
    ||| u == 0x3000
}

/// The whitespace predicate as a value.
pub open spec fn ws() -> spec_fn(char) -> bool {
    |c: char| is_ws(c)
}

/// The predicate "equals `x`" as a value.
pub open spec fn is_char(x: char) -> spec_fn(char) -> bool {
    |c: char| c == x
}

/// `s` without its longest prefix of characters satisfying `p`.
pub open spec fn strip_leading(s: Seq<char>, p: spec_fn(char) -> bool) -> Seq<char>
    decreases s.len(),
{
    if s.len() > 0 && p(s[0]) {
        strip_leading(s.drop_first(), p)
    } else {
        s
    }
}

/// `s` without its longest suffix of characters satisfying `p`.
pub open spec fn strip_trailing(s: Seq<char>, p: spec_fn(char) -> bool) -> Seq<char>
    decreases s.len(),
{
    if s.len() > 0 && p(s.last()) {
        strip_trailing(s.drop_last(), p)
    } else {
        s
    }
}

/// `str::trim`.
pub open spec fn trim(s: Seq<char>) -> Seq<char> {
    strip_trailing(strip_leading(s, ws()), ws())
}

/// `str::trim_start`.
pub open spec fn trim_start(s: Seq<char>) -> Seq<char> {
    strip_leading(s, ws())
}

/// `str::trim_matches` with a single character.
pub open spec fn trim_matches(s: Seq<char>, x: char) -> Seq<char> {
    strip_trailing(strip_leading(s, is_char(x)), is_char(x))
}

/// `str::starts_with`.
pub open spec fn starts_with(s: Seq<char>, p: Seq<char>) -> bool {
    p.len() <= s.len() && s.take(p.len() as int) == p
}

/// `p` occurs in `s` at position `i`.
pub open spec fn occurs_at(s: Seq<char>, p: Seq<char>, i: int) -> bool {
    0 <= i && i + p.len() <= s.len() && s.subrange(i, i + p.len()) == p
}

/// First position at or after `i` at which `p` occurs in `s`.
pub open spec fn find_from(s: Seq<char>, p: Seq<char>, i: nat) -> Option<nat>
    decreases s.len() + 1 - i,
{
    if i + p.len() > s.len() {
        None
    } else if occurs_at(s, p, i as int) {
        Some(i)
    } else {
        find_from(s, p, i + 1)
    }
}

/// `str::find`: the first position at which `p` occurs in `s`.
pub open spec fn find(s: Seq<char>, p: Seq<char>) -> Option<nat> {
    find_from(s, p, 0)
}

/// The pieces of `s` between its `'\n'` characters (one more piece than newlines).
pub open spec fn split_nl(s: Seq<char>) -> Seq<Seq<char>>
    decreases s.len(),
{
    if s.len() == 0 {
        seq![Seq::<char>::empty()]
    } else {
        let prev = split_nl(s.drop_last());
        if s.last() == '\n' {
            prev.push(Seq::<char>::empty())
        } else {
            prev.update(prev.len() - 1, prev.last().push(s.last()))
        }
    }
}

/// A line that ended in `"\r\n"` loses its `'\r'`.
pub open spec fn strip_cr(s: Seq<char>) -> Seq<char> {
    if s.len() > 0 && s.last() == '\r' {
        s.drop_last()
    } else {
        s
    }
}

/// `str::lines`: lines end at `'\n'` or `"\r\n"`; a last empty line is not a line.
pub open spec fn lines(s: Seq<char>) -> Seq<Seq<char>> {
    let pieces = split_nl(s);
    let body = pieces.drop_last().map_values(|l: Seq<char>| strip_cr(l));
    if pieces.last().len() == 0 {
        body
    } else {
        body.push(pieces.last())
    }
}

/// `join(sep)` over a sequence of strings.
pub open spec fn join(parts: Seq<Seq<char>>, sep: Seq<char>) -> Seq<char>
    decreases parts.len(),
{
    if parts.len() == 0 {
        Seq::<char>::empty()
    } else if parts.len() == 1 {
        parts[0]
    } else {
        join(parts.drop_last(), sep) + sep + parts.last()
    }
}

/// The text that a list of index windows cuts out of `s`.
pub open spec fn windows(s: Seq<char>, w: Seq<(usize, usize)>) -> Seq<Seq<char>> {
    w.map_values(|x: (usize, usize)| s.subrange(x.0 as int, x.1 as int))
}

pub proof fn lemma_strip_leading_at(s: Seq<char>, p: spec_fn(char) -> bool, k: int)
    requires
        0 <= k <= s.len(),
        forall|j: int| 0 <= j < k ==> p(s[j]),
        k == s.len() || !p(s[k]),
    ensures
        strip_leading(s, p) == s.skip(k),
    decreases k,
{
    if k > 0 {
        lemma_strip_leading_at(s.drop_first(), p, k - 1);
        assert(s.drop_first().skip(k - 1) =~= s.skip(k));
    } else {
        assert(s.skip(0) =~= s);
    }
}

pub proof fn lemma_strip_trailing_at(s: Seq<char>, p: spec_fn(char) -> bool, k: int)
    requires
        0 <= k <= s.len(),
        forall|j: int| k <= j < s.len() ==> p(s[j]),
        k == 0 || !p(s[k - 1]),
    ensures
        strip_trailing(s, p) == s.take(k),
    decreases s.len() - k,
{
    if k < s.len() {
        lemma_strip_trailing_at(s.drop_last(), p, k);
        assert(s.drop_last().take(k) =~= s.take(k));
    } else {
        assert(s.take(k) =~= s);
    }
}

/// `char::is_whitespace`.
pub fn is_whitespace_char(c: char) -> (b: bool)
    ensures
        b == is_ws(c),
{
    let u = c as u32;
    (0x9 <= u && u <= 0xd) || u == 0x20 || u == 0x85 || u == 0xa0 || u == 0x1680 || (0x2000 <= u
        && u <= 0x200a) || u == 0x2028 || u == 0x2029 || u == 0x202f || u == 0x205f || u == 0x3000
}

/// The characters of `s`, in order.
pub fn chars_of(s: &str) -> (v: Vec<char>)
    ensures
        v@ == s@,
{
    let mut v: Vec<char> = Vec::new();
    for c in it: s.chars()
        invariant
            v@ == it.seq().take(it.index() as int),
    {
        v.push(c);
    }
    v
}

/// Whether two strings hold the same characters.
pub fn str_eq(a: &str, b: &str) -> (r: bool)
    ensures
        r == (a@ == b@),
{
    let x = chars_of(a);
    let y = chars_of(b);
    if x.len() != y.len() {
        assert(x@.len() != y@.len());
        return false;
    }
    let mut i: usize = 0;
    while i < x.len()
        invariant
            x.len() == y.len(),
            x@ == a@,
            y@ == b@,
            i <= x.len(),
            forall|j: int| 0 <= j < i ==> x@[j] == y@[j],
        decreases x.len() - i,
    {
        if x[i] != y[i] {
            assert(x@[i as int] != y@[i as int]);
            return false;
        }
        i = i + 1;
    }
    assert(x@ =~= y@);
    true
}

/// The window `[lo, hi)` of `v` with whitespace trimmed from both ends.
pub fn trim_window(v: &Vec<char>, lo: usize, hi: usize) -> (r: (usize, usize))
    requires
        lo <= hi <= v.len(),
    ensures
        lo <= r.0 <= r.1 <= hi,
        v@.subrange(r.0 as int, r.1 as int) == trim(v@.subrange(lo as int, hi as int)),
{
    let mut a = lo;
    while a < hi && is_whitespace_char(v[a])
        invariant
            lo <= a <= hi,
            hi <= v.len(),
            forall|j: int| lo <= j < a ==> is_ws(v@[j]),
        decreases hi - a,
    {
        a = a + 1;
    }
    let mut b = hi;
    while b > a && is_whitespace_char(v[b - 1])
        invariant
            lo <= a <= b <= hi,
            hi <= v.len(),
            forall|j: int| b <= j < hi ==> is_ws(v@[j]),
        decreases b - a,
    {
        b = b - 1;
    }
    proof {
        let s = v@.subrange(lo as int, hi as int);
        lemma_strip_leading_at(s, ws(), a - lo);
        let t = s.skip(a - lo);
        assert(t =~= v@.subrange(a as int, hi as int));
        lemma_strip_trailing_at(t, ws(), b - a);
        assert(t.take(b - a) =~= v@.subrange(a as int, b as int));
    }
    (a, b)
}

/// The window `[lo, hi)` of `v` with leading whitespace removed.
pub fn trim_start_window(v: &Vec<char>, lo: usize, hi: usize) -> (r: usize)
    requires
        lo <= hi <= v.len(),
    ensures
        lo <= r <= hi,
        v@.subrange(r as int, hi as int) == trim_start(v@.subrange(lo as int, hi as int)),
{
    let mut a = lo;
    while a < hi && is_whitespace_char(v[a])
        invariant
            lo <= a <= hi,
            hi <= v.len(),
            forall|j: int| lo <= j < a ==> is_ws(v@[j]),
        decreases hi - a,
    {
        a = a + 1;
    }
    proof {
        let s = v@.subrange(lo as int, hi as int);
        lemma_strip_leading_at(s, ws(), a - lo);
        assert(s.skip(a - lo) =~= v@.subrange(a as int, hi as int));
    }
    a
}

/// The window `[lo, hi)` of `v` with every copy of `x` trimmed from both ends.
pub fn trim_char_window(v: &Vec<char>, lo: usize, hi: usize, x: char) -> (r: (usize, usize))
    requires
        lo <= hi <= v.len(),
    ensures
        lo <= r.0 <= r.1 <= hi,
        v@.subrange(r.0 as int, r.1 as int) == trim_matches(v@.subrange(lo as int, hi as int), x),
{
    let mut a = lo;
    while a < hi && v[a] == x
        invariant
            lo <= a <= hi,
            hi <= v.len(),
            forall|j: int| lo <= j < a ==> v@[j] == x,
        decreases hi - a,
    {
        a = a + 1;
    }
    let mut b = hi;
    while b > a && v[b - 1] == x
        invariant
            lo <= a <= b <= hi,
            hi <= v.len(),
            forall|j: int| b <= j < hi ==> v@[j] == x,
        decreases b - a,
    {
        b = b - 1;
    }
    proof {
        let s = v@.subrange(lo as int, hi as int);
        lemma_strip_leading_at(s, is_char(x), a - lo);
        let t = s.skip(a - lo);
        assert(t =~= v@.subrange(a as int, hi as int));
        lemma_strip_trailing_at(t, is_char(x), b - a);
        assert(t.take(b - a) =~= v@.subrange(a as int, b as int));
    }
    (a, b)
}

/// Whether `p` occurs in `v` at position `at`.
pub fn matches_at(v: &Vec<char>, at: usize, p: &Vec<char>) -> (r: bool)
    requires
        at <= v.len(),
    ensures
        r == (at + p.len() <= v.len() && v@.subrange(at as int, at + p.len()) == p@),
{
    if p.len() > v.len() - at {
        return false;
    }
    let mut j: usize = 0;
    while j < p.len()
        invariant
            at + p.len() <= v.len(),
            j <= p.len(),
            forall|i: int| 0 <= i < j ==> v@[at + i] == p@[i],
        decreases p.len() - j,
    {
        if v[at + j] != p[j] {
            assert(v@.subrange(at as int, at + p.len())[j as int] != p@[j as int]);
            return false;
        }
        j = j + 1;
    }
    assert(v@.subrange(at as int, at + p.len()) =~= p@);
    true
}

/// Whether the window `[lo, hi)` of `v` starts with `p`.
pub fn window_starts_with(v: &Vec<char>, lo: usize, hi: usize, p: &Vec<char>) -> (r: bool)
    requires
        lo <= hi <= v.len(),
    ensures
        r == starts_with(v@.subrange(lo as int, hi as int), p@),
{
    if p.len() > hi - lo {
        return false;
    }
    let r = matches_at(v, lo, p);
    assert(v@.subrange(lo as int, hi as int).take(p.len() as int) =~= v@.subrange(
        lo as int,
        lo + p.len(),
    ));
    r
}

/// The first position (relative to `lo`) at which `p` occurs in the window `[lo, hi)` of `v`.
pub fn find_in_window(v: &Vec<char>, lo: usize, hi: usize, p: &Vec<char>) -> (r: Option<usize>)
    requires
        lo <= hi <= v.len(),
    ensures
        match r {
            Some(k) => find(v@.subrange(lo as int, hi as int), p@) == Some(k as nat),
            None => find(v@.subrange(lo as int, hi as int), p@) is None,
        },
{
    let ghost s = v@.subrange(lo as int, hi as int);
    if p.len() > hi - lo {
        return None;
    }
    let last = hi - lo - p.len();
    let mut i: usize = 0;
    while i <= last
        invariant
            lo <= hi <= v.len(),
            last + p.len() == hi - lo,
            s == v@.subrange(lo as int, hi as int),
            i <= last + 1,
            find(s, p@) == find_from(s, p@, i as nat),
        decreases last + 1 - i,
    {
        let m = matches_at(v, lo + i, p);
        assert(s.subrange(i as int, i + p.len()) =~= v@.subrange(lo + i, lo + i + p.len()));
        if m {
            return Some(i);
        }
        if i == last {
            assert(find_from(s, p@, (i + 1) as nat) is None);
            return None;
        }
        i = i + 1;
    }
    None
}

/// The lines of the window `[lo, hi)` of `v`, as windows of `v`.
pub fn line_windows(v: &Vec<char>, lo: usize, hi: usize) -> (r: Vec<(usize, usize)>)
    requires
        lo <= hi <= v.len(),
    ensures
        forall|k: int| 0 <= k < r.len() ==> lo <= #[trigger] r@[k].0 <= r@[k].1 <= hi,
        windows(v@, r@) == lines(v@.subrange(lo as int, hi as int)),
{
    let mut spans: Vec<(usize, usize)> = Vec::new();
    let ghost mut pieces: Seq<Seq<char>> = Seq::empty();
    let mut st = lo;
    let mut i = lo;
    assert(v@.subrange(lo as int, lo as int) =~= Seq::<char>::empty());
    assert(split_nl(Seq::<char>::empty()) =~= pieces.push(v@.subrange(st as int, i as int)));
    while i < hi
        invariant
            lo <= st <= i <= hi <= v.len(),
            forall|k: int| 0 <= k < spans.len() ==> lo <= #[trigger] spans@[k].0 <= spans@[k].1 <= i,
            split_nl(v@.subrange(lo as int, i as int)) == pieces.push(
                v@.subrange(st as int, i as int),
            ),
            windows(v@, spans@) == pieces.map_values(|l: Seq<char>| strip_cr(l)),
        decreases hi - i,
    {
        let ghost old_spans = spans@;
        let ghost old_pieces = pieces;
        let ghost cur = v@.subrange(lo as int, i as int + 1);
        assert(cur.drop_last() =~= v@.subrange(lo as int, i as int));
        assert(cur.last() == v@[i as int]);
        if v[i] == '\n' {
            let end = if i > st && v[i - 1] == '\r' {
                i - 1
            } else {
                i
            };
            spans.push((st, end));
            assert forall|k: int| 0 <= k < spans.len() implies lo <= #[trigger] spans@[k].0
                <= spans@[k].1 <= i + 1 by {
                if k < old_spans.len() {
                    assert(spans@[k] == old_spans[k]);
                }
            }
            proof {
                let piece = v@.subrange(st as int, i as int);
                pieces = pieces.push(piece);
                assert(strip_cr(piece) =~= v@.subrange(st as int, end as int));
                assert(windows(v@, spans@) =~= pieces.map_values(|l: Seq<char>| strip_cr(l))) by {
                    assert(windows(v@, spans@) =~= windows(v@, old_spans).push(
                        v@.subrange(st as int, end as int),
                    ));
                    assert(pieces.map_values(|l: Seq<char>| strip_cr(l)) =~= old_pieces.map_values(
                        |l: Seq<char>| strip_cr(l),
                    ).push(strip_cr(piece)));
                }
                assert(v@.subrange(i + 1, i + 1) =~= Seq::<char>::empty());
            }
            st = i + 1;
        } else {
            proof {
                assert(v@.subrange(st as int, i + 1) =~= v@.subrange(st as int, i as int).push(
                    v@[i as int],
                ));
                let prev = old_pieces.push(v@.subrange(st as int, i as int));
                assert(prev.update(prev.len() - 1, prev.last().push(v@[i as int])) =~= old_pieces.push(
                    v@.subrange(st as int, i + 1),
                ));
            }
        }
        i = i + 1;
    }
    proof {
        let all = split_nl(v@.subrange(lo as int, hi as int));
        assert(all.drop_last() =~= pieces);
        assert(all.last() == v@.subrange(st as int, hi as int));
    }
    if st < hi {
        let ghost before = spans@;
        spans.push((st, hi));
        assert(windows(v@, spans@) =~= windows(v@, before).push(v@.subrange(st as int, hi as int)));
    }
    spans
}

/// The texts of a sequence of strings.
pub open spec fn views(v: Seq<String>) -> Seq<Seq<char>> {
    v.map_values(|s: String| s@)
}

/// `parts.join(sep)`.
pub fn join_strings(parts: &Vec<String>, sep: &str) -> (r: String)
    ensures
        r@ == join(views(parts@), sep@),
{
    let mut out = String::new();
    let mut i: usize = 0;
    while i < parts.len()
        invariant
            i <= parts.len(),
            out@ == join(views(parts@.take(i as int)), sep@),
        decreases parts.len() - i,
    {
        proof {
            lemma_join_push(views(parts@.take(i as int)), sep@, parts@[i as int]@);
            assert(views(parts@.take(i + 1)) =~= views(parts@.take(i as int)).push(
                parts@[i as int]@,
            ));
        }
        if i > 0 {
            out.append(sep);
        }
        out.append(parts[i].as_str());
        i = i + 1;
    }
    assert(parts@.take(parts.len() as int) =~= parts@);
    out
}

/// `find_from` gives the first occurrence at or after `i`.
pub proof fn lemma_find_from_first(s: Seq<char>, p: Seq<char>, i: nat)
    ensures
        match find_from(s, p, i) {
            Some(k) => i <= k && occurs_at(s, p, k as int) && forall|j: int|
                i <= j < k ==> !occurs_at(s, p, j),
            None => forall|j: int| i <= j ==> !occurs_at(s, p, j),
        },
    decreases s.len() + 1 - i,
{
    if i + p.len() <= s.len() && !occurs_at(s, p, i as int) {
        lemma_find_from_first(s, p, i + 1);
    }
}

/// A join is at least as long as its first part.
pub proof fn lemma_join_len(parts: Seq<Seq<char>>, sep: Seq<char>)
    requires
        parts.len() >= 1,
    ensures
        join(parts, sep).len() >= parts[0].len(),
    decreases parts.len(),
{
    if parts.len() > 1 {
        lemma_join_len(parts.drop_last(), sep);
    }
}

pub proof fn lemma_join_push(parts: Seq<Seq<char>>, sep: Seq<char>, x: Seq<char>)
    ensures
        join(parts.push(x), sep) == if parts.len() == 0 {
            x
        } else {
            join(parts, sep) + sep + x
        },
{
    assert(parts.push(x).drop_last() =~= parts);
}

} // verus!
