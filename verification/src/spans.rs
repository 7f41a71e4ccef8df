//! The span data model and the scanning rules.
//!
//! A scan of a text yields an ordered, non-overlapping sequence of spans.
//! Each span records the extent of the whole delimited region
//! (`outer_start .. outer_end`) and of the formula text inside it
//! (`inner_start .. inner_end`).  The rules that decide whether a
//! marker-delimited region is a genuine formula — rather than an incidental
//! use of the marker character, such as a currency amount — are local
//! lookaround conditions on the characters beside each delimiter.

use vstd::prelude::*;

use crate::chars::{digit_char, hws_char, is_digit, is_hws, is_marker, is_ws, ws_char};

verus! {

/// Whether a span is rendered in running text or as a standalone display
/// element.
#[derive(Clone, Copy, PartialEq, Eq, Structural, Debug)]
pub enum Mode {
    Inline,
    Block,
}

/// A located math span.  The text at `outer_start .. inner_start` and
/// `inner_end .. outer_end` is exactly the opening/closing marker sequence
/// (plus, for block spans, a trimmed whitespace-only tail line).
#[derive(Clone, Copy, PartialEq, Eq, Structural, Debug)]
pub struct Span {
    pub outer_start: usize,
    pub inner_start: usize,
    pub inner_end: usize,
    pub outer_end: usize,
    pub mode: Mode,
}

impl Span {
    /// The bounds are ordered and lie within a text of length `n`.
    pub open spec fn wf(self, n: int) -> bool {
        self.outer_start <= self.inner_start <= self.inner_end <= self.outer_end <= n
    }
}

/// The spans lie in order at or after position `pos`, without overlap,
/// each well formed for the text `s`.
pub open spec fn spans_ordered(s: Seq<char>, spans: Seq<Span>, pos: int) -> bool
    decreases spans.len(),
{
    spans.len() == 0 || {
        &&& pos <= spans[0].outer_start
        &&& spans[0].wf(s.len() as int)
        &&& spans_ordered(s, spans.drop_first(), spans[0].outer_end as int)
    }
}

/// A valid inline span opens at `i`: an unescaped marker that is not part of
/// a double marker, whose following character is neither whitespace nor a
/// marker.
pub open spec fn inline_open_at(s: Seq<char>, i: int) -> bool {
    &&& 0 <= i && i + 1 < s.len()
    &&& is_marker(s[i])
    &&& i > 0 ==> s[i - 1] != '\\' && !is_marker(s[i - 1])
    &&& !is_ws(s[i + 1]) && !is_marker(s[i + 1])
}

/// The inline span opened at `i` closes at `j`: the first marker after the
/// inner text, preceded by neither whitespace nor a backslash, and followed
/// by neither a digit nor another marker.
pub open spec fn inline_close_at(s: Seq<char>, i: int, j: int) -> bool {
    &&& i + 1 < j < s.len()
    &&& is_marker(s[j])
    &&& forall|k: int| i < k < j ==> !is_marker(s[k])
    &&& !is_ws(s[j - 1]) && s[j - 1] != '\\'
    &&& j + 1 < s.len() ==> !is_digit(s[j + 1]) && !is_marker(s[j + 1])
}

/// A valid inline span stands at `i .. j+1`.
pub open spec fn inline_match_at(s: Seq<char>, i: int, j: int) -> bool {
    inline_open_at(s, i) && inline_close_at(s, i, j)
}

/// The inline span delimited by the markers at `i` and `j`.
pub open spec fn inline_span_at(i: int, j: int) -> Span {
    Span {
        outer_start: i as usize,
        inner_start: (i + 1) as usize,
        inner_end: j as usize,
        outer_end: (j + 1) as usize,
        mode: Mode::Inline,
    }
}

/// The rest of the line after the opening double marker at `i` is horizontal
/// whitespace up to the line break at `m`, and the next line's first
/// character, at `p`, is neither whitespace nor a marker: the conventional
/// layout where the opening delimiter stands alone on its own line.
pub open spec fn block_own_line_at(s: Seq<char>, i: int, m: int, p: int) -> bool {
    &&& i + 2 <= m < p < s.len()
    &&& forall|k: int| i + 2 <= k < m ==> is_hws(s[k])
    &&& s[m] == '\n'
    &&& forall|k: int| m < k < p ==> is_hws(s[k])
    &&& !is_ws(s[p]) && !is_marker(s[p])
}

/// What may follow an opening double marker: either a non-whitespace
/// character directly, or a whitespace-only line end and a following line
/// that is non-empty and does not start with the marker.
pub open spec fn block_lookahead_ok(s: Seq<char>, i: int) -> bool {
    ||| (i + 2 < s.len() && !is_ws(s[i + 2]))
    ||| (exists|m: int, p: int| block_own_line_at(s, i, m, p))
}

/// A valid block span opens at `i`: a double marker not preceded by a
/// backslash, with an admissible continuation.
pub open spec fn block_open_at(s: Seq<char>, i: int) -> bool {
    &&& 0 <= i && i + 1 < s.len()
    &&& is_marker(s[i]) && is_marker(s[i + 1])
    &&& i > 0 ==> s[i - 1] != '\\'
    &&& block_lookahead_ok(s, i)
}

/// The characters at `e .. j` form a single whitespace-only line: horizontal
/// whitespace around exactly one line break, at `m`.
pub open spec fn trailer_line_at(s: Seq<char>, e: int, j: int, m: int) -> bool {
    &&& e <= m < j
    &&& s[m] == '\n'
    &&& forall|k: int| e <= k < j && k != m ==> is_hws(#[trigger] s[k])
}

/// The region between the trimmed inner text and the closing double marker
/// is either empty or a single whitespace-only line.
pub open spec fn block_trailer_ok(s: Seq<char>, e: int, j: int) -> bool {
    ||| e == j
    ||| (exists|m: int| trailer_line_at(s, e, j, m))
}

/// The block span opened at `i` has inner text `i+2 .. e` and closes with the
/// double marker at `j`, `j+1`: the inner text is free of markers, ends at a
/// non-whitespace character, and is followed by at most one whitespace-only
/// line before the closing delimiter.
pub open spec fn block_close_at(s: Seq<char>, i: int, e: int, j: int) -> bool {
    &&& i + 2 < e <= j && j + 1 < s.len()
    &&& is_marker(s[j]) && is_marker(s[j + 1])
    &&& forall|k: int| i + 2 <= k < j ==> !is_marker(s[k])
    &&& !is_ws(s[e - 1])
    &&& block_trailer_ok(s, e, j)
}

/// A valid block span stands at `i .. j+2`.
pub open spec fn block_match_at(s: Seq<char>, i: int, e: int, j: int) -> bool {
    block_open_at(s, i) && block_close_at(s, i, e, j)
}

/// The block span delimited by the double markers at `i` and `j`, with inner
/// text ending at `e`.
pub open spec fn block_span_at(i: int, e: int, j: int) -> Span {
    Span {
        outer_start: i as usize,
        inner_start: (i + 2) as usize,
        inner_end: e as usize,
        outer_end: (j + 2) as usize,
        mode: Mode::Block,
    }
}

/// The inline spans of `s` from position `pos` on: the leftmost valid span
/// is taken, and scanning resumes immediately after its outer end, so spans
/// never overlap or nest.
pub open spec fn inline_spans_from(s: Seq<char>, pos: int) -> Seq<Span>
    decreases s.len() - pos,
{
    if pos >= s.len() {
        Seq::empty()
    } else if exists|j: int| inline_match_at(s, pos, j) {
        let j = choose|j: int| inline_match_at(s, pos, j);
        seq![inline_span_at(pos, j)] + inline_spans_from(s, j + 1)
    } else {
        inline_spans_from(s, pos + 1)
    }
}

/// The block spans of `s` from position `pos` on, under the same leftmost,
/// non-overlapping discipline.
pub open spec fn block_spans_from(s: Seq<char>, pos: int) -> Seq<Span>
    decreases s.len() - pos,
{
    if pos >= s.len() {
        Seq::empty()
    } else if exists|e: int, j: int| block_match_at(s, pos, e, j) {
        let (e, j) = choose|e: int, j: int| block_match_at(s, pos, e, j);
        seq![block_span_at(pos, e, j)] + block_spans_from(s, j + 2)
    } else {
        block_spans_from(s, pos + 1)
    }
}

/// The span sequence of one scanning pass over `s`.
pub open spec fn spans_of(s: Seq<char>, mode: Mode) -> Seq<Span> {
    match mode {
        Mode::Inline => inline_spans_from(s, 0),
        Mode::Block => block_spans_from(s, 0),
    }
}

/// Two closing positions for one inline opening coincide: the closing marker
/// is the first marker after the opening.
proof fn lemma_inline_close_unique(s: Seq<char>, i: int, j1: int, j2: int)
    requires
        inline_match_at(s, i, j1),
        inline_match_at(s, i, j2),
    ensures
        j1 == j2,
{
    if j1 < j2 {
        assert(!is_marker(s[j1]));
    }
    if j2 < j1 {
        assert(!is_marker(s[j2]));
    }
}

/// The first marker at or after `from`, or `t.len()` if there is none.
fn find_marker(t: &Vec<char>, from: usize) -> (r: usize)
    requires
        from <= t@.len(),
    ensures
        from <= r <= t@.len(),
        forall|k: int| from <= k < r ==> !is_marker(t@[k]),
        r < t@.len() ==> is_marker(t@[r as int]),
{
    let n: usize = t.len();
    let mut r: usize = from;
    while r < n && t[r] != '$'
        invariant
            from <= r <= n,
            n == t@.len(),
            forall|k: int| from <= k < r ==> !is_marker(t@[k]),
        decreases n - r,
    {
        r = r + 1;
    }
    r
}

/// Decide [`block_lookahead_ok`] at the opening double marker at `pos`.
fn block_lookahead(t: &Vec<char>, pos: usize) -> (b: bool)
    requires
        pos + 2 <= t@.len(),
    ensures
        b == block_lookahead_ok(t@, pos as int),
{
    let n: usize = t.len();
    if pos + 2 < n && !ws_char(t[pos + 2]) {
        return true;
    }
    let mut m: usize = pos + 2;
    while m < n && hws_char(t[m])
        invariant
            pos + 2 <= m <= n,
            n == t@.len(),
            forall|k: int| pos + 2 <= k < m ==> is_hws(t@[k]),
        decreases n - m,
    {
        m = m + 1;
    }
    if m < n && t[m] == '\n' {
        let mut p: usize = m + 1;
        while p < n && hws_char(t[p])
            invariant
                m + 1 <= p <= n,
                n == t@.len(),
                forall|k: int| m < k < p ==> is_hws(t@[k]),
            decreases n - p,
        {
            p = p + 1;
        }
        if p < n && !ws_char(t[p]) && t[p] != '$' {
            assert(block_own_line_at(t@, pos as int, m as int, p as int));
            return true;
        }
        proof {
            assert forall|mm: int, pp: int| !block_own_line_at(t@, pos as int, mm, pp) by {
                if block_own_line_at(t@, pos as int, mm, pp) {
                    if mm < m {
                        assert(is_hws(t@[mm]));
                    }
                    if mm > m {
                        assert(is_hws(t@[m as int]));
                    }
                    assert(mm == m);
                    if pp < p {
                        assert(is_hws(t@[pp]));
                    }
                    if pp > p {
                        assert(is_hws(t@[p as int]));
                    }
                    assert(pp == p);
                    assert(false);
                }
            }
        }
        return false;
    }
    proof {
        assert forall|mm: int, pp: int| !block_own_line_at(t@, pos as int, mm, pp) by {
            if block_own_line_at(t@, pos as int, mm, pp) {
                if mm < m {
                    assert(is_hws(t@[mm]));
                }
                if mm > m {
                    assert(m < n);
                    assert(is_hws(t@[m as int]));
                }
                assert(mm == m);
                assert(false);
            }
        }
    }
    false
}

/// Decide [`block_trailer_ok`] for the region `e .. j` before a closing
/// double marker.
fn block_trailer(t: &Vec<char>, e: usize, j: usize) -> (b: bool)
    requires
        e <= j <= t@.len(),
    ensures
        b == block_trailer_ok(t@, e as int, j as int),
{
    if e == j {
        return true;
    }
    let mut m: usize = e;
    while m < j && hws_char(t[m])
        invariant
            e <= m <= j,
            j <= t@.len(),
            forall|k: int| e <= k < m ==> is_hws(t@[k]),
        decreases j - m,
    {
        m = m + 1;
    }
    if m < j && t[m] == '\n' {
        let mut q: usize = m + 1;
        while q < j && hws_char(t[q])
            invariant
                m + 1 <= q <= j,
                j <= t@.len(),
                forall|k: int| m < k < q ==> is_hws(t@[k]),
            decreases j - q,
        {
            q = q + 1;
        }
        if q == j {
            assert(trailer_line_at(t@, e as int, j as int, m as int));
            return true;
        }
        proof {
            assert forall|mm: int| !trailer_line_at(t@, e as int, j as int, mm) by {
                if trailer_line_at(t@, e as int, j as int, mm) {
                    if mm != m {
                        assert(is_hws(t@[m as int]));
                    }
                    assert(mm == m);
                    assert(is_hws(t@[q as int]));
                    assert(false);
                }
            }
        }
        return false;
    }
    proof {
        assert forall|mm: int| !trailer_line_at(t@, e as int, j as int, mm) by {
            if trailer_line_at(t@, e as int, j as int, mm) {
                if mm < m {
                    assert(is_hws(t@[mm]));
                }
                if mm >= m {
                    assert(m < j);
                    assert(is_hws(t@[m as int]));
                }
                assert(false);
            }
        }
    }
    false
}

/// Two block spans with one opening coincide: the closing pair is the first
/// marker after the opening, and the inner end is pinned by the trimming
/// rule.
proof fn lemma_block_close_unique(s: Seq<char>, i: int, e1: int, j1: int, e2: int, j2: int)
    requires
        block_match_at(s, i, e1, j1),
        block_match_at(s, i, e2, j2),
    ensures
        e1 == e2,
        j1 == j2,
{
    if j1 < j2 {
        assert(!is_marker(s[j1]));
    }
    if j2 < j1 {
        assert(!is_marker(s[j2]));
    }
    assert(j1 == j2);
    if e1 < e2 {
        assert(block_trailer_ok(s, e1, j1));
        assert(e1 != j1);
        let m = choose|m: int| trailer_line_at(s, e1, j1, m);
        if e2 - 1 == m {
            assert(is_ws(s[e2 - 1]));
        } else {
            assert(is_hws(s[e2 - 1]));
        }
        assert(false);
    }
    if e2 < e1 {
        assert(block_trailer_ok(s, e2, j2));
        assert(e2 != j2);
        let m = choose|m: int| trailer_line_at(s, e2, j2, m);
        if e1 - 1 == m {
            assert(is_ws(s[e1 - 1]));
        } else {
            assert(is_hws(s[e1 - 1]));
        }
        assert(false);
    }
}

/// Scan `t` for its block spans.
pub fn scan_block(t: &Vec<char>) -> (spans: Vec<Span>)
    ensures
        spans@ == block_spans_from(t@, 0),
{
    let n: usize = t.len();
    let mut spans: Vec<Span> = Vec::new();
    let mut pos: usize = 0;
    while pos < n
        invariant
            pos <= n,
            n == t@.len(),
            block_spans_from(t@, 0) == spans@ + block_spans_from(t@, pos as int),
        decreases n - pos,
    {
        let open_ok = t[pos] == '$' && pos + 1 < n && t[pos + 1] == '$'
            && (pos == 0 || t[pos - 1] != '\\') && block_lookahead(t, pos);
        if open_ok {
            assert(block_open_at(t@, pos as int));
            let j: usize = find_marker(t, pos + 2);
            if j < n && j + 1 < n && t[j + 1] == '$' {
                let mut e: usize = j;
                while e > pos + 2 && ws_char(t[e - 1])
                    invariant
                        pos + 2 <= e <= j,
                        n == t@.len(),
                        j < n,
                        forall|k: int| e <= k < j ==> is_ws(t@[k]),
                    decreases e,
                {
                    e = e - 1;
                }
                if e > pos + 2 && block_trailer(t, e, j) {
                    assert(block_close_at(t@, pos as int, e as int, j as int));
                    assert(block_match_at(t@, pos as int, e as int, j as int));
                    proof {
                        let (ee, jj) = choose|ee: int, jj: int|
                            block_match_at(t@, pos as int, ee, jj);
                        lemma_block_close_unique(t@, pos as int, ee, jj, e as int, j as int);
                        assert(block_spans_from(t@, pos as int) == seq![
                            block_span_at(pos as int, e as int, j as int),
                        ] + block_spans_from(t@, j as int + 2));
                    }
                    let sp = Span {
                        outer_start: pos,
                        inner_start: pos + 2,
                        inner_end: e,
                        outer_end: j + 2,
                        mode: Mode::Block,
                    };
                    assert(sp == block_span_at(pos as int, e as int, j as int));
                    spans.push(sp);
                    proof {
                        assert(block_spans_from(t@, 0) =~= spans@ + block_spans_from(
                            t@,
                            j as int + 2,
                        ));
                    }
                    pos = j + 2;
                } else {
                    proof {
                        assert forall|ee: int, jj: int|
                            !block_match_at(t@, pos as int, ee, jj) by {
                            if block_match_at(t@, pos as int, ee, jj) {
                                if jj < j {
                                    assert(!is_marker(t@[jj]));
                                }
                                if jj > j {
                                    assert(!is_marker(t@[j as int]));
                                }
                                assert(jj == j);
                                if ee > e {
                                    assert(is_ws(t@[ee - 1]));
                                }
                                if ee < e {
                                    assert(block_trailer_ok(t@, ee, jj));
                                    assert(ee != jj);
                                    let mm = choose|mm: int| trailer_line_at(t@, ee, jj, mm);
                                    if e as int - 1 == mm {
                                        assert(is_ws(t@[e as int - 1]));
                                    } else {
                                        assert(is_hws(t@[e as int - 1]));
                                    }
                                }
                                assert(ee == e);
                                assert(block_trailer_ok(t@, e as int, j as int));
                                assert(false);
                            }
                        }
                    }
                    pos = pos + 1;
                }
            } else {
                proof {
                    assert forall|ee: int, jj: int| !block_match_at(t@, pos as int, ee, jj) by {
                        if block_match_at(t@, pos as int, ee, jj) {
                            if jj < j {
                                assert(!is_marker(t@[jj]));
                            }
                            if jj > j {
                                assert(j < n);
                                assert(!is_marker(t@[j as int]));
                            }
                            assert(jj == j);
                            assert(false);
                        }
                    }
                }
                pos = pos + 1;
            }
        } else {
            proof {
                assert(!block_open_at(t@, pos as int));
                assert(forall|ee: int, jj: int| !block_match_at(t@, pos as int, ee, jj));
            }
            pos = pos + 1;
        }
    }
    proof {
        assert(spans@ =~= spans@ + block_spans_from(t@, n as int));
    }
    spans
}

/// Scan `t` for its inline spans.
pub fn scan_inline(t: &Vec<char>) -> (spans: Vec<Span>)
    ensures
        spans@ == inline_spans_from(t@, 0),
{
    let n: usize = t.len();
    let mut spans: Vec<Span> = Vec::new();
    let mut pos: usize = 0;
    while pos < n
        invariant
            pos <= n,
            n == t@.len(),
            inline_spans_from(t@, 0) == spans@ + inline_spans_from(t@, pos as int),
        decreases n - pos,
    {
        let open_ok = t[pos] == '$' && (pos == 0 || (t[pos - 1] != '\\' && t[pos - 1] != '$'))
            && pos + 1 < n && !ws_char(t[pos + 1]) && t[pos + 1] != '$';
        if open_ok {
            assert(inline_open_at(t@, pos as int));
            let j: usize = find_marker(t, pos + 2);
            let close_ok = j < n && !ws_char(t[j - 1]) && t[j - 1] != '\\'
                && (j + 1 >= n || (!digit_char(t[j + 1]) && t[j + 1] != '$'));
            if close_ok {
                assert(inline_match_at(t@, pos as int, j as int));
                proof {
                    let jj = choose|jj: int| inline_match_at(t@, pos as int, jj);
                    lemma_inline_close_unique(t@, pos as int, jj, j as int);
                    assert(inline_spans_from(t@, pos as int) == seq![
                        inline_span_at(pos as int, j as int),
                    ] + inline_spans_from(t@, j as int + 1));
                }
                let sp = Span {
                    outer_start: pos,
                    inner_start: pos + 1,
                    inner_end: j,
                    outer_end: j + 1,
                    mode: Mode::Inline,
                };
                assert(sp == inline_span_at(pos as int, j as int));
                spans.push(sp);
                proof {
                    assert(inline_spans_from(t@, 0) =~= spans@ + inline_spans_from(
                        t@,
                        j as int + 1,
                    ));
                }
                pos = j + 1;
            } else {
                proof {
                    assert forall|jj: int| !inline_match_at(t@, pos as int, jj) by {
                        if inline_match_at(t@, pos as int, jj) {
                            if jj < j {
                                assert(!is_marker(t@[jj]));
                            }
                            if jj > j {
                                assert(j < n);
                                assert(!is_marker(t@[j as int]));
                            }
                            assert(jj == j);
                            assert(false);
                        }
                    }
                }
                pos = pos + 1;
            }
        } else {
            proof {
                assert(!inline_open_at(t@, pos as int));
                assert(forall|jj: int| !inline_match_at(t@, pos as int, jj));
            }
            pos = pos + 1;
        }
    }
    proof {
        assert(spans@ =~= spans@ + inline_spans_from(t@, n as int));
    }
    spans
}

} // verus!
