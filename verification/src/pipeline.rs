//! The substitution assembler and the two-stage pipeline.
//!
//! One pass scans a text for the spans of one mode and splices rendered
//! markup in place of each span, copying the text between spans verbatim.
//! The pipeline runs the inline pass over the original text and the block
//! pass over its output.  If the engine fails on any matched span, the
//! failure propagates: no partial output, no retry.

use vstd::prelude::*;

use crate::chars::text_chars;
use crate::render::{engine_render, render_formula, FormulaError};
use crate::spans::{
    block_match_at, block_span_at, block_spans_from, inline_match_at, inline_span_at,
    inline_spans_from, scan_block, scan_inline, spans_of, spans_ordered, Mode, Span,
};

verus! {

/// A block span is handed to the engine with the display flag set.
pub open spec fn is_display(mode: Mode) -> bool {
    mode is Block
}

/// Prefix a pass's remaining output with already-assembled text; a failure
/// passes through unchanged.
pub open spec fn prepend_markup(p: Seq<char>, r: Result<Seq<char>, Seq<char>>) -> Result<
    Seq<char>,
    Seq<char>,
> {
    match r {
        Ok(t) => Ok(p + t),
        Err(e) => Err(e),
    }
}

/// The text assembled from position `pos` on: the text up to the next span
/// verbatim, then that span's rendered markup, then the rest; the engine's
/// first failure, in span order, is the pass's failure.
pub open spec fn assemble_from(
    s: Seq<char>,
    spans: Seq<Span>,
    pos: int,
    display: bool,
) -> Result<Seq<char>, Seq<char>>
    decreases spans.len(),
{
    if spans.len() == 0 {
        Ok(s.subrange(pos, s.len() as int))
    } else {
        let sp = spans[0];
        match engine_render(s.subrange(sp.inner_start as int, sp.inner_end as int), display) {
            Ok(m) => prepend_markup(
                s.subrange(pos, sp.outer_start as int) + m,
                assemble_from(s, spans.drop_first(), sp.outer_end as int, display),
            ),
            Err(err) => Err(err),
        }
    }
}

/// The result of one full scan-and-substitute pass over `s`.
pub open spec fn pass_result(s: Seq<char>, mode: Mode) -> Result<Seq<char>, Seq<char>> {
    assemble_from(s, spans_of(s, mode), 0, is_display(mode))
}

/// The result of the whole pipeline: the inline pass over the original text,
/// then the block pass over its output.
pub open spec fn render_math(s: Seq<char>) -> Result<Seq<char>, Seq<char>> {
    match pass_result(s, Mode::Inline) {
        Ok(t) => pass_result(t, Mode::Block),
        Err(e) => Err(e),
    }
}

/// Spans stay ordered when the lower bound is relaxed.
pub proof fn lemma_spans_ordered_weaken(s: Seq<char>, spans: Seq<Span>, p2: int, p1: int)
    requires
        spans_ordered(s, spans, p2),
        p1 <= p2,
    ensures
        spans_ordered(s, spans, p1),
{
}

/// The inline scan from any position yields ordered, non-overlapping,
/// well-formed spans.
pub proof fn lemma_inline_spans_ordered(s: Seq<char>, pos: int)
    requires
        0 <= pos,
        s.len() <= usize::MAX,
    ensures
        spans_ordered(s, inline_spans_from(s, pos), pos),
    decreases s.len() - pos,
{
    if pos >= s.len() {
    } else if exists|j: int| inline_match_at(s, pos, j) {
        let j = choose|j: int| inline_match_at(s, pos, j);
        lemma_inline_spans_ordered(s, j + 1);
        let sps = inline_spans_from(s, pos);
        assert(sps[0] == inline_span_at(pos, j));
        assert(sps.drop_first() =~= inline_spans_from(s, j + 1));
    } else {
        lemma_inline_spans_ordered(s, pos + 1);
        lemma_spans_ordered_weaken(s, inline_spans_from(s, pos + 1), pos + 1, pos);
    }
}

/// The block scan from any position yields ordered, non-overlapping,
/// well-formed spans.
pub proof fn lemma_block_spans_ordered(s: Seq<char>, pos: int)
    requires
        0 <= pos,
        s.len() <= usize::MAX,
    ensures
        spans_ordered(s, block_spans_from(s, pos), pos),
    decreases s.len() - pos,
{
    if pos >= s.len() {
    } else if exists|e: int, j: int| block_match_at(s, pos, e, j) {
        let (e, j) = choose|e: int, j: int| block_match_at(s, pos, e, j);
        lemma_block_spans_ordered(s, j + 2);
        let sps = block_spans_from(s, pos);
        assert(sps[0] == block_span_at(pos, e, j));
        assert(sps.drop_first() =~= block_spans_from(s, j + 2));
    } else {
        lemma_block_spans_ordered(s, pos + 1);
        lemma_spans_ordered_weaken(s, block_spans_from(s, pos + 1), pos + 1, pos);
    }
}

/// Splicing already-assembled text in front twice is splicing it once.
proof fn lemma_prepend_prepend(p: Seq<char>, q: Seq<char>, r: Result<Seq<char>, Seq<char>>)
    ensures
        prepend_markup(p, prepend_markup(q, r)) == prepend_markup(p + q, r),
{
    if r is Ok {
        assert(p + (q + r->Ok_0) =~= (p + q) + r->Ok_0);
    }
}

/// The substitution assembler: copy the text before each span verbatim,
/// splice in the rendered markup of each span's formula in span order, and
/// copy the trailing text; fail fast on the engine's first failure.
pub(crate) fn apply_spans(text: &str, spans: &Vec<Span>, display: bool) -> (r: Result<
    String,
    FormulaError,
>)
    requires
        spans_ordered(text@, spans@, 0),
    ensures
        r is Ok <==> assemble_from(text@, spans@, 0, display) is Ok,
        r is Ok ==> r->Ok_0@ == assemble_from(text@, spans@, 0, display)->Ok_0,
        r is Err ==> r->Err_0.reason@ == assemble_from(text@, spans@, 0, display)->Err_0,
{
    let n: usize = text.unicode_len();
    let mut out = String::new();
    let mut k: usize = 0;
    let mut last: usize = 0;
    proof {
        assert(spans@.skip(0) =~= spans@);
    }
    while k < spans.len()
        invariant
            k <= spans@.len(),
            n == text@.len(),
            last <= n,
            spans_ordered(text@, spans@.skip(k as int), last as int),
            assemble_from(text@, spans@, 0, display) == prepend_markup(
                out@,
                assemble_from(text@, spans@.skip(k as int), last as int, display),
            ),
        decreases spans@.len() - k,
    {
        let sp = spans[k];
        proof {
            assert(spans@.skip(k as int)[0] == sp);
            assert(spans@.skip(k as int).drop_first() =~= spans@.skip(k as int + 1));
        }
        let pre = text.substring_char(last, sp.outer_start);
        let formula = text.substring_char(sp.inner_start, sp.inner_end);
        match render_formula(formula, display) {
            Ok(markup) => {
                proof {
                    lemma_prepend_prepend(
                        out@,
                        pre@ + markup@,
                        assemble_from(
                            text@,
                            spans@.skip(k as int + 1),
                            sp.outer_end as int,
                            display,
                        ),
                    );
                }
                let ghost out_before = out@;
                out.append(pre);
                out.append(markup.as_str());
                proof {
                    assert(out@ =~= out_before + (pre@ + markup@));
                }
                last = sp.outer_end;
                k = k + 1;
            },
            Err(reason) => {
                return Err(FormulaError { reason });
            },
        }
    }
    proof {
        assert(spans@.skip(k as int) =~= Seq::<Span>::empty());
    }
    let ghost out_before = out@;
    let tail = text.substring_char(last, n);
    out.append(tail);
    proof {
        assert(out@ =~= out_before + text@.subrange(last as int, text@.len() as int));
    }
    Ok(out)
}

/// One full pass: scan `text` for the spans of `mode` and assemble the
/// substituted text.
pub fn run_pass(text: &str, mode: Mode) -> (r: Result<String, FormulaError>)
    ensures
        r is Ok <==> pass_result(text@, mode) is Ok,
        r is Ok ==> r->Ok_0@ == pass_result(text@, mode)->Ok_0,
        r is Err ==> r->Err_0.reason@ == pass_result(text@, mode)->Err_0,
{
    let t = text_chars(text);
    let _n: usize = t.len();
    let spans = match mode {
        Mode::Inline => scan_inline(&t),
        Mode::Block => scan_block(&t),
    };
    proof {
        match mode {
            Mode::Inline => lemma_inline_spans_ordered(text@, 0),
            Mode::Block => lemma_block_spans_ordered(text@, 0),
        }
    }
    let display = match mode {
        Mode::Inline => false,
        Mode::Block => true,
    };
    apply_spans(text, &spans, display)
}

} // verus!
