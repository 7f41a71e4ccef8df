//! Laws of the pipeline: identity on marker-free text, and non-interference
//! with the regions a matched span does not touch.

use vstd::prelude::*;

use crate::chars::is_marker;
use crate::pipeline::{
    assemble_from, is_display, lemma_block_spans_ordered, lemma_inline_spans_ordered, pass_result,
    prepend_markup, render_math,
};
use crate::render::engine_render;
use crate::spans::{block_spans_from, inline_spans_from, spans_of, spans_ordered, Mode, Span};

verus! {

/// No inline span opens in marker-free text.
proof fn lemma_inline_spans_empty(s: Seq<char>, pos: int)
    requires
        0 <= pos,
        forall|k: int| 0 <= k < s.len() ==> !is_marker(s[k]),
    ensures
        inline_spans_from(s, pos) == Seq::<Span>::empty(),
    decreases s.len() - pos,
{
    if pos < s.len() {
        lemma_inline_spans_empty(s, pos + 1);
    }
}

/// No block span opens in marker-free text.
proof fn lemma_block_spans_empty(s: Seq<char>, pos: int)
    requires
        0 <= pos,
        forall|k: int| 0 <= k < s.len() ==> !is_marker(s[k]),
    ensures
        block_spans_from(s, pos) == Seq::<Span>::empty(),
    decreases s.len() - pos,
{
    if pos < s.len() {
        lemma_block_spans_empty(s, pos + 1);
    }
}

/// A pass that matches no span returns its input unchanged.
pub proof fn lemma_empty_pass(s: Seq<char>, mode: Mode)
    requires
        spans_of(s, mode) == Seq::<Span>::empty(),
    ensures
        pass_result(s, mode) == Ok::<Seq<char>, Seq<char>>(s),
{
    assert(s.subrange(0, s.len() as int) =~= s);
}

/// Identity on non-math text: a text containing no marker character passes
/// through the whole pipeline unchanged.
pub proof fn lemma_no_marker_identity(s: Seq<char>)
    requires
        forall|k: int| 0 <= k < s.len() ==> !is_marker(s[k]),
    ensures
        render_math(s) == Ok::<Seq<char>, Seq<char>>(s),
{
    lemma_inline_spans_empty(s, 0);
    lemma_block_spans_empty(s, 0);
    lemma_empty_pass(s, Mode::Inline);
    lemma_empty_pass(s, Mode::Block);
}

/// Non-interference with untouched regions, for one pass: when a pass
/// matches exactly one valid span and the span's formula renders, the text
/// before the span's outer start and after its outer end stands in the
/// output exactly as in the input.
pub proof fn lemma_single_span_pass(s: Seq<char>, mode: Mode, sp: Span, m: Seq<char>)
    requires
        spans_of(s, mode) == seq![sp],
        engine_render(s.subrange(sp.inner_start as int, sp.inner_end as int), is_display(mode))
            == Ok::<Seq<char>, Seq<char>>(m),
    ensures
        pass_result(s, mode) == Ok::<Seq<char>, Seq<char>>(
            s.subrange(0, sp.outer_start as int) + m + s.subrange(
                sp.outer_end as int,
                s.len() as int,
            ),
        ),
{
    let spans = spans_of(s, mode);
    assert(spans[0] == sp);
    assert(spans.drop_first() =~= Seq::<Span>::empty());
    assert(assemble_from(s, spans.drop_first(), sp.outer_end as int, is_display(mode))
        == Ok::<Seq<char>, Seq<char>>(s.subrange(sp.outer_end as int, s.len() as int)));
    assert(pass_result(s, mode) == prepend_markup(
        s.subrange(0, sp.outer_start as int) + m,
        Ok::<Seq<char>, Seq<char>>(s.subrange(sp.outer_end as int, s.len() as int)),
    ));
    assert((s.subrange(0, sp.outer_start as int) + m) + s.subrange(
        sp.outer_end as int,
        s.len() as int,
    ) =~= s.subrange(0, sp.outer_start as int) + m + s.subrange(
        sp.outer_end as int,
        s.len() as int,
    ));
}

/// The text before the first span stands at the head of a successful pass's
/// output unchanged, whatever the number of spans.
pub proof fn lemma_output_prefix(s: Seq<char>, spans: Seq<Span>, pos: int, display: bool)
    requires
        spans.len() > 0,
        0 <= pos,
        spans_ordered(s, spans, pos),
        assemble_from(s, spans, pos, display) is Ok,
    ensures
        ({
            let out = assemble_from(s, spans, pos, display)->Ok_0;
            &&& out.len() >= spans[0].outer_start - pos
            &&& out.subrange(0, spans[0].outer_start - pos) == s.subrange(
                pos,
                spans[0].outer_start as int,
            )
        }),
{
    let sp = spans[0];
    let m = engine_render(s.subrange(sp.inner_start as int, sp.inner_end as int), display)->Ok_0;
    let rest = assemble_from(s, spans.drop_first(), sp.outer_end as int, display)->Ok_0;
    let out = assemble_from(s, spans, pos, display)->Ok_0;
    let ln = sp.outer_start - pos;
    assert(out =~= (s.subrange(pos, sp.outer_start as int) + m) + rest);
    assert forall|k: int| 0 <= k < ln implies #[trigger] out.subrange(0, ln)[k] == s.subrange(
        pos,
        sp.outer_start as int,
    )[k] by {
        assert(out[k] == s.subrange(pos, sp.outer_start as int)[k]);
    }
    assert(out.subrange(0, ln) =~= s.subrange(pos, sp.outer_start as int));
}

/// The text from the last span's outer end to the end of the input stands at
/// the tail of a successful pass's output unchanged, whatever the number of
/// spans.
pub proof fn lemma_output_suffix(s: Seq<char>, spans: Seq<Span>, pos: int, display: bool)
    requires
        0 <= pos <= s.len(),
        spans_ordered(s, spans, pos),
        assemble_from(s, spans, pos, display) is Ok,
    ensures
        ({
            let out = assemble_from(s, spans, pos, display)->Ok_0;
            let tail = if spans.len() == 0 {
                pos
            } else {
                spans.last().outer_end as int
            };
            &&& tail <= s.len()
            &&& out.len() >= s.len() - tail
            &&& out.subrange(out.len() - (s.len() - tail), out.len() as int) == s.subrange(
                tail,
                s.len() as int,
            )
        }),
    decreases spans.len(),
{
    let out = assemble_from(s, spans, pos, display)->Ok_0;
    if spans.len() == 0 {
        assert(out.subrange(0, out.len() as int) =~= s.subrange(pos, s.len() as int));
    } else {
        let sp = spans[0];
        let rest_spans = spans.drop_first();
        lemma_output_suffix(s, rest_spans, sp.outer_end as int, display);
        if spans.len() > 1 {
            assert(rest_spans.last() == spans.last());
        } else {
            assert(spans.last() == sp);
        }
        let tail = spans.last().outer_end as int;
        let ln = s.len() - tail;
        let m = engine_render(
            s.subrange(sp.inner_start as int, sp.inner_end as int),
            display,
        )->Ok_0;
        let rest = assemble_from(s, rest_spans, sp.outer_end as int, display)->Ok_0;
        assert(tail <= s.len());
        assert(rest.len() >= ln);
        assert(rest.subrange(rest.len() - ln, rest.len() as int) == s.subrange(
            tail,
            s.len() as int,
        ));
        assert(out =~= (s.subrange(pos, sp.outer_start as int) + m) + rest);
        assert(out.len() >= rest.len());
        assert forall|k: int| 0 <= k < ln implies #[trigger] out.subrange(
            out.len() - ln,
            out.len() as int,
        )[k] == rest.subrange(rest.len() - ln, rest.len() as int)[k] by {
            assert(out[out.len() - ln + k] == rest[rest.len() - ln + k]);
        }
        assert(out.subrange(out.len() - ln, out.len() as int) =~= rest.subrange(
            rest.len() - ln,
            rest.len() as int,
        ));
    }
}

/// A successful pass preserves the document's ends: its output begins with
/// the text before the first span and ends with the text after the last.
pub proof fn lemma_pass_preserves_document_ends(s: Seq<char>, mode: Mode)
    requires
        s.len() <= usize::MAX,
        spans_of(s, mode).len() > 0,
        pass_result(s, mode) is Ok,
    ensures
        ({
            let spans = spans_of(s, mode);
            let out = pass_result(s, mode)->Ok_0;
            let tail = spans.last().outer_end as int;
            &&& out.len() >= spans[0].outer_start
            &&& out.subrange(0, spans[0].outer_start as int) == s.subrange(
                0,
                spans[0].outer_start as int,
            )
            &&& out.len() >= s.len() - tail
            &&& out.subrange(out.len() - (s.len() - tail), out.len() as int) == s.subrange(
                tail,
                s.len() as int,
            )
        }),
{
    match mode {
        Mode::Inline => lemma_inline_spans_ordered(s, 0),
        Mode::Block => lemma_block_spans_ordered(s, 0),
    }
    lemma_output_prefix(s, spans_of(s, mode), 0, is_display(mode));
    lemma_output_suffix(s, spans_of(s, mode), 0, is_display(mode));
}

/// Non-interference through the whole pipeline, inline case: when the input
/// holds exactly one valid span — an inline one, whose formula renders, with
/// no block span arising in the inline pass's output — everything outside
/// the span's outer extent is preserved byte for byte.
pub proof fn lemma_single_inline_span_pipeline(s: Seq<char>, sp: Span, m: Seq<char>)
    requires
        spans_of(s, Mode::Inline) == seq![sp],
        engine_render(s.subrange(sp.inner_start as int, sp.inner_end as int), false)
            == Ok::<Seq<char>, Seq<char>>(m),
        spans_of(
            s.subrange(0, sp.outer_start as int) + m + s.subrange(
                sp.outer_end as int,
                s.len() as int,
            ),
            Mode::Block,
        ) == Seq::<Span>::empty(),
    ensures
        render_math(s) == Ok::<Seq<char>, Seq<char>>(
            s.subrange(0, sp.outer_start as int) + m + s.subrange(
                sp.outer_end as int,
                s.len() as int,
            ),
        ),
{
    lemma_single_span_pass(s, Mode::Inline, sp, m);
    lemma_empty_pass(
        s.subrange(0, sp.outer_start as int) + m + s.subrange(sp.outer_end as int, s.len() as int),
        Mode::Block,
    );
}

/// Non-interference through the whole pipeline, block case: when the input
/// holds exactly one valid span — a block one whose formula renders, with no
/// inline span anywhere — everything outside the span's outer extent is
/// preserved byte for byte.
pub proof fn lemma_single_block_span_pipeline(s: Seq<char>, sp: Span, m: Seq<char>)
    requires
        spans_of(s, Mode::Inline) == Seq::<Span>::empty(),
        spans_of(s, Mode::Block) == seq![sp],
        engine_render(s.subrange(sp.inner_start as int, sp.inner_end as int), true)
            == Ok::<Seq<char>, Seq<char>>(m),
    ensures
        render_math(s) == Ok::<Seq<char>, Seq<char>>(
            s.subrange(0, sp.outer_start as int) + m + s.subrange(
                sp.outer_end as int,
                s.len() as int,
            ),
        ),
{
    lemma_empty_pass(s, Mode::Inline);
    lemma_single_span_pass(s, Mode::Block, sp, m);
}

} // verus!
