//! Locates mathematical-notation spans in prose text — inline spans delimited
//! by a single `$` on each side, block spans delimited by `$$` — and replaces
//! each span with typeset markup from an external formula-rendering engine,
//! leaving all surrounding text unchanged.

use vstd::prelude::*;

pub mod chars;
pub mod laws;
pub mod pipeline;
pub mod render;
pub mod spans;

pub use pipeline::render_math;
pub use render::FormulaError;
pub use spans::{Mode, Span};

use pipeline::run_pass;

verus! {

/// Replace every math span of `content` with the engine's typeset markup,
/// leaving all surrounding text unchanged: the inline pass runs over the
/// original text, the block pass over its output.  Fails with the engine's
/// [`FormulaError`] if any matched span's formula fails to render.
pub fn render_katex(content: &str) -> (r: Result<String, FormulaError>)
    ensures
        r is Ok <==> render_math(content@) is Ok,
        r is Ok ==> r->Ok_0@ == render_math(content@)->Ok_0,
        r is Err ==> r->Err_0.reason@ == render_math(content@)->Err_0,
{
    match run_pass(content, Mode::Inline) {
        Ok(intermediate) => run_pass(intermediate.as_str(), Mode::Block),
        Err(e) => Err(e),
    }
}

} // verus!
