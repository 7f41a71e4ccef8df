//! The render adapter: the external formula-typesetting engine consumed by
//! this library, and the error it raises.
//!
//! The engine is an opaque pure function from a formula and a display-mode
//! flag to typeset markup; for a formula that is invalid under the engine's
//! own grammar it fails instead.  This library never validates formula
//! syntax itself.

use vstd::prelude::*;

verus! {

/// The failure raised when a matched span's formula fails to render: the
/// engine's reason, propagated unchanged.  Scanning itself has no failure
/// mode; text that matches no span rule is simply left untouched.
#[derive(Clone, Debug)]
pub struct FormulaError {
    pub reason: String,
}

/// What the external rendering engine returns for a formula and a
/// display-mode flag: the typeset markup, or the reason the formula is
/// invalid.  The result depends on these two arguments alone.
pub uninterp spec fn engine_render(formula: Seq<char>, display: bool) -> Result<Seq<char>, Seq<char>>;

/// Relies on `katex::render_with_opts`: the returned markup — or, for a
/// formula that is invalid under KaTeX's grammar, the rendering error — is a
/// function of the formula text and the display-mode option alone (the
/// engine evaluates fixed, embedded KaTeX code).
#[verifier::external_body]
pub(crate) fn render_formula(formula: &str, display: bool) -> (r: Result<String, String>)
    ensures
        r is Ok <==> engine_render(formula@, display) is Ok,
        r is Ok ==> r->Ok_0@ == engine_render(formula@, display)->Ok_0,
        r is Err ==> r->Err_0@ == engine_render(formula@, display)->Err_0,
{
    let mut opts = katex::Opts::default();
    opts.set_display_mode(display);
    match katex::render_with_opts(formula, opts) {
        Ok(markup) => Ok(markup),
        Err(err) => Err(format!("{}", err)),
    }
}

} // verus!
