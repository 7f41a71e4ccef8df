use mathspan::chars::text_chars;
use mathspan::render_katex;
use mathspan::spans::{scan_block, scan_inline, Mode};

#[test]
fn empty_input_unchanged() {
    assert_eq!("", render_katex("").unwrap());
}

#[test]
fn lone_markers_unchanged() {
    assert_eq!("$", render_katex("$").unwrap());
    assert_eq!("$$", render_katex("$$").unwrap());
    assert_eq!("a $ b", render_katex("a $ b").unwrap());
}

#[test]
fn block_on_own_lines_renders() {
    // An opening `$$` alone on its line, the formula, and a closing `$$` on
    // its own line match even with no horizontal whitespace at all.
    let eg = "$$\n\\int_0^1 x^2 = \\frac{1}{2}\n$$";
    let result = render_katex(eg).unwrap();
    assert!(result.len() > eg.len());
    assert_ne!(eg, result);
}

#[test]
fn blank_line_after_opening_unchanged() {
    // The line after an opening `$$` on its own line must be non-empty.
    let eg = "$$\n\n x^2\n$$";
    assert_eq!(eg, render_katex(eg).unwrap());
}

#[test]
fn block_context_preserved() {
    let eg = "before $$x + y$$ after";
    let result = render_katex(eg).unwrap();
    assert!(result.starts_with("before "));
    assert!(result.ends_with(" after"));
    assert!(result.len() > eg.len());
}

#[test]
fn markup_replaces_inline_span() {
    // The rendered markup replaces the whole delimited region: no marker is
    // left, and the engine's markup appears in its place.
    let result = render_katex("$x$").unwrap();
    assert!(!result.contains('$'));
    assert!(result.contains("katex"));
}

#[test]
fn invalid_formula_is_an_error() {
    // `\frac` without arguments is invalid under the engine's grammar: the
    // failure propagates, fail-fast, with the engine's reason.
    let err = render_katex(r"$\frac$").unwrap_err();
    assert!(!err.reason.is_empty());
}

#[test]
fn error_propagates_from_later_span() {
    assert!(render_katex(r"$x$ and $\frac$").is_err());
}

#[test]
fn inline_span_offsets() {
    let t = text_chars("a $x$ b");
    let spans = scan_inline(&t);
    assert_eq!(spans.len(), 1);
    assert_eq!(spans[0].outer_start, 2);
    assert_eq!(spans[0].inner_start, 3);
    assert_eq!(spans[0].inner_end, 4);
    assert_eq!(spans[0].outer_end, 5);
    assert!(matches!(spans[0].mode, Mode::Inline));
}

#[test]
fn block_span_offsets_trim_trailing_line() {
    // "$$x \n $$": the inner text ends at the last non-whitespace character;
    // the whitespace-only line before the closing delimiter is consumed as
    // part of the outer span only.
    let t = text_chars("$$x \n $$");
    let spans = scan_block(&t);
    assert_eq!(spans.len(), 1);
    assert_eq!(spans[0].outer_start, 0);
    assert_eq!(spans[0].inner_start, 2);
    assert_eq!(spans[0].inner_end, 3);
    assert_eq!(spans[0].outer_end, 8);
    assert!(matches!(spans[0].mode, Mode::Block));
}

#[test]
fn inline_scan_skips_price_pairs() {
    let t = text_chars("$50$60");
    let spans = scan_inline(&t);
    assert_eq!(spans.len(), 0);
}

#[test]
fn text_chars_matches_input() {
    let v = text_chars("aπ$\n");
    let w: Vec<char> = "aπ$\n".chars().collect();
    assert_eq!(v, w);
}
