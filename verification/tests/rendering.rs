use mathspan::render_katex;

fn unchanged(eg: &str) {
    assert_eq!(eg, render_katex(eg).unwrap());
}

fn changed(eg: &str) {
    let result = render_katex(eg).unwrap();
    assert!(result.len() > eg.len());
    assert_ne!(eg, &result[..eg.len()]);
}

#[test]
fn no_math_unchanged() {
    unchanged("This is just a sentence.");
}

#[test]
fn price_not_math_unchanged() {
    unchanged("This has a number that is not math $3 000");
}

#[test]
fn two_consecutive_prices_unchanged() {
    unchanged("Here are two consecutive prices with no whitspace $50$60");
    unchanged("Here are two consecutive prices with whitspace $50 $60");
    unchanged("Here are two consecutive prices with comma $50,$60");
}

#[test]
fn backslash_proceeding_dollar_unchanged() {
    unchanged(r"\$F = ma$");
    unchanged(r"$F = ma\$");
}

#[test]
fn double_dollar_unchanged() {
    unchanged(r"$$F = ma$");
    unchanged(r"$F = ma$$");
}

#[test]
fn internal_whitespace_padding_unchanged() {
    unchanged(r"$ F = ma$");
    unchanged(r"$F = ma $");
    unchanged(r"$$ \int_0^1 x^2 = \frac{1}{2}$$");
    unchanged(r"$$\int_0^1 x^2 = \frac{1}{2} $$");
}

#[test]
fn bad_internal_dollar_unchanged() {
    unchanged(r"$$\int_0^1 x^2 = \frac{1}${2}$$");
}

#[test]
fn double_dollar_escaped_unchanged() {
    unchanged(r"\$$\int_0^1 x^2 = \frac{1}{2}$$");
    unchanged(r"$\$\int_0^1 x^2 = \frac{1}{2}$$");
    unchanged(r"$$\int_0^1 x^2 = \frac{1}${2}\$$");
    unchanged(r"$$\int_0^1 x^2 = \frac{1}{2}$\$");
}

#[test]
fn random_double_dollar_unchanged() {
    unchanged(r"Hey $$ planet");
}

#[test]
fn working_inline() {
    let eg = r"Consider $π = \frac{1}{2}τ$ for a moment.";
    let result = render_katex(eg).unwrap();
    assert!(result.len() > eg.len());
    assert_ne!(eg, result);
    assert_eq!(eg[..9], result[..9]);
    assert_eq!(eg[eg.len() - 14..], result[result.len() - 14..]);
}

#[test]
fn working_multiline() {
    changed(r"$$\sum_{i = 0}^n i = \frac{1}{2}n(n+1)$$");
    // N.B. trailing whitespace is deliberate and should not disable math mode.
    changed(
        "    $$ \n        \\sum_{i = 0}^n i = \\frac{1}{2}n(n+1) \n    $$",
    );
}

#[test]
fn multiple_formulae() {
    let eg = r"Consider $π = \frac{1}{2}τ$, then
            $$
                4 \int_{-1}^1 \sqrt{1 - x^2} \mathop{dx} = τ
            $$
            and also consider $A = πr^2$ for a moment.";
    let result = render_katex(eg).unwrap();
    assert!(result.len() > eg.len());
    assert!(result.contains(", then"));
    assert!(result.contains("and also consider "));
    assert_ne!(eg, result);
    assert_eq!(eg[..9], result[..9]);
    assert_eq!(eg[eg.len() - 14..], result[result.len() - 14..]);
}
