use pxsort::shape::unwrap_parens;
use pxsort::{parse_shape, ShapeText};

fn text(s: &str) -> Vec<char> {
    s.chars().collect()
}

fn some(s: &str) -> Option<Vec<char>> {
    Some(text(s))
}

#[test]
fn linear_names() {
    for s in ["", "   ", "line", "linear", "  linear\t"] {
        assert_eq!(parse_shape(s), Ok(ShapeText::Linear));
    }
}

#[test]
fn default_shapes() {
    assert_eq!(
        parse_shape(" sine "),
        Ok(ShapeText::Sine { amplitude: None, lambda: None, offset: None })
    );
    for s in ["circle", "ellipse"] {
        assert_eq!(parse_shape(s), Ok(ShapeText::Ellipse { eccentricity: None, center: None }));
    }
}

#[test]
fn sine_arguments() {
    assert_eq!(
        parse_shape("sine(10)"),
        Ok(ShapeText::Sine { amplitude: some("10"), lambda: None, offset: None })
    );
    assert_eq!(
        parse_shape("sine [ 10 , 20 ]"),
        Ok(ShapeText::Sine { amplitude: some("10"), lambda: some("20"), offset: None })
    );
    assert_eq!(
        parse_shape("sine{1.5,2,-3}"),
        Ok(ShapeText::Sine { amplitude: some("1.5"), lambda: some("2"), offset: some("-3") })
    );
    assert_eq!(
        parse_shape("sine()"),
        Ok(ShapeText::Sine { amplitude: some(""), lambda: None, offset: None })
    );
}

#[test]
fn circle_and_ellipse_arguments() {
    assert_eq!(
        parse_shape("circle(0.25, 0.75)"),
        Ok(ShapeText::Ellipse { eccentricity: None, center: Some((text("0.25"), text("0.75"))) })
    );
    assert_eq!(
        parse_shape("ellipse<0.5>"),
        Ok(ShapeText::Ellipse { eccentricity: some("0.5"), center: None })
    );
    assert_eq!(
        parse_shape("ellipse(0.1,0.2)"),
        Ok(ShapeText::Ellipse { eccentricity: None, center: Some((text("0.1"), text("0.2"))) })
    );
    assert_eq!(
        parse_shape("ellipse(0.3, 0.1, 0.2)"),
        Ok(ShapeText::Ellipse { eccentricity: some("0.3"), center: Some((text("0.1"), text("0.2"))) })
    );
}

#[test]
fn malformed_shapes_echo_trimmed_text() {
    let cases = [
        ("  blob ", "blob"),
        ("sine(1,2,3,4)", "sine(1,2,3,4)"),
        ("sine(1", "sine(1"),
        ("sine(1]", "sine(1]"),
        ("sinewave(1)", "sinewave(1)"),
        ("circle(1)", "circle(1)"),
        ("circle(1,2,3)", "circle(1,2,3)"),
        ("ellipse(1,2,3,4)", "ellipse(1,2,3,4)"),
        ("ellipse 1,2", "ellipse 1,2"),
        ("Line", "Line"),
    ];
    for (input, echoed) in cases {
        let e = parse_shape(input).unwrap_err();
        assert_eq!(e.text, text(echoed));
    }
}

#[test]
fn unwrap_parens_pairs() {
    assert_eq!(unwrap_parens(" (a, b) "), Ok(text("a, b")));
    assert_eq!(unwrap_parens("[]"), Ok(text("")));
    assert_eq!(unwrap_parens("{x}"), Ok(text("x")));
    assert_eq!(unwrap_parens("<y>"), Ok(text("y")));
    assert_eq!(unwrap_parens("(x]"), Err(()));
    assert_eq!(unwrap_parens("("), Err(()));
    assert_eq!(unwrap_parens(""), Err(()));
    assert_eq!(unwrap_parens("x(y)"), Err(()));
}

#[test]
fn unicode_white_space_is_trimmed() {
    assert_eq!(
        parse_shape("\u{3000}sine\u{a0}"),
        Ok(ShapeText::Sine { amplitude: None, lambda: None, offset: None })
    );
    assert_eq!(
        parse_shape("ellipse(\u{2003}0.5\n)"),
        Ok(ShapeText::Ellipse { eccentricity: some("0.5"), center: None })
    );
    assert_eq!(parse_shape("\u{200b}line").unwrap_err().text, text("\u{200b}line"));
}
