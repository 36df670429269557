use mdbook_mermaid_ssr::compositor::{compose, is_replaceable, Replacement, Span};

fn replacement(start: usize, end: usize, text: &str) -> Replacement {
    Replacement { span: Span { start, end }, text: text.to_string() }
}

#[test]
fn nothing_to_replace_returns_the_text() {
    let text = "# Heading\r\n\r\n| a | b |\r\n|---|---|\r\n| \u{e9} | \u{4e2d} |\r\n";
    assert!(is_replaceable(text, &vec![]));
    assert_eq!(compose(text, &vec![]), text);
}

#[test]
fn one_span_is_replaced() {
    let text = "abcXYZdef";
    let reps = vec![replacement(3, 6, "<svg/>")];
    assert!(is_replaceable(text, &reps));
    assert_eq!(compose(text, &reps), "abc\n<svg/>def");
}

#[test]
fn spans_are_replaced_and_the_rest_is_kept() {
    let text = "0123456789";
    let reps = vec![replacement(0, 2, "A"), replacement(4, 4, "B"), replacement(7, 10, "")];
    assert!(is_replaceable(text, &reps));
    assert_eq!(compose(text, &reps), "\nA23\nB456\n");
}

#[test]
fn bytes_outside_the_spans_keep_their_order_and_value() {
    let text = "T\u{e9}xt <table>\r\n| \u{4e2d} |\r\n</table>\r\n- list\r\n```mermaid\r\nA\r\n```\r\nend \u{1f600}\r\n```mermaid\r\nB\r\n```";
    let first = text.find("```mermaid").unwrap();
    let first_end = first + "```mermaid\r\nA\r\n```".len();
    let second = text.rfind("```mermaid").unwrap();
    let reps = vec![
        replacement(first, first_end, "<svg>1</svg>\n\n"),
        replacement(second, text.len(), "<svg>2</svg>\n\n"),
    ];
    assert!(is_replaceable(text, &reps));
    let composed = compose(text, &reps);
    let expected = format!(
        "{}\n<svg>1</svg>\n\n{}\n<svg>2</svg>\n\n",
        &text[..first],
        &text[first_end..second]
    );
    assert_eq!(composed, expected);

    let original = text.as_bytes();
    let out = composed.as_bytes();
    let growth_of_first = 1 + "<svg>1</svg>\n\n".len() as isize - (first_end - first) as isize;
    for at in 0..first {
        assert_eq!(out[at], original[at]);
    }
    for at in first_end..second {
        assert_eq!(out[(at as isize + growth_of_first) as usize], original[at]);
    }
    assert_eq!(&composed[first..first + 1 + "<svg>1</svg>\n\n".len()], "\n<svg>1</svg>\n\n");
}

#[test]
fn spans_that_cannot_be_applied_are_told() {
    let text = "a\u{e9}b";
    assert!(is_replaceable(text, &vec![replacement(1, 3, "x")]));
    assert!(!is_replaceable(text, &vec![replacement(1, 2, "x")]));
    assert!(!is_replaceable(text, &vec![replacement(2, 3, "x")]));
    assert!(!is_replaceable(text, &vec![replacement(3, 1, "x")]));
    assert!(!is_replaceable(text, &vec![replacement(0, 5, "x")]));
    assert!(!is_replaceable(text, &vec![replacement(5, 6, "x")]));
    assert!(!is_replaceable(text, &vec![replacement(0, 3, "x"), replacement(1, 4, "y")]));
    assert!(!is_replaceable(text, &vec![replacement(3, 4, "x"), replacement(0, 1, "y")]));
    assert!(is_replaceable(text, &vec![replacement(0, 1, "x"), replacement(1, 3, "y")]));
}
