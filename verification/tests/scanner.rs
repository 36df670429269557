use mdbook_mermaid_ssr::compositor::Span;
use mdbook_mermaid_ssr::scanner::{
    are_blocks_in_text, find_blocks, scan_events, DiagramBlock, EventKind, MarkdownEvent,
};

fn event(kind: EventKind, start: usize, end: usize) -> MarkdownEvent {
    MarkdownEvent { kind, span: Span { start, end } }
}

fn block(content: (usize, usize), enclosing: (usize, usize)) -> DiagramBlock {
    DiagramBlock {
        content_span: Span { start: content.0, end: content.1 },
        enclosing_span: Span { start: enclosing.0, end: enclosing.1 },
    }
}

#[test]
fn finds_a_diagram_block() {
    let text = "# T\n\n```mermaid\ngraph TD\nA --> B\n```\n\nText\n";
    let blocks = find_blocks(text);
    assert_eq!(blocks.len(), 1);
    let found = blocks[0];
    assert_eq!(&text[found.content_span.start..found.content_span.end], "graph TD\nA --> B\n");
    assert_eq!(
        &text[found.enclosing_span.start..found.enclosing_span.end],
        "```mermaid\ngraph TD\nA --> B\n```"
    );
    assert!(are_blocks_in_text(text, &blocks));
}

#[test]
fn info_string_must_be_the_keyword_exactly() {
    assert!(find_blocks("```Mermaid\ngraph TD\n```\n").is_empty());
    assert!(find_blocks("```mermaid x\ngraph TD\n```\n").is_empty());
    assert!(find_blocks("```rust\nfn main() {}\n```\n").is_empty());
    assert!(find_blocks("```\ngraph TD\n```\n").is_empty());
    assert!(find_blocks("    graph TD\n").is_empty());
    assert_eq!(find_blocks("~~~mermaid\ngraph TD\n~~~\n").len(), 1);
}

#[test]
fn finds_blocks_in_document_order() {
    let text = "a\n\n```mermaid\none\n```\n\n| h |\n|---|\n| c |\n\n```rust\nx\n```\n\n````mermaid\ntwo\n````\n";
    let blocks = find_blocks(text);
    assert_eq!(blocks.len(), 2);
    assert_eq!(&text[blocks[0].content_span.start..blocks[0].content_span.end], "one\n");
    assert_eq!(&text[blocks[1].content_span.start..blocks[1].content_span.end], "two\n");
    assert!(blocks[0].enclosing_span.end <= blocks[1].enclosing_span.start);
    assert!(are_blocks_in_text(text, &blocks));
}

#[test]
fn payload_of_crlf_document_is_one_span() {
    let text = "# C\r\n\r\n````mermaid\r\n\r\ngraph TD\r\nA --> B\r\n````";
    let blocks = find_blocks(text);
    assert_eq!(blocks.len(), 1);
    assert_eq!(
        &text[blocks[0].content_span.start..blocks[0].content_span.end],
        "\ngraph TD\r\nA --> B\r\n"
    );
    assert_eq!(blocks[0].enclosing_span.end, text.len());
}

#[test]
fn text_spans_are_united() {
    let events = vec![
        event(EventKind::Other, 0, 3),
        event(EventKind::FenceOpen("mermaid".to_string()), 5, 40),
        event(EventKind::Text, 16, 20),
        event(EventKind::Other, 20, 21),
        event(EventKind::Text, 22, 30),
        event(EventKind::Text, 12, 18),
        event(EventKind::CodeBlockEnd, 5, 40),
        event(EventKind::Text, 41, 45),
    ];
    assert_eq!(scan_events(&events), vec![block((12, 30), (5, 40))]);
}

#[test]
fn other_code_blocks_are_passed_over() {
    let events = vec![
        event(EventKind::FenceOpen("rust".to_string()), 0, 20),
        event(EventKind::Text, 8, 16),
        event(EventKind::CodeBlockEnd, 0, 20),
        event(EventKind::Text, 21, 25),
        event(EventKind::CodeBlockEnd, 21, 25),
    ];
    assert!(scan_events(&events).is_empty());
}

#[test]
fn block_without_text_has_an_empty_payload() {
    let events = vec![
        event(EventKind::FenceOpen("mermaid".to_string()), 4, 18),
        event(EventKind::CodeBlockEnd, 4, 18),
    ];
    assert_eq!(scan_events(&events), vec![block((4, 4), (4, 18))]);
    let text = "a\n\n```mermaid\n```\n";
    let blocks = find_blocks(text);
    assert_eq!(blocks.len(), 1);
    assert_eq!(blocks[0].content_span.start, blocks[0].content_span.end);
}

#[test]
fn each_block_starts_a_new_payload() {
    let events = vec![
        event(EventKind::FenceOpen("mermaid".to_string()), 0, 10),
        event(EventKind::Text, 2, 8),
        event(EventKind::CodeBlockEnd, 0, 10),
        event(EventKind::FenceOpen("mermaid".to_string()), 12, 20),
        event(EventKind::CodeBlockEnd, 12, 20),
    ];
    assert_eq!(scan_events(&events), vec![block((2, 8), (0, 10)), block((12, 12), (12, 20))]);
}

#[test]
fn blocks_outside_the_text_are_told() {
    let text = "a\u{e9}b";
    assert!(are_blocks_in_text(text, &vec![block((1, 3), (0, 4))]));
    assert!(!are_blocks_in_text(text, &vec![block((2, 3), (0, 4))]));
    assert!(!are_blocks_in_text(text, &vec![block((1, 3), (0, 5))]));
    assert!(!are_blocks_in_text(text, &vec![block((0, 1), (0, 3)), block((3, 3), (1, 4))]));
    assert!(are_blocks_in_text(text, &vec![]));
}
