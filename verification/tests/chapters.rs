use mdbook_mermaid_ssr::add_mermaid;
use mdbook_mermaid_ssr::config::{Config, ErrorHandling};
use mdbook_mermaid_ssr::compositor::Span;
use mdbook_mermaid_ssr::pipeline::{Document, Phase};
use mdbook_mermaid_ssr::renderer::{EngineReply, RenderError};
use mdbook_mermaid_ssr::scanner::{EventKind, MarkdownEvent};

const ARTIFACT: &str = "<svg id=\"d\"><g>A</g></svg>";

/// Stands for the engine: a diagram whose source names a known diagram type
/// is rendered, any other is answered with `null`.
fn stub_engine(source: &str) -> EngineReply {
    let known = ["graph ", "classDiagram", "flowchart "];
    if known.iter().any(|k| source.trim_start().starts_with(k)) {
        EngineReply::Text(ARTIFACT.to_string())
    } else {
        EngineReply::Null
    }
}

fn process(content: &str, config: &Config) -> Result<String, RenderError> {
    let mut doc = add_mermaid(content, config);
    while let Some(request) = doc.pending() {
        assert!(!request.script().is_empty());
        doc = doc.resolve(stub_engine(&request.diagram_source));
    }
    doc.finish().expect("a document without pending blocks has a result")
}

#[test]
fn adds_mermaid() {
    let config = Config::default();
    let content = "# Chapter\n\n```mermaid\ngraph TD\nA --> B\n```\n\nText\n";

    let result = process(content, &config).unwrap();

    assert!(result.contains("<svg"));
    assert!(result.contains("</svg>"));
    assert!(result.contains("# Chapter"));
    assert!(result.contains("Text"));
    println!("{:?}", result);
    assert_eq!(result, format!("# Chapter\n\n\n{}\n\n\n\nText\n", ARTIFACT));
}

#[test]
fn leaves_tables_untouched() {
    let config = Config::default();
    let content = "# Heading\n\n| Head 1 | Head 2 |\n|--------|--------|\n| Row 1  | Row 2  |\n";
    let expected = "# Heading\n\n| Head 1 | Head 2 |\n|--------|--------|\n| Row 1  | Row 2  |\n";
    assert_eq!(expected, process(content, &config).unwrap());
}

#[test]
fn leaves_html_untouched() {
    let config = Config::default();
    let content = "# Heading\n\n<del>\n\n*foo*\n\n</del>\n";
    let expected = "# Heading\n\n<del>\n\n*foo*\n\n</del>\n";
    assert_eq!(expected, process(content, &config).unwrap());
}

#[test]
fn html_in_list() {
    let config = Config::default();
    let content = "# Heading\n\n1. paragraph 1\n   ```\n   code 1\n   ```\n2. paragraph 2\n";
    let expected = "# Heading\n\n1. paragraph 1\n   ```\n   code 1\n   ```\n2. paragraph 2\n";
    assert_eq!(expected, process(content, &config).unwrap());
}

#[test]
fn escape_in_mermaid_block() {
    let config = Config::default();
    let content = "\n```mermaid\nclassDiagram\n    class PingUploader {\n        <<interface>>\n        +Upload() UploadResult\n    }\n```\n\nhello\n";

    let result = process(content, &config).unwrap();

    assert!(result.contains("<svg"));
    assert!(result.contains("</svg>"));
    assert!(result.contains("hello"));
}

#[test]
fn more_backticks() {
    let config = Config::default();
    let content = "# Chapter\n\n````mermaid\ngraph TD\nA --> B\n````\n\nText\n";

    let result = process(content, &config).unwrap();

    assert!(result.contains("<svg"));
    assert!(result.contains("</svg>"));
    assert!(result.contains("# Chapter"));
    assert!(result.contains("Text"));
}

#[test]
fn crlf_line_endings() {
    let config = Config::default();
    let content = "# Chapter\r\n\r\n````mermaid\r\n\r\ngraph TD\r\nA --> B\r\n````";

    let result = process(content, &config).unwrap();

    assert!(result.contains("<svg"));
    assert!(result.contains("</svg>"));
}

#[test]
fn test_on_error_fail() {
    let mut config = Config::default();
    config.on_error = ErrorHandling::Fail;
    let content = "\n```mermaid\ngrph TD\nA --> B\n```\n";

    let result = process(content, &config);
    assert!(
        result.is_err(),
        "Expected error when on_error is set to fail"
    );
}

#[test]
fn test_on_error_comment() {
    let mut config = Config::default();
    config.on_error = ErrorHandling::Comment;
    let content = "\n```mermaid\ngrph TD\nA --> B\n```\n";

    let result = process(content, &config);
    assert!(
        result.is_ok(),
        "Expected success when on_error is set to comment"
    );
    let output = result.unwrap();
    assert!(output.contains("[!IMPORTANT]"));
    assert!(output.contains("Mermaid diagram rendering failed during SSR"));
}

#[test]
fn document_phases() {
    let config = Config::default();
    let doc = add_mermaid("plain\n", &config);
    assert_eq!(doc.phase(), Phase::Composing);
    let doc = add_mermaid("```mermaid\ngraph TD\n```\n", &config);
    assert_eq!(doc.phase(), Phase::Rendering);
}

#[test]
fn heading_artifact_and_text_without_fence_markers() {
    let config = Config::default();
    let content = "# T\n\n```mermaid\ngraph TD\nA --> B\n```\n\nText\n";

    let result = process(content, &config).unwrap();

    assert!(result.contains("# T"));
    assert!(result.contains(ARTIFACT));
    assert!(result.contains("Text"));
    assert!(!result.contains("```"));
    assert!(!result.contains("mermaid"));
    assert_eq!(result, format!("# T\n\n\n{}\n\n\n\nText\n", ARTIFACT));
}

#[test]
fn failure_under_fail_policy_leaves_no_output() {
    let mut config = Config::default();
    config.on_error = ErrorHandling::Fail;
    let content = "# T\n\n```mermaid\ngraph TD\n```\n\n```mermaid\ngrph TD\n```\n\n```mermaid\ngraph LR\n```\n";

    let mut doc = add_mermaid(content, &config);
    let mut asked = Vec::new();
    while let Some(request) = doc.pending() {
        asked.push(request.diagram_source.clone());
        doc = doc.resolve(stub_engine(&request.diagram_source));
    }
    assert_eq!(asked, vec!["graph TD\n".to_string(), "grph TD\n".to_string()]);
    assert_eq!(doc.phase(), Phase::Failed);
    let doc = doc.compose();
    assert_eq!(doc.phase(), Phase::Failed);
    assert!(matches!(doc.finish(), Some(Err(RenderError::EngineReturnedNull))));
}

#[test]
fn comment_policy_quotes_cause_and_source_and_renders_the_rest() {
    let mut config = Config::default();
    config.on_error = ErrorHandling::Comment;
    let content = "# T\n\n```mermaid\ngraph TD\nA --> B\n```\n\nbetween\n\n````mermaid\ngrph TD\n```\nA --> B\n````\n\nend\n";

    let output = process(content, &config).unwrap();

    assert!(output.starts_with(&format!("# T\n\n\n{}\n\n\n\nbetween\n\n\n> [!IMPORTANT]\n", ARTIFACT)));
    assert!(output.contains("> Failed to compile Mermaid diagram: render returned null\n"));
    assert!(output.contains("> ```raw\n> grph TD\n> ``\\`\n> A --> B\n> ```\n"));
    assert!(output.ends_with("</sub></sub>\n\nend\n"));
}

#[test]
fn document_goes_through_its_phases() {
    let doc = Document::new("```mermaid\ngraph TD\n```\n", ErrorHandling::Fail);
    assert_eq!(doc.phase(), Phase::Idle);
    assert!(doc.pending().is_none());
    let doc = doc.resolve(EngineReply::Null);
    assert_eq!(doc.phase(), Phase::Idle);
    let doc = doc.begin_scan();
    assert_eq!(doc.phase(), Phase::Scanning);
    let doc = doc.begin_scan().scan();
    assert_eq!(doc.phase(), Phase::Scanning);
    let doc = Document::new("```mermaid\ngraph TD\n```\n", ErrorHandling::Fail).scan();
    assert_eq!(doc.phase(), Phase::Rendering);
    let doc = doc.compose();
    assert_eq!(doc.phase(), Phase::Rendering);
    let doc = doc.resolve(EngineReply::Text("<svg/>".to_string()));
    assert_eq!(doc.phase(), Phase::Composing);
    let doc = doc.compose();
    assert_eq!(doc.phase(), Phase::Done);
    let doc = doc.resolve(EngineReply::Null);
    assert_eq!(doc.phase(), Phase::Done);
    assert_eq!(doc.finish().unwrap().unwrap(), "\n<svg/>\n\n\n");
}

#[test]
fn events_that_do_not_fit_the_text_leave_it_unchanged() {
    let events = vec![
        MarkdownEvent {
            kind: EventKind::FenceOpen("mermaid".to_string()),
            span: Span { start: 0, end: 40 },
        },
        MarkdownEvent { kind: EventKind::Text, span: Span { start: 3, end: 5 } },
        MarkdownEvent { kind: EventKind::CodeBlockEnd, span: Span { start: 0, end: 40 } },
    ];
    let doc = Document::new("short", ErrorHandling::Fail).begin_scan().accept_events(&events);
    assert_eq!(doc.phase(), Phase::Composing);
    assert_eq!(doc.finish().unwrap().unwrap(), "short");

    let fitting = vec![
        MarkdownEvent {
            kind: EventKind::FenceOpen("mermaid".to_string()),
            span: Span { start: 1, end: 4 },
        },
        MarkdownEvent { kind: EventKind::Text, span: Span { start: 2, end: 3 } },
        MarkdownEvent { kind: EventKind::CodeBlockEnd, span: Span { start: 1, end: 4 } },
    ];
    let doc = Document::new("short", ErrorHandling::Fail).begin_scan().accept_events(&fitting);
    assert_eq!(doc.phase(), Phase::Rendering);
    assert_eq!(doc.pending().unwrap().diagram_source, "o");
    let doc = doc.accept_outcome(Ok("X".to_string()));
    assert_eq!(doc.finish().unwrap().unwrap(), "s\nX\n\nt");
}
