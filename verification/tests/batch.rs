use mdbook_mermaid_ssr::batch::Run;
use mdbook_mermaid_ssr::config::{Config, ErrorHandling};
use mdbook_mermaid_ssr::renderer::{EngineReply, RenderError};
use mdbook_mermaid_ssr::Mermaid;

fn chapters(texts: &[&str]) -> Vec<String> {
    texts.iter().map(|t| t.to_string()).collect()
}

/// Drives a run against an engine that renders every diagram but those
/// whose source holds `invalid`; gives the result and the sources that the
/// engine was asked to render.
fn drive(mut run: Run) -> (Result<Vec<String>, RenderError>, Vec<String>) {
    let mut asked = Vec::new();
    while let Some(request) = run.pending() {
        let source = request.diagram_source.clone();
        let reply = if source.contains("invalid") {
            EngineReply::Null
        } else {
            EngineReply::Text(format!("<svg>{}</svg>", source.trim()))
        };
        asked.push(source);
        run = run.resolve(reply);
    }
    (run.finish().expect("a run without pending diagrams has a result"), asked)
}

#[test]
fn chapters_are_processed_in_order() {
    let run = Run::start(
        chapters(&["plain\n", "```mermaid\none\n```\n", "# x\n", "```mermaid\ntwo\n```\n"]),
        ErrorHandling::Fail,
    );
    let (result, asked) = drive(run);
    assert_eq!(asked, vec!["one\n".to_string(), "two\n".to_string()]);
    assert_eq!(
        result.unwrap(),
        vec![
            "plain\n".to_string(),
            "\n<svg>one</svg>\n\n\n".to_string(),
            "# x\n".to_string(),
            "\n<svg>two</svg>\n\n\n".to_string()
        ]
    );
}

#[test]
fn run_stops_at_the_first_chapter_that_fails() {
    let run = Run::start(
        chapters(&[
            "```mermaid\nfirst\n```\n",
            "```mermaid\ninvalid\n```\n\n```mermaid\nafter\n```\n",
            "```mermaid\nthird\n```\n",
        ]),
        ErrorHandling::Fail,
    );
    let (result, asked) = drive(run);
    assert_eq!(asked, vec!["first\n".to_string(), "invalid\n".to_string()]);
    assert!(matches!(result, Err(RenderError::EngineReturnedNull)));
}

#[test]
fn failed_run_is_not_changed_by_further_replies() {
    let mut run = Run::start(
        chapters(&["```mermaid\ninvalid\n```\n", "```mermaid\nnext\n```\n"]),
        ErrorHandling::Fail,
    );
    assert!(run.pending().is_some());
    run = run.resolve(EngineReply::Failure("timed out".to_string()));
    assert!(run.pending().is_none());
    run = run.resolve(EngineReply::Text("<svg/>".to_string()));
    assert!(run.pending().is_none());
    let result = run.finish().unwrap();
    assert!(matches!(result, Err(RenderError::ChannelFailure(message)) if message == "timed out"));
}

#[test]
fn comment_policy_goes_on_after_a_failure() {
    let run = Run::start(
        chapters(&[
            "```mermaid\ninvalid\n```\n\n```mermaid\nvalid\n```\n",
            "```mermaid\nthird\n```\n",
        ]),
        ErrorHandling::Comment,
    );
    let (result, asked) = drive(run);
    assert_eq!(
        asked,
        vec!["invalid\n".to_string(), "valid\n".to_string(), "third\n".to_string()]
    );
    let texts = result.unwrap();
    assert_eq!(texts.len(), 2);
    assert!(texts[0].contains("[!IMPORTANT]"));
    assert!(texts[0].contains("render returned null"));
    assert!(texts[0].contains("<svg>valid</svg>"));
    assert_eq!(texts[1], "\n<svg>third</svg>\n\n\n");
}

#[test]
fn run_without_chapters_is_done_at_once() {
    let run = Run::start(Vec::new(), ErrorHandling::Fail);
    assert!(run.pending().is_none());
    assert_eq!(run.finish().unwrap().unwrap(), Vec::<String>::new());
}

#[test]
fn unfinished_run_has_no_result() {
    let run = Run::start(chapters(&["```mermaid\none\n```\n"]), ErrorHandling::Fail);
    assert!(run.pending().is_some());
    assert!(run.finish().is_none());
}

#[test]
fn preprocessor_runs_only_with_a_session_that_is_up() {
    let mut preprocessor = Mermaid::new(Config::default());
    assert_eq!(preprocessor.name(), "mermaid-ssr");
    assert!(preprocessor.supports_renderer("html"));
    assert!(!preprocessor.supports_renderer("epub"));
    assert!(!preprocessor.supports_renderer("HTML"));
    assert!(preprocessor.run(chapters(&["a"])).is_none());
    while preprocessor.renderer().pending_step().is_some() {
        preprocessor = preprocessor.step_done(true);
    }
    let run = preprocessor.run(chapters(&["a"])).unwrap();
    assert_eq!(run.finish().unwrap().unwrap(), vec!["a".to_string()]);
    assert_eq!(preprocessor.config().on_error, ErrorHandling::Fail);
}

#[test]
fn preprocessor_with_a_failed_session_runs_nothing() {
    let preprocessor = Mermaid::new(Config::default()).step_done(false);
    assert!(preprocessor.renderer().pending_step().is_none());
    assert!(preprocessor.run(chapters(&["a"])).is_none());
}
