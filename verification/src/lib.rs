//! The core of a preprocessor that renders the diagram blocks of a book's
//! chapters before the book is published: it finds the fenced diagram blocks
//! in a chapter's Markdown, has an outside engine render each of them, and
//! puts the rendered artifact, or a note that says why there is none, in the
//! block's place, leaving every other byte of the chapter as it was.
//!
//! The engine is not called from here. The library says what is to be sent
//! to it and what follows from each of its replies; the caller does the
//! sending.

pub mod annotation;
pub mod batch;
pub mod compositor;
pub mod config;
pub mod pipeline;
pub mod renderer;
pub mod scanner;
pub mod text;

use crate::batch::{texts, Run, RunView};
use crate::config::Config;
use crate::pipeline::{Document, DocumentView};
use crate::renderer::{ChannelState, InitStep, RendererView};
use crate::scanner::{page_events, scanned};
use crate::text::same_text;
use vstd::prelude::*;

verus! {

/// The mathematical value of the preprocessor.
pub struct PreprocessorView {
    pub renderer: RendererView,
    pub config: Config,
}

/// The preprocessor: the configuration of one run and the renderer that the
/// run goes through.
#[derive(Debug)]
pub struct Mermaid {
    renderer: renderer::Mermaid,
    config: Config,
}

impl View for Mermaid {
    type V = PreprocessorView;

    closed spec fn view(&self) -> PreprocessorView {
        PreprocessorView { renderer: self.renderer@, config: self.config }
    }
}

impl Mermaid {
    /// The preprocessor for `config`, its renderer before the first step of
    /// its session.
    pub fn new(config: Config) -> (preprocessor: Mermaid)
        ensures
            preprocessor@.config == config,
            preprocessor@.renderer.state == ChannelState::Opening(InitStep::LaunchEngine),
            preprocessor@.renderer.timeout == config.timeout,
            preprocessor@.renderer.chrome_path == config.chrome_path,
            preprocessor@.renderer.init_script == config.init_script_text(),
    {
        let renderer = renderer::Mermaid::try_init_with_config(&config);
        Mermaid { renderer, config }
    }

    /// The name under which the host knows the preprocessor.
    pub fn name(&self) -> (name: &'static str)
        ensures
            name@ == "mermaid-ssr"@,
    {
        "mermaid-ssr"
    }

    /// Whether the preprocessor works for the given output format: for HTML
    /// and for no other.
    pub fn supports_renderer(&self, renderer: &str) -> (supported: bool)
        ensures
            supported == (renderer@ == "html"@),
    {
        same_text(renderer, "html")
    }

    /// The configuration of the run.
    pub fn config(&self) -> (config: &Config)
        ensures
            *config == self@.config,
    {
        &self.config
    }

    /// The renderer.
    pub fn renderer(&self) -> (renderer: &renderer::Mermaid)
        ensures
            renderer@ == self@.renderer,
    {
        &self.renderer
    }

    /// The preprocessor after the pending step of its renderer's session has
    /// succeeded or failed.
    pub fn step_done(self, succeeded: bool) -> (preprocessor: Mermaid)
        ensures
            preprocessor@.config == self@.config,
            preprocessor@.renderer.state == self@.renderer.state.after(succeeded),
            preprocessor@.renderer.timeout == self@.renderer.timeout,
            preprocessor@.renderer.chrome_path == self@.renderer.chrome_path,
            preprocessor@.renderer.init_script == self@.renderer.init_script,
    {
        let Mermaid { renderer, config } = self;
        Mermaid { renderer: renderer.step_done(succeeded), config }
    }

    /// The run over the chapters of a book, begun, once the renderer's
    /// session is up; no chapter is taken up before, nor with a session that
    /// is unusable.
    pub fn run(&self, chapters: Vec<String>) -> (run: Option<Run>)
        ensures
            run is Some <==> self@.renderer.state == ChannelState::Ready,
            run matches Some(r) ==> r@ == RunView::started(texts(chapters@), self@.config.on_error),
    {
        if self.renderer.is_ready() {
            Some(Run::start(chapters, self.config.on_error))
        } else {
            None
        }
    }
}

/// Takes a chapter's text into the pipeline and scans it: the document that
/// comes back says which diagram is to be rendered first, or is ready to be
/// composed where the chapter holds none.
pub fn add_mermaid(content: &str, config: &Config) -> (doc: Document)
    ensures
        doc@ == DocumentView::fresh(content@, config.on_error).scanned_from_idle(
            scanned(page_events(content@)),
        ),
{
    Document::new(content, config.on_error).scan()
}

} // verus!
