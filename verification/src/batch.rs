//! A run over the chapters of a book: one chapter after the other through
//! the pipeline, stopping at the first chapter that fails.

use crate::config::ErrorHandling;
use crate::pipeline::{lemma_steps_keep_well_formed, Document, DocumentView, Phase};
use crate::renderer::{
    fx_hash, outcome_of, outcome_view, render_outcome, reply_text, unescape_result, EngineReply,
    RenderError, RenderErrorView, RenderRequest,
};
use crate::scanner::{page_events, scanned};
use vstd::prelude::*;

verus! {

/// The texts of a sequence of strings.
pub open spec fn texts(strings: Seq<String>) -> Seq<Seq<char>> {
    Seq::new(strings.len(), |i: int| strings[i]@)
}

/// A chapter as it stands right after the scan.
pub open spec fn scanned_chapter(text: Seq<char>, policy: ErrorHandling) -> DocumentView {
    DocumentView::fresh(text, policy).scanned_from_idle(scanned(page_events(text)))
}

/// The mathematical value of a `Run`.
pub struct RunView {
    /// What to do when a diagram cannot be rendered.
    pub policy: ErrorHandling,
    /// The chapters as they came, in book order.
    pub chapters: Seq<Seq<char>>,
    /// The new texts of the chapters that are done: the first ones.
    pub outputs: Seq<Seq<char>>,
    /// The chapter at work, where one has diagrams waiting.
    pub current: Option<DocumentView>,
    /// Why the run failed.
    pub failure: Option<RenderErrorView>,
}

impl RunView {
    /// What holds of every run: the chapters that are done are the first
    /// ones, the chapter at work is the next one and has a diagram waiting,
    /// and a failed run has no chapter at work.
    pub open spec fn well_formed(self) -> bool {
        &&& self.outputs.len() <= self.chapters.len()
        &&& match self.current {
            Some(doc) => {
                &&& self.failure is None
                &&& self.outputs.len() < self.chapters.len()
                &&& doc.text == self.chapters[self.outputs.len() as int]
                &&& doc.policy == self.policy
                &&& doc.phase == Phase::Rendering
                &&& doc.well_formed()
            },
            None => self.failure is None ==> self.outputs.len() == self.chapters.len(),
        }
    }

    /// A run with no chapter at work takes up the chapters that are left,
    /// in order: a chapter without diagrams is done at once, with the text
    /// that its document composes, and the first chapter with diagrams
    /// becomes the chapter at work.
    pub open spec fn opened(self) -> RunView
        decreases self.chapters.len() - self.outputs.len(),
    {
        if self.outputs.len() >= self.chapters.len() {
            self
        } else {
            let doc = scanned_chapter(self.chapters[self.outputs.len() as int], self.policy);
            if doc.phase == Phase::Rendering {
                RunView { current: Some(doc), ..self }
            } else {
                RunView { outputs: self.outputs.push(doc.composed().output->0), ..self }.opened()
            }
        }
    }

    /// A run between two chapters: `outputs` are done and none is at work.
    pub open spec fn between(
        policy: ErrorHandling,
        chapters: Seq<Seq<char>>,
        outputs: Seq<Seq<char>>,
    ) -> RunView {
        RunView { policy, chapters, outputs, current: None, failure: None }
    }

    /// The run with `doc` as the chapter at work.
    pub open spec fn at_work(self, doc: DocumentView) -> RunView {
        RunView { current: Some(doc), ..self }
    }

    /// The run over `chapters` as it starts.
    pub open spec fn started(chapters: Seq<Seq<char>>, policy: ErrorHandling) -> RunView {
        RunView::between(policy, chapters, Seq::empty()).opened()
    }

    /// The run after the outcome of rendering the pending diagram. Where
    /// the chapter at work still has diagrams waiting, it stays at work.
    /// Where it has failed, the run has failed with its error, and no
    /// further chapter is taken up. Where it is resolved, it is composed and
    /// the run goes on to the chapters that are left. A run without a
    /// chapter at work stays as it is.
    pub open spec fn with_outcome(self, outcome: Result<Seq<char>, RenderErrorView>) -> RunView {
        match self.current {
            None => self,
            Some(doc) => {
                let next = doc.with_outcome(outcome);
                match next.phase {
                    Phase::Rendering => RunView { current: Some(next), ..self },
                    Phase::Failed => RunView { current: None, failure: next.failure, ..self },
                    _ => RunView {
                        current: None,
                        outputs: self.outputs.push(next.composed().output->0),
                        ..self
                    }.opened(),
                }
            },
        }
    }

    /// What the run has come to: the new texts of all chapters, the failure,
    /// or nothing yet.
    pub open spec fn result(self) -> Option<Result<Seq<Seq<char>>, RenderErrorView>> {
        match (self.failure, self.current) {
            (Some(error), _) => Some(Err(error)),
            (None, None) => Some(Ok(self.outputs)),
            (None, Some(_)) => None,
        }
    }

    /// The source of the diagram that is to be rendered next.
    pub open spec fn pending_source(self) -> Seq<char> {
        self.current->0.pending_source()
    }
}

/// Taking up the chapters that are left keeps a run well formed.
pub proof fn lemma_opened_well_formed(run: RunView)
    requires
        run.current is None,
        run.failure is None,
        run.outputs.len() <= run.chapters.len(),
    ensures
        run.opened().well_formed(),
        run.opened().failure is None,
        run.opened().chapters == run.chapters,
        run.opened().policy == run.policy,
    decreases run.chapters.len() - run.outputs.len(),
{
    if run.outputs.len() < run.chapters.len() {
        let text = run.chapters[run.outputs.len() as int];
        let fresh = DocumentView::fresh(text, run.policy);
        let doc = scanned_chapter(text, run.policy);
        lemma_steps_keep_well_formed(fresh, Seq::empty(), Ok(Seq::empty()));
        lemma_steps_keep_well_formed(
            fresh.scanning(),
            scanned(page_events(text)),
            Ok(Seq::empty()),
        );
        if doc.phase != Phase::Rendering {
            lemma_opened_well_formed(
                RunView { outputs: run.outputs.push(doc.composed().output->0), ..run },
            );
        }
    }
}

/// A chapter without diagram blocks comes out as it went in.
pub proof fn lemma_plain_chapter_unchanged(text: Seq<char>, policy: ErrorHandling)
    requires
        scanned_chapter(text, policy).phase != Phase::Rendering,
    ensures
        scanned_chapter(text, policy).composed().output == Some(text),
{
    vstd::utf8::encode_utf8_decode_utf8(text);
}

/// A book without diagram blocks comes out as it went in, and nothing is
/// asked of the engine.
pub proof fn lemma_plain_book_unchanged(run: RunView)
    requires
        run.current is None,
        run.failure is None,
        run.outputs.len() <= run.chapters.len(),
        run.outputs == run.chapters.take(run.outputs.len() as int),
        forall|i: int|
            0 <= i < run.chapters.len() ==> (#[trigger] scanned_chapter(
                run.chapters[i],
                run.policy,
            )).phase != Phase::Rendering,
    ensures
        run.opened().current is None,
        run.opened().outputs == run.chapters,
        run.opened().result() == Some(Ok::<Seq<Seq<char>>, RenderErrorView>(run.chapters)),
    decreases run.chapters.len() - run.outputs.len(),
{
    if run.outputs.len() < run.chapters.len() {
        let text = run.chapters[run.outputs.len() as int];
        let doc = scanned_chapter(text, run.policy);
        lemma_plain_chapter_unchanged(text, run.policy);
        let next = RunView { outputs: run.outputs.push(doc.composed().output->0), ..run };
        assert(next.outputs =~= run.chapters.take(next.outputs.len() as int));
        lemma_plain_book_unchanged(next);
    } else {
        assert(run.chapters.take(run.outputs.len() as int) =~= run.chapters);
    }
}

/// Every outcome keeps a run well formed.
pub proof fn lemma_outcome_keeps_well_formed(
    run: RunView,
    outcome: Result<Seq<char>, RenderErrorView>,
)
    requires
        run.well_formed(),
    ensures
        run.with_outcome(outcome).well_formed(),
{
    if let Some(doc) = run.current {
        let next = doc.with_outcome(outcome);
        lemma_steps_keep_well_formed(doc, Seq::empty(), outcome);
        if next.phase != Phase::Rendering && next.phase != Phase::Failed {
            lemma_opened_well_formed(
                RunView {
                    current: None,
                    outputs: run.outputs.push(next.composed().output->0),
                    ..run
                },
            );
        }
    }
}

/// A failed run asks for nothing more and is changed by nothing: no chapter
/// behind the failed one is ever taken up.
pub proof fn lemma_failure_ends_run(run: RunView, outcome: Result<Seq<char>, RenderErrorView>)
    requires
        run.well_formed(),
        run.failure is Some,
    ensures
        run.current is None,
        run.with_outcome(outcome) == run,
        run.result() == Some(Err::<Seq<Seq<char>>, RenderErrorView>(run.failure->0)),
{
}

/// A run fails only under the policy to fail, on an error of the diagram
/// that was pending, and its failure is that error; the chapters that were
/// done before stay done, and none is added.
pub proof fn lemma_run_fails_on_first_error(
    run: RunView,
    outcome: Result<Seq<char>, RenderErrorView>,
)
    requires
        run.well_formed(),
        run.failure is None,
        run.with_outcome(outcome).failure is Some,
    ensures
        run.policy == ErrorHandling::Fail,
        outcome is Err,
        run.with_outcome(outcome).failure == Some(outcome->Err_0),
        run.with_outcome(outcome).outputs == run.outputs,
{
    let doc = run.current->0;
    let next = doc.with_outcome(outcome);
    lemma_steps_keep_well_formed(doc, Seq::empty(), outcome);
    if next.phase != Phase::Rendering && next.phase != Phase::Failed {
        lemma_opened_well_formed(
            RunView {
                current: None,
                outputs: run.outputs.push(next.composed().output->0),
                ..run
            },
        );
    }
}

/// Under the policy to comment no run fails.
pub proof fn lemma_comment_policy_never_fails(
    run: RunView,
    outcome: Result<Seq<char>, RenderErrorView>,
)
    requires
        run.well_formed(),
        run.failure is None,
        run.policy == ErrorHandling::Comment,
    ensures
        run.with_outcome(outcome).failure is None,
{
    if run.with_outcome(outcome).failure is Some {
        lemma_run_fails_on_first_error(run, outcome);
    }
}

/// One run over the chapters of a book.
#[derive(Debug)]
pub struct Run {
    policy: ErrorHandling,
    chapters: Vec<String>,
    outputs: Vec<String>,
    current: Option<Document>,
    failure: Option<RenderError>,
}

impl View for Run {
    type V = RunView;

    closed spec fn view(&self) -> RunView {
        RunView {
            policy: self.policy,
            chapters: texts(self.chapters@),
            outputs: texts(self.outputs@),
            current: match self.current {
                Some(doc) => Some(doc@),
                None => None,
            },
            failure: match self.failure {
                Some(error) => Some(error@),
                None => None,
            },
        }
    }
}

impl Run {
    #[verifier::type_invariant]
    spec fn inv(self) -> bool {
        self@.well_formed()
    }

    /// Takes up the chapters that are left, up to the first one with
    /// diagrams.
    fn open(policy: ErrorHandling, chapters: Vec<String>, outputs: Vec<String>) -> (run: Run)
        requires
            outputs.len() <= chapters.len(),
        ensures
            run@ == RunView::between(policy, texts(chapters@), texts(outputs@)).opened(),
    {
        let ghost start = RunView::between(policy, texts(chapters@), texts(outputs@));
        let mut outputs = outputs;
        let mut current: Option<Document> = None;
        while current.is_none() && outputs.len() < chapters.len()
            invariant
                outputs.len() <= chapters.len(),
                start.policy == policy,
                start.chapters == texts(chapters@),
                current is None ==> start.opened() == RunView::between(
                    policy,
                    texts(chapters@),
                    texts(outputs@),
                ).opened(),
                current matches Some(doc) ==> start.opened() == RunView::between(
                    policy,
                    texts(chapters@),
                    texts(outputs@),
                ).at_work(doc@),
            decreases chapters.len() - outputs.len() + if current is None { 1int } else { 0int },
        {
            let doc = Document::new(chapters[outputs.len()].as_str(), policy).scan();
            match doc.phase() {
                Phase::Rendering => {
                    current = Some(doc);
                },
                _ => {
                    let ghost composed = doc@.composed();
                    match doc.finish() {
                        Some(Ok(text)) => {
                            let ghost old_outputs = outputs@;
                            outputs.push(text);
                            proof {
                                assert(texts(outputs@) =~= texts(old_outputs).push(
                                    composed.output->0,
                                ));
                            }
                        },
                        _ => {
                            assert(false);
                        },
                    }
                },
            }
        }
        proof {
            lemma_opened_well_formed(start);
        }
        Run { policy, chapters, outputs, current, failure: None }
    }

    /// The run over `chapters`, begun: the chapters without diagrams that
    /// come first are done, and the first chapter with diagrams is at work.
    pub fn start(chapters: Vec<String>, policy: ErrorHandling) -> (run: Run)
        ensures
            run@ == RunView::started(texts(chapters@), policy),
            run@.well_formed(),
            run@.policy == policy,
            run@.chapters == texts(chapters@),
            run@.failure is None,
    {
        let run = Run::open(policy, chapters, Vec::new());
        proof {
            use_type_invariant(&run);
            assert(texts(Seq::<String>::empty()) =~= Seq::<Seq<char>>::empty());
            lemma_opened_well_formed(RunView::between(policy, texts(chapters@), Seq::empty()));
        }
        run
    }

    /// What is to be rendered next: the request for the pending diagram of
    /// the chapter at work, and nothing where the run has failed or is done.
    pub fn pending(&self) -> (request: Option<RenderRequest>)
        ensures
            self@.well_formed(),
            request is Some <==> self@.current is Some,
            request matches Some(r) ==> r.diagram_source@ == self@.pending_source()
                && r.identifier == fx_hash(self@.pending_source()),
    {
        proof {
            use_type_invariant(self);
        }
        match &self.current {
            Some(doc) => doc.pending(),
            None => None,
        }
    }

    /// The run after the outcome of rendering the pending diagram; a run
    /// without a chapter at work stays as it is.
    pub fn accept_outcome(self, outcome: Result<String, RenderError>) -> (run: Run)
        ensures
            run@ == self@.with_outcome(outcome_view(outcome)),
    {
        proof {
            use_type_invariant(&self);
            lemma_outcome_keeps_well_formed(self@, outcome_view(outcome));
        }
        let Run { policy, chapters, outputs, current, failure } = self;
        match current {
            None => Run { policy, chapters, outputs, current: None, failure },
            Some(doc) => {
                let next = doc.accept_outcome(outcome);
                match next.phase() {
                    Phase::Rendering => Run {
                        policy,
                        chapters,
                        outputs,
                        current: Some(next),
                        failure,
                    },
                    _ => {
                        let ghost composed = next@.composed();
                        match next.finish() {
                            Some(Ok(text)) => {
                                let ghost old_outputs = outputs@;
                                let mut outputs = outputs;
                                outputs.push(text);
                                proof {
                                    assert(texts(outputs@) =~= texts(old_outputs).push(
                                        composed.output->0,
                                    ));
                                }
                                Run::open(policy, chapters, outputs)
                            },
                            Some(Err(error)) => Run {
                                policy,
                                chapters,
                                outputs,
                                current: None,
                                failure: Some(error),
                            },
                            None => {
                                assert(false);
                                Run { policy, chapters, outputs, current: None, failure }
                            },
                        }
                    },
                }
            },
        }
    }

    /// The run after the engine's reply to the pending request; a run
    /// without a chapter at work stays as it is.
    pub fn resolve(self, reply: EngineReply) -> (run: Run)
        ensures
            run@ == self@.with_outcome(outcome_of(reply@, unescape_result(reply_text(reply@)))),
    {
        proof {
            use_type_invariant(&self);
        }
        if self.current.is_some() {
            let outcome = render_outcome(reply);
            self.accept_outcome(outcome)
        } else {
            self
        }
    }

    /// What the run has come to: the new texts of all chapters, in book
    /// order, where every chapter is done; the error where a chapter has
    /// failed; and nothing while a diagram is still to be rendered.
    pub fn finish(self) -> (result: Option<Result<Vec<String>, RenderError>>)
        ensures
            match result {
                Some(Ok(chapters)) => self@.result() == Some(
                    Ok::<Seq<Seq<char>>, RenderErrorView>(texts(chapters@)),
                ),
                Some(Err(error)) => self@.result() == Some(
                    Err::<Seq<Seq<char>>, RenderErrorView>(error@),
                ),
                None => self@.result() is None,
            },
            result matches Some(Ok(chapters)) ==> chapters.len() == self@.chapters.len(),
    {
        proof {
            use_type_invariant(&self);
        }
        let Run { policy: _, chapters: _, outputs, current, failure } = self;
        match failure {
            Some(error) => Some(Err(error)),
            None => match current {
                Some(_) => None,
                None => Some(Ok(outputs)),
            },
        }
    }
}

} // verus!
