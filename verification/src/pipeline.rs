//! The pipeline of one document: scan it for diagram blocks, have each block
//! rendered in document order, and compose the new text. The document decides
//! and the caller renders: it asks the document what to render next, sends
//! that to the engine, and hands the engine's reply back.

use crate::annotation::{admonition, admonition_for};
use crate::compositor::{
    compose, covered, lemma_outside_unchanged, lemma_replacement_bytes, lemma_spliced_valid,
    replaceable, replacement_views, shift, spliced, Replacement, ReplacementView,
};
use crate::config::ErrorHandling;
use crate::renderer::{
    fx_hash, outcome_of, outcome_view, render_outcome, reply_text, unescape_result, EngineReply,
    RenderError, RenderErrorView, RenderRequest,
};
use crate::scanner::{
    are_blocks_in_text, blocks_in_text, event_views, extensions_of_page, page_events, parse_events,
    scan_events,
    scanned, DiagramBlock, MarkdownEvent,
};
use crate::text::{byte_slice, lemma_encode_concat};
use vstd::prelude::*;
use vstd::string::StringExecFns;
use vstd::string::StringSliceAdditionalSpecFns;
use vstd::utf8::*;

verus! {

/// Where a document stands in the pipeline.
#[derive(Clone, Copy, Debug, PartialEq, Eq, Structural)]
pub enum Phase {
    /// Nothing has been done yet.
    Idle,
    /// The document is being scanned for diagram blocks.
    Scanning,
    /// Diagram blocks are waiting to be rendered.
    Rendering,
    /// Every block is resolved; the new text can be composed.
    Composing,
    /// The new text is there.
    Done,
    /// A block could not be rendered and the run is to fail.
    Failed,
}

/// The mathematical value of a `Document`.
pub struct DocumentView {
    /// The original text.
    pub text: Seq<char>,
    /// What to do when a block cannot be rendered.
    pub policy: ErrorHandling,
    pub phase: Phase,
    /// The diagram blocks, in document order.
    pub blocks: Seq<DiagramBlock>,
    /// What takes the place of the first blocks: one replacement for each
    /// block that is resolved.
    pub resolved: Seq<ReplacementView>,
    /// Why the document failed.
    pub failure: Option<RenderErrorView>,
    /// The new text.
    pub output: Option<Seq<char>>,
}

/// The blocks of a document as far as they can be used: the blocks that the
/// scanner finds, if each of their spans can be cut out of the text and they
/// keep apart, and none otherwise.
pub open spec fn usable_blocks(text: Seq<char>, found: Seq<DiagramBlock>) -> Seq<DiagramBlock> {
    if blocks_in_text(encode_utf8(text), found) {
        found
    } else {
        Seq::empty()
    }
}

/// What follows an artifact in the document: a blank line.
pub open spec fn rendered_text(artifact: Seq<char>) -> Seq<char> {
    artifact + "\n\n"@
}

impl DocumentView {
    /// The document as it enters the pipeline.
    pub open spec fn fresh(text: Seq<char>, policy: ErrorHandling) -> DocumentView {
        DocumentView {
            text,
            policy,
            phase: Phase::Idle,
            blocks: Seq::empty(),
            resolved: Seq::empty(),
            failure: None,
            output: None,
        }
    }

    /// What holds of every document: its blocks can be cut out of its text,
    /// the resolved blocks are the first ones, each replaced over its whole
    /// span, and the phase says how far it has come.
    pub open spec fn well_formed(self) -> bool {
        &&& blocks_in_text(encode_utf8(self.text), self.blocks)
        &&& self.resolved.len() <= self.blocks.len()
        &&& forall|i: int|
            0 <= i < self.resolved.len() ==> (#[trigger] self.resolved[i]).span
                == self.blocks[i].enclosing_span
        &&& match self.phase {
            Phase::Idle | Phase::Scanning => self.blocks.len() == 0 && self.failure is None
                && self.output is None,
            Phase::Rendering => self.resolved.len() < self.blocks.len() && self.failure is None
                && self.output is None,
            Phase::Composing => self.resolved.len() == self.blocks.len() && self.failure is None
                && self.output is None,
            Phase::Done => self.resolved.len() == self.blocks.len() && self.failure is None
                && self.output == Some(self.composed_text()),
            Phase::Failed => self.resolved.len() < self.blocks.len() && self.failure is Some
                && self.output is None,
        }
    }

    /// From `Idle` into `Scanning`.
    pub open spec fn scanning(self) -> DocumentView {
        if self.phase == Phase::Idle {
            DocumentView { phase: Phase::Scanning, ..self }
        } else {
            self
        }
    }

    /// From `Scanning` on, with the blocks that the scanner found: into
    /// `Rendering` where there is a usable block, and else into `Composing`.
    pub open spec fn scanned_with(self, found: Seq<DiagramBlock>) -> DocumentView {
        if self.phase == Phase::Scanning {
            let blocks = usable_blocks(self.text, found);
            DocumentView {
                blocks,
                phase: if blocks.len() > 0 {
                    Phase::Rendering
                } else {
                    Phase::Composing
                },
                ..self
            }
        } else {
            self
        }
    }

    /// The source of the block that is to be rendered next: the text under
    /// the block's content span.
    pub open spec fn pending_source(self) -> Seq<char> {
        let span = self.blocks[self.resolved.len() as int].content_span;
        decode_utf8(encode_utf8(self.text).subrange(span.start as int, span.end as int))
    }

    /// The document with one more block resolved by `text`.
    pub open spec fn resolved_with(self, text: Seq<char>) -> DocumentView {
        let span = self.blocks[self.resolved.len() as int].enclosing_span;
        DocumentView {
            resolved: self.resolved.push(ReplacementView { span, text }),
            phase: if self.resolved.len() + 1 == self.blocks.len() {
                Phase::Composing
            } else {
                Phase::Rendering
            },
            ..self
        }
    }

    /// From `Rendering` on, with the outcome of rendering the pending block.
    /// An artifact resolves the block, followed by a blank line. An error
    /// fails the document where the policy is to fail, and nothing is
    /// composed; where the policy is to comment, an admonition that names the
    /// cause and shows the source resolves the block.
    pub open spec fn with_outcome(self, outcome: Result<Seq<char>, RenderErrorView>) -> DocumentView {
        if self.phase == Phase::Rendering {
            match outcome {
                Ok(artifact) => self.resolved_with(rendered_text(artifact)),
                Err(error) => match self.policy {
                    ErrorHandling::Fail => DocumentView {
                        phase: Phase::Failed,
                        failure: Some(error),
                        ..self
                    },
                    ErrorHandling::Comment => self.resolved_with(
                        admonition(error.message(), self.pending_source()),
                    ),
                },
            }
        } else {
            self
        }
    }

    /// The document after a sequence of outcomes, one after the other.
    pub open spec fn after_outcomes(
        self,
        outcomes: Seq<Result<Seq<char>, RenderErrorView>>,
    ) -> DocumentView
        decreases outcomes.len(),
    {
        if outcomes.len() == 0 {
            self
        } else {
            self.after_outcomes(outcomes.drop_last()).with_outcome(outcomes.last())
        }
    }

    /// What resolves the pending block on the given outcome, where the
    /// document does not fail on it: the artifact and a blank line, or the
    /// admonition for the error.
    pub open spec fn resolution(self, outcome: Result<Seq<char>, RenderErrorView>) -> Seq<char> {
        match outcome {
            Ok(artifact) => rendered_text(artifact),
            Err(error) => admonition(error.message(), self.pending_source()),
        }
    }

    /// Whether the document fails on the given outcome.
    pub open spec fn fails_on(self, outcome: Result<Seq<char>, RenderErrorView>) -> bool {
        outcome is Err && self.policy == ErrorHandling::Fail
    }

    /// The new text: the original with each block's enclosing span replaced.
    pub open spec fn composed_text(self) -> Seq<char> {
        decode_utf8(spliced(encode_utf8(self.text), self.resolved))
    }

    /// An idle document, scanned: into `Rendering` or `Composing` with the
    /// usable ones of the blocks that the scanner found.
    pub open spec fn scanned_from_idle(self, found: Seq<DiagramBlock>) -> DocumentView {
        if self.phase == Phase::Idle {
            self.scanning().scanned_with(found)
        } else {
            self
        }
    }

    /// From `Composing` into `Done`, with the new text.
    pub open spec fn composed(self) -> DocumentView {
        if self.phase == Phase::Composing {
            DocumentView { phase: Phase::Done, output: Some(self.composed_text()), ..self }
        } else {
            self
        }
    }

    /// What the document has come to: the new text, the failure, or nothing
    /// yet.
    pub open spec fn result(self) -> Option<Result<Seq<char>, RenderErrorView>> {
        match self.phase {
            Phase::Done => Some(Ok(self.output->0)),
            Phase::Failed => Some(Err(self.failure->0)),
            _ => None,
        }
    }
}

/// The replacements of a well-formed document can be applied to its text.
pub proof fn lemma_resolved_replaceable(doc: DocumentView)
    requires
        doc.well_formed(),
    ensures
        replaceable(encode_utf8(doc.text), doc.resolved),
{
    let bytes = encode_utf8(doc.text);
    assert forall|i: int, j: int| 0 <= i < j < doc.resolved.len() implies (
    #[trigger] doc.resolved[i]).span.end <= (#[trigger] doc.resolved[j]).span.start by {
        assert(doc.blocks[i].enclosing_span.end <= doc.blocks[j].enclosing_span.start);
    }
    assert forall|i: int| 0 <= i < doc.resolved.len() implies crate::text::char_range(
        bytes,
        (#[trigger] doc.resolved[i]).span.start as int,
        doc.resolved[i].span.end as int,
    ) by {
        assert(doc.resolved[i].span == doc.blocks[i].enclosing_span);
    }
}

/// The bytes of the new text are the bytes of the original with each
/// resolved block's enclosing span replaced.
pub proof fn lemma_composed_bytes(doc: DocumentView)
    requires
        doc.well_formed(),
    ensures
        encode_utf8(doc.composed_text()) == spliced(encode_utf8(doc.text), doc.resolved),
{
    lemma_resolved_replaceable(doc);
    encode_utf8_valid_utf8(doc.text);
    lemma_spliced_valid(encode_utf8(doc.text), doc.resolved);
    decode_utf8_encode_utf8(spliced(encode_utf8(doc.text), doc.resolved));
}

/// Non-interference: a byte of a document that lies in the enclosing span of
/// none of its resolved blocks stands unchanged in the new text, moved by the
/// growth of the blocks before it.
pub proof fn lemma_document_keeps_outside(doc: DocumentView, at: int)
    requires
        doc.well_formed(),
        0 <= at < encode_utf8(doc.text).len(),
        !covered(doc.resolved, at),
    ensures
        0 <= at + shift(doc.resolved, at) < encode_utf8(doc.composed_text()).len(),
        encode_utf8(doc.composed_text())[at + shift(doc.resolved, at)] == encode_utf8(
            doc.text,
        )[at],
{
    lemma_composed_bytes(doc);
    lemma_resolved_replaceable(doc);
    encode_utf8_valid_utf8(doc.text);
    lemma_outside_unchanged(encode_utf8(doc.text), doc.resolved, at);
}

/// What stands before the first block of a document, as text.
pub open spec fn text_before(doc: DocumentView) -> Seq<char> {
    decode_utf8(encode_utf8(doc.text).subrange(0, doc.blocks[0].enclosing_span.start as int))
}

/// What stands behind the first block of a document, as text.
pub open spec fn text_behind(doc: DocumentView) -> Seq<char> {
    decode_utf8(
        encode_utf8(doc.text).subrange(
            doc.blocks[0].enclosing_span.end as int,
            encode_utf8(doc.text).len() as int,
        ),
    )
}

/// A document with one diagram block whose render gives an artifact comes
/// out as what stood before the block, a line break, the artifact, a blank
/// line, and what stood behind the block: the request was for the block's
/// payload, and of the block itself, fences, info string and payload,
/// nothing is left.
pub proof fn lemma_single_block_rendered(doc: DocumentView, artifact: Seq<char>)
    requires
        doc.well_formed(),
        doc.phase == Phase::Rendering,
        doc.blocks.len() == 1,
    ensures
        doc.with_outcome(Ok(artifact)).phase == Phase::Composing,
        doc.with_outcome(Ok(artifact)).composed().phase == Phase::Done,
        doc.with_outcome(Ok(artifact)).composed().output == Some(
            text_before(doc) + seq!['\n'] + artifact + "\n\n"@ + text_behind(doc),
        ),
        doc.with_outcome(Ok(artifact)).composed().result() == Some(
            Ok::<Seq<char>, RenderErrorView>(
                text_before(doc) + seq!['\n'] + artifact + "\n\n"@ + text_behind(doc),
            ),
        ),
{
    let bytes = encode_utf8(doc.text);
    let span = doc.blocks[0].enclosing_span;
    let after = doc.with_outcome(Ok(artifact));
    let replacement = ReplacementView { span, text: rendered_text(artifact) };
    let before = bytes.subrange(0, span.start as int);
    let behind = bytes.subrange(span.end as int, bytes.len() as int);
    let middle = seq!['\n'] + rendered_text(artifact);
    assert(doc.resolved =~= Seq::empty());
    assert(after.resolved =~= seq![replacement]);
    assert(after.resolved.drop_last() =~= Seq::<ReplacementView>::empty());
    assert(after.resolved.last() == replacement);
    assert(spliced(bytes, after.resolved) =~= before + replacement.bytes() + behind) by {
        reveal_with_fuel(spliced, 2);
        assert(spliced(before, after.resolved.drop_last()) == before);
    }
    encode_utf8_valid_utf8(doc.text);
    valid_utf8_split(bytes, span.start as int);
    valid_utf8_split(bytes, span.end as int);
    decode_utf8_encode_utf8(before);
    decode_utf8_encode_utf8(behind);
    lemma_replacement_bytes(replacement);
    lemma_encode_concat(text_before(doc), middle);
    lemma_encode_concat(text_before(doc) + middle, text_behind(doc));
    encode_utf8_decode_utf8(text_before(doc) + middle + text_behind(doc));
    assert(text_before(doc) + middle + text_behind(doc) =~= text_before(doc) + seq!['\n']
        + artifact + "\n\n"@ + text_behind(doc));
}

/// A character that neither what stands before the block, nor the artifact,
/// nor what stands behind the block holds, and that is no line break, is
/// not in the new text: where these hold no backtick, no fence marker is
/// left behind.
pub proof fn lemma_single_block_leaves_no_marker(doc: DocumentView, artifact: Seq<char>, c: char)
    requires
        doc.well_formed(),
        doc.phase == Phase::Rendering,
        doc.blocks.len() == 1,
        c != '\n',
        !text_before(doc).contains(c),
        !artifact.contains(c),
        !text_behind(doc).contains(c),
    ensures
        doc.with_outcome(Ok(artifact)).composed().output matches Some(out) && !out.contains(c),
{
    lemma_single_block_rendered(doc, artifact);
    let out = text_before(doc) + seq!['\n'] + artifact + "\n\n"@ + text_behind(doc);
    reveal_strlit("\n\n");
    if out.contains(c) {
        let i = choose|i: int| 0 <= i < out.len() && out[i] == c;
        let a = text_before(doc).len() as int;
        let b = a + 1 + artifact.len();
        if i < a {
            assert(text_before(doc)[i] == c);
        } else if i == a {
        } else if i < b {
            assert(artifact[i - a - 1] == c);
        } else if i < b + 2 {
            assert("\n\n"@[i - b] == '\n');
        } else {
            assert(text_behind(doc)[i - b - 2] == c);
        }
    }
}

/// Resolving the pending block keeps a document well formed.
proof fn lemma_resolved_with_well_formed(doc: DocumentView, text: Seq<char>)
    requires
        doc.well_formed(),
        doc.phase == Phase::Rendering,
    ensures
        doc.resolved_with(text).well_formed(),
{
    let after = doc.resolved_with(text);
    assert forall|i: int| 0 <= i < after.resolved.len() implies (#[trigger] after.resolved[i]).span
        == after.blocks[i].enclosing_span by {
        if i < doc.resolved.len() {
            assert(after.resolved[i] == doc.resolved[i]);
        }
    }
}

/// Every step keeps a document well formed.
pub proof fn lemma_steps_keep_well_formed(
    doc: DocumentView,
    found: Seq<DiagramBlock>,
    outcome: Result<Seq<char>, RenderErrorView>,
)
    requires
        doc.well_formed(),
    ensures
        doc.scanning().well_formed(),
        doc.scanned_with(found).well_formed(),
        doc.with_outcome(outcome).well_formed(),
        doc.composed().well_formed(),
{
    if doc.phase == Phase::Rendering {
        match outcome {
            Ok(artifact) => lemma_resolved_with_well_formed(doc, rendered_text(artifact)),
            Err(error) => lemma_resolved_with_well_formed(
                doc,
                admonition(error.message(), doc.pending_source()),
            ),
        }
    }
    assert(doc.composed().composed_text() == doc.composed_text());
}

/// A document fails only while it renders, only under the policy to fail,
/// and only on an error.
pub proof fn lemma_fails_only_under_fail_policy(
    doc: DocumentView,
    outcome: Result<Seq<char>, RenderErrorView>,
)
    requires
        doc.well_formed(),
        doc.phase != Phase::Failed,
        doc.with_outcome(outcome).phase == Phase::Failed,
    ensures
        doc.phase == Phase::Rendering,
        doc.policy == ErrorHandling::Fail,
        outcome is Err,
        doc.with_outcome(outcome).failure == Some(outcome->Err_0),
        doc.with_outcome(outcome).output is None,
{
}

/// Outcomes on which the document does not fail resolve its blocks in
/// document order, one block each: after as many outcomes as blocks were
/// waiting the document is ready to be composed, and before that it still
/// renders. Under the policy to comment this holds of all outcomes.
pub proof fn lemma_outcomes_resolve_in_order(
    doc: DocumentView,
    outcomes: Seq<Result<Seq<char>, RenderErrorView>>,
)
    requires
        doc.well_formed(),
        doc.phase == Phase::Rendering,
        outcomes.len() <= doc.blocks.len() - doc.resolved.len(),
        forall|i: int| 0 <= i < outcomes.len() ==> !doc.fails_on(#[trigger] outcomes[i]),
    ensures
        doc.after_outcomes(outcomes).well_formed(),
        doc.after_outcomes(outcomes).blocks == doc.blocks,
        doc.after_outcomes(outcomes).text == doc.text,
        doc.after_outcomes(outcomes).policy == doc.policy,
        doc.after_outcomes(outcomes).failure is None,
        doc.after_outcomes(outcomes).resolved.len() == doc.resolved.len() + outcomes.len(),
        doc.after_outcomes(outcomes).resolved.take(doc.resolved.len() as int) == doc.resolved,
        doc.after_outcomes(outcomes).phase == if doc.resolved.len() + outcomes.len()
            == doc.blocks.len() {
            Phase::Composing
        } else {
            Phase::Rendering
        },
        outcomes.len() > 0 ==> doc.after_outcomes(outcomes).resolved.last().span
            == doc.blocks[doc.resolved.len() + outcomes.len() - 1].enclosing_span,
        outcomes.len() > 0 ==> doc.after_outcomes(outcomes).resolved.last().text
            == doc.after_outcomes(outcomes.drop_last()).resolution(outcomes.last()),
    decreases outcomes.len(),
{
    if outcomes.len() == 0 {
        assert(doc.resolved.take(doc.resolved.len() as int) =~= doc.resolved);
    } else {
        let before = doc.after_outcomes(outcomes.drop_last());
        assert forall|i: int| 0 <= i < outcomes.drop_last().len() implies !doc.fails_on(
            #[trigger] outcomes.drop_last()[i],
        ) by {
            assert(outcomes.drop_last()[i] == outcomes[i]);
        }
        lemma_outcomes_resolve_in_order(doc, outcomes.drop_last());
        lemma_steps_keep_well_formed(before, Seq::empty(), outcomes.last());
        assert(!doc.fails_on(outcomes[outcomes.len() - 1]));
        let after = before.with_outcome(outcomes.last());
        assert(after.resolved.take(doc.resolved.len() as int) =~= before.resolved.take(
            doc.resolved.len() as int,
        ));
    }
}

/// Under the policy to fail the first error fails the document at once:
/// the blocks before it are resolved, the failure is that error, nothing is
/// composed, and what comes after the error changes nothing.
pub proof fn lemma_first_error_fails(
    doc: DocumentView,
    outcomes: Seq<Result<Seq<char>, RenderErrorView>>,
    first: int,
)
    requires
        doc.well_formed(),
        doc.phase == Phase::Rendering,
        doc.policy == ErrorHandling::Fail,
        0 <= first < outcomes.len(),
        first < doc.blocks.len() - doc.resolved.len(),
        outcomes[first] is Err,
        forall|i: int| 0 <= i < first ==> (#[trigger] outcomes[i]) is Ok,
    ensures
        doc.after_outcomes(outcomes).phase == Phase::Failed,
        doc.after_outcomes(outcomes).failure == Some(outcomes[first]->Err_0),
        doc.after_outcomes(outcomes).output is None,
        doc.after_outcomes(outcomes).resolved.len() == doc.resolved.len() + first,
        doc.after_outcomes(outcomes).result() == Some(
            Err::<Seq<char>, RenderErrorView>(outcomes[first]->Err_0),
        ),
    decreases outcomes.len(),
{
    let earlier = outcomes.drop_last();
    if first == outcomes.len() - 1 {
        assert forall|i: int| 0 <= i < earlier.len() implies !doc.fails_on(
            #[trigger] earlier[i],
        ) by {
            assert(earlier[i] == outcomes[i]);
        }
        lemma_outcomes_resolve_in_order(doc, earlier);
    } else {
        assert(earlier[first] == outcomes[first]);
        assert forall|i: int| 0 <= i < first implies (#[trigger] earlier[i]) is Ok by {
            assert(earlier[i] == outcomes[i]);
        }
        lemma_first_error_fails(doc, earlier, first);
    }
}

/// Once a document has failed or is done, no outcome changes it.
pub proof fn lemma_end_is_final(doc: DocumentView, outcome: Result<Seq<char>, RenderErrorView>)
    requires
        doc.phase == Phase::Failed || doc.phase == Phase::Done,
    ensures
        doc.with_outcome(outcome) == doc,
        doc.composed() == doc,
{
}

/// A document without diagram blocks is composed to its own text.
pub proof fn lemma_without_blocks_unchanged(doc: DocumentView)
    requires
        doc.well_formed(),
        doc.phase == Phase::Scanning,
    ensures
        doc.scanned_with(Seq::empty()).composed().output == Some(doc.text),
{
    encode_utf8_decode_utf8(doc.text);
}

/// One document on its way through the pipeline.
#[derive(Debug)]
pub struct Document {
    text: String,
    policy: ErrorHandling,
    phase: Phase,
    blocks: Vec<DiagramBlock>,
    resolved: Vec<Replacement>,
    failure: Option<RenderError>,
    output: Option<String>,
}

impl View for Document {
    type V = DocumentView;

    closed spec fn view(&self) -> DocumentView {
        DocumentView {
            text: self.text@,
            policy: self.policy,
            phase: self.phase,
            blocks: self.blocks@,
            resolved: replacement_views(self.resolved@),
            failure: match self.failure {
                Some(error) => Some(error@),
                None => None,
            },
            output: match self.output {
                Some(text) => Some(text@),
                None => None,
            },
        }
    }
}

impl Document {
    #[verifier::type_invariant]
    spec fn inv(self) -> bool {
        self@.well_formed()
    }

    /// A document with the given text, before anything is done to it.
    pub fn new(text: &str, policy: ErrorHandling) -> (doc: Document)
        ensures
            doc@ == DocumentView::fresh(text@, policy),
            doc@.well_formed(),
    {
        let doc = Document {
            text: String::from_str(text),
            policy,
            phase: Phase::Idle,
            blocks: Vec::new(),
            resolved: Vec::new(),
            failure: None,
            output: None,
        };
        assert(doc@.resolved =~= Seq::empty());
        doc
    }

    /// Where the document stands.
    pub fn phase(&self) -> (phase: Phase)
        ensures
            phase == self@.phase,
            self@.well_formed(),
    {
        proof {
            use_type_invariant(self);
        }
        self.phase
    }

    /// From `Idle` into `Scanning`; a document in another phase stays as it
    /// is.
    pub fn begin_scan(self) -> (doc: Document)
        ensures
            doc@ == self@.scanning(),
    {
        proof {
            use_type_invariant(&self);
        }
        match self.phase {
            Phase::Idle => Document { phase: Phase::Scanning, ..self },
            _ => self,
        }
    }

    /// From `Scanning` on, with the events of the document's text: the
    /// diagram blocks among them become the document's blocks, if they can be
    /// cut out of the text. A document in another phase stays as it is.
    pub fn accept_events(self, events: &Vec<MarkdownEvent>) -> (doc: Document)
        ensures
            doc@ == self@.scanned_with(scanned(event_views(events@))),
    {
        proof {
            use_type_invariant(&self);
        }
        match self.phase {
            Phase::Scanning => {
                let found = scan_events(events);
                let usable = are_blocks_in_text(self.text.as_str(), &found);
                let blocks = if usable {
                    found
                } else {
                    Vec::new()
                };
                let phase = if blocks.len() > 0 {
                    Phase::Rendering
                } else {
                    Phase::Composing
                };
                assert(self@.resolved.len() == 0);
                Document { blocks, phase, ..self }
            },
            _ => self,
        }
    }

    /// Scans an idle document for its diagram blocks; a document in another
    /// phase stays as it is.
    pub fn scan(self) -> (doc: Document)
        ensures
            doc@ == self@.scanned_from_idle(scanned(page_events(self@.text))),
    {
        proof {
            use_type_invariant(&self);
        }
        match self.phase {
            Phase::Idle => {
                let events = parse_events(self.text.as_str(), extensions_of_page());
                self.begin_scan().accept_events(&events)
            },
            _ => self,
        }
    }

    /// What is to be rendered next: the request for the first block that is
    /// not resolved, while the document renders, and nothing in any other
    /// phase.
    pub fn pending(&self) -> (request: Option<RenderRequest>)
        ensures
            request is Some <==> self@.phase == Phase::Rendering,
            request matches Some(r) ==> r.diagram_source@ == self@.pending_source()
                && r.identifier == fx_hash(self@.pending_source()),
    {
        proof {
            use_type_invariant(self);
        }
        match self.phase {
            Phase::Rendering => {
                let source = self.pending_text();
                Some(RenderRequest::new(source))
            },
            _ => None,
        }
    }

    /// The source of the pending block.
    fn pending_text(&self) -> (source: &str)
        requires
            self@.phase == Phase::Rendering,
        ensures
            source@ == self@.pending_source(),
    {
        proof {
            use_type_invariant(self);
        }
        let block = self.blocks[self.resolved.len()];
        let source = byte_slice(
            self.text.as_str(),
            block.content_span.start,
            block.content_span.end,
        );
        proof {
            encode_utf8_decode_utf8(source@);
        }
        source
    }

    /// The document with the pending block resolved by `text`.
    fn resolve_with(self, text: String) -> (doc: Document)
        requires
            self@.phase == Phase::Rendering,
        ensures
            doc@ == self@.resolved_with(text@),
    {
        proof {
            use_type_invariant(&self);
        }
        let ghost before = self@;
        let ghost shown = text@;
        let Document { text: original, policy, phase: _, blocks, resolved, failure, output } = self;
        let mut resolved = resolved;
        let span = blocks[resolved.len()].enclosing_span;
        resolved.push(Replacement { span, text });
        let phase = if resolved.len() == blocks.len() {
            Phase::Composing
        } else {
            Phase::Rendering
        };
        proof {
            lemma_resolved_with_well_formed(before, shown);
            assert(replacement_views(resolved@) =~= before.resolved.push(
                ReplacementView { span, text: shown },
            ));
        }
        Document { text: original, policy, phase, blocks, resolved, failure, output }
    }

    /// From `Rendering` on, with the outcome of rendering the pending block;
    /// a document in another phase stays as it is.
    pub fn accept_outcome(self, outcome: Result<String, RenderError>) -> (doc: Document)
        ensures
            doc@ == self@.with_outcome(outcome_view(outcome)),
    {
        proof {
            use_type_invariant(&self);
        }
        match self.phase {
            Phase::Rendering => match outcome {
                Ok(artifact) => {
                    let mut text = artifact;
                    text.append("\n\n");
                    self.resolve_with(text)
                },
                Err(error) => match self.policy {
                    ErrorHandling::Fail => Document {
                        phase: Phase::Failed,
                        failure: Some(error),
                        ..self
                    },
                    ErrorHandling::Comment => {
                        let message = error.message();
                        let note = admonition_for(message.as_str(), self.pending_text());
                        self.resolve_with(note)
                    },
                },
            },
            _ => self,
        }
    }

    /// From `Rendering` on, with the engine's reply to the pending request;
    /// a document in another phase stays as it is.
    pub fn resolve(self, reply: EngineReply) -> (doc: Document)
        ensures
            doc@ == self@.with_outcome(
                outcome_of(reply@, unescape_result(reply_text(reply@))),
            ),
    {
        proof {
            use_type_invariant(&self);
        }
        match self.phase {
            Phase::Rendering => {
                let outcome = render_outcome(reply);
                self.accept_outcome(outcome)
            },
            _ => self,
        }
    }

    /// From `Composing` into `Done`: composes the new text. A document in
    /// another phase stays as it is.
    pub fn compose(self) -> (doc: Document)
        ensures
            doc@ == self@.composed(),
    {
        proof {
            use_type_invariant(&self);
            lemma_resolved_replaceable(self@);
        }
        match self.phase {
            Phase::Composing => {
                let composed = compose(self.text.as_str(), &self.resolved);
                proof {
                    encode_utf8_decode_utf8(composed@);
                }
                Document { phase: Phase::Done, output: Some(composed), ..self }
            },
            _ => self,
        }
    }

    /// What the document has come to: the new text where it is done or only
    /// waits to be composed, the failure where it has failed, and nothing
    /// while blocks are still to be rendered.
    pub fn finish(self) -> (result: Option<Result<String, RenderError>>)
        ensures
            match result {
                Some(Ok(text)) => self@.composed().result() == Some(
                    Ok::<Seq<char>, RenderErrorView>(text@),
                ),
                Some(Err(error)) => self@.composed().result() == Some(
                    Err::<Seq<char>, RenderErrorView>(error@),
                ),
                None => self@.composed().result() is None,
            },
    {
        let doc = self.compose();
        proof {
            use_type_invariant(&doc);
        }
        let Document { text: _, policy: _, phase, blocks: _, resolved: _, failure, output } = doc;
        match phase {
            Phase::Done => match output {
                Some(text) => Some(Ok(text)),
                None => None,
            },
            Phase::Failed => match failure {
                Some(error) => Some(Err(error)),
                None => None,
            },
            _ => None,
        }
    }
}

} // verus!
