//! The block scanner: from the events of a Markdown document to the fenced
//! diagram blocks in it, each with the exact byte spans of its payload and of
//! the whole block.

use crate::compositor::Span;
use crate::text::{char_range, is_char_range, same_text};
use pulldown_cmark::{CodeBlockKind, Event, Options, Parser, Tag, TagEnd};
use vstd::prelude::*;
use vstd::string::StringSliceAdditionalSpecFns;

verus! {

/// What the scanner needs to know of a Markdown event.
#[derive(Clone, Debug)]
pub enum EventKind {
    /// A fenced code block opens; the field is its info string.
    FenceOpen(String),
    /// Text, in a code block or elsewhere.
    Text,
    /// A code block closes.
    CodeBlockEnd,
    /// Any other event.
    Other,
}

/// A Markdown event with the range of the source that it stands for.
#[derive(Clone, Debug)]
pub struct MarkdownEvent {
    pub kind: EventKind,
    pub span: Span,
}

/// The mathematical value of an `EventKind`.
pub enum EventShape {
    FenceOpen(Seq<char>),
    Text,
    CodeBlockEnd,
    Other,
}

/// The mathematical value of a `MarkdownEvent`.
pub struct EventView {
    pub kind: EventShape,
    pub span: Span,
}

impl View for EventKind {
    type V = EventShape;

    open spec fn view(&self) -> EventShape {
        match *self {
            EventKind::FenceOpen(info) => EventShape::FenceOpen(info@),
            EventKind::Text => EventShape::Text,
            EventKind::CodeBlockEnd => EventShape::CodeBlockEnd,
            EventKind::Other => EventShape::Other,
        }
    }
}

impl View for MarkdownEvent {
    type V = EventView;

    open spec fn view(&self) -> EventView {
        EventView { kind: self.kind@, span: self.span }
    }
}

/// The values of a sequence of events.
pub open spec fn event_views(events: Seq<MarkdownEvent>) -> Seq<EventView> {
    Seq::new(events.len(), |i: int| events[i]@)
}

/// A fenced diagram block: the span of its payload and the span of the whole
/// block, fences and info string included.
#[derive(Clone, Copy, Debug, PartialEq, Eq, Structural)]
pub struct DiagramBlock {
    pub content_span: Span,
    pub enclosing_span: Span,
}

/// Where the scanner stands between two events.
#[derive(Clone, Copy, Debug, PartialEq, Eq, Structural)]
pub enum ScanState {
    /// Not in a diagram block.
    Outside,
    /// In a diagram block; the field is the union of the text spans seen in
    /// it so far.
    InsideBlock(Option<Span>),
}

/// The info string that marks a fenced block as a diagram.
pub open spec fn diagram_keyword() -> Seq<char> {
    "mermaid"@
}

/// The smallest span that covers `seen`, if there is one, and `next`.
pub open spec fn span_union(seen: Option<Span>, next: Span) -> Span {
    match seen {
        None => next,
        Some(s) => Span {
            start: if s.start <= next.start { s.start } else { next.start },
            end: if s.end >= next.end { s.end } else { next.end },
        },
    }
}

/// The union of text spans does not depend on the order in which the spans
/// are met, and a span that is met twice counts once.
pub proof fn lemma_union_order(seen: Option<Span>, a: Span, b: Span)
    ensures
        span_union(Some(span_union(seen, a)), b) == span_union(Some(span_union(seen, b)), a),
        span_union(Some(span_union(seen, a)), a) == span_union(seen, a),
{
}

/// The union covers what was seen before and the span that is added, and
/// reaches no further than they do.
pub proof fn lemma_union_covers(seen: Span, next: Span)
    ensures
        span_union(Some(seen), next).start <= seen.start,
        span_union(Some(seen), next).start <= next.start,
        span_union(Some(seen), next).end >= seen.end,
        span_union(Some(seen), next).end >= next.end,
        span_union(Some(seen), next).start == seen.start || span_union(Some(seen), next).start
            == next.start,
        span_union(Some(seen), next).end == seen.end || span_union(Some(seen), next).end
            == next.end,
{
}

/// The state after `event`, coming from `state`.
pub open spec fn next_state(state: ScanState, event: EventView) -> ScanState {
    match event.kind {
        EventShape::FenceOpen(info) => if info == diagram_keyword() {
            ScanState::InsideBlock(None)
        } else {
            state
        },
        EventShape::Text => match state {
            ScanState::InsideBlock(seen) => ScanState::InsideBlock(
                Some(span_union(seen, event.span)),
            ),
            ScanState::Outside => state,
        },
        EventShape::CodeBlockEnd => ScanState::Outside,
        EventShape::Other => state,
    }
}

/// The block that `event` completes, coming from `state`: a code block's end
/// while in a diagram block gives the block, with the union of its text spans
/// as its payload (an empty span at the block's start where it had no text).
pub open spec fn completed_block(state: ScanState, event: EventView) -> Option<DiagramBlock> {
    match (state, event.kind) {
        (ScanState::InsideBlock(seen), EventShape::CodeBlockEnd) => Some(
            DiagramBlock {
                content_span: match seen {
                    Some(s) => s,
                    None => Span { start: event.span.start, end: event.span.start },
                },
                enclosing_span: event.span,
            },
        ),
        _ => None,
    }
}

/// The state after all of `events`, starting outside.
pub open spec fn state_after(events: Seq<EventView>) -> ScanState
    decreases events.len(),
{
    if events.len() == 0 {
        ScanState::Outside
    } else {
        next_state(state_after(events.drop_last()), events.last())
    }
}

/// The diagram blocks that `events` hold, in the order in which they close.
pub open spec fn scanned(events: Seq<EventView>) -> Seq<DiagramBlock>
    decreases events.len(),
{
    if events.len() == 0 {
        Seq::empty()
    } else {
        let before = scanned(events.drop_last());
        match completed_block(state_after(events.drop_last()), events.last()) {
            Some(block) => before.push(block),
            None => before,
        }
    }
}

/// The extensions of Markdown that the parser reads besides the common
/// syntax.
#[derive(Clone, Copy, Debug, PartialEq, Eq, Structural)]
pub struct Extensions {
    pub tables: bool,
    pub footnotes: bool,
    pub strikethrough: bool,
    pub tasklists: bool,
}

/// The extensions with which the page is rendered in the end: tables,
/// footnotes, strikethrough and task lists. The scanner reads with the same,
/// so that it sees the blocks that the page will have.
pub open spec fn page_extensions() -> Extensions {
    Extensions { tables: true, footnotes: true, strikethrough: true, tasklists: true }
}

/// The extensions with which the page is rendered in the end.
pub fn extensions_of_page() -> (extensions: Extensions)
    ensures
        extensions == page_extensions(),
{
    Extensions { tables: true, footnotes: true, strikethrough: true, tasklists: true }
}

/// The events that the Markdown parser gives for a document that it reads
/// with the given extensions.
pub uninterp spec fn markdown_events(text: Seq<char>, extensions: Extensions) -> Seq<EventView>;

/// The events of a document as the page's parser gives them.
pub open spec fn page_events(text: Seq<char>) -> Seq<EventView> {
    markdown_events(text, page_extensions())
}

/// `Parser::new_ext` and `Parser::into_offset_iter` of pulldown-cmark, with
/// `Options::set` for each of the extensions: the events of `text` with
/// their source ranges, each brought down to what the scanner reads. The
/// event stream is a function of the text and the extensions; nothing is
/// claimed of what it holds.
#[verifier::external_body]
pub(crate) fn parse_events(text: &str, extensions: Extensions) -> (events: Vec<MarkdownEvent>)
    ensures
        event_views(events@) == markdown_events(text@, extensions),
{
    let mut options = Options::empty();
    options.set(Options::ENABLE_TABLES, extensions.tables);
    options.set(Options::ENABLE_FOOTNOTES, extensions.footnotes);
    options.set(Options::ENABLE_STRIKETHROUGH, extensions.strikethrough);
    options.set(Options::ENABLE_TASKLISTS, extensions.tasklists);
    Parser::new_ext(text, options).into_offset_iter().map(|(event, range)| {
        let kind = match event {
            Event::Start(Tag::CodeBlock(CodeBlockKind::Fenced(info))) => EventKind::FenceOpen(info.to_string()),
            Event::Text(_) => EventKind::Text,
            Event::End(TagEnd::CodeBlock) => EventKind::CodeBlockEnd,
            _ => EventKind::Other,
        };
        MarkdownEvent { kind, span: Span { start: range.start, end: range.end } }
    }).collect()
}

/// The smallest span that covers `seen`, if there is one, and `next`.
fn union_of(seen: Option<Span>, next: Span) -> (all: Span)
    ensures
        all == span_union(seen, next),
{
    match seen {
        None => next,
        Some(s) => Span {
            start: if s.start <= next.start { s.start } else { next.start },
            end: if s.end >= next.end { s.end } else { next.end },
        },
    }
}

/// The diagram blocks among `events`, in document order.
pub fn scan_events(events: &Vec<MarkdownEvent>) -> (blocks: Vec<DiagramBlock>)
    ensures
        blocks@ == scanned(event_views(events@)),
{
    let ghost all = event_views(events@);
    let mut blocks: Vec<DiagramBlock> = Vec::new();
    let mut state = ScanState::Outside;
    let mut i: usize = 0;
    while i < events.len()
        invariant
            i <= events.len(),
            all == event_views(events@),
            state == state_after(all.take(i as int)),
            blocks@ == scanned(all.take(i as int)),
        decreases events.len() - i,
    {
        let event = &events[i];
        proof {
            let upto = all.take(i as int + 1);
            assert(upto.drop_last() =~= all.take(i as int));
            assert(upto.last() == event@);
        }
        match &event.kind {
            EventKind::FenceOpen(info) => {
                if same_text(info.as_str(), "mermaid") {
                    state = ScanState::InsideBlock(None);
                }
            },
            EventKind::Text => {
                if let ScanState::InsideBlock(seen) = state {
                    state = ScanState::InsideBlock(Some(union_of(seen, event.span)));
                }
            },
            EventKind::CodeBlockEnd => {
                if let ScanState::InsideBlock(seen) = state {
                    let content_span = match seen {
                        Some(s) => s,
                        None => Span { start: event.span.start, end: event.span.start },
                    };
                    blocks.push(DiagramBlock { content_span, enclosing_span: event.span });
                }
                state = ScanState::Outside;
            },
            EventKind::Other => {},
        }
        i += 1;
    }
    assert(all.take(i as int) =~= all);
    blocks
}

/// The blocks can be cut out of `text`: each span lies on character
/// boundaries of it, and the enclosing spans ascend and keep apart.
pub open spec fn blocks_in_text(text: Seq<u8>, blocks: Seq<DiagramBlock>) -> bool {
    &&& forall|i: int|
        0 <= i < blocks.len() ==> {
            &&& char_range(
                text,
                (#[trigger] blocks[i]).content_span.start as int,
                blocks[i].content_span.end as int,
            )
            &&& char_range(
                text,
                blocks[i].enclosing_span.start as int,
                blocks[i].enclosing_span.end as int,
            )
        }
    &&& forall|i: int, j: int|
        0 <= i < j < blocks.len() ==> (#[trigger] blocks[i]).enclosing_span.end <= (
        #[trigger] blocks[j]).enclosing_span.start
}

/// Whether `blocks` can be cut out of `text`.
pub fn are_blocks_in_text(text: &str, blocks: &Vec<DiagramBlock>) -> (ok: bool)
    ensures
        ok == blocks_in_text(text.spec_bytes(), blocks@),
{
    let ghost bytes = text.spec_bytes();
    let mut floor: usize = 0;
    let mut i: usize = 0;
    while i < blocks.len()
        invariant
            i <= blocks.len(),
            bytes == text.spec_bytes(),
            blocks_in_text(bytes, blocks@.take(i as int)),
            forall|j: int| 0 <= j < i ==> (#[trigger] blocks@[j]).enclosing_span.end <= floor,
            i == 0 ==> floor == 0,
            i > 0 ==> floor == blocks@[i - 1].enclosing_span.end,
        decreases blocks.len() - i,
    {
        let block = blocks[i];
        let inside = is_char_range(text, block.content_span.start, block.content_span.end);
        let around = is_char_range(text, block.enclosing_span.start, block.enclosing_span.end);
        if !(inside && around && floor <= block.enclosing_span.start) {
            proof {
                if blocks_in_text(bytes, blocks@) {
                    assert(char_range(
                        bytes,
                        blocks@[i as int].enclosing_span.start as int,
                        blocks@[i as int].enclosing_span.end as int,
                    ));
                    if i > 0 {
                        assert(blocks@[i - 1].enclosing_span.end
                            <= blocks@[i as int].enclosing_span.start);
                    }
                }
            }
            return false;
        }
        proof {
            let next = blocks@.take(i as int + 1);
            assert forall|j: int| 0 <= j < next.len() implies {
                &&& char_range(
                    bytes,
                    (#[trigger] next[j]).content_span.start as int,
                    next[j].content_span.end as int,
                )
                &&& char_range(
                    bytes,
                    next[j].enclosing_span.start as int,
                    next[j].enclosing_span.end as int,
                )
            } by {
                if j < i {
                    assert(next[j] == blocks@.take(i as int)[j]);
                }
            }
            assert forall|a: int, b: int| 0 <= a < b < next.len() implies (
            #[trigger] next[a]).enclosing_span.end <= (#[trigger] next[b]).enclosing_span.start by {
                assert(next[a] == blocks@[a]);
                assert(next[b] == blocks@[b]);
                if b < i {
                    assert(blocks@.take(i as int)[a] == blocks@[a]);
                    assert(blocks@.take(i as int)[b] == blocks@[b]);
                }
            }
        }
        floor = block.enclosing_span.end;
        i += 1;
    }
    assert(blocks@.take(i as int) =~= blocks@);
    true
}

/// The diagram blocks of a document, in document order.
pub fn find_blocks(text: &str) -> (blocks: Vec<DiagramBlock>)
    ensures
        blocks@ == scanned(page_events(text@)),
{
    let events = parse_events(text, extensions_of_page());
    scan_events(&events)
}

} // verus!
