//! The diagram renderer's side of the engine protocol: the order in which a
//! session comes up, the script that asks the engine for one diagram, and
//! the reading of what the engine sends back.

use crate::config::{
    camel_named, gathers, init_script, lemma_nothing_to_forward, option_entries, options_json,
    Config, SecurityLevel, Timeout, DEFAULT_TIMEOUT_SECS,
};
use crate::text::{push_char, to_chars};
use std::path::PathBuf;
use vstd::prelude::*;
use vstd::string::StringExecFns;

verus! {

/// The letter that follows the backslash where `c` is written escaped; `None`
/// where `c` is written as it is.
pub open spec fn escape_letter(c: char) -> Option<char> {
    if c == '\u{7}' {
        Some('a')
    } else if c == '\u{8}' {
        Some('b')
    } else if c == '\t' {
        Some('t')
    } else if c == '\n' {
        Some('n')
    } else if c == '\u{b}' {
        Some('v')
    } else if c == '\u{c}' {
        Some('f')
    } else if c == '\r' {
        Some('r')
    } else if c == ' ' {
        Some(' ')
    } else if c == '\\' {
        Some('\\')
    } else {
        None
    }
}

/// The character that a backslash and `letter` stand for.
pub open spec fn escaped_char(letter: char) -> char {
    if letter == 'a' {
        '\u{7}'
    } else if letter == 'b' {
        '\u{8}'
    } else if letter == 't' {
        '\t'
    } else if letter == 'n' {
        '\n'
    } else if letter == 'v' {
        '\u{b}'
    } else if letter == 'f' {
        '\u{c}'
    } else if letter == 'r' {
        '\r'
    } else {
        letter
    }
}

/// The escaped form of one character.
pub open spec fn escaped_one(c: char) -> Seq<char> {
    match escape_letter(c) {
        Some(letter) => seq!['\\', letter],
        None => seq![c],
    }
}

/// `text` with each control character, blank and backslash written as a
/// backslash and a letter, and every other character as it is.
pub open spec fn escaped(text: Seq<char>) -> Seq<char>
    decreases text.len(),
{
    if text.len() == 0 {
        Seq::empty()
    } else {
        escaped_one(text[0]) + escaped(text.drop_first())
    }
}

/// The reading of an escaped text: a backslash and the character after it
/// stand for one character, every other character for itself.
pub open spec fn unescaped(text: Seq<char>) -> Seq<char>
    decreases text.len(),
{
    if text.len() == 0 {
        Seq::empty()
    } else if text[0] == '\\' && text.len() >= 2 {
        seq![escaped_char(text[1])] + unescaped(text.skip(2))
    } else {
        seq![text[0]] + unescaped(text.drop_first())
    }
}

/// Escaping can be undone: reading the escaped form of any text gives the
/// text back.
pub proof fn lemma_escape_round_trip(text: Seq<char>)
    ensures
        unescaped(escaped(text)) == text,
    decreases text.len(),
{
    if text.len() > 0 {
        let rest = escaped(text.drop_first());
        let all = escaped(text);
        lemma_escape_round_trip(text.drop_first());
        if escape_letter(text[0]) is Some {
            assert(all.skip(2) =~= rest);
        } else {
            assert(all.drop_first() =~= rest);
        }
        assert(unescaped(all) =~= seq![text[0]] + text.drop_first());
        assert(seq![text[0]] + text.drop_first() =~= text);
    }
}

/// No two texts have the same escaped form.
pub proof fn lemma_escape_injective(a: Seq<char>, b: Seq<char>)
    requires
        escaped(a) == escaped(b),
    ensures
        a == b,
{
    lemma_escape_round_trip(a);
    lemma_escape_round_trip(b);
}

/// `text` with a backslash before each single quote.
pub open spec fn quotes_guarded(text: Seq<char>) -> Seq<char>
    decreases text.len(),
{
    if text.len() == 0 {
        Seq::empty()
    } else if text[0] == '\'' {
        seq!['\\', '\''] + quotes_guarded(text.drop_first())
    } else {
        seq![text[0]] + quotes_guarded(text.drop_first())
    }
}

/// The form in which one character stands in a string literal of the
/// script: a single quote behind a backslash, every other character in its
/// escaped form.
pub open spec fn embedded_one(c: char) -> Seq<char> {
    if c == '\'' {
        seq!['\\', '\'']
    } else {
        escaped_one(c)
    }
}

/// `text` as it stands in a string literal of the script, between single
/// quotes.
pub open spec fn embedded(text: Seq<char>) -> Seq<char>
    decreases text.len(),
{
    if text.len() == 0 {
        Seq::empty()
    } else {
        embedded_one(text[0]) + embedded(text.drop_first())
    }
}

/// Read token by token, a backslash with the character behind it or a
/// character alone, `literal` holds no single quote that stands alone, and
/// does not end in a backslash: between single quotes it is one string
/// literal, and nothing in it closes the literal.
pub open spec fn stays_in_quotes(literal: Seq<char>) -> bool
    decreases literal.len(),
{
    if literal.len() == 0 {
        true
    } else if literal[0] == '\\' {
        literal.len() >= 2 && stays_in_quotes(literal.skip(2))
    } else {
        literal[0] != '\'' && stays_in_quotes(literal.drop_first())
    }
}

/// Guarding the quotes of a text is done piece by piece.
proof fn lemma_guard_concat(a: Seq<char>, b: Seq<char>)
    ensures
        quotes_guarded(a + b) == quotes_guarded(a) + quotes_guarded(b),
    decreases a.len(),
{
    if a.len() == 0 {
        assert(a + b =~= b);
        assert(quotes_guarded(a) + quotes_guarded(b) =~= quotes_guarded(b));
    } else {
        lemma_guard_concat(a.drop_first(), b);
        assert((a + b).drop_first() =~= a.drop_first() + b);
        assert(quotes_guarded(a + b) =~= quotes_guarded(a) + quotes_guarded(b));
    }
}

/// The escaped form of a text with its quotes guarded is the text as it
/// stands in a string literal.
pub proof fn lemma_guarded_escape_is_embedded(text: Seq<char>)
    ensures
        quotes_guarded(escaped(text)) == embedded(text),
    decreases text.len(),
{
    if text.len() > 0 {
        let one = escaped_one(text[0]);
        lemma_guarded_escape_is_embedded(text.drop_first());
        lemma_guard_concat(one, escaped(text.drop_first()));
        reveal_with_fuel(quotes_guarded, 3);
        if escape_letter(text[0]) is Some {
            assert(one.drop_first() =~= seq![one[1]]);
            assert(one.drop_first().drop_first() =~= Seq::<char>::empty());
            assert(quotes_guarded(one) =~= one);
        } else {
            assert(one.drop_first() =~= Seq::<char>::empty());
            assert(quotes_guarded(one) =~= embedded_one(text[0]));
        }
    }
}

/// Embedding can be undone: reading the literal of any text gives the text
/// back, quotes, backslashes, line breaks and all.
pub proof fn lemma_embedding_round_trip(text: Seq<char>)
    ensures
        unescaped(embedded(text)) == text,
    decreases text.len(),
{
    if text.len() > 0 {
        let rest = embedded(text.drop_first());
        let all = embedded(text);
        lemma_embedding_round_trip(text.drop_first());
        if text[0] == '\'' || escape_letter(text[0]) is Some {
            assert(all.skip(2) =~= rest);
        } else {
            assert(all.drop_first() =~= rest);
        }
        assert(unescaped(all) =~= seq![text[0]] + text.drop_first());
        assert(seq![text[0]] + text.drop_first() =~= text);
    }
}

/// No two texts have the same literal.
pub proof fn lemma_embedding_injective(a: Seq<char>, b: Seq<char>)
    requires
        embedded(a) == embedded(b),
    ensures
        a == b,
{
    lemma_embedding_round_trip(a);
    lemma_embedding_round_trip(b);
}

/// Whatever a text holds, its literal stays between its quotes: no single
/// quote in it stands without a backslash of its own before it, and it does
/// not end in a backslash.
pub proof fn lemma_embedded_stays_in_quotes(text: Seq<char>)
    ensures
        stays_in_quotes(embedded(text)),
    decreases text.len(),
{
    if text.len() > 0 {
        let rest = embedded(text.drop_first());
        let all = embedded(text);
        lemma_embedded_stays_in_quotes(text.drop_first());
        if text[0] == '\'' || escape_letter(text[0]) is Some {
            assert(all.skip(2) =~= rest);
        } else {
            assert(all.drop_first() =~= rest);
        }
    }
}

/// Every single quote in the literal of a text has a backslash right before
/// it.
pub proof fn lemma_embedded_quotes_guarded(text: Seq<char>)
    ensures
        forall|i: int|
            0 <= i < embedded(text).len() && #[trigger] embedded(text)[i] == '\'' ==> i > 0
                && embedded(text)[i - 1] == '\\',
    decreases text.len(),
{
    if text.len() > 0 {
        let rest = embedded(text.drop_first());
        let one = embedded_one(text[0]);
        let all = embedded(text);
        lemma_embedded_quotes_guarded(text.drop_first());
        assert forall|i: int| 0 <= i < all.len() && #[trigger] all[i] == '\'' implies i > 0
            && all[i - 1] == '\\' by {
            if i >= one.len() {
                assert(rest[i - one.len()] == '\'');
                assert(all[i - 1] == rest[i - one.len() - 1]);
            }
        }
    }
}

/// `text` with a backslash before each single quote.
pub fn guard_quotes(text: &str) -> (out: String)
    ensures
        out@ == quotes_guarded(text@),
{
    let chars = to_chars(text);
    let mut out = String::new();
    let mut i: usize = 0;
    proof {
        assert(chars@.skip(0) =~= chars@);
        assert(out@ + quotes_guarded(chars@) =~= quotes_guarded(chars@));
    }
    while i < chars.len()
        invariant
            i <= chars.len(),
            chars@ == text@,
            out@ + quotes_guarded(chars@.skip(i as int)) == quotes_guarded(chars@),
        decreases chars.len() - i,
    {
        let ghost rest = chars@.skip(i as int);
        let ghost before = out@;
        let c = chars[i];
        if c == '\'' {
            push_char(&mut out, '\\');
        }
        push_char(&mut out, c);
        i += 1;
        proof {
            assert(rest.drop_first() =~= chars@.skip(i as int));
            assert(out@ + quotes_guarded(chars@.skip(i as int)) =~= before + quotes_guarded(rest));
        }
    }
    proof {
        assert(quotes_guarded(chars@.skip(i as int)) =~= Seq::<char>::empty());
        assert(out@ =~= out@ + Seq::<char>::empty());
    }
    out
}

/// `escape_string::escape`: each of the bytes 7 to 13, the blank and the
/// backslash is written as a backslash and its letter, every other byte is
/// copied. All of these are single-byte characters, so the same holds
/// character by character.
#[verifier::external_body]
fn escape_text(text: &str) -> (out: String)
    ensures
        out@ == escaped(text@),
{
    escape_string::escape(text).into_owned()
}

/// What `unescape::unescape` makes of a text: the text with its backslash
/// sequences resolved, or `None` where it holds one that the function does
/// not know.
pub uninterp spec fn unescape_result(text: Seq<char>) -> Option<Seq<char>>;

/// `unescape::unescape`: a function of the text alone.
#[verifier::external_body]
fn unescape_text(text: &str) -> (out: Option<String>)
    ensures
        match out {
            Some(s) => unescape_result(text@) == Some(s@),
            None => unescape_result(text@) is None,
        },
{
    unescape::unescape(text)
}

/// The Fx hash of a text, as `fxhash::hash` computes it on this target.
pub uninterp spec fn fx_hash(text: Seq<char>) -> usize;

/// `fxhash::hash` on a string: the hasher starts from a fixed state and
/// reads the string's bytes, so the value is a function of the text.
#[verifier::external_body]
fn hash_text(text: &str) -> (hash: usize)
    ensures
        hash == fx_hash(text@),
{
    fxhash::hash(text)
}

/// The decimal digit `d`.
pub open spec fn digit(d: nat) -> char
    recommends
        d < 10,
{
    ((48 + d) as u8) as char
}

/// `n` in decimal, without leading zeros.
pub open spec fn decimal(n: nat) -> Seq<char>
    decreases n,
{
    if n < 10 {
        seq![digit(n)]
    } else {
        decimal(n / 10).push(digit(n % 10))
    }
}

/// A number in decimal holds digits only: between single quotes it is a
/// string literal as it stands.
pub proof fn lemma_decimal_holds_digits(n: nat)
    ensures
        decimal(n).len() > 0,
        forall|i: int| 0 <= i < decimal(n).len() ==> '0' <= #[trigger] decimal(n)[i] <= '9',
    decreases n,
{
    if n >= 10 {
        lemma_decimal_holds_digits(n / 10);
    }
}

/// Appends `n` in decimal to `out`.
fn push_decimal(out: &mut String, n: usize)
    ensures
        final(out)@ == old(out)@ + decimal(n as nat),
    decreases n,
{
    if n >= 10 {
        push_decimal(out, n / 10);
    }
    let d: u8 = (n % 10) as u8;
    push_char(out, (48 + d) as char);
    assert(final(out)@ =~= old(out)@ + decimal(n as nat));
}

/// The handle under which the engine keeps a diagram: a stable hash of the
/// diagram's source. It names the diagram for the engine's bookkeeping only;
/// two sources may share one.
pub fn diagram_identifier(source: &str) -> (identifier: usize)
    ensures
        identifier == fx_hash(source@),
{
    hash_text(source)
}

/// What is sent to the engine for one diagram.
#[derive(Debug)]
pub struct RenderRequest {
    pub diagram_source: String,
    pub identifier: usize,
}

/// The script that asks the engine to render `source` under `identifier`:
/// one awaited call of the render entry point with two string literals, the
/// identifier's name and the source in its embedded form.
pub open spec fn render_script(identifier: usize, source: Seq<char>) -> Seq<char> {
    "(async () => { return await window.render('mermaid-diagram-"@ + decimal(identifier as nat)
        + "', '"@ + embedded(source) + "'); })()"@
}

impl RenderRequest {
    /// The request for one diagram.
    pub fn new(source: &str) -> (request: RenderRequest)
        ensures
            request.diagram_source@ == source@,
            request.identifier == fx_hash(source@),
    {
        RenderRequest {
            diagram_source: String::from_str(source),
            identifier: diagram_identifier(source),
        }
    }

    /// The script to evaluate in the engine.
    pub fn script(&self) -> (script: String)
        ensures
            script@ == render_script(self.identifier, self.diagram_source@),
    {
        let mut script = String::from_str(
            "(async () => { return await window.render('mermaid-diagram-",
        );
        push_decimal(&mut script, self.identifier);
        script.append("', '");
        let escaped = escape_text(self.diagram_source.as_str());
        let source = guard_quotes(escaped.as_str());
        proof {
            lemma_guarded_escape_is_embedded(self.diagram_source@);
        }
        script.append(source.as_str());
        script.append("'); })()");
        script
    }
}

/// What came back from one evaluation in the engine.
#[derive(Debug)]
pub enum EngineReply {
    /// A string value.
    Text(String),
    /// The value `null`.
    Null,
    /// No value at all.
    Absent,
    /// A value of any other shape; the field describes it.
    Other(String),
    /// The evaluation itself failed or timed out; the field is the channel's
    /// message.
    Failure(String),
}

/// The mathematical value of an `EngineReply`.
pub enum EngineReplyView {
    Text(Seq<char>),
    Null,
    Absent,
    Other(Seq<char>),
    Failure(Seq<char>),
}

impl View for EngineReply {
    type V = EngineReplyView;

    open spec fn view(&self) -> EngineReplyView {
        match *self {
            EngineReply::Text(s) => EngineReplyView::Text(s@),
            EngineReply::Null => EngineReplyView::Null,
            EngineReply::Absent => EngineReplyView::Absent,
            EngineReply::Other(s) => EngineReplyView::Other(s@),
            EngineReply::Failure(s) => EngineReplyView::Failure(s@),
        }
    }
}

/// Why a diagram could not be rendered.
#[derive(Debug)]
pub enum RenderError {
    /// The engine answered `null` or nothing: it could not compile the
    /// diagram.
    EngineReturnedNull,
    /// The engine answered with an empty artifact.
    EmptyArtifact,
    /// The engine answered with something that is not a string; the field
    /// describes the value.
    UnexpectedValueShape(String),
    /// The channel to the engine failed or timed out; the field is its
    /// message.
    ChannelFailure(String),
}

/// The mathematical value of a `RenderError`.
pub enum RenderErrorView {
    EngineReturnedNull,
    EmptyArtifact,
    UnexpectedValueShape(Seq<char>),
    ChannelFailure(Seq<char>),
}

impl View for RenderError {
    type V = RenderErrorView;

    open spec fn view(&self) -> RenderErrorView {
        match *self {
            RenderError::EngineReturnedNull => RenderErrorView::EngineReturnedNull,
            RenderError::EmptyArtifact => RenderErrorView::EmptyArtifact,
            RenderError::UnexpectedValueShape(s) => RenderErrorView::UnexpectedValueShape(s@),
            RenderError::ChannelFailure(s) => RenderErrorView::ChannelFailure(s@),
        }
    }
}

impl RenderErrorView {
    /// The message that names the cause.
    pub open spec fn message(self) -> Seq<char> {
        match self {
            RenderErrorView::EngineReturnedNull =>
                "Failed to compile Mermaid diagram: render returned null"@,
            RenderErrorView::EmptyArtifact => "Failed to compile Mermaid diagram: empty result"@,
            RenderErrorView::UnexpectedValueShape(shape) => "Unexpected return type from render: "@
                + shape,
            RenderErrorView::ChannelFailure(message) => message,
        }
    }
}

impl RenderError {
    /// The message that names the cause.
    pub fn message(&self) -> (message: String)
        ensures
            message@ == self@.message(),
    {
        match self {
            RenderError::EngineReturnedNull => String::from_str(
                "Failed to compile Mermaid diagram: render returned null",
            ),
            RenderError::EmptyArtifact => String::from_str(
                "Failed to compile Mermaid diagram: empty result",
            ),
            RenderError::UnexpectedValueShape(shape) => {
                let mut message = String::from_str("Unexpected return type from render: ");
                message.append(shape.as_str());
                message
            },
            RenderError::ChannelFailure(message) => message.clone(),
        }
    }

    /// A copy of the error.
    pub fn duplicate(&self) -> (copy: RenderError)
        ensures
            copy@ == self@,
    {
        match self {
            RenderError::EngineReturnedNull => RenderError::EngineReturnedNull,
            RenderError::EmptyArtifact => RenderError::EmptyArtifact,
            RenderError::UnexpectedValueShape(shape) => RenderError::UnexpectedValueShape(
                shape.clone(),
            ),
            RenderError::ChannelFailure(message) => RenderError::ChannelFailure(message.clone()),
        }
    }
}

/// The mathematical value of a render's outcome: the artifact or the error.
pub open spec fn outcome_view(outcome: Result<String, RenderError>) -> Result<
    Seq<char>,
    RenderErrorView,
> {
    match outcome {
        Ok(artifact) => Ok(artifact@),
        Err(error) => Err(error@),
    }
}

/// The artifact that a string reply holds. The engine may have escaped the
/// text once more; `resolved` is that escaping undone, where it could be
/// undone, and the raw text is kept where it could not. An empty artifact is
/// none.
pub open spec fn artifact_of(raw: Seq<char>, resolved: Option<Seq<char>>) -> Result<
    Seq<char>,
    RenderErrorView,
> {
    let artifact = match resolved {
        Some(text) => text,
        None => raw,
    };
    if artifact.len() == 0 {
        Err(RenderErrorView::EmptyArtifact)
    } else {
        Ok(artifact)
    }
}

/// The outcome that a reply stands for, given what its text resolves to.
pub open spec fn outcome_of(reply: EngineReplyView, resolved: Option<Seq<char>>) -> Result<
    Seq<char>,
    RenderErrorView,
> {
    match reply {
        EngineReplyView::Text(raw) => artifact_of(raw, resolved),
        EngineReplyView::Null => Err(RenderErrorView::EngineReturnedNull),
        EngineReplyView::Absent => Err(RenderErrorView::EngineReturnedNull),
        EngineReplyView::Other(shape) => Err(RenderErrorView::UnexpectedValueShape(shape)),
        EngineReplyView::Failure(message) => Err(RenderErrorView::ChannelFailure(message)),
    }
}

/// The text of a reply, or nothing where it has none.
pub open spec fn reply_text(reply: EngineReplyView) -> Seq<char> {
    match reply {
        EngineReplyView::Text(raw) => raw,
        _ => Seq::empty(),
    }
}

/// The artifact in a string reply whose escaping resolves to `resolved`.
pub fn artifact_from(raw: String, resolved: Option<String>) -> (outcome: Result<
    String,
    RenderError,
>)
    ensures
        outcome_view(outcome) == artifact_of(
            raw@,
            match resolved {
                Some(text) => Some(text@),
                None => None,
            },
        ),
{
    let artifact = match resolved {
        Some(text) => text,
        None => raw,
    };
    if artifact.as_str().is_empty() {
        Err(RenderError::EmptyArtifact)
    } else {
        Ok(artifact)
    }
}

/// The outcome of one render: the artifact where the engine sent a non-empty
/// string, and else the error that says what it sent instead.
pub fn render_outcome(reply: EngineReply) -> (outcome: Result<String, RenderError>)
    ensures
        outcome_view(outcome) == outcome_of(reply@, unescape_result(reply_text(reply@))),
{
    match reply {
        EngineReply::Text(raw) => {
            let resolved = unescape_text(raw.as_str());
            artifact_from(raw, resolved)
        },
        EngineReply::Null => Err(RenderError::EngineReturnedNull),
        EngineReply::Absent => Err(RenderError::EngineReturnedNull),
        EngineReply::Other(shape) => Err(RenderError::UnexpectedValueShape(shape)),
        EngineReply::Failure(message) => Err(RenderError::ChannelFailure(message)),
    }
}

/// One step of bringing up a session with the engine.
#[derive(Clone, Copy, Debug, PartialEq, Eq, Structural)]
pub enum InitStep {
    /// Launch the engine, or attach to it, bound by the timeout and at the
    /// configured path if there is one.
    LaunchEngine,
    /// Create the one execution context and bind it to the same timeout.
    CreateContext,
    /// Load the rendering library into the context.
    LoadLibrary,
    /// Run the initialisation script, which defines the render entry point.
    RunInitPayload,
}

impl InitStep {
    /// The step after this one; none after the last.
    pub open spec fn following(self) -> Option<InitStep> {
        match self {
            InitStep::LaunchEngine => Some(InitStep::CreateContext),
            InitStep::CreateContext => Some(InitStep::LoadLibrary),
            InitStep::LoadLibrary => Some(InitStep::RunInitPayload),
            InitStep::RunInitPayload => None,
        }
    }

    /// The step after this one; none after the last.
    pub fn next(self) -> (next: Option<InitStep>)
        ensures
            next == self.following(),
    {
        match self {
            InitStep::LaunchEngine => Some(InitStep::CreateContext),
            InitStep::CreateContext => Some(InitStep::LoadLibrary),
            InitStep::LoadLibrary => Some(InitStep::RunInitPayload),
            InitStep::RunInitPayload => None,
        }
    }
}

/// How far a session with the engine has come.
#[derive(Clone, Copy, Debug, PartialEq, Eq, Structural)]
pub enum ChannelState {
    /// The session is coming up; the field is the step to take next.
    Opening(InitStep),
    /// Every step is done: diagrams can be rendered.
    Ready,
    /// The step in the field failed, and the session stays unusable.
    Unusable(InitStep),
}

impl ChannelState {
    /// The state after the pending step has succeeded or failed. A session
    /// that is up or unusable stays so.
    pub open spec fn after(self, succeeded: bool) -> ChannelState {
        match self {
            ChannelState::Opening(step) => if succeeded {
                match step.following() {
                    Some(next) => ChannelState::Opening(next),
                    None => ChannelState::Ready,
                }
            } else {
                ChannelState::Unusable(step)
            },
            _ => self,
        }
    }

    /// The state after the first `done` steps of a session have succeeded.
    pub open spec fn after_successes(done: nat) -> ChannelState
        decreases done,
    {
        if done == 0 {
            ChannelState::Opening(InitStep::LaunchEngine)
        } else {
            ChannelState::after_successes((done - 1) as nat).after(true)
        }
    }
}

/// A session is up after its four steps have succeeded in order, and not
/// before.
pub proof fn lemma_ready_after_every_step(done: nat)
    ensures
        ChannelState::after_successes(done) == ChannelState::Ready <==> done >= 4,
    decreases done,
{
    reveal_with_fuel(ChannelState::after_successes, 5);
    if done > 4 {
        lemma_ready_after_every_step((done - 1) as nat);
    }
}

/// A failed step leaves the session unusable for good, and names the step.
pub proof fn lemma_failure_is_final(step: InitStep, succeeded: bool)
    ensures
        ChannelState::Opening(step).after(false) == ChannelState::Unusable(step),
        ChannelState::Unusable(step).after(succeeded) == ChannelState::Unusable(step),
{
}

/// The mathematical value of a renderer.
pub struct RendererView {
    pub state: ChannelState,
    pub timeout: Timeout,
    pub chrome_path: Option<PathBuf>,
    pub init_script: Seq<char>,
}

/// The renderer: the state of the one session with the engine, and what the
/// session is brought up with.
#[derive(Clone, Debug)]
pub struct Mermaid {
    state: ChannelState,
    timeout: Timeout,
    chrome_path: Option<PathBuf>,
    init_script: String,
}

impl View for Mermaid {
    type V = RendererView;

    closed spec fn view(&self) -> RendererView {
        RendererView {
            state: self.state,
            timeout: self.timeout,
            chrome_path: self.chrome_path,
            init_script: self.init_script@,
        }
    }
}

impl Mermaid {
    /// A renderer for the default configuration, before its first step.
    pub fn try_init() -> (renderer: Mermaid)
        ensures
            renderer@.state == ChannelState::Opening(InitStep::LaunchEngine),
            renderer@.timeout == Timeout::of_seconds(DEFAULT_TIMEOUT_SECS),
            renderer@.chrome_path is None,
            renderer@.init_script == init_script(
                options_json(SecurityLevel::Strict, false, Seq::empty()),
            ),
    {
        let config = Config::default();
        let renderer = Mermaid::try_init_with_config(&config);
        proof {
            lemma_nothing_to_forward(config);
        }
        renderer
    }

    /// A renderer for `config`, before its first step: it carries the
    /// timeout that bounds every round trip, the engine's path if one is
    /// configured, and the script that initialises the engine.
    pub fn try_init_with_config(config: &Config) -> (renderer: Mermaid)
        ensures
            renderer@.state == ChannelState::Opening(InitStep::LaunchEngine),
            renderer@.timeout == config.timeout,
            renderer@.chrome_path == config.chrome_path,
            renderer@.init_script == config.init_script_text(),
            gathers(camel_named(option_entries(config.mermaid.additional)), config.forwarded_options()),
    {
        Mermaid {
            state: ChannelState::Opening(InitStep::LaunchEngine),
            timeout: config.timeout,
            chrome_path: config.chrome_path.clone(),
            init_script: config.build_mermaid_init_script(),
        }
    }

    /// How far the session has come.
    pub fn state(&self) -> (state: ChannelState)
        ensures
            state == self@.state,
    {
        self.state
    }

    /// The step to take next, while the session is coming up.
    pub fn pending_step(&self) -> (step: Option<InitStep>)
        ensures
            step == match self@.state {
                ChannelState::Opening(next) => Some(next),
                _ => None::<InitStep>,
            },
    {
        match self.state {
            ChannelState::Opening(next) => Some(next),
            _ => None,
        }
    }

    /// The renderer after the pending step has succeeded or failed.
    pub fn step_done(self, succeeded: bool) -> (renderer: Mermaid)
        ensures
            renderer@.state == self@.state.after(succeeded),
            renderer@.timeout == self@.timeout,
            renderer@.chrome_path == self@.chrome_path,
            renderer@.init_script == self@.init_script,
    {
        let state = match self.state {
            ChannelState::Opening(step) => if succeeded {
                match step.next() {
                    Some(next) => ChannelState::Opening(next),
                    None => ChannelState::Ready,
                }
            } else {
                ChannelState::Unusable(step)
            },
            other => other,
        };
        Mermaid { state, ..self }
    }

    /// Whether diagrams can be rendered.
    pub fn is_ready(&self) -> (ready: bool)
        ensures
            ready == (self@.state == ChannelState::Ready),
    {
        match self.state {
            ChannelState::Ready => true,
            _ => false,
        }
    }

    /// The bound on every round trip to the engine.
    pub fn timeout(&self) -> (timeout: Timeout)
        ensures
            timeout == self@.timeout,
    {
        self.timeout
    }

    /// Where the engine's executable is, if not in its usual place.
    pub fn chrome_path(&self) -> (path: &Option<PathBuf>)
        ensures
            *path == self@.chrome_path,
    {
        &self.chrome_path
    }

    /// The script that initialises the engine.
    pub fn init_script(&self) -> (script: &str)
        ensures
            script@ == self@.init_script,
    {
        self.init_script.as_str()
    }

    /// The request that renders `input`, once the session is up; none
    /// before, and none on a session that is unusable.
    pub fn render(&self, input: &str) -> (request: Option<RenderRequest>)
        ensures
            request is Some <==> self@.state == ChannelState::Ready,
            request matches Some(r) ==> r.diagram_source@ == input@ && r.identifier == fx_hash(
                input@,
            ),
    {
        match self.state {
            ChannelState::Ready => Some(RenderRequest::new(input)),
            _ => None,
        }
    }
}

} // verus!
