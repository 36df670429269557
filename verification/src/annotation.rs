//! The note that stands in a diagram's place where the diagram could not be
//! rendered and the run goes on: a quoted admonition that names the cause and
//! shows the diagram's source.

use crate::text::{push_char, to_chars};
use vstd::prelude::*;
use vstd::string::StringExecFns;

verus! {

/// `text` opens with three backticks.
pub open spec fn opens_fence(text: Seq<char>) -> bool {
    text.len() >= 3 && text[0] == '`' && text[1] == '`' && text[2] == '`'
}

/// `source` with each run of three backticks, taken from the left, broken by
/// a backslash before its third backtick.
pub open spec fn neutralized(source: Seq<char>) -> Seq<char>
    decreases source.len(),
{
    if source.len() == 0 {
        Seq::empty()
    } else if opens_fence(source) {
        seq!['`', '`', '\\', '`'] + neutralized(source.skip(3))
    } else {
        seq![source[0]] + neutralized(source.drop_first())
    }
}

/// What the character at `at` becomes when the lines of `text` are quoted: a
/// line break becomes a line break and a quote mark, but the one that ends
/// the text is dropped; a carriage return right before a line break is
/// dropped; every other character stays.
pub open spec fn quoted_at(text: Seq<char>, at: int) -> Seq<char> {
    if text[at] == '\n' {
        if at + 1 == text.len() {
            Seq::empty()
        } else {
            seq!['\n', '>', ' ']
        }
    } else if text[at] == '\r' && at + 1 < text.len() && text[at + 1] == '\n' {
        Seq::empty()
    } else {
        seq![text[at]]
    }
}

/// The first `upto` characters of `text`, quoted.
pub open spec fn quoted_upto(text: Seq<char>, upto: int) -> Seq<char>
    decreases upto,
{
    if upto <= 0 {
        Seq::empty()
    } else {
        quoted_upto(text, upto - 1) + quoted_at(text, upto - 1)
    }
}

/// The lines of `text`, each but the first led by a quote mark, so that the
/// whole can stand behind one.
pub open spec fn quoted(text: Seq<char>) -> Seq<char> {
    quoted_upto(text, text.len() as int)
}

/// The admonition for a diagram with the given source that failed for the
/// given cause.
pub open spec fn admonition(cause: Seq<char>, source: Seq<char>) -> Seq<char> {
    "> [!IMPORTANT]\n> **Mermaid diagram rendering failed during SSR because:**\n> ```raw\n> "@
        + cause
        + "\n> ```\n>\n> This is the diagram code that caused the error:\n> ```raw\n> "@
        + quoted(neutralized(source))
        + "\n> ```\n>\n> To fix this issue, please follow these steps:\n> - Check your Mermaid code for any syntax errors by pasting it into the [Mermaid Playground](https://mermaid.live/).\n> - Look at the stdout log produced during mdbook build for more details\n>\n> <sub><sub>You are seeing this message because the setting `on-error` is `comment` and not `fail`.</sub></sub>"@
}

/// Every line break of `text` has a quote mark behind it, so that each line
/// but the first opens with one; `text` ends in no line break.
pub open spec fn quote_marked(text: Seq<char>) -> bool {
    forall|i: int|
        0 <= i < text.len() && #[trigger] text[i] == '\n' ==> i + 1 < text.len() && text[i + 1]
            == '>'
}

/// Wherever three backticks stand in a row in `text`, a backslash stands
/// right before them: no line of `text` opens with three backticks.
pub open spec fn fences_broken(text: Seq<char>) -> bool {
    forall|i: int|
        0 <= i && i + 2 < text.len() && #[trigger] text[i] == '`' && text[i + 1] == '`' && text[i
            + 2] == '`' ==> i > 0 && text[i - 1] == '\\'
}

/// Two texts whose line breaks have quote marks behind them make such a
/// text together.
pub proof fn lemma_quote_marked_concat(a: Seq<char>, b: Seq<char>)
    requires
        quote_marked(a),
        quote_marked(b),
    ensures
        quote_marked(a + b),
{
    let all = a + b;
    assert forall|i: int| 0 <= i < all.len() && #[trigger] all[i] == '\n' implies i + 1
        < all.len() && all[i + 1] == '>' by {
        if i < a.len() {
            assert(a[i] == '\n');
            assert(all[i + 1] == a[i + 1]);
        } else {
            assert(b[i - a.len()] == '\n');
            assert(all[i + 1] == b[i + 1 - a.len()]);
        }
    }
}

/// The first characters of a text with quoted lines have quote marks behind
/// their line breaks.
proof fn lemma_quoted_upto_marked(text: Seq<char>, upto: int)
    requires
        0 <= upto <= text.len(),
    ensures
        quote_marked(quoted_upto(text, upto)),
    decreases upto,
{
    if upto > 0 {
        lemma_quoted_upto_marked(text, upto - 1);
        let piece = quoted_at(text, upto - 1);
        assert(quote_marked(piece)) by {
            assert forall|i: int| 0 <= i < piece.len() && #[trigger] piece[i] == '\n' implies i
                + 1 < piece.len() && piece[i + 1] == '>' by {}
        }
        lemma_quote_marked_concat(quoted_upto(text, upto - 1), piece);
    }
}

/// In a text with quoted lines every line break has a quote mark behind it:
/// every line of the text but the first opens with one.
pub proof fn lemma_quoted_is_marked(text: Seq<char>)
    ensures
        quote_marked(quoted(text)),
{
    lemma_quoted_upto_marked(text, text.len() as int);
}

/// Neutralizing keeps the first two characters of a text, and a text of one
/// character whole.
proof fn lemma_neutralized_head(source: Seq<char>)
    ensures
        source.len() == 0 ==> neutralized(source).len() == 0,
        source.len() == 1 ==> neutralized(source) == source,
        source.len() >= 1 ==> neutralized(source).len() >= 1 && neutralized(source)[0]
            == source[0],
        source.len() >= 2 ==> neutralized(source).len() >= 2 && neutralized(source)[1]
            == source[1],
    decreases source.len(),
{
    if source.len() > 0 {
        lemma_neutralized_head(source.drop_first());
        if opens_fence(source) {
        } else {
            if source.len() == 1 {
                assert(neutralized(source) =~= source);
            } else {
                assert(source.drop_first()[0] == source[1]);
            }
        }
    }
}

/// Wherever three backticks stand in a row in a neutralized source, a
/// backslash stands right before them: no line of it opens with three
/// backticks, and none closes the fence around it.
pub proof fn lemma_neutralized_fences_broken(source: Seq<char>)
    ensures
        fences_broken(neutralized(source)),
    decreases source.len(),
{
    if source.len() > 0 {
        let all = neutralized(source);
        if opens_fence(source) {
            let rest = neutralized(source.skip(3));
            lemma_neutralized_fences_broken(source.skip(3));
            assert(all =~= seq!['`', '`', '\\', '`'] + rest);
            assert forall|i: int|
                0 <= i && i + 2 < all.len() && #[trigger] all[i] == '`' && all[i + 1] == '`'
                    && all[i + 2] == '`' implies i > 0 && all[i - 1] == '\\' by {
                if i >= 4 {
                    assert(rest[i - 4] == '`' && rest[i - 3] == '`' && rest[i - 2] == '`');
                    assert(all[i - 1] == rest[i - 5]);
                }
            }
        } else {
            let tail = source.drop_first();
            let rest = neutralized(tail);
            lemma_neutralized_fences_broken(tail);
            lemma_neutralized_head(tail);
            assert(all =~= seq![source[0]] + rest);
            assert forall|i: int|
                0 <= i && i + 2 < all.len() && #[trigger] all[i] == '`' && all[i + 1] == '`'
                    && all[i + 2] == '`' implies i > 0 && all[i - 1] == '\\' by {
                if i == 0 {
                    assert(rest[0] == '`' && rest[1] == '`');
                    assert(tail[0] == source[1] && tail[1] == source[2]);
                    assert(false);
                } else {
                    assert(rest[i - 1] == '`' && rest[i] == '`' && rest[i + 1] == '`');
                    assert(all[i - 1] == rest[i - 2]);
                }
            }
        }
    }
}

/// Quoting the lines of a text in which every run of three backticks has a
/// backslash before it leaves it so, up to any place.
proof fn lemma_quoted_upto_keeps_fences_broken(text: Seq<char>, upto: int)
    requires
        fences_broken(text),
        0 <= upto <= text.len(),
    ensures
        fences_broken(quoted_upto(text, upto)),
    decreases upto,
{
    if upto > 0 {
        lemma_quoted_upto_keeps_fences_broken(text, upto - 1);
        let before = quoted_upto(text, upto - 1);
        let piece = quoted_at(text, upto - 1);
        let all = quoted_upto(text, upto);
        assert(all == before + piece);
        assert forall|i: int|
            0 <= i && i + 2 < all.len() && #[trigger] all[i] == '`' && all[i + 1] == '`' && all[i
                + 2] == '`' implies i > 0 && all[i - 1] == '\\' by {
            if i + 2 < before.len() {
                assert(before[i] == '`' && before[i + 1] == '`' && before[i + 2] == '`');
                assert(all[i - 1] == before[i - 1]);
            } else {
                // the run ends in the piece that was added last
                assert(all[i + 2] == piece[i + 2 - before.len()]);
                assert(piece =~= seq![text[upto - 1]]);
                assert(i + 2 == before.len());
                assert(text[upto - 1] == '`');
                reveal_with_fuel(quoted_upto, 5);
                assert(upto >= 3);
                let two = quoted_upto(text, upto - 2);
                let three = quoted_upto(text, upto - 3);
                assert(before == two + quoted_at(text, upto - 2));
                assert(two == three + quoted_at(text, upto - 3));
                assert(quoted_at(text, upto - 2) =~= seq![text[upto - 2]]);
                assert(quoted_at(text, upto - 3) =~= seq![text[upto - 3]]);
                assert(text[upto - 3] == '`' && text[upto - 2] == '`');
                assert(upto - 3 > 0 && text[upto - 4] == '\\');
                let four = quoted_upto(text, upto - 4);
                assert(three == four + quoted_at(text, upto - 4));
                assert(quoted_at(text, upto - 4) =~= seq!['\\']);
                assert(all =~= four + seq!['\\', '`', '`', '`']);
            }
        }
    }
}

/// Quoting the lines of a text in which every run of three backticks has a
/// backslash before it leaves it so: no quoted line opens with three
/// backticks behind its quote mark.
pub proof fn lemma_quoted_keeps_fences_broken(text: Seq<char>)
    requires
        fences_broken(text),
    ensures
        fences_broken(quoted(text)),
{
    lemma_quoted_upto_keeps_fences_broken(text, text.len() as int);
}

/// The source as the admonition shows it: every line but the first behind a
/// quote mark, and no run of three backticks without a backslash before it,
/// so that no line of it closes the fence around it.
pub proof fn lemma_shown_source_stays_fenced(source: Seq<char>)
    ensures
        quote_marked(quoted(neutralized(source))),
        fences_broken(quoted(neutralized(source))),
{
    lemma_neutralized_fences_broken(source);
    lemma_quoted_is_marked(neutralized(source));
    lemma_quoted_keeps_fences_broken(neutralized(source));
}

/// What the admonition says before the cause.
pub open spec fn admonition_head() -> Seq<char> {
    "> [!IMPORTANT]\n> **Mermaid diagram rendering failed during SSR because:**\n> ```raw\n> "@
}

/// What the admonition says between the cause and the source.
pub open spec fn admonition_middle() -> Seq<char> {
    "\n> ```\n>\n> This is the diagram code that caused the error:\n> ```raw\n> "@
}

/// What the admonition says behind the source.
pub open spec fn admonition_foot() -> Seq<char> {
    "\n> ```\n>\n> To fix this issue, please follow these steps:\n> - Check your Mermaid code for any syntax errors by pasting it into the [Mermaid Playground](https://mermaid.live/).\n> - Look at the stdout log produced during mdbook build for more details\n>\n> <sub><sub>You are seeing this message because the setting `on-error` is `comment` and not `fail`.</sub></sub>"@
}

/// The admonition is its three fixed parts with the cause and the shown
/// source between them.
pub proof fn lemma_admonition_parts(cause: Seq<char>, source: Seq<char>)
    ensures
        admonition(cause, source) == admonition_head() + cause + admonition_middle() + quoted(
            neutralized(source),
        ) + admonition_foot(),
{
}

/// The fixed parts of the admonition open with a quote mark and have one
/// behind each of their line breaks.
proof fn lemma_fixed_parts_marked()
    ensures
        admonition_head().len() > 0,
        admonition_head()[0] == '>',
        quote_marked(admonition_head()),
        quote_marked(admonition_middle()),
        quote_marked(admonition_foot()),
{
    reveal_strlit(
        "> [!IMPORTANT]\n> **Mermaid diagram rendering failed during SSR because:**\n> ```raw\n> ",
    );
    reveal_strlit("\n> ```\n>\n> This is the diagram code that caused the error:\n> ```raw\n> ");
    reveal_strlit(
        "\n> ```\n>\n> To fix this issue, please follow these steps:\n> - Check your Mermaid code for any syntax errors by pasting it into the [Mermaid Playground](https://mermaid.live/).\n> - Look at the stdout log produced during mdbook build for more details\n>\n> <sub><sub>You are seeing this message because the setting `on-error` is `comment` and not `fail`.</sub></sub>",
    );
}

/// The admonition is a block quote: it opens with a quote mark, and so does
/// each of its lines, as long as the cause is one line; the source is shown
/// line by line behind quote marks, whatever it holds.
pub proof fn lemma_admonition_is_quoted(cause: Seq<char>, source: Seq<char>)
    requires
        forall|i: int| 0 <= i < cause.len() ==> cause[i] != '\n',
    ensures
        admonition(cause, source).len() > 0,
        admonition(cause, source)[0] == '>',
        quote_marked(admonition(cause, source)),
{
    lemma_fixed_parts_marked();
    lemma_shown_source_stays_fenced(source);
    assert(quote_marked(cause));
    let shown = quoted(neutralized(source));
    lemma_quote_marked_concat(admonition_head(), cause);
    lemma_quote_marked_concat(admonition_head() + cause, admonition_middle());
    lemma_quote_marked_concat(admonition_head() + cause + admonition_middle(), shown);
    lemma_quote_marked_concat(
        admonition_head() + cause + admonition_middle() + shown,
        admonition_foot(),
    );
    assert(admonition(cause, source)[0] == admonition_head()[0]);
}

/// The source with its runs of three backticks broken, so that none of them
/// closes the fence that the admonition puts around it.
pub fn neutralize_fences(source: &str) -> (out: String)
    ensures
        out@ == neutralized(source@),
{
    let chars = to_chars(source);
    let mut out = String::new();
    let mut i: usize = 0;
    proof {
        assert(chars@.skip(0) =~= chars@);
        assert(out@ + neutralized(chars@) =~= neutralized(chars@));
    }
    while i < chars.len()
        invariant
            i <= chars.len(),
            chars@ == source@,
            out@ + neutralized(chars@.skip(i as int)) == neutralized(chars@),
        decreases chars.len() - i,
    {
        let ghost rest = chars@.skip(i as int);
        let ghost before = out@;
        if chars.len() - i >= 3 && chars[i] == '`' && chars[i + 1] == '`' && chars[i + 2] == '`' {
            push_char(&mut out, '`');
            push_char(&mut out, '`');
            push_char(&mut out, '\\');
            push_char(&mut out, '`');
            i += 3;
            proof {
                assert(opens_fence(rest));
                assert(rest.skip(3) =~= chars@.skip(i as int));
                assert(out@ =~= before + seq!['`', '`', '\\', '`']);
                assert(out@ + neutralized(chars@.skip(i as int)) =~= before + neutralized(rest));
            }
        } else {
            push_char(&mut out, chars[i]);
            i += 1;
            proof {
                assert(!opens_fence(rest));
                assert(rest.drop_first() =~= chars@.skip(i as int));
                assert(out@ =~= before + seq![rest[0]]);
                assert(out@ + neutralized(chars@.skip(i as int)) =~= before + neutralized(rest));
            }
        }
    }
    proof {
        assert(neutralized(chars@.skip(i as int)) =~= Seq::<char>::empty());
        assert(out@ =~= out@ + Seq::<char>::empty());
    }
    out
}

/// The lines of `text`, each but the first led by a quote mark.
pub fn quote_lines(text: &str) -> (out: String)
    ensures
        out@ == quoted(text@),
{
    let chars = to_chars(text);
    let mut out = String::new();
    let mut i: usize = 0;
    while i < chars.len()
        invariant
            i <= chars.len(),
            chars@ == text@,
            out@ == quoted_upto(chars@, i as int),
        decreases chars.len() - i,
    {
        let c = chars[i];
        let ghost before = out@;
        if c == '\n' {
            if i + 1 < chars.len() {
                push_char(&mut out, '\n');
                push_char(&mut out, '>');
                push_char(&mut out, ' ');
                assert(out@ =~= before + seq!['\n', '>', ' ']);
            } else {
                assert(out@ =~= before + Seq::<char>::empty());
            }
        } else if c == '\r' && i + 1 < chars.len() && chars[i + 1] == '\n' {
            assert(out@ =~= before + Seq::<char>::empty());
        } else {
            push_char(&mut out, c);
            assert(out@ =~= before + seq![c]);
        }
        i += 1;
    }
    out
}

/// The admonition for a diagram with the given source that failed for the
/// given cause.
pub fn admonition_for(cause: &str, source: &str) -> (note: String)
    ensures
        note@ == admonition(cause@, source@),
{
    let neutral = neutralize_fences(source);
    let shown = quote_lines(neutral.as_str());
    let mut note = String::from_str(
        "> [!IMPORTANT]\n> **Mermaid diagram rendering failed during SSR because:**\n> ```raw\n> ",
    );
    note.append(cause);
    note.append(
        "\n> ```\n>\n> This is the diagram code that caused the error:\n> ```raw\n> ",
    );
    note.append(shown.as_str());
    note.append(
        "\n> ```\n>\n> To fix this issue, please follow these steps:\n> - Check your Mermaid code for any syntax errors by pasting it into the [Mermaid Playground](https://mermaid.live/).\n> - Look at the stdout log produced during mdbook build for more details\n>\n> <sub><sub>You are seeing this message because the setting `on-error` is `comment` and not `fail`.</sub></sub>",
    );
    note
}

} // verus!
