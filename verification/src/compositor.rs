//! The substitution compositor: a document's text with some of its spans
//! replaced, and every byte outside those spans left as it was.

use crate::text::{char_range, is_char_range, join2, lemma_boundary_in_prefix, lemma_encode_concat};
use vstd::prelude::*;
use vstd::string::StringExecFns;
use vstd::string::StringSliceAdditionalSpecFns;
use vstd::utf8::*;

verus! {

/// A half-open byte range `[start, end)` of a document's text.
#[derive(Clone, Copy, Debug, PartialEq, Eq, Structural)]
pub struct Span {
    pub start: usize,
    pub end: usize,
}

/// The text that takes the place of one span of the document.
#[derive(Clone, Debug)]
pub struct Replacement {
    pub span: Span,
    pub text: String,
}

/// The mathematical value of a `Replacement`.
pub struct ReplacementView {
    pub span: Span,
    pub text: Seq<char>,
}

impl View for Replacement {
    type V = ReplacementView;

    open spec fn view(&self) -> ReplacementView {
        ReplacementView { span: self.span, text: self.text@ }
    }
}

/// The values of a sequence of replacements.
pub open spec fn replacement_views(reps: Seq<Replacement>) -> Seq<ReplacementView> {
    Seq::new(reps.len(), |i: int| reps[i]@)
}

impl ReplacementView {
    /// The bytes that are written in place of the span: a line break, so that
    /// the text opens a block of its own, and then the text.
    pub open spec fn bytes(self) -> Seq<u8> {
        seq![10u8] + encode_utf8(self.text)
    }

    /// By how many bytes the document grows at this span (negative where it
    /// shrinks).
    pub open spec fn growth(self) -> int {
        self.bytes().len() - (self.span.end - self.span.start)
    }
}

/// The spans lie in `text`, on character boundaries, ascending and apart from
/// each other.
pub open spec fn replaceable(text: Seq<u8>, reps: Seq<ReplacementView>) -> bool {
    &&& forall|i: int|
        0 <= i < reps.len() ==> char_range(
            text,
            (#[trigger] reps[i]).span.start as int,
            reps[i].span.end as int,
        )
    &&& forall|i: int, j: int|
        0 <= i < j < reps.len() ==> (#[trigger] reps[i]).span.end <= (#[trigger] reps[j]).span.start
}

/// `text` with each span replaced: what precedes the last span, with the
/// earlier spans replaced in it, then the last replacement, then what follows
/// the last span.
pub open spec fn spliced(text: Seq<u8>, reps: Seq<ReplacementView>) -> Seq<u8>
    decreases reps.len(),
{
    if reps.len() == 0 {
        text
    } else {
        let last = reps.last();
        spliced(text.subrange(0, last.span.start as int), reps.drop_last()) + last.bytes()
            + text.subrange(last.span.end as int, text.len() as int)
    }
}

/// By how much a byte at position `at` of the original has moved in the
/// composed text: the growth of every span that ends at or before it.
pub open spec fn shift(reps: Seq<ReplacementView>, at: int) -> int
    decreases reps.len(),
{
    if reps.len() == 0 {
        0
    } else if reps.last().span.end <= at {
        shift(reps.drop_last(), at) + reps.last().growth()
    } else {
        shift(reps.drop_last(), at)
    }
}

/// Whether `at` lies in one of the spans.
pub open spec fn covered(reps: Seq<ReplacementView>, at: int) -> bool {
    exists|i: int| 0 <= i < reps.len() && (#[trigger] reps[i]).span.start <= at < reps[i].span.end
}

proof fn lemma_replaceable_prefix(text: Seq<u8>, reps: Seq<ReplacementView>)
    requires
        valid_utf8(text),
        replaceable(text, reps),
        reps.len() > 0,
    ensures
        valid_utf8(text.subrange(0, reps.last().span.start as int)),
        replaceable(text.subrange(0, reps.last().span.start as int), reps.drop_last()),
{
    let cut = reps.last().span.start as int;
    let rest = reps.drop_last();
    let prefix = text.subrange(0, cut);
    valid_utf8_split(text, cut);
    assert forall|i: int| 0 <= i < rest.len() implies char_range(
        prefix,
        (#[trigger] rest[i]).span.start as int,
        rest[i].span.end as int,
    ) by {
        let r = reps[i];
        assert(rest[i] == r);
        assert(r.span.end <= reps[reps.len() - 1].span.start);
        lemma_boundary_in_prefix(text, r.span.end as int, cut);
        lemma_boundary_in_prefix(text, r.span.start as int, cut);
    }
    assert forall|i: int, j: int| 0 <= i < j < rest.len() implies (#[trigger] rest[i]).span.end <= (
    #[trigger] rest[j]).span.start by {
        assert(rest[i] == reps[i]);
        assert(rest[j] == reps[j]);
    }
}

/// The composed text is as long as the original and the growth of all spans.
pub proof fn lemma_spliced_len(text: Seq<u8>, reps: Seq<ReplacementView>)
    requires
        valid_utf8(text),
        replaceable(text, reps),
    ensures
        spliced(text, reps).len() == text.len() + shift(reps, text.len() as int),
    decreases reps.len(),
{
    if reps.len() > 0 {
        let last = reps.last();
        let cut = last.span.start as int;
        lemma_replaceable_prefix(text, reps);
        lemma_spliced_len(text.subrange(0, cut), reps.drop_last());
        lemma_shift_past(reps.drop_last(), cut, text.len() as int);
    }
}

/// Past the end of every span the shift no longer changes.
proof fn lemma_shift_past(reps: Seq<ReplacementView>, a: int, b: int)
    requires
        forall|i: int| 0 <= i < reps.len() ==> (#[trigger] reps[i]).span.end <= a,
        a <= b,
    ensures
        shift(reps, a) == shift(reps, b),
    decreases reps.len(),
{
    if reps.len() > 0 {
        assert(reps.last() == reps[reps.len() - 1]);
        assert forall|i: int| 0 <= i < reps.drop_last().len() implies (
        #[trigger] reps.drop_last()[i]).span.end <= a by {
            assert(reps.drop_last()[i] == reps[i]);
        }
        lemma_shift_past(reps.drop_last(), a, b);
    }
}

/// Non-interference: a byte of the original that lies in none of the spans
/// stands unchanged in the composed text, moved by the growth of the spans
/// before it.
pub proof fn lemma_outside_unchanged(text: Seq<u8>, reps: Seq<ReplacementView>, at: int)
    requires
        valid_utf8(text),
        replaceable(text, reps),
        0 <= at < text.len(),
        !covered(reps, at),
    ensures
        0 <= at + shift(reps, at) < spliced(text, reps).len(),
        spliced(text, reps)[at + shift(reps, at)] == text[at],
    decreases reps.len(),
{
    if reps.len() > 0 {
        let last = reps.last();
        let cut = last.span.start as int;
        let rest = reps.drop_last();
        let prefix = text.subrange(0, cut);
        let head = spliced(prefix, rest);
        assert(last == reps[reps.len() - 1]);
        lemma_replaceable_prefix(text, reps);
        lemma_spliced_len(prefix, rest);
        assert forall|i: int| 0 <= i < rest.len() implies (#[trigger] rest[i]).span.end <= cut by {
            assert(rest[i] == reps[i]);
        }
        if last.span.end <= at {
            lemma_shift_past(rest, cut, at);
        } else {
            assert(at < cut);
            assert(!covered(rest, at)) by {
                if covered(rest, at) {
                    let i = choose|i: int|
                        0 <= i < rest.len() && (#[trigger] rest[i]).span.start <= at
                            < rest[i].span.end;
                    assert(rest[i] == reps[i]);
                }
            }
            lemma_outside_unchanged(prefix, rest, at);
        }
    }
}

/// Each span is replaced in full: where the span stood, moved by the growth of
/// the spans before it, the composed text holds the replacement.
pub proof fn lemma_span_replaced(text: Seq<u8>, reps: Seq<ReplacementView>, k: int)
    requires
        valid_utf8(text),
        replaceable(text, reps),
        0 <= k < reps.len(),
    ensures
        ({
            let from = reps[k].span.start + shift(reps.take(k), reps[k].span.start as int);
            &&& 0 <= from
            &&& from + reps[k].bytes().len() <= spliced(text, reps).len()
            &&& spliced(text, reps).subrange(from, from + reps[k].bytes().len()) == reps[k].bytes()
        }),
    decreases reps.len(),
{
    let last = reps.last();
    let cut = last.span.start as int;
    let rest = reps.drop_last();
    let prefix = text.subrange(0, cut);
    let head = spliced(prefix, rest);
    assert(last == reps[reps.len() - 1]);
    lemma_replaceable_prefix(text, reps);
    lemma_spliced_len(prefix, rest);
    assert forall|i: int| 0 <= i < rest.len() implies (#[trigger] rest[i]).span.end <= cut by {
        assert(rest[i] == reps[i]);
    }
    if k == reps.len() - 1 {
        assert(reps.take(k) =~= rest);
        let from = cut + shift(rest, cut);
        assert(spliced(text, reps).subrange(from, from + last.bytes().len()) =~= last.bytes());
    } else {
        assert(rest[k] == reps[k]);
        assert(rest.take(k) =~= reps.take(k));
        lemma_span_replaced(prefix, rest, k);
        let from = reps[k].span.start + shift(reps.take(k), reps[k].span.start as int);
        assert(spliced(text, reps).subrange(from, from + reps[k].bytes().len()) =~= head.subrange(
            from,
            from + reps[k].bytes().len(),
        ));
    }
}

/// What is written in place of a span is the text of a line break and the
/// replacement.
pub proof fn lemma_replacement_bytes(replacement: ReplacementView)
    ensures
        replacement.bytes() == encode_utf8(seq!['\n'] + replacement.text),
{
    lemma_encode_concat(seq!['\n'], replacement.text);
    reveal_with_fuel(encode_utf8, 2);
    lemma_newline_byte();
    assert(encode_utf8(seq!['\n']) =~= seq![10u8]);
}

/// The composed text is valid UTF-8.
pub proof fn lemma_spliced_valid(text: Seq<u8>, reps: Seq<ReplacementView>)
    requires
        valid_utf8(text),
        replaceable(text, reps),
    ensures
        valid_utf8(spliced(text, reps)),
    decreases reps.len(),
{
    if reps.len() > 0 {
        let last = reps.last();
        let head = spliced(text.subrange(0, last.span.start as int), reps.drop_last());
        let tail = text.subrange(last.span.end as int, text.len() as int);
        assert(last == reps[reps.len() - 1]);
        lemma_replaceable_prefix(text, reps);
        lemma_spliced_valid(text.subrange(0, last.span.start as int), reps.drop_last());
        valid_utf8_split(text, last.span.end as int);
        assert(last.bytes() == encode_utf8(seq!['\n'] + last.text)) by {
            lemma_encode_concat(seq!['\n'], last.text);
            reveal_with_fuel(encode_utf8, 2);
            lemma_newline_byte();
            assert(encode_utf8(seq!['\n']) =~= seq![10u8]);
        }
        encode_utf8_valid_utf8(seq!['\n'] + last.text);
        valid_utf8_concat(head, last.bytes());
        valid_utf8_concat(head + last.bytes(), tail);
    }
}

/// With nothing to replace the text is returned as it is.
pub proof fn lemma_nothing_replaced(text: Seq<u8>)
    ensures
        spliced(text, Seq::<ReplacementView>::empty()) == text,
{
}

/// Whether `replacements` can be applied to `original`: each span on
/// character boundaries of it, ascending and apart from each other.
pub fn is_replaceable(original: &str, replacements: &Vec<Replacement>) -> (ok: bool)
    ensures
        ok == replaceable(original.spec_bytes(), replacement_views(replacements@)),
{
    let ghost text = original.spec_bytes();
    let ghost reps = replacement_views(replacements@);
    let mut floor: usize = 0;
    let mut i: usize = 0;
    while i < replacements.len()
        invariant
            i <= replacements.len(),
            text == original.spec_bytes(),
            reps == replacement_views(replacements@),
            replaceable(text, reps.take(i as int)),
            forall|j: int| 0 <= j < i ==> (#[trigger] reps[j]).span.end <= floor,
            i == 0 ==> floor == 0,
            i > 0 ==> floor == reps[i - 1].span.end,
        decreases replacements.len() - i,
    {
        let span = replacements[i].span;
        if !(floor <= span.start && is_char_range(original, span.start, span.end)) {
            proof {
                if replaceable(text, reps) {
                    assert(char_range(
                        text,
                        reps[i as int].span.start as int,
                        reps[i as int].span.end as int,
                    ));
                    if i > 0 {
                        assert(reps[i - 1].span.end <= reps[i as int].span.start);
                    }
                }
            }
            return false;
        }
        proof {
            let next = reps.take(i as int + 1);
            assert forall|j: int| 0 <= j < next.len() implies char_range(
                text,
                (#[trigger] next[j]).span.start as int,
                next[j].span.end as int,
            ) by {
                if j < i {
                    assert(next[j] == reps.take(i as int)[j]);
                }
            }
            assert forall|a: int, b: int| 0 <= a < b < next.len() implies (#[trigger] next[a]).span.end
                <= (#[trigger] next[b]).span.start by {
                assert(next[a] == reps[a]);
                assert(next[b] == reps[b]);
                if b < i {
                    assert(reps.take(i as int)[a] == reps[a]);
                    assert(reps.take(i as int)[b] == reps[b]);
                }
            }
        }
        floor = span.end;
        i += 1;
    }
    assert(reps.take(i as int) =~= reps);
    true
}

/// The document with each of its spans replaced.
///
/// The replacements are taken from the last to the first, so that the spans
/// still to come keep their place while the text behind them changes.
pub fn compose(original: &str, replacements: &Vec<Replacement>) -> (composed: String)
    requires
        replaceable(original.spec_bytes(), replacement_views(replacements@)),
    ensures
        encode_utf8(composed@) == spliced(original.spec_bytes(), replacement_views(replacements@)),
{
    let ghost text = original.spec_bytes();
    let ghost reps = replacement_views(replacements@);
    proof {
        encode_utf8_valid_utf8(original@);
        is_char_boundary_start_end_of_seq(text);
    }
    let mut tail = String::new();
    let mut head: &str = original;
    let ghost mut cut: int = text.len() as int;
    let mut i: usize = replacements.len();
    proof {
        assert(reps.take(i as int) =~= reps);
        assert(text.subrange(0, cut) =~= text);
        assert(encode_utf8(tail@) =~= Seq::<u8>::empty());
        assert(spliced(text, reps) =~= spliced(text.subrange(0, cut), reps.take(i as int))
            + encode_utf8(tail@));
    }
    while i > 0
        invariant
            i <= replacements.len(),
            text == original.spec_bytes(),
            reps == replacement_views(replacements@),
            valid_utf8(text),
            replaceable(text, reps),
            0 <= cut <= text.len(),
            is_char_boundary(text, cut),
            head.spec_bytes() == text.subrange(0, cut),
            forall|j: int| 0 <= j < i ==> (#[trigger] reps[j]).span.end <= cut,
            spliced(text, reps) == spliced(text.subrange(0, cut), reps.take(i as int))
                + encode_utf8(tail@),
        decreases i,
    {
        i -= 1;
        let r = &replacements[i];
        let ghost before = reps.take(i as int + 1);
        let ghost prefix = text.subrange(0, cut);
        proof {
            assert(reps[i as int].span.end <= cut);
            assert(before.last() == reps[i as int]);
            assert(before.drop_last() =~= reps.take(i as int));
            lemma_boundary_in_prefix(text, r.span.end as int, cut);
            lemma_boundary_in_prefix(text, r.span.start as int, r.span.end as int);
        }
        let (upto, between) = head.split_at(r.span.end);
        assert(upto.spec_bytes() =~= text.subrange(0, r.span.end as int));
        let (kept, _) = upto.split_at(r.span.start);
        let mut piece = String::from_str("\n");
        piece.append(r.text.as_str());
        piece.append(between);
        piece.append(tail.as_str());
        proof {
            reveal_strlit("\n");
            let nl = "\n"@;
            assert(nl =~= seq!['\n']);
            assert(encode_utf8(nl) =~= seq![10u8]) by {
                reveal_with_fuel(encode_utf8, 2);
                lemma_newline_byte();
            }
            lemma_encode_concat(nl, r.text@);
            lemma_encode_concat(nl + r.text@, between@);
            lemma_encode_concat(nl + r.text@ + between@, tail@);
            assert(between.spec_bytes() =~= text.subrange(r.span.end as int, cut));
            assert(kept.spec_bytes() =~= text.subrange(0, r.span.start as int));
            assert(prefix.subrange(0, r.span.start as int) =~= text.subrange(0, r.span.start as int));
            assert(prefix.subrange(r.span.end as int, prefix.len() as int) =~= text.subrange(
                r.span.end as int,
                cut,
            ));
            assert(spliced(prefix, before) == spliced(
                text.subrange(0, r.span.start as int),
                reps.take(i as int),
            ) + r@.bytes() + text.subrange(r.span.end as int, cut));
            assert(spliced(text, reps) =~= spliced(
                text.subrange(0, r.span.start as int),
                reps.take(i as int),
            ) + encode_utf8(piece@));
            assert forall|j: int| 0 <= j < i implies (#[trigger] reps[j]).span.end
                <= r.span.start by {
                assert(reps[j].span.end <= reps[i as int].span.start);
            }
            cut = r.span.start as int;
        }
        tail = piece;
        head = kept;
    }
    let composed = join2(head, tail.as_str());
    proof {
        lemma_encode_concat(head@, tail@);
        assert(reps.take(0) =~= Seq::<ReplacementView>::empty());
    }
    composed
}

proof fn lemma_newline_byte()
    ensures
        encode_scalar('\n' as u32) == seq![10u8],
{
    assert(has_width_1_encoding(10u32)) by (bit_vector);
    assert(leading_byte_width_1(10u32) == 10u8) by (bit_vector);
}

} // verus!
