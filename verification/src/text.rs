//! Text in its two models: a string's characters (`s@`) and its UTF-8 bytes
//! (`encode_utf8(s@)`), with the byte ranges that index into the latter.

use vstd::prelude::*;
use vstd::string::StringExecFns;
use vstd::string::StringSliceAdditionalSpecFns;
use vstd::utf8::*;

verus! {

/// `[start, end)` is a range of whole characters of the UTF-8 text `bytes`.
pub open spec fn char_range(bytes: Seq<u8>, start: int, end: int) -> bool {
    &&& 0 <= start <= end <= bytes.len()
    &&& is_char_boundary(bytes, start)
    &&& is_char_boundary(bytes, end)
}

/// Encoding distributes over concatenation.
pub proof fn lemma_encode_concat(a: Seq<char>, b: Seq<char>)
    ensures
        encode_utf8(a + b) == encode_utf8(a) + encode_utf8(b),
    decreases a.len(),
{
    if a.len() == 0 {
        assert(a + b =~= b);
        assert(encode_utf8(a) + encode_utf8(b) =~= encode_utf8(b));
    } else {
        lemma_encode_concat(a.drop_first(), b);
        assert((a + b).drop_first() =~= a.drop_first() + b);
        assert(encode_utf8(a + b) =~= encode_utf8(a) + encode_utf8(b));
    }
}

/// Two character sequences with the same encoding are the same sequence.
pub proof fn lemma_encode_injective(a: Seq<char>, b: Seq<char>)
    requires
        encode_utf8(a) == encode_utf8(b),
    ensures
        a == b,
{
    encode_utf8_decode_utf8(a);
    encode_utf8_decode_utf8(b);
}

/// A character boundary of a text below another one is a boundary of the
/// prefix that ends there.
pub proof fn lemma_boundary_in_prefix(bytes: Seq<u8>, start: int, end: int)
    requires
        valid_utf8(bytes),
        char_range(bytes, start, end),
    ensures
        valid_utf8(bytes.subrange(0, end)),
        is_char_boundary(bytes.subrange(0, end), start),
{
    let prefix = bytes.subrange(0, end);
    valid_utf8_split(bytes, end);
    if start == end {
        is_char_boundary_start_end_of_seq(prefix);
    } else {
        is_char_boundary_iff_not_is_continuation_byte(bytes, start);
        is_char_boundary_iff_not_is_continuation_byte(prefix, start);
    }
}

/// Whether `[start, end)` can be cut out of `s`.
pub fn is_char_range(s: &str, start: usize, end: usize) -> (ok: bool)
    ensures
        ok == char_range(s.spec_bytes(), start as int, end as int),
{
    proof {
        encode_utf8_valid_utf8(s@);
    }
    start <= end && s.is_char_boundary(start) && s.is_char_boundary(end)
}

/// The part of `s` that `[start, end)` covers.
pub fn byte_slice<'a>(s: &'a str, start: usize, end: usize) -> (part: &'a str)
    requires
        char_range(s.spec_bytes(), start as int, end as int),
    ensures
        part.spec_bytes() == s.spec_bytes().subrange(start as int, end as int),
{
    proof {
        encode_utf8_valid_utf8(s@);
        lemma_boundary_in_prefix(s.spec_bytes(), start as int, end as int);
    }
    let (head, _) = s.split_at(end);
    let (_, part) = head.split_at(start);
    assert(part.spec_bytes() =~= s.spec_bytes().subrange(start as int, end as int));
    part
}

/// The characters of `s`, one by one.
pub fn to_chars(s: &str) -> (chars: Vec<char>)
    ensures
        chars@ == s@,
{
    broadcast use vstd::string::group_string_axioms;

    let mut chars: Vec<char> = Vec::new();
    for c in it: s.chars()
        invariant
            it.seq() == s@,
            chars@ == s@.subrange(0, it.index()),
    {
        chars.push(c);
    }
    assert(chars@ =~= s@);
    chars
}

/// `String::push` of std: the string grows by the one character.
#[verifier::external_body]
pub(crate) fn push_char(s: &mut String, c: char)
    ensures
        final(s)@ == old(s)@.push(c),
{
    s.push(c);
}

/// Whether two strings hold the same text.
pub fn same_text(a: &str, b: &str) -> (same: bool)
    ensures
        same == (a@ == b@),
{
    let x = a.as_bytes();
    let y = b.as_bytes();
    if x.len() != y.len() {
        return false;
    }
    let mut i: usize = 0;
    while i < x.len()
        invariant
            i <= x.len(),
            x@.len() == y@.len(),
            x@ == a.spec_bytes(),
            y@ == b.spec_bytes(),
            x@.subrange(0, i as int) == y@.subrange(0, i as int),
        decreases x.len() - i,
    {
        if x[i] != y[i] {
            assert(x@[i as int] != y@[i as int]);
            return false;
        }
        i += 1;
        assert(x@.subrange(0, i as int) =~= x@.subrange(0, i - 1).push(x@[i - 1]));
        assert(y@.subrange(0, i as int) =~= y@.subrange(0, i - 1).push(y@[i - 1]));
    }
    proof {
        assert(x@ =~= x@.subrange(0, i as int));
        assert(y@ =~= y@.subrange(0, i as int));
        lemma_encode_injective(a@, b@);
    }
    true
}

/// The capital of a small ASCII letter; any other character as it is.
pub open spec fn ascii_upper(c: char) -> char {
    if 'a' <= c && c <= 'z' {
        ((c as u8) - 32) as char
    } else {
        c
    }
}

/// The capital of a small ASCII letter; any other character as it is.
pub fn to_ascii_upper(c: char) -> (upper: char)
    ensures
        upper == ascii_upper(c),
{
    if 'a' <= c && c <= 'z' {
        let b: u8 = c as u8;
        (b - 32) as char
    } else {
        c
    }
}

/// The small letter of an ASCII capital; any other character as it is.
pub open spec fn ascii_lower(c: char) -> char {
    if 'A' <= c && c <= 'Z' {
        ((c as u8) + 32) as char
    } else {
        c
    }
}

/// The small letter of an ASCII capital; any other character as it is.
pub fn to_ascii_lower(c: char) -> (lower: char)
    ensures
        lower == ascii_lower(c),
{
    if 'A' <= c && c <= 'Z' {
        let b: u8 = c as u8;
        (b + 32) as char
    } else {
        c
    }
}

/// `text` with its ASCII capitals as small letters.
pub open spec fn lowered(text: Seq<char>) -> Seq<char> {
    Seq::new(text.len(), |i: int| ascii_lower(text[i]))
}

/// `text` with its ASCII capitals as small letters.
pub fn to_lowered(text: &str) -> (lower: String)
    ensures
        lower@ == lowered(text@),
{
    let chars = to_chars(text);
    let mut lower = String::new();
    let mut i: usize = 0;
    while i < chars.len()
        invariant
            i <= chars.len(),
            chars@ == text@,
            lower@ == lowered(chars@.take(i as int)),
        decreases chars.len() - i,
    {
        push_char(&mut lower, to_ascii_lower(chars[i]));
        i += 1;
        assert(lower@ =~= lowered(chars@.take(i as int)));
    }
    assert(chars@.take(i as int) =~= chars@);
    lower
}

/// `a` followed by `b`, as a new string.
pub fn join2(a: &str, b: &str) -> (s: String)
    ensures
        s@ == a@ + b@,
{
    let mut s = String::from_str(a);
    s.append(b);
    s
}

} // verus!
