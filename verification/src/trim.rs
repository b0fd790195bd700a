//! White space at the two ends of a text.

use vstd::prelude::*;
use vstd::string::StrSliceExecFns;

verus! {

broadcast use vstd::string::group_string_axioms;

/// The characters that count as white space: those with the Unicode property
/// `White_Space`.
pub open spec fn is_white_space(c: char) -> bool {
    let code = c as u32;
    ||| 0x09 <= code <= 0x0d
    ||| code == 0x20
    ||| code == 0x85
    ||| code == 0xa0
    ||| code == 0x1680
    ||| 0x2000 <= code <= 0x200a
    ||| code == 0x2028
    ||| code == 0x2029
    ||| code == 0x202f
    ||| code == 0x205f
    ||| code == 0x3000
}

/// The number of white-space characters that a text starts with.
pub open spec fn leading(text: Seq<char>) -> nat
    decreases text.len(),
{
    if text.len() > 0 && is_white_space(text.first()) {
        1 + leading(text.drop_first())
    } else {
        0
    }
}

/// The number of white-space characters that a text ends with.
pub open spec fn trailing(text: Seq<char>) -> nat
    decreases text.len(),
{
    if text.len() > 0 && is_white_space(text.last()) {
        1 + trailing(text.drop_last())
    } else {
        0
    }
}

/// A text without the white space at its two ends.
pub open spec fn trimmed(text: Seq<char>) -> Seq<char> {
    if leading(text) >= text.len() {
        Seq::empty()
    } else {
        text.subrange(leading(text) as int, text.len() - trailing(text))
    }
}

/// A text starts with exactly `k` white-space characters if its first `k`
/// characters are white space and the next one, if there is one, is not.
proof fn lemma_leading_is(text: Seq<char>, k: int)
    requires
        0 <= k <= text.len(),
        forall|j: int| 0 <= j < k ==> is_white_space(#[trigger] text[j]),
        k < text.len() ==> !is_white_space(text[k]),
    ensures
        leading(text) == k,
    decreases k,
{
    if k > 0 {
        let rest = text.drop_first();
        assert forall|j: int| 0 <= j < k - 1 implies is_white_space(#[trigger] rest[j]) by {
            assert(rest[j] == text[j + 1]);
        }
        assert(text.first() == text[0]);
        if k < text.len() {
            assert(rest[k - 1] == text[k]);
        }
        lemma_leading_is(rest, k - 1);
    }
}

/// A text ends with exactly `k` white-space characters if its last `k`
/// characters are white space and the one before them, if there is one, is
/// not.
proof fn lemma_trailing_is(text: Seq<char>, k: int)
    requires
        0 <= k <= text.len(),
        forall|j: int| text.len() - k <= j < text.len() ==> is_white_space(#[trigger] text[j]),
        k < text.len() ==> !is_white_space(text[text.len() - k - 1]),
    ensures
        trailing(text) == k,
    decreases k,
{
    if k > 0 {
        let rest = text.drop_last();
        assert forall|j: int| rest.len() - (k - 1) <= j < rest.len() implies is_white_space(
            #[trigger] rest[j],
        ) by {
            assert(rest[j] == text[j]);
        }
        assert(text.last() == text[text.len() - 1]);
        if k < text.len() {
            assert(rest[rest.len() - (k - 1) - 1] == text[text.len() - k - 1]);
        }
        lemma_trailing_is(rest, k - 1);
    }
}

/// Whether a character is white space.
pub fn is_space(c: char) -> (space: bool)
    ensures
        space == is_white_space(c),
{
    let code = c as u32;
    (0x09 <= code && code <= 0x0d) || code == 0x20 || code == 0x85 || code == 0xa0 || code == 0x1680
        || (0x2000 <= code && code <= 0x200a) || code == 0x2028 || code == 0x2029 || code
        == 0x202f || code == 0x205f || code == 0x3000
}

/// The part of a text between the white space at its two ends.
pub fn trim(text: &str) -> (part: &str)
    ensures
        part@ == trimmed(text@),
{
    let len = text.unicode_len();
    let mut first: usize = 0;
    let mut end: usize = 0;
    let mut at: usize = 0;
    for c in rest: text.chars()
        invariant
            rest.seq() == text@,
            len == text@.len(),
            at == rest.index(),
            at <= len,
            end == 0 ==> first == at,
            end > 0 ==> first < end <= at,
            end > 0 ==> !is_white_space(text@[first as int]),
            end > 0 ==> !is_white_space(text@[end - 1]),
            forall|j: int| 0 <= j < first ==> is_white_space(#[trigger] text@[j]),
            forall|j: int| end <= j < at ==> is_white_space(#[trigger] text@[j]),
    {
        if is_space(c) {
            if end == 0 {
                first = at + 1;
            }
        } else {
            end = at + 1;
        }
        at += 1;
    }
    proof {
        if end == 0 {
            lemma_leading_is(text@, len as int);
        } else {
            lemma_leading_is(text@, first as int);
            lemma_trailing_is(text@, len - end);
        }
    }
    if end == 0 {
        let part = text.substring_char(0, 0);
        assert(part@ =~= Seq::<char>::empty());
        part
    } else {
        text.substring_char(first, end)
    }
}

} // verus!
