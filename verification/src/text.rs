//! White space, and trimming it off the ends of a text.

use vstd::prelude::*;

verus! {

/// Whether `c` is white space: one of the characters to which Unicode gives
/// the property White_Space. They are the controls from tab to carriage
/// return, the space, next line, the no-break space, the ogham space mark,
/// the spaces from en quad to hair space, the line and paragraph separators,
/// the narrow no-break space, the medium mathematical space and the
/// ideographic space.
pub open spec fn white_space(c: char) -> bool {
    let code = c as u32;
    ||| 0x09 <= code <= 0x0D
    ||| code == 0x20
    ||| code == 0x85
    ||| code == 0xA0
    ||| code == 0x1680
    ||| 0x2000 <= code <= 0x200A
    ||| code == 0x2028
    ||| code == 0x2029
    ||| code == 0x202F
    ||| code == 0x205F
    ||| code == 0x3000
}

/// Whether `c` is white space.
pub fn is_white_space(c: char) -> (result: bool)
    ensures
        result == white_space(c),
{
    let code = c as u32;
    (0x09 <= code && code <= 0x0D) || code == 0x20 || code == 0x85 || code == 0xA0 || code
        == 0x1680 || (0x2000 <= code && code <= 0x200A) || code == 0x2028 || code == 0x2029
        || code == 0x202F || code == 0x205F || code == 0x3000
}

/// The number of white-space characters at the start of `text`.
pub open spec fn leading_white_space(text: Seq<char>) -> nat
    decreases text.len(),
{
    if text.len() > 0 && white_space(text.first()) {
        1 + leading_white_space(text.drop_first())
    } else {
        0
    }
}

/// The number of white-space characters at the end of `text`.
pub open spec fn trailing_white_space(text: Seq<char>) -> nat
    decreases text.len(),
{
    if text.len() > 0 && white_space(text.last()) {
        1 + trailing_white_space(text.drop_last())
    } else {
        0
    }
}

/// `text` without the white space at its start and at its end. A text of
/// white space only trims to the empty text.
pub open spec fn trimmed(text: Seq<char>) -> Seq<char> {
    let start = leading_white_space(text);
    let rest = text.skip(start as int);
    rest.take(rest.len() - trailing_white_space(rest))
}

/// A text that starts with exactly `count` white-space characters has that
/// many leading ones.
proof fn lemma_leading_white_space(text: Seq<char>, count: nat)
    requires
        count <= text.len(),
        forall|i: int| 0 <= i < count ==> white_space(#[trigger] text[i]),
        count < text.len() ==> !white_space(text[count as int]),
    ensures
        leading_white_space(text) == count,
    decreases count,
{
    if count > 0 {
        lemma_leading_white_space(text.drop_first(), (count - 1) as nat);
    }
}

/// A text that ends with exactly `count` white-space characters has that many
/// trailing ones.
proof fn lemma_trailing_white_space(text: Seq<char>, count: nat)
    requires
        count <= text.len(),
        forall|i: int| text.len() - count <= i < text.len() ==> white_space(#[trigger] text[i]),
        count < text.len() ==> !white_space(text[text.len() - count - 1]),
    ensures
        trailing_white_space(text) == count,
    decreases count,
{
    if count > 0 {
        lemma_trailing_white_space(text.drop_last(), (count - 1) as nat);
    }
}

/// Removes the white space at both ends of `text`.
pub fn trim(text: &str) -> (core: &str)
    ensures
        core@ == trimmed(text@),
{
    let length = text.unicode_len();
    let mut start: usize = 0;
    while start < length && is_white_space(text.get_char(start))
        invariant
            start <= length == text@.len(),
            forall|i: int| 0 <= i < start ==> white_space(#[trigger] text@[i]),
        decreases length - start,
    {
        start += 1;
    }
    let mut end: usize = length;
    while end > start && is_white_space(text.get_char(end - 1))
        invariant
            start <= end <= length == text@.len(),
            forall|i: int| end <= i < length ==> white_space(#[trigger] text@[i]),
        decreases end,
    {
        end -= 1;
    }
    proof {
        lemma_leading_white_space(text@, start as nat);
        let rest = text@.skip(start as int);
        lemma_trailing_white_space(rest, (length - end) as nat);
        assert(rest.take(end - start) =~= text@.subrange(start as int, end as int));
    }
    text.substring_char(start, end)
}

} // verus!
