//! Filling text into lines with the `textwrap` crate. Nothing in this file
//! is proved: the crate does the work, and the name below stands for what it
//! returns.

use vstd::prelude::*;

verus! {

/// What `textwrap::fill` makes of `text` for lines of `width` columns.
pub uninterp spec fn filled(text: Seq<char>, width: nat) -> Seq<char>;

/// `textwrap::fill` with a plain width: the text re-broken into lines of at
/// most `width` columns where its words allow it. The result depends on the
/// text and the width alone; what it is for a given text is not stated here.
#[verifier::external_body]
pub(crate) fn fill(text: &str, width: usize) -> (wrapped: String)
    ensures
        wrapped@ == filled(text@, width as nat),
{
    textwrap::fill(text, width)
}

} // verus!
