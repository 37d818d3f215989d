//! Reading a page of markup with the `select` crate. Nothing in this file is
//! proved: the crate parses the page, and the two names below stand for what
//! it finds there.

use select::document::Document;
use select::predicate::{Class, Name};
use vstd::prelude::*;

verus! {

/// The longest page, in characters, that is handed to the parser. The crate
/// keeps each text in a buffer whose size is a 32-bit number rounded up to a
/// power of two, and fails past that. A character takes at most four bytes,
/// as a page comes in and as its texts come out, so that a page within this
/// limit keeps every buffer within two to the power of thirty bytes.
pub const MAX_PAGE_LENGTH: usize = 0x1000_0000;

/// The texts of the elements of `page` that carry the class `class`, in
/// document order: for each, the text inside it and inside its descendants.
pub uninterp spec fn class_texts(page: Seq<char>, class: Seq<char>) -> Seq<Seq<char>>;

/// The texts of the elements of `page` whose tag name is `name`, in document
/// order: for each, the text inside it and inside its descendants.
pub uninterp spec fn element_texts(page: Seq<char>, name: Seq<char>) -> Seq<Seq<char>>;

/// The characters of each string of a list.
pub open spec fn views(texts: Seq<String>) -> Seq<Seq<char>> {
    texts.map_values(|text: String| text@)
}

/// `Document::from` on the page, then `Document::find` once with the
/// predicate `Class` and once with the predicate `Name`, and `Node::text` on
/// each node found. The first list depends on the page and the class alone,
/// the second on the page and the name alone. A page past the limit is left
/// out: the crate panics where a buffer outgrows its 32-bit size. The crate
/// walks a document by recursion, one call for each level of nesting, and
/// nothing here bounds the depth: a page nested more deeply than the stack
/// allows ends the process.
#[verifier::external_body]
pub(crate) fn page_texts(page: &str, class: &str, name: &str) -> (texts: (
    Vec<String>,
    Vec<String>,
))
    requires
        page@.len() <= MAX_PAGE_LENGTH,
    ensures
        views(texts.0@) == class_texts(page@, class@),
        views(texts.1@) == element_texts(page@, name@),
{
    let document = Document::from(page);
    (
        document.find(Class(class)).map(|node| node.text()).collect(),
        document.find(Name(name)).map(|node| node.text()).collect(),
    )
}

} // verus!
