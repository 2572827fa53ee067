//! The values that filters receive and produce.
use vstd::prelude::*;
use crate::integer::Integer;

verus! {

/// Text content, marked by how it is to be treated when it is rendered with
/// autoescaping: plain text, text already safe as HTML, or text known to be
/// unsafe as HTML.
#[derive(Debug, PartialEq)]
pub enum ContentString {
    String(String),
    HtmlSafe(String),
    HtmlUnsafe(String),
}

impl ContentString {
    /// The text itself, whatever its marking.
    pub open spec fn raw(&self) -> Seq<char> {
        match self {
            ContentString::String(s) => s@,
            ContentString::HtmlSafe(s) => s@,
            ContentString::HtmlUnsafe(s) => s@,
        }
    }

    /// Both are marked the same way.
    pub open spec fn same_kind(&self, other: &ContentString) -> bool {
        match (self, other) {
            (ContentString::String(_), ContentString::String(_)) => true,
            (ContentString::HtmlSafe(_), ContentString::HtmlSafe(_)) => true,
            (ContentString::HtmlUnsafe(_), ContentString::HtmlUnsafe(_)) => true,
            _ => false,
        }
    }

    pub fn as_raw(&self) -> (r: &String)
        ensures
            r@ == self.raw(),
    {
        match self {
            ContentString::String(s) => s,
            ContentString::HtmlSafe(s) => s,
            ContentString::HtmlUnsafe(s) => s,
        }
    }

    pub fn into_raw(self) -> (r: String)
        ensures
            r@ == self.raw(),
    {
        match self {
            ContentString::String(s) => s,
            ContentString::HtmlSafe(s) => s,
            ContentString::HtmlUnsafe(s) => s,
        }
    }

    /// The same marking around new text.
    pub fn map_content(self, text: String) -> (r: ContentString)
        ensures
            r.same_kind(&self),
            r.raw() == text@,
    {
        match self {
            ContentString::String(_) => ContentString::String(text),
            ContentString::HtmlSafe(_) => ContentString::HtmlSafe(text),
            ContentString::HtmlUnsafe(_) => ContentString::HtmlUnsafe(text),
        }
    }

    /// Empty plain text: what a filter gives for a missing value.
    pub fn empty() -> (r: ContentString)
        ensures
            r is String,
            r.raw() == Seq::<char>::empty(),
    {
        ContentString::String(String::new())
    }
}

/// A value that a filter works on: text, an integer or a boolean.
#[derive(Debug, PartialEq)]
pub enum Content {
    String(ContentString),
    Int(Integer),
    Bool(bool),
}

impl Content {
    /// Whether the value counts as true, as Python's `bool()` would say:
    /// non-empty text, a non-zero integer, `True`.
    pub open spec fn truthy(&self) -> bool {
        match self {
            Content::String(s) => s.raw().len() > 0,
            Content::Int(n) => n.value() != 0,
            Content::Bool(b) => *b,
        }
    }

    pub fn to_bool(&self) -> (r: bool)
        ensures
            r == self.truthy(),
            self matches Content::Int(n) ==> r == (n.value() != 0),
    {
        match self {
            Content::String(s) => !s.as_raw().as_str().is_empty(),
            Content::Int(n) => !n.is_zero(),
            Content::Bool(b) => *b,
        }
    }
}

} // verus!
