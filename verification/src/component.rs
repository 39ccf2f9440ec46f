//! The vocabulary shared with interface layers: element handles, the
//! plain components a surface can show, and the error a transport reports.
use std::fmt::{Debug, Display};
use vstd::prelude::*;
use vstd::std_specs::convert::IntoSpec;
use vstd::string::to_string_from_display_ensures;

verus! {

/// Handle of a component that a surface has taken in.
#[derive(Debug, Clone, Copy, Hash, PartialEq, Eq, Structural)]
pub struct Element(pub u64);

/// The axis along which a stack lays out its children.
#[derive(Debug, Clone, Copy, PartialEq, Eq, Structural)]
pub enum Direction {
    Horizontal,
    Vertical,
}

/// A heading line.
#[derive(Debug)]
pub struct Heading(String);

impl Heading {
    /// The heading's text.
    pub closed spec fn text(&self) -> Seq<char> {
        self.0@
    }

    /// A heading showing `text`.
    pub fn from_text(text: String) -> (heading: Self)
        ensures
            heading.text() == text@,
    {
        Heading(text)
    }

    /// A heading showing whatever `item` converts into. The text is that
    /// of the conversion, wherever the conversion is a specified one.
    pub fn new<T: Into<String>>(item: T) -> (heading: Self)
        ensures
            <T as IntoSpec<String>>::obeys_into_spec() ==> heading.text() == IntoSpec::<
                String,
            >::into_spec(item)@,
    {
        Heading::from_text(item.into())
    }

    /// The heading's text.
    pub fn as_str(&self) -> (text: &str)
        ensures
            text@ == self.text(),
    {
        self.0.as_str()
    }
}

/// A paragraph of body text.
#[derive(Debug)]
pub struct Paragraph(String);

impl Paragraph {
    /// The paragraph's text.
    pub closed spec fn text(&self) -> Seq<char> {
        self.0@
    }

    /// A paragraph showing `text`.
    pub fn new(text: String) -> (paragraph: Self)
        ensures
            paragraph.text() == text@,
    {
        Paragraph(text)
    }

    /// The paragraph's text.
    pub fn as_str(&self) -> (text: &str)
        ensures
            text@ == self.text(),
    {
        self.0.as_str()
    }
}

/// A fixed row or column of components already taken in by the surface.
pub struct StaticStack(Vec<Element>, Direction);

impl StaticStack {
    /// The children, first to last.
    pub closed spec fn children(&self) -> Seq<Element> {
        self.0@
    }

    /// The layout axis.
    pub closed spec fn axis(&self) -> Direction {
        self.1
    }

    /// A stack of `elements`, in that order, laid out along `direction`.
    pub fn new_from_elements(elements: Vec<Element>, direction: Direction) -> (stack: Self)
        ensures
            stack.children() == elements@,
            stack.axis() == direction,
    {
        StaticStack(elements, direction)
    }

    /// The children, first to last.
    pub fn elements(&self) -> (elements: &Vec<Element>)
        ensures
            elements@ == self.children(),
    {
        &self.0
    }

    /// The layout axis.
    pub fn direction(&self) -> (direction: Direction)
        ensures
            direction == self.axis(),
    {
        self.1
    }
}

/// Formats `item` with its `Debug` impl (`format!` with `{:?}`). What
/// comes out is up to that impl, so nothing is claimed of it.
#[verifier::external_body]
fn debug_text<T: Debug>(item: &T) -> (text: String) {
    format!("{:?}", item)
}

/// An error raised while moving components across a boundary, kept as the
/// two renderings of whatever caused it.
#[derive(Clone)]
pub struct TransportError {
    display: String,
    debug: String,
}

impl TransportError {
    /// The user-facing rendering.
    pub closed spec fn shown(&self) -> String {
        self.display
    }

    /// The rendering kept for logs.
    pub closed spec fn logged(&self) -> String {
        self.debug
    }

    /// Captures `item` by its two renderings. The user-facing one is what
    /// `to_string` gives for `item`.
    pub fn new<T: Display + Debug>(item: T) -> (error: Self)
        ensures
            to_string_from_display_ensures::<T>(&item, error.shown()),
    {
        let display = item.to_string();
        let debug = debug_text(&item);
        TransportError { display, debug }
    }

    /// The user-facing rendering.
    pub fn display(&self) -> (text: &str)
        ensures
            text@ == self.shown()@,
    {
        self.display.as_str()
    }

    /// The rendering meant for logs, as it was captured.
    pub fn debug(&self) -> (text: &str)
        ensures
            text@ == self.logged()@,
    {
        self.debug.as_str()
    }
}

} // verus!
