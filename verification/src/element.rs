//! Elements and their events: what a serializer is told about the kind of
//! element that it writes.

use crate::fragment::Content;
use crate::fragment::ContentView;
use crate::fragment::Fragment;
use vstd::prelude::*;

verus! {

/// One event of an element's input, sorted into the two kinds that the
/// serializer tells apart.
#[derive(Debug)]
pub enum Node<A, C> {
    Attribute(A),
    Child(C),
}

/// The phases of an element serializer.
#[derive(Clone, Copy, PartialEq, Eq, Structural, Debug)]
pub enum Phase {
    /// Nothing emitted yet.
    Opening,
    /// The tag is open; attributes are accepted.
    InAttributes,
    /// The tag has been ended with `>`; only children are accepted.
    InChildren,
    /// The element is complete, or serialization was aborted.
    Closed,
}

/// One kind of element: its tag name and what its events mean.
pub trait Element {
    /// The events that the element is serialized from.
    type Event;

    /// The payload of an attribute event.
    type Attribute;

    /// The payload of a child event.
    type Child;

    /// The fragments that the element is serialized into.
    type Output;

    /// The tag name, such as `html`.
    spec fn tag(&self) -> Seq<char>;

    /// The kind of an event and its payload.
    spec fn node_of(&self, event: Self::Event) -> Node<Self::Attribute, Self::Child>;

    /// The name and the raw value of an attribute. An attribute type without
    /// variants names none.
    spec fn attribute_of(&self, attribute: Self::Attribute) -> Option<(Seq<char>, Seq<char>)>;

    /// What a child contributes.
    spec fn content_of(&self, child: Self::Child) -> ContentView;

    /// The text of an output fragment.
    spec fn text_of(&self, output: Self::Output) -> Seq<char>;

    /// The tag name.
    fn tag_name(&self) -> (name: &'static str)
        ensures
            name@ == self.tag(),
    ;

    /// Sorts an event into its kind and hands over its payload.
    fn node(&self, event: Self::Event) -> (node: Node<Self::Attribute, Self::Child>)
        ensures
            node == self.node_of(event),
    ;

    /// The name and the raw value of an attribute, or `None` where the
    /// attribute type names no attribute.
    fn attribute(&self, attribute: &Self::Attribute) -> (parts: Option<(&'static str, &'static str)>)
        ensures
            match parts {
                Some((name, value)) => self.attribute_of(*attribute) == Some((name@, value@)),
                None => self.attribute_of(*attribute) is None,
            },
    ;

    /// What a child contributes: raw text, or a fragment of a nested
    /// element.
    fn content(&self, child: Self::Child) -> (content: Content)
        ensures
            content@ == self.content_of(child),
    ;

    /// Wraps a fragment of the serializer as an output of this element. The
    /// text is not touched.
    fn output(&self, fragment: Fragment) -> (output: Self::Output)
        ensures
            self.text_of(output) == fragment@,
    ;

    /// The text of an output fragment.
    fn text<'a>(&self, output: &'a Self::Output) -> (text: &'a str)
        ensures
            text@ == self.text_of(*output),
    ;
}

/// The fatal error of an element serializer: an attribute arrived after the
/// element's children had started.
#[derive(Debug)]
pub struct UnexpectedAttribute<A> {
    /// The tag name of the element that was being serialized.
    pub element: &'static str,
    /// The attribute that came too late.
    pub attribute: A,
}

} // verus!
