//! The `body` element: it takes no attributes, and text as children.

use core::convert::Infallible;
use crate::document::attributes_first;
use crate::document::document;
use crate::document::first_misplaced;
use crate::document::texts;
use crate::element::Element;
use crate::element::Node;
use crate::element::UnexpectedAttribute;
use crate::fragment::Content;
use crate::fragment::ContentView;
use crate::fragment::Fragment;
use crate::serializer::serialize;
use vstd::prelude::*;
use vstd::std_specs::convert::FromSpecImpl;

verus! {

/// The attributes of a `body` element. There are none: the type has no
/// values.
#[derive(Debug)]
pub enum BodyAttribute {
    /// Cannot be made: its payload has no values.
    Never(Infallible),
}

/// A child of a `body` element.
#[derive(Debug)]
pub enum BodyChild {
    /// Raw text, escaped when it is serialized.
    Text(&'static str),
}

/// One event of a `body` element's input.
#[derive(Debug)]
pub enum Body {
    Attribute(BodyAttribute),
    Child(BodyChild),
}

/// A fragment of a serialized `body` element. It is already escaped and must
/// not be escaped again.
#[derive(Debug)]
pub struct BodySafeOutput(Fragment);

impl View for BodySafeOutput {
    type V = Seq<char>;

    closed spec fn view(&self) -> Seq<char> {
        self.0@
    }
}

impl BodySafeOutput {
    /// The text of the fragment.
    pub fn as_str(&self) -> (text: &str)
        ensures
            text@ == self@,
    {
        self.0.as_str()
    }

    /// The fragment itself, to be placed in an enclosing element.
    pub fn into_fragment(self) -> (fragment: Fragment)
        ensures
            fragment@ == self@,
    {
        self.0
    }
}

impl BodyAttribute {
    /// The raw text that the attribute carries. No attribute exists, and so
    /// none carries any.
    pub open spec fn text(self) -> Seq<char> {
        Seq::empty()
    }

    /// The raw text that the attribute carries.
    pub fn as_str(&self) -> (text: &'static str)
        ensures
            text@ == self.text(),
    {
        proof {
            reveal_strlit("");
        }
        assert(""@ =~= Seq::<char>::empty());
        ""
    }
}

impl BodyChild {
    /// The raw text that the child carries.
    pub open spec fn text(self) -> Seq<char> {
        match self {
            BodyChild::Text(text) => text@,
        }
    }

    /// The raw text that the child carries.
    pub fn as_str(&self) -> (text: &'static str)
        ensures
            text@ == self.text(),
    {
        match self {
            BodyChild::Text(text) => *text,
        }
    }
}

impl Body {
    /// The raw text that the event carries.
    pub open spec fn text(self) -> Seq<char> {
        match self {
            Body::Attribute(attribute) => attribute.text(),
            Body::Child(child) => child.text(),
        }
    }

    /// The raw text that the event carries.
    pub fn as_str(&self) -> (text: &'static str)
        ensures
            text@ == self.text(),
    {
        match self {
            Body::Attribute(attribute) => attribute.as_str(),
            Body::Child(child) => child.as_str(),
        }
    }
}

/// Raw text is a child.
impl From<&'static str> for BodyChild {
    fn from(text: &'static str) -> (child: BodyChild) {
        BodyChild::Text(text)
    }
}

impl FromSpecImpl<&'static str> for BodyChild {
    open spec fn obeys_from_spec() -> bool {
        true
    }

    open spec fn from_spec(text: &'static str) -> BodyChild {
        BodyChild::Text(text)
    }
}

/// A child gives up the raw text that it carries.
impl From<BodyChild> for &'static str {
    fn from(child: BodyChild) -> (text: &'static str) {
        match child {
            BodyChild::Text(text) => text,
        }
    }
}

impl FromSpecImpl<BodyChild> for &'static str {
    open spec fn obeys_from_spec() -> bool {
        true
    }

    open spec fn from_spec(child: BodyChild) -> &'static str {
        match child {
            BodyChild::Text(text) => text,
        }
    }
}

/// An attribute gives up the raw text that it carries: none, as no
/// attribute exists.
impl From<BodyAttribute> for &'static str {
    fn from(attribute: BodyAttribute) -> (text: &'static str) {
        ""
    }
}

impl FromSpecImpl<BodyAttribute> for &'static str {
    open spec fn obeys_from_spec() -> bool {
        true
    }

    open spec fn from_spec(attribute: BodyAttribute) -> &'static str {
        ""
    }
}

/// An event gives up the raw text that it carries.
impl From<Body> for &'static str {
    fn from(event: Body) -> (text: &'static str) {
        match event {
            Body::Attribute(_) => "",
            Body::Child(BodyChild::Text(text)) => text,
        }
    }
}

impl FromSpecImpl<Body> for &'static str {
    open spec fn obeys_from_spec() -> bool {
        true
    }

    open spec fn from_spec(event: Body) -> &'static str {
        match event {
            Body::Attribute(_) => "",
            Body::Child(BodyChild::Text(text)) => text,
        }
    }
}

/// The `body` element.
pub struct BodyElement;

impl Element for BodyElement {
    type Event = Body;

    type Attribute = BodyAttribute;

    type Child = BodyChild;

    type Output = BodySafeOutput;

    open spec fn tag(&self) -> Seq<char> {
        seq!['b', 'o', 'd', 'y']
    }

    open spec fn node_of(&self, event: Body) -> Node<BodyAttribute, BodyChild> {
        match event {
            Body::Attribute(attribute) => Node::Attribute(attribute),
            Body::Child(child) => Node::Child(child),
        }
    }

    open spec fn attribute_of(&self, attribute: BodyAttribute) -> Option<(Seq<char>, Seq<char>)> {
        None
    }

    open spec fn content_of(&self, child: BodyChild) -> ContentView {
        match child {
            BodyChild::Text(text) => ContentView::Text(text@),
        }
    }

    open spec fn text_of(&self, output: BodySafeOutput) -> Seq<char> {
        output@
    }

    fn tag_name(&self) -> (name: &'static str) {
        proof {
            reveal_strlit("body");
        }
        assert("body"@ =~= seq!['b', 'o', 'd', 'y']);
        "body"
    }

    fn node(&self, event: Body) -> (node: Node<BodyAttribute, BodyChild>) {
        match event {
            Body::Attribute(attribute) => Node::Attribute(attribute),
            Body::Child(child) => Node::Child(child),
        }
    }

    fn attribute(&self, attribute: &BodyAttribute) -> (parts: Option<(&'static str, &'static str)>) {
        None
    }

    fn content(&self, child: BodyChild) -> (content: Content) {
        match child {
            BodyChild::Text(text) => Content::Text(text),
        }
    }

    fn output(&self, fragment: Fragment) -> (output: BodySafeOutput) {
        BodySafeOutput(fragment)
    }

    fn text<'a>(&self, output: &'a BodySafeOutput) -> (text: &'a str) {
        output.as_str()
    }
}

/// Serializes a `body` element from its events: `<body`, `>`, the escaped
/// text of each child, `</body>`.
pub fn body(inner: Vec<Body>) -> (result: Result<
    Vec<BodySafeOutput>,
    UnexpectedAttribute<BodyAttribute>,
>)
    ensures
        match result {
            Ok(outputs) => {
                &&& attributes_first(BodyElement, inner@)
                &&& texts(BodyElement, outputs@) == document(BodyElement, inner@)
            },
            Err(error) => {
                &&& error.element@ == BodyElement.tag()
                &&& exists|at: int|
                    first_misplaced(BodyElement, inner@, at) && #[trigger] inner@[at]
                        == Body::Attribute(error.attribute)
            },
        },
{
    serialize(BodyElement, inner)
}

} // verus!
