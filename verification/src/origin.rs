//! Where the fragments of a document come from: each one is a literal of
//! the serializer, one raw text escaped once, or a nested fragment passed
//! on.

use crate::document::attributes_text;
use crate::document::children_text;
use crate::document::document;
use crate::document::event_text;
use crate::document::is_child;
use crate::element::Element;
use crate::element::Node;
use crate::escape::escape_attribute_value;
use crate::escape::escape_element_text;
use crate::escape::lemma_attribute_value_escaped;
use crate::escape::lemma_element_text_escaped;
use crate::fragment::ContentView;
use crate::fragment::attribute_open_text;
use crate::fragment::close_text;
use crate::fragment::open_text;
use crate::fragment::quote_text;
use crate::fragment::tag_end_text;
use vstd::prelude::*;

verus! {

/// The origin of one fragment.
pub enum Origin {
    /// Tag punctuation, written by the serializer itself.
    Literal(Seq<char>),
    /// The raw value of an attribute, escaped for a double-quoted value.
    Value(Seq<char>),
    /// The raw text of a child, escaped for element text.
    Text(Seq<char>),
    /// A fragment of a nested element, passed on as it is.
    Nested(Seq<char>),
}

/// The fragment that an origin gives: raw text goes through its escaping
/// function once, everything else is taken as it is.
pub open spec fn origin_text(origin: Origin) -> Seq<char> {
    match origin {
        Origin::Literal(text) => text,
        Origin::Value(raw) => escape_attribute_value(raw),
        Origin::Text(raw) => escape_element_text(raw),
        Origin::Nested(fragment) => fragment,
    }
}

/// The origins of the fragments of one event.
pub open spec fn event_origins<E: Element>(element: E, event: E::Event) -> Seq<Origin> {
    match element.node_of(event) {
        Node::Attribute(attribute) => match element.attribute_of(attribute) {
            Some((name, value)) => seq![
                Origin::Literal(attribute_open_text(name)),
                Origin::Value(value),
                Origin::Literal(quote_text()),
            ],
            None => Seq::empty(),
        },
        Node::Child(child) => match element.content_of(child) {
            ContentView::Text(raw) => seq![Origin::Text(raw)],
            ContentView::Nested(fragment) => seq![Origin::Nested(fragment)],
        },
    }
}

/// The origins of the fragments of the attributes among `events`.
pub open spec fn attributes_origins<E: Element>(element: E, events: Seq<E::Event>) -> Seq<Origin>
    decreases events.len(),
{
    if events.len() == 0 {
        Seq::empty()
    } else if is_child(element, events.last()) {
        attributes_origins(element, events.drop_last())
    } else {
        attributes_origins(element, events.drop_last()) + event_origins(element, events.last())
    }
}

/// The origins of the fragments of the children among `events`.
pub open spec fn children_origins<E: Element>(element: E, events: Seq<E::Event>) -> Seq<Origin>
    decreases events.len(),
{
    if events.len() == 0 {
        Seq::empty()
    } else if is_child(element, events.last()) {
        children_origins(element, events.drop_last()) + event_origins(element, events.last())
    } else {
        children_origins(element, events.drop_last())
    }
}

/// The origins of the fragments of a document, fragment by fragment.
pub open spec fn document_origins<E: Element>(element: E, events: Seq<E::Event>) -> Seq<Origin> {
    seq![Origin::Literal(open_text(element.tag()))] + attributes_origins(element, events) + seq![
        Origin::Literal(tag_end_text()),
    ] + children_origins(element, events) + seq![Origin::Literal(close_text(element.tag()))]
}

/// The fragments that a sequence of origins gives.
pub open spec fn origins_text(origins: Seq<Origin>) -> Seq<Seq<char>> {
    Seq::new(origins.len(), |i: int| origin_text(origins[i]))
}

/// The fragments of one event are those that its origins give.
proof fn lemma_event_origins<E: Element>(element: E, event: E::Event)
    ensures
        event_text(element, event) == origins_text(event_origins(element, event)),
{
    assert(event_text(element, event) =~= origins_text(event_origins(element, event)));
}

/// The fragments of the attributes are those that their origins give.
proof fn lemma_attributes_origins<E: Element>(element: E, events: Seq<E::Event>)
    ensures
        attributes_text(element, events) == origins_text(attributes_origins(element, events)),
    decreases events.len(),
{
    if events.len() > 0 {
        lemma_attributes_origins(element, events.drop_last());
        lemma_event_origins(element, events.last());
    }
    assert(attributes_text(element, events) =~= origins_text(attributes_origins(element, events)));
}

/// The fragments of the children are those that their origins give.
proof fn lemma_children_origins<E: Element>(element: E, events: Seq<E::Event>)
    ensures
        children_text(element, events) == origins_text(children_origins(element, events)),
    decreases events.len(),
{
    if events.len() > 0 {
        lemma_children_origins(element, events.drop_last());
        lemma_event_origins(element, events.last());
    }
    assert(children_text(element, events) =~= origins_text(children_origins(element, events)));
}

/// Every fragment of a document has exactly one origin, the one at its own
/// index: it is a literal, or one raw text escaped once, or a nested
/// fragment unchanged. Nothing is escaped twice.
pub proof fn lemma_document_origins<E: Element>(element: E, events: Seq<E::Event>)
    ensures
        document(element, events).len() == document_origins(element, events).len(),
        forall|i: int|
            0 <= i < document(element, events).len() ==> #[trigger] document(element, events)[i]
                == origin_text(document_origins(element, events)[i]),
{
    lemma_attributes_origins(element, events);
    lemma_children_origins(element, events);
    assert(document(element, events) =~= origins_text(document_origins(element, events)));
}

/// Whether an origin is the literal `>` that ends the opening tag.
pub open spec fn is_tag_end(origin: Origin) -> bool {
    origin == Origin::Literal(tag_end_text())
}

/// The index in a document of the fragment that ends the opening tag.
pub open spec fn tag_end_index<E: Element>(element: E, events: Seq<E::Event>) -> nat {
    1 + attributes_origins(element, events).len()
}

/// No fragment of an event is the end of the opening tag.
proof fn lemma_event_has_no_tag_end<E: Element>(element: E, event: E::Event)
    ensures
        forall|i: int|
            0 <= i < event_origins(element, event).len() ==> !is_tag_end(
                #[trigger] event_origins(element, event)[i],
            ),
{
    assert forall|i: int| 0 <= i < event_origins(element, event).len() implies !is_tag_end(
        #[trigger] event_origins(element, event)[i],
    ) by {
        let origin = event_origins(element, event)[i];
        if let Origin::Literal(text) = origin {
            assert(text[0] == ' ' || text[0] == '"');
            assert(tag_end_text()[0] == '>');
        }
    }
}

/// No fragment of an attribute is the end of the opening tag.
proof fn lemma_attributes_have_no_tag_end<E: Element>(element: E, events: Seq<E::Event>)
    ensures
        forall|i: int|
            0 <= i < attributes_origins(element, events).len() ==> !is_tag_end(
                #[trigger] attributes_origins(element, events)[i],
            ),
    decreases events.len(),
{
    if events.len() > 0 {
        lemma_attributes_have_no_tag_end(element, events.drop_last());
        lemma_event_has_no_tag_end(element, events.last());
        let all = attributes_origins(element, events);
        let earlier = attributes_origins(element, events.drop_last());
        let last = event_origins(element, events.last());
        assert forall|i: int| 0 <= i < all.len() implies !is_tag_end(#[trigger] all[i]) by {
            if i < earlier.len() {
                assert(all[i] == earlier[i]);
            } else {
                assert(all[i] == last[i - earlier.len()]);
            }
        }
    }
}

/// No fragment of a child is the end of the opening tag.
proof fn lemma_children_have_no_tag_end<E: Element>(element: E, events: Seq<E::Event>)
    ensures
        forall|i: int|
            0 <= i < children_origins(element, events).len() ==> !is_tag_end(
                #[trigger] children_origins(element, events)[i],
            ),
    decreases events.len(),
{
    if events.len() > 0 {
        lemma_children_have_no_tag_end(element, events.drop_last());
        lemma_event_has_no_tag_end(element, events.last());
        let all = children_origins(element, events);
        let earlier = children_origins(element, events.drop_last());
        let last = event_origins(element, events.last());
        assert forall|i: int| 0 <= i < all.len() implies !is_tag_end(#[trigger] all[i]) by {
            if i < earlier.len() {
                assert(all[i] == earlier[i]);
            } else {
                assert(all[i] == last[i - earlier.len()]);
            }
        }
    }
}

/// A document ends its opening tag exactly once, right after the
/// attributes, whether the element has children or not.
pub proof fn lemma_one_tag_end<E: Element>(element: E, events: Seq<E::Event>)
    ensures
        0 <= tag_end_index(element, events) < document_origins(element, events).len(),
        forall|i: int|
            0 <= i < document_origins(element, events).len() ==> (is_tag_end(
                #[trigger] document_origins(element, events)[i],
            ) <==> i == tag_end_index(element, events)),
{
    lemma_attributes_have_no_tag_end(element, events);
    lemma_children_have_no_tag_end(element, events);
    let origins = document_origins(element, events);
    let attributes = attributes_origins(element, events);
    let children = children_origins(element, events);
    assert(open_text(element.tag())[0] == '<');
    assert(close_text(element.tag())[0] == '<');
    assert(tag_end_text()[0] == '>');
    assert forall|i: int| 0 <= i < origins.len() implies (is_tag_end(#[trigger] origins[i]) <==> i
        == tag_end_index(element, events)) by {
        if i == 0 {
        } else if i <= attributes.len() {
            assert(origins[i] == attributes[i - 1]);
        } else if i == attributes.len() + 1 {
        } else if i <= attributes.len() + 1 + children.len() {
            assert(origins[i] == children[i - attributes.len() - 2]);
        } else {
        }
    }
}

/// Raw text cannot break out of the place where it is written: a fragment
/// that comes from the raw text of a child holds no `<`, and a fragment that
/// comes from the raw value of an attribute holds no `"`.
pub proof fn lemma_raw_text_stays_in_place<E: Element>(element: E, events: Seq<E::Event>, at: int)
    requires
        0 <= at < document(element, events).len(),
    ensures
        document_origins(element, events)[at] is Text ==> !document(element, events)[at].contains(
            '<',
        ),
        document_origins(element, events)[at] is Value ==> !document(element, events)[at].contains(
            '"',
        ),
{
    lemma_document_origins(element, events);
    match document_origins(element, events)[at] {
        Origin::Text(raw) => lemma_element_text_escaped(raw),
        Origin::Value(raw) => lemma_attribute_value_escaped(raw),
        _ => {},
    }
}

} // verus!
