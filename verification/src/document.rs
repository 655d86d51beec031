//! The document of an element: the fragments that its events amount to.

use crate::element::Element;
use crate::element::Node;
use crate::escape::escape_attribute_value;
use crate::fragment::attribute_open_text;
use crate::fragment::close_text;
use crate::fragment::content_text;
use crate::fragment::open_text;
use crate::fragment::quote_text;
use crate::fragment::tag_end_text;
use vstd::prelude::*;

verus! {

/// Whether `event` is a child of the element.
pub open spec fn is_child<E: Element>(element: E, event: E::Event) -> bool {
    element.node_of(event) is Child
}

/// The fragments that one event contributes by itself.
pub open spec fn event_text<E: Element>(element: E, event: E::Event) -> Seq<Seq<char>> {
    match element.node_of(event) {
        Node::Attribute(attribute) => match element.attribute_of(attribute) {
            Some((name, value)) => attribute_text(name, value),
            None => Seq::empty(),
        },
        Node::Child(child) => seq![content_text(element.content_of(child))],
    }
}

/// The three fragments of an attribute: a space, the name and `="`; the
/// escaped value; the closing quote.
pub open spec fn attribute_text(name: Seq<char>, value: Seq<char>) -> Seq<Seq<char>> {
    seq![attribute_open_text(name), escape_attribute_value(value), quote_text()]
}

/// The fragments of the attributes among `events`, in order.
pub open spec fn attributes_text<E: Element>(element: E, events: Seq<E::Event>) -> Seq<Seq<char>>
    decreases events.len(),
{
    if events.len() == 0 {
        Seq::empty()
    } else if is_child(element, events.last()) {
        attributes_text(element, events.drop_last())
    } else {
        attributes_text(element, events.drop_last()) + event_text(element, events.last())
    }
}

/// The fragments of the children among `events`, in order.
pub open spec fn children_text<E: Element>(element: E, events: Seq<E::Event>) -> Seq<Seq<char>>
    decreases events.len(),
{
    if events.len() == 0 {
        Seq::empty()
    } else if is_child(element, events.last()) {
        children_text(element, events.drop_last()) + event_text(element, events.last())
    } else {
        children_text(element, events.drop_last())
    }
}

/// Whether one of `events` is a child.
pub open spec fn has_child<E: Element>(element: E, events: Seq<E::Event>) -> bool {
    exists|i: int| 0 <= i < events.len() && is_child(element, #[trigger] events[i])
}

/// Whether the event at index `at` is an attribute that comes after a child.
pub open spec fn misplaced<E: Element>(element: E, events: Seq<E::Event>, at: int) -> bool {
    &&& 0 <= at < events.len()
    &&& !is_child(element, events[at])
    &&& exists|before: int| 0 <= before < at && is_child(element, #[trigger] events[before])
}

/// Whether the event at index `at` is the first attribute that comes after a
/// child.
pub open spec fn first_misplaced<E: Element>(element: E, events: Seq<E::Event>, at: int) -> bool {
    &&& misplaced(element, events, at)
    &&& forall|earlier: int| 0 <= earlier < at ==> !misplaced(element, events, earlier)
}

/// Whether all attributes among `events` come before all children.
pub open spec fn attributes_first<E: Element>(element: E, events: Seq<E::Event>) -> bool {
    forall|at: int| !misplaced(element, events, at)
}

/// The complete output for an element with the given events: the opening
/// tag, the attributes, one `>`, the children, the closing tag.
pub open spec fn document<E: Element>(element: E, events: Seq<E::Event>) -> Seq<Seq<char>> {
    seq![open_text(element.tag())] + attributes_text(element, events) + seq![tag_end_text()]
        + children_text(element, events) + seq![close_text(element.tag())]
}

/// The texts of a sequence of output fragments.
pub open spec fn texts<E: Element>(element: E, outputs: Seq<E::Output>) -> Seq<Seq<char>> {
    Seq::new(outputs.len(), |i: int| element.text_of(outputs[i]))
}

/// The fragments of `parts` written one after the other.
pub open spec fn joined(parts: Seq<Seq<char>>) -> Seq<char>
    decreases parts.len(),
{
    if parts.len() == 0 {
        Seq::empty()
    } else {
        joined(parts.drop_last()) + parts.last()
    }
}

/// Events without a child contribute no children fragments.
pub proof fn lemma_no_children<E: Element>(element: E, events: Seq<E::Event>)
    requires
        forall|i: int| 0 <= i < events.len() ==> !is_child(element, events[i]),
    ensures
        children_text(element, events) == Seq::<Seq<char>>::empty(),
    decreases events.len(),
{
    if events.len() > 0 {
        lemma_no_children(element, events.drop_last());
    }
}

/// Events that are all children contribute no attribute fragments, and none
/// of them is out of place.
pub proof fn lemma_no_attributes<E: Element>(element: E, events: Seq<E::Event>)
    requires
        forall|i: int| 0 <= i < events.len() ==> is_child(element, events[i]),
    ensures
        attributes_first(element, events),
        attributes_text(element, events) == Seq::<Seq<char>>::empty(),
    decreases events.len(),
{
    if events.len() > 0 {
        lemma_no_attributes(element, events.drop_last());
    }
}

/// An element without children still ends its opening tag: its document is
/// the opening of the tag, the attributes, `>` and the closing tag.
pub proof fn lemma_childless_document<E: Element>(element: E, events: Seq<E::Event>)
    requires
        forall|i: int| 0 <= i < events.len() ==> !is_child(element, events[i]),
    ensures
        attributes_first(element, events),
        document(element, events) == seq![open_text(element.tag())] + attributes_text(
            element,
            events,
        ) + seq![tag_end_text(), close_text(element.tag())],
{
    lemma_no_children(element, events);
    assert(document(element, events) =~= seq![open_text(element.tag())] + attributes_text(
        element,
        events,
    ) + seq![tag_end_text(), close_text(element.tag())]);
}

/// Joining works fragment by fragment: the text of two runs of fragments is
/// the text of the first followed by the text of the second.
pub proof fn lemma_joined_concat(first: Seq<Seq<char>>, second: Seq<Seq<char>>)
    ensures
        joined(first + second) == joined(first) + joined(second),
    decreases second.len(),
{
    if second.len() == 0 {
        assert(first + second =~= first);
        assert(joined(first) + joined(second) =~= joined(first));
    } else {
        assert((first + second).drop_last() =~= first + second.drop_last());
        lemma_joined_concat(first, second.drop_last());
        assert(joined(first + second) =~= joined(first) + joined(second));
    }
}

} // verus!
